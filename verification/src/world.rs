//! The world grid and the per-tick cellular-automaton update: a dense
//! row-major array of cells, bounded accessors, the RGBA serialization the
//! renderer consumes, and the sweep that advances every particle by one
//! tick.

use vstd::prelude::*;
use crate::coords::{Coordinate, WORLD_SIZE, unit_neighbors, unit_neighbors_spec};
use crate::physics::{Vector2, Force, integrate, destination, integrate_spec, destination_spec, apply_forces_spec};
use crate::raster::{path, path_seq};
use crate::rng::{Coin, scripted_flip, sat_advance};
use crate::math::SCALE;

verus! {

/// One grid cell: empty air, or a sand particle carrying its velocity.
#[derive(Clone, Copy, PartialEq, Eq, Structural, Debug)]
pub enum CellElement {
    Air,
    Sand(Vector2),
}

impl CellElement {
    pub open spec fn is_sand(self) -> bool {
        self is Sand
    }
}

/// Number of cells in the grid.
pub open spec fn grid_len() -> int {
    (WORLD_SIZE as int) * (WORLD_SIZE as int)
}

/// Row-major index of an in-bounds coordinate.
pub open spec fn cell_index(c: Coordinate) -> int {
    (c.y as int) * (WORLD_SIZE as int) + (c.x as int)
}

/// A sand particle at rest: zero velocity.
pub open spec fn resting_sand() -> CellElement {
    CellElement::Sand(Vector2 { x: 0i64, y: 0i64 })
}

/// The `k`-th byte (0..4) of a cell's RGBA color: air is opaque blue,
/// sand opaque yellow, independent of the particle's velocity.
pub open spec fn cell_color(c: CellElement, k: int) -> u8 {
    match c {
        CellElement::Air => if k == 2 || k == 3 {
            255
        } else {
            0
        },
        CellElement::Sand(_) => if k == 0 || k == 1 || k == 3 {
            255
        } else {
            0
        },
    }
}

/// The flat RGBA serialization of a grid: 4 bytes per cell, row-major, no
/// padding.
pub open spec fn pixels_spec(cells: Seq<CellElement>) -> Seq<u8> {
    Seq::new((cells.len() * 4) as nat, |j: int| cell_color(cells[j / 4], j % 4))
}

/// Reading an arbitrary coordinate: a cell inside the grid, nothing
/// outside it.
pub open spec fn get_cell_spec(cells: Seq<CellElement>, c: Coordinate) -> Option<CellElement> {
    if c.in_bounds_spec() {
        Some(cells[cell_index(c)])
    } else {
        None
    }
}

/// Exchanging two cells; the grid is untouched unless both coordinates
/// are inside it.
pub open spec fn swap_spec(cells: Seq<CellElement>, a: Coordinate, b: Coordinate) -> Seq<
    CellElement,
> {
    if a.in_bounds_spec() && b.in_bounds_spec() {
        cells.update(cell_index(a), cells[cell_index(b)]).update(cell_index(b), cells[cell_index(a)])
    } else {
        cells
    }
}

/// An in-bounds coordinate's row-major index lies inside the grid.
pub proof fn lemma_cell_index_bounds(c: Coordinate)
    requires
        c.in_bounds_spec(),
    ensures
        0 <= cell_index(c) < grid_len(),
        grid_len() == 10000,
{
    assert((c.y as int) * (WORLD_SIZE as int) + (c.x as int) < (WORLD_SIZE as int) * (
    WORLD_SIZE as int)) by (nonlinear_arith)
        requires
            c.x < WORLD_SIZE,
            c.y < WORLD_SIZE,
    ;
    assert(0 <= (c.y as int) * (WORLD_SIZE as int)) by (nonlinear_arith);
}

/// The SIDE x SIDE dense grid of cells, row-major.  Created all-air,
/// mutated in place every tick, never resized.
pub struct World {
    cells: Vec<CellElement>,
}

impl View for World {
    type V = Seq<CellElement>;

    closed spec fn view(&self) -> Seq<CellElement> {
        self.cells@
    }
}

impl World {
    /// The grid's only structural invariant: its backing storage has
    /// exactly one cell per coordinate.
    pub closed spec fn wf(self) -> bool {
        self.cells@.len() == grid_len()
    }

    /// State of the cell at `coordinate`: `None` outside the grid, never a
    /// panic.
    pub fn get_cell(&self, coordinate: &Coordinate) -> (r: Option<CellElement>)
        requires
            self.wf(),
        ensures
            r == get_cell_spec(self@, *coordinate),
    {
        if coordinate.in_bounds() {
            proof {
                lemma_cell_index_bounds(*coordinate);
            }
            let idx = (coordinate.y as usize) * (WORLD_SIZE as usize) + (coordinate.x as usize);
            Some(self.cells[idx])
        } else {
            None
        }
    }

    /// Overwrite the cell at `coordinate`, which the caller has already
    /// checked to be inside the grid.
    pub fn set_cell(&mut self, coordinate: &Coordinate, cell: CellElement)
        requires
            old(self).wf(),
            coordinate.in_bounds_spec(),
        ensures
            final(self).wf(),
            final(self)@ == old(self)@.update(cell_index(*coordinate), cell),
    {
        proof {
            lemma_cell_index_bounds(*coordinate);
        }
        let idx = (coordinate.y as usize) * (WORLD_SIZE as usize) + (coordinate.x as usize);
        self.cells.set(idx, cell);
    }

    /// Exchange two cells; silently a no-op unless both coordinates are
    /// inside the grid (the sweep only swaps cells it has already
    /// fetched).
    pub fn swap_cells(&mut self, a_coordinate: &Coordinate, b_coordinate: &Coordinate)
        requires
            old(self).wf(),
        ensures
            final(self).wf(),
            final(self)@ == swap_spec(old(self)@, *a_coordinate, *b_coordinate),
    {
        if let Some(a) = self.get_cell(a_coordinate) {
            if let Some(b) = self.get_cell(b_coordinate) {
                self.set_cell(a_coordinate, b);
                self.set_cell(b_coordinate, a);
            }
        }
    }

    /// The grid serialized for display: `SIDE * SIDE * 4` RGBA bytes,
    /// row-major, one fixed color per cell tag.
    pub fn pixels(&self) -> (r: Vec<u8>)
        requires
            self.wf(),
        ensures
            r@ == pixels_spec(self@),
    {
        let mut r: Vec<u8> = Vec::new();
        let n = self.cells.len();
        let mut i: usize = 0;
        while i < n
            invariant
                0 <= i <= n,
                n == self@.len(),
                self.wf(),
                r@.len() == 4 * i,
                forall|j: int| 0 <= j < r@.len() ==> r@[j] == cell_color(self@[j / 4], j % 4),
            decreases n - i,
        {
            let cell = self.cells[i];
            match cell {
                CellElement::Air => {
                    r.push(0);
                    r.push(0);
                    r.push(255);
                    r.push(255);
                },
                CellElement::Sand(..) => {
                    r.push(255);
                    r.push(255);
                    r.push(0);
                    r.push(255);
                },
            }
            proof {
                let base = 4 * (i as int);
                vstd::arithmetic::div_mod::lemma_fundamental_div_mod_converse(base, 4, i as int, 0);
                vstd::arithmetic::div_mod::lemma_fundamental_div_mod_converse(
                    base + 1,
                    4,
                    i as int,
                    1,
                );
                vstd::arithmetic::div_mod::lemma_fundamental_div_mod_converse(
                    base + 2,
                    4,
                    i as int,
                    2,
                );
                vstd::arithmetic::div_mod::lemma_fundamental_div_mod_converse(
                    base + 3,
                    4,
                    i as int,
                    3,
                );
            }
            i = i + 1;
        }
        proof {
            assert(r@ =~= pixels_spec(self@));
        }
        r
    }
}

/// Whether the cell at mathematical position `(x, y)` lies inside the
/// grid and is empty: only such a cell can take a colliding particle.
pub open spec fn escape_ok(cells: Seq<CellElement>, x: int, y: int) -> bool {
    &&& 0 <= x < WORLD_SIZE
    &&& 0 <= y < WORLD_SIZE
    &&& cells[y * (WORLD_SIZE as int) + x] == CellElement::Air
}

/// Bring the particle at `cur` to rest (a no-op off the grid).
pub open spec fn zero_at(cells: Seq<CellElement>, cur: Coordinate) -> Seq<CellElement> {
    if cur.in_bounds_spec() {
        cells.update(cell_index(cur), resting_sand())
    } else {
        cells
    }
}

/// Collision resolution for a particle at `cur` blocked at `step`: the
/// two diagonal escape candidates of the unit step are tried in the order
/// the coin chose; the first empty in-bounds one takes the particle,
/// otherwise it comes to rest at `cur` with zero velocity.
pub open spec fn collide_spec(
    cells: Seq<CellElement>,
    cur: Coordinate,
    step: Coordinate,
    flip: bool,
) -> Seq<CellElement> {
    let d = (((step.x as int) - (cur.x as int)) as i64, ((step.y as int) - (cur.y as int)) as i64);
    match unit_neighbors_spec(d) {
        Some(ns) => {
            let first = if flip {
                ns.1
            } else {
                ns.0
            };
            let second = if flip {
                ns.0
            } else {
                ns.1
            };
            let fx = cur.x as int + first.0 as int;
            let fy = cur.y as int + first.1 as int;
            let sx = cur.x as int + second.0 as int;
            let sy = cur.y as int + second.1 as int;
            if escape_ok(cells, fx, fy) {
                swap_spec(cells, cur, Coordinate { x: fx as u32, y: fy as u32 })
            } else if escape_ok(cells, sx, sy) {
                swap_spec(cells, cur, Coordinate { x: sx as u32, y: sy as u32 })
            } else {
                zero_at(cells, cur)
            }
        },
        None => zero_at(cells, cur),
    }
}

/// The walk of a particle at `cur` along the path suffix starting at `i`:
/// it stops at the grid edge, resolves a collision at the first occupied
/// path cell, and otherwise swaps itself one cell further.
pub open spec fn walk_spec(
    cells: Seq<CellElement>,
    cur: Coordinate,
    p: Seq<Coordinate>,
    i: int,
    flip: bool,
) -> Seq<CellElement>
    decreases p.len() - i,
{
    if i < 0 || i >= p.len() {
        cells
    } else {
        let step = p[i];
        if !step.in_bounds_spec() {
            cells
        } else if cells[cell_index(step)].is_sand() {
            collide_spec(cells, cur, step, flip)
        } else {
            walk_spec(swap_spec(cells, cur, step), step, p, i + 1, flip)
        }
    }
}

/// The per-particle step: integrate the velocity, commit it in place,
/// then walk the rasterized path to the destination.
pub open spec fn update_cell_spec(
    cells: Seq<CellElement>,
    coordinate: Coordinate,
    v: Vector2,
    forces: Seq<Force>,
    flip: bool,
) -> Seq<CellElement> {
    let vi = integrate_spec(v, coordinate, forces);
    let d = destination_spec(coordinate, vi);
    let w = Vector2 { x: d.1.0 as i64, y: d.1.1 as i64 };
    let dc = Coordinate { x: d.0.0 as u32, y: d.0.1 as u32 };
    let cells1 = cells.update(cell_index(coordinate), CellElement::Sand(w));
    if dc == coordinate {
        cells1
    } else {
        walk_spec(cells1, coordinate, path_seq(coordinate, dc), 0, flip)
    }
}

/// One visited cell of the sweep: air is left alone, a particle takes its
/// per-particle step.
pub open spec fn visit_spec(
    cells: Seq<CellElement>,
    c: Coordinate,
    forces: Seq<Force>,
    flip: bool,
) -> Seq<CellElement> {
    match cells[cell_index(c)] {
        CellElement::Sand(v) => update_cell_spec(cells, c, v, forces, flip),
        CellElement::Air => cells,
    }
}

/// The coordinate the sweep visits `k`-th: bottom row first, left to
/// right within a row.
pub open spec fn coord_of_index(k: int) -> Coordinate {
    Coordinate { x: (k % (WORLD_SIZE as int)) as u32, y: (k / (WORLD_SIZE as int)) as u32 }
}

/// The grid after the sweep has visited its first `k` cells, reading each
/// cell as it stands when visited (an in-place, single-pass update: a
/// particle may be moved again by a later visit in the same tick), with
/// `flips[j]` the coin outcome drawn at the `j`-th visit.
pub open spec fn sweep_spec(
    cells: Seq<CellElement>,
    forces: Seq<Force>,
    flips: Seq<bool>,
    k: int,
) -> Seq<CellElement>
    decreases k,
{
    if k <= 0 {
        cells
    } else {
        visit_spec(
            sweep_spec(cells, forces, flips, k - 1),
            coord_of_index(k - 1),
            forces,
            flips[k - 1],
        )
    }
}

/// The outcomes a coin yields over `n` flips starting at script position
/// `p0`.
pub open spec fn scripted_run(script: Seq<bool>, p0: int, n: int) -> Seq<bool> {
    Seq::new(n as nat, |i: int| scripted_flip(script, p0 + i))
}

/// Number of sand particles on the grid.
pub open spec fn sand_count(cells: Seq<CellElement>) -> int
    decreases cells.len(),
{
    if cells.len() == 0 {
        0
    } else {
        sand_count(cells.drop_last()) + if cells.last().is_sand() {
            1int
        } else {
            0int
        }
    }
}

/// The sweep visits only in-bounds coordinates, and each exactly at its
/// own index.
pub proof fn lemma_coord_of_index_bounds(k: int)
    requires
        0 <= k < grid_len(),
    ensures
        coord_of_index(k).in_bounds_spec(),
        cell_index(coord_of_index(k)) == k,
{
    vstd::arithmetic::div_mod::lemma_mod_bound(k, WORLD_SIZE as int);
    vstd::arithmetic::div_mod::lemma_div_pos_is_pos(k, WORLD_SIZE as int);
    vstd::arithmetic::div_mod::lemma_div_is_ordered(k, grid_len() - 1, WORLD_SIZE as int);
    vstd::arithmetic::div_mod::lemma_fundamental_div_mod_converse_div(
        grid_len() - 1,
        WORLD_SIZE as int,
        (WORLD_SIZE - 1) as int,
        (WORLD_SIZE - 1) as int,
    );
    vstd::arithmetic::div_mod::lemma_fundamental_div_mod(k, WORLD_SIZE as int);
}

/// Overwriting one cell changes the sand count by the difference of the
/// two tags.
proof fn lemma_update_count(cells: Seq<CellElement>, i: int, v: CellElement)
    requires
        0 <= i < cells.len(),
    ensures
        sand_count(cells.update(i, v)) == sand_count(cells) - (if cells[i].is_sand() {
            1int
        } else {
            0int
        }) + (if v.is_sand() {
            1int
        } else {
            0int
        }),
    decreases cells.len(),
{
    let cu = cells.update(i, v);
    if i == cells.len() - 1 {
        assert(cu.drop_last() =~= cells.drop_last());
    } else {
        lemma_update_count(cells.drop_last(), i, v);
        assert(cu.drop_last() =~= cells.drop_last().update(i, v));
    }
}

/// Swapping two cells never changes the sand count.
proof fn lemma_swap_count(cells: Seq<CellElement>, a: Coordinate, b: Coordinate)
    requires
        cells.len() == grid_len(),
    ensures
        sand_count(swap_spec(cells, a, b)) == sand_count(cells),
        swap_spec(cells, a, b).len() == cells.len(),
{
    if a.in_bounds_spec() && b.in_bounds_spec() {
        lemma_cell_index_bounds(a);
        lemma_cell_index_bounds(b);
        let ia = cell_index(a);
        let ib = cell_index(b);
        lemma_update_count(cells, ia, cells[ib]);
        lemma_update_count(cells.update(ia, cells[ib]), ib, cells[ia]);
    }
}

/// Bringing a particle to rest never changes the sand count.
proof fn lemma_zero_at_count(cells: Seq<CellElement>, cur: Coordinate)
    requires
        cells.len() == grid_len(),
        cur.in_bounds_spec() ==> cells[cell_index(cur)].is_sand(),
    ensures
        sand_count(zero_at(cells, cur)) == sand_count(cells),
        zero_at(cells, cur).len() == cells.len(),
{
    if cur.in_bounds_spec() {
        lemma_cell_index_bounds(cur);
        lemma_update_count(cells, cell_index(cur), resting_sand());
    }
}

/// Collision resolution never changes the sand count.
proof fn lemma_collide_count(
    cells: Seq<CellElement>,
    cur: Coordinate,
    step: Coordinate,
    flip: bool,
)
    requires
        cells.len() == grid_len(),
        cur.in_bounds_spec() ==> cells[cell_index(cur)].is_sand(),
    ensures
        sand_count(collide_spec(cells, cur, step, flip)) == sand_count(cells),
        collide_spec(cells, cur, step, flip).len() == cells.len(),
{
    let d = (((step.x as int) - (cur.x as int)) as i64, ((step.y as int) - (cur.y as int)) as i64);
    match unit_neighbors_spec(d) {
        Some(ns) => {
            let first = if flip {
                ns.1
            } else {
                ns.0
            };
            let second = if flip {
                ns.0
            } else {
                ns.1
            };
            let fx = cur.x as int + first.0 as int;
            let fy = cur.y as int + first.1 as int;
            let sx = cur.x as int + second.0 as int;
            let sy = cur.y as int + second.1 as int;
            if escape_ok(cells, fx, fy) {
                lemma_swap_count(cells, cur, Coordinate { x: fx as u32, y: fy as u32 });
            } else if escape_ok(cells, sx, sy) {
                lemma_swap_count(cells, cur, Coordinate { x: sx as u32, y: sy as u32 });
            } else {
                lemma_zero_at_count(cells, cur);
            }
        },
        None => {
            lemma_zero_at_count(cells, cur);
        },
    }
}

/// The path walk never changes the sand count.
proof fn lemma_walk_count(
    cells: Seq<CellElement>,
    cur: Coordinate,
    p: Seq<Coordinate>,
    i: int,
    flip: bool,
)
    requires
        cells.len() == grid_len(),
        cur.in_bounds_spec(),
        cells[cell_index(cur)].is_sand(),
    ensures
        sand_count(walk_spec(cells, cur, p, i, flip)) == sand_count(cells),
        walk_spec(cells, cur, p, i, flip).len() == cells.len(),
    decreases p.len() - i,
{
    if 0 <= i < p.len() {
        let step = p[i];
        if !step.in_bounds_spec() {
        } else if cells[cell_index(step)].is_sand() {
            lemma_collide_count(cells, cur, step, flip);
        } else {
            lemma_cell_index_bounds(cur);
            lemma_cell_index_bounds(step);
            lemma_swap_count(cells, cur, step);
            let swapped = swap_spec(cells, cur, step);
            assert(swapped[cell_index(step)] == cells[cell_index(cur)]);
            lemma_walk_count(swapped, step, p, i + 1, flip);
        }
    }
}

/// The per-particle step never changes the sand count.
proof fn lemma_update_cell_count(
    cells: Seq<CellElement>,
    c: Coordinate,
    v: Vector2,
    forces: Seq<Force>,
    flip: bool,
)
    requires
        cells.len() == grid_len(),
        c.in_bounds_spec(),
        cells[cell_index(c)] == CellElement::Sand(v),
    ensures
        sand_count(update_cell_spec(cells, c, v, forces, flip)) == sand_count(cells),
        update_cell_spec(cells, c, v, forces, flip).len() == cells.len(),
{
    lemma_cell_index_bounds(c);
    let vi = integrate_spec(v, c, forces);
    let d = destination_spec(c, vi);
    let w = Vector2 { x: d.1.0 as i64, y: d.1.1 as i64 };
    let dc = Coordinate { x: d.0.0 as u32, y: d.0.1 as u32 };
    let cells1 = cells.update(cell_index(c), CellElement::Sand(w));
    lemma_update_count(cells, cell_index(c), CellElement::Sand(w));
    if dc != c {
        lemma_walk_count(cells1, c, path_seq(c, dc), 0, flip);
    }
}

/// One sweep visit never changes the sand count.
proof fn lemma_visit_count(cells: Seq<CellElement>, c: Coordinate, forces: Seq<Force>, flip: bool)
    requires
        cells.len() == grid_len(),
        c.in_bounds_spec(),
    ensures
        sand_count(visit_spec(cells, c, forces, flip)) == sand_count(cells),
        visit_spec(cells, c, forces, flip).len() == cells.len(),
{
    lemma_cell_index_bounds(c);
    match cells[cell_index(c)] {
        CellElement::Sand(v) => {
            lemma_update_cell_count(cells, c, v, forces, flip);
        },
        CellElement::Air => {
        },
    }
}

/// Law (conservation): a sweep neither creates nor destroys particles —
/// whatever the forces and however every tie-break falls, the grid holds
/// exactly as many sand particles after the tick as before it.
pub proof fn lemma_sweep_count(
    cells: Seq<CellElement>,
    forces: Seq<Force>,
    flips: Seq<bool>,
    k: int,
)
    requires
        cells.len() == grid_len(),
        0 <= k <= grid_len(),
    ensures
        sand_count(sweep_spec(cells, forces, flips, k)) == sand_count(cells),
        sweep_spec(cells, forces, flips, k).len() == cells.len(),
    decreases k,
{
    if k > 0 {
        lemma_sweep_count(cells, forces, flips, k - 1);
        lemma_coord_of_index_bounds(k - 1);
        lemma_visit_count(
            sweep_spec(cells, forces, flips, k - 1),
            coord_of_index(k - 1),
            forces,
            flips[k - 1],
        );
    }
}

/// Two flip sequences that agree on the first `k` outcomes drive the
/// sweep to the same grid.
proof fn lemma_sweep_prefix(
    cells: Seq<CellElement>,
    forces: Seq<Force>,
    bs1: Seq<bool>,
    bs2: Seq<bool>,
    k: int,
)
    requires
        forall|i: int| 0 <= i < k ==> bs1[i] == bs2[i],
    ensures
        sweep_spec(cells, forces, bs1, k) == sweep_spec(cells, forces, bs2, k),
    decreases k,
{
    if k > 0 {
        lemma_sweep_prefix(cells, forces, bs1, bs2, k - 1);
    }
}

/// Law (idempotent rest state): a particle at rest (zero velocity) whose
/// cell below is occupied and whose two lower-diagonal neighbors offer no
/// escape neither moves nor changes the grid in its visit — its velocity
/// is exactly zero afterwards — whichever way the coin falls, and with no
/// forces acting.
pub proof fn lemma_rest_state(cells: Seq<CellElement>, c: Coordinate, flip: bool)
    requires
        cells.len() == grid_len(),
        c.in_bounds_spec(),
        1 <= c.y,
        cells[cell_index(c)] == resting_sand(),
        cells[((c.y as int) - 1) * (WORLD_SIZE as int) + (c.x as int)].is_sand(),
        !escape_ok(cells, (c.x as int) - 1, (c.y as int) - 1),
        !escape_ok(cells, (c.x as int) + 1, (c.y as int) - 1),
    ensures
        visit_spec(cells, c, Seq::<Force>::empty(), flip) == cells,
{
    lemma_cell_index_bounds(c);
    let zero = Vector2 { x: 0i64, y: 0i64 };
    let no_forces = Seq::<Force>::empty();
    // Integration: gravity then friction leave the particle a twentieth of
    // a cell of downward speed.
    let vi = integrate_spec(zero, c, no_forces);
    assert(apply_forces_spec((0, -300), no_forces, c) == ((0int, -300int)));
    assert((0int) * (0int) == 0 && (-300int) * (-300int) == 90000) by (nonlinear_arith);
    assert((300int) * (300int) == 90000 && (301int) * (301int) == 90601) by (nonlinear_arith);
    crate::math::lemma_isqrt_val(90000, 300);
    assert(vi == ((0int, -50int)));
    // Discretization: one cell straight down.
    let d = destination_spec(c, vi);
    vstd::arithmetic::div_mod::lemma_div_multiples_vanish(c.x as int, SCALE as int);
    assert((SCALE as int) * (c.x as int) + 0 == (SCALE as int) * (c.x as int));
    vstd::arithmetic::div_mod::lemma_fundamental_div_mod_converse_div(
        (SCALE as int) * (c.y as int) - 50,
        SCALE as int,
        (c.y as int) - 1,
        950,
    );
    assert(d == ((((c.x as int), (c.y as int) - 1), (0int, -50int))));
    let w = Vector2 { x: 0i64, y: -50i64 };
    let dc = Coordinate { x: c.x, y: (c.y - 1) as u32 };
    assert(update_cell_spec(cells, c, zero, no_forces, flip) == walk_spec(
        cells.update(cell_index(c), CellElement::Sand(w)),
        c,
        path_seq(c, dc),
        0,
        flip,
    ));
    let cells1 = cells.update(cell_index(c), CellElement::Sand(w));
    // The path is the single cell below.
    let p = path_seq(c, dc);
    assert(crate::raster::delta(c.x, dc.x) == 0 && crate::raster::delta(c.y, dc.y) == 1);
    assert(p.len() == 1);
    crate::raster::lemma_path_vertical(c, dc, 1);
    assert(1int * crate::raster::step_toward(c.y as int, dc.y as int) == -1) by (nonlinear_arith)
        requires
            crate::raster::step_toward(c.y as int, dc.y as int) == -1,
    ;
    assert(p[0] == dc);
    // The cell below is occupied, so the walk collides at once.
    assert(cell_index(dc) == cell_index(c) - (WORLD_SIZE as int));
    assert(cells1[cell_index(dc)].is_sand());
    assert(walk_spec(cells1, c, p, 0, flip) == collide_spec(cells1, c, dc, flip));
    // Neither lower diagonal accepts the particle, so it is zeroed where
    // it stands, which changes nothing.
    assert(unit_neighbors_spec((0i64, -1i64)) == Some((((-1i64, -1i64), (1i64, -1i64)))));
    assert(!escape_ok(cells1, (c.x as int) - 1, (c.y as int) - 1));
    assert(!escape_ok(cells1, (c.x as int) + 1, (c.y as int) - 1));
    assert(collide_spec(cells1, c, dc, flip) == zero_at(cells1, c));
    assert(zero_at(cells1, c) =~= cells);
}

impl World {
    /// The per-particle step for the cell at `coordinate`, whose state
    /// `cell` was read as the sweep reached it; `flip` is this visit's
    /// tie-break outcome.
    #[verifier::loop_isolation(false)]
    fn update_cell(&mut self, coordinate: Coordinate, cell: CellElement, forces: &Vec<Force>, flip: bool)
        requires
            old(self).wf(),
            coordinate.in_bounds_spec(),
            cell == old(self)@[cell_index(coordinate)],
            forall|i: int| 0 <= i < forces@.len() ==> (#[trigger] forces@[i]).wf(),
        ensures
            final(self).wf(),
            final(self)@ == visit_spec(old(self)@, coordinate, forces@, flip),
    {
        let velocity = match cell {
            CellElement::Sand(v) => v,
            CellElement::Air => {
                return ;
            },
        };
        let vi = integrate(velocity, coordinate, forces);
        let (dest, w) = destination(coordinate, vi);
        proof {
            lemma_cell_index_bounds(coordinate);
            let dsp = destination_spec(coordinate, integrate_spec(velocity, coordinate, forces@));
            assert(w == (Vector2 { x: dsp.1.0 as i64, y: dsp.1.1 as i64 }));
            assert(dest == (Coordinate { x: dsp.0.0 as u32, y: dsp.0.1 as u32 }));
        }
        self.set_cell(&coordinate, CellElement::Sand(w));
        let ghost cells1 = self@;
        if dest.x == coordinate.x && dest.y == coordinate.y {
            proof {
                assert(dest == coordinate);
            }
            return ;
        }
        proof {
            assert(dest != coordinate);
        }
        let p = path(&coordinate, &dest);
        let mut cur = coordinate;
        let mut i: usize = 0;
        while i < p.len()
            invariant
                self.wf(),
                0 <= i <= p@.len(),
                cur.in_bounds_spec(),
                walk_spec(cells1, coordinate, p@, 0, flip) == walk_spec(
                    self@,
                    cur,
                    p@,
                    i as int,
                    flip,
                ),
            decreases p@.len() - i,
        {
            let step = p[i];
            if !step.in_bounds() {
                return ;
            }
            proof {
                lemma_cell_index_bounds(step);
            }
            let blocked = match self.get_cell(&step) {
                Some(CellElement::Sand(..)) => true,
                _ => false,
            };
            if blocked {
                let d = step.difference(&cur);
                let ghost pre = self@;
                if let Some(ns) = unit_neighbors(d) {
                    let (first, second) = if flip {
                        (ns.1, ns.0)
                    } else {
                        (ns.0, ns.1)
                    };
                    let n1x = cur.x as i64 + first.0;
                    let n1y = cur.y as i64 + first.1;
                    if 0 <= n1x && n1x < WORLD_SIZE as i64 && 0 <= n1y && n1y < WORLD_SIZE as i64 {
                        let c1 = Coordinate { x: n1x as u32, y: n1y as u32 };
                        let first_empty = match self.get_cell(&c1) {
                            Some(CellElement::Air) => true,
                            _ => false,
                        };
                        if first_empty {
                            self.swap_cells(&cur, &c1);
                            proof {
                                assert(self@ == collide_spec(pre, cur, step, flip));
                            }
                            return ;
                        }
                    }
                    let n2x = cur.x as i64 + second.0;
                    let n2y = cur.y as i64 + second.1;
                    if 0 <= n2x && n2x < WORLD_SIZE as i64 && 0 <= n2y && n2y < WORLD_SIZE as i64 {
                        let c2 = Coordinate { x: n2x as u32, y: n2y as u32 };
                        let second_empty = match self.get_cell(&c2) {
                            Some(CellElement::Air) => true,
                            _ => false,
                        };
                        if second_empty {
                            self.swap_cells(&cur, &c2);
                            proof {
                                assert(self@ == collide_spec(pre, cur, step, flip));
                            }
                            return ;
                        }
                    }
                }
                self.set_cell(&cur, CellElement::Sand(Vector2::zeros()));
                proof {
                    assert(self@ == collide_spec(pre, cur, step, flip));
                }
                return ;
            } else {
                self.swap_cells(&cur, &step);
                cur = step;
                i = i + 1;
            }
        }
    }

    /// Advance the whole grid by one tick: a fixed bottom-to-top,
    /// left-to-right sweep over every cell, each visited cell reading the
    /// grid as earlier visits of the same tick left it, with one
    /// tie-break coin drawn per visit so that the coin stream's position
    /// does not depend on the grid's content.
    #[verifier::loop_isolation(false)]
    pub fn update(&mut self, forces: &Vec<Force>, coin: &mut Coin)
        requires
            old(self).wf(),
            forall|i: int| 0 <= i < forces@.len() ==> (#[trigger] forces@[i]).wf(),
        ensures
            final(self).wf(),
            exists|bs: Seq<bool>|
                bs.len() == grid_len() && final(self)@ == #[trigger] sweep_spec(
                    old(self)@,
                    forces@,
                    bs,
                    grid_len(),
                ),
            old(coin).is_scripted() ==> final(self)@ == sweep_spec(
                old(self)@,
                forces@,
                scripted_run(old(coin).script(), old(coin).pos(), grid_len()),
                grid_len(),
            ),
            sand_count(final(self)@) == sand_count(old(self)@),
            final(coin).is_scripted() == old(coin).is_scripted(),
            final(coin).script() == old(coin).script(),
            old(coin).is_scripted() ==> final(coin).pos() == sat_advance(
                old(coin).pos(),
                old(coin).script().len() as int,
                grid_len(),
            ),
    {
        let ghost cells0 = self@;
        let ghost scripted0 = coin.is_scripted();
        let ghost script0 = coin.script();
        let ghost pos0 = coin.pos();
        let ghost mut bs: Seq<bool> = Seq::empty();
        proof {
            lemma_cell_index_bounds(Coordinate { x: 0, y: 0 });
        }
        let n: usize = 10000;
        let mut k: usize = 0;
        while k < n
            invariant
                0 <= k <= n,
                n as int == grid_len(),
                self.wf(),
                bs.len() == k,
                self@ == sweep_spec(cells0, forces@, bs, k as int),
                coin.is_scripted() == scripted0,
                coin.script() == script0,
                scripted0 ==> coin.pos() == sat_advance(pos0, script0.len() as int, k as int),
                scripted0 ==> forall|i: int|
                    0 <= i < k ==> bs[i] == scripted_flip(script0, pos0 + i),
            decreases n - k,
        {
            proof {
                lemma_coord_of_index_bounds(k as int);
            }
            let x = (k % (WORLD_SIZE as usize)) as u32;
            let y = (k / (WORLD_SIZE as usize)) as u32;
            let coordinate = Coordinate { x, y };
            proof {
                assert(coordinate == coord_of_index(k as int));
                assert(coordinate.in_bounds_spec());
            }
            let cell = self.get_cell(&coordinate).unwrap();
            let b = coin.flip();
            let ghost before = self@;
            self.update_cell(coordinate, cell, forces, b);
            proof {
                let bs2 = bs.push(b);
                lemma_sweep_prefix(cells0, forces@, bs, bs2, k as int);
                assert(sweep_spec(cells0, forces@, bs2, k as int + 1) == visit_spec(
                    sweep_spec(cells0, forces@, bs2, k as int),
                    coord_of_index(k as int),
                    forces@,
                    bs2[k as int],
                ));
                assert(self@ == sweep_spec(cells0, forces@, bs2, k as int + 1));
                bs = bs2;
            }
            k = k + 1;
        }
        proof {
            lemma_sweep_count(cells0, forces@, bs, grid_len());
            assert(bs.len() == grid_len() && self@ == sweep_spec(
                cells0,
                forces@,
                bs,
                grid_len(),
            ));
            if scripted0 {
                assert(bs =~= scripted_run(script0, pos0, grid_len()));
            }
        }
    }
}

impl Default for World {
    /// The initial world: every cell is air.
    fn default() -> (w: World)
        ensures
            w.wf(),
            w@.len() == grid_len(),
            forall|i: int| 0 <= i < grid_len() ==> w@[i] == CellElement::Air,
    {
        proof {
            lemma_cell_index_bounds(Coordinate { x: 0, y: 0 });
        }
        let n: usize = 10000;
        let mut cells: Vec<CellElement> = Vec::new();
        let mut i: usize = 0;
        while i < n
            invariant
                0 <= i <= n,
                cells@.len() == i,
                forall|j: int| 0 <= j < i ==> cells@[j] == CellElement::Air,
            decreases n - i,
        {
            cells.push(CellElement::Air);
            i = i + 1;
        }
        World { cells }
    }
}

} // verus!
