//! Velocity integration for one particle and one tick: gravity, the
//! point forces within their distance band, then friction; and the
//! discretization of the resulting movement into a destination cell.
//!
//! All quantities are fixed-point integers counting thousandths (see
//! [`crate::math::SCALE`]); a velocity component is capped at
//! [`VEL_LIMIT`], the sanity bound on runaway forces.

use vstd::prelude::*;
use crate::coords::Coordinate;
use crate::math::{SCALE, clamp_spec, clamp_i64, isqrt, isqrt_spec};

verus! {

/// Downward gravity added to a particle's velocity every tick, in
/// thousandths of a cell per tick (x component).
pub const GRAVITY_X: i64 = 0;

/// Downward gravity added to a particle's velocity every tick, in
/// thousandths of a cell per tick (y component; negative y is down).
pub const GRAVITY_Y: i64 = -300;

/// Speed lost to air friction each tick, in thousandths.
pub const AIR_FRICTION: i64 = 250;

/// Cap on the absolute value of each velocity component, in thousandths:
/// one million cells per tick, far beyond any grid, so the cap only tames
/// runaway force arithmetic.
pub const VEL_LIMIT: i64 = 1_000_000_000;

/// Bound on a force's position components accepted by the simulation, in
/// thousandths (one million cells in either direction).
pub const POS_LIMIT: i64 = 1_000_000_000;

/// Bound on a force's strength accepted by the simulation, in thousandths.
pub const STRENGTH_LIMIT: i64 = 1_000_000;

/// A two-component fixed-point vector in thousandths, used for particle
/// velocities and force positions.
#[derive(Clone, Copy, PartialEq, Eq, Structural, Debug)]
pub struct Vector2 {
    pub x: i64,
    pub y: i64,
}

impl Vector2 {
    pub fn new(x: i64, y: i64) -> (v: Vector2)
        ensures
            v == (Vector2 { x, y }),
    {
        Vector2 { x, y }
    }

    pub fn zeros() -> (v: Vector2)
        ensures
            v == (Vector2 { x: 0i64, y: 0i64 }),
    {
        Vector2 { x: 0, y: 0 }
    }
}

/// An ephemeral inverse-distance point attractor (or repulsor, for a
/// negative strength), supplied anew by the driver each tick.  Distances
/// are compared squared, in thousandths of a squared cell.
#[derive(Clone, Copy, PartialEq, Eq, Structural, Debug)]
pub struct Force {
    pub position: Vector2,
    pub strength: i64,
    pub min_distance_squared: i64,
    pub max_distance_squared: i64,
}

impl Force {
    /// The bounds under which one tick of force arithmetic stays within
    /// the machine integers.
    pub open spec fn wf(self) -> bool {
        &&& -POS_LIMIT <= self.position.x <= POS_LIMIT
        &&& -POS_LIMIT <= self.position.y <= POS_LIMIT
        &&& -STRENGTH_LIMIT <= self.strength <= STRENGTH_LIMIT
    }
}

/// A velocity component clamped into the sanity band.
pub open spec fn clamped_v(x: int) -> int {
    clamp_spec(x, VEL_LIMIT as int)
}

/// Squared distance (in thousandths) between a force's position and the
/// center-of-cell position of `pos`.
pub open spec fn dist_sq_spec(f: Force, pos: Coordinate) -> int {
    let dx = f.position.x - SCALE * (pos.x as int);
    let dy = f.position.y - SCALE * (pos.y as int);
    (dx * dx + dy * dy) / (SCALE as int)
}

/// Whether `f` acts on a particle at `pos`: the squared distance must lie
/// inside the band `[min_distance_squared, max_distance_squared]`, both
/// ends inclusive, and must not vanish (a particle exactly at the force's
/// position has no direction to be pushed in).
pub open spec fn force_applies(f: Force, pos: Coordinate) -> bool {
    let d2 = dist_sq_spec(f, pos);
    0 < d2 && f.min_distance_squared <= d2 && d2 <= f.max_distance_squared
}

/// `|a| * |s| * SCALE / d2 / mag`, carrying the sign of `a * s`: one
/// component of `normalize(difference) * (strength / distance_squared)`
/// in fixed point.
pub open spec fn signed_scaled_div(a: int, s: int, d2: int, mag: int) -> int {
    let q = ((vstd::math::abs(a) * vstd::math::abs(s)) * SCALE) / d2 / mag;
    if (a < 0) != (s < 0) {
        -q
    } else {
        q
    }
}

/// The velocity change a single applying force contributes.
pub open spec fn force_delta(f: Force, pos: Coordinate) -> (int, int) {
    let dx = f.position.x - SCALE * (pos.x as int);
    let dy = f.position.y - SCALE * (pos.y as int);
    let d2 = (dx * dx + dy * dy) / (SCALE as int);
    let mag = isqrt_spec(dx * dx + dy * dy);
    (
        signed_scaled_div(dx, f.strength as int, d2, mag),
        signed_scaled_div(dy, f.strength as int, d2, mag),
    )
}

/// One force applied to a velocity: no change outside the distance band,
/// otherwise the delta is added and the result clamped.
pub open spec fn apply_force_spec(v: (int, int), f: Force, pos: Coordinate) -> (int, int) {
    if force_applies(f, pos) {
        let d = force_delta(f, pos);
        (clamped_v(v.0 + d.0), clamped_v(v.1 + d.1))
    } else {
        v
    }
}

/// The first `k` forces of `fs` applied in order.
pub open spec fn apply_forces_prefix(v: (int, int), fs: Seq<Force>, pos: Coordinate, k: int) -> (
    int,
    int,
)
    decreases k,
{
    if k <= 0 {
        v
    } else {
        apply_force_spec(apply_forces_prefix(v, fs, pos, k - 1), fs[k - 1], pos)
    }
}

/// All forces of `fs` applied in order.
pub open spec fn apply_forces_spec(v: (int, int), fs: Seq<Force>, pos: Coordinate) -> (int, int) {
    apply_forces_prefix(v, fs, pos, fs.len() as int)
}

/// One friction component: shrink `c` toward zero by `|c| * AIR_FRICTION
/// / mag`, never past zero and never flipping the sign.
pub open spec fn friction_component(c: int, mag: int) -> int {
    let q = (vstd::math::abs(c) * AIR_FRICTION) / mag;
    if c < 0 {
        c + q
    } else {
        c - q
    }
}

/// Friction: when the speed exceeds `AIR_FRICTION`, shrink the velocity by
/// `AIR_FRICTION` along its own direction; below that it is left alone.
pub open spec fn friction_spec(v: (int, int)) -> (int, int) {
    let m2 = v.0 * v.0 + v.1 * v.1;
    if m2 > AIR_FRICTION * AIR_FRICTION {
        let mag = isqrt_spec(m2);
        (friction_component(v.0, mag), friction_component(v.1, mag))
    } else {
        v
    }
}

/// A particle's velocity after one tick of force accumulation: clamp into
/// the sanity band, add gravity, apply each force in order, then friction.
pub open spec fn integrate_spec(v: Vector2, pos: Coordinate, fs: Seq<Force>) -> (int, int) {
    let v0 = (clamped_v(v.x as int), clamped_v(v.y as int));
    let v1 = (clamped_v(v0.0 + GRAVITY_X), clamped_v(v0.1 + GRAVITY_Y));
    friction_spec(apply_forces_spec(v1, fs, pos))
}

/// The destination cell of a particle at `pos` moving by `v`, and the
/// velocity it keeps: each axis is floored to a whole cell and clamped at
/// zero, zeroing that velocity component when the clamp hits.
pub open spec fn destination_spec(pos: Coordinate, v: (int, int)) -> ((int, int), (int, int)) {
    let dx = (SCALE * (pos.x as int) + v.0) / (SCALE as int);
    let dy = (SCALE * (pos.y as int) + v.1) / (SCALE as int);
    let rx = if dx < 0 {
        0
    } else {
        dx
    };
    let ry = if dy < 0 {
        0
    } else {
        dy
    };
    let wx = if dx < 0 {
        0
    } else {
        v.0
    };
    let wy = if dy < 0 {
        0
    } else {
        v.1
    };
    ((rx, ry), (wx, wy))
}

/// One tick of force accumulation and friction for a particle at `pos`
/// with velocity `v`, exactly as `integrate_spec` states it.
#[verifier::loop_isolation(false)]
pub fn integrate(v: Vector2, pos: Coordinate, forces: &Vec<Force>) -> (r: Vector2)
    requires
        pos.in_bounds_spec(),
        forall|i: int| 0 <= i < forces@.len() ==> (#[trigger] forces@[i]).wf(),
    ensures
        (r.x as int, r.y as int) == integrate_spec(v, pos, forces@),
        -VEL_LIMIT <= r.x <= VEL_LIMIT,
        -VEL_LIMIT <= r.y <= VEL_LIMIT,
{
    let mut vx = clamp_i64(v.x, VEL_LIMIT);
    let mut vy = clamp_i64(v.y, VEL_LIMIT);
    vx = clamp_i64(vx + GRAVITY_X, VEL_LIMIT);
    vy = clamp_i64(vy + GRAVITY_Y, VEL_LIMIT);
    let ghost v1: (int, int) = (vx as int, vy as int);
    let mut idx: usize = 0;
    while idx < forces.len()
        invariant
            0 <= idx <= forces@.len(),
            -VEL_LIMIT <= vx <= VEL_LIMIT,
            -VEL_LIMIT <= vy <= VEL_LIMIT,
            (vx as int, vy as int) == apply_forces_prefix(v1, forces@, pos, idx as int),
        decreases forces@.len() - idx,
    {
        let f = forces[idx];
        proof {
            assert(forces@[idx as int].wf());
        }
        let dx = f.position.x - SCALE * (pos.x as i64);
        let dy = f.position.y - SCALE * (pos.y as i64);
        proof {
            assert(0 <= (dx as int) * (dx as int) <= 1_100_000_000_000_000_000i64 && 0 <= (
            dy as int) * (dy as int) <= 1_100_000_000_000_000_000i64) by (nonlinear_arith)
                requires
                    -1_000_099_000i64 <= dx <= 1_000_099_000i64,
                    -1_000_099_000i64 <= dy <= 1_000_099_000i64,
            ;
        }
        let sq = dx * dx + dy * dy;
        let d2u = (sq as u64) / (SCALE as u64);
        proof {
            vstd::arithmetic::div_mod::lemma_div_nonincreasing(sq as int, SCALE as int);
            vstd::arithmetic::div_mod::lemma_div_pos_is_pos(sq as int, SCALE as int);
            assert(d2u as int == dist_sq_spec(f, pos));
        }
        let d2 = d2u as i64;
        if d2 > 0 && f.min_distance_squared <= d2 && d2 <= f.max_distance_squared {
            let mag = isqrt(sq as u64);
            proof {
                assert(force_applies(f, pos));
                if mag == 0 {
                    assert((sq as int) < (0 + 1) * (0 + 1));
                    assert(d2u == 0);
                }
                assert(mag >= 1);
            }
            let adx = if dx < 0 {
                (-dx) as u64
            } else {
                dx as u64
            };
            let ady = if dy < 0 {
                (-dy) as u64
            } else {
                dy as u64
            };
            let astr = if f.strength < 0 {
                (-f.strength) as u64
            } else {
                f.strength as u64
            };
            proof {
                assert((adx as int) * (astr as int) <= 1_000_099_000_000_000i64) by (nonlinear_arith)
                    requires
                        0 <= adx <= 1_000_099_000u64,
                        0 <= astr <= 1_000_000u64,
                ;
                assert((ady as int) * (astr as int) <= 1_000_099_000_000_000i64) by (nonlinear_arith)
                    requires
                        0 <= ady <= 1_000_099_000u64,
                        0 <= astr <= 1_000_000u64,
                ;
            }
            let numx = adx * astr * (SCALE as u64);
            let numy = ady * astr * (SCALE as u64);
            proof {
                vstd::arithmetic::div_mod::lemma_div_pos_is_pos(numx as int, d2u as int);
                vstd::arithmetic::div_mod::lemma_div_nonincreasing(numx as int, d2u as int);
                vstd::arithmetic::div_mod::lemma_div_pos_is_pos(numx as int / d2u as int, mag as int);
                vstd::arithmetic::div_mod::lemma_div_nonincreasing(numx as int / d2u as int, mag as int);
                vstd::arithmetic::div_mod::lemma_div_pos_is_pos(numy as int, d2u as int);
                vstd::arithmetic::div_mod::lemma_div_nonincreasing(numy as int, d2u as int);
                vstd::arithmetic::div_mod::lemma_div_pos_is_pos(numy as int / d2u as int, mag as int);
                vstd::arithmetic::div_mod::lemma_div_nonincreasing(numy as int / d2u as int, mag as int);
            }
            let qx = numx / d2u / mag;
            let qy = numy / d2u / mag;
            let dvx = if (dx < 0) != (f.strength < 0) {
                -(qx as i64)
            } else {
                qx as i64
            };
            let dvy = if (dy < 0) != (f.strength < 0) {
                -(qy as i64)
            } else {
                qy as i64
            };
            proof {
                assert(dvx as int == signed_scaled_div(
                    dx as int,
                    f.strength as int,
                    d2 as int,
                    mag as int,
                ));
                assert(dvy as int == signed_scaled_div(
                    dy as int,
                    f.strength as int,
                    d2 as int,
                    mag as int,
                ));
            }
            let ghost before: (int, int) = (vx as int, vy as int);
            vx = clamp_i64(vx + dvx, VEL_LIMIT);
            vy = clamp_i64(vy + dvy, VEL_LIMIT);
            proof {
                assert((vx as int, vy as int) == apply_force_spec(before, f, pos));
            }
        } else {
            proof {
                assert(!force_applies(f, pos));
            }
        }
        idx = idx + 1;
    }
    proof {
        assert((vx as int, vy as int) == apply_forces_spec(v1, forces@, pos));
        assert(0 <= (vx as int) * (vx as int) <= 1_000_000_000_000_000_000i64 && 0 <= (vy as int)
            * (vy as int) <= 1_000_000_000_000_000_000i64) by (nonlinear_arith)
            requires
                -VEL_LIMIT <= vx <= VEL_LIMIT,
                -VEL_LIMIT <= vy <= VEL_LIMIT,
        ;
    }
    let m2 = vx * vx + vy * vy;
    if m2 > AIR_FRICTION * AIR_FRICTION {
        let mag = isqrt(m2 as u64);
        proof {
            if mag < 250 {
                assert((mag as int + 1) * (mag as int + 1) <= 62500) by (nonlinear_arith)
                    requires
                        0 <= mag < 250u64,
                ;
            }
            assert(mag >= 250);
        }
        let avx = if vx < 0 {
            (-vx) as u64
        } else {
            vx as u64
        };
        let avy = if vy < 0 {
            (-vy) as u64
        } else {
            vy as u64
        };
        let qx = (avx * (AIR_FRICTION as u64)) / mag;
        let qy = (avy * (AIR_FRICTION as u64)) / mag;
        proof {
            assert((avx as int) * (AIR_FRICTION as int) <= (avx as int) * (mag as int))
                by (nonlinear_arith)
                requires
                    mag >= 250u64,
                    avx >= 0,
            ;
            assert((avy as int) * (AIR_FRICTION as int) <= (avy as int) * (mag as int))
                by (nonlinear_arith)
                requires
                    mag >= 250u64,
                    avy >= 0,
            ;
            vstd::arithmetic::div_mod::lemma_div_is_ordered(
                (avx as int) * (AIR_FRICTION as int),
                (avx as int) * (mag as int),
                mag as int,
            );
            vstd::arithmetic::div_mod::lemma_div_is_ordered(
                (avy as int) * (AIR_FRICTION as int),
                (avy as int) * (mag as int),
                mag as int,
            );
            assert((avx as int) * (mag as int) == (mag as int) * (avx as int))
                by (nonlinear_arith);
            assert((avy as int) * (mag as int) == (mag as int) * (avy as int))
                by (nonlinear_arith);
            vstd::arithmetic::div_mod::lemma_div_multiples_vanish(avx as int, mag as int);
            vstd::arithmetic::div_mod::lemma_div_multiples_vanish(avy as int, mag as int);
            assert(qx <= avx);
            assert(qy <= avy);
            vstd::arithmetic::div_mod::lemma_div_pos_is_pos(
                (avx as int) * (AIR_FRICTION as int),
                mag as int,
            );
            vstd::arithmetic::div_mod::lemma_div_pos_is_pos(
                (avy as int) * (AIR_FRICTION as int),
                mag as int,
            );
        }
        let ghost before_friction: (int, int) = (vx as int, vy as int);
        vx = if vx < 0 {
            vx + qx as i64
        } else {
            vx - qx as i64
        };
        vy = if vy < 0 {
            vy + qy as i64
        } else {
            vy - qy as i64
        };
        proof {
            assert((vx as int, vy as int) == friction_spec(before_friction));
        }
    }
    Vector2 { x: vx, y: vy }
}

/// The destination cell for a particle at `pos` moving by `v`, with the
/// velocity it keeps after the clamp at the lower grid edge; exactly
/// `destination_spec`.  The destination never has a negative component.
pub fn destination(pos: Coordinate, v: Vector2) -> (r: (Coordinate, Vector2))
    requires
        pos.in_bounds_spec(),
        -VEL_LIMIT <= v.x <= VEL_LIMIT,
        -VEL_LIMIT <= v.y <= VEL_LIMIT,
    ensures
        ((r.0.x as int, r.0.y as int), (r.1.x as int, r.1.y as int)) == destination_spec(
            pos,
            (v.x as int, v.y as int),
        ),
{
    let fx = SCALE * (pos.x as i64) + v.x;
    let fy = SCALE * (pos.y as i64) + v.y;
    let dx = crate::math::floor_div_scale(fx);
    let dy = crate::math::floor_div_scale(fy);
    proof {
        vstd::arithmetic::div_mod::lemma_div_is_ordered(
            fx as int,
            2_000_000_000i64 as int,
            SCALE as int,
        );
        vstd::arithmetic::div_mod::lemma_div_is_ordered(
            fy as int,
            2_000_000_000i64 as int,
            SCALE as int,
        );
    }
    let (rx, wx): (i64, i64) = if dx < 0 {
        (0, 0)
    } else {
        (dx, v.x)
    };
    let (ry, wy): (i64, i64) = if dy < 0 {
        (0, 0)
    } else {
        (dy, v.y)
    };
    (Coordinate { x: rx as u32, y: ry as u32 }, Vector2 { x: wx, y: wy })
}

/// Law (boundary safety): a movement destination never has a negative
/// component — an axis that would go below the grid is clamped to zero and
/// the velocity along it is dropped — and an axis that is not clamped
/// keeps its velocity unchanged.
pub proof fn lemma_destination_in_range(pos: Coordinate, v: (int, int))
    ensures
        destination_spec(pos, v).0.0 >= 0,
        destination_spec(pos, v).0.1 >= 0,
        destination_spec(pos, v).1.0 == 0 || destination_spec(pos, v).1.0 == v.0,
        destination_spec(pos, v).1.1 == 0 || destination_spec(pos, v).1.1 == v.1,
{
}

/// Law (force falloff): a force whose squared distance from the particle
/// falls outside the inclusive band `[min_distance_squared,
/// max_distance_squared]` — farther than the outer cutoff, closer than the
/// inner dead zone, or exactly on top of the particle — contributes
/// nothing to that particle's velocity in the tick: inserting it anywhere
/// into the force list leaves the integrated velocity unchanged.
pub proof fn lemma_force_falloff(
    v: Vector2,
    pos: Coordinate,
    fs: Seq<Force>,
    k: int,
    f: Force,
)
    requires
        0 <= k <= fs.len(),
        !force_applies(f, pos),
    ensures
        integrate_spec(v, pos, fs.insert(k, f)) == integrate_spec(v, pos, fs),
{
    let v0 = (clamped_v(v.x as int), clamped_v(v.y as int));
    let v1 = (clamped_v(v0.0 + GRAVITY_X), clamped_v(v0.1 + GRAVITY_Y));
    lemma_forces_insert_inert(v1, fs, pos, k, f, fs.len() as int);
}

/// Inserting a non-applying force at position `k` does not change any
/// prefix of the force application: for `j <= fs.len()`, applying the
/// first `j` forces of `fs` equals applying the first `j'` forces of the
/// extended list, where `j'` skips over the inserted element.
proof fn lemma_forces_insert_inert(
    v: (int, int),
    fs: Seq<Force>,
    pos: Coordinate,
    k: int,
    f: Force,
    j: int,
)
    requires
        0 <= k <= fs.len(),
        !force_applies(f, pos),
        0 <= j <= fs.len(),
    ensures
        j <= k ==> apply_forces_prefix(v, fs.insert(k, f), pos, j) == apply_forces_prefix(
            v,
            fs,
            pos,
            j,
        ),
        j >= k ==> apply_forces_prefix(v, fs.insert(k, f), pos, j + 1) == apply_forces_prefix(
            v,
            fs,
            pos,
            j,
        ),
    decreases j,
{
    let gs = fs.insert(k, f);
    fs.insert_ensures(k, f);
    if j == 0 {
        if k == 0 {
            assert(gs[0] == f);
            assert(apply_forces_prefix(v, gs, pos, 0) == v);
            assert(apply_forces_prefix(v, fs, pos, 0) == v);
            assert(apply_forces_prefix(v, gs, pos, 1) == apply_force_spec(v, f, pos));
        }
    } else {
        lemma_forces_insert_inert(v, fs, pos, k, f, j - 1);
        if j <= k {
            assert(gs[j - 1] == fs[j - 1]);
            if j == k {
                assert(gs[j] == f);
                assert(apply_forces_prefix(v, gs, pos, j + 1) == apply_force_spec(
                    apply_forces_prefix(v, gs, pos, j),
                    f,
                    pos,
                ));
            }
        } else {
            assert(gs[j] == fs[j - 1]);
            assert(apply_forces_prefix(v, gs, pos, j + 1) == apply_force_spec(
                apply_forces_prefix(v, gs, pos, j),
                gs[j],
                pos,
            ));
        }
    }
}

} // verus!
