use falling_sand::coords::{Coordinate, WORLD_SIZE};
use falling_sand::physics::{Force, Vector2};
use falling_sand::rng::Coin;
use falling_sand::world::{CellElement, World};

fn count_sand(w: &World) -> usize {
    let mut n = 0;
    for y in 0..WORLD_SIZE {
        for x in 0..WORLD_SIZE {
            if let Some(CellElement::Sand(..)) = w.get_cell(&Coordinate::new(x, y)) {
                n += 1;
            }
        }
    }
    n
}

fn snapshot(w: &World) -> Vec<CellElement> {
    let mut cells = Vec::new();
    for y in 0..WORLD_SIZE {
        for x in 0..WORLD_SIZE {
            cells.push(w.get_cell(&Coordinate::new(x, y)).unwrap());
        }
    }
    cells
}

#[test]
fn get_cell_out_of_bounds_is_none() {
    let w = World::default();
    assert_eq!(w.get_cell(&Coordinate::new(WORLD_SIZE, 0)), None);
    assert_eq!(w.get_cell(&Coordinate::new(0, WORLD_SIZE)), None);
    assert_eq!(w.get_cell(&Coordinate::new(u32::MAX, u32::MAX)), None);
    assert_eq!(w.get_cell(&Coordinate::new(0, 0)), Some(CellElement::Air));
}

#[test]
fn swap_cells_exchanges_and_tolerates_out_of_bounds() {
    let mut w = World::default();
    let a = Coordinate::new(1, 1);
    let b = Coordinate::new(2, 3);
    w.set_cell(&a, CellElement::Sand(Vector2::new(7, 8)));
    w.swap_cells(&a, &b);
    assert_eq!(w.get_cell(&a), Some(CellElement::Air));
    assert_eq!(w.get_cell(&b), Some(CellElement::Sand(Vector2::new(7, 8))));
    // An out-of-bounds partner leaves the grid untouched.
    w.swap_cells(&b, &Coordinate::new(0, WORLD_SIZE));
    assert_eq!(w.get_cell(&b), Some(CellElement::Sand(Vector2::new(7, 8))));
}

#[test]
fn conservation_across_ticks() {
    let mut w = World::default();
    // A colliding stack, plus some loose particles with sideways velocities.
    for y in 0..10 {
        w.set_cell(&Coordinate::new(10, y), CellElement::Sand(Vector2::zeros()));
    }
    for i in 0..10 {
        w.set_cell(
            &Coordinate::new(20 + i, 50),
            CellElement::Sand(Vector2::new(1500 * (i as i64 - 5), -2000)),
        );
    }
    assert_eq!(count_sand(&w), 20);
    let mut coin = Coin::seeded(42);
    let forces = Vec::new();
    for _ in 0..5 {
        w.update(&forces, &mut coin);
        assert_eq!(count_sand(&w), 20);
    }
}

#[test]
fn boundary_left_edge_clamps_and_zeroes_x_velocity() {
    let mut w = World::default();
    w.set_cell(
        &Coordinate::new(0, 50),
        CellElement::Sand(Vector2::new(-5000, 0)),
    );
    let mut coin = Coin::scripted(vec![]);
    w.update(&Vec::new(), &mut coin);
    assert_eq!(count_sand(&w), 1);
    // Gravity pulls one cell down; the leftward component is clamped at
    // the edge and zeroed, friction has already eaten 249 of it and 14 of
    // the gravity tick.
    assert_eq!(
        w.get_cell(&Coordinate::new(0, 49)),
        Some(CellElement::Sand(Vector2::new(0, -286)))
    );
}

#[test]
fn resting_particle_on_blocked_cell_stays_with_zero_velocity() {
    let mut w = World::default();
    // A particle resting on another, with both lower diagonals occupied.
    w.set_cell(&Coordinate::new(5, 1), CellElement::Sand(Vector2::zeros()));
    w.set_cell(&Coordinate::new(5, 0), CellElement::Sand(Vector2::zeros()));
    w.set_cell(&Coordinate::new(4, 0), CellElement::Sand(Vector2::zeros()));
    w.set_cell(&Coordinate::new(6, 0), CellElement::Sand(Vector2::zeros()));
    for _ in 0..3 {
        let mut coin = Coin::seeded(7);
        w.update(&Vec::new(), &mut coin);
        assert_eq!(
            w.get_cell(&Coordinate::new(5, 1)),
            Some(CellElement::Sand(Vector2::new(0, 0)))
        );
        assert_eq!(count_sand(&w), 4);
        assert!(matches!(
            w.get_cell(&Coordinate::new(5, 0)),
            Some(CellElement::Sand(..))
        ));
    }
}

#[test]
fn pixels_round_trip_single_particle() {
    let mut w = World::default();
    w.set_cell(&Coordinate::new(5, 5), CellElement::Sand(Vector2::zeros()));
    let pixels = w.pixels();
    let side = WORLD_SIZE as usize;
    assert_eq!(pixels.len(), side * side * 4);
    let sand_offset = (5 * side + 5) * 4;
    for cell in 0..side * side {
        let offset = cell * 4;
        let expected: [u8; 4] = if offset == sand_offset {
            [255, 255, 0, 255]
        } else {
            [0, 0, 255, 255]
        };
        assert_eq!(&pixels[offset..offset + 4], &expected);
    }
}

#[test]
fn pixel_color_ignores_velocity() {
    let mut w = World::default();
    w.set_cell(
        &Coordinate::new(1, 2),
        CellElement::Sand(Vector2::new(123456, -654321)),
    );
    w.set_cell(&Coordinate::new(3, 2), CellElement::Sand(Vector2::zeros()));
    let pixels = w.pixels();
    let side = WORLD_SIZE as usize;
    let a = (2 * side + 1) * 4;
    let b = (2 * side + 3) * 4;
    assert_eq!(&pixels[a..a + 4], &pixels[b..b + 4]);
}

#[test]
fn scripted_coin_steers_collision_escape_left() {
    let mut w = World::default();
    w.set_cell(&Coordinate::new(5, 0), CellElement::Sand(Vector2::zeros()));
    w.set_cell(&Coordinate::new(5, 1), CellElement::Sand(Vector2::zeros()));
    // The falling particle is visited at sweep index 1 * WORLD_SIZE + 5;
    // a false coin keeps the candidate order, whose first entry for a
    // downward step is the lower-left diagonal.
    let mut coin = Coin::scripted(vec![]);
    w.update(&Vec::new(), &mut coin);
    assert!(matches!(
        w.get_cell(&Coordinate::new(4, 0)),
        Some(CellElement::Sand(..))
    ));
    assert_eq!(w.get_cell(&Coordinate::new(5, 1)), Some(CellElement::Air));
}

#[test]
fn scripted_coin_steers_collision_escape_right() {
    let mut w = World::default();
    w.set_cell(&Coordinate::new(5, 0), CellElement::Sand(Vector2::zeros()));
    w.set_cell(&Coordinate::new(5, 1), CellElement::Sand(Vector2::zeros()));
    let visit = (WORLD_SIZE as usize) + 5;
    let mut flips = vec![false; visit + 1];
    flips[visit] = true;
    let mut coin = Coin::scripted(flips);
    w.update(&Vec::new(), &mut coin);
    assert!(matches!(
        w.get_cell(&Coordinate::new(6, 0)),
        Some(CellElement::Sand(..))
    ));
    assert_eq!(w.get_cell(&Coordinate::new(5, 1)), Some(CellElement::Air));
}

#[test]
fn leftward_block_offers_only_the_lower_left_diagonal() {
    // The neighbor table's entry for a leftward unit step offers the
    // lower-left diagonal twice; a leftward-blocked particle never
    // escapes upward even when the upper-left diagonal is free.
    let mut w = World::default();
    w.set_cell(
        &Coordinate::new(2, 0),
        CellElement::Sand(Vector2::new(-1000, 0)),
    );
    w.set_cell(&Coordinate::new(1, 0), CellElement::Sand(Vector2::zeros()));
    // (1, 1), the upper-left diagonal, stays free; the lower-left (1, -1)
    // is off the grid.
    let mut coin = Coin::seeded(3);
    w.update(&Vec::new(), &mut coin);
    assert_eq!(
        w.get_cell(&Coordinate::new(2, 0)),
        Some(CellElement::Sand(Vector2::new(0, 0)))
    );
    assert_eq!(w.get_cell(&Coordinate::new(1, 1)), Some(CellElement::Air));
    assert_eq!(count_sand(&w), 2);
}

#[test]
fn in_place_sweep_revisits_a_risen_particle() {
    // The sweep updates cells in place, so a particle that moves upward
    // into a not-yet-visited row is integrated a second time in the same
    // tick: gravity and friction bite twice.
    let mut w = World::default();
    w.set_cell(
        &Coordinate::new(50, 50),
        CellElement::Sand(Vector2::new(0, 2000)),
    );
    let mut coin = Coin::scripted(vec![]);
    w.update(&Vec::new(), &mut coin);
    // First visit: 2000 + gravity(-300) - friction(250) = 1450, rises one
    // cell; second visit at the new row: 1450 - 300 - 250 = 900, stays.
    assert_eq!(
        w.get_cell(&Coordinate::new(50, 51)),
        Some(CellElement::Sand(Vector2::new(0, 900)))
    );
    assert_eq!(count_sand(&w), 1);
}

#[test]
fn fast_particle_stops_at_first_blocked_path_cell() {
    // A particle moving several cells per tick walks every intermediate
    // cell and cannot teleport through a solid layer.
    let mut w = World::default();
    for x in 48..=52 {
        w.set_cell(&Coordinate::new(x, 0), CellElement::Sand(Vector2::zeros()));
    }
    for x in 49..=51 {
        w.set_cell(&Coordinate::new(x, 1), CellElement::Sand(Vector2::zeros()));
    }
    w.set_cell(
        &Coordinate::new(50, 4),
        CellElement::Sand(Vector2::new(0, -5000)),
    );
    let mut coin = Coin::seeded(11);
    w.update(&Vec::new(), &mut coin);
    // The walk from (50,4) toward the floor is blocked at (50,1); both
    // diagonal escapes are occupied, so the particle halts just above the
    // layer with its velocity zeroed.
    assert_eq!(
        w.get_cell(&Coordinate::new(50, 2)),
        Some(CellElement::Sand(Vector2::new(0, 0)))
    );
    assert_eq!(w.get_cell(&Coordinate::new(50, 3)), Some(CellElement::Air));
    assert_eq!(count_sand(&w), 9);
}

#[test]
fn force_distance_band_is_inclusive_on_both_ends() {
    // A particle at (50, 50); a force 3 cells right and 4 up, so the
    // squared distance is exactly 25 (25_000 in thousandths).
    let run = |min_d2: i64, max_d2: i64| -> Vec<CellElement> {
        let mut w = World::default();
        w.set_cell(&Coordinate::new(50, 50), CellElement::Sand(Vector2::zeros()));
        let forces = vec![Force {
            position: Vector2::new(53_000, 54_000),
            strength: 120_000,
            min_distance_squared: min_d2,
            max_distance_squared: max_d2,
        }];
        let mut coin = Coin::scripted(vec![]);
        w.update(&forces, &mut coin);
        snapshot(&w)
    };
    let no_force = {
        let mut w = World::default();
        w.set_cell(&Coordinate::new(50, 50), CellElement::Sand(Vector2::zeros()));
        let mut coin = Coin::scripted(vec![]);
        w.update(&Vec::new(), &mut coin);
        snapshot(&w)
    };
    // Exactly on the outer cutoff: the force still applies.
    assert_ne!(run(0, 25_000), no_force);
    // Beyond the outer cutoff: unaffected this tick.
    assert_eq!(run(0, 24_999), no_force);
    // Exactly on the inner cutoff: the force still applies.
    assert_ne!(run(25_000, 1_000_000), no_force);
    // Inside the inner dead zone: unaffected this tick.
    assert_eq!(run(25_001, 1_000_000), no_force);
}
