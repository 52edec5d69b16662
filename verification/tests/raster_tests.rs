use falling_sand::coords::Coordinate;
use falling_sand::raster::path;

fn test_path(from: Coordinate, to: Coordinate, between: Vec<Coordinate>) {
    let path = path(&from, &to);
    if from == to {
        assert_eq!(path.len(), 0);
        return;
    }
    assert_eq!(path.len(), between.len() + 1);
    for i in 0..between.len() {
        assert_eq!(path[i], between[i]);
    }
    assert_eq!(path[between.len()], to);
}

#[test]
fn path_works() {
    test_path(Coordinate::new(0, 0), Coordinate::new(0, 0), vec![]);
    test_path(Coordinate::new(0, 0), Coordinate::new(1, 0), vec![]);
    test_path(Coordinate::new(0, 0), Coordinate::new(0, 1), vec![]);
    test_path(Coordinate::new(0, 0), Coordinate::new(1, 1), vec![]);
    test_path(Coordinate::new(1, 0), Coordinate::new(0, 0), vec![]);
    test_path(Coordinate::new(1, 1), Coordinate::new(0, 0), vec![]);
    test_path(Coordinate::new(0, 1), Coordinate::new(0, 0), vec![]);

    test_path(
        Coordinate::new(0, 0),
        Coordinate::new(0, 3),
        vec![Coordinate::new(0, 1), Coordinate::new(0, 2)],
    );

    test_path(
        Coordinate::new(0, 0),
        Coordinate::new(3, 3),
        vec![Coordinate::new(1, 1), Coordinate::new(2, 2)],
    );
}

#[test]
fn path_degenerate_is_empty() {
    assert_eq!(path(&Coordinate::new(7, 9), &Coordinate::new(7, 9)).len(), 0);
    assert_eq!(path(&Coordinate::new(0, 0), &Coordinate::new(0, 0)).len(), 0);
}

#[test]
fn path_length_is_chebyshev_distance_and_ends_at_target() {
    let cases = [
        ((0u32, 0u32), (5u32, 2u32)),
        ((5, 2), (0, 0)),
        ((3, 3), (3, 9)),
        ((10, 10), (2, 17)),
        ((99, 0), (0, 99)),
    ];
    for ((ax, ay), (bx, by)) in cases {
        let a = Coordinate::new(ax, ay);
        let b = Coordinate::new(bx, by);
        let p = path(&a, &b);
        let dx = (ax as i64 - bx as i64).unsigned_abs() as usize;
        let dy = (ay as i64 - by as i64).unsigned_abs() as usize;
        assert_eq!(p.len(), dx.max(dy));
        assert_eq!(p[p.len() - 1], b);
    }
}

#[test]
fn path_diagonal_is_exact_diagonal() {
    let p = path(&Coordinate::new(0, 0), &Coordinate::new(3, 3));
    assert_eq!(
        p,
        vec![Coordinate::new(1, 1), Coordinate::new(2, 2), Coordinate::new(3, 3)]
    );
    let q = path(&Coordinate::new(4, 7), &Coordinate::new(2, 5));
    assert_eq!(q, vec![Coordinate::new(3, 6), Coordinate::new(2, 5)]);
}

#[test]
fn path_axis_aligned() {
    let p = path(&Coordinate::new(0, 0), &Coordinate::new(0, 3));
    assert_eq!(
        p,
        vec![Coordinate::new(0, 1), Coordinate::new(0, 2), Coordinate::new(0, 3)]
    );
    let q = path(&Coordinate::new(5, 4), &Coordinate::new(2, 4));
    assert_eq!(
        q,
        vec![Coordinate::new(4, 4), Coordinate::new(3, 4), Coordinate::new(2, 4)]
    );
}

#[test]
fn path_shallow_slope_interpolates_half_up() {
    // From (0,0) to (5,2): the driving x axis steps one per cell and the
    // y offset is round(2*i/5) = 0, 1, 1, 2, 2.
    let p = path(&Coordinate::new(0, 0), &Coordinate::new(5, 2));
    assert_eq!(
        p,
        vec![
            Coordinate::new(1, 0),
            Coordinate::new(2, 1),
            Coordinate::new(3, 1),
            Coordinate::new(4, 2),
            Coordinate::new(5, 2),
        ]
    );
}
