use interp::interpolation::interface::{
    create_map, Interpolation, InterpolationError, InterpolationGrid,
};
use interp::interpolation::linear::LinearInterpolation;
use interp::math::monotonically_increasing;
use interp::num::Num;

fn units(u: i32) -> Num {
    Num::from_units(u)
}

fn micros(m: i64) -> Num {
    Num::from_micros(m)
}

fn grid(points: &[(i32, i32)]) -> InterpolationGrid {
    let xs: Vec<Num> = points.iter().map(|p| units(p.0)).collect();
    let ys: Vec<Num> = points.iter().map(|p| units(p.1)).collect();
    InterpolationGrid::init_grid(xs, ys).unwrap()
}

fn linear(points: &[(i32, i32)]) -> LinearInterpolation {
    LinearInterpolation { grid: grid(points) }
}

#[test]
fn interp_ok() {
    assert!(InterpolationGrid::init_grid(
        vec![units(1), units(2), units(3)],
        vec![units(4), units(5), units(6)],
    )
    .is_ok())
}

#[test]
fn interp_mismatch_count() {
    assert_eq!(
        InterpolationGrid::init_grid(vec![units(1), units(2)], vec![units(3), units(4), units(5)]),
        Err(InterpolationError::SizeMismatch)
    )
}

#[test]
fn interp_not_monotonically_increasing() {
    assert_eq!(
        InterpolationGrid::init_grid(
            vec![micros(1_111_000), micros(1_110_000), micros(1_112_000)],
            vec![micros(2_222_000), micros(2_223_000), micros(2_224_000)],
        ),
        Err(InterpolationError::NotMonotonicallyIncreasing)
    )
}

#[test]
fn monotonic_compares_every_consecutive_pair() {
    // a paired scan that skips (v1, v2) would accept this sequence
    assert!(!monotonically_increasing(&vec![units(1), units(5), units(3), units(9)]));
    assert!(monotonically_increasing(&vec![units(1), units(5), units(9)]));
    assert!(!monotonically_increasing(&vec![units(2), units(2)]));
    assert!(monotonically_increasing(&vec![units(7)]));
    assert!(monotonically_increasing(&Vec::new()));
}

#[test]
fn construction_round_trip() {
    let g = InterpolationGrid::init_grid(
        vec![units(1), units(2), units(3)],
        vec![units(4), units(5), units(6)],
    )
    .unwrap();
    assert_eq!(g.bounds(), (units(1), units(3)));
}

#[test]
fn construction_rejects_empty() {
    assert_eq!(
        InterpolationGrid::init_grid(Vec::new(), Vec::new()),
        Err(InterpolationError::InvalidNumberOfPoints)
    );
}

#[test]
fn create_map_reports_duplicates() {
    assert_eq!(
        create_map(vec![units(1), units(1)], vec![units(2), units(3)]),
        Err(InterpolationError::NotOneToOne)
    );
    assert_eq!(
        create_map(vec![units(3), units(1), units(2), units(1)], vec![units(0); 4]),
        Err(InterpolationError::NotOneToOne)
    );
}

#[test]
fn create_map_keeps_every_distinct_pair() {
    let g = create_map(
        vec![units(3), units(1), units(2)],
        vec![units(30), units(10), units(20)],
    )
    .unwrap();
    assert_eq!(g.xs, vec![units(3), units(1), units(2)]);
    assert_eq!(g.ys, vec![units(30), units(10), units(20)]);
}

#[test]
fn create_map_accepts_empty_input() {
    let g = create_map(Vec::new(), Vec::new()).unwrap();
    assert!(g.xs.is_empty());
    assert!(g.ys.is_empty());
}

#[test]
fn exact_hit_returns_stored_value() {
    let li = linear(&[(1, 10), (2, 20), (3, 30)]);
    assert_eq!(li.get_value(units(2)), Ok(units(20)));
}

#[test]
fn midpoint_is_blended_linearly() {
    let li = linear(&[(0, 0), (10, 100)]);
    assert_eq!(li.get_value(units(5)), Ok(units(50)));
}

#[test]
fn blend_rounds_toward_left_value() {
    let rising = linear(&[(0, 0), (3, 10)]);
    assert_eq!(rising.get_value(units(1)), Ok(micros(3_333_333)));
    let falling = linear(&[(0, 10), (3, 0)]);
    assert_eq!(falling.get_value(units(1)), Ok(micros(6_666_667)));
}

#[test]
fn queries_outside_domain_are_rejected() {
    let li = linear(&[(1, 10), (2, 20), (3, 30)]);
    assert_eq!(li.get_value(units(0)), Err(InterpolationError::OutOfBounds));
    assert_eq!(li.get_value(units(4)), Err(InterpolationError::OutOfBounds));
}

#[test]
fn insertion_maintains_order() {
    let mut li = linear(&[(1, 10), (3, 30)]);
    assert_eq!(li.insert_value(units(2), units(20)), Ok(()));
    assert_eq!(li.get_value(units(2)), Ok(units(20)));
    assert_eq!(li.grid.bounds(), (units(1), units(3)));
}

#[test]
fn duplicate_insertion_rejected() {
    let mut li = linear(&[(1, 10), (3, 30)]);
    assert_eq!(
        li.insert_value(units(1), units(99)),
        Err(InterpolationError::NotOneToOne)
    );
    assert_eq!(li.get_value(units(1)), Ok(units(10)));
}

#[test]
fn failed_batch_rolls_back_partial_insertions() {
    let mut li = linear(&[(1, 10), (3, 30)]);
    let before = li.grid.clone();
    assert_eq!(
        li.insert_values(vec![(units(4), units(40)), (units(2), units(99)), (units(1), units(77))]),
        Err(InterpolationError::NotOneToOne)
    );
    assert_eq!(li.grid, before);
    assert!(!li.grid.contains_x(units(4)));
    assert!(!li.grid.contains_x(units(2)));
}

#[test]
fn successful_batch_commits_every_sample() {
    let mut li = linear(&[(1, 10), (3, 30)]);
    assert_eq!(
        li.insert_values(vec![(units(4), units(40)), (units(2), units(99))]),
        Ok(())
    );
    assert_eq!(li.grid.bounds(), (units(1), units(4)));
    assert_eq!(li.get_value(units(2)), Ok(units(99)));
    assert_eq!(li.get_value(units(4)), Ok(units(40)));
}

#[test]
fn bracket_encloses_interior_queries() {
    let g = grid(&[(1, 10), (2, 20), (3, 30)]);
    let (left, right) = g.bracket(micros(2_500_000)).unwrap();
    assert_eq!(left.x, units(2));
    assert_eq!(left.y, units(20));
    assert_eq!(right.x, units(3));
    assert_eq!(right.y, units(30));
}

#[test]
fn bracket_degenerates_on_exact_hit() {
    let g = grid(&[(1, 10), (2, 20), (3, 30)]);
    let (left, right) = g.bracket(units(2)).unwrap();
    assert_eq!(left, right);
    assert_eq!(left.x, units(2));
    assert_eq!(left.y, units(20));
}

#[test]
fn bracket_rejects_outside_domain() {
    let g = grid(&[(1, 10), (3, 30)]);
    assert_eq!(g.bracket(units(0)), Err(InterpolationError::OutOfBounds));
    assert_eq!(g.bracket(units(4)), Err(InterpolationError::OutOfBounds));
}

#[test]
fn membership_and_domain_tests() {
    let g = grid(&[(1, 10), (3, 30)]);
    assert!(g.contains_x(units(1)));
    assert!(!g.contains_x(units(2)));
    assert!(g.in_x_bounds(units(2)));
    assert!(!g.in_x_bounds(units(0)));
    assert!(!g.in_x_bounds(units(4)));
}

#[test]
fn many_queries_keep_their_order_and_fail_fast() {
    let li = linear(&[(1, 10), (2, 20), (3, 30)]);
    assert_eq!(
        li.get_values(vec![units(3), units(1), units(2)]),
        Ok(vec![units(30), units(10), units(20)])
    );
    assert_eq!(
        li.get_values(vec![units(2), units(99)]),
        Err(InterpolationError::OutOfBounds)
    );
}

#[test]
fn strategy_construction_mirrors_grid_validation() {
    assert_eq!(
        LinearInterpolation::from(vec![units(1), units(2)], vec![units(3)]).map(|li| li.grid),
        Err(InterpolationError::SizeMismatch)
    );
    let li = LinearInterpolation::from(vec![units(0), units(10)], vec![units(0), units(100)]).unwrap();
    assert_eq!(li.get_value(units(5)), Ok(units(50)));
}
