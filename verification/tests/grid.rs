use please_do_not_escape::map::WalkabilityMap;
use please_do_not_escape::position::{GridPosition, Position, isqrt};

#[test]
fn fresh_map_is_fail_closed() {
    let map = WalkabilityMap::new();
    assert!(!map.is_walkable(&GridPosition::new(0, 0)));
    assert!(!map.is_walkable(&GridPosition::new(3, -7)));
    assert!(!map.is_walkable(&GridPosition::new(i32::MAX, i32::MIN)));
}

#[test]
fn set_walkable_last_write_wins() {
    let mut map = WalkabilityMap::new();
    let c = GridPosition::new(2, 3);
    map.set_walkable(c, true);
    map.set_walkable(c, false);
    assert!(!map.is_walkable(&c));
    map.set_walkable(c, true);
    assert!(map.is_walkable(&c));
    // A write to one cell leaves every other cell alone.
    assert!(!map.is_walkable(&GridPosition::new(3, 2)));
}

#[test]
fn update_map_applies_batch_in_order() {
    let mut map = WalkabilityMap::new();
    let updates = vec![
        (GridPosition::new(0, 0), true),
        (GridPosition::new(1, 0), true),
        (GridPosition::new(0, 0), false),
    ];
    please_do_not_escape::map::update_map_with_walkables(&mut map, &updates);
    assert!(!map.is_walkable(&GridPosition::new(0, 0)));
    assert!(map.is_walkable(&GridPosition::new(1, 0)));
}

#[test]
fn footprint_toggles_like_a_door() {
    let mut map = WalkabilityMap::new();
    let anchor = GridPosition::new(10, 10);
    // A door spanning five cells in a horizontal line.
    let offsets = vec![
        GridPosition::new(-2, 0),
        GridPosition::new(-1, 0),
        GridPosition::new(0, 0),
        GridPosition::new(1, 0),
        GridPosition::new(2, 0),
    ];
    please_do_not_escape::map::set_walkable_footprint(&mut map, &anchor, &offsets, true);
    for dx in -2..=2 {
        assert!(map.is_walkable(&GridPosition::new(10 + dx, 10)));
    }
    please_do_not_escape::map::set_walkable_footprint(&mut map, &anchor, &offsets, false);
    for dx in -2..=2 {
        assert!(!map.is_walkable(&GridPosition::new(10 + dx, 10)));
    }
}

#[test]
fn neighbours_come_in_fixed_order() {
    let mut map = WalkabilityMap::new();
    let c = GridPosition::new(5, 5);
    map.set_walkable(GridPosition::new(5, 6), true);
    map.set_walkable(GridPosition::new(5, 4), true);
    map.set_walkable(GridPosition::new(6, 5), true);
    map.set_walkable(GridPosition::new(4, 5), true);
    let n = map.walkable_neighbours(&c);
    assert_eq!(
        n,
        vec![
            GridPosition::new(5, 6),
            GridPosition::new(5, 4),
            GridPosition::new(6, 5),
            GridPosition::new(4, 5),
        ]
    );
}

#[test]
fn neighbours_skip_blocked_cells() {
    let mut map = WalkabilityMap::new();
    let c = GridPosition::new(0, 0);
    map.set_walkable(GridPosition::new(1, 0), true);
    let n = map.walkable_neighbours(&c);
    assert_eq!(n, vec![GridPosition::new(1, 0)]);
}

#[test]
fn neighbour_symmetry_for_adjacent_walkable_cells() {
    let mut map = WalkabilityMap::new();
    let a = GridPosition::new(3, 3);
    let b = GridPosition::new(3, 4);
    map.set_walkable(a, true);
    map.set_walkable(b, true);
    assert!(map.walkable_neighbours(&a).contains(&b));
    assert!(map.walkable_neighbours(&b).contains(&a));
}

#[test]
fn find_path_on_open_grid_is_manhattan_optimal() {
    let mut map = WalkabilityMap::new();
    for x in 0..=3 {
        for y in 0..=4 {
            map.set_walkable(GridPosition::new(x, y), true);
        }
    }
    let (steps, cost) = map
        .find_path(&GridPosition::new(0, 0), &GridPosition::new(3, 4))
        .expect("open grid must have a path");
    assert_eq!(steps.len(), 8);
    assert_eq!(cost, 7);
    assert_eq!(steps[0], GridPosition::new(0, 0));
    assert_eq!(steps[7], GridPosition::new(3, 4));
    // Each move steps onto an adjacent walkable cell.
    for w in steps.windows(2) {
        let dx = (w[1].x - w[0].x).abs();
        let dy = (w[1].y - w[0].y).abs();
        assert_eq!(dx + dy, 1);
        assert!(map.is_walkable(&w[1]));
    }
}

#[test]
fn find_path_trivial_when_src_equals_dst() {
    let map = WalkabilityMap::new();
    let c = GridPosition::new(9, 9);
    let (steps, cost) = map.find_path(&c, &c).expect("start equals goal");
    assert_eq!(steps, vec![c]);
    assert_eq!(cost, 0);
}

#[test]
fn find_path_returns_none_for_surrounded_goal() {
    let mut map = WalkabilityMap::new();
    let src = GridPosition::new(0, 0);
    let dst = GridPosition::new(5, 5);
    map.set_walkable(src, true);
    map.set_walkable(dst, true);
    // All four neighbours of dst stay unset, hence non-walkable.
    assert!(map.find_path(&src, &dst).is_none());
}

#[test]
fn find_path_respects_walls() {
    // A vertical wall with a gap forces a detour.
    let mut map = WalkabilityMap::new();
    for x in 0..=4 {
        for y in 0..=4 {
            map.set_walkable(GridPosition::new(x, y), true);
        }
    }
    for y in 0..=3 {
        map.set_walkable(GridPosition::new(2, y), false);
    }
    let (steps, cost) = map
        .find_path(&GridPosition::new(0, 0), &GridPosition::new(4, 0))
        .expect("the gap at the top leaves a route");
    assert_eq!(cost, 12);
    assert_eq!(steps.len(), 13);
    assert!(steps.contains(&GridPosition::new(2, 4)));
}

#[test]
fn nearest_cell_rounds_half_away_from_zero() {
    assert_eq!(Position::new(1499, 0).nearest_cell(), GridPosition::new(1, 0));
    assert_eq!(Position::new(1500, 0).nearest_cell(), GridPosition::new(2, 0));
    assert_eq!(Position::new(-1499, 0).nearest_cell(), GridPosition::new(-1, 0));
    assert_eq!(Position::new(-1500, 0).nearest_cell(), GridPosition::new(-2, 0));
    assert_eq!(Position::new(0, 499).nearest_cell(), GridPosition::new(0, 0));
    assert_eq!(Position::new(0, 500).nearest_cell(), GridPosition::new(0, 1));
}

#[test]
fn grid_cell_round_trips_through_position() {
    let c = GridPosition::new(-37, 12);
    assert_eq!(c.to_position().nearest_cell(), c);
    assert_eq!(c.to_position(), Position::new(-37000, 12000));
}

#[test]
fn distances_are_exact() {
    let a = Position::new(0, 0);
    let b = Position::new(3000, 4000);
    assert_eq!(a.distance_squared(&b), 25_000_000);
    assert_eq!(a.distance_to(&b), 5000);
    assert_eq!(isqrt(0), 0);
    assert_eq!(isqrt(1), 1);
    assert_eq!(isqrt(3), 1);
    assert_eq!(isqrt(4), 2);
    assert_eq!(isqrt(2_000_000), 1414);
    assert_eq!(isqrt(u128::from(u64::MAX)), 4294967295);
}

#[test]
fn cell_arithmetic_is_component_wise() {
    let a = GridPosition::new(3, -4);
    let b = GridPosition::new(-1, 2);
    assert_eq!(a.add(&b), GridPosition::new(2, -2));
    assert_eq!(a.sub(&b), GridPosition::new(4, -6));
    assert_eq!(a.add(&GridPosition::zero()), a);
    let p = Position::new(2500, -700);
    let q = Position::new(500, 300);
    assert_eq!(p.sub(&q), Position::new(2000, -1000));
}

#[test]
fn find_path_is_reproducible_on_equal_map_state() {
    let mut map = WalkabilityMap::new();
    for x in 0..=3 {
        for y in 0..=3 {
            map.set_walkable(GridPosition::new(x, y), true);
        }
    }
    let src = GridPosition::new(0, 0);
    let dst = GridPosition::new(3, 3);
    let first = map.find_path(&src, &dst).expect("open grid must have a path");
    for _ in 0..5 {
        let again = map.find_path(&src, &dst).expect("open grid must have a path");
        assert_eq!(again.0, first.0);
        assert_eq!(again.1, first.1);
    }
}

#[test]
fn four_directions_order_is_stable() {
    let dirs = GridPosition::four_directions();
    assert_eq!(
        dirs,
        vec![
            GridPosition::new(0, 1),
            GridPosition::new(0, -1),
            GridPosition::new(1, 0),
            GridPosition::new(-1, 0),
        ]
    );
}
