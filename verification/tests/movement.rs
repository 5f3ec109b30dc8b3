use please_do_not_escape::game::{Agent, request_escape_paths, tick};
use please_do_not_escape::map::WalkabilityMap;
use please_do_not_escape::path::{Path, move_along_path};
use please_do_not_escape::position::{
    Direction, GridPosition, Position, Speed, Velocity, apply_velocity, check_velocity_collisions,
};

fn corner_map() -> WalkabilityMap {
    // The entity stands on (0, 0); walls to the north, east and northeast.
    let mut map = WalkabilityMap::new();
    map.set_walkable(GridPosition::new(0, 0), true);
    map
}

#[test]
fn corner_blocks_all_motion() {
    let map = corner_map();
    let mut pos = Position::new(0, 0);
    let mut vel = Velocity::new(1000, 1000);
    check_velocity_collisions(&map, &pos, &mut vel);
    assert_eq!(vel, Velocity::zero());
    apply_velocity(&mut pos, &vel);
    assert_eq!(pos, Position::new(0, 0));
}

#[test]
fn single_wall_slides_horizontally() {
    let mut map = corner_map();
    // Only the horizontal neighbour of the destination is open.
    map.set_walkable(GridPosition::new(1, 0), true);
    let mut vel = Velocity::new(1000, 1000);
    check_velocity_collisions(&map, &Position::new(0, 0), &mut vel);
    assert_eq!(vel, Velocity::new(1000, 0));
}

#[test]
fn vertical_slide_when_horizontal_is_blocked() {
    let mut map = corner_map();
    map.set_walkable(GridPosition::new(0, 1), true);
    let mut vel = Velocity::new(1000, 1000);
    check_velocity_collisions(&map, &Position::new(0, 0), &mut vel);
    assert_eq!(vel, Velocity::new(0, 1000));
}

#[test]
fn open_destination_keeps_velocity() {
    let mut map = corner_map();
    map.set_walkable(GridPosition::new(1, 1), true);
    let mut vel = Velocity::new(1000, 1000);
    check_velocity_collisions(&map, &Position::new(0, 0), &mut vel);
    assert_eq!(vel, Velocity::new(1000, 1000));
}

#[test]
fn follower_arrives_immediately_on_single_cell_path() {
    // The agent already stands within the arrival threshold of the only
    // waypoint, so the very first tick reports "no next target".
    let mut path = Path::new(vec![GridPosition::new(7, 8)]);
    let mut vel = Velocity::new(3, 4);
    let pos = Position::new(7000, 8010);
    let done = move_along_path(&pos, &Speed::good_guy(), &mut path, &mut vel);
    assert!(done);
    assert_eq!(vel, Velocity::new(3, 4));
}

#[test]
fn follower_steers_toward_waypoint() {
    let mut path = Path::new(vec![GridPosition::new(0, 5)]);
    let mut vel = Velocity::zero();
    let done = move_along_path(&Position::new(0, 0), &Speed::good_guy(), &mut path, &mut vel);
    assert!(!done);
    assert_eq!(vel, Velocity::new(0, 100));
}

#[test]
fn follower_advances_cursor_at_waypoint() {
    let mut path = Path::new(vec![GridPosition::new(0, 0), GridPosition::new(0, 1)]);
    let mut vel = Velocity::zero();
    let done = move_along_path(&Position::new(0, 10), &Speed::good_guy(), &mut path, &mut vel);
    assert!(!done);
    assert_eq!(path.target(), GridPosition::new(0, 1));
}

#[test]
fn path_cursor_walks_to_the_end() {
    let mut path = Path::new(vec![
        GridPosition::new(0, 0),
        GridPosition::new(1, 0),
        GridPosition::new(2, 0),
    ]);
    assert_eq!(path.target(), GridPosition::new(0, 0));
    assert_eq!(path.next(), Some(GridPosition::new(1, 0)));
    assert_eq!(path.next(), Some(GridPosition::new(2, 0)));
    assert_eq!(path.next(), None);
    assert_eq!(path.target(), GridPosition::new(2, 0));
}

#[test]
fn normalized_velocity_scales_directions() {
    let mut d = Direction::new();
    d.right();
    assert_eq!(d.normalized_velocity(&Speed::good_guy()), Velocity::new(100, 0));
    d.up();
    // A diagonal is normalized before scaling: 100 / sqrt(2), rounded down.
    assert_eq!(d.normalized_velocity(&Speed::good_guy()), Velocity::new(70, 70));
    let idle = Direction::new();
    assert_eq!(idle.normalized_velocity(&Speed::good_guy()), Velocity::zero());
}

#[test]
fn direction_setters_compose() {
    let mut d = Direction::new();
    d.left();
    d.down();
    assert_eq!(d.to_grid_pos(), GridPosition::new(-1, -1));
    d.right();
    assert_eq!(d.to_grid_pos(), GridPosition::new(1, -1));
}

#[test]
fn bad_guy_speed_stays_in_band() {
    for _ in 0..200 {
        let s = Speed::bad_guy();
        assert!(40 <= s.0 && s.0 < 60);
    }
}

#[test]
fn escape_request_attaches_shortest_path() {
    let mut map = WalkabilityMap::new();
    for y in 0..=4 {
        map.set_walkable(GridPosition::new(0, y), true);
    }
    let mut agents = vec![Agent {
        position: Position::new(0, 0),
        velocity: Velocity::zero(),
        speed: Speed::bad_guy(),
        path: Some(Path::new(vec![GridPosition::new(0, 0)])),
    }, Agent {
        position: Position::new(0, 0),
        velocity: Velocity::zero(),
        speed: Speed::bad_guy(),
        path: None,
    }];
    let exits = vec![GridPosition::new(0, 4)];
    request_escape_paths(&map, &mut agents, &exits);
    // The busy agent keeps its one-cell path; the idle one gets the route.
    let busy = agents[0].path.as_ref().expect("existing path must stay");
    assert_eq!(busy.target(), GridPosition::new(0, 0));
    let fresh = agents[1].path.as_ref().expect("a route to the exit exists");
    assert_eq!(fresh.target(), GridPosition::new(0, 0));
}

#[test]
fn escape_request_skips_unreachable_exits() {
    let mut map = WalkabilityMap::new();
    map.set_walkable(GridPosition::new(0, 0), true);
    let mut agents = vec![Agent {
        position: Position::new(0, 0),
        velocity: Velocity::zero(),
        speed: Speed::bad_guy(),
        path: None,
    }];
    let exits = vec![GridPosition::new(5, 5)];
    request_escape_paths(&map, &mut agents, &exits);
    assert!(agents[0].path.is_none());
}

#[test]
fn corridor_escape_end_to_end() {
    // A straight vertical corridor from (0, 0) to (0, 4); everything else
    // is non-walkable.
    let mut map = WalkabilityMap::new();
    for y in 0..=4 {
        map.set_walkable(GridPosition::new(0, y), true);
    }
    let src = GridPosition::new(0, 0);
    let exit = GridPosition::new(0, 4);
    let (steps, cost) = map.find_path(&src, &exit).expect("the corridor is open");
    assert_eq!(cost, 4);
    assert_eq!(
        steps,
        vec![
            GridPosition::new(0, 0),
            GridPosition::new(0, 1),
            GridPosition::new(0, 2),
            GridPosition::new(0, 3),
            GridPosition::new(0, 4),
        ]
    );
    let mut agents = vec![Agent {
        position: src.to_position(),
        velocity: Velocity::zero(),
        speed: Speed::good_guy(),
        path: Some(Path::new(steps)),
    }];
    let mut last_y = agents[0].position.y;
    let mut ticks = 0;
    while agents[0].path.is_some() {
        tick(&map, &mut agents);
        ticks += 1;
        assert!(ticks <= 100, "the follower must finish the corridor");
        // The agent only ever moves up the corridor, never sideways.
        assert_eq!(agents[0].position.x, 0);
        assert!(agents[0].position.y >= last_y);
        last_y = agents[0].position.y;
    }
    // Arrival at the final waypoint removed the path; the agent stands
    // within the arrival threshold of the exit's cell centre.
    let goal = exit.to_position();
    let d2 = agents[0].position.distance_squared(&goal);
    assert!(d2 < please_do_not_escape::position::ARRIVAL_D2);
}
