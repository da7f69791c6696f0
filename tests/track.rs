use terrain_gen::track::{
    generate_turns, waypoints, DirectionState, TrackGenerator, Turn, DEFAULT_STEP_COUNT, MAX_TURN,
};

fn check_turn(t: &Turn) {
    match t.state {
        DirectionState::Forward => assert_eq!(t.angle, 0),
        DirectionState::Left => assert!(0 <= t.angle && t.angle < MAX_TURN as i32),
        DirectionState::Right => assert!(-(MAX_TURN as i32) < t.angle && t.angle <= 0),
    }
}

/// The displacements of a track: each step turns the heading, then moves by it.
fn displacements(turns: &[Turn]) -> Vec<(i32, i32)> {
    let mut dir = (-1000.0f64, -10000.0f64);
    let mut out = Vec::new();
    for t in turns {
        let a = t.angle as f64 / 1_000_000.0;
        dir = (dir.0 * a.cos() - dir.1 * a.sin(), dir.0 * a.sin() + dir.1 * a.cos());
        out.push((dir.0.round() as i32, dir.1.round() as i32));
    }
    out
}

#[test]
fn track_has_the_requested_length() {
    assert_eq!(generate_turns(7, 0).len(), 0);
    assert_eq!(generate_turns(7, 1).len(), 1);
    assert_eq!(generate_turns(7, 333).len(), 333);
}

#[test]
fn turns_stay_within_one_radian() {
    let turns = generate_turns(11, 2000);
    turns.iter().for_each(check_turn);
    assert!(turns.iter().any(|t| t.state != DirectionState::Forward && t.angle != 0));
}

#[test]
fn same_seed_gives_same_turns() {
    assert_eq!(generate_turns(2, 50), generate_turns(2, 50));
}

#[test]
fn seed_two_track_has_fifty_distinct_consecutive_waypoints() {
    let turns = generate_turns(2, DEFAULT_STEP_COUNT);
    let start = (0, -9000);
    let points = waypoints(start, &displacements(&turns));
    assert_eq!(points.len(), 50);
    assert_ne!(points[0], start);
    for w in points.windows(2) {
        assert_ne!(w[0], w[1]);
    }
}

#[test]
fn waypoints_add_up_the_displacements() {
    assert_eq!(waypoints((0, -9000), &[(1000, 0), (0, 1000), (-3, -4)]), vec![(1000, -9000), (1000, -8000), (997, -8004)]);
    assert_eq!(waypoints((5, 5), &[]), vec![]);
}

#[test]
fn waypoints_are_held_to_the_coordinate_range() {
    assert_eq!(waypoints((i32::MAX - 1, i32::MIN + 1), &[(5, -5), (-1, 1)]), vec![(i32::MAX, i32::MIN), (i32::MAX - 1, i32::MIN + 1)]);
}

#[test]
fn state_changes_with_the_streak() {
    let mut g = TrackGenerator::new(0);
    assert_eq!((g.state(), g.streak()), (DirectionState::Forward, 1));
    g.decide(0, 1);
    assert_eq!((g.state(), g.streak()), (DirectionState::Left, 1));
    g.decide(5, 2);
    assert_eq!((g.state(), g.streak()), (DirectionState::Left, 2));
    g.decide(1, 2);
    assert_eq!((g.state(), g.streak()), (DirectionState::Right, 1));
    for _ in 0..9 {
        g.decide(9, 0);
    }
    assert_eq!((g.state(), g.streak()), (DirectionState::Right, 10));
    g.decide(9, 0);
    assert_eq!((g.state(), g.streak()), (DirectionState::Forward, 1));
}

#[test]
fn turn_sign_follows_the_state() {
    assert_eq!(TrackGenerator::turn(DirectionState::Forward, 7), Turn { state: DirectionState::Forward, angle: 0 });
    assert_eq!(TrackGenerator::turn(DirectionState::Left, 7), Turn { state: DirectionState::Left, angle: 7 });
    assert_eq!(TrackGenerator::turn(DirectionState::Right, 7), Turn { state: DirectionState::Right, angle: -7 });
}

#[test]
fn steps_keep_the_streak_bounded() {
    let mut g = TrackGenerator::new(99);
    for _ in 0..500 {
        let before = (g.state(), g.streak());
        let t = g.step();
        check_turn(&t);
        assert_eq!(t.state, g.state());
        assert!(1 <= g.streak() && g.streak() <= 10);
        assert!(g.streak() == 1 || (g.streak() == before.1 + 1 && g.state() == before.0));
    }
}
