use fantastic_bits::entity::EntityType;
use fantastic_bits::state::{Observation, State};
use fantastic_bits::vector::Vector2;

fn obs(id: i32, kind: EntityType, x: i32, y: i32, vx: i32, vy: i32) -> Observation {
    Observation { id, entity_type: kind, x, y, vx, vy, has_snaffle: false }
}

fn world(report: Vec<Observation>) -> State {
    let mut s = State::new(0);
    s.update(0, &report);
    s
}

fn p(x: i64, y: i64) -> Vector2 {
    Vector2::new(x * 1000, y * 1000)
}

#[test]
fn division_points_are_evenly_spaced() {
    let s = State::new(0);
    let points = s.in_between_points(&p(0, 0), &p(10000, -5000), 10);
    assert_eq!(points.len(), 9);
    for (k, point) in points.iter().enumerate() {
        let i = k as i64 + 1;
        assert_eq!(*point, p(1000 * i, -500 * i));
    }
}

#[test]
fn division_points_round_toward_the_start() {
    let s = State::new(0);
    let points = s.in_between_points(&Vector2::new(0, 0), &Vector2::new(10, -10), 3);
    assert_eq!(points, vec![Vector2::new(3, -3), Vector2::new(6, -6)]);
    let back = s.in_between_points(&Vector2::new(10, -10), &Vector2::new(0, 0), 3);
    assert_eq!(back, vec![Vector2::new(7, -7), Vector2::new(4, -4)]);
}

#[test]
fn fewer_than_two_parts_have_no_division_point() {
    let s = State::new(0);
    assert!(s.in_between_points(&p(0, 0), &p(10, 10), 1).is_empty());
    assert!(s.in_between_points(&p(0, 0), &p(10, 10), 0).is_empty());
    assert!(s.in_between_points(&p(0, 0), &p(10, 10), -3).is_empty());
    assert_eq!(s.in_between_points(&p(0, 0), &p(10, 10), 2), vec![p(5, 5)]);
}

#[test]
fn a_segment_without_length_is_probed_at_its_only_point() {
    let s = State::new(0);
    let points = s.in_between_points(&p(7, 9), &p(7, 9), 10);
    assert_eq!(points.len(), 9);
    for point in points {
        assert_eq!(point, p(7, 9));
    }
}

#[test]
fn probes_are_resting_circles_of_snaffle_size() {
    let s = State::new(0);
    let probes = s.in_between_colliders(&p(0, 0), &p(0, 4000), 4);
    assert_eq!(probes.len(), 3);
    for (k, probe) in probes.iter().enumerate() {
        assert_eq!(probe.pos, p(0, 1000 * (k as i64 + 1)));
        assert_eq!(probe.vel, Vector2::new(0, 0));
        assert_eq!(probe.friction, 750);
        assert_eq!(probe.mass, 500);
        assert_eq!(probe.radius, 150_000);
    }
}

#[test]
fn without_obstacles_nothing_is_blocked() {
    let s = world(vec![
        obs(0, EntityType::Wizard, 5000, 0, 0, 0),
        obs(1, EntityType::Wizard, 3000, 0, 0, 0),
        obs(4, EntityType::Snaffle, 4000, 0, 0, 0),
    ]);
    assert!(!s.is_obstacles_in_between(&p(0, 0), &p(10000, 0)));
    assert!(!s.is_obstacles_in_between(&p(5000, 0), &p(5000, 0)));
    assert!(!s.is_path_blocked(&p(0, 0), &p(10000, 0), 1000));
    assert!(!State::new(1).is_obstacles_in_between(&p(-400, 9), &p(16000, 7500)));
}

#[test]
fn an_obstacle_on_a_probe_blocks_the_path() {
    let clear = world(vec![obs(0, EntityType::Wizard, 1000, 1000, 0, 0)]);
    assert!(!clear.is_obstacles_in_between(&p(0, 0), &p(10000, 0)));
    let mut blocked = clear.clone();
    blocked.update(0, &vec![obs(6, EntityType::Bludger, 5000, 0, 0, 0)]);
    assert!(blocked.is_obstacles_in_between(&p(0, 0), &p(10000, 0)));
    assert!(blocked.is_obstacles_in_between(&p(10000, 0), &p(0, 0)));
}

#[test]
fn an_opposing_wizard_blocks_too() {
    let s = world(vec![obs(2, EntityType::Opponent, 3000, 500, 0, 0)]);
    assert!(s.is_obstacles_in_between(&p(0, 0), &p(10000, 0)));
}

#[test]
fn more_objects_never_clear_a_blocked_path() {
    let mut s = world(vec![obs(6, EntityType::Bludger, 5000, 0, 0, 0)]);
    assert!(s.is_obstacles_in_between(&p(0, 0), &p(10000, 0)));
    s.update(0, &vec![obs(7, EntityType::Bludger, 9000, 9000, 0, 0), obs(4, EntityType::Snaffle, 1, 1, 0, 0)]);
    assert!(s.is_obstacles_in_between(&p(0, 0), &p(10000, 0)));
}

#[test]
fn obstacles_count_where_they_are_predicted_to_be() {
    let moving_in = world(vec![obs(6, EntityType::Bludger, 300, 0, 1000, 0)]);
    assert!(moving_in.is_obstacles_in_between(&p(0, 0), &p(10000, 0)));
    let moving_out = world(vec![obs(6, EntityType::Bludger, 3000, 0, 500, 0)]);
    assert!(!moving_out.is_obstacles_in_between(&p(0, 0), &p(10000, 0)));
}

#[test]
fn the_overlap_test_of_a_probe_is_strict() {
    let touching = world(vec![obs(6, EntityType::Bludger, 5000, 350, 0, 0)]);
    assert!(!touching.is_obstacles_in_between(&p(0, 0), &p(10000, 0)));
    let overlapping = world(vec![obs(6, EntityType::Bludger, 5000, 349, 0, 0)]);
    assert!(overlapping.is_obstacles_in_between(&p(0, 0), &p(10000, 0)));
}

#[test]
fn an_obstacle_between_two_probes_goes_unseen() {
    let s = world(vec![obs(6, EntityType::Bludger, 1500, 0, 0, 0)]);
    assert!(!s.is_path_blocked(&p(0, 0), &p(10000, 0), 10));
    assert!(s.is_path_blocked(&p(0, 0), &p(10000, 0), 20));
}

#[test]
fn the_ends_of_the_path_are_not_probed() {
    let s = world(vec![obs(6, EntityType::Bludger, 0, 0, 0, 0), obs(7, EntityType::Bludger, 10000, 0, 0, 0)]);
    assert!(!s.is_obstacles_in_between(&p(0, 0), &p(10000, 0)));
    assert!(!s.is_path_blocked(&p(0, 0), &p(10000, 0), 1));
}
