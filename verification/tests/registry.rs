use fantastic_bits::collider::Collider;
use fantastic_bits::entity::{Entity, EntityType};
use fantastic_bits::goal::Goal;
use fantastic_bits::state::{Observation, State};
use fantastic_bits::vector::Vector2;

fn obs(id: i32, kind: EntityType, x: i32, y: i32, vx: i32, vy: i32, flag: bool) -> Observation {
    Observation { id, entity_type: kind, x, y, vx, vy, has_snaffle: flag }
}

fn at(id: i32, kind: EntityType, x: i32, y: i32) -> Observation {
    obs(id, kind, x, y, 0, 0, false)
}

fn ids(state: &State) -> Vec<i32> {
    let mut out = Vec::new();
    for e in &state.entities {
        out.push(e.id);
    }
    out
}

fn opening_report() -> Vec<Observation> {
    vec![
        obs(0, EntityType::Wizard, 1000, 2000, 10, -20, false),
        at(1, EntityType::Wizard, 1000, 5500),
        at(2, EntityType::Opponent, 15000, 2000),
        at(3, EntityType::Opponent, 15000, 5500),
        at(4, EntityType::Snaffle, 8000, 3750),
        at(5, EntityType::Snaffle, 8000, 1000),
        at(6, EntityType::Bludger, 7450, 3750),
        at(7, EntityType::Bludger, 8550, 3750),
    ]
}

#[test]
fn kinds_carry_their_constants() {
    assert_eq!(EntityType::Wizard.friction(), 750);
    assert_eq!(EntityType::Wizard.mass(), 1000);
    assert_eq!(EntityType::Wizard.radius(), 400_000);
    assert_eq!(EntityType::Opponent.friction(), 750);
    assert_eq!(EntityType::Opponent.mass(), 1000);
    assert_eq!(EntityType::Opponent.radius(), 400_000);
    assert_eq!(EntityType::Snaffle.friction(), 750);
    assert_eq!(EntityType::Snaffle.mass(), 500);
    assert_eq!(EntityType::Snaffle.radius(), 150_000);
    assert_eq!(EntityType::Bludger.friction(), 900);
    assert_eq!(EntityType::Bludger.mass(), 8000);
    assert_eq!(EntityType::Bludger.radius(), 200_000);
}

#[test]
fn only_opponents_and_bludgers_block_sight() {
    assert!(EntityType::Opponent.is_obstacle());
    assert!(EntityType::Bludger.is_obstacle());
    assert!(!EntityType::Wizard.is_obstacle());
    assert!(!EntityType::Snaffle.is_obstacle());
}

#[test]
fn entity_new_has_no_target() {
    let c = Collider::new(Vector2::new(1, 2), Vector2::new(3, 4), 750, 500, 150_000);
    let e = Entity::new(9, EntityType::Snaffle, c, true);
    assert_eq!(e.id, 9);
    assert_eq!(e.entity_type, EntityType::Snaffle);
    assert_eq!(e.collider, c);
    assert!(e.has_snaffle);
    assert_eq!(e.target, None);
}

#[test]
fn spawn_places_whole_units_on_the_grid() {
    let e = Entity::spawn(3, EntityType::Bludger, 12, -7, -3, 5, false);
    assert_eq!(e.id, 3);
    assert_eq!(e.entity_type, EntityType::Bludger);
    assert_eq!(e.collider.pos, Vector2::new(12_000, -7_000));
    assert_eq!(e.collider.vel, Vector2::new(-3_000, 5_000));
    assert_eq!(e.collider.friction, 900);
    assert_eq!(e.collider.mass, 8000);
    assert_eq!(e.collider.radius, 200_000);
    assert!(!e.has_snaffle);
    assert_eq!(e.target, None);
}

#[test]
fn spawn_at_the_edge_of_the_reported_range() {
    let e = Entity::spawn(1, EntityType::Wizard, i32::MIN, i32::MAX, i32::MAX, i32::MIN, true);
    assert_eq!(e.collider.pos, Vector2::new(-2_147_483_648_000, 2_147_483_647_000));
    assert_eq!(e.collider.vel, Vector2::new(2_147_483_647_000, -2_147_483_648_000));
    let ahead = e.future_turns(3);
    assert_eq!(
        ahead.collider.pos,
        Vector2::new(-2_147_483_648_000 + 3 * 1_610_612_735_250, 2_147_483_647_000 - 3 * 1_610_612_736_000)
    );
}

#[test]
fn entity_update_keeps_identity_and_target() {
    let mut e = Entity::spawn(4, EntityType::Wizard, 10, 20, 1, 2, false);
    e.set_target(Some(8));
    e.update(-5, 6, 7, -8, true);
    assert_eq!(e.id, 4);
    assert_eq!(e.entity_type, EntityType::Wizard);
    assert_eq!(e.collider.pos, Vector2::new(-5_000, 6_000));
    assert_eq!(e.collider.vel, Vector2::new(7_000, -8_000));
    assert_eq!(e.collider.friction, 750);
    assert_eq!(e.collider.mass, 1000);
    assert_eq!(e.collider.radius, 400_000);
    assert!(e.has_snaffle);
    assert_eq!(e.target, Some(8));
}

#[test]
fn entity_set_target_changes_only_the_target() {
    let mut e = Entity::spawn(4, EntityType::Wizard, 10, 20, 1, 2, false);
    let before = e;
    e.set_target(Some(2));
    assert_eq!(e.target, Some(2));
    e.set_target(None);
    assert_eq!(e, before);
}

#[test]
fn entity_future_turns_projects_the_body_only() {
    let mut e = Entity::spawn(4, EntityType::Snaffle, 1000, 1000, 200, -100, true);
    e.set_target(Some(1));
    let f = e.future_turns(3);
    assert_eq!(f.id, 4);
    assert_eq!(f.entity_type, EntityType::Snaffle);
    assert_eq!(f.collider.pos, Vector2::new(1_450_000, 775_000));
    assert_eq!(f.collider.vel, Vector2::new(150_000, -75_000));
    assert_eq!(f.collider.friction, 750);
    assert_eq!(f.collider.mass, 500);
    assert_eq!(f.collider.radius, 150_000);
    assert!(f.has_snaffle);
    assert_eq!(f.target, Some(1));
}

#[test]
fn new_state_is_empty_and_picks_sides() {
    let s = State::new(0);
    assert!(s.entities.is_empty());
    assert_eq!(s.magic, 0);
    assert_eq!(s.team_id, 0);
    assert_eq!(s.target_goal, Goal::new(0));
    assert_eq!(s.own_goal, Goal::new(1));
    assert_eq!(s.target_goal.pole_top.pos, Vector2::new(16_000_000, 1_750_000));
    assert_eq!(s.own_goal.pole_bottom.pos, Vector2::new(0, 5_750_000));
}

#[test]
fn team_one_scores_on_the_left() {
    let s = State::new(1);
    assert_eq!(s.team_id, 1);
    assert_eq!(s.target_goal, Goal::new(1));
    assert_eq!(s.own_goal, Goal::new(0));
    assert_eq!(s.target_goal.center(), Vector2::new(0, 3_750_000));
    assert_eq!(s.own_goal.center(), Vector2::new(16_000_000, 3_750_000));
}

#[test]
fn any_other_team_scores_and_defends_on_the_left() {
    let s = State::new(2);
    assert_eq!(s.target_goal.center(), Vector2::new(0, 3_750_000));
    assert_eq!(s.own_goal.center(), Vector2::new(0, 3_750_000));
    let t = State::new(i32::MIN);
    assert_eq!(t.target_goal.center(), Vector2::new(0, 3_750_000));
    assert_eq!(t.own_goal.center(), Vector2::new(0, 3_750_000));
}

#[test]
fn first_report_fills_the_registry_in_order() {
    let mut s = State::new(0);
    s.update(42, &opening_report());
    assert_eq!(s.magic, 42);
    assert_eq!(ids(&s), vec![0, 1, 2, 3, 4, 5, 6, 7]);
    let w = s.entities[0];
    assert_eq!(w.entity_type, EntityType::Wizard);
    assert_eq!(w.collider.pos, Vector2::new(1_000_000, 2_000_000));
    assert_eq!(w.collider.vel, Vector2::new(10_000, -20_000));
    assert_eq!(w.collider.friction, 750);
    assert_eq!(w.collider.mass, 1000);
    assert_eq!(w.collider.radius, 400_000);
    let b = s.entities[7];
    assert_eq!(b.entity_type, EntityType::Bludger);
    assert_eq!(b.collider.friction, 900);
    assert_eq!(b.collider.mass, 8000);
    assert_eq!(b.collider.radius, 200_000);
    assert_eq!(s.entities[4].collider.mass, 500);
    assert_eq!(s.entities[4].collider.radius, 150_000);
}

#[test]
fn later_report_updates_objects_in_place() {
    let mut s = State::new(0);
    s.update(10, &opening_report());
    let report = vec![
        at(7, EntityType::Bludger, 9000, 3000),
        obs(4, EntityType::Snaffle, 8100, 3700, 100, -50, true),
        obs(0, EntityType::Wizard, 1100, 1900, 100, -100, true),
        at(1, EntityType::Wizard, 1000, 5500),
        at(2, EntityType::Opponent, 15000, 2000),
        at(3, EntityType::Opponent, 15000, 5500),
        at(5, EntityType::Snaffle, 8000, 1000),
        at(6, EntityType::Bludger, 7450, 3750),
    ];
    s.update(11, &report);
    assert_eq!(s.magic, 11);
    assert_eq!(ids(&s), vec![0, 1, 2, 3, 4, 5, 6, 7]);
    assert_eq!(s.entities[0].collider.pos, Vector2::new(1_100_000, 1_900_000));
    assert_eq!(s.entities[0].collider.vel, Vector2::new(100_000, -100_000));
    assert!(s.entities[0].has_snaffle);
    assert_eq!(s.entities[4].collider.pos, Vector2::new(8_100_000, 3_700_000));
    assert_eq!(s.entities[4].collider.vel, Vector2::new(100_000, -50_000));
    assert!(s.entities[4].has_snaffle);
    assert_eq!(s.entities[7].collider.pos, Vector2::new(9_000_000, 3_000_000));
}

#[test]
fn a_snaffle_that_is_no_longer_reported_is_removed() {
    let mut s = State::new(0);
    s.update(0, &opening_report());
    let mut report = opening_report();
    report.remove(4);
    s.update(0, &report);
    assert_eq!(ids(&s), vec![0, 1, 2, 3, 5, 6, 7]);
    assert_eq!(s.snaffles().len(), 1);
}

#[test]
fn wizards_opponents_and_bludgers_are_never_removed() {
    let mut s = State::new(0);
    s.update(0, &opening_report());
    let report = vec![at(5, EntityType::Snaffle, 8000, 1100)];
    s.update(0, &report);
    assert_eq!(ids(&s), vec![0, 1, 2, 3, 5, 6, 7]);
    assert_eq!(s.entities[0].collider.pos, Vector2::new(1_000_000, 2_000_000));
    assert_eq!(s.entities[4].collider.pos, Vector2::new(8_000_000, 1_100_000));
    let empty: Vec<Observation> = Vec::new();
    s.update(0, &empty);
    assert_eq!(ids(&s), vec![0, 1, 2, 3, 6, 7]);
}

#[test]
fn an_unknown_identifier_is_appended() {
    let mut s = State::new(0);
    s.update(0, &opening_report());
    let mut report = opening_report();
    report.insert(0, obs(11, EntityType::Snaffle, 500, 600, 7, 8, false));
    s.update(0, &report);
    assert_eq!(ids(&s), vec![0, 1, 2, 3, 4, 5, 6, 7, 11]);
    let e = s.entities[8];
    assert_eq!(e.entity_type, EntityType::Snaffle);
    assert_eq!(e.collider.pos, Vector2::new(500_000, 600_000));
    assert_eq!(e.collider.vel, Vector2::new(7_000, 8_000));
    assert_eq!(e.collider.mass, 500);
    assert_eq!(e.target, None);
}

#[test]
fn a_repeated_identifier_is_one_object() {
    let mut s = State::new(0);
    let report = vec![
        at(4, EntityType::Snaffle, 100, 100),
        at(4, EntityType::Snaffle, 200, 300),
        at(4, EntityType::Bludger, 400, 500),
    ];
    s.update(0, &report);
    assert_eq!(ids(&s), vec![4]);
    assert_eq!(s.entities[0].entity_type, EntityType::Snaffle);
    assert_eq!(s.entities[0].collider.pos, Vector2::new(400_000, 500_000));
    assert_eq!(s.entities[0].collider.radius, 150_000);
}

#[test]
fn observe_then_prune_by_hand() {
    let mut s = State::new(0);
    s.observe(&at(4, EntityType::Snaffle, 100, 100));
    s.observe(&at(0, EntityType::Wizard, 200, 200));
    s.observe(&at(5, EntityType::Snaffle, 300, 300));
    assert_eq!(ids(&s), vec![4, 0, 5]);
    assert_eq!(s.find_index(0), Some(1));
    assert_eq!(s.find_index(5), Some(2));
    assert_eq!(s.find_index(9), None);
    let report = vec![at(5, EntityType::Wizard, 1, 1)];
    assert!(State::is_reported(&report, 5));
    assert!(!State::is_reported(&report, 4));
    s.prune(&report);
    assert_eq!(ids(&s), vec![0, 5]);
    assert_eq!(s.entities[1].collider.pos, Vector2::new(300_000, 300_000));
}

#[test]
fn ingest_alone_removes_nothing() {
    let mut s = State::new(0);
    s.ingest(&opening_report());
    s.ingest(&vec![at(1, EntityType::Wizard, 5, 6)]);
    assert_eq!(ids(&s), vec![0, 1, 2, 3, 4, 5, 6, 7]);
    assert_eq!(s.entities[1].collider.pos, Vector2::new(5_000, 6_000));
    assert_eq!(s.entities[0].target, None);
}

#[test]
fn queries_by_kind_keep_registry_order() {
    let mut s = State::new(0);
    let mut report = opening_report();
    report.reverse();
    s.update(0, &report);
    let wizards: Vec<i32> = s.wizards().iter().map(|e| e.id).collect();
    let opponents: Vec<i32> = s.opponents().iter().map(|e| e.id).collect();
    let snaffles: Vec<i32> = s.snaffles().iter().map(|e| e.id).collect();
    let obstacles: Vec<i32> = s.obstacles().iter().map(|e| e.id).collect();
    let bludgers: Vec<i32> = s.entities_of_type(EntityType::Bludger).iter().map(|e| e.id).collect();
    assert_eq!(wizards, vec![1, 0]);
    assert_eq!(opponents, vec![3, 2]);
    assert_eq!(snaffles, vec![5, 4]);
    assert_eq!(bludgers, vec![7, 6]);
    assert_eq!(obstacles, vec![7, 6, 3, 2]);
}

#[test]
fn other_wizard_is_the_teammate() {
    let mut s = State::new(0);
    s.update(0, &opening_report());
    let w0 = s.entities[0];
    let w1 = s.entities[1];
    assert_eq!(s.other_wizard(&w0).map(|e| e.id), Some(1));
    assert_eq!(s.other_wizard(&w1).map(|e| e.id), Some(0));
    let stranger = s.entities[2];
    assert_eq!(s.other_wizard(&stranger).map(|e| e.id), Some(0));
}

#[test]
fn a_lone_wizard_has_no_teammate() {
    let mut s = State::new(0);
    s.update(0, &vec![at(0, EntityType::Wizard, 1, 1), at(2, EntityType::Opponent, 5, 5)]);
    let w0 = s.entities[0];
    assert_eq!(s.other_wizard(&w0), None);
}

#[test]
fn closest_snaffle_goes_by_the_predicted_position() {
    let mut s = State::new(0);
    let report = vec![
        at(4, EntityType::Snaffle, 5000, 3750),
        obs(5, EntityType::Snaffle, 4000, 3750, 1000, 0, false),
    ];
    s.update(0, &report);
    let pos = Vector2::new(6_250_000, 3_750_000);
    assert_eq!(s.closest_snaffle(pos).map(|e| e.id), Some(5));
    assert_eq!(s.second_closest_snaffle(5, pos).map(|e| e.id), Some(4));
    assert_eq!(s.second_closest_snaffle(4, pos).map(|e| e.id), Some(5));
    assert_eq!(s.closest_snaffle(Vector2::new(5_000_000, 3_750_000)).map(|e| e.id), Some(4));
}

#[test]
fn closest_snaffle_breaks_ties_by_the_lower_identifier() {
    let mut s = State::new(0);
    let report = vec![
        at(9, EntityType::Snaffle, 6000, 3750),
        at(4, EntityType::Snaffle, 4000, 3750),
        at(7, EntityType::Snaffle, 5000, 4750),
    ];
    s.update(0, &report);
    let pos = Vector2::new(5_000_000, 3_750_000);
    assert_eq!(s.closest_snaffle(pos).map(|e| e.id), Some(4));
    assert_eq!(s.second_closest_snaffle(4, pos).map(|e| e.id), Some(7));
    assert_eq!(s.nearest_snaffle(pos, Some(7)).map(|e| e.id), Some(4));
}

#[test]
fn closest_snaffle_without_snaffles_is_none() {
    let mut s = State::new(0);
    s.update(0, &vec![at(0, EntityType::Wizard, 1, 1), at(6, EntityType::Bludger, 2, 2)]);
    assert_eq!(s.closest_snaffle(Vector2::new(0, 0)), None);
    s.update(0, &vec![at(4, EntityType::Snaffle, 3, 3)]);
    assert_eq!(s.closest_snaffle(Vector2::new(0, 0)).map(|e| e.id), Some(4));
    assert_eq!(s.second_closest_snaffle(4, Vector2::new(0, 0)), None);
    assert_eq!(s.second_closest_snaffle(5, Vector2::new(0, 0)).map(|e| e.id), Some(4));
}

#[test]
fn kind_tags_of_the_feed() {
    assert_eq!(EntityType::from_tag("WIZARD"), Some(EntityType::Wizard));
    assert_eq!(EntityType::from_tag("OPPONENT_WIZARD"), Some(EntityType::Opponent));
    assert_eq!(EntityType::from_tag("SNAFFLE"), Some(EntityType::Snaffle));
    assert_eq!(EntityType::from_tag("BLUDGER"), Some(EntityType::Bludger));
    assert_eq!(EntityType::from_tag("wizard"), None);
    assert_eq!(EntityType::from_tag("WIZARD "), None);
    assert_eq!(EntityType::from_tag(""), None);
    assert_eq!(EntityType::from_tag("OPPONENT"), None);
}

#[test]
fn states_built_from_reports_are_valid() {
    let mut s = State::new(0);
    assert!(s.is_valid());
    s.update(5, &opening_report());
    assert!(s.is_valid());
    s.update(5, &vec![obs(4, EntityType::Snaffle, i32::MAX, i32::MIN, i32::MIN, i32::MAX, true)]);
    assert!(s.is_valid());
    for e in &s.entities {
        assert!(e.is_valid());
    }
    assert!(s.own_goal.is_valid());
    assert!(s.target_goal.is_valid());
}

#[test]
fn a_state_with_a_repeated_identifier_is_not_valid() {
    let mut s = State::new(0);
    s.update(0, &opening_report());
    let mut twin = s.entities[3];
    twin.id = 0;
    s.entities.push(twin);
    assert!(!s.is_valid());
}

#[test]
fn a_state_with_foreign_constants_is_not_valid() {
    let mut s = State::new(0);
    s.update(0, &opening_report());
    s.entities[4].collider.mass = 1000;
    assert!(!s.is_valid());
    assert!(!s.entities[4].is_valid());
    s.entities[4].collider.mass = 500;
    assert!(s.is_valid());
    s.entities[0].collider.pos.x = 2_147_483_648_001;
    assert!(!s.is_valid());
    s.entities[0].collider.pos.x = 2_147_483_648_000;
    assert!(s.is_valid());
    s.target_goal.pole_top.radius = -1;
    assert!(!s.is_valid());
}

#[test]
fn only_own_wizards_may_hold_a_target() {
    let mut s = State::new(0);
    s.update(0, &opening_report());
    assert!(s.is_valid());
    for e in &s.entities {
        if e.entity_type != EntityType::Wizard {
            assert_eq!(e.target, None);
        }
    }
    s.entities[4].set_target(Some(0));
    assert!(!s.entities[4].is_valid());
    assert!(!s.is_valid());
    s.entities[4].set_target(None);
    assert!(s.is_valid());
    s.entities[0].set_target(Some(77));
    assert!(s.is_valid());
    let mut opponent = Entity::spawn(2, EntityType::Opponent, 1, 1, 0, 0, false);
    assert!(opponent.is_valid());
    opponent.set_target(Some(4));
    assert!(!opponent.is_valid());
}

#[test]
fn a_record_with_a_known_tag_reads_as_that_kind() {
    let mut s = State::new(0);
    s.update(0, &opening_report());
    assert_eq!(
        s.observation(30, "SNAFFLE", 1, 2, 3, 4, true),
        Some(obs(30, EntityType::Snaffle, 1, 2, 3, 4, true))
    );
    assert_eq!(
        s.observation(0, "BLUDGER", 1, 2, 3, 4, false),
        Some(obs(0, EntityType::Bludger, 1, 2, 3, 4, false))
    );
    assert_eq!(
        State::new(1).observation(5, "OPPONENT_WIZARD", -1, -2, -3, -4, false),
        Some(obs(5, EntityType::Opponent, -1, -2, -3, -4, false))
    );
}

#[test]
fn a_record_with_an_unknown_tag_still_updates_a_tracked_object() {
    let mut s = State::new(0);
    s.update(0, &opening_report());
    assert_eq!(
        s.observation(6, "GHOST", 100, 200, 3, 4, true),
        Some(obs(6, EntityType::Bludger, 100, 200, 3, 4, true))
    );
    assert_eq!(
        s.observation(1, "", 9, 8, 7, 6, false),
        Some(obs(1, EntityType::Wizard, 9, 8, 7, 6, false))
    );
    assert_eq!(s.observation(30, "GHOST", 100, 200, 3, 4, true), None);
    assert_eq!(State::new(0).observation(0, "wizard", 1, 1, 1, 1, false), None);
    let record = s.observation(4, "GHOST", 8100, 3700, 0, 0, false).unwrap();
    let mut report = opening_report();
    report.remove(4);
    report.push(record);
    s.update(0, &report);
    assert_eq!(ids(&s), vec![0, 1, 2, 3, 4, 5, 6, 7]);
    assert_eq!(s.entities[4].entity_type, EntityType::Snaffle);
    assert_eq!(s.entities[4].collider.pos, Vector2::new(8_100_000, 3_700_000));
}
