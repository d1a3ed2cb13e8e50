use fantastic_bits::entity::EntityType;
use fantastic_bits::state::{Observation, State};

fn at(id: i32, kind: EntityType, x: i32, y: i32) -> Observation {
    Observation { id, entity_type: kind, x, y, vx: 0, vy: 0, has_snaffle: false }
}

fn target_of(state: &State, id: i32) -> Option<i32> {
    let slot = state.find_index(id).unwrap();
    state.entities[slot].target
}

#[test]
fn without_snaffles_nobody_has_a_target() {
    let mut s = State::new(0);
    s.update(0, &vec![at(0, EntityType::Wizard, 1000, 3750), at(1, EntityType::Wizard, 2000, 3750)]);
    assert_eq!(target_of(&s, 0), None);
    assert_eq!(target_of(&s, 1), None);
}

#[test]
fn a_single_snaffle_is_shared() {
    let mut s = State::new(0);
    let report = vec![
        at(0, EntityType::Wizard, 1000, 3750),
        at(1, EntityType::Wizard, 15000, 3750),
        at(4, EntityType::Snaffle, 8000, 3750),
    ];
    s.update(0, &report);
    assert_eq!(target_of(&s, 0), Some(4));
    assert_eq!(target_of(&s, 1), Some(4));
    assert_eq!(target_of(&s, 4), None);
}

#[test]
fn two_wizards_nearest_to_the_same_snaffle_get_distinct_targets() {
    let mut s = State::new(0);
    let report = vec![
        at(0, EntityType::Wizard, 1000, 3750),
        at(1, EntityType::Wizard, 2000, 3750),
        at(4, EntityType::Snaffle, 3000, 3750),
        at(5, EntityType::Snaffle, 9000, 3750),
    ];
    s.update(0, &report);
    assert_eq!(target_of(&s, 0), Some(4));
    assert_eq!(target_of(&s, 1), Some(5));
}

#[test]
fn the_first_wizard_of_the_registry_chooses_first() {
    let mut s = State::new(0);
    let report = vec![
        at(1, EntityType::Wizard, 2000, 3750),
        at(0, EntityType::Wizard, 2900, 3750),
        at(4, EntityType::Snaffle, 3000, 3750),
        at(5, EntityType::Snaffle, 9000, 3750),
    ];
    s.update(0, &report);
    assert_eq!(target_of(&s, 1), Some(4));
    assert_eq!(target_of(&s, 0), Some(5));
}

#[test]
fn wizards_nearest_to_different_snaffles_keep_their_own() {
    let mut s = State::new(0);
    let report = vec![
        at(0, EntityType::Wizard, 1000, 1000),
        at(1, EntityType::Wizard, 15000, 7000),
        at(4, EntityType::Snaffle, 14000, 7000),
        at(5, EntityType::Snaffle, 2000, 1000),
    ];
    s.update(0, &report);
    assert_eq!(target_of(&s, 0), Some(5));
    assert_eq!(target_of(&s, 1), Some(4));
}

#[test]
fn the_second_wizard_takes_its_nearest_remaining_snaffle() {
    let mut s = State::new(0);
    let report = vec![
        at(0, EntityType::Wizard, 1000, 3750),
        at(1, EntityType::Wizard, 2000, 3750),
        at(4, EntityType::Snaffle, 3000, 3750),
        at(5, EntityType::Snaffle, 12000, 3750),
        at(6, EntityType::Snaffle, 9000, 3750),
    ];
    s.update(0, &report);
    assert_eq!(target_of(&s, 0), Some(4));
    assert_eq!(target_of(&s, 1), Some(6));
}

#[test]
fn targets_are_chosen_anew_every_turn() {
    let mut s = State::new(0);
    let report = vec![
        at(0, EntityType::Wizard, 1000, 3750),
        at(1, EntityType::Wizard, 2000, 3750),
        at(4, EntityType::Snaffle, 3000, 3750),
        at(5, EntityType::Snaffle, 9000, 3750),
    ];
    s.update(0, &report);
    let report = vec![
        at(0, EntityType::Wizard, 1000, 3750),
        at(1, EntityType::Wizard, 2000, 3750),
        at(5, EntityType::Snaffle, 9000, 3750),
    ];
    s.update(0, &report);
    assert_eq!(target_of(&s, 0), Some(5));
    assert_eq!(target_of(&s, 1), Some(5));
    let report = vec![at(0, EntityType::Wizard, 1000, 3750), at(1, EntityType::Wizard, 2000, 3750)];
    s.update(0, &report);
    assert_eq!(target_of(&s, 0), None);
    assert_eq!(target_of(&s, 1), None);
}

#[test]
fn assignment_without_wizards_changes_nothing() {
    let mut s = State::new(0);
    s.ingest(&vec![at(4, EntityType::Snaffle, 3000, 3750), at(2, EntityType::Opponent, 9000, 3750)]);
    let before = s.clone();
    s.set_targets();
    assert_eq!(s, before);
    assert_eq!(s.first_wizard(), None);
}

#[test]
fn a_lone_wizard_takes_its_nearest_snaffle() {
    let mut s = State::new(0);
    let report = vec![
        at(4, EntityType::Snaffle, 3000, 3750),
        at(5, EntityType::Snaffle, 9000, 3750),
        at(0, EntityType::Wizard, 8000, 3750),
    ];
    s.update(0, &report);
    assert_eq!(s.first_wizard(), Some(2));
    assert_eq!(target_of(&s, 0), Some(5));
    assert_eq!(s.target_for(2), Some(5));
}

#[test]
fn only_own_wizards_are_assigned() {
    let mut s = State::new(0);
    let report = vec![
        at(2, EntityType::Opponent, 3000, 3750),
        at(0, EntityType::Wizard, 1000, 3750),
        at(4, EntityType::Snaffle, 3000, 3750),
        at(6, EntityType::Bludger, 3000, 3750),
    ];
    s.update(0, &report);
    assert_eq!(target_of(&s, 2), None);
    assert_eq!(target_of(&s, 6), None);
    assert_eq!(target_of(&s, 4), None);
    assert_eq!(target_of(&s, 0), Some(4));
}
