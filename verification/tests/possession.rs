use roleplay_core::possession::{persona_lines, possess_entity, settings_source, SessionRoles, SettingsSource};
use roleplay_core::types::{GameLine, LineAttribute, LineAttributeExt, LineBase};

#[test]
fn possessing_the_addressed_entity_turns_to_the_default_identity() {
    let mut s = SessionRoles { possessed_role_id: 0, present_role_ids: vec![2, 3], current_role_id: Some(5) };
    possess_entity(&mut s, 5);
    assert_eq!(s.possessed_role_id, 5);
    assert_eq!(s.present_role_ids, vec![2, 3, 5]);
    assert_eq!(s.current_role_id, Some(0));
}

#[test]
fn possessing_the_default_identity_turns_to_another_present_entity() {
    let mut s = SessionRoles { possessed_role_id: 4, present_role_ids: vec![0, 3, 4], current_role_id: Some(0) };
    possess_entity(&mut s, 0);
    assert_eq!(s.present_role_ids, vec![0, 3, 4]);
    assert_eq!(s.current_role_id, Some(3));
    let mut alone = SessionRoles { possessed_role_id: 4, present_role_ids: vec![0], current_role_id: Some(0) };
    possess_entity(&mut alone, 0);
    assert_eq!(alone.current_role_id, None);
}

#[test]
fn possessing_another_entity_keeps_the_conversation() {
    let mut s = SessionRoles { possessed_role_id: 0, present_role_ids: vec![2], current_role_id: Some(2) };
    possess_entity(&mut s, 9);
    assert_eq!(s.current_role_id, Some(2));
    assert_eq!(s.present_role_ids, vec![2, 9]);
}

#[test]
fn persona_lines_are_found_in_order() {
    let mk = |a: LineAttribute, sender: Option<i32>| {
        let mut b = LineBase::default();
        b.attribute = LineAttributeExt(a);
        b.sender_role_id = sender;
        GameLine::from_base(b, vec![])
    };
    let lines = vec![
        mk(LineAttribute::System, Some(4)),
        mk(LineAttribute::User, Some(4)),
        mk(LineAttribute::System, None),
        mk(LineAttribute::System, Some(0)),
        mk(LineAttribute::Tool, Some(2)),
    ];
    assert_eq!(persona_lines(&lines), vec![(0, 4), (3, 0)]);
}

#[test]
fn persona_settings_come_from_the_right_place() {
    assert_eq!(settings_source(Some(true), true), Some(SettingsSource::UserIdentity));
    assert_eq!(settings_source(Some(false), true), Some(SettingsSource::Loaded));
    assert_eq!(settings_source(Some(false), false), Some(SettingsSource::Disk));
    assert_eq!(settings_source(None, true), None);
}

#[test]
fn present_entities_stay_listed_once() {
    let mut s = SessionRoles { possessed_role_id: 0, present_role_ids: vec![2, 5], current_role_id: None };
    possess_entity(&mut s, 5);
    possess_entity(&mut s, 5);
    assert_eq!(s.present_role_ids, vec![2, 5]);
}
