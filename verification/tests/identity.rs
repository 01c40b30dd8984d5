use roleplay_core::identity::{
    list_identity_infos, must_resync_after_update, possessed_after_delete, validate_identity_name, PlayerIdentity,
    RoleProfile, PLAYER_ROLE_ID,
};

#[test]
fn identity_names_are_trimmed_and_must_not_be_empty() {
    assert_eq!(validate_identity_name("  Alice ").unwrap(), "Alice");
    assert_eq!(validate_identity_name(" \t ").unwrap_err(), "身份名称不能为空");
    assert_eq!(validate_identity_name("").unwrap_err(), "身份名称不能为空");
}

#[test]
fn listing_flags_the_possessed_identity() {
    let ids = vec![
        PlayerIdentity { role_id: 0, name: "默认".to_string(), profile: RoleProfile { json: "{}".to_string() } },
        PlayerIdentity { role_id: 7, name: "Knight".to_string(), profile: RoleProfile { json: "{\"a\":1}".to_string() } },
    ];
    let infos = list_identity_infos(&ids, 7);
    assert_eq!(infos.len(), 2);
    assert!(!infos[0].possessed);
    assert!(infos[1].possessed);
    assert_eq!(infos[1].name, "Knight");
    assert_eq!(infos[1].profile.json, "{\"a\":1}");
}

#[test]
fn deleting_the_possessed_identity_falls_back_to_default() {
    assert_eq!(possessed_after_delete(7, 7, true), Some(PLAYER_ROLE_ID));
    assert_eq!(possessed_after_delete(7, 7, false), None);
    assert_eq!(possessed_after_delete(7, 3, true), None);
    assert!(must_resync_after_update(7, 7));
    assert!(!must_resync_after_update(7, 3));
}

#[test]
fn accepted_names_are_accepted_again_unchanged() {
    let once = validate_identity_name("\t 旅人 ").unwrap();
    assert_eq!(once, "旅人");
    assert_eq!(validate_identity_name(&once).unwrap(), once);
}
