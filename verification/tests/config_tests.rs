use diplomacygm::commands::{command_reaction, game_type, has_gm_role, help_topic, is_gm_channel};
use diplomacygm::config::{
    _is_player_category, add_temporary_bumble, is_bumble, is_gm_category, is_gm_channel_name, is_gm_role,
    is_member, remove_temporary_bumble, BumbleRegistry, GM_ROLES,
};

#[test]
fn gm_roles_are_exact() {
    assert!(is_gm_role("admin"));
    assert!(is_gm_role("gm"));
    assert!(is_gm_role("heavenly angel"));
    assert!(is_gm_role("emergency gm"));
    assert!(!is_gm_role("GM"));
    assert!(!is_gm_role("player"));
}

#[test]
fn gm_channels_and_categories() {
    assert!(is_gm_category("gm channels"));
    assert!(!is_gm_category("GM Channels"));
    assert!(is_gm_channel_name("admin-chat"));
    assert!(!is_gm_channel_name("general"));
    assert!(_is_player_category("orders"));
    assert!(!_is_player_category("gm channels"));
}

#[test]
fn membership_in_a_group() {
    assert!(is_member("gm", &GM_ROLES));
    assert!(!is_member("", &GM_ROLES));
    assert!(!is_member("gm", &[]));
}

#[test]
fn gm_by_roles() {
    assert!(has_gm_role(&vec![String::from("player"), String::from("admin")]));
    assert!(!has_gm_role(&vec![String::from("player")]));
    assert!(!has_gm_role(&Vec::new()));
}

#[test]
fn gm_channel_needs_its_category() {
    assert!(is_gm_channel("admin-chat", Some("gm channels")));
    assert!(!is_gm_channel("admin-chat", None));
    assert!(!is_gm_channel("admin-chat", Some("orders")));
    assert!(!is_gm_channel("general", Some("gm channels")));
}

#[test]
fn the_permanent_bumble() {
    let registry = BumbleRegistry::new();
    assert!(is_bumble(&registry, "_bumble"));
    assert!(!is_bumble(&registry, "someone"));
}

#[test]
fn temporary_bumbleship_comes_and_goes() {
    let mut registry = BumbleRegistry::new();
    add_temporary_bumble(&mut registry, "alice");
    assert!(is_bumble(&registry, "alice"));
    assert!(!is_bumble(&registry, "bob"));
    add_temporary_bumble(&mut registry, "alice");
    remove_temporary_bumble(&mut registry, "alice");
    assert!(!is_bumble(&registry, "alice"));
    remove_temporary_bumble(&mut registry, "_bumble");
    assert!(is_bumble(&registry, "_bumble"));
}

#[test]
fn default_game_type() {
    assert_eq!(game_type(None), "impdip1.1.json");
    assert_eq!(game_type(Some(String::from("classic.json"))), "classic.json");
}

#[test]
fn help_through_another_command() {
    assert_eq!(help_topic("help", Some(String::from("fish"))), Some(String::from("fish")));
    assert_eq!(help_topic("help", None), None);
    assert_eq!(help_topic("fish", None), Some(String::from("fish")));
    assert_eq!(help_topic("fish", Some(String::from("more"))), Some(String::from("fish more")));
}

#[test]
fn reactions_to_commands() {
    assert_eq!(command_reaction("fish"), '🐟');
    assert_eq!(command_reaction("phish"), '🐟');
    assert_eq!(command_reaction("ping"), '👍');
}

#[test]
fn bumbleship_follows_the_last_call_for_a_name() {
    let mut r = BumbleRegistry::new();
    add_temporary_bumble(&mut r, "ann");
    add_temporary_bumble(&mut r, "ben");
    remove_temporary_bumble(&mut r, "ann");
    add_temporary_bumble(&mut r, "ann");
    remove_temporary_bumble(&mut r, "ben");
    remove_temporary_bumble(&mut r, "_bumble");
    add_temporary_bumble(&mut r, "cid");
    assert!(is_bumble(&r, "ann"));
    assert!(!is_bumble(&r, "ben"));
    assert!(is_bumble(&r, "cid"));
    assert!(is_bumble(&r, "_bumble"));
    assert!(!is_bumble(&r, "dan"));
}
