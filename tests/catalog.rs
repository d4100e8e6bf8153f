use catalyst::catalog::{
    game_membership_key, normalize_collection_name, normalize_game_identity_input,
    normalize_language_list, normalize_steam_app_type, normalize_steam_store_tags,
    steam_kind_from_app_type,
};

fn strings(v: &[&str]) -> Vec<String> {
    v.iter().map(|s| String::from(*s)).collect()
}

#[test]
fn store_tags_are_trimmed_and_deduplicated() {
    let raw = strings(&[" RPG ", "+", "", "rpg", "Indie", " indie"]);
    assert_eq!(normalize_steam_store_tags(&raw), strings(&["RPG", "Indie"]));
}

#[test]
fn languages_keep_first_spelling() {
    let raw = strings(&["English", " english ", "  ", "+", "French"]);
    assert_eq!(normalize_language_list(&raw), strings(&["English", "+", "French"]));
}

#[test]
fn app_types_and_kinds() {
    assert_eq!(normalize_steam_app_type("  DLC "), "dlc");
    assert_eq!(steam_kind_from_app_type(" Game"), "game");
    assert_eq!(steam_kind_from_app_type("DEMO"), "demo");
    assert_eq!(steam_kind_from_app_type("dlc"), "dlc");
    assert_eq!(steam_kind_from_app_type("music"), "unknown");
}

#[test]
fn identity_keys() {
    assert_eq!(game_membership_key(" Steam ", " 570 "), "steam:570");
    assert_eq!(
        normalize_game_identity_input(" STEAM", "42 ").unwrap(),
        (String::from("steam"), String::from("42"))
    );
    assert!(normalize_game_identity_input(" ", "42").is_err());
    assert!(normalize_game_identity_input("steam", " ").is_err());
}

#[test]
fn collection_names_are_bounded() {
    assert_eq!(normalize_collection_name("  Co-op  ").unwrap(), "Co-op");
    assert_eq!(normalize_collection_name("   ").unwrap_err(), "Collection name is required");
    let long: String = std::iter::repeat('x').take(81).collect();
    assert_eq!(normalize_collection_name(&long).unwrap_err(), "Collection name must be 80 characters or fewer");
    let limit: String = std::iter::repeat('x').take(80).collect();
    assert_eq!(normalize_collection_name(&limit).unwrap(), limit);
}
