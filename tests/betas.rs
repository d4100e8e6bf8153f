use catalyst::betas::{
    default_game_version_beta_options, normalize_game_version_beta_options,
    GameVersionBetaOptionResponse,
};

fn option(id: &str, name: &str, default: bool, code: bool) -> GameVersionBetaOptionResponse {
    GameVersionBetaOptionResponse {
        id: String::from(id),
        name: String::from(name),
        description: String::new(),
        last_updated: String::from("  "),
        build_id: Some(String::from("  ")),
        requires_access_code: code,
        is_default: default,
    }
}

#[test]
fn default_branch_is_public() {
    let d = default_game_version_beta_options();
    assert_eq!(d.len(), 1);
    assert_eq!(d[0].id, "public");
    assert_eq!(d[0].name, "Default Public Version");
    assert!(d[0].is_default);
}

#[test]
fn branches_are_normalized_deduplicated_and_ordered() {
    let raw = vec![
        option(" zeta ", "", false, true),
        option("beta", "beta Branch", false, false),
        option("BETA", "dup", false, false),
        option("  ", "blank", false, false),
        option("Public", " Main ", false, false),
        option("alpha", "Alpha", false, false),
    ];
    let out = normalize_game_version_beta_options(&raw);
    let ids: Vec<&str> = out.iter().map(|o| o.id.as_str()).collect();
    assert_eq!(ids, vec!["Public", "alpha", "beta", "zeta"]);
    assert!(out[0].is_default);
    assert_eq!(out[0].name, "Main");
    assert_eq!(out[0].description, "Most common version of the game");
    assert_eq!(out[3].name, "zeta");
    assert_eq!(out[3].description, "Requires access code");
    assert_eq!(out[1].description, "No description available");
    assert_eq!(out[1].last_updated, "Unavailable");
    assert_eq!(out[1].build_id, None);
}
