use catalyst::collections::{
    merge_collections_by_app_id, parse_collection_name_candidate, parse_steam_collections_from_vdf,
    vdf_collect_text_leaves,
};
use catalyst::compat::{
    add_compatibility_tool_option, add_custom_tool_directory, builtin_compatibility_tools,
    compatibility_tool_from_common_directory_name, default_steam_compatibility_tools,
    is_linux_runtime_compatibility_tool, parse_steam_custom_compatibility_tools_from_vdf,
    GameCompatibilityToolResponse,
};
use catalyst::launch::{encode_steam_launch_options, steam_game_uri, LaunchError};
use catalyst::settings::{
    apply_steam_game_properties_to_localconfig_text, default_game_properties_settings_payload,
    map_compatibility_tool_label_to_steam_name, normalize_game_properties_mode,
    normalize_game_properties_settings_payload,
};
use catalyst::vdf::parse_vdf_document;

#[test]
fn collection_name_filtering() {
    assert_eq!(parse_collection_name_candidate("42"), None);
    assert_eq!(parse_collection_name_candidate("Favorites"), Some(String::from("Favorites")));
    assert_eq!(parse_collection_name_candidate(" TRUE "), None);
    assert_eq!(parse_collection_name_candidate("\0 \0"), None);
    assert_eq!(parse_collection_name_candidate(" Co\0op "), Some(String::from("Coop")));
}

const LOCALCONFIG: &str = "\"UserLocalConfigStore\"\n{\n\t\"Software\"\n\t{\n\t\t\"Valve\"\n\t\t{\n\t\t\t\"Steam\"\n\t\t\t{\n\t\t\t\t\"apps\"\n\t\t\t\t{\n\t\t\t\t\t\"10\"\n\t\t\t\t\t{\n\t\t\t\t\t\t\"tags\"\n\t\t\t\t\t\t{\n\t\t\t\t\t\t\t\"0\"\t\t\"Favorites\"\n\t\t\t\t\t\t\t\"1\"\t\t\"42\"\n\t\t\t\t\t\t}\n\t\t\t\t\t\t\"LaunchOptions\"\t\t\"-old\"\n\t\t\t\t\t}\n\t\t\t\t\t\"20\"\n\t\t\t\t\t{\n\t\t\t\t\t\t\"LastPlayed\"\t\t\"1\"\n\t\t\t\t\t}\n\t\t\t\t\t\"x\"\n\t\t\t\t\t{\n\t\t\t\t\t\t\"tags\" { \"0\" \"Ignored\" }\n\t\t\t\t\t}\n\t\t\t\t}\n\t\t\t}\n\t\t}\n\t}\n\t\"apps\" { \"10\" { \"tags\" { \"Co-op\" \"1\" \"0\" \"Favorites\" } } }\n}\n";

#[test]
fn collections_from_config() {
    let map = parse_steam_collections_from_vdf(LOCALCONFIG).unwrap();
    assert_eq!(map.len(), 1);
    assert_eq!(map[0].0, "10");
    assert_eq!(map[0].1, vec![String::from("Favorites"), String::from("Co-op")]);
    assert!(parse_steam_collections_from_vdf("{").is_err());
}

#[test]
fn collections_merge() {
    let mut target = vec![(String::from("1"), vec![String::from("A")])];
    let source = vec![
        (String::from("1"), vec![String::from("A"), String::from("B")]),
        (String::from("2"), vec![String::from("C")]),
    ];
    merge_collections_by_app_id(&mut target, source);
    assert_eq!(target.len(), 2);
    assert_eq!(target[0].1, vec![String::from("A"), String::from("B")]);
    assert_eq!(target[1].0, "2");
}

#[test]
fn text_leaves_in_document_order() {
    let doc = parse_vdf_document("\"a\" \"1\" \"b\" { \"c\" \"2\" } \"d\" \"3\"").unwrap();
    let mut leaves = Vec::new();
    vdf_collect_text_leaves(&doc, &mut leaves);
    assert_eq!(leaves, vec![String::from("1"), String::from("2"), String::from("3")]);
}

#[test]
fn modes_are_normalized() {
    let allowed = ["use-global-setting", "wait-until-launch"];
    assert_eq!(
        normalize_game_properties_mode(String::from(" WAIT-until-launch "), &allowed, "use-global-setting"),
        "wait-until-launch"
    );
    assert_eq!(
        normalize_game_properties_mode(String::from("bogus"), &allowed, "use-global-setting"),
        "use-global-setting"
    );
    assert_eq!(
        normalize_game_properties_mode(String::from("  "), &allowed, "use-global-setting"),
        "use-global-setting"
    );
}

#[test]
fn settings_normalization() {
    let mut s = default_game_properties_settings_payload();
    s.general.language = String::from("  ");
    s.general.launch_options = String::from("  -novid  ");
    s.compatibility.steam_play_compatibility_tool = String::from(" ");
    s.updates.automatic_updates_mode = String::from("LET-STEAM-DECIDE");
    s.controller.steam_input_override = String::from("nope");
    s.game_versions_betas.selected_version_id = String::from(" beta ");
    let n = normalize_game_properties_settings_payload(s);
    assert_eq!(n.general.language, "English");
    assert_eq!(n.general.launch_options, "-novid");
    assert_eq!(n.compatibility.steam_play_compatibility_tool, "Proton Experimental");
    assert_eq!(n.updates.automatic_updates_mode, "let-steam-decide");
    assert_eq!(n.updates.background_downloads_mode, "pause-while-playing-global");
    assert_eq!(n.controller.steam_input_override, "use-default-settings");
    assert_eq!(n.game_versions_betas.selected_version_id, "beta");
}

#[test]
fn tool_labels_map_to_internal_names() {
    assert_eq!(map_compatibility_tool_label_to_steam_name(" proton experimental "), "proton_experimental");
    assert_eq!(map_compatibility_tool_label_to_steam_name("SNIPER"), "sniper");
    assert_eq!(map_compatibility_tool_label_to_steam_name(" GE-Proton9 "), "GE-Proton9");
    assert_eq!(map_compatibility_tool_label_to_steam_name("  "), "");
}

#[test]
fn settings_are_written_into_the_config() {
    let mut s = default_game_properties_settings_payload();
    s.general.launch_options = String::from("-novid");
    s.updates.automatic_updates_mode = String::from("immediately-download");
    s.updates.background_downloads_mode = String::from("never-allow");
    s.controller.steam_input_override = String::from("enable-steam-input");
    s.compatibility.force_steam_play_compatibility_tool = true;
    s.compatibility.steam_play_compatibility_tool = String::from("Proton Hotfix");
    let out = apply_steam_game_properties_to_localconfig_text(LOCALCONFIG, 10, &s).unwrap();
    let doc = parse_vdf_document(&out).unwrap();
    let expected_app = "\t\t\t\t\t\"10\"\n\t\t\t\t\t{\n\t\t\t\t\t\t\"tags\"\n\t\t\t\t\t\t{\n\t\t\t\t\t\t\t\"0\"\t\"Favorites\"\n\t\t\t\t\t\t\t\"1\"\t\"42\"\n\t\t\t\t\t\t}\n\t\t\t\t\t\t\"LaunchOptions\"\t\"-novid\"\n\t\t\t\t\t\t\"AutoUpdateBehavior\"\t\"2\"\n\t\t\t\t\t\t\"AllowDownloadsWhileRunning\"\t\"0\"\n\t\t\t\t\t\t\"SteamInput\"\t\"1\"\n\t\t\t\t\t}\n";
    assert!(out.contains(expected_app));
    assert!(out.contains("\"CompatToolMapping\"\n\t\t\t\t{\n\t\t\t\t\t\"10\"\n\t\t\t\t\t{\n\t\t\t\t\t\t\"name\"\t\"proton_hotfix\"\n\t\t\t\t\t\t\"config\"\t\"\"\n\t\t\t\t\t\t\"priority\"\t\"250\"\n\t\t\t\t\t}\n"));
    assert!(matches!(doc, catalyst::vdf::VdfValue::Object(_)));
}

#[test]
fn applying_settings_twice_changes_nothing_more() {
    let mut s = default_game_properties_settings_payload();
    s.general.launch_options = String::from("-dx11");
    s.updates.automatic_updates_mode = String::from("wait-until-launch");
    let once = apply_steam_game_properties_to_localconfig_text(LOCALCONFIG, 20, &s).unwrap();
    let twice = apply_steam_game_properties_to_localconfig_text(&once, 20, &s).unwrap();
    assert_eq!(once, twice);
    s.compatibility.force_steam_play_compatibility_tool = true;
    s.compatibility.steam_play_compatibility_tool = String::from("  ");
    let once = apply_steam_game_properties_to_localconfig_text(LOCALCONFIG, 20, &s).unwrap();
    let twice = apply_steam_game_properties_to_localconfig_text(&once, 20, &s).unwrap();
    assert_eq!(once, twice);
    assert!(!once.contains("CompatToolMapping\"\n\t\t\t\t{\n\t\t\t\t\t\"20\""));
}

#[test]
fn default_launch_options_remove_the_entry() {
    let s = default_game_properties_settings_payload();
    let out = apply_steam_game_properties_to_localconfig_text(LOCALCONFIG, 10, &s).unwrap();
    assert!(!out.contains("LaunchOptions"));
    assert!(out.contains("\"CompatToolMapping\"\n\t\t\t\t{\n\t\t\t\t}\n"));
}

#[test]
fn compatibility_tools() {
    let builtin = default_steam_compatibility_tools();
    assert_eq!(builtin.len(), 7);
    assert_eq!(builtin[0].id, "proton_experimental");
    assert_eq!(builtin_compatibility_tools(false).len(), 5);
    assert_eq!(builtin_compatibility_tools(true).len(), 7);
    let runtime = GameCompatibilityToolResponse {
        id: String::from("x"),
        label: String::from(" steam LINUX runtime 4 "),
    };
    assert!(is_linux_runtime_compatibility_tool(&runtime));
    let mut tools = Vec::new();
    add_compatibility_tool_option(&mut tools, " GE ", " ");
    add_compatibility_tool_option(&mut tools, "ge", "Other");
    add_compatibility_tool_option(&mut tools, "  ", "Blank");
    assert_eq!(tools.len(), 1);
    assert_eq!(tools[0].id, "GE");
    assert_eq!(tools[0].label, "GE");
    let t = compatibility_tool_from_common_directory_name(" Proton Hotfix ").unwrap();
    assert_eq!(t.id, "proton_hotfix");
    assert_eq!(t.label, "Proton Hotfix");
    assert!(compatibility_tool_from_common_directory_name("Half-Life").is_none());
}

#[test]
fn custom_tools_from_their_document() {
    let doc = "\"compatibilitytools\" { \"compat_tools\" { \"GE-Proton9\" { \"display_name\" \" GE 9 \" } \" \" { } \"ge-proton9\" { } \"Luxtorpeda\" { \"display_name\" { } } } }";
    let tools = parse_steam_custom_compatibility_tools_from_vdf(doc).unwrap();
    assert_eq!(tools.len(), 2);
    assert_eq!(tools[0].id, "GE-Proton9");
    assert_eq!(tools[0].label, "GE 9");
    assert_eq!(tools[1].label, "Luxtorpeda");
    let top = parse_steam_custom_compatibility_tools_from_vdf("\"compat_tools\" { \"a\" { } }").unwrap();
    assert_eq!(top.len(), 1);
    assert!(parse_steam_custom_compatibility_tools_from_vdf("\"x\" \"y\"").unwrap().is_empty());
}

#[test]
fn launch_uris() {
    assert_eq!(steam_game_uri("steam", "570", "play", None).unwrap(), "steam://run/570");
    assert_eq!(
        steam_game_uri("steam", "570", "play", Some("-novid +x=1")).unwrap(),
        "steam://run/570//-novid+%2Bx%3D1/"
    );
    assert_eq!(steam_game_uri("steam", "570", "backup", None).unwrap(), "steam://backup/570");
    assert_eq!(steam_game_uri("steam", "57a", "play", None), Err(LaunchError::NonNumericExternalId));
    assert_eq!(steam_game_uri("steam", "570", "fly", None), Err(LaunchError::UnsupportedAction));
    assert_eq!(steam_game_uri("gog", "570", "play", None), Err(LaunchError::UnsupportedProvider));
    assert_eq!(encode_steam_launch_options("a b*é"), "a+b*%C3%A9");
}

#[test]
fn custom_tool_directories() {
    let declared = vec![GameCompatibilityToolResponse {
        id: String::from("GE"),
        label: String::from("GE 9"),
    }];
    let mut tools = Vec::new();
    add_custom_tool_directory(&mut tools, &declared, "ignored", false);
    assert_eq!(tools.len(), 1);
    assert_eq!(tools[0].label, "GE 9");
    add_custom_tool_directory(&mut tools, &Vec::new(), " Luxtorpeda ", false);
    assert_eq!(tools[1].id, "Luxtorpeda");
    add_custom_tool_directory(&mut tools, &Vec::new(), "Steam Linux Runtime 4", false);
    assert_eq!(tools.len(), 2);
    add_custom_tool_directory(&mut tools, &Vec::new(), "Steam Linux Runtime 4", true);
    assert_eq!(tools.len(), 3);
    let runtime_only = vec![GameCompatibilityToolResponse {
        id: String::from("sniper"),
        label: String::from("x"),
    }];
    add_custom_tool_directory(&mut tools, &runtime_only, "fallback", false);
    assert_eq!(tools[3].id, "fallback");
}
