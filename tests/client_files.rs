use catalyst::download::{
    download_counters, download_progress_fraction, has_download_progress,
    infer_steam_download_state, steam_download_status, SteamDownloadState,
    STEAM_APP_STATE_DOWNLOADING, STEAM_APP_STATE_FULLY_INSTALLED, STEAM_APP_STATE_UPDATE_PAUSED,
    STEAM_APP_STATE_UPDATE_REQUIRED, STEAM_APP_STATE_UPDATE_RUNNING,
};
use catalyst::library::{
    decode_steam_vdf_value, merge_library_directories, parse_steam_libraryfolder_paths,
    steam_root_override_path, steam_userdata_candidate_directory_names,
};
use catalyst::manifest::{
    parse_steam_manifest_app_id, parse_steam_manifest_download_progress,
    parse_steam_manifest_install_directory, parse_steam_manifest_size_on_disk_bytes,
    parse_steam_manifest_string_field, parse_steam_manifest_u64_field, steam_manifest_file_name,
};

const MODERN: &str = "\"libraryfolders\"\n{\n\t\"0\"\n\t{\n\t\t\"path\"\t\t\"C:\\\\Steam\"\n\t}\n\t\"1\"\n\t{\n\t\t\"path\"\t\t\"D:\\\\Games\"\n\t}\n}\n";
const LEGACY: &str = "\"LibraryFolders\"\n{\n\t\"TimeNextStatsReport\"\t\t\"1\"\n\t\"1\"\t\t\"C:\\\\Steam\"\n\t\"2\"\t\t\"D:\\\\Games\"\n}\n";

#[test]
fn library_folders_modern_layout() {
    let paths = parse_steam_libraryfolder_paths(MODERN);
    assert_eq!(paths, vec![String::from("C:\\Steam"), String::from("D:\\Games")]);
}

#[test]
fn library_folders_legacy_layout_gives_the_same_paths() {
    let legacy = parse_steam_libraryfolder_paths(LEGACY);
    assert_eq!(legacy, parse_steam_libraryfolder_paths(MODERN));
}

#[test]
fn library_folders_are_deduplicated() {
    let text = "\"path\" \"/a\"\n\"path\" \" /a \"\n\"path\" \"/b\"\n\"path\" \"\"\n";
    assert_eq!(
        parse_steam_libraryfolder_paths(text),
        vec![String::from("/a"), String::from("/b")]
    );
}

#[test]
fn decode_resolves_escapes() {
    assert_eq!(decode_steam_vdf_value("a\\\\b\\tc\\\"d\\q\\"), "a\\b\tc\"dq");
}

#[test]
fn merge_directories_keeps_primary_first() {
    let merged = merge_library_directories(
        String::from("/root/steamapps"),
        vec![
            String::from("/x/steamapps"),
            String::from("/root/steamapps"),
            String::from("/x/steamapps"),
        ],
    );
    assert_eq!(merged, vec![String::from("/root/steamapps"), String::from("/x/steamapps")]);
}

#[test]
fn userdata_names_include_the_account_number() {
    let names = steam_userdata_candidate_directory_names(" 76561197960265738 ").unwrap();
    assert_eq!(names, vec![String::from("76561197960265738"), String::from("10")]);
    let plain = steam_userdata_candidate_directory_names("12345").unwrap();
    assert_eq!(plain, vec![String::from("12345")]);
    assert!(steam_userdata_candidate_directory_names("   ").is_err());
}

#[test]
fn root_override_is_trimmed() {
    assert_eq!(steam_root_override_path(Some("  /opt/steam ")), Some(String::from("/opt/steam")));
    assert_eq!(steam_root_override_path(Some("   ")), None);
    assert_eq!(steam_root_override_path(None), None);
}

#[test]
fn manifest_file_names() {
    assert_eq!(parse_steam_manifest_app_id("appmanifest_570.acf"), Some(570));
    assert_eq!(parse_steam_manifest_app_id("appmanifest_.acf"), None);
    assert_eq!(parse_steam_manifest_app_id("appmanifest_57x.acf"), None);
    assert_eq!(parse_steam_manifest_app_id("libraryfolders.vdf"), None);
    assert_eq!(steam_manifest_file_name(570), "appmanifest_570.acf");
}

const MANIFEST: &str = "\"AppState\"\n{\n\t\"appid\"\t\t\"570\"\n\t\"installdir\"\t\t\"  dota 2 beta \"\n\t\"SizeOnDisk\"\t\t\"x\"\n\t\"SizeOnDisk\"\t\t\"1024\"\n\t\"StateFlags\"\t\t\"1026\"\n\t\"BytesDownloadedOnCurrentRun\"\t\t\"50\"\n\t\"TotalDownloaded\"\t\t\"200\"\n\t\"name\"\t\t\"\"\n}\n";

#[test]
fn manifest_fields() {
    assert_eq!(parse_steam_manifest_install_directory(MANIFEST).unwrap(), "dota 2 beta");
    assert!(parse_steam_manifest_install_directory("\"appid\" \"1\"").is_err());
    assert_eq!(parse_steam_manifest_size_on_disk_bytes(MANIFEST), Some(1024));
    assert_eq!(parse_steam_manifest_string_field(MANIFEST, " APPID "), Some(String::from("570")));
    assert_eq!(parse_steam_manifest_string_field(MANIFEST, "name"), None);
    assert_eq!(parse_steam_manifest_string_field(MANIFEST, " "), None);
    assert_eq!(parse_steam_manifest_u64_field(MANIFEST, "stateflags"), Some(1026));
    let snapshot = parse_steam_manifest_download_progress(MANIFEST);
    assert_eq!(snapshot.state_flags, Some(1026));
    assert_eq!(snapshot.bytes_downloaded, Some(50));
    assert_eq!(snapshot.bytes_total, Some(200));
}

#[test]
fn paused_dominates_downloading() {
    let flags = STEAM_APP_STATE_UPDATE_PAUSED | STEAM_APP_STATE_DOWNLOADING;
    assert_eq!(infer_steam_download_state(flags, false, false), Some(SteamDownloadState::Paused));
    assert_eq!(
        infer_steam_download_state(STEAM_APP_STATE_DOWNLOADING, false, false),
        Some(SteamDownloadState::Downloading)
    );
}

#[test]
fn state_machine_rules() {
    assert_eq!(
        infer_steam_download_state(STEAM_APP_STATE_UPDATE_RUNNING, false, false),
        Some(SteamDownloadState::Updating)
    );
    assert_eq!(
        infer_steam_download_state(STEAM_APP_STATE_UPDATE_RUNNING, false, true),
        Some(SteamDownloadState::Downloading)
    );
    assert_eq!(infer_steam_download_state(0, true, false), Some(SteamDownloadState::Queued));
    assert_eq!(
        infer_steam_download_state(STEAM_APP_STATE_UPDATE_REQUIRED, false, false),
        Some(SteamDownloadState::Queued)
    );
    assert_eq!(
        infer_steam_download_state(
            STEAM_APP_STATE_UPDATE_REQUIRED | STEAM_APP_STATE_FULLY_INSTALLED,
            false,
            false
        ),
        None
    );
    assert_eq!(infer_steam_download_state(0x200000, false, false), Some(SteamDownloadState::Staging));
    assert_eq!(infer_steam_download_state(0x40000, false, false), Some(SteamDownloadState::Installing));
    assert_eq!(infer_steam_download_state(0x20000, false, false), Some(SteamDownloadState::Verifying));
    assert_eq!(
        infer_steam_download_state(0x80000, false, false),
        Some(SteamDownloadState::Preallocating)
    );
    assert_eq!(SteamDownloadState::Verifying.as_str(), "Verifying");
}

#[test]
fn progress_is_clamped_and_absent_without_total() {
    assert_eq!(download_progress_fraction(Some(100), Some(100)), Some((100, 100)));
    assert_eq!(download_progress_fraction(Some(150), Some(100)), Some((100, 100)));
    assert_eq!(download_progress_fraction(Some(5), Some(0)), None);
    assert_eq!(download_progress_fraction(None, Some(10)), None);
    let c = download_counters(None, Some(0));
    assert_eq!((c.bytes_downloaded, c.bytes_total), (None, None));
    let c = download_counters(None, Some(10));
    assert_eq!((c.bytes_downloaded, c.bytes_total), (Some(0), Some(10)));
    assert!(has_download_progress(Some(1), Some(2)));
    assert!(!has_download_progress(Some(2), Some(2)));
}

#[test]
fn download_status_of_a_manifest() {
    let s = steam_download_status(MANIFEST, false).unwrap();
    assert_eq!(s.state, SteamDownloadState::Downloading);
    assert_eq!(s.bytes_downloaded, Some(50));
    assert_eq!(s.bytes_total, Some(200));
    assert_eq!(s.progress, Some((50, 200)));
    assert!(steam_download_status("\"StateFlags\" \"4\"", false).is_none());
}

#[test]
fn library_folders_are_deduplicated_by_normalized_path() {
    let text = "\"path\" \"/mnt/games\"\n\"path\" \"/mnt/games/\"\n\"path\" \"/mnt//games\"\n\"path\" \"/mnt/./games\"\n\"path\" \"mnt/games\"\n\"path\" \"C:\\\\Games\"\n\"path\" \"C:/Games/\"\n";
    assert_eq!(
        parse_steam_libraryfolder_paths(text),
        vec![String::from("/mnt/games"), String::from("mnt/games"), String::from("C:\\Games")]
    );
}

#[test]
fn merged_directories_compare_normalized_paths() {
    let merged = merge_library_directories(
        String::from("/a/b/steamapps"),
        vec![
            String::from("/a//b/steamapps"),
            String::from("/a/./b/steamapps/"),
            String::from("./x/steamapps"),
            String::from("x/steamapps"),
        ],
    );
    assert_eq!(
        merged,
        vec![
            String::from("/a/b/steamapps"),
            String::from("./x/steamapps"),
            String::from("x/steamapps")
        ]
    );
}

#[test]
fn manifest_keys_ignore_case() {
    let m = "\"INSTALLDIR\" \"Game\"\n\"sizeondisk\" \"42\"\n";
    assert_eq!(parse_steam_manifest_install_directory(m).unwrap(), "Game");
    assert_eq!(parse_steam_manifest_size_on_disk_bytes(m), Some(42));
    assert_eq!(
        parse_steam_manifest_install_directory("\"appid\" \"1\"").unwrap_err(),
        "Could not determine install directory from Steam app manifest."
    );
}
