//! Per-item launch settings: their normalized form, and how they are written
//! into a user's configuration document.

use vstd::prelude::*;
use crate::text::{trim, trimmed_string, eq_ci, str_eq_ignore_case, str_equal, decimal, decimal_chars, string_of};
use crate::vdf::{Doc, VdfValue, VdfError, parse_doc_spec, parse_vdf_document, serialize_spec, serialize_vdf_document};
use crate::path::{Edit, EntryEdit, edit_path_spec, edits_view, strs_view, vdf_edit_object_path, edit_key, keys_apart, paths_part, lemma_edit_path_settles, lemma_edit_path_frame, lemma_settled_fixed, lemma_ensure_then_remove};

verus! {

pub struct GameGeneralSettingsPayload {
    pub language: String,
    pub launch_options: String,
    pub steam_overlay_enabled: bool,
}

pub struct GameCompatibilitySettingsPayload {
    pub force_steam_play_compatibility_tool: bool,
    pub steam_play_compatibility_tool: String,
}

pub struct GameUpdatesSettingsPayload {
    pub automatic_updates_mode: String,
    pub background_downloads_mode: String,
}

pub struct GameControllerSettingsPayload {
    pub steam_input_override: String,
}

pub struct GameVersionsBetasSettingsPayload {
    pub private_access_code: String,
    pub selected_version_id: String,
}

/// The launch settings of one item.
pub struct GamePropertiesSettingsPayload {
    pub general: GameGeneralSettingsPayload,
    pub compatibility: GameCompatibilitySettingsPayload,
    pub updates: GameUpdatesSettingsPayload,
    pub controller: GameControllerSettingsPayload,
    pub game_versions_betas: GameVersionsBetasSettingsPayload,
}

pub const AUTO_UPDATE_MODES: [&'static str; 4] = [
    "use-global-setting",
    "wait-until-launch",
    "let-steam-decide",
    "immediately-download",
];

pub const BACKGROUND_DOWNLOAD_MODES: [&'static str; 3] = [
    "pause-while-playing-global",
    "always-allow",
    "never-allow",
];

pub const STEAM_INPUT_MODES: [&'static str; 3] = [
    "use-default-settings",
    "disable-steam-input",
    "enable-steam-input",
];

/// The settings an item has until the user changes them.
pub fn default_game_properties_settings_payload() -> (r: GamePropertiesSettingsPayload)
    ensures
        r.general.language@ == "English"@,
        r.general.launch_options@ == Seq::<char>::empty(),
        r.general.steam_overlay_enabled,
        !r.compatibility.force_steam_play_compatibility_tool,
        r.compatibility.steam_play_compatibility_tool@ == "Proton Experimental"@,
        r.updates.automatic_updates_mode@ == "use-global-setting"@,
        r.updates.background_downloads_mode@ == "pause-while-playing-global"@,
        r.controller.steam_input_override@ == "use-default-settings"@,
        r.game_versions_betas.private_access_code@ == Seq::<char>::empty(),
        r.game_versions_betas.selected_version_id@ == "public"@,
{
    GamePropertiesSettingsPayload {
        general: GameGeneralSettingsPayload {
            language: String::from_str("English"),
            launch_options: String::new(),
            steam_overlay_enabled: true,
        },
        compatibility: GameCompatibilitySettingsPayload {
            force_steam_play_compatibility_tool: false,
            steam_play_compatibility_tool: String::from_str("Proton Experimental"),
        },
        updates: GameUpdatesSettingsPayload {
            automatic_updates_mode: String::from_str("use-global-setting"),
            background_downloads_mode: String::from_str("pause-while-playing-global"),
        },
        controller: GameControllerSettingsPayload {
            steam_input_override: String::from_str("use-default-settings"),
        },
        game_versions_betas: GameVersionsBetasSettingsPayload {
            private_access_code: String::new(),
            selected_version_id: String::from_str("public"),
        },
    }
}

/// The first allowed mode at or after `i` that matches `v` ignoring ASCII case.
pub open spec fn mode_match_from(v: Seq<char>, allowed: Seq<&str>, i: int) -> Option<Seq<char>>
    decreases allowed.len() - i,
{
    if i < 0 || i >= allowed.len() {
        None
    } else if eq_ci(allowed[i]@, v) {
        Some(allowed[i]@)
    } else {
        mode_match_from(v, allowed, i + 1)
    }
}

/// A mode as the allowed spelling that matches it (trimmed, ignoring ASCII
/// case); the fallback where it is blank or matches none.
pub open spec fn normalize_mode_spec(v: Seq<char>, allowed: Seq<&str>, fallback: Seq<char>) -> Seq<
    char,
> {
    let t = trim(v);
    if t.len() == 0 {
        fallback
    } else {
        match mode_match_from(t, allowed, 0) {
            Some(m) => m,
            None => fallback,
        }
    }
}

pub fn normalize_game_properties_mode(value: String, allowed_modes: &[&str], fallback_mode: &str) -> (r:
    String)
    ensures
        r@ == normalize_mode_spec(value@, allowed_modes@, fallback_mode@),
{
    let t = trimmed_string(value.as_str());
    if t.as_str().unicode_len() == 0 {
        return fallback_mode.to_owned();
    }
    let mut i: usize = 0;
    while i < allowed_modes.len()
        invariant
            0 <= i <= allowed_modes@.len(),
            t@ == trim(value@),
            t@.len() > 0,
            mode_match_from(t@, allowed_modes@, i as int) == mode_match_from(
                t@,
                allowed_modes@,
                0,
            ),
        decreases allowed_modes@.len() - i,
    {
        if str_eq_ignore_case(allowed_modes[i], t.as_str()) {
            return allowed_modes[i].to_owned();
        }
        i = i + 1;
    }
    fallback_mode.to_owned()
}

/// A text trimmed, or the fallback where that leaves it empty.
pub open spec fn trimmed_or(v: Seq<char>, fallback: Seq<char>) -> Seq<char> {
    if trim(v).len() == 0 {
        fallback
    } else {
        trim(v)
    }
}

fn trimmed_or_default(v: &String, fallback: &str) -> (r: String)
    ensures
        r@ == trimmed_or(v@, fallback@),
{
    let t = trimmed_string(v.as_str());
    if t.as_str().unicode_len() == 0 {
        fallback.to_owned()
    } else {
        t
    }
}

/// The normal form of settings: texts trimmed, blank texts and unknown
/// modes replaced by the defaults, modes spelled as the allowed ones.
pub open spec fn is_normal_form_of(r: GamePropertiesSettingsPayload, s: GamePropertiesSettingsPayload) -> bool {
    &&& r.general.language@ == trimmed_or(s.general.language@, "English"@)
    &&& r.general.launch_options@ == trim(s.general.launch_options@)
    &&& r.general.steam_overlay_enabled == s.general.steam_overlay_enabled
    &&& r.compatibility.force_steam_play_compatibility_tool
        == s.compatibility.force_steam_play_compatibility_tool
    &&& r.compatibility.steam_play_compatibility_tool@ == trimmed_or(
        s.compatibility.steam_play_compatibility_tool@,
        "Proton Experimental"@,
    )
    &&& r.updates.automatic_updates_mode@ == normalize_mode_spec(
        s.updates.automatic_updates_mode@,
        AUTO_UPDATE_MODES@,
        "use-global-setting"@,
    )
    &&& r.updates.background_downloads_mode@ == normalize_mode_spec(
        s.updates.background_downloads_mode@,
        BACKGROUND_DOWNLOAD_MODES@,
        "pause-while-playing-global"@,
    )
    &&& r.controller.steam_input_override@ == normalize_mode_spec(
        s.controller.steam_input_override@,
        STEAM_INPUT_MODES@,
        "use-default-settings"@,
    )
    &&& r.game_versions_betas.private_access_code@ == trim(s.game_versions_betas.private_access_code@)
    &&& r.game_versions_betas.selected_version_id@ == trimmed_or(
        s.game_versions_betas.selected_version_id@,
        "public"@,
    )
}

/// Brings settings to their normal form.
pub fn normalize_game_properties_settings_payload(settings: GamePropertiesSettingsPayload) -> (r:
    GamePropertiesSettingsPayload)
    ensures
        is_normal_form_of(r, settings),
{
    let auto_modes = AUTO_UPDATE_MODES;
    let background_modes = BACKGROUND_DOWNLOAD_MODES;
    let input_modes = STEAM_INPUT_MODES;
    GamePropertiesSettingsPayload {
        general: GameGeneralSettingsPayload {
            language: trimmed_or_default(&settings.general.language, "English"),
            launch_options: trimmed_string(settings.general.launch_options.as_str()),
            steam_overlay_enabled: settings.general.steam_overlay_enabled,
        },
        compatibility: GameCompatibilitySettingsPayload {
            force_steam_play_compatibility_tool: settings.compatibility.force_steam_play_compatibility_tool,
            steam_play_compatibility_tool: trimmed_or_default(
                &settings.compatibility.steam_play_compatibility_tool,
                "Proton Experimental",
            ),
        },
        updates: GameUpdatesSettingsPayload {
            automatic_updates_mode: normalize_game_properties_mode(
                settings.updates.automatic_updates_mode,
                &auto_modes,
                "use-global-setting",
            ),
            background_downloads_mode: normalize_game_properties_mode(
                settings.updates.background_downloads_mode,
                &background_modes,
                "pause-while-playing-global",
            ),
        },
        controller: GameControllerSettingsPayload {
            steam_input_override: normalize_game_properties_mode(
                settings.controller.steam_input_override,
                &input_modes,
                "use-default-settings",
            ),
        },
        game_versions_betas: GameVersionsBetasSettingsPayload {
            private_access_code: trimmed_string(settings.game_versions_betas.private_access_code.as_str()),
            selected_version_id: trimmed_or_default(
                &settings.game_versions_betas.selected_version_id,
                "public",
            ),
        },
    }
}


/// The client's built-in compatibility tools: internal name and label.
pub const STEAM_BUILTIN_COMPATIBILITY_TOOLS: [(&'static str, &'static str); 7] = [
    ("proton_experimental", "Proton Experimental"),
    ("proton_hotfix", "Proton Hotfix"),
    ("proton_9", "Proton 9.0-4"),
    ("proton_8", "Proton 8.0-5"),
    ("proton_7", "Proton 7.0-6"),
    ("sniper", "Steam Linux Runtime 3.0 (sniper)"),
    ("soldier", "Steam Linux Runtime 2.0 (soldier)"),
];

/// The internal name of the first built-in tool from `i` on whose name or
/// label matches `t` ignoring ASCII case.
pub open spec fn builtin_tool_from(t: Seq<char>, tools: Seq<(&str, &str)>, i: int) -> Option<Seq<char>>
    decreases tools.len() - i,
{
    if i < 0 || i >= tools.len() {
        None
    } else if eq_ci(t, tools[i].0@) || eq_ci(t, tools[i].1@) {
        Some(tools[i].0@)
    } else {
        builtin_tool_from(t, tools, i + 1)
    }
}

/// A tool label as the client's internal name: a built-in tool's name where
/// the trimmed label is its name or label, else the trimmed label itself.
pub open spec fn compat_name_spec(label: Seq<char>) -> Seq<char> {
    let t = trim(label);
    if t.len() == 0 {
        t
    } else {
        match builtin_tool_from(t, STEAM_BUILTIN_COMPATIBILITY_TOOLS@, 0) {
            Some(n) => n,
            None => t,
        }
    }
}

pub fn map_compatibility_tool_label_to_steam_name(label: &str) -> (r: String)
    ensures
        r@ == compat_name_spec(label@),
{
    let t = trimmed_string(label);
    if t.as_str().unicode_len() == 0 {
        return t;
    }
    let tools = STEAM_BUILTIN_COMPATIBILITY_TOOLS;
    let mut i: usize = 0;
    while i < tools.len()
        invariant
            0 <= i <= tools@.len(),
            tools@ == STEAM_BUILTIN_COMPATIBILITY_TOOLS@,
            t@ == trim(label@),
            t@.len() > 0,
            builtin_tool_from(t@, tools@, i as int) == builtin_tool_from(t@, tools@, 0),
        decreases tools@.len() - i,
    {
        let (id, display) = tools[i];
        if str_eq_ignore_case(t.as_str(), id) || str_eq_ignore_case(t.as_str(), display) {
            return id.to_owned();
        }
        i = i + 1;
    }
    t
}

pub open spec fn set_or_remove(key: Seq<char>, value: Option<Seq<char>>) -> Seq<Edit> {
    match value {
        Some(v) => seq![Edit::SetText(key, v)],
        None => seq![Edit::Remove(key)],
    }
}

/// The leaf a mode is written as: `Some(None)` removes the entry (the
/// default), `Some(Some(v))` sets it, `None` leaves it alone.
pub open spec fn mode_edits(key: Seq<char>, leaf: Option<Option<Seq<char>>>) -> Seq<Edit> {
    match leaf {
        Some(v) => set_or_remove(key, v),
        None => seq![],
    }
}

pub open spec fn auto_update_leaf(m: Seq<char>) -> Option<Option<Seq<char>>> {
    if m == "use-global-setting"@ {
        Some(None)
    } else if m == "wait-until-launch"@ {
        Some(Some("1"@))
    } else if m == "let-steam-decide"@ {
        Some(Some("0"@))
    } else if m == "immediately-download"@ {
        Some(Some("2"@))
    } else {
        None
    }
}

pub open spec fn background_leaf(m: Seq<char>) -> Option<Option<Seq<char>>> {
    if m == "pause-while-playing-global"@ {
        Some(None)
    } else if m == "always-allow"@ {
        Some(Some("1"@))
    } else if m == "never-allow"@ {
        Some(Some("0"@))
    } else {
        None
    }
}

pub open spec fn steam_input_leaf(m: Seq<char>) -> Option<Option<Seq<char>>> {
    if m == "use-default-settings"@ {
        Some(None)
    } else if m == "disable-steam-input"@ {
        Some(Some("0"@))
    } else if m == "enable-steam-input"@ {
        Some(Some("1"@))
    } else {
        None
    }
}

/// The edits made to an item's own settings object.
pub open spec fn app_setting_edits(s: GamePropertiesSettingsPayload) -> Seq<Edit> {
    let lo = trim(s.general.launch_options@);
    set_or_remove("LaunchOptions"@, if lo.len() == 0 { None } else { Some(lo) })
        + mode_edits("AutoUpdateBehavior"@, auto_update_leaf(s.updates.automatic_updates_mode@))
        + mode_edits("AllowDownloadsWhileRunning"@, background_leaf(s.updates.background_downloads_mode@))
        + mode_edits("SteamInput"@, steam_input_leaf(s.controller.steam_input_override@))
}

pub open spec fn steam_config_path() -> Seq<Seq<char>> {
    seq!["UserLocalConfigStore"@, "Software"@, "Valve"@, "Steam"@]
}

/// A configuration document with an item's settings written into it: its
/// settings object under `apps`, then its entry under `CompatToolMapping`
/// (set to the tool where one is forced and named, removed otherwise).
pub open spec fn apply_settings_spec(d: Doc, app_id: u64, s: GamePropertiesSettingsPayload) -> Doc {
    let id = decimal(app_id as nat);
    let d1 = edit_path_spec(d, steam_config_path().push("apps"@).push(id), app_setting_edits(s));
    let compat = steam_config_path().push("CompatToolMapping"@);
    if s.compatibility.force_steam_play_compatibility_tool {
        let name = compat_name_spec(s.compatibility.steam_play_compatibility_tool@);
        if name.len() == 0 {
            edit_path_spec(
                edit_path_spec(d1, compat.push(id), seq![]),
                compat,
                seq![Edit::Remove(id)],
            )
        } else {
            edit_path_spec(
                d1,
                compat.push(id),
                seq![
                    Edit::SetText("name"@, name),
                    Edit::SetText("config"@, seq![]),
                    Edit::SetText("priority"@, "250"@),
                ],
            )
        }
    } else {
        edit_path_spec(d1, compat, seq![Edit::Remove(id)])
    }
}

pub open spec fn leaf_view(o: Option<Option<&str>>) -> Option<Option<Seq<char>>> {
    match o {
        Some(Some(v)) => Some(Some(v@)),
        Some(None) => Some(None),
        None => None,
    }
}

fn auto_update_leaf_of(m: &str) -> (r: Option<Option<&'static str>>)
    ensures
        leaf_view(r) == auto_update_leaf(m@),
{
    if str_equal(m, "use-global-setting") {
        Some(None)
    } else if str_equal(m, "wait-until-launch") {
        Some(Some("1"))
    } else if str_equal(m, "let-steam-decide") {
        Some(Some("0"))
    } else if str_equal(m, "immediately-download") {
        Some(Some("2"))
    } else {
        None
    }
}

fn background_leaf_of(m: &str) -> (r: Option<Option<&'static str>>)
    ensures
        leaf_view(r) == background_leaf(m@),
{
    if str_equal(m, "pause-while-playing-global") {
        Some(None)
    } else if str_equal(m, "always-allow") {
        Some(Some("1"))
    } else if str_equal(m, "never-allow") {
        Some(Some("0"))
    } else {
        None
    }
}

fn steam_input_leaf_of(m: &str) -> (r: Option<Option<&'static str>>)
    ensures
        leaf_view(r) == steam_input_leaf(m@),
{
    if str_equal(m, "use-default-settings") {
        Some(None)
    } else if str_equal(m, "disable-steam-input") {
        Some(Some("0"))
    } else if str_equal(m, "enable-steam-input") {
        Some(Some("1"))
    } else {
        None
    }
}

fn push_mode_edit(edits: &mut Vec<EntryEdit>, key: &str, leaf: Option<Option<&str>>)
    ensures
        edits_view(final(edits)@) == edits_view(old(edits)@) + mode_edits(key@, leaf_view(leaf)),
{
    match leaf {
        Some(Some(v)) => edits.push(EntryEdit::SetText(key.to_owned(), v.to_owned())),
        Some(None) => edits.push(EntryEdit::Remove(key.to_owned())),
        None => {},
    }
    assert(edits_view(edits@) =~= edits_view(old(edits)@) + mode_edits(key@, leaf_view(leaf)));
}

fn push_edit(edits: &mut Vec<EntryEdit>, e: EntryEdit)
    ensures
        edits_view(final(edits)@) == edits_view(old(edits)@).push(e@),
{
    edits.push(e);
    assert(edits_view(edits@) =~= edits_view(old(edits)@).push(e@));
}

fn push_path<'a>(p: &mut Vec<&'a str>, k: &'a str)
    ensures
        strs_view(final(p)@) == strs_view(old(p)@).push(k@),
{
    p.push(k);
    assert(strs_view(p@) =~= strs_view(old(p)@).push(k@));
}

fn steam_config_path_vec<'a>() -> (r: Vec<&'a str>)
    ensures
        strs_view(r@) == steam_config_path(),
{
    let mut p: Vec<&'a str> = Vec::new();
    assert(strs_view(p@) =~= seq![]);
    push_path(&mut p, "UserLocalConfigStore");
    push_path(&mut p, "Software");
    push_path(&mut p, "Valve");
    push_path(&mut p, "Steam");
    assert(strs_view(p@) =~= steam_config_path());
    p
}

/// Writes an item's settings into a user's configuration document: its
/// launch options and modes into its object under `apps` (a default mode
/// removes the entry), and its compatibility tool mapping.
pub fn apply_steam_game_properties_to_localconfig(
    localconfig: &mut VdfValue,
    app_id: u64,
    settings: &GamePropertiesSettingsPayload,
)
    ensures
        final(localconfig)@ == apply_settings_spec(old(localconfig)@, app_id, *settings),
{
    let id_chars = decimal_chars(app_id);
    let id = string_of(id_chars.as_slice());
    let mut apps_path = steam_config_path_vec();
    push_path(&mut apps_path, "apps");
    push_path(&mut apps_path, id.as_str());
    let mut edits: Vec<EntryEdit> = Vec::new();
    assert(edits_view(edits@) =~= seq![]);
    let launch_options = trimmed_string(settings.general.launch_options.as_str());
    if launch_options.as_str().unicode_len() == 0 {
        push_edit(&mut edits, EntryEdit::Remove(String::from_str("LaunchOptions")));
    } else {
        push_edit(&mut edits, EntryEdit::SetText(String::from_str("LaunchOptions"), launch_options));
    }
    assert(edits_view(edits@) =~= set_or_remove("LaunchOptions"@, if trim(settings.general.launch_options@).len() == 0 { None } else { Some(trim(settings.general.launch_options@)) }));
    push_mode_edit(&mut edits, "AutoUpdateBehavior", auto_update_leaf_of(settings.updates.automatic_updates_mode.as_str()));
    push_mode_edit(&mut edits, "AllowDownloadsWhileRunning", background_leaf_of(settings.updates.background_downloads_mode.as_str()));
    push_mode_edit(&mut edits, "SteamInput", steam_input_leaf_of(settings.controller.steam_input_override.as_str()));
    assert(edits_view(edits@) =~= app_setting_edits(*settings));
    let ghost idv = decimal(app_id as nat);
    assert(id@ == idv);
    assert(strs_view(apps_path@) == steam_config_path().push("apps"@).push(idv));
    vdf_edit_object_path(localconfig, apps_path.as_slice(), edits.as_slice());
    let ghost d1 = localconfig@;

    let mut compat_path = steam_config_path_vec();
    push_path(&mut compat_path, "CompatToolMapping");
    let mut entry_path = steam_config_path_vec();
    push_path(&mut entry_path, "CompatToolMapping");
    push_path(&mut entry_path, id.as_str());
    let mut removal: Vec<EntryEdit> = Vec::new();
    assert(edits_view(removal@) =~= seq![]);
    push_edit(&mut removal, EntryEdit::Remove(string_of(id_chars.as_slice())));
    let ghost compat = steam_config_path().push("CompatToolMapping"@);
    assert(edits_view(removal@) =~= seq![Edit::Remove(idv)]);
    assert(strs_view(compat_path@) == compat);
    assert(strs_view(entry_path@) == compat.push(idv));
    if settings.compatibility.force_steam_play_compatibility_tool {
        let name = map_compatibility_tool_label_to_steam_name(
            settings.compatibility.steam_play_compatibility_tool.as_str(),
        );
        if name.as_str().unicode_len() == 0 {
            crate::path::vdf_ensure_object_path_mut(localconfig, entry_path.as_slice());
            vdf_edit_object_path(localconfig, compat_path.as_slice(), removal.as_slice());
            assert(localconfig@ == edit_path_spec(edit_path_spec(d1, compat.push(idv), seq![]), compat, seq![Edit::Remove(idv)]));
        } else {
            let mut tool: Vec<EntryEdit> = Vec::new();
            assert(edits_view(tool@) =~= seq![]);
            push_edit(&mut tool, EntryEdit::SetText(String::from_str("name"), name));
            push_edit(&mut tool, EntryEdit::SetText(String::from_str("config"), String::new()));
            push_edit(&mut tool, EntryEdit::SetText(String::from_str("priority"), String::from_str("250")));
            let ghost nm = name@;
            assert(edits_view(tool@) =~= seq![
                Edit::SetText("name"@, nm),
                Edit::SetText("config"@, seq![]),
                Edit::SetText("priority"@, "250"@),
            ]);
            vdf_edit_object_path(localconfig, entry_path.as_slice(), tool.as_slice());
        }
    } else {
        vdf_edit_object_path(localconfig, compat_path.as_slice(), removal.as_slice());
    }
}

/// Writes an item's settings into the text of a user's configuration
/// document and renders it back; fails where the text is malformed.
pub fn apply_steam_game_properties_to_localconfig_text(
    contents: &str,
    app_id: u64,
    settings: &GamePropertiesSettingsPayload,
) -> (r: Result<String, VdfError>)
    ensures
        match parse_doc_spec(contents@) {
            Some(d) => r is Ok && r->Ok_0@ == serialize_spec(apply_settings_spec(d, app_id, *settings)),
            None => r is Err,
        },
{
    let mut localconfig = match parse_vdf_document(contents) {
        Ok(v) => v,
        Err(e) => {
            return Err(e);
        },
    };
    apply_steam_game_properties_to_localconfig(&mut localconfig, app_id, settings);
    Ok(serialize_vdf_document(&localconfig))
}


proof fn lemma_keys_apart_by_length(es: Seq<Edit>)
    requires
        forall|i: int, j: int|
            0 <= i < es.len() && 0 <= j < es.len() && i != j ==> #[trigger] edit_key(es[i]).len()
                != #[trigger] edit_key(es[j]).len(),
    ensures
        keys_apart(es),
{
}

proof fn lemma_app_edits_apart(s: GamePropertiesSettingsPayload)
    ensures
        keys_apart(app_setting_edits(s)),
{
    reveal_strlit("LaunchOptions");
    reveal_strlit("AutoUpdateBehavior");
    reveal_strlit("AllowDownloadsWhileRunning");
    reveal_strlit("SteamInput");
    let lo = trim(s.general.launch_options@);
    let g1 = set_or_remove("LaunchOptions"@, if lo.len() == 0 { None } else { Some(lo) });
    let g2 = mode_edits("AutoUpdateBehavior"@, auto_update_leaf(s.updates.automatic_updates_mode@));
    let g3 = mode_edits(
        "AllowDownloadsWhileRunning"@,
        background_leaf(s.updates.background_downloads_mode@),
    );
    let g4 = mode_edits("SteamInput"@, steam_input_leaf(s.controller.steam_input_override@));
    let e = app_setting_edits(s);
    assert(e == g1 + g2 + g3 + g4);
    assert(g1.len() == 1 && edit_key(g1[0]).len() == 13);
    assert(g2.len() <= 1 && forall|i: int| 0 <= i < g2.len() ==> edit_key(#[trigger] g2[i]).len() == 18);
    assert(g3.len() <= 1 && forall|i: int| 0 <= i < g3.len() ==> edit_key(#[trigger] g3[i]).len() == 26);
    assert(g4.len() <= 1 && forall|i: int| 0 <= i < g4.len() ==> edit_key(#[trigger] g4[i]).len() == 10);
    let a = g1.len() as int;
    let b = a + g2.len();
    let c = b + g3.len();
    assert forall|i: int| 0 <= i < e.len() implies (#[trigger] edit_key(e[i]).len()) == (if i < a {
        13nat
    } else if i < b {
        18nat
    } else if i < c {
        26nat
    } else {
        10nat
    }) by {
        if i < a {
            assert(e[i] == g1[i]);
        } else if i < b {
            assert(e[i] == g2[i - a]);
        } else if i < c {
            assert(e[i] == g3[i - b]);
        } else {
            assert(e[i] == g4[i - c]);
        }
    }
    lemma_keys_apart_by_length(e);
}

proof fn lemma_tool_edits_apart(name: Seq<char>)
    ensures
        keys_apart(
            seq![
                Edit::SetText("name"@, name),
                Edit::SetText("config"@, seq![]),
                Edit::SetText("priority"@, "250"@),
            ],
        ),
{
    reveal_strlit("name");
    reveal_strlit("config");
    reveal_strlit("priority");
    let e = seq![
        Edit::SetText("name"@, name),
        Edit::SetText("config"@, seq![]),
        Edit::SetText("priority"@, "250"@),
    ];
    lemma_keys_apart_by_length(e);
}

proof fn lemma_remove_apart(k: Seq<char>)
    ensures
        keys_apart(seq![Edit::Remove(k)]),
{
}

/// Writing the same settings into a configuration document a second time
/// changes nothing: the document, and so its serialized text, stays as the
/// first write left it.
pub proof fn lemma_apply_settings_idempotent(d: Doc, app_id: u64, s: GamePropertiesSettingsPayload)
    ensures
        apply_settings_spec(apply_settings_spec(d, app_id, s), app_id, s) == apply_settings_spec(
            d,
            app_id,
            s,
        ),
        serialize_spec(apply_settings_spec(apply_settings_spec(d, app_id, s), app_id, s))
            == serialize_spec(apply_settings_spec(d, app_id, s)),
{
    reveal_strlit("apps");
    reveal_strlit("CompatToolMapping");
    reveal_with_fuel(paths_part, 7);
    let id = decimal(app_id as nat);
    let pa = steam_config_path().push("apps"@).push(id);
    let pc = steam_config_path().push("CompatToolMapping"@);
    let pe = pc.push(id);
    let ea = app_setting_edits(s);
    let rm = seq![Edit::Remove(id)];
    lemma_app_edits_apart(s);
    lemma_remove_apart(id);
    assert(pa.len() == 6 && pc.len() == 5 && pe.len() == 6);
    assert(pa[0] == pc[0] && pa[1] == pc[1] && pa[2] == pc[2] && pa[3] == pc[3]);
    assert(pe[0] == pc[0] && pe[1] == pc[1] && pe[2] == pc[2] && pe[3] == pc[3]);
    assert(pa[4] == "apps"@ && pc[4] == "CompatToolMapping"@ && pe[4] == "CompatToolMapping"@);
    assert(pa[4] != pc[4] && !crate::text::eq_ci(pc[4], pa[4]));
    assert(paths_part(pc, pa));
    assert(paths_part(pe, pa));
    let y = edit_path_spec(d, pa, ea);
    lemma_edit_path_settles(d, pa, ea);
    let z = apply_settings_spec(d, app_id, s);
    if s.compatibility.force_steam_play_compatibility_tool {
        let name = compat_name_spec(s.compatibility.steam_play_compatibility_tool@);
        if name.len() == 0 {
            let n = edit_path_spec(y, pe, seq![]);
            lemma_edit_path_frame(y, pe, seq![], pa, ea);
            lemma_edit_path_frame(n, pc, rm, pa, ea);
            lemma_settled_fixed(z, pa, ea);
            lemma_edit_path_settles(n, pc, rm);
            lemma_ensure_then_remove(z, pc, id);
        } else {
            let et = seq![
                Edit::SetText("name"@, name),
                Edit::SetText("config"@, seq![]),
                Edit::SetText("priority"@, "250"@),
            ];
            lemma_tool_edits_apart(name);
            lemma_edit_path_frame(y, pe, et, pa, ea);
            lemma_settled_fixed(z, pa, ea);
            lemma_edit_path_settles(y, pe, et);
            lemma_settled_fixed(z, pe, et);
        }
    } else {
        lemma_edit_path_frame(y, pc, rm, pa, ea);
        lemma_settled_fixed(z, pa, ea);
        lemma_edit_path_settles(y, pc, rm);
        lemma_settled_fixed(z, pc, rm);
    }
}


/// What writing settings into a configuration text gives: the rendered
/// document, or none where the text is malformed.
pub open spec fn apply_text_spec(contents: Seq<char>, app_id: u64, s: GamePropertiesSettingsPayload) -> Option<
    Seq<char>,
> {
    match parse_doc_spec(contents) {
        Some(d) => Some(serialize_spec(apply_settings_spec(d, app_id, s))),
        None => None,
    }
}

/// Writing settings into a configuration file, reading the file back and
/// writing the same settings again gives the same file, where the document
/// written holds no NUL character.
pub proof fn lemma_apply_settings_text_idempotent(
    contents: Seq<char>,
    app_id: u64,
    s: GamePropertiesSettingsPayload,
)
    requires
        parse_doc_spec(contents) matches Some(d) && crate::roundtrip::doc_nul_free(
            apply_settings_spec(d, app_id, s),
        ),
    ensures
        apply_text_spec(contents, app_id, s) matches Some(t) && apply_text_spec(t, app_id, s)
            == Some(t),
{
    let d = parse_doc_spec(contents)->0;
    let w = apply_settings_spec(d, app_id, s);
    assert(w is Object);
    crate::roundtrip::lemma_round_trip_nul_free(w);
    lemma_apply_settings_idempotent(d, app_id, s);
}

} // verus!
