//! The compatibility tools a user can pick for an item: the built-in ones,
//! those installed as items, and custom ones declared in their own document.

use vstd::prelude::*;
use crate::text::{chars_of, trim, trimmed_chars, trimmed_string, eq_ci, chars_eq_ignore_case, string_of};
use crate::vdf::{Doc, VdfValue, VdfError, entries_doc, parse_doc_spec, parse_vdf_document, lemma_entries_doc_prefix};
use crate::path::{find_spec, vdf_find_object_value, Entries};
use crate::settings::{STEAM_BUILTIN_COMPATIBILITY_TOOLS, compat_name_spec, map_compatibility_tool_label_to_steam_name};

verus! {

/// A compatibility tool: the client's internal name and a display label.
pub struct GameCompatibilityToolResponse {
    pub id: String,
    pub label: String,
}

pub open spec fn tool_view(t: GameCompatibilityToolResponse) -> (Seq<char>, Seq<char>) {
    (t.id@, t.label@)
}

pub open spec fn tools_view(v: Seq<GameCompatibilityToolResponse>) -> Seq<(Seq<char>, Seq<char>)> {
    v.map_values(|t: GameCompatibilityToolResponse| tool_view(t))
}

/// The built-in tools, in their fixed order.
pub fn default_steam_compatibility_tools() -> (r: Vec<GameCompatibilityToolResponse>)
    ensures
        r@.len() == STEAM_BUILTIN_COMPATIBILITY_TOOLS@.len(),
        forall|i: int|
            0 <= i < r@.len() ==> #[trigger] tool_view(r@[i]) == (
                STEAM_BUILTIN_COMPATIBILITY_TOOLS@[i].0@,
                STEAM_BUILTIN_COMPATIBILITY_TOOLS@[i].1@,
            ),
{
    let tools = STEAM_BUILTIN_COMPATIBILITY_TOOLS;
    let mut out: Vec<GameCompatibilityToolResponse> = Vec::new();
    let mut i: usize = 0;
    while i < tools.len()
        invariant
            0 <= i <= tools@.len(),
            tools@ == STEAM_BUILTIN_COMPATIBILITY_TOOLS@,
            out@.len() == i,
            forall|j: int|
                0 <= j < i ==> #[trigger] tool_view(out@[j]) == (tools@[j].0@, tools@[j].1@),
        decreases tools@.len() - i,
    {
        let (id, label) = tools[i];
        out.push(GameCompatibilityToolResponse { id: id.to_owned(), label: label.to_owned() });
        i = i + 1;
    }
    out
}

/// Whether `s` begins with `p`, ignoring ASCII case.
pub open spec fn starts_with_ci(s: Seq<char>, p: Seq<char>) -> bool {
    s.len() >= p.len() && eq_ci(s.subrange(0, p.len() as int), p)
}

fn starts_with_ignore_case(s: &Vec<char>, p: &str) -> (r: bool)
    ensures
        r == starts_with_ci(s@, p@),
{
    let pc = chars_of(p);
    if s.len() < pc.len() {
        return false;
    }
    let head = crate::text::chars_of_range(s.as_slice(), 0, pc.len());
    chars_eq_ignore_case(head.as_slice(), pc.as_slice())
}

/// The container runtimes, which only some items should be offered: the
/// tools named `sniper` or `soldier`, or labelled `Steam Linux Runtime ...`.
pub open spec fn is_linux_runtime_spec(id: Seq<char>, label: Seq<char>) -> bool {
    eq_ci(trim(id), "sniper"@) || eq_ci(trim(id), "soldier"@) || starts_with_ci(
        trim(label),
        "steam linux runtime"@,
    )
}

pub fn is_linux_runtime_compatibility_tool(tool: &GameCompatibilityToolResponse) -> (r: bool)
    ensures
        r == is_linux_runtime_spec(tool.id@, tool.label@),
{
    let id = trimmed_chars(tool.id.as_str());
    let sniper = chars_of("sniper");
    let soldier = chars_of("soldier");
    if chars_eq_ignore_case(id.as_slice(), sniper.as_slice()) || chars_eq_ignore_case(
        id.as_slice(),
        soldier.as_slice(),
    ) {
        return true;
    }
    let label = trimmed_chars(tool.label.as_str());
    starts_with_ignore_case(&label, "steam linux runtime")
}

/// Whether some tool's name matches `id` ignoring ASCII case.
pub open spec fn has_tool_id(tools: Seq<(Seq<char>, Seq<char>)>, id: Seq<char>) -> bool {
    exists|i: int| 0 <= i < tools.len() && eq_ci(#[trigger] tools[i].0, id)
}

/// `tools` with a tool added: its name trimmed (none where blank), its label
/// trimmed or else its name; not added where a tool of that name (ignoring
/// ASCII case) is already there.
pub open spec fn add_tool_spec(tools: Seq<(Seq<char>, Seq<char>)>, id: Seq<char>, label: Seq<char>) -> Seq<
    (Seq<char>, Seq<char>),
> {
    let n = trim(id);
    let l = if trim(label).len() == 0 {
        n
    } else {
        trim(label)
    };
    if n.len() == 0 || has_tool_id(tools, n) {
        tools
    } else {
        tools.push((n, l))
    }
}

/// Adds a tool to the list of options unless its name is blank or taken.
pub fn add_compatibility_tool_option(tools: &mut Vec<GameCompatibilityToolResponse>, id: &str, label: &str)
    ensures
        tools_view(final(tools)@) == add_tool_spec(tools_view(old(tools)@), id@, label@),
{
    let n = trimmed_chars(id);
    if n.len() == 0 {
        return;
    }
    let ghost tv = tools_view(tools@);
    let mut i: usize = 0;
    while i < tools.len()
        invariant
            0 <= i <= tools@.len(),
            tv == tools_view(tools@),
            tools@ == old(tools)@,
            n@ == trim(id@),
            forall|j: int| 0 <= j < i ==> !eq_ci(#[trigger] tv[j].0, n@),
        decreases tools@.len() - i,
    {
        let t = chars_of(tools[i].id.as_str());
        assert(tv[i as int].0 == t@);
        if chars_eq_ignore_case(t.as_slice(), n.as_slice()) {
            return;
        }
        i = i + 1;
    }
    let l = trimmed_chars(label);
    let chosen = if l.len() == 0 {
        string_of(n.as_slice())
    } else {
        string_of(l.as_slice())
    };
    tools.push(GameCompatibilityToolResponse { id: string_of(n.as_slice()), label: chosen });
    assert(tools_view(tools@) =~= add_tool_spec(tv, id@, label@));
}

/// The tool an installed item's directory name stands for: a name starting
/// with `proton` or `steam linux runtime` (ignoring ASCII case), trimmed,
/// labels the tool whose internal name it maps to.
pub open spec fn tool_from_directory_spec(name: Seq<char>) -> Option<(Seq<char>, Seq<char>)> {
    let t = trim(name);
    if t.len() == 0 || !(starts_with_ci(t, "proton"@) || starts_with_ci(t, "steam linux runtime"@)) {
        None
    } else {
        Some((compat_name_spec(t), t))
    }
}

pub fn compatibility_tool_from_common_directory_name(directory_name: &str) -> (r: Option<
    GameCompatibilityToolResponse,
>)
    ensures
        match tool_from_directory_spec(directory_name@) {
            Some(t) => r matches Some(x) && tool_view(x) == t,
            None => r is None,
        },
{
    let t = trimmed_chars(directory_name);
    if t.len() == 0 {
        return None;
    }
    if !(starts_with_ignore_case(&t, "proton") || starts_with_ignore_case(&t, "steam linux runtime")) {
        return None;
    }
    let label = string_of(t.as_slice());
    let id = map_compatibility_tool_label_to_steam_name(label.as_str());
    Some(GameCompatibilityToolResponse { id, label })
}


/// `tools` with a discovered tool added as `add_tool_spec` does, unless it
/// is a container runtime and those are not wanted.
pub open spec fn add_discovered_spec(
    tools: Seq<(Seq<char>, Seq<char>)>,
    t: (Seq<char>, Seq<char>),
    include_linux_runtime_tools: bool,
) -> Seq<(Seq<char>, Seq<char>)> {
    if !include_linux_runtime_tools && is_linux_runtime_spec(t.0, t.1) {
        tools
    } else {
        add_tool_spec(tools, t.0, t.1)
    }
}

/// Offers a discovered tool, leaving out container runtimes unless wanted.
pub fn add_discovered_compatibility_tool(
    tools: &mut Vec<GameCompatibilityToolResponse>,
    tool: &GameCompatibilityToolResponse,
    include_linux_runtime_tools: bool,
)
    ensures
        tools_view(final(tools)@) == add_discovered_spec(
            tools_view(old(tools)@),
            tool_view(*tool),
            include_linux_runtime_tools,
        ),
{
    if !include_linux_runtime_tools && is_linux_runtime_compatibility_tool(tool) {
        return;
    }
    add_compatibility_tool_option(tools, tool.id.as_str(), tool.label.as_str());
}

/// The built-in tools from `i` on, each offered in turn.
pub open spec fn builtin_fold(acc: Seq<(Seq<char>, Seq<char>)>, n: int, with_runtimes: bool) -> Seq<
    (Seq<char>, Seq<char>),
>
    decreases n,
{
    if n <= 0 {
        acc
    } else {
        let t = STEAM_BUILTIN_COMPATIBILITY_TOOLS@[n - 1];
        add_discovered_spec(builtin_fold(acc, n - 1, with_runtimes), (t.0@, t.1@), with_runtimes)
    }
}

/// The built-in tools on offer, container runtimes only where wanted.
pub fn builtin_compatibility_tools(include_linux_runtime_tools: bool) -> (r: Vec<
    GameCompatibilityToolResponse,
>)
    ensures
        tools_view(r@) == builtin_fold(
            seq![],
            STEAM_BUILTIN_COMPATIBILITY_TOOLS@.len() as int,
            include_linux_runtime_tools,
        ),
{
    let builtin = default_steam_compatibility_tools();
    let mut tools: Vec<GameCompatibilityToolResponse> = Vec::new();
    assert(tools_view(tools@) =~= seq![]);
    let mut i: usize = 0;
    while i < builtin.len()
        invariant
            0 <= i <= builtin@.len(),
            builtin@.len() == STEAM_BUILTIN_COMPATIBILITY_TOOLS@.len(),
            forall|j: int|
                0 <= j < builtin@.len() ==> #[trigger] tool_view(builtin@[j]) == (
                    STEAM_BUILTIN_COMPATIBILITY_TOOLS@[j].0@,
                    STEAM_BUILTIN_COMPATIBILITY_TOOLS@[j].1@,
                ),
            tools_view(tools@) == builtin_fold(seq![], i as int, include_linux_runtime_tools),
        decreases builtin@.len() - i,
    {
        assert(tool_view(builtin@[i as int]) == (
            STEAM_BUILTIN_COMPATIBILITY_TOOLS@[i as int].0@,
            STEAM_BUILTIN_COMPATIBILITY_TOOLS@[i as int].1@,
        ));
        add_discovered_compatibility_tool(&mut tools, &builtin[i], include_linux_runtime_tools);
        i = i + 1;
    }
    tools
}

/// Where a custom tool document lists its tools: `compat_tools` inside
/// `compatibilitytools`, or else at the top level.
pub open spec fn compat_tools_section(root: Doc) -> Option<Doc> {
    let nested = match find_spec(root, "compatibilitytools"@) {
        Some(c) => find_spec(c, "compat_tools"@),
        None => None,
    };
    if nested is Some {
        nested
    } else {
        find_spec(root, "compat_tools"@)
    }
}

/// A custom tool's label: its `display_name` leaf trimmed, or its name.
pub open spec fn display_label(v: Doc, tid: Seq<char>) -> Seq<char> {
    match find_spec(v, "display_name"@) {
        Some(Doc::Text(t)) => if trim(t).len() > 0 {
            trim(t)
        } else {
            tid
        },
        _ => tid,
    }
}

pub open spec fn custom_tools_fold(acc: Seq<(Seq<char>, Seq<char>)>, es: Entries) -> Seq<
    (Seq<char>, Seq<char>),
>
    decreases es.len(),
{
    if es.len() == 0 {
        acc
    } else {
        let prev = custom_tools_fold(acc, es.drop_last());
        let tid = trim(es.last().0);
        if tid.len() == 0 {
            prev
        } else {
            add_tool_spec(prev, tid, display_label(es.last().1, tid))
        }
    }
}

/// The custom tools a tool document declares, each name once.
pub open spec fn custom_tools_spec(root: Doc) -> Seq<(Seq<char>, Seq<char>)> {
    match compat_tools_section(root) {
        Some(Doc::Object(es)) => custom_tools_fold(seq![], es),
        _ => seq![],
    }
}

fn display_label_of(v: &VdfValue, tid: &String) -> (r: String)
    ensures
        r@ == display_label(v@, tid@),
{
    match vdf_find_object_value(v, "display_name") {
        Some(VdfValue::Text(t)) => {
            let d = trimmed_string(t.as_str());
            if d.as_str().unicode_len() > 0 {
                d
            } else {
                tid.clone()
            }
        },
        _ => tid.clone(),
    }
}

/// Reads the custom tools that a tool's own document declares.
pub fn parse_steam_custom_compatibility_tools_from_vdf(contents: &str) -> (r: Result<
    Vec<GameCompatibilityToolResponse>,
    VdfError,
>)
    ensures
        match parse_doc_spec(contents@) {
            Some(d) => r is Ok && tools_view(r->Ok_0@) == custom_tools_spec(d),
            None => r is Err,
        },
{
    let root = match parse_vdf_document(contents) {
        Ok(v) => v,
        Err(e) => {
            return Err(e);
        },
    };
    let nested = match vdf_find_object_value(&root, "compatibilitytools") {
        Some(c) => vdf_find_object_value(c, "compat_tools"),
        None => None,
    };
    let section = match nested {
        Some(s) => Some(s),
        None => vdf_find_object_value(&root, "compat_tools"),
    };
    let mut tools: Vec<GameCompatibilityToolResponse> = Vec::new();
    assert(tools_view(tools@) =~= seq![]);
    match section {
        Some(VdfValue::Object(entries)) => {
            let mut i: usize = 0;
            assert(entries_doc(entries@.subrange(0, 0)) =~= seq![]);
            while i < entries.len()
                invariant
                    0 <= i <= entries@.len(),
                    tools_view(tools@) == custom_tools_fold(
                        seq![],
                        entries_doc(entries@.subrange(0, i as int)),
                    ),
                decreases entries@.len() - i,
            {
                proof {
                    lemma_entries_doc_prefix(entries@, i as int);
                    let e = entries_doc(entries@.subrange(0, i + 1));
                    assert(e.drop_last() =~= entries_doc(entries@.subrange(0, i as int)));
                }
                let tid = trimmed_string(entries[i].0.as_str());
                if tid.as_str().unicode_len() > 0 {
                    let label = display_label_of(&entries[i].1, &tid);
                    add_compatibility_tool_option(&mut tools, tid.as_str(), label.as_str());
                }
                i = i + 1;
            }
            assert(entries@.subrange(0, i as int) =~= entries@);
        },
        _ => {},
    }
    Ok(tools)
}


/// The declared tools offered in turn (container runtimes only where
/// wanted), and whether any was offered.
pub open spec fn declared_fold(
    acc: Seq<(Seq<char>, Seq<char>)>,
    ds: Seq<(Seq<char>, Seq<char>)>,
    with_runtimes: bool,
) -> (Seq<(Seq<char>, Seq<char>)>, bool)
    decreases ds.len(),
{
    if ds.len() == 0 {
        (acc, false)
    } else {
        let prev = declared_fold(acc, ds.drop_last(), with_runtimes);
        let t = ds.last();
        if !with_runtimes && is_linux_runtime_spec(t.0, t.1) {
            prev
        } else {
            (add_tool_spec(prev.0, t.0, t.1), true)
        }
    }
}

/// `tools` with a custom tool directory's tools offered: those its own
/// document declares; where none of them is offered, the directory's name
/// (trimmed) as name and label, unless it is blank or an unwanted container
/// runtime.
pub open spec fn custom_directory_spec(
    tools: Seq<(Seq<char>, Seq<char>)>,
    declared: Seq<(Seq<char>, Seq<char>)>,
    name: Seq<char>,
    with_runtimes: bool,
) -> Seq<(Seq<char>, Seq<char>)> {
    let f = declared_fold(tools, declared, with_runtimes);
    let n = trim(name);
    if f.1 || n.len() == 0 || (!with_runtimes && is_linux_runtime_spec(n, n)) {
        f.0
    } else {
        add_tool_spec(f.0, n, n)
    }
}

/// Offers the tools of one custom tool directory, given the tools its own
/// document declares (none where it has no readable document).
pub fn add_custom_tool_directory(
    tools: &mut Vec<GameCompatibilityToolResponse>,
    declared: &Vec<GameCompatibilityToolResponse>,
    directory_name: &str,
    include_linux_runtime_tools: bool,
)
    ensures
        tools_view(final(tools)@) == custom_directory_spec(
            tools_view(old(tools)@),
            tools_view(declared@),
            directory_name@,
            include_linux_runtime_tools,
        ),
{
    let ghost dv = tools_view(declared@);
    let mut offered = false;
    let mut i: usize = 0;
    assert(dv.subrange(0, 0) =~= Seq::<(Seq<char>, Seq<char>)>::empty());
    while i < declared.len()
        invariant
            0 <= i <= declared@.len(),
            dv == tools_view(declared@),
            dv.len() == declared@.len(),
            (tools_view(tools@), offered) == declared_fold(
                tools_view(old(tools)@),
                dv.subrange(0, i as int),
                include_linux_runtime_tools,
            ),
        decreases declared@.len() - i,
    {
        assert(dv.subrange(0, i + 1).drop_last() =~= dv.subrange(0, i as int));
        assert(dv[i as int] == tool_view(declared@[i as int]));
        let t = &declared[i];
        if include_linux_runtime_tools || !is_linux_runtime_compatibility_tool(t) {
            add_compatibility_tool_option(tools, t.id.as_str(), t.label.as_str());
            offered = true;
        }
        i = i + 1;
    }
    assert(dv.subrange(0, i as int) =~= dv);
    if offered {
        return;
    }
    let name = trimmed_string(directory_name);
    if name.as_str().unicode_len() == 0 {
        return;
    }
    let fallback = GameCompatibilityToolResponse { id: name.clone(), label: name.clone() };
    if !include_linux_runtime_tools && is_linux_runtime_compatibility_tool(&fallback) {
        return;
    }
    add_compatibility_tool_option(tools, name.as_str(), name.as_str());
}

} // verus!
