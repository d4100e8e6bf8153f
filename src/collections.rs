//! User-defined collections recovered from the tag data of a user's
//! configuration document.

use vstd::prelude::*;
use crate::text::{chars_of, is_ws, is_whitespace_char, trim, trim_bounds, eq_ci, chars_eq_ignore_case, all_digits, is_digit, string_of};
use crate::vdf::{Doc, VdfValue, VdfError, entries_doc, parse_doc_spec, parse_vdf_document, lemma_entries_doc_prefix};
use crate::path::{find_spec, objects_by_key, refs_doc, vdf_find_object_value, vdf_collect_objects_by_key, Entries};
use crate::library::{strings_view, dedup_into, extend_unique, push_string};

verus! {

/// `s` without its NUL characters.
pub open spec fn drop_nul(s: Seq<char>) -> Seq<char>
    decreases s.len(),
{
    if s.len() == 0 {
        s
    } else if s.last() == '\0' {
        drop_nul(s.drop_last())
    } else {
        drop_nul(s.drop_last()).push(s.last())
    }
}

/// A candidate string cleaned for use as a collection name: NULs dropped
/// and whitespace trimmed; none where that leaves it empty, where it is one
/// of `0`, `1`, `true`, `false` (ignoring ASCII case), or all digits.
pub open spec fn collection_name_spec(raw: Seq<char>) -> Option<Seq<char>> {
    let n = trim(drop_nul(raw));
    if n.len() == 0 || eq_ci(n, "0"@) || eq_ci(n, "1"@) || eq_ci(n, "true"@) || eq_ci(
        n,
        "false"@,
    ) || all_digits(n) {
        None
    } else {
        Some(n)
    }
}

fn all_digit_vec(s: &Vec<char>) -> (r: bool)
    ensures
        r == all_digits(s@),
{
    let mut i: usize = 0;
    while i < s.len()
        invariant
            0 <= i <= s@.len(),
            forall|j: int| 0 <= j < i ==> is_digit(#[trigger] s@[j]),
        decreases s@.len() - i,
    {
        if !('0' <= s[i] && s[i] <= '9') {
            assert(!is_digit(s@[i as int]));
            return false;
        }
        i = i + 1;
    }
    true
}

/// Cleans a candidate collection name; none where it is noise.
pub fn parse_collection_name_candidate(raw_value: &str) -> (r: Option<String>)
    ensures
        match collection_name_spec(raw_value@) {
            Some(n) => r is Some && r->0@ == n,
            None => r is None,
        },
{
    let raw = chars_of(raw_value);
    let mut kept: Vec<char> = Vec::new();
    let mut i: usize = 0;
    while i < raw.len()
        invariant
            0 <= i <= raw@.len(),
            kept@ == drop_nul(raw@.subrange(0, i as int)),
        decreases raw@.len() - i,
    {
        assert(raw@.subrange(0, i + 1).drop_last() =~= raw@.subrange(0, i as int));
        if raw[i] != '\0' {
            kept.push(raw[i]);
        }
        i = i + 1;
    }
    assert(raw@.subrange(0, i as int) =~= raw@);
    let (a, b) = trim_bounds(kept.as_slice());
    let mut n: Vec<char> = Vec::new();
    let mut j = a;
    while j < b
        invariant
            a <= j <= b <= kept@.len(),
            n@ == kept@.subrange(a as int, j as int),
        decreases b - j,
    {
        n.push(kept[j]);
        j = j + 1;
        assert(n@ =~= kept@.subrange(a as int, j as int));
    }
    if n.len() == 0 {
        return None;
    }
    let zero = chars_of("0");
    let one = chars_of("1");
    let t = chars_of("true");
    let f = chars_of("false");
    if chars_eq_ignore_case(n.as_slice(), zero.as_slice()) || chars_eq_ignore_case(
        n.as_slice(),
        one.as_slice(),
    ) || chars_eq_ignore_case(n.as_slice(), t.as_slice()) || chars_eq_ignore_case(
        n.as_slice(),
        f.as_slice(),
    ) {
        return None;
    }
    if all_digit_vec(&n) {
        return None;
    }
    Some(string_of(n.as_slice()))
}

/// Every text leaf at or below `d`, in document order.
pub open spec fn text_leaves(d: Doc) -> Seq<Seq<char>>
    decreases d,
{
    match d {
        Doc::Text(t) => seq![t],
        Doc::Object(es) => text_leaves_in(es),
    }
}

pub open spec fn text_leaves_in(es: Entries) -> Seq<Seq<char>>
    decreases es,
{
    if es.len() == 0 {
        seq![]
    } else {
        text_leaves_in(es.subrange(0, es.len() - 1)) + text_leaves(es[es.len() - 1].1)
    }
}

/// Appends every text leaf at or below `value`, in document order.
#[verifier::loop_isolation(false)]
pub fn vdf_collect_text_leaves(value: &VdfValue, output: &mut Vec<String>)
    ensures
        strings_view(final(output)@) == strings_view(old(output)@) + text_leaves(value@),
    decreases value,
{
    match value {
        VdfValue::Text(text) => {
            push_string(output, text.clone());
            assert(strings_view(output@) =~= strings_view(old(output)@) + text_leaves(value@));
        },
        VdfValue::Object(entries) => {
            let mut i: usize = 0;
            assert(entries_doc(entries@.subrange(0, 0)) =~= seq![]);
            assert(strings_view(output@) =~= strings_view(old(output)@) + text_leaves_in(
                entries_doc(entries@.subrange(0, 0)),
            ));
            while i < entries.len()
                invariant
                    0 <= i <= entries@.len(),
                    strings_view(output@) == strings_view(old(output)@) + text_leaves_in(
                        entries_doc(entries@.subrange(0, i as int)),
                    ),
                decreases entries@.len() - i,
            {
                proof {
                    lemma_entries_doc_prefix(entries@, i as int);
                    let es = *entries;
                    assert(decreases_to!(*value => es));
                    assert(decreases_to!(es => es@));
                    assert(decreases_to!(es@ => es@[i as int]));
                    assert(decreases_to!(es@[i as int] => es@[i as int].1));
                }
                vdf_collect_text_leaves(&entries[i].1, output);
                i = i + 1;
                assert(strings_view(output@) =~= strings_view(old(output)@) + text_leaves_in(
                    entries_doc(entries@.subrange(0, i as int)),
                ));
            }
            assert(entries@.subrange(0, i as int) =~= entries@);
        },
    }
}


pub open spec fn is_blank(c: char) -> bool {
    is_ws(c) || c == '\0'
}

pub open spec fn skip_blank(s: Seq<char>, i: int) -> int
    decreases s.len() - i,
{
    if 0 <= i < s.len() && is_blank(s[i]) {
        skip_blank(s, i + 1)
    } else {
        i
    }
}

pub open spec fn blank_end(s: Seq<char>, lo: int, hi: int) -> int
    decreases hi - lo,
{
    if lo < hi && is_blank(s[hi - 1]) {
        blank_end(s, lo, hi - 1)
    } else {
        hi
    }
}

/// `s` without leading and trailing whitespace and NUL characters.
pub open spec fn strip_blank(s: Seq<char>) -> Seq<char> {
    let a = skip_blank(s, 0);
    s.subrange(a, blank_end(s, a, s.len() as int))
}

proof fn lemma_skip_blank_bounds(s: Seq<char>, i: int)
    requires
        0 <= i <= s.len(),
    ensures
        i <= skip_blank(s, i) <= s.len(),
    decreases s.len() - i,
{
    if i < s.len() && is_blank(s[i]) {
        lemma_skip_blank_bounds(s, i + 1);
    }
}

fn strip_blank_chars(s: &str) -> (r: Vec<char>)
    ensures
        r@ == strip_blank(s@),
{
    let v = chars_of(s);
    let mut a: usize = 0;
    while a < v.len() && (is_whitespace_char(v[a]) || v[a] == '\0')
        invariant
            0 <= a <= v@.len(),
            skip_blank(v@, a as int) == skip_blank(v@, 0),
        decreases v@.len() - a,
    {
        a = a + 1;
    }
    let mut b: usize = v.len();
    while b > a && (is_whitespace_char(v[b - 1]) || v[b - 1] == '\0')
        invariant
            a <= b <= v@.len(),
            blank_end(v@, a as int, b as int) == blank_end(v@, a as int, v@.len() as int),
        decreases b - a,
    {
        b = b - 1;
    }
    let mut out: Vec<char> = Vec::new();
    let mut i = a;
    while i < b
        invariant
            a <= i <= b <= v@.len(),
            out@ == v@.subrange(a as int, i as int),
        decreases b - i,
    {
        out.push(v[i]);
        i = i + 1;
        assert(out@ =~= v@.subrange(a as int, i as int));
    }
    out
}

pub open spec fn opt_seq(o: Option<Seq<char>>) -> Seq<Seq<char>> {
    match o {
        Some(n) => seq![n],
        None => seq![],
    }
}

/// The collection names among candidate strings, in order.
pub open spec fn names_of(cands: Seq<Seq<char>>) -> Seq<Seq<char>>
    decreases cands.len(),
{
    if cands.len() == 0 {
        seq![]
    } else {
        names_of(cands.drop_last()) + opt_seq(collection_name_spec(cands.last()))
    }
}

/// The collection names of a `tags` object: each entry's key, then the
/// text leaves below its value, where they pass as names.
pub open spec fn tag_names(te: Entries) -> Seq<Seq<char>>
    decreases te.len(),
{
    if te.len() == 0 {
        seq![]
    } else {
        tag_names(te.drop_last()) + opt_seq(collection_name_spec(te.last().0)) + names_of(
            text_leaves(te.last().1),
        )
    }
}

/// Collection names per item: each item once, with its names each once.
pub type CollectionMap = Seq<(Seq<char>, Seq<Seq<char>>)>;

pub open spec fn key_index_from(m: CollectionMap, id: Seq<char>, i: int) -> Option<int>
    decreases m.len() - i,
{
    if i < 0 || i >= m.len() {
        None
    } else if m[i].0 == id {
        Some(i)
    } else {
        key_index_from(m, id, i + 1)
    }
}

/// `m` with `names` added to those of `id` (a new entry where `id` has none).
pub open spec fn merge_names(m: CollectionMap, id: Seq<char>, names: Seq<Seq<char>>) -> CollectionMap {
    match key_index_from(m, id, 0) {
        Some(i) => m.update(i, (id, dedup_into(m[i].1, names))),
        None => m.push((id, dedup_into(seq![], names))),
    }
}

/// `m` with the collections of one entry of an `apps` object added: its key
/// (stripped of whitespace and NULs) must be a number, and its value must
/// hold a `tags` object that yields at least one name.
pub open spec fn app_step(m: CollectionMap, app_id: Seq<char>, app: Doc) -> CollectionMap {
    let id = strip_blank(app_id);
    if id.len() > 0 && all_digits(id) {
        match find_spec(app, "tags"@) {
            Some(Doc::Object(te)) => if tag_names(te).len() > 0 {
                merge_names(m, id, tag_names(te))
            } else {
                m
            },
            _ => m,
        }
    } else {
        m
    }
}

pub open spec fn apps_fold(m: CollectionMap, es: Entries) -> CollectionMap
    decreases es.len(),
{
    if es.len() == 0 {
        m
    } else {
        app_step(apps_fold(m, es.drop_last()), es.last().0, es.last().1)
    }
}

pub open spec fn objects_fold(m: CollectionMap, objs: Seq<Doc>) -> CollectionMap
    decreases objs.len(),
{
    if objs.len() == 0 {
        m
    } else {
        apps_fold(
            objects_fold(m, objs.drop_last()),
            crate::path::entries_of(objs.last()),
        )
    }
}

/// The collections of a configuration document: those of every object held
/// under an `apps` key at any depth, merged.
pub open spec fn collections_spec(root: Doc) -> CollectionMap {
    objects_fold(seq![], objects_by_key(root, "apps"@))
}

pub open spec fn map_view(v: Seq<(String, Vec<String>)>) -> CollectionMap {
    v.map_values(|e: (String, Vec<String>)| (e.0@, strings_view(e.1@)))
}

/// Adds `names` to those of `id`, keeping each name once.
pub fn merge_collection_names(map: &mut Vec<(String, Vec<String>)>, id: String, names: &Vec<String>)
    ensures
        map_view(final(map)@) == merge_names(map_view(old(map)@), id@, strings_view(names@)),
        collections_wf(map_view(old(map)@)) ==> collections_wf(map_view(final(map)@)),
{
    proof {
        if collections_wf(map_view(map@)) {
            lemma_merge_names_wf(map_view(map@), id@, strings_view(names@));
        }
    }
    let ghost mv = map_view(map@);
    let mut i: usize = 0;
    while i < map.len()
        invariant
            0 <= i <= map@.len(),
            mv == map_view(map@),
            map@ == old(map)@,
            collections_wf(mv) ==> collections_wf(merge_names(mv, id@, strings_view(names@))),
            mv.len() == map@.len(),
            key_index_from(mv, id@, i as int) == key_index_from(mv, id@, 0),
        decreases map@.len() - i,
    {
        assert(mv[i as int] == (map@[i as int].0@, strings_view(map@[i as int].1@)));
        if map[i].0 == id {
            assert(key_index_from(mv, id@, i as int) == Some(i as int));
            let ghost before = map@;
            let mut merged: Vec<String> = Vec::new();
            std::mem::swap(&mut merged, &mut map[i].1);
            extend_unique(&mut merged, names);
            let ghost keyed = map@[i as int].0;
            map.set(i, (id, merged));
            proof {
                assert(map_view(map@) =~= mv.update(i as int, (id@, dedup_into(mv[i as int].1, strings_view(names@)))));
            }
            return;
        }
        i = i + 1;
    }
    let mut fresh: Vec<String> = Vec::new();
    assert(strings_view(fresh@) =~= seq![]);
    extend_unique(&mut fresh, names);
    map.push((id, fresh));
    assert(map_view(map@) =~= mv.push((id@, dedup_into(seq![], strings_view(names@)))));
}

/// The collection names of a `tags` object.
fn collect_tag_names(tag_entries: &Vec<(String, VdfValue)>) -> (r: Vec<String>)
    ensures
        strings_view(r@) == tag_names(entries_doc(tag_entries@)),
{
    let mut names: Vec<String> = Vec::new();
    let mut i: usize = 0;
    assert(entries_doc(tag_entries@.subrange(0, 0)) =~= seq![]);
    assert(strings_view(names@) =~= tag_names(entries_doc(tag_entries@.subrange(0, 0))));
    while i < tag_entries.len()
        invariant
            0 <= i <= tag_entries@.len(),
            strings_view(names@) == tag_names(entries_doc(tag_entries@.subrange(0, i as int))),
        decreases tag_entries@.len() - i,
    {
        proof {
            lemma_entries_doc_prefix(tag_entries@, i as int);
        }
        let ghost before = strings_view(names@);
        if let Some(n) = parse_collection_name_candidate(tag_entries[i].0.as_str()) {
            push_string(&mut names, n);
        }
        let ghost mid = strings_view(names@);
        assert(mid == before + opt_seq(collection_name_spec(tag_entries@[i as int].0@)));
        let mut leaves: Vec<String> = Vec::new();
        assert(strings_view(leaves@) =~= seq![]);
        vdf_collect_text_leaves(&tag_entries[i].1, &mut leaves);
        let ghost lv = strings_view(leaves@);
        let mut j: usize = 0;
        assert(lv.subrange(0, 0) =~= seq![]);
        assert(strings_view(names@) =~= mid + names_of(lv.subrange(0, 0)));
        while j < leaves.len()
            invariant
                0 <= j <= leaves@.len(),
                lv == strings_view(leaves@),
                lv.len() == leaves@.len(),
                strings_view(names@) == mid + names_of(lv.subrange(0, j as int)),
            decreases leaves@.len() - j,
        {
            assert(lv.subrange(0, j + 1).drop_last() =~= lv.subrange(0, j as int));
            assert(lv[j as int] == leaves@[j as int]@);
            let ghost b2 = strings_view(names@);
            if let Some(n) = parse_collection_name_candidate(leaves[j].as_str()) {
                push_string(&mut names, n);
            }
            j = j + 1;
            assert(strings_view(names@) =~= mid + names_of(lv.subrange(0, j as int)));
        }
        assert(lv.subrange(0, j as int) =~= lv);
        i = i + 1;
        proof {
            let te = entries_doc(tag_entries@.subrange(0, i as int));
            assert(te.drop_last() =~= entries_doc(tag_entries@.subrange(0, i - 1)));
        }
    }
    assert(tag_entries@.subrange(0, i as int) =~= tag_entries@);
    names
}

/// Adds the collections of one entry of an `apps` object.
pub fn add_app_collections(map: &mut Vec<(String, Vec<String>)>, app_id: &str, app_value: &VdfValue)
    ensures
        map_view(final(map)@) == app_step(map_view(old(map)@), app_id@, app_value@),
{
    let id = strip_blank_chars(app_id);
    if id.len() == 0 || !all_digit_vec(&id) {
        return;
    }
    match vdf_find_object_value(app_value, "tags") {
        Some(VdfValue::Object(tag_entries)) => {
            let names = collect_tag_names(tag_entries);
            if names.len() > 0 {
                merge_collection_names(map, string_of(id.as_slice()), &names);
            }
        },
        _ => {},
    }
}

/// The collections of a configuration document's text, per numeric item
/// identifier; each item once, in order of first appearance, with its names
/// each once, in order of first appearance.
pub fn parse_steam_collections_from_vdf(contents: &str) -> (r: Result<
    Vec<(String, Vec<String>)>,
    VdfError,
>)
    ensures
        match parse_doc_spec(contents@) {
            Some(d) => r is Ok && map_view(r->Ok_0@) == collections_spec(d),
            None => r is Err,
        },
        r matches Ok(m) ==> collections_wf(map_view(m@)),
{
    let root = match parse_vdf_document(contents) {
        Ok(v) => v,
        Err(e) => {
            return Err(e);
        },
    };
    let mut apps: Vec<&VdfValue> = Vec::new();
    assert(refs_doc(apps@) =~= seq![]);
    vdf_collect_objects_by_key(&root, "apps", &mut apps);
    let ghost objs = refs_doc(apps@);
    let mut map: Vec<(String, Vec<String>)> = Vec::new();
    assert(map_view(map@) =~= seq![]);
    let mut k: usize = 0;
    assert(objs.subrange(0, 0) =~= seq![]);
    while k < apps.len()
        invariant
            0 <= k <= apps@.len(),
            objs == refs_doc(apps@),
            objs.len() == apps@.len(),
            objs == objects_by_key(root@, "apps"@),
            map_view(map@) == objects_fold(seq![], objs.subrange(0, k as int)),
        decreases apps@.len() - k,
    {
        assert(objs.subrange(0, k + 1).drop_last() =~= objs.subrange(0, k as int));
        assert(objs[k as int] == apps@[k as int]@);
        let ghost start = map_view(map@);
        match apps[k] {
            VdfValue::Object(app_entries) => {
                let mut i: usize = 0;
                assert(entries_doc(app_entries@.subrange(0, 0)) =~= seq![]);
                while i < app_entries.len()
                    invariant
                        0 <= i <= app_entries@.len(),
                        map_view(map@) == apps_fold(start, entries_doc(app_entries@.subrange(0, i as int))),
                    decreases app_entries@.len() - i,
                {
                    proof {
                        lemma_entries_doc_prefix(app_entries@, i as int);
                        let e = entries_doc(app_entries@.subrange(0, i + 1));
                        assert(e.drop_last() =~= entries_doc(app_entries@.subrange(0, i as int)));
                    }
                    add_app_collections(&mut map, app_entries[i].0.as_str(), &app_entries[i].1);
                    i = i + 1;
                }
                assert(app_entries@.subrange(0, i as int) =~= app_entries@);
            },
            VdfValue::Text(_) => {},
        }
        k = k + 1;
    }
    assert(objs.subrange(0, k as int) =~= objs);
    proof {
        lemma_collections_wf(root@);
    }
    Ok(map)
}

/// Every entry of `src` merged into `m` in turn.
pub open spec fn merge_all(m: CollectionMap, src: CollectionMap) -> CollectionMap
    decreases src.len(),
{
    if src.len() == 0 {
        m
    } else {
        let last = src.last();
        merge_names(merge_all(m, src.drop_last()), last.0, last.1)
    }
}

/// Merges collections read from another file into `target`.
pub fn merge_collections_by_app_id(target: &mut Vec<(String, Vec<String>)>, source: Vec<(String, Vec<String>)>)
    ensures
        map_view(final(target)@) == merge_all(map_view(old(target)@), map_view(source@)),
        collections_wf(map_view(old(target)@)) ==> collections_wf(map_view(final(target)@)),
{
    proof {
        if collections_wf(map_view(target@)) {
            lemma_merge_all_wf(map_view(target@), map_view(source@));
        }
    }
    let ghost sv = map_view(source@);
    let mut i: usize = 0;
    assert(sv.subrange(0, 0) =~= seq![]);
    while i < source.len()
        invariant
            0 <= i <= source@.len(),
            sv == map_view(source@),
            sv.len() == source@.len(),
            map_view(target@) == merge_all(map_view(old(target)@), sv.subrange(0, i as int)),
        decreases source@.len() - i,
    {
        assert(sv.subrange(0, i + 1).drop_last() =~= sv.subrange(0, i as int));
        assert(sv[i as int] == (source@[i as int].0@, strings_view(source@[i as int].1@)));
        merge_collection_names(target, source[i].0.clone(), &source[i].1);
        i = i + 1;
    }
    assert(sv.subrange(0, i as int) =~= sv);
}


/// An item without a `tags` object adds no collection.
pub proof fn lemma_untagged_item_adds_nothing(m: CollectionMap, app_id: Seq<char>, app: Doc)
    requires
        !(find_spec(app, "tags"@) matches Some(t) && t is Object),
    ensures
        app_step(m, app_id, app) == m,
{
}

/// A candidate made only of digits (once NULs and whitespace are dropped)
/// is never a collection name.
pub proof fn lemma_numeric_candidate_rejected(raw: Seq<char>)
    requires
        all_digits(trim(drop_nul(raw))),
    ensures
        collection_name_spec(raw) is None,
{
}


/// No name repeats.
pub open spec fn names_distinct(v: Seq<Seq<char>>) -> bool {
    forall|i: int, j: int| 0 <= i < v.len() && 0 <= j < v.len() && i != j ==> #[trigger] v[i] != #[trigger] v[j]
}

/// A well-formed collection map: each item once, and each name once under
/// its item.
pub open spec fn collections_wf(m: CollectionMap) -> bool {
    &&& forall|i: int, j: int|
        0 <= i < m.len() && 0 <= j < m.len() && i != j ==> #[trigger] m[i].0 != #[trigger] m[j].0
    &&& forall|i: int| 0 <= i < m.len() ==> names_distinct(#[trigger] m[i].1)
}

proof fn lemma_dedup_distinct(acc: Seq<Seq<char>>, xs: Seq<Seq<char>>)
    requires
        names_distinct(acc),
    ensures
        names_distinct(dedup_into(acc, xs)),
    decreases xs.len(),
{
    if xs.len() > 0 {
        if acc.contains(xs[0]) {
            lemma_dedup_distinct(acc, xs.drop_first());
        } else {
            let b = acc.push(xs[0]);
            assert forall|i: int, j: int| 0 <= i < b.len() && 0 <= j < b.len() && i != j implies #[trigger] b[i] != #[trigger] b[j] by {
                if i < acc.len() && j < acc.len() {
                    assert(b[i] == acc[i] && b[j] == acc[j]);
                } else if i < acc.len() {
                    assert(b[i] == acc[i]);
                } else {
                    assert(b[j] == acc[j]);
                }
            }
            lemma_dedup_distinct(b, xs.drop_first());
        }
    }
}

proof fn lemma_key_index_facts(m: CollectionMap, id: Seq<char>, i: int)
    requires
        0 <= i,
    ensures
        key_index_from(m, id, i) matches Some(k) ==> i <= k < m.len() && m[k].0 == id,
        key_index_from(m, id, i) is None ==> forall|k: int| i <= k < m.len() ==> #[trigger] m[k].0 != id,
    decreases m.len() - i,
{
    if i < m.len() && m[i].0 != id {
        lemma_key_index_facts(m, id, i + 1);
    }
}

pub proof fn lemma_merge_names_wf(m: CollectionMap, id: Seq<char>, names: Seq<Seq<char>>)
    requires
        collections_wf(m),
    ensures
        collections_wf(merge_names(m, id, names)),
{
    lemma_key_index_facts(m, id, 0);
    let r = merge_names(m, id, names);
    match key_index_from(m, id, 0) {
        Some(k) => {
            lemma_dedup_distinct(m[k].1, names);
            assert forall|i: int| 0 <= i < r.len() implies names_distinct(#[trigger] r[i].1) by {
                if i != k {
                    assert(r[i] == m[i]);
                }
            }
            assert forall|i: int, j: int| 0 <= i < r.len() && 0 <= j < r.len() && i != j implies #[trigger] r[i].0 != #[trigger] r[j].0 by {
                assert(r[i].0 == m[i].0 && r[j].0 == m[j].0);
            }
        },
        None => {
            assert(names_distinct(Seq::<Seq<char>>::empty()));
            lemma_dedup_distinct(seq![], names);
            assert forall|i: int| 0 <= i < r.len() implies names_distinct(#[trigger] r[i].1) by {
                if i < m.len() {
                    assert(r[i] == m[i]);
                }
            }
            assert forall|i: int, j: int| 0 <= i < r.len() && 0 <= j < r.len() && i != j implies #[trigger] r[i].0 != #[trigger] r[j].0 by {
                if i < m.len() {
                    assert(r[i] == m[i]);
                }
                if j < m.len() {
                    assert(r[j] == m[j]);
                }
            }
        },
    }
}

proof fn lemma_apps_fold_wf(m: CollectionMap, es: Entries)
    requires
        collections_wf(m),
    ensures
        collections_wf(apps_fold(m, es)),
    decreases es.len(),
{
    if es.len() > 0 {
        lemma_apps_fold_wf(m, es.drop_last());
        let prev = apps_fold(m, es.drop_last());
        let id = strip_blank(es.last().0);
        match find_spec(es.last().1, "tags"@) {
            Some(Doc::Object(te)) => lemma_merge_names_wf(prev, id, tag_names(te)),
            _ => {},
        }
    }
}

proof fn lemma_objects_fold_wf(m: CollectionMap, objs: Seq<Doc>)
    requires
        collections_wf(m),
    ensures
        collections_wf(objects_fold(m, objs)),
    decreases objs.len(),
{
    if objs.len() > 0 {
        lemma_objects_fold_wf(m, objs.drop_last());
        lemma_apps_fold_wf(objects_fold(m, objs.drop_last()), crate::path::entries_of(objs.last()));
    }
}

/// The collections of a document form a well-formed map.
pub proof fn lemma_collections_wf(root: Doc)
    ensures
        collections_wf(collections_spec(root)),
{
    lemma_objects_fold_wf(seq![], objects_by_key(root, "apps"@));
}

pub proof fn lemma_merge_all_wf(m: CollectionMap, src: CollectionMap)
    requires
        collections_wf(m),
    ensures
        collections_wf(merge_all(m, src)),
    decreases src.len(),
{
    if src.len() > 0 {
        lemma_merge_all_wf(m, src.drop_last());
        lemma_merge_names_wf(merge_all(m, src.drop_last()), src.last().0, src.last().1);
    }
}

} // verus!
