//! Case-insensitive lookup in a document, and the edits made to it in place.

use vstd::prelude::*;
use crate::text::{chars_of, chars_eq_ignore_case, eq_ci, char_eq_ci};
use crate::vdf::{Doc, VdfValue, doc_of, entries_doc, lemma_entries_doc_index, lemma_entries_doc_push, lemma_entries_doc_update};

verus! {

pub type Entries = Seq<(Seq<char>, Doc)>;

/// The index of the first entry at or after `i` whose key matches `key`
/// ignoring ASCII case.
pub open spec fn first_match_from(es: Entries, key: Seq<char>, i: int) -> Option<int>
    decreases es.len() - i,
{
    if i < 0 || i >= es.len() {
        None
    } else if eq_ci(es[i].0, key) {
        Some(i)
    } else {
        first_match_from(es, key, i + 1)
    }
}

pub open spec fn first_match(es: Entries, key: Seq<char>) -> Option<int> {
    first_match_from(es, key, 0)
}

/// The entries of an object; a text leaf has none.
pub open spec fn entries_of(d: Doc) -> Entries {
    match d {
        Doc::Object(es) => es,
        Doc::Text(_) => seq![],
    }
}

/// The value of the first entry of `d` whose key matches `key`.
pub open spec fn find_spec(d: Doc, key: Seq<char>) -> Option<Doc> {
    match d {
        Doc::Object(es) => match first_match(es, key) {
            Some(i) => Some(es[i].1),
            None => None,
        },
        Doc::Text(_) => None,
    }
}

/// Every object, at any depth below `d`, held by an entry whose key matches
/// `key`, in document order (an entry's value before what lies inside it).
pub open spec fn objects_by_key(d: Doc, key: Seq<char>) -> Seq<Doc>
    decreases d,
{
    match d {
        Doc::Text(_) => seq![],
        Doc::Object(es) => objects_by_key_in(es, key),
    }
}

pub open spec fn objects_by_key_in(es: Entries, key: Seq<char>) -> Seq<Doc>
    decreases es,
{
    if es.len() == 0 {
        seq![]
    } else {
        let e = es[es.len() - 1];
        objects_by_key_in(es.subrange(0, es.len() - 1), key) + (if eq_ci(e.0, key)
            && e.1 is Object {
            seq![e.1]
        } else {
            seq![]
        }) + objects_by_key(e.1, key)
    }
}

/// `d` itself where it is an object, else an empty object.
pub open spec fn narrow(d: Doc) -> Doc {
    match d {
        Doc::Object(_) => d,
        Doc::Text(_) => Doc::Object(seq![]),
    }
}

/// `d` (made an object if it was a leaf) with an object under `key`: the
/// first matching entry, made an object if it held a leaf, or a new empty
/// object appended at the end.
pub open spec fn get_or_insert_spec(d: Doc, key: Seq<char>) -> Doc {
    let es = entries_of(d);
    match first_match(es, key) {
        Some(i) => Doc::Object(es.update(i, (es[i].0, narrow(es[i].1)))),
        None => Doc::Object(es.push((key, Doc::Object(seq![])))),
    }
}

/// `d` with the first entry matching `key` set to the leaf `text`, or such
/// an entry appended.
pub open spec fn set_text_spec(d: Doc, key: Seq<char>, text: Seq<char>) -> Doc {
    let es = entries_of(d);
    match first_match(es, key) {
        Some(i) => Doc::Object(es.update(i, (es[i].0, Doc::Text(text)))),
        None => Doc::Object(es.push((key, Doc::Text(text)))),
    }
}

/// The entries whose key does not match `key`, in order.
pub open spec fn without_key(es: Entries, key: Seq<char>) -> Entries
    decreases es.len(),
{
    if es.len() == 0 {
        es
    } else {
        let r = without_key(es.drop_last(), key);
        if eq_ci(es.last().0, key) {
            r
        } else {
            r.push(es.last())
        }
    }
}

/// `d` without any entry matching `key`; a leaf stays as it is.
pub open spec fn remove_spec(d: Doc, key: Seq<char>) -> Doc {
    match d {
        Doc::Object(es) => Doc::Object(without_key(es, key)),
        Doc::Text(_) => d,
    }
}

/// One edit of an object's entries.
pub enum EntryEdit {
    /// Set the leaf under a key, as `vdf_set_text_entry` does.
    SetText(String, String),
    /// Remove every entry under a key, as `vdf_remove_entry` does.
    Remove(String),
}

pub enum Edit {
    SetText(Seq<char>, Seq<char>),
    Remove(Seq<char>),
}

impl View for EntryEdit {
    type V = Edit;

    open spec fn view(&self) -> Edit {
        match self {
            EntryEdit::SetText(k, t) => Edit::SetText(k@, t@),
            EntryEdit::Remove(k) => Edit::Remove(k@),
        }
    }
}

pub open spec fn apply_edit(d: Doc, e: Edit) -> Doc {
    match e {
        Edit::SetText(k, t) => set_text_spec(d, k, t),
        Edit::Remove(k) => remove_spec(d, k),
    }
}

/// The edits applied one after another.
pub open spec fn apply_edits(d: Doc, es: Seq<Edit>) -> Doc
    decreases es.len(),
{
    if es.len() == 0 {
        d
    } else {
        apply_edit(apply_edits(d, es.drop_last()), es.last())
    }
}

/// `d` with objects ensured along `path` (as `get_or_insert_spec` does at
/// each step) and the edits applied to the object at its end.
pub open spec fn edit_path_spec(d: Doc, path: Seq<Seq<char>>, edits: Seq<Edit>) -> Doc
    decreases path.len(),
{
    if path.len() == 0 {
        apply_edits(d, edits)
    } else {
        let es = entries_of(d);
        let rest = path.drop_first();
        match first_match(es, path[0]) {
            Some(i) => Doc::Object(
                es.update(i, (es[i].0, edit_path_spec(narrow(es[i].1), rest, edits))),
            ),
            None => Doc::Object(
                es.push((path[0], edit_path_spec(Doc::Object(seq![]), rest, edits))),
            ),
        }
    }
}

/// `d` with objects ensured along `path`.
pub open spec fn ensure_path_spec(d: Doc, path: Seq<Seq<char>>) -> Doc {
    edit_path_spec(d, path, seq![])
}

/// The value reached from `d` by following the first match of each key.
pub open spec fn lookup_path(d: Doc, path: Seq<Seq<char>>) -> Option<Doc>
    decreases path.len(),
{
    if path.len() == 0 {
        Some(d)
    } else {
        match find_spec(d, path[0]) {
            Some(c) => lookup_path(c, path.drop_first()),
            None => None,
        }
    }
}

pub open spec fn strs_view(p: Seq<&str>) -> Seq<Seq<char>> {
    p.map_values(|s: &str| s@)
}

pub open spec fn edits_view(p: Seq<EntryEdit>) -> Seq<Edit> {
    p.map_values(|e: EntryEdit| e@)
}

pub proof fn lemma_first_match_from_bounds(es: Entries, key: Seq<char>, i: int)
    requires
        0 <= i,
    ensures
        first_match_from(es, key, i) matches Some(j) ==> i <= j < es.len() && eq_ci(es[j].0, key)
            && forall|m: int| i <= m < j ==> !eq_ci(#[trigger] es[m].0, key),
        first_match_from(es, key, i) is None ==> forall|m: int|
            i <= m < es.len() ==> !eq_ci(#[trigger] es[m].0, key),
    decreases es.len() - i,
{
    if 0 <= i < es.len() && !eq_ci(es[i].0, key) {
        lemma_first_match_from_bounds(es, key, i + 1);
    }
}

pub proof fn lemma_first_match_bounds(es: Entries, key: Seq<char>)
    ensures
        first_match(es, key) matches Some(j) ==> 0 <= j < es.len() && eq_ci(es[j].0, key)
            && forall|m: int| 0 <= m < j ==> !eq_ci(#[trigger] es[m].0, key),
        first_match(es, key) is None ==> forall|m: int|
            0 <= m < es.len() ==> !eq_ci(#[trigger] es[m].0, key),
{
    lemma_first_match_from_bounds(es, key, 0);
}

/// The index of the first entry whose key matches `key` ignoring ASCII case.
pub fn position_of_key(entries: &Vec<(String, VdfValue)>, key: &[char]) -> (r: Option<usize>)
    ensures
        match r {
            Some(j) => first_match(entries_doc(entries@), key@) == Some(j as int),
            None => first_match(entries_doc(entries@), key@) is None,
        },
{
    let ghost ed = entries_doc(entries@);
    proof {
        lemma_entries_doc_index(entries@);
    }
    let mut i: usize = 0;
    while i < entries.len()
        invariant
            0 <= i <= entries@.len(),
            ed == entries_doc(entries@),
            ed.len() == entries@.len(),
            forall|j: int| 0 <= j < entries@.len() ==> #[trigger] ed[j] == (entries@[j].0@, doc_of(entries@[j].1)),
            first_match_from(ed, key@, i as int) == first_match(ed, key@),
        decreases entries@.len() - i,
    {
        let k = chars_of(entries[i].0.as_str());
        assert(ed[i as int].0 == k@);
        if chars_eq_ignore_case(k.as_slice(), key) {
            return Some(i);
        }
        i = i + 1;
    }
    None
}

/// The value of the first entry matching `key`, where `value` is an object.
pub fn vdf_find_object_value<'a>(value: &'a VdfValue, key: &str) -> (r: Option<&'a VdfValue>)
    ensures
        match r {
            Some(v) => find_spec(value@, key@) == Some(v@),
            None => find_spec(value@, key@) is None,
        },
{
    match value {
        VdfValue::Object(entries) => {
            let k = chars_of(key);
            assert(value@ == Doc::Object(entries_doc(entries@)));
            match position_of_key(entries, k.as_slice()) {
                Some(i) => {
                    proof {
                        lemma_entries_doc_index(entries@);
                        lemma_first_match_bounds(entries_doc(entries@), key@);
                    }
                    let r = &entries[i].1;
                    assert(r@ == entries_doc(entries@)[i as int].1);
                    Some(r)
                },
                None => None,
            }
        },
        VdfValue::Text(_) => None,
    }
}

pub open spec fn refs_doc<'a>(v: Seq<&'a VdfValue>) -> Seq<Doc> {
    v.map_values(|r: &'a VdfValue| r@)
}

/// Appends every object held, at any depth below `value`, by an entry whose
/// key matches `key`.
#[verifier::loop_isolation(false)]
pub fn vdf_collect_objects_by_key<'a>(value: &'a VdfValue, key: &str, output: &mut Vec<&'a VdfValue>)
    ensures
        refs_doc(final(output)@) == refs_doc(old(output)@) + objects_by_key(value@, key@),
    decreases value,
{
    match value {
        VdfValue::Text(_) => {
            assert(refs_doc(output@) =~= refs_doc(old(output)@) + objects_by_key(value@, key@));
        },
        VdfValue::Object(entries) => {
            let k = chars_of(key);
            let mut i: usize = 0;
            assert(entries_doc(entries@.subrange(0, 0)) =~= seq![]);
            assert(refs_doc(output@) =~= refs_doc(old(output)@) + objects_by_key_in(
                entries_doc(entries@.subrange(0, 0)),
                key@,
            ));
            while i < entries.len()
                invariant
                    0 <= i <= entries@.len(),
                    refs_doc(output@) == refs_doc(old(output)@) + objects_by_key_in(
                        entries_doc(entries@.subrange(0, i as int)),
                        key@,
                    ),
                decreases entries@.len() - i,
            {
                let ghost before = refs_doc(output@);
                proof {
                    crate::vdf::lemma_entries_doc_prefix(entries@, i as int);
                }
                let ek = chars_of(entries[i].0.as_str());
                let child = &entries[i].1;
                if chars_eq_ignore_case(ek.as_slice(), k.as_slice()) {
                    if let VdfValue::Object(_) = child {
                        output.push(child);
                    }
                }
                assert(refs_doc(output@) =~= before + (if eq_ci(entries@[i as int].0@, key@)
                    && doc_of(entries@[i as int].1) is Object {
                    seq![doc_of(entries@[i as int].1)]
                } else {
                    seq![]
                }));
                proof {
                    let es = *entries;
                    assert(decreases_to!(*value => es));
                    assert(decreases_to!(es => es@));
                    assert(decreases_to!(es@ => es@[i as int]));
                    assert(decreases_to!(es@[i as int] => es@[i as int].1));
                }
                let ghost mid = refs_doc(output@);
                vdf_collect_objects_by_key(child, key, output);
                i = i + 1;
                assert(refs_doc(output@) =~= refs_doc(old(output)@) + objects_by_key_in(
                    entries_doc(entries@.subrange(0, i as int)),
                    key@,
                ));
            }
            assert(entries@.subrange(0, i as int) =~= entries@);
        },
    }
}


/// Turns a leaf into an empty object; an object stays as it is.
fn make_object(value: &mut VdfValue)
    ensures
        final(value)@ == narrow(old(value)@),
        *final(value) is Object,
{
    let is_text = match value {
        VdfValue::Text(_) => true,
        VdfValue::Object(_) => false,
    };
    if is_text {
        let empty: Vec<(String, VdfValue)> = Vec::new();
        assert(entries_doc(empty@) =~= seq![]);
        *value = VdfValue::Object(empty);
        assert(final(value)@ =~= narrow(old(value)@));
    }
}

pub proof fn lemma_eq_ci_refl(a: Seq<char>)
    ensures
        eq_ci(a, a),
{
    assert forall|i: int| 0 <= i < a.len() implies #[trigger] char_eq_ci(a[i], a[i]) by {}
}

/// Makes `value` an object (a leaf becomes an empty one) holding an object
/// under `key`: the first matching entry, made an empty object if it held a
/// leaf, or a new empty object appended. Returns that entry's index.
pub fn vdf_get_or_insert_object_mut(value: &mut VdfValue, key: &str) -> (r: usize)
    ensures
        final(value)@ == get_or_insert_spec(old(value)@, key@),
        *final(value) is Object,
        r < entries_of(final(value)@).len(),
        first_match(entries_of(final(value)@), key@) == Some(r as int),
{
    make_object(value);
    let ghost mid = value@;
    match value {
        VdfValue::Object(entries) => {
            let k = chars_of(key);
            proof {
                lemma_entries_doc_index(entries@);
                lemma_first_match_bounds(entries_doc(entries@), key@);
            }
            match position_of_key(entries, k.as_slice()) {
                Some(i) => {
                    let is_text = match &entries[i].1 {
                        VdfValue::Text(_) => true,
                        VdfValue::Object(_) => false,
                    };
                    if is_text {
                        let ek = entries[i].0.clone();
                        let empty: Vec<(String, VdfValue)> = Vec::new();
                        assert(entries_doc(empty@) =~= seq![]);
                        let e = (ek, VdfValue::Object(empty));
                        proof {
                            lemma_entries_doc_update(entries@, i as int, e);
                        }
                        entries.set(i, e);
                    }
                    proof {
                        let es = entries_of(mid);
                        assert(entries_doc(entries@) =~= es.update(i as int, (es[i as int].0, narrow(es[i as int].1))));
                        lemma_first_match_from_unchanged(es, entries_doc(entries@), key@, i as int);
                    }
                    i
                },
                None => {
                    let ghost es = entries_of(mid);
                    let empty: Vec<(String, VdfValue)> = Vec::new();
                    assert(entries_doc(empty@) =~= seq![]);
                    let e = (key.to_owned(), VdfValue::Object(empty));
                    proof {
                        lemma_entries_doc_push(entries@, e);
                    }
                    entries.push(e);
                    proof {
                        let ne = entries_doc(entries@);
                        assert(ne =~= es.push((key@, Doc::Object(seq![]))));
                        lemma_eq_ci_refl(key@);
                        lemma_first_match_append(es, key@, (key@, Doc::Object(seq![])));
                    }
                    entries.len() - 1
                },
            }
        },
        VdfValue::Text(_) => {
            proof {
                assert(false);
            }
            0
        },
    }
}

/// Where no entry before `i` changed its key, nor entry `i`, the first match
/// is still `i`.
pub proof fn lemma_first_match_from_unchanged(a: Entries, b: Entries, key: Seq<char>, i: int)
    requires
        first_match(a, key) == Some(i),
        a.len() <= b.len(),
        forall|m: int| 0 <= m <= i ==> #[trigger] b[m].0 == a[m].0,
    ensures
        first_match(b, key) == Some(i),
{
    lemma_first_match_bounds(a, key);
    lemma_first_match_bounds(b, key);
    if first_match(b, key) is None {
        assert(!eq_ci(b[i].0, key));
    } else {
        let j = first_match(b, key)->0;
        if j < i {
            assert(b[j].0 == a[j].0);
        } else if j > i {
            assert(b[i].0 == a[i].0);
        }
    }
}

proof fn lemma_first_match_append(a: Entries, key: Seq<char>, e: (Seq<char>, Doc))
    requires
        first_match(a, key) is None,
        eq_ci(e.0, key),
    ensures
        first_match(a.push(e), key) == Some(a.len() as int),
{
    lemma_first_match_bounds(a, key);
    lemma_first_match_bounds(a.push(e), key);
    let b = a.push(e);
    if first_match(b, key) is None {
        assert(!eq_ci(b[a.len() as int].0, key));
    } else {
        let j = first_match(b, key)->0;
        if j < a.len() {
            assert(b[j] == a[j]);
        }
    }
}

/// Sets the leaf under `key` to `text`: the first matching entry is
/// replaced, or a new entry appended. A leaf `value` becomes an object first.
pub fn vdf_set_text_entry(value: &mut VdfValue, key: &str, text: &str)
    ensures
        final(value)@ == set_text_spec(old(value)@, key@, text@),
{
    make_object(value);
    match value {
        VdfValue::Object(entries) => {
            let k = chars_of(key);
            proof {
                lemma_first_match_bounds(entries_doc(entries@), key@);
                lemma_entries_doc_index(entries@);
            }
            match position_of_key(entries, k.as_slice()) {
                Some(i) => {
                    let ek = entries[i].0.clone();
                    let e = (ek, VdfValue::Text(text.to_owned()));
                    proof {
                        lemma_entries_doc_update(entries@, i as int, e);
                    }
                    entries.set(i, e);
                },
                None => {
                    let e = (key.to_owned(), VdfValue::Text(text.to_owned()));
                    proof {
                        lemma_entries_doc_push(entries@, e);
                    }
                    entries.push(e);
                },
            }
        },
        VdfValue::Text(_) => {
            proof {
                assert(false);
            }
        },
    }
}

/// Removes every entry under `key`; the others keep their order. A leaf
/// `value` is left as it is.
pub fn vdf_remove_entry(value: &mut VdfValue, key: &str)
    ensures
        final(value)@ == remove_spec(old(value)@, key@),
{
    match value {
        VdfValue::Object(entries) => {
            let k = chars_of(key);
            let ghost orig = entries@;
            let ghost n = orig.len();
            let mut i: usize = 0;
            let ghost mut j: int = 0;
            assert(entries_doc(entries@.subrange(0, 0)) =~= seq![]);
            assert(entries_doc(orig.subrange(0, 0)) =~= seq![]);
            while i < entries.len()
                invariant
                    k@ == key@,
                    0 <= i <= j <= n == orig.len(),
                    entries@.len() - i == n - j,
                    entries@.subrange(i as int, entries@.len() as int) == orig.subrange(j, n as int),
                    entries_doc(entries@.subrange(0, i as int)) == without_key(
                        entries_doc(orig.subrange(0, j)),
                        key@,
                    ),
                decreases entries@.len() - i,
            {
                assert(entries@[i as int] == orig[j]) by {
                    assert(entries@.subrange(i as int, entries@.len() as int)[0] == orig.subrange(j, n as int)[0]);
                }
                proof {
                    crate::vdf::lemma_entries_doc_prefix(orig, j);
                    let ej = entries_doc(orig.subrange(0, j + 1));
                    assert(ej.drop_last() =~= entries_doc(orig.subrange(0, j)));
                    assert(ej.last() == (orig[j].0@, doc_of(orig[j].1)));
                    if eq_ci(orig[j].0@, key@) {
                        assert(without_key(ej, key@) == without_key(entries_doc(orig.subrange(0, j)), key@));
                    } else {
                        assert(without_key(ej, key@) == without_key(entries_doc(orig.subrange(0, j)), key@).push(ej.last()));
                    }
                }
                let ek = chars_of(entries[i].0.as_str());
                if chars_eq_ignore_case(ek.as_slice(), k.as_slice()) {
                    let ghost before = entries@;
                    entries.remove(i);
                    assert(entries@.subrange(0, i as int) =~= before.subrange(0, i as int));
                    assert(entries_doc(entries@.subrange(0, i as int)) == without_key(
                        entries_doc(orig.subrange(0, j + 1)),
                        key@,
                    ));
                    assert(entries@.subrange(i as int, entries@.len() as int) =~= orig.subrange(j + 1, n as int)) by {
                        assert(before.subrange(i as int, before.len() as int) == orig.subrange(j, n as int));
                        assert forall|m: int| 0 <= m < entries@.len() - i implies #[trigger] entries@.subrange(i as int, entries@.len() as int)[m] == orig.subrange(j + 1, n as int)[m] by {
                            assert(entries@[i + m] == before[i + m + 1]);
                            assert(before.subrange(i as int, before.len() as int)[m + 1] == before[i + m + 1]);
                        }
                    }
                } else {
                    proof {
                        crate::vdf::lemma_entries_doc_prefix(entries@, i as int);
                        assert(entries@.subrange(i + 1, entries@.len() as int) =~= orig.subrange(j + 1, n as int)) by {
                            assert forall|m: int| 0 <= m < entries@.len() - i - 1 implies #[trigger] entries@.subrange(i + 1, entries@.len() as int)[m] == orig.subrange(j + 1, n as int)[m] by {
                                assert(entries@.subrange(i as int, entries@.len() as int)[m + 1] == orig.subrange(j, n as int)[m + 1]);
                            }
                        }
                    }
                    i = i + 1;
                    assert(entries_doc(entries@.subrange(0, i as int)) == without_key(
                        entries_doc(orig.subrange(0, j + 1)),
                        key@,
                    ));
                }
                proof {
                    j = j + 1;
                }
            }
            assert(entries@.subrange(0, i as int) =~= entries@);
            assert(orig.subrange(0, j) =~= orig);
        },
        VdfValue::Text(_) => {},
    }
}


/// Applies the edits in order to `value`.
pub fn vdf_apply_entry_edits(value: &mut VdfValue, edits: &[EntryEdit])
    ensures
        final(value)@ == apply_edits(old(value)@, edits_view(edits@)),
{
    let mut i: usize = 0;
    assert(edits_view(edits@).subrange(0, 0) =~= seq![]);
    while i < edits.len()
        invariant
            0 <= i <= edits@.len(),
            value@ == apply_edits(old(value)@, edits_view(edits@).subrange(0, i as int)),
        decreases edits@.len() - i,
    {
        let ghost ev = edits_view(edits@);
        assert(ev.subrange(0, i + 1).drop_last() =~= ev.subrange(0, i as int));
        assert(ev[i as int] == edits@[i as int]@);
        match &edits[i] {
            EntryEdit::SetText(k, t) => vdf_set_text_entry(value, k.as_str(), t.as_str()),
            EntryEdit::Remove(k) => vdf_remove_entry(value, k.as_str()),
        }
        i = i + 1;
    }
    assert(edits_view(edits@).subrange(0, i as int) =~= edits_view(edits@));
}

fn edit_path_from(value: &mut VdfValue, path: &[&str], start: usize, edits: &[EntryEdit])
    requires
        start <= path@.len(),
    ensures
        final(value)@ == edit_path_spec(
            old(value)@,
            strs_view(path@).subrange(start as int, path@.len() as int),
            edits_view(edits@),
        ),
    decreases path@.len() - start,
{
    let ghost p = strs_view(path@).subrange(start as int, path@.len() as int);
    if start >= path.len() {
        assert(p.len() == 0);
        vdf_apply_entry_edits(value, edits);
        return;
    }
    let ghost d0 = value@;
    let ghost es0 = entries_of(d0);
    assert(p[0] == path@[start as int]@);
    assert(p.drop_first() =~= strs_view(path@).subrange(start + 1, path@.len() as int));
    proof {
        lemma_first_match_bounds(es0, p[0]);
    }
    let i = vdf_get_or_insert_object_mut(value, path[start]);
    match value {
        VdfValue::Object(entries) => {
            let ghost es1 = entries_doc(entries@);
            proof {
                lemma_entries_doc_index(entries@);
            }
            let ghost before = entries@;
            assert(es1[i as int].1 == doc_of(before[i as int].1));
            edit_path_from(&mut entries[i].1, path, start + 1, edits);
            proof {
                lemma_entries_doc_update(before, i as int, entries@[i as int]);
                assert(entries@ =~= before.update(i as int, entries@[i as int]));
                assert(entries_of(value@) == es1.update(i as int, (es1[i as int].0, edit_path_spec(es1[i as int].1, p.drop_first(), edits_view(edits@)))));
            }
        },
        VdfValue::Text(_) => {
            proof {
                assert(false);
            }
        },
    }
    proof {
        let es2 = entries_of(value@);
        let spec = edit_path_spec(d0, p, edits_view(edits@));
        let es1 = entries_of(get_or_insert_spec(d0, p[0]));
        match first_match(es0, p[0]) {
            Some(j) => {
                assert forall|m: int| 0 <= m <= j implies #[trigger] es1[m].0 == es0[m].0 by {}
                lemma_first_match_from_unchanged(es0, es1, p[0], j);
                assert(i == j);
                assert(es2 =~= entries_of(spec));
            },
            None => {
                lemma_eq_ci_refl(p[0]);
                lemma_first_match_append(es0, p[0], (p[0], Doc::Object(seq![])));
                assert(i == es0.len());
                assert(es2 =~= entries_of(spec));
            },
        }
    }
}

/// Ensures an object at each key of `path` in turn (as
/// `vdf_get_or_insert_object_mut` does) and applies the edits to the object
/// at its end. Entries off the path keep their place and value.
pub fn vdf_edit_object_path(value: &mut VdfValue, path: &[&str], edits: &[EntryEdit])
    ensures
        final(value)@ == edit_path_spec(old(value)@, strs_view(path@), edits_view(edits@)),
{
    assert(strs_view(path@).subrange(0, path@.len() as int) =~= strs_view(path@));
    edit_path_from(value, path, 0, edits);
}

/// Ensures an object at each key of `path` in turn; a leaf met on the way is
/// replaced by an empty object.
pub fn vdf_ensure_object_path_mut(value: &mut VdfValue, path: &[&str])
    ensures
        final(value)@ == ensure_path_spec(old(value)@, strs_view(path@)),
{
    let none: Vec<EntryEdit> = Vec::new();
    assert(edits_view(none@) =~= seq![]);
    vdf_edit_object_path(value, path, none.as_slice());
}


proof fn lemma_eq_ci_swap_key(a: Seq<char>, k1: Seq<char>, k2: Seq<char>)
    requires
        eq_ci(k1, k2),
    ensures
        eq_ci(a, k1) == eq_ci(a, k2),
{
    if eq_ci(a, k1) {
        assert forall|i: int| 0 <= i < a.len() implies #[trigger] char_eq_ci(a[i], k2[i]) by {
            assert(char_eq_ci(a[i], k1[i]));
            assert(char_eq_ci(k1[i], k2[i]));
        }
    }
    if eq_ci(a, k2) {
        assert forall|i: int| 0 <= i < a.len() implies #[trigger] char_eq_ci(a[i], k1[i]) by {
            assert(char_eq_ci(a[i], k2[i]));
            assert(char_eq_ci(k1[i], k2[i]));
        }
    }
}

proof fn lemma_first_match_from_ignores_case(es: Entries, k1: Seq<char>, k2: Seq<char>, i: int)
    requires
        eq_ci(k1, k2),
    ensures
        first_match_from(es, k1, i) == first_match_from(es, k2, i),
    decreases es.len() - i,
{
    if 0 <= i < es.len() {
        lemma_eq_ci_swap_key(es[i].0, k1, k2);
        lemma_first_match_from_ignores_case(es, k1, k2, i + 1);
    }
}

/// Lookup ignores ASCII case: two keys that differ only in the case of
/// ASCII letters find the same value in any document.
pub proof fn lemma_find_ignores_case(d: Doc, k1: Seq<char>, k2: Seq<char>)
    requires
        eq_ci(k1, k2),
    ensures
        find_spec(d, k1) == find_spec(d, k2),
{
    lemma_first_match_from_ignores_case(entries_of(d), k1, k2, 0);
}

/// After ensuring a path, following the first match of each of its keys
/// reaches an object.
pub proof fn lemma_ensure_path_reaches_object(d: Doc, path: Seq<Seq<char>>)
    requires
        path.len() > 0 || d is Object,
    ensures
        lookup_path(ensure_path_spec(d, path), path) matches Some(o) && o is Object,
    decreases path.len(),
{
    if path.len() > 0 {
        let es = entries_of(d);
        let rest = path.drop_first();
        let r = ensure_path_spec(d, path);
        let es2 = entries_of(r);
        lemma_first_match_bounds(es, path[0]);
        match first_match(es, path[0]) {
            Some(i) => {
                assert forall|m: int| 0 <= m <= i implies #[trigger] es2[m].0 == es[m].0 by {}
                lemma_first_match_from_unchanged(es, es2, path[0], i);
                lemma_ensure_path_reaches_object(narrow(es[i].1), rest);
            },
            None => {
                lemma_eq_ci_refl(path[0]);
                lemma_first_match_append(
                    es,
                    path[0],
                    (path[0], ensure_path_spec(Doc::Object(seq![]), rest)),
                );
                lemma_ensure_path_reaches_object(Doc::Object(seq![]), rest);
            },
        }
    }
}

/// Ensuring a path whose first key holds a leaf raises no error: the leaf is
/// replaced by an empty object, in which the rest of the path is ensured.
pub proof fn lemma_ensure_path_narrows_leaf(d: Doc, path: Seq<Seq<char>>)
    requires
        path.len() > 0,
        find_spec(d, path[0]) matches Some(v) && v is Text,
    ensures
        find_spec(ensure_path_spec(d, path), path[0]) == Some(
            ensure_path_spec(Doc::Object(seq![]), path.drop_first()),
        ),
{
    let es = entries_of(d);
    let es2 = entries_of(ensure_path_spec(d, path));
    lemma_first_match_bounds(es, path[0]);
    let i = first_match(es, path[0])->0;
    assert forall|m: int| 0 <= m <= i implies #[trigger] es2[m].0 == es[m].0 by {}
    lemma_first_match_from_unchanged(es, es2, path[0], i);
}


// ---------------------------------------------------------------------------
// Edits that have already been made
// ---------------------------------------------------------------------------

pub proof fn lemma_eq_ci_link(a: Seq<char>, p: Seq<char>, q: Seq<char>)
    requires
        eq_ci(a, p),
        eq_ci(a, q),
    ensures
        eq_ci(p, q),
        eq_ci(q, p),
{
    assert forall|i: int| 0 <= i < p.len() implies #[trigger] char_eq_ci(p[i], q[i]) by {
        assert(char_eq_ci(a[i], p[i]));
        assert(char_eq_ci(a[i], q[i]));
    }
    assert forall|i: int| 0 <= i < q.len() implies #[trigger] char_eq_ci(q[i], p[i]) by {
        assert(char_eq_ci(a[i], p[i]));
        assert(char_eq_ci(a[i], q[i]));
    }
}

/// The value of the first entry matching `key`.
pub open spec fn find_in(es: Entries, key: Seq<char>) -> Option<Doc> {
    match first_match(es, key) {
        Some(i) => Some(es[i].1),
        None => None,
    }
}

proof fn lemma_find_in_push(es: Entries, e: (Seq<char>, Doc), key: Seq<char>)
    ensures
        find_in(es.push(e), key) == (if find_in(es, key) is Some {
            find_in(es, key)
        } else if eq_ci(e.0, key) {
            Some(e.1)
        } else {
            None
        }),
{
    let b = es.push(e);
    lemma_first_match_bounds(es, key);
    lemma_first_match_bounds(b, key);
    match first_match(es, key) {
        Some(i) => {
            assert forall|m: int| 0 <= m <= i implies #[trigger] b[m].0 == es[m].0 by {}
            lemma_first_match_from_unchanged(es, b, key, i);
        },
        None => {
            if eq_ci(e.0, key) {
                lemma_first_match_append(es, key, e);
            } else if first_match(b, key) is Some {
                let j = first_match(b, key)->0;
                if j < es.len() {
                    assert(b[j] == es[j]);
                }
            }
        },
    }
}

proof fn lemma_find_in_without(es: Entries, kf: Seq<char>, key: Seq<char>)
    requires
        !eq_ci(key, kf),
    ensures
        find_in(without_key(es, kf), key) == find_in(es, key),
    decreases es.len(),
{
    if es.len() > 0 {
        let pre = es.drop_last();
        let last = es.last();
        assert(es =~= pre.push(last));
        lemma_find_in_without(pre, kf, key);
        lemma_find_in_push(pre, last, key);
        if eq_ci(last.0, kf) {
            if eq_ci(last.0, key) {
                lemma_eq_ci_link(last.0, kf, key);
            }
        } else {
            lemma_find_in_push(without_key(pre, kf), last, key);
        }
    }
}

proof fn lemma_find_in_without_self(es: Entries, k: Seq<char>)
    ensures
        find_in(without_key(es, k), k) is None,
    decreases es.len(),
{
    if es.len() > 0 {
        let pre = es.drop_last();
        let last = es.last();
        lemma_find_in_without_self(pre, k);
        if !eq_ci(last.0, k) {
            lemma_find_in_push(without_key(pre, k), last, k);
        }
    }
}

proof fn lemma_without_absent(es: Entries, k: Seq<char>)
    requires
        find_in(es, k) is None,
    ensures
        without_key(es, k) == es,
    decreases es.len(),
{
    if es.len() > 0 {
        let pre = es.drop_last();
        let last = es.last();
        assert(es =~= pre.push(last));
        lemma_find_in_push(pre, last, k);
        lemma_without_absent(pre, k);
    }
}

/// What an edit leaves in place: the leaf it sets, or no entry under the
/// key it removes.
pub open spec fn holds(x: Doc, e: Edit) -> bool {
    x is Object && match e {
        Edit::SetText(k, t) => find_in(entries_of(x), k) == Some(Doc::Text(t)),
        Edit::Remove(k) => find_in(entries_of(x), k) is None,
    }
}

pub open spec fn edit_key(e: Edit) -> Seq<char> {
    match e {
        Edit::SetText(k, _) => k,
        Edit::Remove(k) => k,
    }
}

proof fn lemma_edit_keeps_other(x: Doc, f: Edit, key: Seq<char>)
    requires
        x is Object,
        !eq_ci(key, edit_key(f)),
    ensures
        apply_edit(x, f) is Object,
        find_in(entries_of(apply_edit(x, f)), key) == find_in(entries_of(x), key),
{
    let es = entries_of(x);
    match f {
        Edit::SetText(kf, tf) => {
            lemma_first_match_bounds(es, kf);
            match first_match(es, kf) {
                Some(j) => {
                    let b = es.update(j, (es[j].0, Doc::Text(tf)));
                    lemma_first_match_bounds(es, key);
                    lemma_first_match_bounds(b, key);
                    match first_match(es, key) {
                        Some(i) => {
                            if i == j {
                                lemma_eq_ci_link(es[i].0, key, kf);
                            }
                            assert forall|m: int| 0 <= m <= i implies #[trigger] b[m].0
                                == es[m].0 by {}
                            lemma_first_match_from_unchanged(es, b, key, i);
                        },
                        None => {
                            if first_match(b, key) is Some {
                                let m = first_match(b, key)->0;
                                assert(b[m].0 == es[m].0);
                            }
                        },
                    }
                },
                None => {
                    lemma_find_in_push(es, (kf, Doc::Text(tf)), key);
                    if eq_ci(kf, key) {
                        lemma_eq_ci_refl(kf);
                        lemma_eq_ci_link(kf, kf, key);
                    }
                },
            }
        },
        Edit::Remove(kf) => {
            lemma_find_in_without(es, kf, key);
        },
    }
}

proof fn lemma_edit_holds(x: Doc, e: Edit)
    requires
        x is Object,
    ensures
        holds(apply_edit(x, e), e),
{
    let es = entries_of(x);
    match e {
        Edit::SetText(k, t) => {
            lemma_first_match_bounds(es, k);
            match first_match(es, k) {
                Some(j) => {
                    let b = es.update(j, (es[j].0, Doc::Text(t)));
                    assert forall|m: int| 0 <= m <= j implies #[trigger] b[m].0 == es[m].0 by {}
                    lemma_first_match_from_unchanged(es, b, k, j);
                },
                None => {
                    lemma_eq_ci_refl(k);
                    lemma_first_match_append(es, k, (k, Doc::Text(t)));
                },
            }
        },
        Edit::Remove(k) => {
            lemma_find_in_without_self(es, k);
        },
    }
}

proof fn lemma_holds_fixed(x: Doc, e: Edit)
    requires
        holds(x, e),
    ensures
        apply_edit(x, e) == x,
{
    let es = entries_of(x);
    match e {
        Edit::SetText(k, t) => {
            let i = first_match(es, k)->0;
            lemma_first_match_bounds(es, k);
            assert(es.update(i, (es[i].0, Doc::Text(t))) =~= es);
        },
        Edit::Remove(k) => {
            lemma_without_absent(es, k);
        },
    }
}

/// No two edits touch keys that are equal ignoring ASCII case.
pub open spec fn keys_apart(es: Seq<Edit>) -> bool {
    forall|i: int, j: int|
        0 <= i < es.len() && 0 <= j < es.len() && i != j ==> !eq_ci(
            #[trigger] edit_key(es[i]),
            #[trigger] edit_key(es[j]),
        )
}

proof fn lemma_edits_all_hold(x: Doc, es: Seq<Edit>)
    requires
        x is Object,
        keys_apart(es),
    ensures
        apply_edits(x, es) is Object,
        forall|j: int| 0 <= j < es.len() ==> holds(apply_edits(x, es), #[trigger] es[j]),
    decreases es.len(),
{
    if es.len() > 0 {
        let pre = es.drop_last();
        assert(keys_apart(pre)) by {
            assert forall|i: int, j: int|
                0 <= i < pre.len() && 0 <= j < pre.len() && i != j implies !eq_ci(
                #[trigger] edit_key(pre[i]),
                #[trigger] edit_key(pre[j]),
            ) by {
                assert(pre[i] == es[i] && pre[j] == es[j]);
            }
        }
        lemma_edits_all_hold(x, pre);
        let y = apply_edits(x, pre);
        let last = es.last();
        lemma_edit_holds(y, last);
        assert forall|j: int| 0 <= j < es.len() implies holds(apply_edits(x, es), #[trigger] es[j]) by {
            if j < es.len() - 1 {
                assert(pre[j] == es[j]);
                assert(holds(y, es[j]));
                assert(!eq_ci(edit_key(es[j]), edit_key(es[es.len() - 1])));
                lemma_edit_keeps_other(y, last, edit_key(es[j]));
            }
        }
    }
}

proof fn lemma_edits_fixed(x: Doc, es: Seq<Edit>)
    requires
        forall|j: int| 0 <= j < es.len() ==> holds(x, #[trigger] es[j]),
    ensures
        apply_edits(x, es) == x,
    decreases es.len(),
{
    if es.len() > 0 {
        let pre = es.drop_last();
        assert forall|j: int| 0 <= j < pre.len() implies holds(x, #[trigger] pre[j]) by {
            assert(pre[j] == es[j]);
        }
        lemma_edits_fixed(x, pre);
        assert(holds(x, es[es.len() - 1]));
        lemma_holds_fixed(x, es.last());
    }
}

/// Edits on distinct keys, made twice to an object, change it no more than
/// made once.
pub proof fn lemma_edits_idempotent(x: Doc, es: Seq<Edit>)
    requires
        x is Object,
        keys_apart(es),
    ensures
        apply_edits(apply_edits(x, es), es) == apply_edits(x, es),
        apply_edits(x, es) is Object,
{
    lemma_edits_all_hold(x, es);
    lemma_edits_fixed(apply_edits(x, es), es);
}

/// Every key of `path` is found, each on an object, and the edits change
/// nothing at its end.
pub open spec fn settled(d: Doc, path: Seq<Seq<char>>, edits: Seq<Edit>) -> bool
    decreases path.len(),
{
    if path.len() == 0 {
        apply_edits(d, edits) == d
    } else {
        d is Object && match first_match(entries_of(d), path[0]) {
            Some(i) => entries_of(d)[i].1 is Object && settled(
                entries_of(d)[i].1,
                path.drop_first(),
                edits,
            ),
            None => false,
        }
    }
}

pub proof fn lemma_settled_fixed(d: Doc, path: Seq<Seq<char>>, edits: Seq<Edit>)
    requires
        settled(d, path, edits),
    ensures
        edit_path_spec(d, path, edits) == d,
    decreases path.len(),
{
    if path.len() > 0 {
        let es = entries_of(d);
        let i = first_match(es, path[0])->0;
        lemma_first_match_bounds(es, path[0]);
        lemma_settled_fixed(es[i].1, path.drop_first(), edits);
        assert(es.update(i, (es[i].0, es[i].1)) =~= es);
    }
}

pub proof fn lemma_edit_path_settles(d: Doc, path: Seq<Seq<char>>, edits: Seq<Edit>)
    requires
        path.len() > 0,
        keys_apart(edits),
    ensures
        settled(edit_path_spec(d, path, edits), path, edits),
    decreases path.len(),
{
    let es = entries_of(d);
    let rest = path.drop_first();
    let r = edit_path_spec(d, path, edits);
    let es2 = entries_of(r);
    lemma_first_match_bounds(es, path[0]);
    let i = match first_match(es, path[0]) {
        Some(i) => {
            assert forall|m: int| 0 <= m <= i implies #[trigger] es2[m].0 == es[m].0 by {}
            lemma_first_match_from_unchanged(es, es2, path[0], i);
            i
        },
        None => {
            lemma_eq_ci_refl(path[0]);
            lemma_first_match_append(
                es,
                path[0],
                (path[0], edit_path_spec(Doc::Object(seq![]), rest, edits)),
            );
            es.len() as int
        },
    };
    let child = if i < es.len() {
        narrow(es[i].1)
    } else {
        Doc::Object(seq![])
    };
    assert(es2[i].1 == edit_path_spec(child, rest, edits));
    assert(child is Object);
    if rest.len() == 0 {
        lemma_edits_idempotent(child, edits);
        assert(es2[i].1 == apply_edits(child, edits));
    } else {
        lemma_edit_path_settles(child, rest, edits);
        assert(es2[i].1 is Object);
    }
    assert(settled(es2[i].1, rest, edits));
    assert(first_match(es2, path[0]) == Some(i));
    assert(r is Object);
}

/// Two paths that part at some key (their keys before it equal, those at it
/// different ignoring ASCII case).
pub open spec fn paths_part(p: Seq<Seq<char>>, q: Seq<Seq<char>>) -> bool
    decreases p.len(),
{
    p.len() > 0 && q.len() > 0 && if p[0] == q[0] {
        paths_part(p.drop_first(), q.drop_first())
    } else {
        !eq_ci(p[0], q[0])
    }
}

/// Editing along one path leaves what is settled along a path that parts
/// from it settled.
pub proof fn lemma_edit_path_frame(
    d: Doc,
    p: Seq<Seq<char>>,
    ep: Seq<Edit>,
    q: Seq<Seq<char>>,
    eq: Seq<Edit>,
)
    requires
        paths_part(p, q),
        settled(d, q, eq),
    ensures
        settled(edit_path_spec(d, p, ep), q, eq),
    decreases p.len(),
{
    let es = entries_of(d);
    let r = edit_path_spec(d, p, ep);
    let es2 = entries_of(r);
    let iq = first_match(es, q[0])->0;
    lemma_first_match_bounds(es, q[0]);
    lemma_first_match_bounds(es, p[0]);
    if p[0] == q[0] {
        assert forall|m: int| 0 <= m <= iq implies #[trigger] es2[m].0 == es[m].0 by {}
        lemma_first_match_from_unchanged(es, es2, q[0], iq);
        lemma_edit_path_frame(es[iq].1, p.drop_first(), ep, q.drop_first(), eq);
    } else {
        match first_match(es, p[0]) {
            Some(j) => {
                if j == iq {
                    lemma_eq_ci_link(es[j].0, p[0], q[0]);
                }
            },
            None => {},
        }
        assert forall|m: int| 0 <= m <= iq implies #[trigger] es2[m].0 == es[m].0 by {}
        lemma_first_match_from_unchanged(es, es2, q[0], iq);
        assert(es2[iq] == es[iq]);
    }
}


proof fn lemma_without_shorter(es: Entries, k: Seq<char>)
    requires
        find_in(es, k) is Some,
    ensures
        without_key(es, k).len() < es.len(),
    decreases es.len(),
{
    let pre = es.drop_last();
    let last = es.last();
    assert(es =~= pre.push(last));
    lemma_find_in_push(pre, last, k);
    lemma_without_len(pre, k);
    if find_in(pre, k) is Some {
        lemma_without_shorter(pre, k);
    }
}

proof fn lemma_without_len(es: Entries, k: Seq<char>)
    ensures
        without_key(es, k).len() <= es.len(),
    decreases es.len(),
{
    if es.len() > 0 {
        lemma_without_len(es.drop_last(), k);
    }
}

/// Where removing `k` under `p` changes nothing, making an empty object
/// under `k` there and removing it again changes nothing either.
pub proof fn lemma_ensure_then_remove(z: Doc, p: Seq<Seq<char>>, k: Seq<char>)
    requires
        z is Object,
        settled(z, p, seq![Edit::Remove(k)]),
    ensures
        edit_path_spec(edit_path_spec(z, p.push(k), seq![]), p, seq![Edit::Remove(k)]) == z,
    decreases p.len(),
{
    let es = entries_of(z);
    let rm = seq![Edit::Remove(k)];
    if p.len() == 0 {
        assert(rm.drop_last() =~= Seq::<Edit>::empty());
        assert(apply_edits(z, rm) == remove_spec(z, k));
        if find_in(es, k) is Some {
            lemma_without_shorter(es, k);
        }
        assert(find_in(es, k) is None);
        assert(first_match(es, k) is None);
        assert(apply_edits(Doc::Object(seq![]), seq![]) == Doc::Object(seq![]));
        assert(edit_path_spec(Doc::Object(seq![]), Seq::<Seq<char>>::empty(), seq![]) == Doc::Object(seq![]));
        assert(p.push(k) =~= seq![k]);
        assert(seq![k].drop_first() =~= Seq::<Seq<char>>::empty());
        let e = (k, Doc::Object(seq![]));
        let n = edit_path_spec(z, p.push(k), seq![]);
        assert(n == Doc::Object(es.push(e)));
        assert(es.push(e).drop_last() =~= es);
        lemma_eq_ci_refl(k);
        assert(without_key(es.push(e), k) == without_key(es, k));
        lemma_without_absent(es, k);
        assert(rm.last() == Edit::Remove(k));
        assert(apply_edits(n, rm.drop_last()) == n);
        assert(apply_edits(n, rm) == remove_spec(n, k));
    } else {
        let i = first_match(es, p[0])->0;
        lemma_first_match_bounds(es, p[0]);
        let c = es[i].1;
        let q = p.push(k);
        assert(q[0] == p[0]);
        assert(q.drop_first() =~= p.drop_first().push(k));
        let n = edit_path_spec(z, q, seq![]);
        let c2 = edit_path_spec(c, p.drop_first().push(k), seq![]);
        let es2 = es.update(i, (es[i].0, c2));
        assert(n == Doc::Object(es2));
        assert forall|m: int| 0 <= m <= i implies #[trigger] es2[m].0 == es[m].0 by {}
        lemma_first_match_from_unchanged(es, es2, p[0], i);
        lemma_ensure_then_remove(c, p.drop_first(), k);
        assert(es2.update(i, (es2[i].0, edit_path_spec(c2, p.drop_first(), rm))) =~= es);
    }
}

} // verus!
