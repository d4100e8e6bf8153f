//! Small rules about catalogue entries: tag and language lists, item kinds,
//! identity keys and collection names.

use vstd::prelude::*;
use crate::text::{trim, trimmed_chars, eq_ci, chars_eq_ignore_case, ascii_lower, ascii_lower_chars, string_of};
use crate::library::strings_view;

verus! {

/// Each text of `xs`, trimmed, appended to `acc` unless it is blank, is
/// `+` where `drop_plus` holds, or matches one already there ignoring ASCII
/// case.
pub open spec fn dedup_ci(acc: Seq<Seq<char>>, xs: Seq<Seq<char>>, drop_plus: bool) -> Seq<Seq<char>>
    decreases xs.len(),
{
    if xs.len() == 0 {
        acc
    } else {
        let t = trim(xs[0]);
        if t.len() == 0 || (drop_plus && t == seq!['+']) || exists|i: int|
            0 <= i < acc.len() && eq_ci(#[trigger] acc[i], t) {
            dedup_ci(acc, xs.drop_first(), drop_plus)
        } else {
            dedup_ci(acc.push(t), xs.drop_first(), drop_plus)
        }
    }
}

fn dedup_trimmed_ignore_case(raw: &[String], drop_plus: bool) -> (r: Vec<String>)
    ensures
        strings_view(r@) == dedup_ci(seq![], strings_view(raw@), drop_plus),
{
    let ghost rv = strings_view(raw@);
    let mut out: Vec<String> = Vec::new();
    let mut seen: Vec<Vec<char>> = Vec::new();
    let mut i: usize = 0;
    assert(strings_view(out@) =~= seq![]);
    assert(rv.subrange(0, rv.len() as int) =~= rv);
    while i < raw.len()
        invariant
            0 <= i <= raw@.len(),
            rv == strings_view(raw@),
            rv.len() == raw@.len(),
            seen@.len() == out@.len(),
            forall|j: int| 0 <= j < seen@.len() ==> #[trigger] seen@[j]@ == out@[j]@,
            dedup_ci(strings_view(out@), rv.subrange(i as int, rv.len() as int), drop_plus)
                == dedup_ci(seq![], rv, drop_plus),
        decreases raw@.len() - i,
    {
        let ghost acc = strings_view(out@);
        assert(rv.subrange(i as int, rv.len() as int).drop_first() =~= rv.subrange(
            i + 1,
            rv.len() as int,
        ));
        assert(rv[i as int] == raw@[i as int]@);
        let t = trimmed_chars(raw[i].as_str());
        let skip = t.len() == 0 || (drop_plus && t.len() == 1 && t[0] == '+');
        let mut found = false;
        proof {
            if t@.len() == 1 && t@[0] == '+' {
                assert(t@ =~= seq!['+']);
            }
            if t@ == seq!['+'] {
                assert(t@.len() == 1 && t@[0] == '+');
            }
        }
        let mut j: usize = 0;
        while !skip && !found && j < seen.len()
            invariant
                0 <= j <= seen@.len(),
                seen@.len() == out@.len(),
                acc == strings_view(out@),
                acc.len() == out@.len(),
                forall|m: int| 0 <= m < seen@.len() ==> #[trigger] seen@[m]@ == out@[m]@,
                found ==> exists|m: int| 0 <= m < acc.len() && eq_ci(#[trigger] acc[m], t@),
                !found ==> forall|m: int| 0 <= m < j ==> !eq_ci(#[trigger] acc[m], t@),
            decreases seen@.len() - j,
        {
            assert(acc[j as int] == out@[j as int]@);
            assert(seen@[j as int]@ == out@[j as int]@);
            if chars_eq_ignore_case(seen[j].as_slice(), t.as_slice()) {
                found = true;
            }
            j = j + 1;
        }
        if !skip && !found {
            let ghost before = strings_view(out@);
            let ghost tv = t@;
            out.push(string_of(t.as_slice()));
            seen.push(t);
            assert(strings_view(out@) =~= before.push(tv));
        }
        i = i + 1;
    }
    out
}

/// Store tags trimmed, without blanks or `+`, each once ignoring ASCII case.
pub fn normalize_steam_store_tags(raw_tags: &[String]) -> (r: Vec<String>)
    ensures
        strings_view(r@) == dedup_ci(seq![], strings_view(raw_tags@), true),
{
    dedup_trimmed_ignore_case(raw_tags, true)
}

/// Languages trimmed, without blanks, each once ignoring ASCII case.
pub fn normalize_language_list(raw_languages: &[String]) -> (r: Vec<String>)
    ensures
        strings_view(r@) == dedup_ci(seq![], strings_view(raw_languages@), false),
{
    dedup_trimmed_ignore_case(raw_languages, false)
}

/// An item type as the store gives it, trimmed and in ASCII lower case.
pub fn normalize_steam_app_type(value: &str) -> (r: String)
    ensures
        r@ == ascii_lower(trim(value@)),
{
    let t = trimmed_chars(value);
    let l = ascii_lower_chars(t.as_slice());
    string_of(l.as_slice())
}

/// The kind of an item with a given store type: `game`, `demo`, `dlc`, or
/// `unknown`.
pub open spec fn kind_from_type_spec(app_type: Seq<char>) -> Seq<char> {
    let n = ascii_lower(trim(app_type));
    if n == "game"@ {
        "game"@
    } else if n == "demo"@ {
        "demo"@
    } else if n == "dlc"@ {
        "dlc"@
    } else {
        "unknown"@
    }
}

pub fn steam_kind_from_app_type(app_type: &str) -> (r: &'static str)
    ensures
        r@ == kind_from_type_spec(app_type@),
{
    let n = normalize_steam_app_type(app_type);
    if crate::text::str_equal(n.as_str(), "game") {
        "game"
    } else if crate::text::str_equal(n.as_str(), "demo") {
        "demo"
    } else if crate::text::str_equal(n.as_str(), "dlc") {
        "dlc"
    } else {
        "unknown"
    }
}

/// The key under which an item's memberships are kept: the provider
/// trimmed in ASCII lower case, a colon, the identifier trimmed.
pub fn game_membership_key(provider: &str, external_id: &str) -> (r: String)
    ensures
        r@ == ascii_lower(trim(provider@)) + seq![':'] + trim(external_id@),
{
    let p = trimmed_chars(provider);
    let mut out = ascii_lower_chars(p.as_slice());
    out.push(':');
    let mut e = trimmed_chars(external_id);
    out.append(&mut e);
    string_of(out.as_slice())
}

/// A provider and identifier as stored: the provider trimmed in ASCII lower
/// case, the identifier trimmed; an error where either is blank.
pub fn normalize_game_identity_input(provider: &str, external_id: &str) -> (r: Result<
    (String, String),
    String,
>)
    ensures
        trim(provider@).len() == 0 ==> (r matches Err(e) && e@ == "Game provider is required"@),
        trim(provider@).len() > 0 && trim(external_id@).len() == 0 ==> (r matches Err(e) && e@
            == "Game external ID is required"@),
        trim(provider@).len() > 0 && trim(external_id@).len() > 0 ==> (r matches Ok(v) && v.0@
            == ascii_lower(trim(provider@)) && v.1@ == trim(external_id@)),
{
    let p = trimmed_chars(provider);
    if p.len() == 0 {
        return Err(String::from_str("Game provider is required"));
    }
    let e = trimmed_chars(external_id);
    if e.len() == 0 {
        return Err(String::from_str("Game external ID is required"));
    }
    let l = ascii_lower_chars(p.as_slice());
    Ok((string_of(l.as_slice()), string_of(e.as_slice())))
}

/// The longest collection name, in characters.
pub const MAX_COLLECTION_NAME_CHARS: usize = 80;

/// A collection name trimmed; an error where it is blank or longer than
/// the limit.
pub fn normalize_collection_name(name: &str) -> (r: Result<String, String>)
    ensures
        trim(name@).len() == 0 ==> (r matches Err(e) && e@ == "Collection name is required"@),
        trim(name@).len() > MAX_COLLECTION_NAME_CHARS ==> (r matches Err(e) && e@
            == "Collection name must be 80 characters or fewer"@),
        0 < trim(name@).len() <= MAX_COLLECTION_NAME_CHARS ==> (r matches Ok(v) && v@ == trim(
            name@,
        )),
{
    let t = trimmed_chars(name);
    if t.len() == 0 {
        return Err(String::from_str("Collection name is required"));
    }
    if t.len() > MAX_COLLECTION_NAME_CHARS {
        return Err(String::from_str("Collection name must be 80 characters or fewer"));
    }
    Ok(string_of(t.as_slice()))
}

} // verus!
