//! Where the client keeps its libraries: the library-folder index, the
//! user-data directory names of an account, and the merged list of library
//! directories.

use vstd::prelude::*;
use crate::text::{chars_of, is_ws, skip_ws, trim, trimmed_chars, trimmed_string, all_digits, is_digit, parse_u64_chars, parse_u64_spec, decimal_chars, decimal, string_of, digit_char};
use crate::lines::{line_pair, clean_value, lines_of, lines_view, split_lines, line_pair_bounds, clean_chars, range_is, decode_value, decode_chars, pair_bounds, next_quote};
use crate::manifest::lemma_lines_step;

verus! {

/// Resolves the backslash escapes of a value read from a line.
pub fn decode_steam_vdf_value(value: &str) -> (r: String)
    ensures
        r@ == decode_value(value@),
{
    let v = chars_of(value);
    assert(v@.subrange(0, v@.len() as int) =~= v@);
    let d = decode_chars(v.as_slice(), 0, v.len());
    string_of(d.as_slice())
}

pub open spec fn is_sep(c: char) -> bool {
    c == '/' || c == '\\'
}

/// The parts of a path between separators (`/` or `\`), empty ones included.
pub open spec fn split_parts(s: Seq<char>) -> Seq<Seq<char>>
    decreases s.len(),
{
    if s.len() == 0 {
        seq![seq![]]
    } else {
        let r = split_parts(s.drop_last());
        if is_sep(s.last()) {
            r.push(seq![])
        } else {
            r.update(r.len() - 1, r.last().push(s.last()))
        }
    }
}

/// Whether the part at index `i` counts: it is not empty, and it is not a
/// `.` other than a leading one.
pub open spec fn keep_part(p: Seq<char>, i: int) -> bool {
    p.len() > 0 && !(i > 0 && p == seq!['.'])
}

pub open spec fn kept_parts(ps: Seq<Seq<char>>) -> Seq<Seq<char>>
    decreases ps.len(),
{
    if ps.len() == 0 {
        ps
    } else {
        let r = kept_parts(ps.drop_last());
        if keep_part(ps.last(), ps.len() - 1) {
            r.push(ps.last())
        } else {
            r
        }
    }
}

/// What a path is compared by: whether it starts at the root, and its
/// parts once repeated separators, a trailing separator and inner `.`
/// parts are dropped. `/a//b/./c/` and `/a/b/c` have the same key.
pub open spec fn path_key(s: Seq<char>) -> (bool, Seq<Seq<char>>) {
    (s.len() > 0 && is_sep(s[0]), kept_parts(split_parts(s)))
}

/// Whether some path of `acc` has the key of `p`.
pub open spec fn has_path(acc: Seq<Seq<char>>, p: Seq<char>) -> bool {
    exists|j: int| 0 <= j < acc.len() && #[trigger] path_key(acc[j]) == path_key(p)
}

pub open spec fn parts_view(v: Seq<Vec<char>>) -> Seq<Seq<char>> {
    v.map_values(|p: Vec<char>| p@)
}

fn push_part(v: &mut Vec<Vec<char>>, p: Vec<char>)
    ensures
        parts_view(final(v)@) == parts_view(old(v)@).push(p@),
{
    v.push(p);
    assert(parts_view(v@) =~= parts_view(old(v)@).push(p@));
}

fn path_key_exec(s: &[char]) -> (r: (bool, Vec<Vec<char>>))
    ensures
        r.0 == path_key(s@).0,
        parts_view(r.1@) == path_key(s@).1,
{
    let mut done: Vec<Vec<char>> = Vec::new();
    let mut cur: Vec<char> = Vec::new();
    let mut i: usize = 0;
    assert(parts_view(done@).push(cur@) =~= split_parts(s@.subrange(0, 0)));
    while i < s.len()
        invariant
            0 <= i <= s@.len(),
            parts_view(done@).push(cur@) == split_parts(s@.subrange(0, i as int)),
        decreases s@.len() - i,
    {
        let ghost pre = s@.subrange(0, i as int);
        let ghost next = s@.subrange(0, i + 1);
        assert(next.drop_last() =~= pre);
        assert(next.last() == s@[i as int]);
        let c = s[i];
        if c == '/' || c == '\\' {
            let mut full: Vec<char> = Vec::new();
            std::mem::swap(&mut full, &mut cur);
            push_part(&mut done, full);
            assert(parts_view(done@).push(cur@) =~= split_parts(next));
        } else {
            let ghost before = cur@;
            cur.push(c);
            assert(parts_view(done@).push(cur@) =~= split_parts(pre).update(
                split_parts(pre).len() - 1,
                split_parts(pre).last().push(c),
            ));
        }
        i = i + 1;
    }
    assert(s@.subrange(0, i as int) =~= s@);
    push_part(&mut done, cur);
    let ghost ps = parts_view(done@);
    let mut kept: Vec<Vec<char>> = Vec::new();
    let mut k: usize = 0;
    assert(parts_view(kept@) =~= kept_parts(ps.subrange(0, 0)));
    while k < done.len()
        invariant
            0 <= k <= done@.len(),
            ps == parts_view(done@),
            ps.len() == done@.len(),
            parts_view(kept@) == kept_parts(ps.subrange(0, k as int)),
        decreases done@.len() - k,
    {
        let ghost next = ps.subrange(0, k + 1);
        assert(next.drop_last() =~= ps.subrange(0, k as int));
        assert(next.last() == done@[k as int]@);
        let p = &done[k];
        let dot = p.len() == 1 && p[0] == '.';
        proof {
            if p@.len() == 1 && p@[0] == '.' {
                assert(p@ =~= seq!['.']);
            }
            if p@ == seq!['.'] {
                assert(p@.len() == 1 && p@[0] == '.');
            }
        }
        if p.len() > 0 && !(k > 0 && dot) {
            let copy = crate::text::chars_of_range(p.as_slice(), 0, p.len());
            assert(copy@ =~= p@);
            push_part(&mut kept, copy);
        }
        k = k + 1;
    }
    assert(ps.subrange(0, k as int) =~= ps);
    (s.len() > 0 && (s[0] == '/' || s[0] == '\\'), kept)
}

fn chars_equal(a: &[char], b: &[char]) -> (r: bool)
    ensures
        r == (a@ == b@),
{
    if a.len() != b.len() {
        return false;
    }
    let mut i: usize = 0;
    while i < a.len()
        invariant
            a@.len() == b@.len(),
            0 <= i <= a@.len(),
            forall|j: int| 0 <= j < i ==> a@[j] == b@[j],
        decreases a@.len() - i,
    {
        if a[i] != b[i] {
            return false;
        }
        i = i + 1;
    }
    assert(a@ =~= b@);
    true
}

/// Whether two paths have the same key.
pub fn same_path(a: &str, b: &str) -> (r: bool)
    ensures
        r == (path_key(a@) == path_key(b@)),
{
    let x = chars_of(a);
    let y = chars_of(b);
    let (ra, pa) = path_key_exec(x.as_slice());
    let (rb, pb) = path_key_exec(y.as_slice());
    if ra != rb || pa.len() != pb.len() {
        proof {
            if path_key(a@) == path_key(b@) {
                assert(parts_view(pa@).len() == parts_view(pb@).len());
            }
        }
        return false;
    }
    let mut i: usize = 0;
    while i < pa.len()
        invariant
            parts_view(pa@) == path_key(a@).1,
            parts_view(pb@) == path_key(b@).1,
            pa@.len() == pb@.len(),
            0 <= i <= pa@.len(),
            forall|j: int| 0 <= j < i ==> pa@[j]@ == pb@[j]@,
        decreases pa@.len() - i,
    {
        if !chars_equal(pa[i].as_slice(), pb[i].as_slice()) {
            proof {
                assert(parts_view(pa@)[i as int] != parts_view(pb@)[i as int]);
            }
            return false;
        }
        i = i + 1;
    }
    assert(parts_view(pa@) =~= parts_view(pb@));
    true
}

/// Whether some path of `out` has the key of `p`.
pub fn contains_path(out: &Vec<String>, p: &String) -> (r: bool)
    ensures
        r == has_path(strings_view(out@), p@),
{
    let mut i: usize = 0;
    while i < out.len()
        invariant
            0 <= i <= out@.len(),
            forall|j: int| 0 <= j < i ==> path_key(#[trigger] out@[j]@) != path_key(p@),
        decreases out@.len() - i,
    {
        if same_path(out[i].as_str(), p.as_str()) {
            assert(strings_view(out@)[i as int] == out@[i as int]@);
            return true;
        }
        i = i + 1;
    }
    assert forall|j: int| 0 <= j < strings_view(out@).len() implies #[trigger] path_key(
        strings_view(out@)[j],
    ) != path_key(p@) by {
        assert(strings_view(out@)[j] == out@[j]@);
    }
    false
}

/// The library path a line declares: its value, decoded and trimmed, where
/// its key is `path` (or, in the legacy layout, a number).
pub open spec fn path_candidate(l: Seq<char>, legacy: bool) -> Option<Seq<char>> {
    match line_pair(l) {
        Some(p) => if (if legacy {
            all_digits(p.0)
        } else {
            p.0 == "path"@
        }) && p.1.len() > 0 && clean_value(p.1).len() > 0 {
            Some(clean_value(p.1))
        } else {
            None
        },
        None => None,
    }
}

/// The paths the lines declare, appended to `acc` unless a path with the
/// same key is already there.
pub open spec fn collect_paths(acc: Seq<Seq<char>>, lines: Seq<Seq<char>>, legacy: bool) -> Seq<
    Seq<char>,
>
    decreases lines.len(),
{
    if lines.len() == 0 {
        acc
    } else {
        match path_candidate(lines[0], legacy) {
            Some(p) => if has_path(acc, p) {
                collect_paths(acc, lines.drop_first(), legacy)
            } else {
                collect_paths(acc.push(p), lines.drop_first(), legacy)
            },
            None => collect_paths(acc, lines.drop_first(), legacy),
        }
    }
}

/// The library paths of an index: those under `path` keys, or, where there
/// are none, those under numeric keys; in order, each path once by its key.
pub open spec fn library_paths_from_lines(lines: Seq<Seq<char>>) -> Seq<Seq<char>> {
    let modern = collect_paths(seq![], lines, false);
    if modern.len() > 0 {
        modern
    } else {
        collect_paths(seq![], lines, true)
    }
}

pub open spec fn strings_view(v: Seq<String>) -> Seq<Seq<char>> {
    v.map_values(|s: String| s@)
}

fn all_digit_chars(s: &[char], lo: usize, hi: usize) -> (r: bool)
    requires
        lo <= hi <= s@.len(),
    ensures
        r == all_digits(s@.subrange(lo as int, hi as int)),
{
    let mut i = lo;
    while i < hi
        invariant
            lo <= i <= hi <= s@.len(),
            forall|j: int| lo <= j < i ==> is_digit(#[trigger] s@[j]),
        decreases hi - i,
    {
        if !('0' <= s[i] && s[i] <= '9') {
            assert(!is_digit(s@.subrange(lo as int, hi as int)[i - lo]));
            return false;
        }
        i = i + 1;
    }
    assert forall|j: int| 0 <= j < hi - lo implies is_digit(
        #[trigger] s@.subrange(lo as int, hi as int)[j],
    ) by {
        assert(s@.subrange(lo as int, hi as int)[j] == s@[lo + j]);
    }
    true
}

/// Whether `out` holds `v`.
pub fn contains_string(out: &Vec<String>, v: &String) -> (r: bool)
    ensures
        r == strings_view(out@).contains(v@),
{
    let mut i: usize = 0;
    while i < out.len()
        invariant
            0 <= i <= out@.len(),
            forall|j: int| 0 <= j < i ==> out@[j]@ != v@,
        decreases out@.len() - i,
    {
        if out[i] == *v {
            assert(strings_view(out@)[i as int] == v@);
            return true;
        }
        i = i + 1;
    }
    assert forall|j: int| 0 <= j < strings_view(out@).len() implies strings_view(out@)[j] != v@ by {
        assert(strings_view(out@)[j] == out@[j]@);
    }
    false
}

pub fn push_string(out: &mut Vec<String>, v: String)
    ensures
        strings_view(final(out)@) == strings_view(old(out)@).push(v@),
{
    out.push(v);
    assert(strings_view(out@) =~= strings_view(old(out)@).push(v@));
}

fn collect_library_paths(lines: &Vec<Vec<char>>, legacy: bool, out: &mut Vec<String>)
    ensures
        strings_view(final(out)@) == collect_paths(strings_view(old(out)@), lines_view(lines@), legacy),
{
    let ghost lv = lines_view(lines@);
    let mut i: usize = 0;
    assert(lv.subrange(0, lv.len() as int) =~= lv);
    while i < lines.len()
        invariant
            0 <= i <= lines@.len(),
            lv == lines_view(lines@),
            lv.len() == lines@.len(),
            collect_paths(strings_view(out@), lv.subrange(i as int, lv.len() as int), legacy)
                == collect_paths(strings_view(old(out)@), lv, legacy),
        decreases lines@.len() - i,
    {
        proof {
            lemma_lines_step(lv, i as int);
        }
        let line = lines[i].as_slice();
        assert(lv[i as int] == line@);
        if let Some((k0, k1, v0, v1)) = line_pair_bounds(line) {
            let key_ok = if legacy {
                all_digit_chars(line, k0, k1)
            } else {
                range_is(line, k0, k1, "path")
            };
            if key_ok && v1 > v0 {
                let v = clean_chars(line, v0, v1);
                if v.len() > 0 {
                    let p = string_of(v.as_slice());
                    if !contains_path(out, &p) {
                        push_string(out, p);
                    }
                }
            }
        }
        i = i + 1;
    }
}

/// The library paths that a library-folder index declares, each once, in
/// order: those under `path` keys, or, where there are none, those under
/// numeric keys (the legacy layout).
pub fn parse_steam_libraryfolder_paths(contents: &str) -> (r: Vec<String>)
    ensures
        strings_view(r@) == library_paths_from_lines(lines_of(contents@)),
        paths_distinct(strings_view(r@)),
{
    proof {
        lemma_collect_paths_distinct(seq![], lines_of(contents@), false);
        lemma_collect_paths_distinct(seq![], lines_of(contents@), true);
    }
    let s = chars_of(contents);
    let lines = split_lines(&s);
    let mut paths: Vec<String> = Vec::new();
    assert(strings_view(paths@) =~= seq![]);
    collect_library_paths(&lines, false, &mut paths);
    if paths.len() > 0 {
        return paths;
    }
    assert(strings_view(paths@) =~= seq![]);
    collect_library_paths(&lines, true, &mut paths);
    paths
}

/// Each item of `xs` not yet in `acc`, appended in order.
pub open spec fn dedup_into(acc: Seq<Seq<char>>, xs: Seq<Seq<char>>) -> Seq<Seq<char>>
    decreases xs.len(),
{
    if xs.len() == 0 {
        acc
    } else if acc.contains(xs[0]) {
        dedup_into(acc, xs.drop_first())
    } else {
        dedup_into(acc.push(xs[0]), xs.drop_first())
    }
}

/// Each path of `xs` whose key is not yet in `acc`, appended in order.
pub open spec fn dedup_paths_into(acc: Seq<Seq<char>>, xs: Seq<Seq<char>>) -> Seq<Seq<char>>
    decreases xs.len(),
{
    if xs.len() == 0 {
        acc
    } else if has_path(acc, xs[0]) {
        dedup_paths_into(acc, xs.drop_first())
    } else {
        dedup_paths_into(acc.push(xs[0]), xs.drop_first())
    }
}

/// The library directories to scan: the primary one first, then each other
/// one whose path key is not already listed, in order.
pub fn merge_library_directories(primary: String, others: Vec<String>) -> (r: Vec<String>)
    ensures
        strings_view(r@) == dedup_paths_into(seq![primary@], strings_view(others@)),
        r@.len() > 0 && r@[0]@ == primary@,
        paths_distinct(strings_view(r@)),
{
    proof {
        lemma_dedup_paths_distinct(seq![primary@], strings_view(others@));
        lemma_dedup_paths_keeps_prefix(seq![primary@], strings_view(others@));
    }
    let mut out: Vec<String> = Vec::new();
    let ghost ov = strings_view(others@);
    push_string(&mut out, primary);
    assert(strings_view(out@) =~= seq![primary@]);
    let mut i: usize = 0;
    assert(ov.subrange(0, ov.len() as int) =~= ov);
    while i < others.len()
        invariant
            0 <= i <= others@.len(),
            ov == strings_view(others@),
            ov.len() == others@.len(),
            dedup_paths_into(strings_view(out@), ov.subrange(i as int, ov.len() as int)) == dedup_paths_into(
                seq![primary@],
                ov,
            ),
        decreases others@.len() - i,
    {
        assert(ov.subrange(i as int, ov.len() as int).drop_first() =~= ov.subrange(
            i + 1,
            ov.len() as int,
        ));
        assert(ov[i as int] == others@[i as int]@);
        let p = others[i].clone();
        if !contains_path(&out, &p) {
            push_string(&mut out, p);
        }
        i = i + 1;
    }
    assert(strings_view(out@)[0] == out@[0]@);
    assert(seq![primary@][0] == primary@);
    out
}

/// The offset between a 64-bit account identifier and the 32-bit account
/// number used to name user-data directories.
pub const STEAM_ID64_ACCOUNT_ID_BASE: u64 = 76_561_197_960_265_728;

/// The user-data directory names to try for an account: the identifier as
/// given (trimmed), then, for a 64-bit identifier above the base, the
/// account number; none where the identifier is blank.
pub open spec fn userdata_names_spec(steam_id: Seq<char>) -> Option<Seq<Seq<char>>> {
    let t = trim(steam_id);
    if t.len() == 0 {
        None
    } else {
        match parse_u64_spec(t) {
            Some(n) => if n > STEAM_ID64_ACCOUNT_ID_BASE && decimal(
                (n - STEAM_ID64_ACCOUNT_ID_BASE) as nat,
            ) != t {
                Some(seq![t, decimal((n - STEAM_ID64_ACCOUNT_ID_BASE) as nat)])
            } else {
                Some(seq![t])
            },
            None => Some(seq![t]),
        }
    }
}

/// The user-data directory names to try for an account.
pub fn steam_userdata_candidate_directory_names(steam_id: &str) -> (r: Result<Vec<String>, String>)
    ensures
        match userdata_names_spec(steam_id@) {
            Some(names) => r is Ok && strings_view(r->Ok_0@) == names,
            None => r matches Err(e) && e@ == "Steam ID is required"@,
        },
{
    let t = trimmed_chars(steam_id);
    if t.len() == 0 {
        return Err(String::from_str("Steam ID is required"));
    }
    let mut out: Vec<String> = Vec::new();
    push_string(&mut out, string_of(t.as_slice()));
    if let Some(n) = parse_u64_chars(t.as_slice()) {
        if n > STEAM_ID64_ACCOUNT_ID_BASE {
            let a = decimal_chars(n - STEAM_ID64_ACCOUNT_ID_BASE);
            let s = string_of(a.as_slice());
            assert(strings_view(out@) =~= seq![t@]);
            assert(s@ == t@ ==> strings_view(out@)[0] == s@);
            if !contains_string(&out, &s) {
                push_string(&mut out, s);
            }
        }
    }
    assert(strings_view(out@) =~= userdata_names_spec(steam_id@)->0);
    Ok(out)
}

/// The explicit install root, where one is given and not blank.
pub fn steam_root_override_path(steam_root_override: Option<&str>) -> (r: Option<String>)
    ensures
        match steam_root_override {
            Some(o) => if trim(o@).len() > 0 {
                r is Some && r->0@ == trim(o@)
            } else {
                r is None
            },
            None => r is None,
        },
{
    match steam_root_override {
        Some(o) => {
            let t = trimmed_string(o);
            if t.as_str().unicode_len() > 0 {
                Some(t)
            } else {
                None
            }
        },
        None => None,
    }
}

/// Appends each item of `xs` not already in `out`, in order.
pub fn extend_unique(out: &mut Vec<String>, xs: &Vec<String>)
    ensures
        strings_view(final(out)@) == dedup_into(strings_view(old(out)@), strings_view(xs@)),
{
    let ghost xv = strings_view(xs@);
    let mut i: usize = 0;
    assert(xv.subrange(0, xv.len() as int) =~= xv);
    while i < xs.len()
        invariant
            0 <= i <= xs@.len(),
            xv == strings_view(xs@),
            xv.len() == xs@.len(),
            dedup_into(strings_view(out@), xv.subrange(i as int, xv.len() as int)) == dedup_into(
                strings_view(old(out)@),
                xv,
            ),
        decreases xs@.len() - i,
    {
        assert(xv.subrange(i as int, xv.len() as int).drop_first() =~= xv.subrange(
            i + 1,
            xv.len() as int,
        ));
        assert(xv[i as int] == xs@[i as int]@);
        let p = xs[i].clone();
        if !contains_string(out, &p) {
            push_string(out, p);
        }
        i = i + 1;
    }
}


/// A modern index line: `"path"` and a quoted value.
pub open spec fn modern_line(v: Seq<char>) -> Seq<char> {
    seq!['"', 'p', 'a', 't', 'h', '"', '\t', '"'] + v + seq!['"']
}

/// A legacy index line: a quoted number and a quoted value.
pub open spec fn legacy_line(n: nat, v: Seq<char>) -> Seq<char> {
    seq!['"'] + decimal(n) + seq!['"', '\t', '"'] + v + seq!['"']
}

pub open spec fn no_quote(v: Seq<char>) -> bool {
    forall|i: int| 0 <= i < v.len() ==> #[trigger] v[i] != '"'
}

proof fn lemma_next_quote_run(l: Seq<char>, i: int, j: int)
    requires
        0 <= i <= j < l.len(),
        forall|k: int| i <= k < j ==> l[k] != '"',
        l[j] == '"',
    ensures
        next_quote(l, i) == j,
    decreases j - i,
{
    if i < j {
        lemma_next_quote_run(l, i + 1, j);
    }
}

proof fn lemma_decimal_digits(n: nat)
    ensures
        decimal(n).len() > 0,
        all_digits(decimal(n)),
    decreases n,
{
    if n >= 10 {
        lemma_decimal_digits(n / 10);
        let d = decimal(n / 10);
        let c = digit_char((n % 10) as int);
        assert forall|k: int| 0 <= k < d.push(c).len() implies is_digit(#[trigger] d.push(c)[k]) by {
            if k < d.len() {
                assert(d.push(c)[k] == d[k]);
            }
        }
    }
}

proof fn lemma_modern_line_pair(v: Seq<char>)
    requires
        no_quote(v),
    ensures
        line_pair(modern_line(v)) == Some((seq!['p', 'a', 't', 'h'], v)),
{
    let l = modern_line(v);
    let n = v.len() as int;
    assert(l.len() == 9 + n);
    assert(l[0] == '"' && l[1] == 'p' && l[2] == 'a' && l[3] == 't' && l[4] == 'h');
    assert(l[5] == '"' && l[6] == '\t' && l[7] == '"' && l[8 + n] == '"');
    assert forall|k: int| 8 <= k < 8 + n implies l[k] != '"' by {
        assert(l[k] == v[k - 8]);
    }
    lemma_next_quote_run(l, 1, 5);
    lemma_next_quote_run(l, 8, 8 + n);
    assert(!is_ws(l[0]) && is_ws(l[6]) && !is_ws(l[7]));
    assert(skip_ws(l, 0) == 0);
    assert(skip_ws(l, 7) == 7);
    assert(skip_ws(l, 6) == 7);
    assert(pair_bounds(l) == Some((1int, 5int, 8int, 8 + n)));
    assert(l.subrange(1, 5) =~= seq!['p', 'a', 't', 'h']);
    assert(l.subrange(8, 8 + n) =~= v);
}

proof fn lemma_legacy_line_pair(m: nat, v: Seq<char>)
    requires
        no_quote(v),
    ensures
        line_pair(legacy_line(m, v)) == Some((decimal(m), v)),
{
    let d = decimal(m);
    lemma_decimal_digits(m);
    let l = legacy_line(m, v);
    let a = d.len() as int;
    let n = v.len() as int;
    assert(l.len() == a + n + 5);
    assert(l[0] == '"' && l[a + 1] == '"' && l[a + 2] == '\t' && l[a + 3] == '"');
    assert(l[a + 4 + n] == '"');
    assert forall|k: int| 1 <= k < 1 + a implies l[k] != '"' by {
        assert(l[k] == d[k - 1]);
        assert(is_digit(d[k - 1]));
    }
    assert forall|k: int| a + 4 <= k < a + 4 + n implies l[k] != '"' by {
        assert(l[k] == v[k - a - 4]);
    }
    lemma_next_quote_run(l, 1, a + 1);
    lemma_next_quote_run(l, a + 4, a + 4 + n);
    assert(!is_ws(l[0]) && is_ws(l[a + 2]) && !is_ws(l[a + 3]));
    assert(skip_ws(l, 0) == 0);
    assert(skip_ws(l, a + 3) == a + 3);
    assert(skip_ws(l, a + 2) == a + 3);
    assert(pair_bounds(l) == Some((1int, a + 1, a + 4, a + 4 + n)));
    assert(l.subrange(1, a + 1) =~= d);
    assert(l.subrange(a + 4, a + 4 + n) =~= v);
}

proof fn lemma_collect_same(acc: Seq<Seq<char>>, a: Seq<Seq<char>>, la: bool, b: Seq<Seq<char>>, lb: bool)
    requires
        a.len() == b.len(),
        forall|i: int| 0 <= i < a.len() ==> path_candidate(#[trigger] a[i], la) == path_candidate(b[i], lb),
    ensures
        collect_paths(acc, a, la) == collect_paths(acc, b, lb),
    decreases a.len(),
{
    if a.len() > 0 {
        assert(path_candidate(a[0], la) == path_candidate(b[0], lb));
        let acc2 = match path_candidate(a[0], la) {
            Some(p) => if has_path(acc, p) {
                acc
            } else {
                acc.push(p)
            },
            None => acc,
        };
        assert forall|i: int| 0 <= i < a.drop_first().len() implies path_candidate(
            #[trigger] a.drop_first()[i],
            la,
        ) == path_candidate(b.drop_first()[i], lb) by {
            assert(a.drop_first()[i] == a[i + 1]);
            assert(b.drop_first()[i] == b[i + 1]);
        }
        lemma_collect_same(acc2, a.drop_first(), la, b.drop_first(), lb);
    }
}

proof fn lemma_collect_none(acc: Seq<Seq<char>>, a: Seq<Seq<char>>, la: bool)
    requires
        forall|i: int| 0 <= i < a.len() ==> path_candidate(#[trigger] a[i], la) is None,
    ensures
        collect_paths(acc, a, la) == acc,
    decreases a.len(),
{
    if a.len() > 0 {
        assert(path_candidate(a[0], la) is None);
        assert forall|i: int| 0 <= i < a.drop_first().len() implies path_candidate(
            #[trigger] a.drop_first()[i],
            la,
        ) is None by {
            assert(a.drop_first()[i] == a[i + 1]);
        }
        lemma_collect_none(acc, a.drop_first(), la);
    }
}

/// The legacy layout is read as the modern one: an index whose lines give
/// the values under `"path"` keys, and one whose lines give the same values
/// under numeric keys, yield the same library paths.
pub proof fn lemma_legacy_index_matches_modern(values: Seq<Seq<char>>, numbers: Seq<nat>)
    requires
        numbers.len() == values.len(),
        forall|i: int| 0 <= i < values.len() ==> no_quote(#[trigger] values[i]),
    ensures
        library_paths_from_lines(Seq::new(values.len(), |i: int| modern_line(values[i])))
            == library_paths_from_lines(
            Seq::new(values.len(), |i: int| legacy_line(numbers[i], values[i])),
        ),
{
    reveal_strlit("path");
    let ml = Seq::new(values.len(), |i: int| modern_line(values[i]));
    let ll = Seq::new(values.len(), |i: int| legacy_line(numbers[i], values[i]));
    assert("path"@ =~= seq!['p', 'a', 't', 'h']);
    assert forall|i: int| 0 <= i < values.len() implies path_candidate(#[trigger] ml[i], false)
        == path_candidate(ll[i], true) && path_candidate(ml[i], true) is None && path_candidate(
        ll[i],
        false,
    ) is None by {
        lemma_modern_line_pair(values[i]);
        lemma_legacy_line_pair(numbers[i], values[i]);
        lemma_decimal_digits(numbers[i]);
        assert(!is_digit(seq!['p', 'a', 't', 'h'][0]));
        assert(decimal(numbers[i]) != seq!['p', 'a', 't', 'h']) by {
            if decimal(numbers[i]) == seq!['p', 'a', 't', 'h'] {
                assert(is_digit(decimal(numbers[i])[0]));
            }
        }
    }
    assert forall|i: int| 0 <= i < values.len() implies path_candidate(#[trigger] ll[i], false) is None by {
        assert(path_candidate(ml[i], false) == path_candidate(ll[i], true));
    }
    lemma_collect_same(seq![], ml, false, ll, true);
    lemma_collect_none(seq![], ml, true);
    lemma_collect_none(seq![], ll, false);
}


pub open spec fn no_backslash(v: Seq<char>) -> bool {
    forall|i: int| 0 <= i < v.len() ==> #[trigger] v[i] != '\\'
}

proof fn lemma_decode_plain(v: Seq<char>)
    requires
        no_backslash(v),
    ensures
        decode_value(v) == v,
    decreases v.len(),
{
    if v.len() > 0 {
        assert(v[0] != '\\');
        assert forall|i: int| 0 <= i < v.drop_first().len() implies #[trigger] v.drop_first()[i]
            != '\\' by {
            assert(v.drop_first()[i] == v[i + 1]);
        }
        lemma_decode_plain(v.drop_first());
        assert(seq![v[0]] + v.drop_first() =~= v);
    }
}

proof fn lemma_collect_each(values: Seq<Seq<char>>, lines: Seq<Seq<char>>, legacy: bool, k: int)
    requires
        0 <= k <= values.len(),
        lines.len() == values.len(),
        paths_distinct(values),
        forall|i: int| 0 <= i < lines.len() ==> path_candidate(#[trigger] lines[i], legacy) == Some(
            values[i],
        ),
    ensures
        collect_paths(values.subrange(0, k), lines.subrange(k, lines.len() as int), legacy)
            == values,
    decreases values.len() - k,
{
    let acc = values.subrange(0, k);
    let rest = lines.subrange(k, lines.len() as int);
    if k == values.len() {
        assert(acc =~= values);
    } else {
        assert(rest[0] == lines[k]);
        assert(path_candidate(rest[0], legacy) == Some(values[k]));
        if has_path(acc, values[k]) {
            let j = choose|j: int| 0 <= j < acc.len() && #[trigger] path_key(acc[j]) == path_key(
                values[k],
            );
            assert(acc[j] == values[j]);
        }
        assert(acc.push(values[k]) =~= values.subrange(0, k + 1));
        assert(rest.drop_first() =~= lines.subrange(k + 1, lines.len() as int));
        lemma_collect_each(values, lines, legacy, k + 1);
    }
}

/// An index that lists distinct library paths (each non-empty, trimmed,
/// without quotes or backslashes, no two with the same path key) under
/// `"path"` keys yields exactly those paths, in order; with the previous
/// law, so does the same list under numeric keys.
pub proof fn lemma_modern_index_paths(values: Seq<Seq<char>>)
    requires
        paths_distinct(values),
        forall|i: int|
            0 <= i < values.len() ==> no_quote(#[trigger] values[i]) && no_backslash(values[i])
                && values[i].len() > 0 && trim(values[i]) == values[i],
    ensures
        library_paths_from_lines(Seq::new(values.len(), |i: int| modern_line(values[i])))
            == values,
{
    reveal_strlit("path");
    let ml = Seq::new(values.len(), |i: int| modern_line(values[i]));
    assert("path"@ =~= seq!['p', 'a', 't', 'h']);
    assert forall|i: int| 0 <= i < ml.len() implies path_candidate(#[trigger] ml[i], false)
        == Some(values[i]) by {
        lemma_modern_line_pair(values[i]);
        lemma_decode_plain(values[i]);
    }
    lemma_collect_each(values, ml, false, 0);
    assert(values.subrange(0, 0) =~= Seq::<Seq<char>>::empty());
    assert(ml.subrange(0, ml.len() as int) =~= ml);
    if values.len() == 0 {
        lemma_collect_none(seq![], ml, true);
    }
}

/// The paths the lines declare, in order, duplicates kept.
pub open spec fn declared_paths(lines: Seq<Seq<char>>, legacy: bool) -> Seq<Seq<char>>
    decreases lines.len(),
{
    if lines.len() == 0 {
        seq![]
    } else {
        match path_candidate(lines[0], legacy) {
            Some(p) => seq![p] + declared_paths(lines.drop_first(), legacy),
            None => declared_paths(lines.drop_first(), legacy),
        }
    }
}

/// Reading an index keeps the first of each declared path, whatever other
/// lines stand between them.
pub proof fn lemma_collect_is_dedup(acc: Seq<Seq<char>>, lines: Seq<Seq<char>>, legacy: bool)
    ensures
        collect_paths(acc, lines, legacy) == dedup_paths_into(acc, declared_paths(lines, legacy)),
    decreases lines.len(),
{
    if lines.len() > 0 {
        lemma_collect_is_dedup(acc, lines.drop_first(), legacy);
        match path_candidate(lines[0], legacy) {
            Some(p) => {
                let d = seq![p] + declared_paths(lines.drop_first(), legacy);
                assert(d[0] == p);
                assert(d.drop_first() =~= declared_paths(lines.drop_first(), legacy));
                if !has_path(acc, p) {
                    lemma_collect_is_dedup(acc.push(p), lines.drop_first(), legacy);
                }
            },
            None => {},
        }
    }
}

/// The layout of an index does not matter: a modern index and a legacy one
/// whose lines declare the same paths (under `"path"` keys in the one, under
/// numeric keys in the other, any other lines declaring none) yield the
/// same library paths.
pub proof fn lemma_index_layout_irrelevant(modern: Seq<Seq<char>>, legacy: Seq<Seq<char>>)
    requires
        declared_paths(modern, false) == declared_paths(legacy, true),
        declared_paths(modern, true).len() == 0,
        declared_paths(legacy, false).len() == 0,
    ensures
        library_paths_from_lines(modern) == library_paths_from_lines(legacy),
{
    lemma_collect_is_dedup(seq![], modern, false);
    lemma_collect_is_dedup(seq![], modern, true);
    lemma_collect_is_dedup(seq![], legacy, false);
    lemma_collect_is_dedup(seq![], legacy, true);
}

pub proof fn lemma_dedup_paths_keeps_prefix(acc: Seq<Seq<char>>, xs: Seq<Seq<char>>)
    ensures
        dedup_paths_into(acc, xs).len() >= acc.len(),
        forall|i: int| 0 <= i < acc.len() ==> #[trigger] dedup_paths_into(acc, xs)[i] == acc[i],
    decreases xs.len(),
{
    if xs.len() > 0 {
        if has_path(acc, xs[0]) {
            lemma_dedup_paths_keeps_prefix(acc, xs.drop_first());
        } else {
            lemma_dedup_paths_keeps_prefix(acc.push(xs[0]), xs.drop_first());
            assert forall|i: int| 0 <= i < acc.len() implies #[trigger] dedup_paths_into(acc, xs)[i]
                == acc[i] by {
                assert(acc.push(xs[0])[i] == acc[i]);
            }
        }
    }
}

/// No two paths share a key.
pub open spec fn paths_distinct(v: Seq<Seq<char>>) -> bool {
    forall|i: int, j: int|
        0 <= i < v.len() && 0 <= j < v.len() && i != j ==> path_key(#[trigger] v[i]) != path_key(
            #[trigger] v[j],
        )
}

proof fn lemma_push_distinct(acc: Seq<Seq<char>>, p: Seq<char>)
    requires
        paths_distinct(acc),
        !has_path(acc, p),
    ensures
        paths_distinct(acc.push(p)),
{
    let b = acc.push(p);
    assert forall|i: int, j: int|
        0 <= i < b.len() && 0 <= j < b.len() && i != j implies path_key(#[trigger] b[i])
        != path_key(#[trigger] b[j]) by {
        if i < acc.len() && j < acc.len() {
            assert(b[i] == acc[i] && b[j] == acc[j]);
        } else if i < acc.len() {
            assert(b[i] == acc[i]);
            if path_key(acc[i]) == path_key(p) {
                assert(has_path(acc, p));
            }
        } else {
            assert(b[j] == acc[j]);
            if path_key(acc[j]) == path_key(p) {
                assert(has_path(acc, p));
            }
        }
    }
}

pub proof fn lemma_dedup_paths_distinct(acc: Seq<Seq<char>>, xs: Seq<Seq<char>>)
    requires
        paths_distinct(acc),
    ensures
        paths_distinct(dedup_paths_into(acc, xs)),
    decreases xs.len(),
{
    if xs.len() > 0 {
        if has_path(acc, xs[0]) {
            lemma_dedup_paths_distinct(acc, xs.drop_first());
        } else {
            lemma_push_distinct(acc, xs[0]);
            lemma_dedup_paths_distinct(acc.push(xs[0]), xs.drop_first());
        }
    }
}

pub proof fn lemma_collect_paths_distinct(acc: Seq<Seq<char>>, lines: Seq<Seq<char>>, legacy: bool)
    requires
        paths_distinct(acc),
    ensures
        paths_distinct(collect_paths(acc, lines, legacy)),
    decreases lines.len(),
{
    if lines.len() > 0 {
        match path_candidate(lines[0], legacy) {
            Some(p) => if has_path(acc, p) {
                lemma_collect_paths_distinct(acc, lines.drop_first(), legacy);
            } else {
                lemma_push_distinct(acc, p);
                lemma_collect_paths_distinct(acc.push(p), lines.drop_first(), legacy);
            },
            None => lemma_collect_paths_distinct(acc, lines.drop_first(), legacy),
        }
    }
}

} // verus!
