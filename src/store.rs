//! Text rules for what the store reports: entity decoding, item kinds from
//! names, and warning messages.

use vstd::prelude::*;
use crate::text::{chars_of, is_ws, is_whitespace_char, ascii_lower, ascii_lower_chars, string_of};

verus! {

/// Whether `pat` stands in `s` at index `i`.
pub open spec fn occurs_at(s: Seq<char>, pat: Seq<char>, i: int) -> bool {
    0 <= i && i + pat.len() <= s.len() && s.subrange(i, i + pat.len()) == pat
}

/// `s` with each occurrence of `pat`, left to right and not overlapping,
/// replaced by `rep`, as `str::replace` does.
pub open spec fn replace_all(s: Seq<char>, pat: Seq<char>, rep: Seq<char>) -> Seq<char>
    decreases s.len(),
{
    if s.len() == 0 || pat.len() == 0 {
        s
    } else if occurs_at(s, pat, 0) {
        rep + replace_all(s.subrange(pat.len() as int, s.len() as int), pat, rep)
    } else {
        seq![s[0]] + replace_all(s.drop_first(), pat, rep)
    }
}

fn occurs_at_exec(s: &Vec<char>, pat: &Vec<char>, i: usize) -> (r: bool)
    requires
        i <= s@.len(),
    ensures
        r == occurs_at(s@, pat@, i as int),
{
    let n = s.len();
    if pat.len() > n - i {
        return false;
    }
    let mut j: usize = 0;
    while j < pat.len()
        invariant
            0 <= j <= pat@.len(),
            i <= s@.len(),
            i + pat@.len() <= s@.len(),
            s@.len() <= usize::MAX,
            forall|m: int| 0 <= m < j ==> s@[i + m] == pat@[m],
        decreases pat@.len() - j,
    {
        if s[i + j] != pat[j] {
            assert(s@.subrange(i as int, i + pat@.len())[j as int] != pat@[j as int]);
            return false;
        }
        j = j + 1;
    }
    assert(s@.subrange(i as int, i + pat@.len()) =~= pat@);
    true
}

fn replace_chars(s: &Vec<char>, pat: &str, rep: &str) -> (r: Vec<char>)
    ensures
        r@ == replace_all(s@, pat@, rep@),
{
    let p = chars_of(pat);
    let q = chars_of(rep);
    if p.len() == 0 {
        let mut out: Vec<char> = Vec::new();
        let mut k: usize = 0;
        while k < s.len()
            invariant
                0 <= k <= s@.len(),
                out@ == s@.subrange(0, k as int),
            decreases s@.len() - k,
        {
            out.push(s[k]);
            k = k + 1;
            assert(out@ =~= s@.subrange(0, k as int));
        }
        assert(out@ =~= s@);
        return out;
    }
    let ghost whole = replace_all(s@, pat@, rep@);
    let mut out: Vec<char> = Vec::new();
    let mut i: usize = 0;
    assert(s@.subrange(0, s@.len() as int) =~= s@);
    assert(out@ + replace_all(s@.subrange(0, s@.len() as int), pat@, rep@) =~= whole);
    while i < s.len()
        invariant
            0 <= i <= s@.len(),
            p@ == pat@,
            q@ == rep@,
            p@.len() > 0,
            out@ + replace_all(s@.subrange(i as int, s@.len() as int), pat@, rep@) == whole,
        decreases s@.len() - i,
    {
        let ghost rest = s@.subrange(i as int, s@.len() as int);
        let ghost before = out@;
        if occurs_at_exec(s, &p, i) {
            assert(rest.subrange(0, p@.len() as int) =~= s@.subrange(i as int, i + p@.len()));
            assert(occurs_at(rest, pat@, 0));
            let mut k: usize = 0;
            while k < q.len()
                invariant
                    0 <= k <= q@.len(),
                    out@ == before + q@.subrange(0, k as int),
                decreases q@.len() - k,
            {
                out.push(q[k]);
                k = k + 1;
                assert(out@ =~= before + q@.subrange(0, k as int));
            }
            assert(q@.subrange(0, k as int) =~= q@);
            assert(rest.subrange(p@.len() as int, rest.len() as int) =~= s@.subrange(
                i + p@.len(),
                s@.len() as int,
            ));
            i = i + p.len();
            assert(out@ + replace_all(s@.subrange(i as int, s@.len() as int), pat@, rep@) =~= whole);
        } else {
            assert(!occurs_at(rest, pat@, 0)) by {
                if occurs_at(rest, pat@, 0) {
                    assert(rest.subrange(0, p@.len() as int) =~= s@.subrange(
                        i as int,
                        i + p@.len(),
                    ));
                }
            }
            out.push(s[i]);
            assert(rest.drop_first() =~= s@.subrange(i + 1, s@.len() as int));
            i = i + 1;
            assert(out@ + replace_all(s@.subrange(i as int, s@.len() as int), pat@, rep@) =~= whole);
        }
    }
    assert(out@ + replace_all(s@.subrange(i as int, s@.len() as int), pat@, rep@) =~= out@);
    out
}

/// The common HTML entities resolved, one after another: `&amp;`,
/// `&quot;`, `&#39;`, `&apos;`, `&nbsp;`, `&lt;`, `&gt;`.
pub open spec fn html_entities_spec(s: Seq<char>) -> Seq<char> {
    let a = replace_all(s, "&amp;"@, "&"@);
    let b = replace_all(a, "&quot;"@, "\""@);
    let c = replace_all(b, "&#39;"@, "'"@);
    let d = replace_all(c, "&apos;"@, "'"@);
    let e = replace_all(d, "&nbsp;"@, " "@);
    let f = replace_all(e, "&lt;"@, "<"@);
    replace_all(f, "&gt;"@, ">"@)
}

pub fn decode_basic_html_entities(value: &str) -> (r: String)
    ensures
        r@ == html_entities_spec(value@),
{
    let s = chars_of(value);
    let a = replace_chars(&s, "&amp;", "&");
    let b = replace_chars(&a, "&quot;", "\"");
    let c = replace_chars(&b, "&#39;", "'");
    let d = replace_chars(&c, "&apos;", "'");
    let e = replace_chars(&d, "&nbsp;", " ");
    let f = replace_chars(&e, "&lt;", "<");
    let g = replace_chars(&f, "&gt;", ">");
    string_of(g.as_slice())
}

pub open spec fn is_alnum(c: char) -> bool {
    ('0' <= c <= '9') || ('A' <= c <= 'Z') || ('a' <= c <= 'z')
}

/// Whether `w` stands in `s` at index `i` as a whole word: not next to an
/// ASCII letter or digit on either side.
pub open spec fn word_at(s: Seq<char>, w: Seq<char>, i: int) -> bool {
    occurs_at(s, w, i) && (i == 0 || !is_alnum(s[i - 1])) && (i + w.len() == s.len() || !is_alnum(
        s[i + w.len()],
    ))
}

pub open spec fn has_word(s: Seq<char>, w: Seq<char>) -> bool {
    exists|i: int| #[trigger] word_at(s, w, i)
}

pub open spec fn has_text(s: Seq<char>, p: Seq<char>) -> bool {
    exists|i: int| #[trigger] occurs_at(s, p, i)
}

fn is_alnum_exec(c: char) -> (r: bool)
    ensures
        r == is_alnum(c),
{
    ('0' <= c && c <= '9') || ('A' <= c && c <= 'Z') || ('a' <= c && c <= 'z')
}

fn has_text_exec(s: &Vec<char>, p: &str) -> (r: bool)
    ensures
        r == has_text(s@, p@),
{
    let pc = chars_of(p);
    let mut i: usize = 0;
    loop
        invariant
            0 <= i <= s@.len(),
            pc@ == p@,
            forall|j: int| 0 <= j < i ==> !#[trigger] occurs_at(s@, p@, j),
        decreases s@.len() - i,
    {
        if occurs_at_exec(s, &pc, i) {
            return true;
        }
        if i >= s.len() {
            assert forall|j: int| !#[trigger] occurs_at(s@, p@, j) by {
                if 0 <= j && j < i {
                }
            }
            return false;
        }
        i = i + 1;
    }
}

fn has_word_exec(s: &Vec<char>, w: &str) -> (r: bool)
    ensures
        r == has_word(s@, w@),
{
    let wc = chars_of(w);
    let mut i: usize = 0;
    let n = s.len();
    loop
        invariant
            0 <= i <= s@.len(),
            s@.len() <= usize::MAX,
            wc@ == w@,
            forall|j: int| 0 <= j < i ==> !#[trigger] word_at(s@, w@, j),
        decreases s@.len() - i,
    {
        if occurs_at_exec(s, &wc, i) {
            let before_ok = i == 0 || !is_alnum_exec(s[i - 1]);
            let end = i + wc.len();
            let after_ok = end == s.len() || !is_alnum_exec(s[end]);
            if before_ok && after_ok {
                assert(word_at(s@, w@, i as int));
                return true;
            }
        }
        if i >= s.len() {
            assert forall|j: int| !#[trigger] word_at(s@, w@, j) by {
                if 0 <= j && j < i {
                }
            }
            return false;
        }
        i = i + 1;
    }
}

/// The kind an item's name suggests: `demo` where the word demo stands in
/// it, `dlc` where the word dlc does or it mentions a season pass, an
/// expansion pass, an add-on or a soundtrack, else `game` (ignoring ASCII
/// case).
pub open spec fn kind_from_name_spec(name: Seq<char>) -> Seq<char> {
    let n = ascii_lower(name);
    if has_word(n, "demo"@) {
        "demo"@
    } else if has_word(n, "dlc"@) || has_text(n, "season pass"@) || has_text(n, "expansion pass"@)
        || has_text(n, "add-on"@) || has_text(n, "add on"@) || has_text(n, "soundtrack"@) {
        "dlc"@
    } else {
        "game"@
    }
}

pub fn classify_steam_game_kind(name: &str) -> (r: &'static str)
    ensures
        r@ == kind_from_name_spec(name@),
{
    let raw = chars_of(name);
    let n = ascii_lower_chars(raw.as_slice());
    if has_word_exec(&n, "demo") {
        return "demo";
    }
    if has_word_exec(&n, "dlc") || has_text_exec(&n, "season pass") || has_text_exec(
        &n,
        "expansion pass",
    ) || has_text_exec(&n, "add-on") || has_text_exec(&n, "add on") || has_text_exec(
        &n,
        "soundtrack",
    ) {
        return "dlc";
    }
    "game"
}

/// Whether an error message reports a refused request: it mentions
/// `status 403` or `forbidden`, ignoring ASCII case.
pub fn is_forbidden_http_error(message: &str) -> (r: bool)
    ensures
        r == (has_text(ascii_lower(message@), "status 403"@) || has_text(
            ascii_lower(message@),
            "forbidden"@,
        )),
{
    let raw = chars_of(message);
    let n = ascii_lower_chars(raw.as_slice());
    has_text_exec(&n, "status 403") || has_text_exec(&n, "forbidden")
}

/// The words of `s` after those already in `acc`, joined by single spaces;
/// `gap` marks whitespace seen since the last word.
pub open spec fn collapse(s: Seq<char>, acc: Seq<char>, gap: bool) -> Seq<char>
    decreases s.len(),
{
    if s.len() == 0 {
        acc
    } else if is_ws(s[0]) {
        collapse(s.drop_first(), acc, acc.len() > 0)
    } else {
        collapse(s.drop_first(), (if gap { acc.push(' ') } else { acc }).push(s[0]), false)
    }
}

/// The longest warning shown, in characters.
pub const MAX_WARNING_CHARS: usize = 220;

/// A warning as shown: its words joined by single spaces, a fixed message
/// where there are none, and cut to 217 characters and `...` where longer
/// than the limit.
pub open spec fn warning_spec(message: Seq<char>) -> Seq<char> {
    let c = collapse(message, seq![], false);
    if c.len() == 0 {
        "Could not load beta branch data from Steam."@
    } else if c.len() <= MAX_WARNING_CHARS {
        c
    } else {
        c.subrange(0, 217) + "..."@
    }
}

pub fn normalize_backend_warning_message(message: &str) -> (r: String)
    ensures
        r@ == warning_spec(message@),
{
    let s = chars_of(message);
    let mut out: Vec<char> = Vec::new();
    let mut gap = false;
    let mut i: usize = 0;
    let ghost whole = collapse(s@, seq![], false);
    assert(s@.subrange(0, s@.len() as int) =~= s@);
    while i < s.len()
        invariant
            0 <= i <= s@.len(),
            collapse(s@.subrange(i as int, s@.len() as int), out@, gap) == whole,
        decreases s@.len() - i,
    {
        let ghost rest = s@.subrange(i as int, s@.len() as int);
        assert(rest.drop_first() =~= s@.subrange(i + 1, s@.len() as int));
        let c = s[i];
        if is_whitespace_char(c) {
            gap = out.len() > 0;
        } else {
            if gap {
                out.push(' ');
            }
            out.push(c);
            gap = false;
        }
        i = i + 1;
    }
    assert(s@.subrange(i as int, s@.len() as int).len() == 0);
    if out.len() == 0 {
        return String::from_str("Could not load beta branch data from Steam.");
    }
    if out.len() <= MAX_WARNING_CHARS {
        return string_of(out.as_slice());
    }
    let mut cut = crate::text::chars_of_range(out.as_slice(), 0, 217);
    let mut dots = chars_of("...");
    cut.append(&mut dots);
    string_of(cut.as_slice())
}

} // verus!
