//! Line-oriented reading of `"key" "value"` pairs, as the client's manifest
//! and library index files write them one per line.

use vstd::prelude::*;
use crate::text::{skip_ws, is_whitespace_char, is_ws, trim, trim_bounds, chars_of};

verus! {

/// The index of the first newline at or after `i`, or the length.
pub open spec fn line_end(s: Seq<char>, i: int) -> int
    decreases s.len() - i,
{
    if i < 0 || i >= s.len() {
        s.len() as int
    } else if s[i] == '\n' {
        i
    } else {
        line_end(s, i + 1)
    }
}

pub proof fn lemma_line_end_bounds(s: Seq<char>, i: int)
    requires
        0 <= i <= s.len(),
    ensures
        i <= line_end(s, i) <= s.len(),
        line_end(s, i) < s.len() ==> s[line_end(s, i)] == '\n',
    decreases s.len() - i,
{
    if i < s.len() && s[i] != '\n' {
        lemma_line_end_bounds(s, i + 1);
    }
}

/// The lines of `s` from index `i` on: the text split at each newline.
pub open spec fn lines_from(s: Seq<char>, i: int) -> Seq<Seq<char>>
    decreases s.len() + 1 - i,
    via lines_from_decreases
{
    if i < 0 || i > s.len() {
        seq![]
    } else {
        let e = line_end(s, i);
        if e < s.len() {
            seq![s.subrange(i, e)] + lines_from(s, e + 1)
        } else {
            seq![s.subrange(i, e)]
        }
    }
}

#[via_fn]
proof fn lines_from_decreases(s: Seq<char>, i: int) {
    if 0 <= i <= s.len() {
        lemma_line_end_bounds(s, i);
    }
}

pub open spec fn lines_of(s: Seq<char>) -> Seq<Seq<char>> {
    lines_from(s, 0)
}

pub open spec fn lines_view(v: Seq<Vec<char>>) -> Seq<Seq<char>> {
    v.map_values(|l: Vec<char>| l@)
}

/// Splits a text at each newline.
pub fn split_lines(s: &Vec<char>) -> (r: Vec<Vec<char>>)
    ensures
        lines_view(r@) == lines_of(s@),
{
    let n = s.len();
    let mut out: Vec<Vec<char>> = Vec::new();
    let mut i: usize = 0;
    assert(lines_view(out@) =~= seq![]);
    loop
        invariant
            0 <= i <= n == s@.len(),
            lines_view(out@) + lines_from(s@, i as int) == lines_of(s@),
        decreases n - i,
    {
        let mut line: Vec<char> = Vec::new();
        let mut j: usize = i;
        while j < n && s[j] != '\n'
            invariant
                i <= j <= n == s@.len(),
                line_end(s@, j as int) == line_end(s@, i as int),
                line@ == s@.subrange(i as int, j as int),
            decreases n - j,
        {
            line.push(s[j]);
            j = j + 1;
            assert(line@ =~= s@.subrange(i as int, j as int));
        }
        let ghost before = lines_view(out@);
        proof {
            lemma_line_end_bounds(s@, i as int);
            assert(lines_view(out@.push(line)) =~= before.push(line@));
        }
        out.push(line);
        if j >= n {
            assert(lines_view(out@) =~= lines_of(s@));
            return out;
        }
        i = j + 1;
        assert(lines_view(out@) + lines_from(s@, i as int) =~= lines_of(s@));
    }
}

/// The index of the first quote at or after `i`, or the length.
pub open spec fn next_quote(l: Seq<char>, i: int) -> int
    decreases l.len() - i,
{
    if i < 0 || i >= l.len() {
        l.len() as int
    } else if l[i] == '"' {
        i
    } else {
        next_quote(l, i + 1)
    }
}

/// Where a line begins with a quoted non-empty key and a quoted value
/// (whitespace allowed before each): the bounds of the key and of the value.
/// This is the line pattern `^\s*"([^"]+)"\s*"([^"]*)"`.
pub open spec fn pair_bounds(l: Seq<char>) -> Option<(int, int, int, int)> {
    let a = skip_ws(l, 0);
    if a >= l.len() || l[a] != '"' {
        None
    } else {
        let b = next_quote(l, a + 1);
        if b >= l.len() || b == a + 1 {
            None
        } else {
            let c = skip_ws(l, b + 1);
            if c >= l.len() || l[c] != '"' {
                None
            } else {
                let e = next_quote(l, c + 1);
                if e >= l.len() {
                    None
                } else {
                    Some((a + 1, b, c + 1, e))
                }
            }
        }
    }
}

/// The key and the raw value of a `"key" "value"` line.
pub open spec fn line_pair(l: Seq<char>) -> Option<(Seq<char>, Seq<char>)> {
    match pair_bounds(l) {
        Some(p) => Some((l.subrange(p.0, p.1), l.subrange(p.2, p.3))),
        None => None,
    }
}

proof fn lemma_skip_ws_facts(s: Seq<char>, i: int)
    requires
        0 <= i <= s.len(),
    ensures
        i <= skip_ws(s, i) <= s.len(),
        skip_ws(s, i) < s.len() ==> !is_ws(s[skip_ws(s, i)]),
    decreases s.len() - i,
{
    if i < s.len() && is_ws(s[i]) {
        lemma_skip_ws_facts(s, i + 1);
    }
}

proof fn lemma_next_quote_facts(s: Seq<char>, i: int)
    requires
        0 <= i <= s.len(),
    ensures
        i <= next_quote(s, i) <= s.len(),
    decreases s.len() - i,
{
    if i < s.len() && s[i] != '"' {
        lemma_next_quote_facts(s, i + 1);
    }
}

fn skip_ws_from(l: &[char], start: usize) -> (r: usize)
    requires
        start <= l@.len(),
    ensures
        r == skip_ws(l@, start as int),
        start <= r <= l@.len(),
{
    let mut i = start;
    while i < l.len() && is_whitespace_char(l[i])
        invariant
            start <= i <= l@.len(),
            skip_ws(l@, i as int) == skip_ws(l@, start as int),
        decreases l@.len() - i,
    {
        i = i + 1;
    }
    i
}

fn next_quote_from(l: &[char], start: usize) -> (r: usize)
    requires
        start <= l@.len(),
    ensures
        r == next_quote(l@, start as int),
        start <= r <= l@.len(),
{
    let mut i = start;
    while i < l.len() && l[i] != '"'
        invariant
            start <= i <= l@.len(),
            next_quote(l@, i as int) == next_quote(l@, start as int),
        decreases l@.len() - i,
    {
        i = i + 1;
    }
    i
}

/// The bounds of the key and value of a `"key" "value"` line.
pub fn line_pair_bounds(l: &[char]) -> (r: Option<(usize, usize, usize, usize)>)
    ensures
        match pair_bounds(l@) {
            Some(p) => r matches Some(q) && q.0 == p.0 && q.1 == p.1 && q.2 == p.2 && q.3 == p.3
                && p.0 <= p.1 <= p.2 <= p.3 <= l@.len(),
            None => r is None,
        },
{
    let a = skip_ws_from(l, 0);
    if a >= l.len() || l[a] != '"' {
        return None;
    }
    let b = next_quote_from(l, a + 1);
    if b >= l.len() || b == a + 1 {
        return None;
    }
    let c = skip_ws_from(l, b + 1);
    if c >= l.len() || l[c] != '"' {
        return None;
    }
    let e = next_quote_from(l, c + 1);
    if e >= l.len() {
        return None;
    }
    Some((a + 1, b, c + 1, e))
}

/// What an escaped character stands for in a value read from a line.
pub open spec fn decode_escape(c: char) -> char {
    if c == 't' {
        '\t'
    } else if c == 'n' {
        '\n'
    } else if c == 'r' {
        '\r'
    } else {
        c
    }
}

/// A value with its backslash escapes resolved; a lone trailing backslash
/// is dropped.
pub open spec fn decode_value(s: Seq<char>) -> Seq<char>
    decreases s.len(),
{
    if s.len() == 0 {
        s
    } else if s[0] != '\\' {
        seq![s[0]] + decode_value(s.drop_first())
    } else if s.len() == 1 {
        seq![]
    } else {
        seq![decode_escape(s[1])] + decode_value(s.subrange(2, s.len() as int))
    }
}

/// Resolves the backslash escapes of `value[lo..hi]`.
pub fn decode_chars(value: &[char], lo: usize, hi: usize) -> (r: Vec<char>)
    requires
        lo <= hi <= value@.len(),
    ensures
        r@ == decode_value(value@.subrange(lo as int, hi as int)),
{
    let mut out: Vec<char> = Vec::new();
    let mut i = lo;
    let ghost whole = decode_value(value@.subrange(lo as int, hi as int));
    while i < hi
        invariant
            lo <= i <= hi <= value@.len(),
            out@ + decode_value(value@.subrange(i as int, hi as int)) == whole,
        decreases hi - i,
    {
        let ghost rest = value@.subrange(i as int, hi as int);
        let c = value[i];
        if c != '\\' {
            out.push(c);
            i = i + 1;
            assert(rest.drop_first() =~= value@.subrange(i as int, hi as int));
            assert(out@ + decode_value(value@.subrange(i as int, hi as int)) =~= whole);
        } else if i + 1 >= hi {
            i = hi;
            assert(out@ + decode_value(value@.subrange(i as int, hi as int)) =~= whole);
        } else {
            let e = value[i + 1];
            let d = if e == 't' {
                '\t'
            } else if e == 'n' {
                '\n'
            } else if e == 'r' {
                '\r'
            } else {
                e
            };
            out.push(d);
            i = i + 2;
            assert(rest.subrange(2, rest.len() as int) =~= value@.subrange(i as int, hi as int));
            assert(out@ + decode_value(value@.subrange(i as int, hi as int)) =~= whole);
        }
    }
    assert(value@.subrange(i as int, hi as int).len() == 0);
    assert(out@ =~= whole);
    out
}

/// The value of a line, decoded and trimmed.
pub open spec fn clean_value(v: Seq<char>) -> Seq<char> {
    trim(decode_value(v))
}

/// Decodes and trims `line[lo..hi]`.
pub fn clean_chars(line: &[char], lo: usize, hi: usize) -> (r: Vec<char>)
    requires
        lo <= hi <= line@.len(),
    ensures
        r@ == clean_value(line@.subrange(lo as int, hi as int)),
{
    let d = decode_chars(line, lo, hi);
    let (a, b) = trim_bounds(d.as_slice());
    let mut out: Vec<char> = Vec::new();
    let mut i = a;
    while i < b
        invariant
            a <= i <= b <= d@.len(),
            out@ == d@.subrange(a as int, i as int),
        decreases b - i,
    {
        out.push(d[i]);
        i = i + 1;
        assert(out@ =~= d@.subrange(a as int, i as int));
    }
    out
}

/// Whether `k[lo..hi]` spells `lit`.
pub fn range_is(k: &[char], lo: usize, hi: usize, lit: &str) -> (r: bool)
    requires
        lo <= hi <= k@.len(),
    ensures
        r == (k@.subrange(lo as int, hi as int) == lit@),
{
    let l = chars_of(lit);
    if hi - lo != l.len() {
        return false;
    }
    let mut i: usize = 0;
    while i < l.len()
        invariant
            l@ == lit@,
            hi - lo == l@.len(),
            lo <= hi <= k@.len(),
            0 <= i <= l@.len(),
            forall|j: int| 0 <= j < i ==> k@[lo + j] == l@[j],
        decreases l@.len() - i,
    {
        if k[lo + i] != l[i] {
            assert(k@.subrange(lo as int, hi as int)[i as int] != lit@[i as int]);
            return false;
        }
        i = i + 1;
    }
    assert(k@.subrange(lo as int, hi as int) =~= lit@);
    true
}

} // verus!
