//! The nested key/value document format: its tree, tokenizer, parser and
//! serializer.

use vstd::prelude::*;
use crate::text::{chars_of, is_whitespace_char, is_ws};

verus! {

/// A lexical token of a document.
#[derive(Debug, Clone)]
pub enum VdfToken {
    OpenBrace,
    CloseBrace,
    Text(String),
}

/// A document value: a text leaf, or an ordered list of entries in which a
/// key may repeat.
#[derive(Debug)]
pub enum VdfValue {
    Object(Vec<(String, VdfValue)>),
    Text(String),
}

/// What a token denotes.
pub enum Tok {
    Open,
    Close,
    Text(Seq<char>),
}

/// What a document value denotes.
pub enum Doc {
    Object(Seq<(Seq<char>, Doc)>),
    Text(Seq<char>),
}

impl View for VdfToken {
    type V = Tok;

    open spec fn view(&self) -> Tok {
        match self {
            VdfToken::OpenBrace => Tok::Open,
            VdfToken::CloseBrace => Tok::Close,
            VdfToken::Text(t) => Tok::Text(t@),
        }
    }
}

pub open spec fn toks_view(v: Seq<VdfToken>) -> Seq<Tok> {
    v.map_values(|t: VdfToken| t@)
}

pub open spec fn doc_of(v: VdfValue) -> Doc
    decreases v,
{
    match v {
        VdfValue::Text(t) => Doc::Text(t@),
        VdfValue::Object(es) => Doc::Object(entries_doc(es@)),
    }
}

pub open spec fn entries_doc(es: Seq<(String, VdfValue)>) -> Seq<(Seq<char>, Doc)>
    decreases es,
{
    if es.len() == 0 {
        seq![]
    } else {
        entries_doc(es.subrange(0, es.len() - 1)).push(
            (es[es.len() - 1].0@, doc_of(es[es.len() - 1].1)),
        )
    }
}

impl View for VdfValue {
    type V = Doc;

    open spec fn view(&self) -> Doc {
        doc_of(*self)
    }
}

pub proof fn lemma_entries_doc_push(es: Seq<(String, VdfValue)>, e: (String, VdfValue))
    ensures
        entries_doc(es.push(e)) == entries_doc(es).push((e.0@, doc_of(e.1))),
{
    assert(es.push(e).subrange(0, es.len() as int) =~= es);
}

pub proof fn lemma_entries_doc_index(es: Seq<(String, VdfValue)>)
    ensures
        entries_doc(es).len() == es.len(),
        forall|i: int|
            0 <= i < es.len() ==> #[trigger] entries_doc(es)[i] == (es[i].0@, doc_of(es[i].1)),
    decreases es.len(),
{
    if es.len() > 0 {
        let p = es.subrange(0, es.len() - 1);
        lemma_entries_doc_index(p);
        assert forall|i: int| 0 <= i < es.len() implies #[trigger] entries_doc(es)[i] == (
        es[i].0@, doc_of(es[i].1)) by {
            if i < es.len() - 1 {
                assert(p[i] == es[i]);
            }
        }
    }
}

pub proof fn lemma_entries_doc_prefix(es: Seq<(String, VdfValue)>, i: int)
    requires
        0 <= i < es.len(),
    ensures
        entries_doc(es.subrange(0, i + 1)) == entries_doc(es.subrange(0, i)).push(
            (es[i].0@, doc_of(es[i].1)),
        ),
        entries_doc(es.subrange(0, i + 1)).subrange(0, i) == entries_doc(es.subrange(0, i)),
        entries_doc(es.subrange(0, i + 1)).len() == i + 1,
{
    assert(es.subrange(0, i + 1) =~= es.subrange(0, i).push(es[i]));
    lemma_entries_doc_push(es.subrange(0, i), es[i]);
    lemma_entries_doc_index(es.subrange(0, i));
    assert(entries_doc(es.subrange(0, i + 1)).subrange(0, i) =~= entries_doc(es.subrange(0, i)));
}

pub proof fn lemma_entries_doc_update(es: Seq<(String, VdfValue)>, i: int, e: (String, VdfValue))
    requires
        0 <= i < es.len(),
    ensures
        entries_doc(es.update(i, e)) == entries_doc(es).update(i, (e.0@, doc_of(e.1))),
{
    lemma_entries_doc_index(es);
    lemma_entries_doc_index(es.update(i, e));
    assert(entries_doc(es.update(i, e)) =~= entries_doc(es).update(i, (e.0@, doc_of(e.1))));
}

// ---------------------------------------------------------------------------
// Tokenizer
// ---------------------------------------------------------------------------

/// What an escaped character inside quotes stands for.
pub open spec fn unescape(c: char) -> Seq<char> {
    if c == 'n' {
        seq!['\n']
    } else if c == 'r' {
        seq!['\r']
    } else if c == 't' {
        seq!['\t']
    } else if c == '\0' {
        seq![]
    } else {
        seq![c]
    }
}

/// The body of a quoted token that starts at `s` (just after the opening
/// quote), appended to `acc`, and what follows the closing quote.
pub open spec fn quoted(s: Seq<char>, acc: Seq<char>) -> (Seq<char>, Seq<char>)
    decreases s.len(),
{
    if s.len() == 0 {
        (acc, s)
    } else if s[0] == '"' {
        (acc, s.drop_first())
    } else if s[0] == '\0' {
        quoted(s.drop_first(), acc)
    } else if s[0] == '\\' {
        if s.len() == 1 {
            (acc, s.drop_first())
        } else {
            quoted(s.subrange(2, s.len() as int), acc + unescape(s[1]))
        }
    } else {
        quoted(s.drop_first(), acc.push(s[0]))
    }
}

pub open spec fn ends_bare(c: char) -> bool {
    is_ws(c) || c == '{' || c == '}'
}

/// The rest of an unquoted token, appended to `acc`, and what follows it.
pub open spec fn bare(s: Seq<char>, acc: Seq<char>) -> (Seq<char>, Seq<char>)
    decreases s.len(),
{
    if s.len() == 0 {
        (acc, s)
    } else if s[0] == '\0' {
        bare(s.drop_first(), acc)
    } else if ends_bare(s[0]) {
        (acc, s)
    } else {
        bare(s.drop_first(), acc.push(s[0]))
    }
}

/// What follows the end of the current line.
pub open spec fn skip_line(s: Seq<char>) -> Seq<char>
    decreases s.len(),
{
    if s.len() == 0 {
        s
    } else if s[0] == '\n' {
        s.drop_first()
    } else {
        skip_line(s.drop_first())
    }
}

pub proof fn lemma_quoted_shorter(s: Seq<char>, acc: Seq<char>)
    ensures
        quoted(s, acc).1.len() <= s.len(),
    decreases s.len(),
{
    if s.len() > 0 && s[0] != '"' {
        if s[0] == '\0' {
            lemma_quoted_shorter(s.drop_first(), acc);
        } else if s[0] == '\\' {
            if s.len() > 1 {
                lemma_quoted_shorter(s.subrange(2, s.len() as int), acc + unescape(s[1]));
            }
        } else {
            lemma_quoted_shorter(s.drop_first(), acc.push(s[0]));
        }
    }
}

pub proof fn lemma_bare_shorter(s: Seq<char>, acc: Seq<char>)
    ensures
        bare(s, acc).1.len() <= s.len(),
    decreases s.len(),
{
    if s.len() > 0 && !ends_bare(s[0]) {
        if s[0] == '\0' {
            lemma_bare_shorter(s.drop_first(), acc);
        } else {
            lemma_bare_shorter(s.drop_first(), acc.push(s[0]));
        }
    }
}

pub proof fn lemma_skip_line_shorter(s: Seq<char>)
    ensures
        skip_line(s).len() <= s.len(),
    decreases s.len(),
{
    if s.len() > 0 && s[0] != '\n' {
        lemma_skip_line_shorter(s.drop_first());
    }
}

/// The tokens of a text, as the tokenizer reads them.
pub open spec fn lex(s: Seq<char>) -> Seq<Tok>
    decreases s.len(),
    via lex_decreases
{
    if s.len() == 0 {
        seq![]
    } else {
        let c = s[0];
        let r = s.drop_first();
        if c == '{' {
            seq![Tok::Open] + lex(r)
        } else if c == '}' {
            seq![Tok::Close] + lex(r)
        } else if c == '"' {
            let q = quoted(r, seq![]);
            seq![Tok::Text(q.0)] + lex(q.1)
        } else if is_ws(c) || c == '\0' {
            lex(r)
        } else if c == '/' && r.len() > 0 && r[0] == '/' {
            lex(skip_line(r.drop_first()))
        } else {
            let b = bare(r, seq![c]);
            seq![Tok::Text(b.0)] + lex(b.1)
        }
    }
}

#[via_fn]
proof fn lex_decreases(s: Seq<char>) {
    if s.len() > 0 {
        let r = s.drop_first();
        lemma_quoted_shorter(r, seq![]);
        lemma_bare_shorter(r, seq![s[0]]);
        if r.len() > 0 {
            lemma_skip_line_shorter(r.drop_first());
        }
    }
}

/// `s` without its leading byte-order marks.
pub open spec fn strip_bom(s: Seq<char>) -> Seq<char>
    decreases s.len(),
{
    if s.len() > 0 && s[0] == '\u{feff}' {
        strip_bom(s.drop_first())
    } else {
        s
    }
}

/// The tokens of a whole document text.
pub open spec fn tokenize_spec(s: Seq<char>) -> Seq<Tok> {
    lex(strip_bom(s))
}

pub open spec fn tail(s: Seq<char>, i: int) -> Seq<char> {
    s.subrange(i, s.len() as int)
}

proof fn lemma_tail_next(s: Seq<char>, i: int)
    requires
        0 <= i < s.len(),
    ensures
        tail(s, i).drop_first() == tail(s, i + 1),
        tail(s, i)[0] == s[i],
        tail(s, i).len() == s.len() - i,
{
    assert(tail(s, i).drop_first() =~= tail(s, i + 1));
}

proof fn lemma_tail_next2(s: Seq<char>, i: int)
    requires
        0 <= i < s.len() - 1,
    ensures
        tail(s, i).subrange(2, tail(s, i).len() as int) == tail(s, i + 2),
        tail(s, i)[1] == s[i + 1],
{
    assert(tail(s, i).subrange(2, tail(s, i).len() as int) =~= tail(s, i + 2));
}

proof fn lemma_toks_push(v: Seq<VdfToken>, t: VdfToken)
    ensures
        toks_view(v.push(t)) == toks_view(v).push(t@),
{
    assert(toks_view(v.push(t)) =~= toks_view(v).push(t@));
}

/// Reads a quoted token whose body starts at `start`; returns its text and
/// the index after the closing quote.
fn read_quoted(s: &Vec<char>, start: usize) -> (r: (String, usize))
    requires
        start <= s@.len(),
    ensures
        quoted(tail(s@, start as int), seq![]) == (r.0@, tail(s@, r.1 as int)),
        start <= r.1 <= s@.len(),
{
    let mut value = String::new();
    let mut i: usize = start;
    let n = s.len();
    loop
        invariant
            start <= i <= n == s@.len(),
            quoted(tail(s@, i as int), value@) == quoted(tail(s@, start as int), seq![]),
        decreases n - i,
    {
        if i >= n {
            assert(tail(s@, i as int).len() == 0);
            return (value, i);
        }
        proof {
            lemma_tail_next(s@, i as int);
        }
        let c = s[i];
        if c == '"' {
            return (value, i + 1);
        }
        if c == '\0' {
            i = i + 1;
            continue;
        }
        if c == '\\' {
            if i + 1 >= n {
                return (value, i + 1);
            }
            proof {
                lemma_tail_next2(s@, i as int);
            }
            let e = s[i + 1];
            let ghost before = value@;
            if e == 'n' {
                value.push('\n');
            } else if e == 'r' {
                value.push('\r');
            } else if e == 't' {
                value.push('\t');
            } else if e != '\0' {
                value.push(e);
            }
            assert(value@ =~= before + unescape(e));
            i = i + 2;
            continue;
        }
        value.push(c);
        i = i + 1;
    }
}

/// Reads the rest of an unquoted token from `start`, after its first
/// character `first`; returns its text and the index where it ends.
fn read_bare(s: &Vec<char>, start: usize, first: char) -> (r: (String, usize))
    requires
        start <= s@.len(),
    ensures
        bare(tail(s@, start as int), seq![first]) == (r.0@, tail(s@, r.1 as int)),
        start <= r.1 <= s@.len(),
{
    let mut value = String::new();
    value.push(first);
    let mut i: usize = start;
    let n = s.len();
    loop
        invariant
            start <= i <= n == s@.len(),
            bare(tail(s@, i as int), value@) == bare(tail(s@, start as int), seq![first]),
        decreases n - i,
    {
        if i >= n {
            assert(tail(s@, i as int).len() == 0);
            return (value, i);
        }
        proof {
            lemma_tail_next(s@, i as int);
        }
        let c = s[i];
        if c == '\0' {
            i = i + 1;
            continue;
        }
        if is_whitespace_char(c) || c == '{' || c == '}' {
            return (value, i);
        }
        value.push(c);
        i = i + 1;
    }
}

/// The index just after the end of the line that holds `start`.
fn skip_comment(s: &Vec<char>, start: usize) -> (r: usize)
    requires
        start <= s@.len(),
    ensures
        skip_line(tail(s@, start as int)) == tail(s@, r as int),
        start <= r <= s@.len(),
{
    let mut i: usize = start;
    let n = s.len();
    while i < n && s[i] != '\n'
        invariant
            start <= i <= n == s@.len(),
            skip_line(tail(s@, i as int)) == skip_line(tail(s@, start as int)),
        decreases n - i,
    {
        proof {
            lemma_tail_next(s@, i as int);
        }
        i = i + 1;
    }
    if i < n {
        proof {
            lemma_tail_next(s@, i as int);
        }
        i + 1
    } else {
        assert(tail(s@, i as int).len() == 0);
        i
    }
}

/// Splits a document text into tokens. Leading byte-order marks, whitespace,
/// NUL characters and `//` comments are dropped; quoted tokens are unescaped.
pub fn tokenize_vdf(contents: &str) -> (r: Vec<VdfToken>)
    ensures
        toks_view(r@) == tokenize_spec(contents@),
{
    let s = chars_of(contents);
    let n = s.len();
    let mut i: usize = 0;
    assert(tail(s@, 0) =~= s@);
    while i < n && s[i] == '\u{feff}'
        invariant
            0 <= i <= n == s@.len(),
            strip_bom(tail(s@, i as int)) == strip_bom(s@),
        decreases n - i,
    {
        proof {
            lemma_tail_next(s@, i as int);
        }
        i = i + 1;
    }
    proof {
        assert(tail(s@, 0) =~= s@);
        if i < n {
            lemma_tail_next(s@, i as int);
        }
    }
    let mut tokens: Vec<VdfToken> = Vec::new();
    assert(toks_view(tokens@) =~= seq![]);
    while i < n
        invariant
            0 <= i <= n == s@.len(),
            toks_view(tokens@) + lex(tail(s@, i as int)) == tokenize_spec(contents@),
        decreases n - i,
    {
        proof {
            lemma_tail_next(s@, i as int);
        }
        let ghost before = toks_view(tokens@);
        let c = s[i];
        if c == '{' {
            proof {
                lemma_toks_push(tokens@, VdfToken::OpenBrace);
            }
            tokens.push(VdfToken::OpenBrace);
            i = i + 1;
            assert(toks_view(tokens@) + lex(tail(s@, i as int)) =~= before + lex(
                tail(s@, i - 1),
            ));
        } else if c == '}' {
            proof {
                lemma_toks_push(tokens@, VdfToken::CloseBrace);
            }
            tokens.push(VdfToken::CloseBrace);
            i = i + 1;
            assert(toks_view(tokens@) + lex(tail(s@, i as int)) =~= before + lex(
                tail(s@, i - 1),
            ));
        } else if c == '"' {
            let (value, j) = read_quoted(&s, i + 1);
            let t = VdfToken::Text(value);
            proof {
                lemma_toks_push(tokens@, t);
            }
            tokens.push(t);
            let ghost old_i = i;
            i = j;
            assert(toks_view(tokens@) + lex(tail(s@, i as int)) =~= before + lex(
                tail(s@, old_i as int),
            ));
        } else if is_whitespace_char(c) || c == '\0' {
            i = i + 1;
        } else if c == '/' && i + 1 < n && s[i + 1] == '/' {
            proof {
                lemma_tail_next(s@, i + 1);
            }
            i = skip_comment(&s, i + 2);
        } else {
            proof {
                if c == '/' && i + 1 < n {
                    lemma_tail_next(s@, i + 1);
                }
            }
            let (value, j) = read_bare(&s, i + 1, c);
            let t = VdfToken::Text(value);
            proof {
                lemma_toks_push(tokens@, t);
            }
            tokens.push(t);
            let ghost old_i = i;
            i = j;
            assert(toks_view(tokens@) + lex(tail(s@, i as int)) =~= before + lex(
                tail(s@, old_i as int),
            ));
        }
    }
    assert(tail(s@, i as int).len() == 0);
    assert(toks_view(tokens@) + lex(tail(s@, i as int)) =~= toks_view(tokens@));
    tokens
}

// ---------------------------------------------------------------------------
// Parser
// ---------------------------------------------------------------------------

/// Why a token stream is not a document.
#[derive(Debug)]
pub enum VdfError {
    /// An opening brace stands where a key was expected.
    UnexpectedOpenBrace,
    /// The key is followed by the end of the input or by a closing brace.
    MissingValue(String),
    /// Tokens remain after the outermost object has been closed.
    TrailingTokens,
}

pub open spec fn ttail(t: Seq<Tok>, i: int) -> Seq<Tok> {
    t.subrange(i, t.len() as int)
}

/// Reads entries from `t` after those already in `acc`, up to a closing brace
/// (consumed) or the end of the tokens; gives the entries and the tokens
/// that follow, or `None` where the tokens are malformed.
pub open spec fn parse_entries(t: Seq<Tok>, acc: Seq<(Seq<char>, Doc)>) -> Option<
    (Seq<(Seq<char>, Doc)>, Seq<Tok>),
>
    decreases t.len(),
{
    if t.len() == 0 {
        Some((acc, t))
    } else {
        match t[0] {
            Tok::Close => Some((acc, t.drop_first())),
            Tok::Open => None,
            Tok::Text(k) => {
                if t.len() < 2 {
                    None
                } else {
                    match t[1] {
                        Tok::Text(v) => parse_entries(
                            t.subrange(2, t.len() as int),
                            acc.push((k, Doc::Text(v))),
                        ),
                        Tok::Close => None,
                        Tok::Open => match parse_entries(t.subrange(2, t.len() as int), seq![]) {
                            None => None,
                            Some(inner) => {
                                if inner.1.len() < t.len() {
                                    parse_entries(inner.1, acc.push((k, Doc::Object(inner.0))))
                                } else {
                                    None
                                }
                            },
                        },
                    }
                }
            },
        }
    }
}

/// The document that a text denotes: the entries of its tokens, which must
/// all be consumed.
pub open spec fn parse_doc_spec(s: Seq<char>) -> Option<Doc> {
    match parse_entries(tokenize_spec(s), seq![]) {
        Some(p) => if p.1.len() == 0 {
            Some(Doc::Object(p.0))
        } else {
            None
        },
        None => None,
    }
}

proof fn lemma_ttail_index(t: Seq<Tok>, i: int)
    requires
        0 <= i < t.len(),
    ensures
        ttail(t, i)[0] == t[i],
        ttail(t, i).drop_first() == ttail(t, i + 1),
        ttail(t, i).len() == t.len() - i,
        i + 1 < t.len() ==> ttail(t, i)[1] == t[i + 1] && ttail(t, i).subrange(
            2,
            ttail(t, i).len() as int,
        ) == ttail(t, i + 2),
{
    assert(ttail(t, i).drop_first() =~= ttail(t, i + 1));
    if i + 1 < t.len() {
        assert(ttail(t, i).subrange(2, ttail(t, i).len() as int) =~= ttail(t, i + 2));
    }
}

/// Reads the entries of one object from `*cursor` on, up to its closing
/// brace or the end of the tokens, and leaves `*cursor` after what it read.
/// Past the end there is nothing to read: no entries, and `*cursor` stays.
pub fn parse_vdf_tokens(tokens: &[VdfToken], cursor: &mut usize) -> (r: Result<
    Vec<(String, VdfValue)>,
    VdfError,
>)
    ensures
        *old(cursor) > tokens@.len() ==> r is Ok && r->Ok_0@.len() == 0 && *final(cursor)
            == *old(cursor),
        *old(cursor) <= tokens@.len() ==> match parse_entries(
            ttail(toks_view(tokens@), *old(cursor) as int),
            seq![],
        ) {
            Some(p) => r is Ok && entries_doc(r->Ok_0@) == p.0 && *old(cursor) <= *final(cursor)
                <= tokens@.len() && ttail(toks_view(tokens@), *final(cursor) as int) == p.1,
            None => r is Err,
        },
    decreases tokens@.len() - *old(cursor),
{
    if *cursor > tokens.len() {
        return Ok(Vec::new());
    }
    let ghost tv = toks_view(tokens@);
    let ghost start = *cursor as int;
    let mut entries: Vec<(String, VdfValue)> = Vec::new();
    assert(entries_doc(entries@) =~= seq![]);
    while *cursor < tokens.len()
        invariant
            start == *old(cursor),
            start <= *cursor <= tokens@.len(),
            tv == toks_view(tokens@),
            tv.len() == tokens@.len(),
            parse_entries(ttail(tv, *cursor as int), entries_doc(entries@)) == parse_entries(
                ttail(tv, start),
                seq![],
            ),
        decreases tokens@.len() - *cursor,
    {
        let c = *cursor;
        proof {
            lemma_ttail_index(tv, c as int);
            assert(tv[c as int] == tokens@[c as int]@);
            if c + 1 < tokens@.len() {
                assert(tv[c + 1] == tokens@[c + 1]@);
            }
        }
        match &tokens[c] {
            VdfToken::CloseBrace => {
                assert(ttail(tv, c as int)[0] == Tok::Close);
                assert(parse_entries(ttail(tv, c as int), entries_doc(entries@)) == Some(
                    (entries_doc(entries@), ttail(tv, c + 1)),
                ));
                *cursor = c + 1;
                return Ok(entries);
            },
            VdfToken::OpenBrace => {
                assert(ttail(tv, c as int)[0] == Tok::Open);
                return Err(VdfError::UnexpectedOpenBrace);
            },
            VdfToken::Text(key) => {
                let key = key.clone();
                if c + 1 >= tokens.len() {
                    return Err(VdfError::MissingValue(key));
                }
                match &tokens[c + 1] {
                    VdfToken::Text(value) => {
                        let v = VdfValue::Text(value.clone());
                        proof {
                            lemma_entries_doc_push(entries@, (key, v));
                        }
                        entries.push((key, v));
                        *cursor = c + 2;
                    },
                    VdfToken::OpenBrace => {
                        *cursor = c + 2;
                        match parse_vdf_tokens(tokens, cursor) {
                            Ok(inner) => {
                                let v = VdfValue::Object(inner);
                                proof {
                                    lemma_entries_doc_push(entries@, (key, v));
                                }
                                entries.push((key, v));
                            },
                            Err(e) => {
                                return Err(e);
                            },
                        }
                    },
                    VdfToken::CloseBrace => {
                        return Err(VdfError::MissingValue(key));
                    },
                }
            },
        }
    }
    assert(ttail(tv, *cursor as int).len() == 0);
    Ok(entries)
}

/// Parses a whole document text into an object.
pub fn parse_vdf_document(contents: &str) -> (r: Result<VdfValue, VdfError>)
    ensures
        match parse_doc_spec(contents@) {
            Some(d) => r is Ok && r->Ok_0@ == d,
            None => r is Err,
        },
{
    let tokens = tokenize_vdf(contents);
    let mut cursor: usize = 0;
    assert(ttail(toks_view(tokens@), 0) =~= toks_view(tokens@));
    let entries = match parse_vdf_tokens(tokens.as_slice(), &mut cursor) {
        Ok(e) => e,
        Err(e) => {
            return Err(e);
        },
    };
    if cursor < tokens.len() {
        return Err(VdfError::TrailingTokens);
    }
    Ok(VdfValue::Object(entries))
}

// ---------------------------------------------------------------------------
// Serializer
// ---------------------------------------------------------------------------

pub open spec fn escape_char(c: char) -> Seq<char> {
    if c == '\\' {
        seq!['\\', '\\']
    } else if c == '"' {
        seq!['\\', '"']
    } else if c == '\n' {
        seq!['\\', 'n']
    } else if c == '\r' {
        seq!['\\', 'r']
    } else if c == '\t' {
        seq!['\\', 't']
    } else {
        seq![c]
    }
}

/// A text with backslash, quote, newline, carriage return and tab escaped.
pub open spec fn escape(s: Seq<char>) -> Seq<char>
    decreases s.len(),
{
    if s.len() == 0 {
        seq![]
    } else {
        escape(s.drop_last()) + escape_char(s.last())
    }
}

pub open spec fn tabs(n: nat) -> Seq<char> {
    Seq::new(n, |i: int| '\t')
}

/// A quoted, escaped text.
pub open spec fn quote(s: Seq<char>) -> Seq<char> {
    seq!['"'] + escape(s) + seq!['"']
}

/// One entry rendered at nesting depth `depth`.
pub open spec fn ser_entry(k: Seq<char>, v: Doc, depth: nat) -> Seq<char>
    decreases v,
{
    match v {
        Doc::Text(t) => tabs(depth) + quote(k) + seq!['\t'] + quote(t) + seq!['\n'],
        Doc::Object(es) => tabs(depth) + quote(k) + seq!['\n'] + tabs(depth) + seq!['{', '\n']
            + ser_entries(es, depth + 1) + tabs(depth) + seq!['}', '\n'],
    }
}

/// Entries rendered one after another at nesting depth `depth`.
pub open spec fn ser_entries(es: Seq<(Seq<char>, Doc)>, depth: nat) -> Seq<char>
    decreases es,
{
    if es.len() == 0 {
        seq![]
    } else {
        ser_entries(es.subrange(0, es.len() - 1), depth) + ser_entry(
            es[es.len() - 1].0,
            es[es.len() - 1].1,
            depth,
        )
    }
}

/// The text of a document.
pub open spec fn serialize_spec(d: Doc) -> Seq<char> {
    match d {
        Doc::Object(es) => ser_entries(es, 0),
        Doc::Text(t) => quote(t) + seq!['\n'],
    }
}

fn push_chars(out: &mut String, s: &Vec<char>)
    ensures
        final(out)@ == old(out)@ + s@,
{
    let mut i: usize = 0;
    while i < s.len()
        invariant
            0 <= i <= s@.len(),
            out@ == old(out)@ + s@.subrange(0, i as int),
        decreases s@.len() - i,
    {
        out.push(s[i]);
        i = i + 1;
        assert(out@ =~= old(out)@ + s@.subrange(0, i as int));
    }
    assert(s@.subrange(0, i as int) =~= s@);
}

fn push_escaped(out: &mut String, s: &str)
    ensures
        final(out)@ == old(out)@ + escape(s@),
{
    let v = chars_of(s);
    let mut i: usize = 0;
    assert(escape(v@.subrange(0, 0)) =~= seq![]);
    assert(out@ =~= old(out)@ + escape(v@.subrange(0, 0)));
    while i < v.len()
        invariant
            0 <= i <= v@.len(),
            out@ == old(out)@ + escape(v@.subrange(0, i as int)),
        decreases v@.len() - i,
    {
        let c = v[i];
        let ghost before = out@;
        if c == '\\' {
            out.push('\\');
            out.push('\\');
        } else if c == '"' {
            out.push('\\');
            out.push('"');
        } else if c == '\n' {
            out.push('\\');
            out.push('n');
        } else if c == '\r' {
            out.push('\\');
            out.push('r');
        } else if c == '\t' {
            out.push('\\');
            out.push('t');
        } else {
            out.push(c);
        }
        assert(out@ =~= before + escape_char(c));
        assert(v@.subrange(0, i + 1).drop_last() =~= v@.subrange(0, i as int));
        i = i + 1;
        assert(out@ =~= old(out)@ + escape(v@.subrange(0, i as int)));
    }
    assert(v@.subrange(0, i as int) =~= s@);
}

/// Escapes backslash, quote, newline, carriage return and tab.
pub fn escape_vdf_text(value: &str) -> (r: String)
    ensures
        r@ == escape(value@),
{
    let mut out = String::new();
    push_escaped(&mut out, value);
    assert(out@ =~= escape(value@));
    out
}

fn push_quoted(out: &mut String, s: &str)
    ensures
        final(out)@ == old(out)@ + quote(s@),
{
    out.push('"');
    push_escaped(out, s);
    out.push('"');
    assert(final(out)@ =~= old(out)@ + quote(s@));
}

#[verifier::loop_isolation(false)]
fn write_entry(key: &str, value: &VdfValue, indent: &mut Vec<char>, output: &mut String)
    requires
        old(indent)@ == tabs(old(indent)@.len()),
    ensures
        final(indent)@ == old(indent)@,
        final(output)@ == old(output)@ + ser_entry(key@, value@, old(indent)@.len()),
    decreases value,
{
    let ghost depth = indent@.len();
    push_chars(output, indent);
    push_quoted(output, key);
    match value {
        VdfValue::Text(text) => {
            output.push('\t');
            push_quoted(output, text.as_str());
            output.push('\n');
            assert(output@ =~= old(output)@ + ser_entry(key@, value@, depth));
        },
        VdfValue::Object(entries) => {
            output.push('\n');
            push_chars(output, indent);
            output.push('{');
            output.push('\n');
            let ghost head = output@;
            indent.push('\t');
            assert(indent@ =~= tabs(depth + 1));
            let mut i: usize = 0;
            assert(ser_entries(entries_doc(entries@.subrange(0, 0)), depth + 1) =~= seq![]);
            assert(output@ =~= head + ser_entries(entries_doc(entries@.subrange(0, 0)), depth + 1));
            while i < entries.len()
                invariant
                    0 <= i <= entries@.len(),
                    indent@ == tabs(depth + 1),
                    output@ == head + ser_entries(
                        entries_doc(entries@.subrange(0, i as int)),
                        depth + 1,
                    ),
                decreases entries@.len() - i,
            {
                let ghost pre = entries@.subrange(0, i as int);
                assert(entries@.subrange(0, i + 1) =~= pre.push(entries@[i as int]));
                proof {
                    lemma_entries_doc_push(pre, entries@[i as int]);
                    assert(entries_doc(pre.push(entries@[i as int])).subrange(
                        0,
                        entries_doc(pre).len() as int,
                    ) =~= entries_doc(pre)) by {
                        lemma_entries_doc_index(pre);
                    }
                    lemma_entries_doc_index(pre);
                }
                proof {
                    let es = *entries;
                    assert(decreases_to!(*value => es));
                    assert(decreases_to!(es => es@));
                    assert(decreases_to!(es@ => es@[i as int]));
                    assert(decreases_to!(es@[i as int] => es@[i as int].1));
                }
                write_entry(entries[i].0.as_str(), &entries[i].1, indent, output);
                i = i + 1;
            }
            assert(entries@.subrange(0, i as int) =~= entries@);
            indent.pop();
            assert(indent@ =~= old(indent)@);
            push_chars(output, indent);
            output.push('}');
            output.push('\n');
            assert(output@ =~= old(output)@ + ser_entry(key@, value@, depth));
        },
    }
}

/// Appends one entry rendered at nesting depth `depth`, one tab per level.
pub fn serialize_vdf_entry(key: &str, value: &VdfValue, depth: usize, output: &mut String)
    ensures
        final(output)@ == old(output)@ + ser_entry(key@, value@, depth as nat),
{
    let mut indent: Vec<char> = Vec::new();
    let mut i: usize = 0;
    while i < depth
        invariant
            0 <= i <= depth,
            indent@ == tabs(i as nat),
        decreases depth - i,
    {
        indent.push('\t');
        i = i + 1;
        assert(indent@ =~= tabs(i as nat));
    }
    write_entry(key, value, &mut indent, output);
}

/// Renders a document: each entry of an object, or a lone quoted text.
pub fn serialize_vdf_document(value: &VdfValue) -> (r: String)
    ensures
        r@ == serialize_spec(value@),
{
    let mut output = String::new();
    match value {
        VdfValue::Object(entries) => {
            let mut indent: Vec<char> = Vec::new();
            assert(indent@ =~= tabs(0));
            let mut i: usize = 0;
            assert(ser_entries(entries_doc(entries@.subrange(0, 0)), 0) =~= seq![]);
            assert(output@ =~= ser_entries(entries_doc(entries@.subrange(0, 0)), 0));
            while i < entries.len()
                invariant
                    0 <= i <= entries@.len(),
                    indent@ == tabs(0),
                    output@ == ser_entries(entries_doc(entries@.subrange(0, i as int)), 0),
                decreases entries@.len() - i,
            {
                let ghost pre = entries@.subrange(0, i as int);
                assert(entries@.subrange(0, i + 1) =~= pre.push(entries@[i as int]));
                proof {
                    lemma_entries_doc_push(pre, entries@[i as int]);
                    assert(entries_doc(pre.push(entries@[i as int])).subrange(
                        0,
                        entries_doc(pre).len() as int,
                    ) =~= entries_doc(pre)) by {
                        lemma_entries_doc_index(pre);
                    }
                    lemma_entries_doc_index(pre);
                }
                write_entry(entries[i].0.as_str(), &entries[i].1, &mut indent, &mut output);
                i = i + 1;
            }
            assert(entries@.subrange(0, i as int) =~= entries@);
        },
        VdfValue::Text(text) => {
            push_quoted(&mut output, text.as_str());
            output.push('\n');
            assert(output@ =~= serialize_spec(value@));
        },
    }
    output
}

} // verus!
