//! Why a parsed document survives being written out and read back.

use vstd::prelude::*;
use crate::text::is_ws;
use crate::vdf::{
    Doc, Tok, bare, escape, escape_char, lex, parse_doc_spec, parse_entries, quote, quoted,
    ser_entries, ser_entry, serialize_spec, skip_line, strip_bom, tabs, tokenize_spec, unescape,
    lemma_quoted_shorter, lemma_bare_shorter, lemma_skip_line_shorter,
};

verus! {

pub open spec fn nul_free(s: Seq<char>) -> bool {
    forall|i: int| 0 <= i < s.len() ==> #[trigger] s[i] != '\0'
}

/// No text of the document, key or leaf, holds a NUL character.
pub open spec fn doc_nul_free(d: Doc) -> bool
    decreases d,
{
    match d {
        Doc::Text(t) => nul_free(t),
        Doc::Object(es) => entries_nul_free(es),
    }
}

pub open spec fn entries_nul_free(es: Seq<(Seq<char>, Doc)>) -> bool
    decreases es,
{
    if es.len() == 0 {
        true
    } else {
        entries_nul_free(es.subrange(0, es.len() - 1)) && nul_free(es[es.len() - 1].0)
            && doc_nul_free(es[es.len() - 1].1)
    }
}

pub open spec fn toks_nul_free(t: Seq<Tok>) -> bool {
    forall|i: int| 0 <= i < t.len() ==> (#[trigger] t[i] matches Tok::Text(x) ==> nul_free(x))
}

/// The tokens that one entry is written as.
pub open spec fn toks_entry(k: Seq<char>, v: Doc) -> Seq<Tok>
    decreases v,
{
    match v {
        Doc::Text(t) => seq![Tok::Text(k), Tok::Text(t)],
        Doc::Object(es) => seq![Tok::Text(k), Tok::Open] + toks_entries(es) + seq![Tok::Close],
    }
}

pub open spec fn toks_entries(es: Seq<(Seq<char>, Doc)>) -> Seq<Tok>
    decreases es,
{
    if es.len() == 0 {
        seq![]
    } else {
        toks_entries(es.subrange(0, es.len() - 1)) + toks_entry(
            es[es.len() - 1].0,
            es[es.len() - 1].1,
        )
    }
}

// ---------------------------------------------------------------------------
// Parsed documents hold no NUL
// ---------------------------------------------------------------------------

proof fn lemma_quoted_nul_free(s: Seq<char>, acc: Seq<char>)
    requires
        nul_free(acc),
    ensures
        nul_free(quoted(s, acc).0),
    decreases s.len(),
{
    if s.len() > 0 && s[0] != '"' {
        if s[0] == '\0' {
            lemma_quoted_nul_free(s.drop_first(), acc);
        } else if s[0] == '\\' {
            if s.len() > 1 {
                let a2 = acc + unescape(s[1]);
                assert forall|i: int| 0 <= i < a2.len() implies #[trigger] a2[i] != '\0' by {
                    if i >= acc.len() {
                        assert(a2[i] == unescape(s[1])[i - acc.len()]);
                    }
                }
                lemma_quoted_nul_free(s.subrange(2, s.len() as int), a2);
            }
        } else {
            let a2 = acc.push(s[0]);
            assert forall|i: int| 0 <= i < a2.len() implies #[trigger] a2[i] != '\0' by {
                if i < acc.len() {
                    assert(a2[i] == acc[i]);
                }
            }
            lemma_quoted_nul_free(s.drop_first(), a2);
        }
    }
}

proof fn lemma_bare_nul_free(s: Seq<char>, acc: Seq<char>)
    requires
        nul_free(acc),
    ensures
        nul_free(bare(s, acc).0),
    decreases s.len(),
{
    if s.len() > 0 && s[0] != '\0' && !crate::vdf::ends_bare(s[0]) {
        let a2 = acc.push(s[0]);
        assert forall|i: int| 0 <= i < a2.len() implies #[trigger] a2[i] != '\0' by {
            if i < acc.len() {
                assert(a2[i] == acc[i]);
            }
        }
        lemma_bare_nul_free(s.drop_first(), a2);
    } else if s.len() > 0 && s[0] == '\0' {
        lemma_bare_nul_free(s.drop_first(), acc);
    }
}

proof fn lemma_toks_concat(a: Seq<Tok>, b: Seq<Tok>)
    requires
        toks_nul_free(a),
        toks_nul_free(b),
    ensures
        toks_nul_free(a + b),
{
    assert forall|i: int| 0 <= i < (a + b).len() implies (#[trigger] (a + b)[i] matches Tok::Text(
        x,
    ) ==> nul_free(x)) by {
        if i < a.len() {
            assert((a + b)[i] == a[i]);
        } else {
            assert((a + b)[i] == b[i - a.len()]);
        }
    }
}

proof fn lemma_lex_nul_free(s: Seq<char>)
    ensures
        toks_nul_free(lex(s)),
    decreases s.len(),
{
    if s.len() > 0 {
        let c = s[0];
        let r = s.drop_first();
        if c == '{' || c == '}' {
            lemma_lex_nul_free(r);
            lemma_toks_concat(seq![if c == '{' { Tok::Open } else { Tok::Close }], lex(r));
        } else if c == '"' {
            let q = quoted(r, seq![]);
            lemma_quoted_shorter(r, seq![]);
            lemma_quoted_nul_free(r, seq![]);
            lemma_lex_nul_free(q.1);
            lemma_toks_concat(seq![Tok::Text(q.0)], lex(q.1));
        } else if is_ws(c) || c == '\0' {
            lemma_lex_nul_free(r);
        } else if c == '/' && r.len() > 0 && r[0] == '/' {
            lemma_skip_line_shorter(r.drop_first());
            lemma_lex_nul_free(skip_line(r.drop_first()));
        } else {
            let b = bare(r, seq![c]);
            lemma_bare_shorter(r, seq![c]);
            lemma_bare_nul_free(r, seq![c]);
            lemma_lex_nul_free(b.1);
            lemma_toks_concat(seq![Tok::Text(b.0)], lex(b.1));
        }
    }
}

proof fn lemma_entries_push_nul_free(acc: Seq<(Seq<char>, Doc)>, e: (Seq<char>, Doc))
    requires
        entries_nul_free(acc),
        nul_free(e.0),
        doc_nul_free(e.1),
    ensures
        entries_nul_free(acc.push(e)),
{
    assert(acc.push(e).subrange(0, acc.len() as int) =~= acc);
}

proof fn lemma_toks_suffix(t: Seq<Tok>, k: int)
    requires
        toks_nul_free(t),
        0 <= k <= t.len(),
    ensures
        toks_nul_free(t.subrange(k, t.len() as int)),
{
    assert forall|i: int| 0 <= i < t.subrange(k, t.len() as int).len() implies (
    #[trigger] t.subrange(k, t.len() as int)[i] matches Tok::Text(x) ==> nul_free(x)) by {
        assert(t.subrange(k, t.len() as int)[i] == t[k + i]);
    }
}

proof fn lemma_parse_nul_free(t: Seq<Tok>, acc: Seq<(Seq<char>, Doc)>)
    requires
        toks_nul_free(t),
        entries_nul_free(acc),
    ensures
        parse_entries(t, acc) matches Some(p) ==> entries_nul_free(p.0) && toks_nul_free(p.1),
    decreases t.len(),
{
    if t.len() > 0 {
        match t[0] {
            Tok::Close => {
                lemma_toks_suffix(t, 1);
                assert(t.drop_first() =~= t.subrange(1, t.len() as int));
            },
            Tok::Open => {},
            Tok::Text(k) => {
                if t.len() >= 2 {
                    assert(t[0] matches Tok::Text(x) ==> nul_free(x));
                    lemma_toks_suffix(t, 2);
                    match t[1] {
                        Tok::Text(v) => {
                            assert(t[1] matches Tok::Text(x) ==> nul_free(x));
                            lemma_entries_push_nul_free(acc, (k, Doc::Text(v)));
                            lemma_parse_nul_free(
                                t.subrange(2, t.len() as int),
                                acc.push((k, Doc::Text(v))),
                            );
                        },
                        Tok::Close => {},
                        Tok::Open => {
                            lemma_parse_nul_free(t.subrange(2, t.len() as int), seq![]);
                            match parse_entries(t.subrange(2, t.len() as int), seq![]) {
                                None => {},
                                Some(inner) => {
                                    if inner.1.len() < t.len() {
                                        lemma_entries_push_nul_free(
                                            acc,
                                            (k, Doc::Object(inner.0)),
                                        );
                                        lemma_parse_nul_free(
                                            inner.1,
                                            acc.push((k, Doc::Object(inner.0))),
                                        );
                                    }
                                },
                            }
                        },
                    }
                }
            },
        }
    }
}

/// A document that parses holds no NUL character and is an object.
pub proof fn lemma_parsed_nul_free(s: Seq<char>, d: Doc)
    requires
        parse_doc_spec(s) == Some(d),
    ensures
        doc_nul_free(d),
        d is Object,
{
    lemma_lex_nul_free(strip_bom(s));
    lemma_parse_nul_free(tokenize_spec(s), seq![]);
}


// ---------------------------------------------------------------------------
// Reading back what the serializer writes
// ---------------------------------------------------------------------------

proof fn lemma_escape_concat(a: Seq<char>, b: Seq<char>)
    ensures
        escape(a + b) == escape(a) + escape(b),
    decreases b.len(),
{
    if b.len() == 0 {
        assert(a + b =~= a);
        assert(escape(a) + escape(b) =~= escape(a));
    } else {
        assert((a + b).drop_last() =~= a + b.drop_last());
        assert((a + b).last() == b.last());
        lemma_escape_concat(a, b.drop_last());
        assert(escape(a + b) =~= escape(a) + escape(b));
    }
}

proof fn lemma_quoted_escape(k: Seq<char>, y: Seq<char>, acc: Seq<char>)
    requires
        nul_free(k),
    ensures
        quoted(escape(k) + seq!['"'] + y, acc) == (acc + k, y),
    decreases k.len(),
{
    let s = escape(k) + seq!['"'] + y;
    if k.len() == 0 {
        assert(escape(k) =~= seq![]);
        assert(s[0] == '"');
        assert(s.drop_first() =~= y);
        assert(acc + k =~= acc);
    } else {
        let c = k[0];
        let r = k.drop_first();
        assert(k =~= seq![c] + r);
        lemma_escape_concat(seq![c], r);
        assert(seq![c].drop_last() =~= Seq::<char>::empty());
        assert(seq![c].last() == c);
        assert(escape(Seq::<char>::empty()) == Seq::<char>::empty());
        assert(escape(seq![c]) == escape(seq![c].drop_last()) + escape_char(c));
        assert(escape(seq![c]) =~= escape_char(c));
        assert(c != '\0');
        assert(nul_free(r)) by {
            assert forall|i: int| 0 <= i < r.len() implies #[trigger] r[i] != '\0' by {
                assert(r[i] == k[i + 1]);
            }
        }
        let ec = escape_char(c);
        assert(s =~= ec + (escape(r) + seq!['"'] + y));
        if c == '\\' || c == '"' || c == '\n' || c == '\r' || c == '\t' {
            assert(ec.len() == 2 && ec[0] == '\\');
            assert(s[0] == '\\' && s[1] == ec[1]);
            assert(unescape(ec[1]) =~= seq![c]);
            assert(s.subrange(2, s.len() as int) =~= escape(r) + seq!['"'] + y);
            lemma_quoted_escape(r, y, acc + seq![c]);
            assert(acc + seq![c] + r =~= acc + k);
        } else {
            assert(ec =~= seq![c]);
            assert(s[0] == c);
            assert(s.drop_first() =~= escape(r) + seq!['"'] + y);
            lemma_quoted_escape(r, y, acc.push(c));
            assert(acc.push(c) + r =~= acc + k);
        }
    }
}

proof fn lemma_lex_cons(c: char, y: Seq<char>)
    ensures
        c == '{' ==> lex(seq![c] + y) == seq![Tok::Open] + lex(y),
        c == '}' ==> lex(seq![c] + y) == seq![Tok::Close] + lex(y),
        (c == '\t' || c == '\n') ==> lex(seq![c] + y) == lex(y),
{
    let s = seq![c] + y;
    assert(s[0] == c);
    assert(s.drop_first() =~= y);
    assert(is_ws('\t') && is_ws('\n'));
}

proof fn lemma_lex_tabs(n: nat, y: Seq<char>)
    ensures
        lex(tabs(n) + y) == lex(y),
    decreases n,
{
    if n > 0 {
        assert(tabs(n) + y =~= seq!['\t'] + (tabs((n - 1) as nat) + y));
        lemma_lex_cons('\t', tabs((n - 1) as nat) + y);
        lemma_lex_tabs((n - 1) as nat, y);
    } else {
        assert(tabs(n) + y =~= y);
    }
}

proof fn lemma_lex_quote(k: Seq<char>, y: Seq<char>)
    requires
        nul_free(k),
    ensures
        lex(quote(k) + y) == seq![Tok::Text(k)] + lex(y),
{
    let s = quote(k) + y;
    assert(s =~= seq!['"'] + (escape(k) + seq!['"'] + y));
    assert(s[0] == '"');
    assert(s.drop_first() =~= escape(k) + seq!['"'] + y);
    lemma_quoted_escape(k, y, seq![]);
    assert(Seq::<char>::empty() + k =~= k);
}

proof fn lemma_lex_entry(k: Seq<char>, v: Doc, d: nat, x: Seq<char>)
    requires
        nul_free(k),
        doc_nul_free(v),
    ensures
        lex(ser_entry(k, v, d) + x) == toks_entry(k, v) + lex(x),
    decreases v,
{
    match v {
        Doc::Text(t) => {
            let y4 = seq!['\n'] + x;
            let y3 = quote(t) + y4;
            let y2 = seq!['\t'] + y3;
            let y1 = quote(k) + y2;
            assert(ser_entry(k, v, d) + x =~= tabs(d) + y1);
            lemma_lex_tabs(d, y1);
            lemma_lex_quote(k, y2);
            lemma_lex_cons('\t', y3);
            lemma_lex_quote(t, y4);
            lemma_lex_cons('\n', x);
            assert(toks_entry(k, v) + lex(x) =~= seq![Tok::Text(k)] + (seq![Tok::Text(t)] + lex(x)));
        },
        Doc::Object(es) => {
            let z2 = seq!['}'] + (seq!['\n'] + x);
            let z1 = tabs(d) + z2;
            let y5 = ser_entries(es, d + 1) + z1;
            let y4 = seq!['\n'] + y5;
            let y3 = seq!['{'] + y4;
            let y2b = tabs(d) + y3;
            let y2 = seq!['\n'] + y2b;
            let y1 = quote(k) + y2;
            assert(ser_entry(k, v, d) + x =~= tabs(d) + y1);
            lemma_lex_tabs(d, y1);
            lemma_lex_quote(k, y2);
            lemma_lex_cons('\n', y2b);
            lemma_lex_tabs(d, y3);
            lemma_lex_cons('{', y4);
            lemma_lex_cons('\n', y5);
            lemma_lex_entries(es, d + 1, z1);
            lemma_lex_tabs(d, z2);
            lemma_lex_cons('}', seq!['\n'] + x);
            lemma_lex_cons('\n', x);
            assert(toks_entry(k, v) + lex(x) =~= seq![Tok::Text(k)] + (seq![Tok::Open] + (
            toks_entries(es) + (seq![Tok::Close] + lex(x)))));
        },
    }
}

proof fn lemma_lex_entries(es: Seq<(Seq<char>, Doc)>, d: nat, x: Seq<char>)
    requires
        entries_nul_free(es),
    ensures
        lex(ser_entries(es, d) + x) == toks_entries(es) + lex(x),
    decreases es,
{
    if es.len() == 0 {
        assert(ser_entries(es, d) + x =~= x);
        assert(toks_entries(es) + lex(x) =~= lex(x));
    } else {
        let pre = es.subrange(0, es.len() - 1);
        let last = es[es.len() - 1];
        let y = ser_entry(last.0, last.1, d) + x;
        assert(ser_entries(es, d) + x =~= ser_entries(pre, d) + y);
        lemma_lex_entries(pre, d, y);
        lemma_lex_entry(last.0, last.1, d, x);
        assert(toks_entries(es) + lex(x) =~= toks_entries(pre) + (toks_entry(last.0, last.1) + lex(
            x,
        )));
    }
}

proof fn lemma_parse_entry(k: Seq<char>, v: Doc, r: Seq<Tok>, acc: Seq<(Seq<char>, Doc)>)
    ensures
        parse_entries(toks_entry(k, v) + r, acc) == parse_entries(r, acc.push((k, v))),
    decreases v,
{
    let t = toks_entry(k, v) + r;
    match v {
        Doc::Text(x) => {
            assert(t[0] == Tok::Text(k) && t[1] == Tok::Text(x));
            assert(t.subrange(2, t.len() as int) =~= r);
        },
        Doc::Object(es) => {
            assert(t[0] == Tok::Text(k) && t[1] == Tok::Open);
            let inner = seq![Tok::Close] + r;
            assert(t.subrange(2, t.len() as int) =~= toks_entries(es) + inner);
            lemma_parse_entries(es, inner, seq![]);
            assert(Seq::<(Seq<char>, Doc)>::empty() + es =~= es);
            assert(inner[0] == Tok::Close);
            assert(inner.drop_first() =~= r);
        },
    }
}

proof fn lemma_parse_entries(es: Seq<(Seq<char>, Doc)>, r: Seq<Tok>, acc: Seq<(Seq<char>, Doc)>)
    ensures
        parse_entries(toks_entries(es) + r, acc) == parse_entries(r, acc + es),
    decreases es,
{
    if es.len() == 0 {
        assert(toks_entries(es) + r =~= r);
        assert(acc + es =~= acc);
    } else {
        let pre = es.subrange(0, es.len() - 1);
        let last = es[es.len() - 1];
        let y = toks_entry(last.0, last.1) + r;
        assert(toks_entries(es) + r =~= toks_entries(pre) + y);
        lemma_parse_entries(pre, y, acc);
        lemma_parse_entry(last.0, last.1, r, acc + pre);
        assert((acc + pre).push(last) =~= acc + es);
    }
}

proof fn lemma_ser_entries_start(es: Seq<(Seq<char>, Doc)>)
    ensures
        es.len() > 0 ==> ser_entries(es, 0).len() > 0 && ser_entries(es, 0)[0] == '"',
    decreases es.len(),
{
    if es.len() > 0 {
        let pre = es.subrange(0, es.len() - 1);
        let last = es[es.len() - 1];
        lemma_ser_entries_start(pre);
        let e = ser_entry(last.0, last.1, 0);
        assert(tabs(0) =~= Seq::<char>::empty());
        assert(e.len() > 0 && e[0] == '"');
        if pre.len() == 0 {
            assert(ser_entries(pre, 0) =~= Seq::<char>::empty());
            assert(ser_entries(es, 0) =~= e);
        }
    }
}

/// Writing out a document that was parsed and reading it back gives the
/// same document: `parse(serialize(tree)) == tree`.
pub proof fn lemma_round_trip(s: Seq<char>, d: Doc)
    requires
        parse_doc_spec(s) == Some(d),
    ensures
        parse_doc_spec(serialize_spec(d)) == Some(d),
{
    lemma_parsed_nul_free(s, d);
    lemma_round_trip_nul_free(d);
}

/// Any object whose texts hold no NUL character reads back as itself.
pub proof fn lemma_round_trip_nul_free(d: Doc)
    requires
        doc_nul_free(d),
        d is Object,
    ensures
        parse_doc_spec(serialize_spec(d)) == Some(d),
{
    let es = d->Object_0;
    let text = ser_entries(es, 0);
    assert(serialize_spec(d) == text);
    lemma_ser_entries_start(es);
    assert(strip_bom(text) == text);
    lemma_lex_entries(es, 0, seq![]);
    assert(text + Seq::<char>::empty() =~= text);
    assert(lex(Seq::<char>::empty()) =~= Seq::<Tok>::empty());
    assert(toks_entries(es) + Seq::<Tok>::empty() =~= toks_entries(es));
    lemma_parse_entries(es, seq![], seq![]);
    assert(Seq::<(Seq<char>, Doc)>::empty() + es =~= es);
}

} // verus!
