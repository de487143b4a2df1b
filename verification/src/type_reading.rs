//! Reading the name of a type gives the type back.
use crate::ast::{name_of, ty_named, STy};
use crate::grammar::{kind, ty, Out};
use crate::text::ascii_text;
use crate::token::{
    is_blank, is_type_name, is_word_char, is_word_start, lex, scan, skip, skip_bounds, span_at,
    word_end, word_token, SErr, SToken, STok, Scan, Tok,
};
use vstd::prelude::*;
use vstd::utf8::{encode_utf8, is_ascii_chars, is_ascii_chars_encode_utf8};

verus! {

/// A scalar type that a program can name.
pub open spec fn is_scalar(t: STy) -> bool {
    match t {
        STy::I8 | STy::I16 | STy::I32 | STy::I64 | STy::U8 | STy::U16 | STy::U32 | STy::U64
        | STy::Usize | STy::Bool | STy::Unit => true,
        _ => false,
    }
}

/// A type made of scalars, boxes, threads and references, with no reference to a
/// reference: `&&` is one token.
pub open spec fn is_simple(t: STy) -> bool
    decreases t,
{
    match t {
        STy::Box(x) => is_simple(*x),
        STy::Thread(x) => is_simple(*x),
        STy::Ref(x) => is_simple(*x) && !(*x is Ref),
        _ => is_scalar(t),
    }
}

/// From `p` on, the source spells the text, and nothing more.
pub open spec fn spells(s: Seq<u8>, p: int, w: Seq<char>) -> bool {
    &&& 0 <= p
    &&& s.len() == p + w.len()
    &&& forall|i: int| 0 <= i < w.len() ==> s[p + i] as char == #[trigger] w[i]
}

proof fn word_runs(s: Seq<u8>, p: int, e: int)
    requires
        0 <= p <= e <= s.len(),
        forall|i: int| p <= i < e ==> is_word_char(#[trigger] s[i] as char),
        e < s.len() ==> !is_word_char(s[e] as char),
    ensures
        word_end(s, p) == e,
    decreases e - p,
{
    if p < e {
        assert(is_word_char(s[p] as char));
        word_runs(s, p + 1, e);
    }
}

pub(crate) proof fn keywords()
    ensures
        "fn"@.len() == 2 && "fn"@[0] == 'f',
        "let"@.len() == 3 && "let"@[0] == 'l',
        "return"@.len() == 6 && "return"@[0] == 'r',
        "if"@.len() == 2 && "if"@[1] == 'f',
        "else"@.len() == 4 && "else"@[0] == 'e',
        "while"@.len() == 5 && "while"@[0] == 'w',
        "box"@.len() == 3 && "box"@ == seq!['b', 'o', 'x'],
        "spawn"@.len() == 5 && "spawn"@[0] == 's',
        "join"@.len() == 4 && "join"@[0] == 'j',
        "thread"@.len() == 6 && "thread"@ == seq!['t', 'h', 'r', 'e', 'a', 'd'],
        "true"@.len() == 4 && "true"@[0] == 't',
        "false"@.len() == 5 && "false"@[0] == 'f',
{
    reveal_strlit("fn");
    reveal_strlit("let");
    reveal_strlit("return");
    reveal_strlit("if");
    reveal_strlit("else");
    reveal_strlit("while");
    reveal_strlit("box");
    reveal_strlit("spawn");
    reveal_strlit("join");
    reveal_strlit("thread");
    reveal_strlit("true");
    reveal_strlit("false");
    assert("box"@ =~= seq!['b', 'o', 'x']);
    assert("thread"@ =~= seq!['t', 'h', 'r', 'e', 'a', 'd']);
}

pub(crate) proof fn scalars()
    ensures
        "i8"@ == seq!['i', '8'],
        "i16"@ == seq!['i', '1', '6'],
        "i32"@ == seq!['i', '3', '2'],
        "i64"@ == seq!['i', '6', '4'],
        "u8"@ == seq!['u', '8'],
        "u16"@ == seq!['u', '1', '6'],
        "u32"@ == seq!['u', '3', '2'],
        "u64"@ == seq!['u', '6', '4'],
        "usize"@ == seq!['u', 's', 'i', 'z', 'e'],
        "bool"@ == seq!['b', 'o', 'o', 'l'],
        "unit"@ == seq!['u', 'n', 'i', 't'],
{
    reveal_strlit("i8");
    reveal_strlit("i16");
    reveal_strlit("i32");
    reveal_strlit("i64");
    reveal_strlit("u8");
    reveal_strlit("u16");
    reveal_strlit("u32");
    reveal_strlit("u64");
    reveal_strlit("usize");
    reveal_strlit("bool");
    reveal_strlit("unit");
    assert("i8"@ =~= seq!['i', '8']);
    assert("i16"@ =~= seq!['i', '1', '6']);
    assert("i32"@ =~= seq!['i', '3', '2']);
    assert("i64"@ =~= seq!['i', '6', '4']);
    assert("u8"@ =~= seq!['u', '8']);
    assert("u16"@ =~= seq!['u', '1', '6']);
    assert("u32"@ =~= seq!['u', '3', '2']);
    assert("u64"@ =~= seq!['u', '6', '4']);
    assert("usize"@ =~= seq!['u', 's', 'i', 'z', 'e']);
    assert("bool"@ =~= seq!['b', 'o', 'o', 'l']);
    assert("unit"@ =~= seq!['u', 'n', 'i', 't']);
}

pub(crate) proof fn scalar_words(t: STy)
    requires
        is_scalar(t),
    ensures
        word_token(name_of(t)) == STok::TypeName(name_of(t)),
        ty_named(name_of(t)) == Some(t),
        name_of(t).len() > 0,
        is_word_start(name_of(t)[0]),
        forall|i: int| 0 <= i < name_of(t).len() ==> is_word_char(#[trigger] name_of(t)[i]),
{
    keywords();
    scalars();
    let w = name_of(t);
    assert(is_type_name(w));
    assert(w != "fn"@ && w != "let"@ && w != "return"@ && w != "if"@ && w != "else"@ && w != "while"@
        && w != "spawn"@ && w != "join"@ && w != "true"@ && w != "false"@);
    assert(w != "box"@ && w != "thread"@) by {
        if w == "box"@ {
            assert(w[1] == 'o' && w[2] == 'x');
        }
    }
    assert(ty_named(w) matches Some(u) && u == t) by {
        if t is U8 || t is U16 || t is U32 || t is U64 || t is Usize || t is Bool || t is Unit {
            assert(w[0] != 'i');
        }
        if let Some(u) = ty_named(w) {
            assert(name_of(u) == w);
            assert(w.len() == name_of(u).len() && w[0] == name_of(u)[0] && w[1] == name_of(u)[1]);
        }
    }
}

/// Space in front changes nothing.
pub(crate) proof fn blank_in_front(s: Seq<u8>, p: int)
    requires
        0 <= p < s.len(),
        is_blank(s[p] as char),
    ensures
        lex(s, p) == lex(s, p + 1),
{
    skip_bounds(s, p + 1);
    assert(skip(s, p) == skip(s, p + 1));
}

/// A word in front is one token.
pub(crate) proof fn word_in_front(s: Seq<u8>, p: int, w: Seq<char>)
    requires
        0 <= p,
        p + w.len() <= s.len(),
        w.len() > 0,
        is_word_start(w[0]),
        forall|i: int| 0 <= i < w.len() ==> is_word_char(#[trigger] w[i]) && s[p + i] as char == w[i],
        p + w.len() < s.len() ==> !is_word_char(s[p + w.len()] as char),
    ensures
        skip(s, p) == p,
        scan(s, p) == Scan::Token(word_token(w), p + w.len()),
{
    assert(s[p + 0] as char == w[0]);
    assert forall|i: int| p <= i < p + w.len() implies is_word_char(#[trigger] s[i] as char) by {
        assert(is_word_char(w[i - p]));
        assert(s[p + (i - p)] as char == w[i - p]);
    }
    word_runs(s, p, p + w.len());
    let sub = s.subrange(p, p + w.len());
    assert(ascii_text(sub) =~= w) by {
        assert forall|i: int| 0 <= i < w.len() implies ascii_text(sub)[i] == w[i] by {
            assert(is_word_char(w[i]));
            assert(sub[i] == s[p + i]);
        }
    }
}

/// Reading goes on behind a token that wraps a type.
proof fn wrapped(s: Seq<u8>, p: int, e: int, tok: STok, t: STy, x: STy, pre: Seq<SToken>)
    requires
        0 <= p < e <= s.len(),
        skip(s, p) == p,
        scan(s, p) == Scan::Token(tok, e),
        crate::grammar::wraps(tok, x) == Some(t),
        lex(s, e) is Ok,
        lex(s, e)->Ok_0.len() >= 2,
        lex(s, e)->Ok_0.last().tok == STok::Plain(Tok::Eof),
        ({
            let all = pre.push(SToken { tok, span: span_at(s, p) });
            ty(all + lex(s, e)->Ok_0, all.len() as int) == Out::Got(
                x,
                all.len() + lex(s, e)->Ok_0.len() - 1,
            )
        }),
    ensures
        lex(s, p) is Ok,
        lex(s, p)->Ok_0.len() >= 2,
        lex(s, p)->Ok_0.last().tok == STok::Plain(Tok::Eof),
        ty(pre + lex(s, p)->Ok_0, pre.len() as int) == Out::Got(
            t,
            pre.len() + lex(s, p)->Ok_0.len() - 1,
        ),
{
    let rest = lex(s, e)->Ok_0;
    let one = SToken { tok, span: span_at(s, p) };
    let ts = seq![one] + rest;
    let all = pre.push(one);
    assert(lex(s, p) == Ok::<Seq<SToken>, SErr>(ts));
    assert(pre + ts =~= all + rest);
    assert((pre + ts)[pre.len() as int] == one);
    assert(ts.last() == rest.last());
    assert(kind(pre + ts, pre.len() as int) == tok);
}

proof fn reads_back(s: Seq<u8>, p: int, t: STy, pre: Seq<SToken>)
    requires
        is_simple(t),
        spells(s, p, name_of(t)),
    ensures
        lex(s, p) is Ok,
        lex(s, p)->Ok_0.len() >= 2,
        lex(s, p)->Ok_0.last().tok == STok::Plain(Tok::Eof),
        ty(pre + lex(s, p)->Ok_0, pre.len() as int) == Out::Got(
            t,
            pre.len() + lex(s, p)->Ok_0.len() - 1,
        ),
    decreases t,
{
    keywords();
    reveal_strlit("box ");
    reveal_strlit("thread ");
    reveal_strlit("&");
    let w = name_of(t);
    match t {
        STy::Box(x) => {
            assert(w.len() == 4 + name_of(*x).len());
            assert(w[0] == 'b' && w[1] == 'o' && w[2] == 'x' && w[3] == ' ');
            assert(s[p + 0] as char == w[0]);
            assert(s[p + 1] as char == w[1]);
            assert(s[p + 2] as char == w[2]);
            assert(s[p + 3] as char == w[3]);
            word_in_front(s, p, "box"@);
            assert(word_token("box"@) == STok::Plain(Tok::Box));
            assert(spells(s, p + 4, name_of(*x))) by {
                assert forall|i: int| 0 <= i < name_of(*x).len() implies s[p + 4 + i] as char
                    == #[trigger] name_of(*x)[i] by {
                    assert(w[4 + i] == name_of(*x)[i]);
                    assert(s[p + (4 + i)] as char == w[4 + i]);
                }
            }
            blank_in_front(s, p + 3);
            let one = SToken { tok: STok::Plain(Tok::Box), span: span_at(s, p) };
            reads_back(s, p + 4, *x, pre.push(one));
            wrapped(s, p, p + 3, STok::Plain(Tok::Box), t, *x, pre);
        }
        STy::Thread(x) => {
            assert(w.len() == 7 + name_of(*x).len());
            assert(w[0] == 't' && w[1] == 'h' && w[2] == 'r' && w[3] == 'e' && w[4] == 'a' && w[5] == 'd'
                && w[6] == ' ');
            assert(s[p + 0] as char == w[0]);
            assert(s[p + 1] as char == w[1]);
            assert(s[p + 2] as char == w[2]);
            assert(s[p + 3] as char == w[3]);
            assert(s[p + 4] as char == w[4]);
            assert(s[p + 5] as char == w[5]);
            assert(s[p + 6] as char == w[6]);
            word_in_front(s, p, "thread"@);
            assert(word_token("thread"@) == STok::Plain(Tok::Thread));
            assert(spells(s, p + 7, name_of(*x))) by {
                assert forall|i: int| 0 <= i < name_of(*x).len() implies s[p + 7 + i] as char
                    == #[trigger] name_of(*x)[i] by {
                    assert(w[7 + i] == name_of(*x)[i]);
                    assert(s[p + (7 + i)] as char == w[7 + i]);
                }
            }
            blank_in_front(s, p + 6);
            let one = SToken { tok: STok::Plain(Tok::Thread), span: span_at(s, p) };
            reads_back(s, p + 7, *x, pre.push(one));
            wrapped(s, p, p + 6, STok::Plain(Tok::Thread), t, *x, pre);
        }
        STy::Ref(x) => {
            let n = name_of(*x);
            assert(w.len() == 1 + n.len());
            assert(w[0] == '&');
            assert(s[p + 0] as char == w[0]);
            first_letter(*x);
            assert(w[1] == n[0]);
            assert(s[p + 1] as char == w[1]);
            assert(skip(s, p) == p);
            assert(scan(s, p) == Scan::Token(STok::Plain(Tok::Amp), p + 1));
            assert(spells(s, p + 1, n)) by {
                assert forall|i: int| 0 <= i < n.len() implies s[p + 1 + i] as char == #[trigger] n[i] by {
                    assert(w[1 + i] == n[i]);
                    assert(s[p + (1 + i)] as char == w[1 + i]);
                }
            }
            let one = SToken { tok: STok::Plain(Tok::Amp), span: span_at(s, p) };
            reads_back(s, p + 1, *x, pre.push(one));
            wrapped(s, p, p + 1, STok::Plain(Tok::Amp), t, *x, pre);
        }
        _ => {
            scalar_words(t);
            assert forall|i: int| 0 <= i < w.len() implies is_word_char(#[trigger] w[i]) && s[p
                + i] as char == w[i] by {}
            word_in_front(s, p, w);
            let e = p + w.len();
            assert(e == s.len());
            assert(skip(s, e) == e);
            let end = SToken { tok: STok::Plain(Tok::Eof), span: span_at(s, e) };
            let one = SToken { tok: STok::TypeName(w), span: span_at(s, p) };
            assert(lex(s, e) == Ok::<Seq<SToken>, SErr>(seq![end]));
            let ts = seq![one] + seq![end];
            assert(lex(s, p) == Ok::<Seq<SToken>, SErr>(ts));
            assert((pre + ts)[pre.len() as int] == one);
            assert(kind(pre + ts, pre.len() as int) == STok::TypeName(w));
        }
    }
}

/// A type that is no reference begins with a letter.
proof fn first_letter(t: STy)
    requires
        is_simple(t),
        !(t is Ref),
    ensures
        name_of(t).len() > 0,
        is_word_start(name_of(t)[0]),
{
    reveal_strlit("box ");
    reveal_strlit("thread ");
    if is_scalar(t) {
        scalar_words(t);
    }
}

/// Reading the name of a type gives the type, and comes to the end of the source.
pub proof fn names_are_read_back(s: Seq<u8>, t: STy)
    requires
        is_simple(t),
        spells(s, 0, name_of(t)),
    ensures
        lex(s, 0) matches Ok(ts) && ty(ts, 0) == Out::Got(t, ts.len() - 1) && kind(ts, ts.len() - 1)
            == STok::Plain(Tok::Eof),
{
    let none = Seq::<SToken>::empty();
    reads_back(s, 0, t, none);
    assert(none + lex(s, 0)->Ok_0 =~= lex(s, 0)->Ok_0);
}

proof fn simple_names_are_ascii(t: STy)
    requires
        is_simple(t),
    ensures
        is_ascii_chars(name_of(t)),
    decreases t,
{
    reveal_strlit("box ");
    reveal_strlit("thread ");
    reveal_strlit("&");
    scalars();
    match t {
        STy::Box(x) => simple_names_are_ascii(*x),
        STy::Thread(x) => simple_names_are_ascii(*x),
        STy::Ref(x) => simple_names_are_ascii(*x),
        _ => {}
    }
}

/// The same of the name as a text: the name that a type is given is read as that type.
pub proof fn written_names_are_read_back(t: STy)
    requires
        is_simple(t),
    ensures
        lex(encode_utf8(name_of(t)), 0) matches Ok(ts) && ty(ts, 0) == Out::Got(t, ts.len() - 1)
            && kind(ts, ts.len() - 1) == STok::Plain(Tok::Eof),
{
    let w = name_of(t);
    let s = encode_utf8(w);
    simple_names_are_ascii(t);
    is_ascii_chars_encode_utf8(w);
    assert forall|i: int| 0 <= i < w.len() implies s[0 + i] as char == #[trigger] w[i] by {
        assert(w[i] as u8 == s[i]);
        assert((w[i] as nat) < 128);
    }
    names_are_read_back(s, t);
}

} // verus!
