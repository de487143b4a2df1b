//! Lexing undoes writing: tokens that are written down one behind the other, with a
//! space behind each, are read as the same tokens.
use crate::ast::{name_of, STy};
use crate::grammar::{standalone, Out};
use crate::guards::dec_is_digits;
use crate::printing::{plain, put, same};
use crate::text::{dec, dec_nat, digit};
use crate::token::{
    digits_end, is_digit, is_word_char, is_word_start, lex, numeral, scan, skip, span_at,
    word_token, SErr, STok, SToken, Scan, Tok,
};
use crate::tree::SExpr;
use crate::type_reading::{blank_in_front, is_scalar, scalar_words, word_in_front};
use vstd::prelude::*;

verus! {

/// How a keyword is written.
pub open spec fn keyword_text(t: Tok) -> Option<Seq<char>> {
    match t {
        Tok::Fn => Some("fn"@),
        Tok::Let => Some("let"@),
        Tok::Return => Some("return"@),
        Tok::If => Some("if"@),
        Tok::Else => Some("else"@),
        Tok::While => Some("while"@),
        Tok::Box => Some("box"@),
        Tok::Spawn => Some("spawn"@),
        Tok::Join => Some("join"@),
        Tok::Thread => Some("thread"@),
        Tok::True => Some("true"@),
        Tok::False => Some("false"@),
        _ => None,
    }
}

/// How a sign is written.
pub open spec fn sign_text(t: Tok) -> Option<Seq<char>> {
    match t {
        Tok::LParen => Some(seq!['(']),
        Tok::RParen => Some(seq![')']),
        Tok::LBrace => Some(seq!['{']),
        Tok::RBrace => Some(seq!['}']),
        Tok::Colon => Some(seq![':']),
        Tok::Comma => Some(seq![',']),
        Tok::Arrow => Some(seq!['-', '>']),
        Tok::Assign => Some(seq!['=']),
        Tok::Plus => Some(seq!['+']),
        Tok::Minus => Some(seq!['-']),
        Tok::Star => Some(seq!['*']),
        Tok::Slash => Some(seq!['/']),
        Tok::EqEq => Some(seq!['=', '=']),
        Tok::NotEq => Some(seq!['!', '=']),
        Tok::Lt => Some(seq!['<']),
        Tok::Gt => Some(seq!['>']),
        Tok::LtEq => Some(seq!['<', '=']),
        Tok::GtEq => Some(seq!['>', '=']),
        Tok::AndAnd => Some(seq!['&', '&']),
        Tok::OrOr => Some(seq!['|', '|']),
        Tok::Bang => Some(seq!['!']),
        Tok::Amp => Some(seq!['&']),
        _ => None,
    }
}

/// A word that is a keyword or the name of a scalar type.
pub open spec fn reserved(w: Seq<char>) -> bool {
    ||| exists|t: Tok| #[trigger] keyword_text(t) == Some(w)
    ||| exists|t: STy| is_scalar(t) && #[trigger] name_of(t) == w
}

pub open spec fn is_word(w: Seq<char>) -> bool {
    &&& w.len() > 0
    &&& is_word_start(w[0])
    &&& forall|i: int| 0 <= i < w.len() ==> is_word_char(#[trigger] w[i])
}

/// How a token is written, where it can be.
pub open spec fn token_text(t: STok) -> Option<Seq<char>> {
    match t {
        STok::Ident(w) => if is_word(w) && !reserved(w) {
            Some(w)
        } else {
            None
        },
        STok::TypeName(w) => if exists|t: STy| is_scalar(t) && #[trigger] name_of(t) == w {
            Some(w)
        } else {
            None
        },
        STok::Plain(Tok::Int(n)) => if n >= 0 {
            Some(dec(n as int))
        } else {
            None
        },
        STok::Plain(k) => match keyword_text(k) {
            Some(w) => Some(w),
            None => sign_text(k),
        },
        _ => None,
    }
}

/// All of the tokens can be written.
pub open spec fn writable(ts: Seq<STok>) -> bool {
    forall|i: int| 0 <= i < ts.len() ==> token_text(#[trigger] ts[i]) is Some
}

/// The tokens, with a space behind each.
pub open spec fn written(ts: Seq<STok>) -> Seq<char>
    decreases ts.len(),
{
    if ts.len() == 0 {
        Seq::empty()
    } else {
        token_text(ts[0])->0 + seq![' '] + written(ts.skip(1))
    }
}

/// The text stands at `p` in the source.
pub open spec fn stands_at(s: Seq<u8>, p: int, w: Seq<char>) -> bool {
    &&& 0 <= p
    &&& p + w.len() <= s.len()
    &&& forall|i: int| 0 <= i < w.len() ==> s[p + i] as char == #[trigger] w[i]
}

proof fn decimals_are_numerals(s: Seq<u8>, p: int, n: nat)
    requires
        stands_at(s, p, dec_nat(n)),
    ensures
        numeral(s, p, p + dec_nat(n).len()) == n,
    decreases n,
{
    let w = dec_nat(n);
    dec_is_digits(n);
    let last = w.len() - 1;
    assert(s[p + last] as char == w[last]);
    if n < 10 {
        assert(w[0] == digit(n));
        assert(numeral(s, p, p) == 0);
        assert(s[p] as nat == 48 + n);
        assert(numeral(s, p, p + 1) == n);
    } else {
        let u = dec_nat(n / 10);
        assert(stands_at(s, p, u)) by {
            assert forall|i: int| 0 <= i < u.len() implies s[p + i] as char == #[trigger] u[i] by {
                assert(w[i] == u[i]);
            }
        }
        decimals_are_numerals(s, p, n / 10);
        assert(w[last] == digit(n % 10));
        assert(s[p + last] as nat == 48 + n % 10);
        assert(p + w.len() - 1 == p + u.len());
        assert(numeral(s, p, p + w.len()) == n / 10 * 10 + n % 10);
    }
}

proof fn digit_runs(s: Seq<u8>, p: int, e: int)
    requires
        0 <= p <= e < s.len(),
        forall|i: int| p <= i < e ==> is_digit(#[trigger] s[i] as char),
        !is_digit(s[e] as char),
    ensures
        digits_end(s, p) == e,
    decreases e - p,
{
    if p < e {
        assert(is_digit(s[p] as char));
        digit_runs(s, p + 1, e);
    }
}

proof fn numbers_are_read(s: Seq<u8>, p: int, n: i64)
    requires
        n >= 0,
        stands_at(s, p, dec(n as int)),
        p + dec(n as int).len() < s.len(),
        s[p + dec(n as int).len()] as char == ' ',
    ensures
        dec(n as int).len() > 0,
        skip(s, p) == p,
        scan(s, p) == Scan::Token(STok::Plain(Tok::Int(n)), p + dec(n as int).len()),
{
    let w = dec_nat(n as nat);
    dec_is_digits(n as nat);
    assert forall|i: int| p <= i < p + w.len() implies is_digit(#[trigger] s[i] as char) by {
        assert(s[p + (i - p)] as char == w[i - p]);
    }
    digit_runs(s, p, p + w.len());
    decimals_are_numerals(s, p, n as nat);
    assert(is_digit(s[p] as char));
}

proof fn signs_are_read(s: Seq<u8>, p: int, k: Tok)
    requires
        sign_text(k) is Some,
        stands_at(s, p, sign_text(k)->0),
        p + sign_text(k)->0.len() < s.len(),
        s[p + sign_text(k)->0.len()] as char == ' ',
    ensures
        sign_text(k)->0.len() > 0,
        skip(s, p) == p,
        scan(s, p) == Scan::Token(STok::Plain(k), p + sign_text(k)->0.len()),
{
    let w = sign_text(k)->0;
    assert(s[p + 0] as char == w[0]);
    if w.len() == 2 {
        assert(s[p + 1] as char == w[1]);
    }
}

proof fn words_are_read(s: Seq<u8>, p: int, w: Seq<char>)
    requires
        is_word(w),
        stands_at(s, p, w),
        p + w.len() < s.len(),
        s[p + w.len()] as char == ' ',
    ensures
        skip(s, p) == p,
        scan(s, p) == Scan::Token(word_token(w), p + w.len()),
{
    assert forall|i: int| 0 <= i < w.len() implies is_word_char(#[trigger] w[i]) && s[p + i] as char
        == w[i] by {}
    word_in_front(s, p, w);
}

proof fn keywords_are_words(k: Tok)
    requires
        keyword_text(k) is Some,
    ensures
        is_word(keyword_text(k)->0),
        word_token(keyword_text(k)->0) == STok::Plain(k),
{
    reveal_strlit("fn");
    reveal_strlit("let");
    reveal_strlit("return");
    reveal_strlit("if");
    reveal_strlit("else");
    reveal_strlit("while");
    reveal_strlit("box");
    reveal_strlit("spawn");
    reveal_strlit("join");
    reveal_strlit("thread");
    reveal_strlit("true");
    reveal_strlit("false");
    let w = keyword_text(k)->0;
    assert("thread"@[0] != "return"@[0]);
    assert("spawn"@[0] != "while"@[0]);
    assert("false"@[0] != "spawn"@[0]);
    assert("false"@[0] != "while"@[0]);
    assert("true"@[0] != "else"@[0]);
    assert("true"@[0] != "join"@[0]);
    assert("join"@[0] != "else"@[0]);
    assert("let"@[0] != "box"@[0]);
    assert("fn"@[0] != "if"@[0]);
}

proof fn names_are_words(w: Seq<char>)
    requires
        !reserved(w),
    ensures
        word_token(w) == STok::Ident(w),
{
    assert(keyword_text(Tok::Fn) == Some("fn"@));
    assert(keyword_text(Tok::Let) == Some("let"@));
    assert(keyword_text(Tok::Return) == Some("return"@));
    assert(keyword_text(Tok::If) == Some("if"@));
    assert(keyword_text(Tok::Else) == Some("else"@));
    assert(keyword_text(Tok::While) == Some("while"@));
    assert(keyword_text(Tok::Box) == Some("box"@));
    assert(keyword_text(Tok::Spawn) == Some("spawn"@));
    assert(keyword_text(Tok::Join) == Some("join"@));
    assert(keyword_text(Tok::Thread) == Some("thread"@));
    assert(keyword_text(Tok::True) == Some("true"@));
    assert(keyword_text(Tok::False) == Some("false"@));
    assert(name_of(STy::I8) == "i8"@);
    assert(name_of(STy::I16) == "i16"@);
    assert(name_of(STy::I32) == "i32"@);
    assert(name_of(STy::I64) == "i64"@);
    assert(name_of(STy::U8) == "u8"@);
    assert(name_of(STy::U16) == "u16"@);
    assert(name_of(STy::U32) == "u32"@);
    assert(name_of(STy::U64) == "u64"@);
    assert(name_of(STy::Usize) == "usize"@);
    assert(name_of(STy::Bool) == "bool"@);
    assert(name_of(STy::Unit) == "unit"@);
}

/// A token with a space behind it is read as itself.
pub proof fn tokens_are_read(s: Seq<u8>, p: int, t: STok)
    requires
        token_text(t) is Some,
        stands_at(s, p, token_text(t)->0),
        p + token_text(t)->0.len() < s.len(),
        s[p + token_text(t)->0.len()] as char == ' ',
    ensures
        token_text(t)->0.len() > 0,
        skip(s, p) == p,
        scan(s, p) == Scan::Token(t, p + token_text(t)->0.len()),
{
    match t {
        STok::Ident(w) => {
            names_are_words(w);
            words_are_read(s, p, w);
        },
        STok::TypeName(w) => {
            let k = choose|k: STy| is_scalar(k) && #[trigger] name_of(k) == w;
            scalar_words(k);
            words_are_read(s, p, w);
        },
        STok::Plain(Tok::Int(n)) => numbers_are_read(s, p, n),
        STok::Plain(k) => {
            if keyword_text(k) is Some {
                keywords_are_words(k);
                words_are_read(s, p, keyword_text(k)->0);
            } else {
                signs_are_read(s, p, k);
            }
        },
        _ => {},
    }
}

/// Tokens that are written one behind the other are read as the same tokens, and
/// behind them stands the end.
pub proof fn written_tokens_are_read_back(s: Seq<u8>, p: int, ts: Seq<STok>)
    requires
        writable(ts),
        stands_at(s, p, written(ts)),
        s.len() == p + written(ts).len(),
    ensures
        lex(s, p) matches Ok(out) && out.len() == ts.len() + 1 && out[ts.len() as int].tok
            == STok::Plain(Tok::Eof) && (forall|i: int|
            0 <= i < ts.len() ==> (#[trigger] out[i]).tok == ts[i]),
    decreases ts.len(),
{
    if ts.len() == 0 {
        assert(skip(s, p) == p);
    } else {
        let all = written(ts);
        let w = token_text(ts[0])->0;
        let rest = ts.skip(1);
        let e = p + w.len();
        assert(stands_at(s, p, w)) by {
            assert forall|i: int| 0 <= i < w.len() implies s[p + i] as char == #[trigger] w[i] by {
                assert(all[i] == w[i]);
            }
        }
        assert(s[e] as char == ' ') by {
            assert(all[w.len() as int] == ' ');
            assert(s[p + w.len()] as char == all[w.len() as int]);
        }
        tokens_are_read(s, p, ts[0]);
        blank_in_front(s, e);
        assert(stands_at(s, e + 1, written(rest))) by {
            assert forall|i: int| 0 <= i < written(rest).len() implies s[e + 1 + i] as char
                == #[trigger] written(rest)[i] by {
                assert(all[w.len() + 1 + i] == written(rest)[i]);
                assert(s[p + (w.len() + 1 + i)] as char == all[w.len() + 1 + i]);
            }
        }
        assert forall|i: int| 0 <= i < rest.len() implies token_text(#[trigger] rest[i]) is Some by {
            assert(rest[i] == ts[i + 1]);
        }
        written_tokens_are_read_back(s, e + 1, rest);
        let tail = lex(s, e + 1)->Ok_0;
        let first = SToken { tok: ts[0], span: span_at(s, p) };
        assert(lex(s, p) == Ok::<Seq<SToken>, SErr>(seq![first] + tail));
        let out = seq![first] + tail;
        assert forall|i: int| 0 <= i < ts.len() implies (#[trigger] out[i]).tok == ts[i] by {
            if i > 0 {
                assert(out[i] == tail[i - 1]);
                assert(rest[i - 1] == ts[i]);
            }
        }
        assert(out[ts.len() as int] == tail[rest.len() as int]);
    }
}

/// Lexing and parsing undo printing: the text of an expression is read as the expression.
pub proof fn written_expressions_are_read_back(s: Seq<u8>, e: SExpr)
    requires
        plain(e),
        writable(put(e, 8)),
        s.len() == written(put(e, 8)).len(),
        stands_at(s, 0, written(put(e, 8))),
    ensures
        lex(s, 0) matches Ok(ts) && (standalone(ts) matches Out::Got(x, _) && same(x, e)),
{
    let w = put(e, 8);
    written_tokens_are_read_back(s, 0, w);
    let ts = lex(s, 0)->Ok_0;
    reveal(crate::printing::spells);
    crate::printing::lone_expressions_are_read_back(ts, e);
}

} // verus!
