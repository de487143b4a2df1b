//! What holds of the lexer as a whole: space and comments are skipped once, and
//! sources can be put one behind the other.
use crate::token::{
    digits_end, feeds, into_line, is_blank, is_comment, lex, line_end, line_end_bounds, numeral,
    run_bounds, scan, scan_advances, skip, skip_bounds, span_at, word_end, STok, SToken, Scan,
    Span, Tok,
};
use vstd::prelude::*;
use vstd::utf8::{encode_utf8, is_ascii_chars_encode_utf8};

verus! {

/// Behind space and comments there is neither, so that skipping them a second time
/// changes nothing.
pub proof fn skipping_twice_is_skipping_once(s: Seq<u8>, p: int)
    requires
        0 <= p <= s.len(),
    ensures
        skip(s, skip(s, p)) == skip(s, p),
        p <= skip(s, p) <= s.len(),
        skip(s, p) < s.len() ==> !is_blank(s[skip(s, p)] as char) && !is_comment(s, skip(s, p)),
    decreases s.len() - p,
{
    skip_bounds(s, p);
    if p < s.len() {
        line_end_bounds(s, p);
        if is_blank(s[p] as char) {
            skipping_twice_is_skipping_once(s, p + 1);
        } else if is_comment(s, p) {
            skipping_twice_is_skipping_once(s, line_end(s, p));
        }
    }
}

/// One source behind another, with a line feed between them.
pub open spec fn joined(a: Seq<u8>, b: Seq<u8>) -> Seq<u8> {
    a.push(10u8) + b
}

/// Tokens that stand further down.
pub open spec fn moved_down(ts: Seq<SToken>, lines: int) -> Seq<SToken> {
    Seq::new(
        ts.len(),
        |i: int|
            SToken {
                span: Span { line: (ts[i].span.line + lines) as usize, col: ts[i].span.col },
                ..ts[i]
            },
    )
}

proof fn joined_at(a: Seq<u8>, b: Seq<u8>)
    ensures
        joined(a, b).len() == a.len() + 1 + b.len(),
        forall|i: int| 0 <= i < a.len() ==> #[trigger] joined(a, b)[i] == a[i],
        joined(a, b)[a.len() as int] as char == '\n',
        forall|i: int| 0 <= i < b.len() ==> joined(a, b)[a.len() + 1 + i] == #[trigger] b[i],
{
    assert(10u8 as char == '\n');
}

proof fn first_line_end(a: Seq<u8>, b: Seq<u8>, p: int)
    requires
        0 <= p <= a.len(),
    ensures
        line_end(joined(a, b), p) == line_end(a, p),
    decreases a.len() - p,
{
    joined_at(a, b);
    if p < a.len() {
        assert(joined(a, b)[p] == a[p]);
        if a[p] as char != '\n' {
            first_line_end(a, b, p + 1);
        }
    }
}

proof fn first_comment(a: Seq<u8>, b: Seq<u8>, p: int)
    requires
        0 <= p < a.len(),
    ensures
        is_comment(joined(a, b), p) == is_comment(a, p),
{
    joined_at(a, b);
    assert(joined(a, b)[p] == a[p]);
    if p + 1 < a.len() {
        assert(joined(a, b)[p + 1] == a[p + 1]);
    }
}

proof fn first_skip(a: Seq<u8>, b: Seq<u8>, p: int)
    requires
        0 <= p <= a.len(),
    ensures
        skip(a, p) < a.len() ==> skip(joined(a, b), p) == skip(a, p),
        skip(a, p) >= a.len() ==> skip(joined(a, b), p) == skip(joined(a, b), (a.len() + 1) as int),
    decreases a.len() - p,
{
    let s = joined(a, b);
    joined_at(a, b);
    if p < a.len() {
        assert(s[p] == a[p]);
        first_comment(a, b, p);
        first_line_end(a, b, p);
        line_end_bounds(a, p);
        if is_blank(a[p] as char) {
            first_skip(a, b, p + 1);
        } else if is_comment(a, p) {
            first_skip(a, b, line_end(a, p));
        }
    } else {
        assert(is_blank(s[p] as char));
    }
}

proof fn first_runs(a: Seq<u8>, b: Seq<u8>, p: int)
    requires
        0 <= p <= a.len(),
    ensures
        digits_end(joined(a, b), p) == digits_end(a, p),
        word_end(joined(a, b), p) == word_end(a, p),
    decreases a.len() - p,
{
    joined_at(a, b);
    if p < a.len() {
        assert(joined(a, b)[p] == a[p]);
        first_runs(a, b, p + 1);
    }
}

proof fn first_numeral(a: Seq<u8>, b: Seq<u8>, p: int, e: int)
    requires
        0 <= p <= e <= a.len(),
    ensures
        numeral(joined(a, b), p, e) == numeral(a, p, e),
    decreases e - p,
{
    joined_at(a, b);
    if p < e {
        first_numeral(a, b, p, e - 1);
        assert(joined(a, b)[e - 1] == a[e - 1]);
    }
}

proof fn first_scan(a: Seq<u8>, b: Seq<u8>, p: int)
    requires
        0 <= p < a.len(),
    ensures
        scan(joined(a, b), p) == scan(a, p),
{
    let s = joined(a, b);
    joined_at(a, b);
    assert(s[p] == a[p]);
    first_runs(a, b, p);
    run_bounds(a, p);
    first_numeral(a, b, p, digits_end(a, p));
    assert(s.subrange(p, digits_end(a, p)) =~= a.subrange(p, digits_end(a, p)));
    assert(s.subrange(p, word_end(a, p)) =~= a.subrange(p, word_end(a, p)));
    if p + 1 < a.len() {
        assert(s[p + 1] == a[p + 1]);
    }
}

proof fn first_place(a: Seq<u8>, b: Seq<u8>, p: int)
    requires
        0 <= p <= a.len(),
    ensures
        feeds(joined(a, b), p) == feeds(a, p),
        into_line(joined(a, b), p) == into_line(a, p),
    decreases p,
{
    joined_at(a, b);
    if p > 0 {
        assert(joined(a, b)[p - 1] == a[p - 1]);
        first_place(a, b, p - 1);
    }
}

proof fn second_line_end(a: Seq<u8>, b: Seq<u8>, p: int)
    requires
        0 <= p <= b.len(),
    ensures
        line_end(joined(a, b), a.len() + 1 + p) == a.len() + 1 + line_end(b, p),
    decreases b.len() - p,
{
    joined_at(a, b);
    if p < b.len() {
        assert(joined(a, b)[a.len() + 1 + p] == b[p]);
        if b[p] as char != '\n' {
            second_line_end(a, b, p + 1);
        }
    }
}

proof fn second_skip(a: Seq<u8>, b: Seq<u8>, p: int)
    requires
        0 <= p <= b.len(),
    ensures
        skip(joined(a, b), a.len() + 1 + p) == a.len() + 1 + skip(b, p),
    decreases b.len() - p,
{
    let s = joined(a, b);
    let q = a.len() + 1 + p;
    joined_at(a, b);
    if p < b.len() {
        assert(s[q] == b[p]);
        if p + 1 < b.len() {
            assert(s[q + 1] == b[p + 1]);
        }
        assert(is_comment(s, q) == is_comment(b, p));
        second_line_end(a, b, p);
        line_end_bounds(b, p);
        if is_blank(b[p] as char) {
            second_skip(a, b, p + 1);
        } else if is_comment(b, p) {
            second_skip(a, b, line_end(b, p));
        }
    }
}

proof fn second_runs(a: Seq<u8>, b: Seq<u8>, p: int)
    requires
        0 <= p <= b.len(),
    ensures
        digits_end(joined(a, b), a.len() + 1 + p) == a.len() + 1 + digits_end(b, p),
        word_end(joined(a, b), a.len() + 1 + p) == a.len() + 1 + word_end(b, p),
    decreases b.len() - p,
{
    joined_at(a, b);
    if p < b.len() {
        assert(joined(a, b)[a.len() + 1 + p] == b[p]);
        second_runs(a, b, p + 1);
    }
}

proof fn second_numeral(a: Seq<u8>, b: Seq<u8>, p: int, e: int)
    requires
        0 <= p <= e <= b.len(),
    ensures
        numeral(joined(a, b), a.len() + 1 + p, a.len() + 1 + e) == numeral(b, p, e),
    decreases e - p,
{
    joined_at(a, b);
    if p < e {
        second_numeral(a, b, p, e - 1);
        assert(joined(a, b)[a.len() + 1 + (e - 1)] == b[e - 1]);
    }
}

proof fn second_scan(a: Seq<u8>, b: Seq<u8>, p: int)
    requires
        0 <= p < b.len(),
    ensures
        scan(joined(a, b), a.len() + 1 + p) == match scan(b, p) {
            Scan::Token(t, e) => Scan::Token(t, a.len() + 1 + e),
            Scan::Fail(m) => Scan::Fail(m),
        },
{
    let s = joined(a, b);
    let off = a.len() + 1;
    joined_at(a, b);
    assert(s[off + p] == b[p]);
    second_runs(a, b, p);
    run_bounds(b, p);
    let d = digits_end(b, p);
    let w = word_end(b, p);
    second_numeral(a, b, p, d);
    assert(s.subrange(off + p, off + d) =~= b.subrange(p, d)) by {
        assert forall|i: int| 0 <= i < d - p implies s.subrange(off + p, off + d)[i] == b.subrange(
            p,
            d,
        )[i] by {
            assert(s[off + (p + i)] == b[p + i]);
        }
    }
    assert(s.subrange(off + p, off + w) =~= b.subrange(p, w)) by {
        assert forall|i: int| 0 <= i < w - p implies s.subrange(off + p, off + w)[i] == b.subrange(
            p,
            w,
        )[i] by {
            assert(s[off + (p + i)] == b[p + i]);
        }
    }
    if p + 1 < b.len() {
        assert(s[off + (p + 1)] == b[p + 1]);
    }
}

proof fn second_place(a: Seq<u8>, b: Seq<u8>, p: int)
    requires
        0 <= p <= b.len(),
    ensures
        feeds(joined(a, b), a.len() + 1 + p) == feeds(a, a.len() as int) + 1 + feeds(b, p),
        into_line(joined(a, b), a.len() + 1 + p) == into_line(b, p),
    decreases p,
{
    joined_at(a, b);
    if p > 0 {
        assert(joined(a, b)[a.len() + 1 + (p - 1)] == b[p - 1]);
        second_place(a, b, p - 1);
    } else {
        first_place(a, b, a.len() as int);
    }
}

proof fn place_bounds(s: Seq<u8>, p: int)
    requires
        0 <= p,
    ensures
        0 <= feeds(s, p) <= p,
        0 <= into_line(s, p) <= p,
    decreases p,
{
    if p > 0 {
        place_bounds(s, p - 1);
    }
}

/// The second source, as it stands behind the first.
proof fn second_lexes(a: Seq<u8>, b: Seq<u8>, p: int)
    requires
        0 <= p <= b.len(),
        joined(a, b).len() < usize::MAX,
        lex(b, p) is Ok,
    ensures
        lex(joined(a, b), a.len() + 1 + p) == Ok::<Seq<SToken>, crate::token::SErr>(
            moved_down(lex(b, p)->Ok_0, feeds(a, a.len() as int) + 1),
        ),
    decreases b.len() - p,
{
    let s = joined(a, b);
    let off = a.len() + 1;
    let k = feeds(a, a.len() as int) + 1;
    joined_at(a, b);
    second_skip(a, b, p);
    skip_bounds(b, p);
    let q = skip(b, p);
    second_place(a, b, q);
    place_bounds(s, off + q);
    place_bounds(b, q);
    place_bounds(a, a.len() as int);
    let here = SToken { tok: STok::Plain(Tok::Eof), span: span_at(b, q) };
    if q >= b.len() {
        let one = SToken { tok: STok::Plain(Tok::Eof), span: span_at(s, off + q) };
        assert(seq![one] =~= moved_down(seq![here], k));
    } else {
        second_scan(a, b, q);
        scan_advances(b, q);
        if let Scan::Token(tok, e) = scan(b, q) {
            second_lexes(a, b, e);
            let rest = lex(b, e)->Ok_0;
            let one = SToken { tok, span: span_at(b, q) };
            let two = SToken { tok, span: span_at(s, off + q) };
            assert(seq![two] + moved_down(rest, k) =~= moved_down(seq![one] + rest, k));
        }
    }
}

proof fn first_lexes(a: Seq<u8>, b: Seq<u8>, p: int)
    requires
        0 <= p <= a.len(),
        joined(a, b).len() < usize::MAX,
        lex(a, p) is Ok,
        lex(b, 0) is Ok,
    ensures
        lex(a, p)->Ok_0.len() > 0,
        lex(joined(a, b), p) == Ok::<Seq<SToken>, crate::token::SErr>(
            lex(a, p)->Ok_0.drop_last() + moved_down(lex(b, 0)->Ok_0, feeds(a, a.len() as int) + 1),
        ),
    decreases a.len() - p,
{
    let s = joined(a, b);
    let k = feeds(a, a.len() as int) + 1;
    joined_at(a, b);
    first_skip(a, b, p);
    skip_bounds(a, p);
    let q = skip(a, p);
    let tail = moved_down(lex(b, 0)->Ok_0, k);
    if q >= a.len() {
        second_lexes(a, b, 0);
        second_skip(a, b, 0);
        skip_bounds(b, 0);
        skipping_twice_is_skipping_once(s, (a.len() + 1) as int);
        assert(skip(s, p) == skip(s, (a.len() + 1) as int));
        assert(lex(s, p) == lex(s, (a.len() + 1) as int));
        let ta = lex(a, p)->Ok_0;
        assert(ta.drop_last() + tail =~= tail);
    } else {
        first_scan(a, b, q);
        scan_advances(a, q);
        first_place(a, b, q);
        if let Scan::Token(tok, e) = scan(a, q) {
            first_lexes(a, b, e);
            let rest = lex(a, e)->Ok_0;
            let one = SToken { tok, span: span_at(a, q) };
            assert((seq![one] + rest).drop_last() =~= seq![one] + rest.drop_last());
            assert(seq![one] + (rest.drop_last() + tail) =~= (seq![one] + rest.drop_last()) + tail);
        }
    }
}

/// Two sources joined by a line feed lex to the tokens of the first without its end,
/// then those of the second, further down by the lines of the first.
pub proof fn sources_can_be_joined(a: Seq<u8>, b: Seq<u8>)
    requires
        joined(a, b).len() < usize::MAX,
    ensures
        lex(a, 0) matches Ok(ta) ==> (lex(b, 0) matches Ok(tb) ==> lex(joined(a, b), 0) == Ok::<
            Seq<SToken>,
            crate::token::SErr,
        >(ta.drop_last() + moved_down(tb, feeds(a, a.len() as int) + 1))),
{
    if lex(a, 0) is Ok && lex(b, 0) is Ok {
        first_lexes(a, b, 0);
    }
}

proof fn encoding_joins(a: Seq<char>, b: Seq<char>)
    ensures
        encode_utf8(a + b) == encode_utf8(a) + encode_utf8(b),
    decreases a.len(),
{
    if a.len() == 0 {
        assert(a + b =~= b);
        assert(encode_utf8(a) + encode_utf8(b) =~= encode_utf8(b));
    } else {
        encoding_joins(a.drop_first(), b);
        assert((a + b).drop_first() =~= a.drop_first() + b);
        assert((a + b)[0] == a[0]);
        assert(encode_utf8(a + b) =~= encode_utf8(a) + encode_utf8(b));
    }
}

proof fn line_feed_encodes()
    ensures
        encode_utf8(seq!['\n']) == seq![10u8],
{
    let c = seq!['\n'];
    is_ascii_chars_encode_utf8(c);
    assert(c[0] as u8 == 10u8);
    assert(encode_utf8(c) =~= seq![10u8]);
}

/// The same of texts: what is read of one text, a line feed and another is what is read
/// of the first without its end, then what is read of the second, further down.
pub proof fn texts_can_be_joined(a: Seq<char>, b: Seq<char>)
    requires
        encode_utf8(a.push('\n') + b).len() < usize::MAX,
    ensures
        lex(encode_utf8(a), 0) matches Ok(ta) ==> (lex(encode_utf8(b), 0) matches Ok(tb) ==> lex(
            encode_utf8(a.push('\n') + b),
            0,
        ) == Ok::<Seq<SToken>, crate::token::SErr>(
            ta.drop_last() + moved_down(tb, feeds(encode_utf8(a), encode_utf8(a).len() as int) + 1),
        )),
{
    let x = encode_utf8(a);
    let y = encode_utf8(b);
    line_feed_encodes();
    assert(a.push('\n') =~= a + seq!['\n']);
    encoding_joins(a, seq!['\n']);
    encoding_joins(a.push('\n'), b);
    assert(x + seq![10u8] =~= x.push(10u8));
    assert(encode_utf8(a.push('\n') + b) == joined(x, y));
    sources_can_be_joined(x, y);
}

} // verus!
