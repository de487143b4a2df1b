//! What holds of the grammar as a whole.
use crate::grammar::{at, fields, kind, struct_decl, ty, typed, Out};
use crate::token::{STok, SToken, Tok};
use crate::tree::STyped;
use vstd::prelude::*;

verus! {

/// The token streams are the same from `p` up to `q`.
pub open spec fn same_part(ts: Seq<SToken>, us: Seq<SToken>, p: int, q: int) -> bool {
    &&& 0 <= p
    &&& q <= ts.len()
    &&& q <= us.len()
    &&& forall|i: int| p <= i < q ==> #[trigger] ts[i] == us[i]
}

/// What is read of a type does not depend on what follows it.
proof fn type_is_local(ts: Seq<SToken>, us: Seq<SToken>, p: int, q: int)
    requires
        ty(ts, p) matches Out::Got(_, e) && e <= q,
        same_part(ts, us, p, q),
    ensures
        ty(us, p) == ty(ts, p),
        ty(ts, p) matches Out::Got(_, e) && p < e,
    decreases ts.len() - p,
{
    let e = ty(ts, p)->Got_1;
    assert(p < ts.len() && ty(ts, p)->Got_1 > p) by {
        type_advances(ts, p);
    }
    assert(ts[p] == us[p]);
    assert(kind(us, p) == kind(ts, p));
    match kind(ts, p) {
        STok::Plain(Tok::Amp)
        | STok::Plain(Tok::Box)
        | STok::Plain(Tok::Thread)
        | STok::Plain(Tok::Chan) => type_is_local(ts, us, p + 1, q),
        STok::Plain(Tok::VectorKw) => {
            let q1 = p + 2;
            type_advances(ts, q1);
            let q2 = ty(ts, q1)->Got_1;
            assert(ts[p + 1] == us[p + 1]);
            type_is_local(ts, us, q1, q);
            assert(ts[q2] == us[q2]);
            assert(ts[q2 + 1] == us[q2 + 1]);
            assert(ts[q2 + 2] == us[q2 + 2]);
        }
        STok::Plain(Tok::MatrixKw) => {
            let q1 = p + 2;
            type_advances(ts, q1);
            let q2 = ty(ts, q1)->Got_1;
            assert(ts[p + 1] == us[p + 1]);
            type_is_local(ts, us, q1, q);
            assert(ts[q2] == us[q2]);
            assert(ts[q2 + 1] == us[q2 + 1]);
            assert(ts[q2 + 2] == us[q2 + 2]);
            assert(ts[q2 + 3] == us[q2 + 3]);
            assert(ts[q2 + 4] == us[q2 + 4]);
        }
        _ => {}
    }
}

proof fn type_advances(ts: Seq<SToken>, p: int)
    requires
        0 <= p,
    ensures
        ty(ts, p) matches Out::Got(_, e) ==> p < e <= ts.len(),
    decreases ts.len() - p,
{
    if p < ts.len() {
        match kind(ts, p) {
            STok::Plain(Tok::Amp)
            | STok::Plain(Tok::Box)
            | STok::Plain(Tok::Thread)
            | STok::Plain(Tok::Chan) => type_advances(ts, p + 1),
            STok::Plain(Tok::VectorKw) | STok::Plain(Tok::MatrixKw) => {
                if p + 2 <= ts.len() {
                    type_advances(ts, p + 2);
                }
            }
            _ => {}
        }
    }
}

proof fn field_is_local(ts: Seq<SToken>, us: Seq<SToken>, p: int, q: int)
    requires
        0 <= p,
        typed(ts, p) matches Out::Got(_, e) && e <= q,
        same_part(ts, us, p, q),
    ensures
        typed(us, p) == typed(ts, p),
        typed(ts, p) matches Out::Got(_, e) && p + 2 < e,
{
    type_advances(ts, p + 2);
    assert(ts[p] == us[p]);
    assert(ts[p + 1] == us[p + 1]);
    type_is_local(ts, us, p + 2, q);
}

proof fn field_advances(ts: Seq<SToken>, p: int)
    requires
        0 <= p,
    ensures
        typed(ts, p) matches Out::Got(_, e) ==> p + 2 < e <= ts.len(),
{
    type_advances(ts, p + 2);
}

proof fn fields_advance(ts: Seq<SToken>, acc: Seq<STyped>, p: int)
    requires
        0 <= p,
    ensures
        fields(ts, acc, p) matches Out::Got(v, q) ==> p + 2 < q && acc.len() < v.len(),
    decreases ts.len() - p,
{
    field_advances(ts, p);
    if let Out::Got(f, q) = typed(ts, p) {
        if at(ts, q, Tok::Comma) && !at(ts, q + 1, Tok::RBrace) {
            fields_advance(ts, acc.push(f), q + 1);
        }
    }
}

/// The stream with a token put in before place `c`.
pub open spec fn with_token(ts: Seq<SToken>, c: int, x: SToken) -> Seq<SToken> {
    ts.take(c).push(x) + ts.skip(c)
}

proof fn with_token_at(ts: Seq<SToken>, c: int, x: SToken)
    requires
        0 <= c <= ts.len(),
    ensures
        with_token(ts, c, x).len() == ts.len() + 1,
        forall|i: int| 0 <= i < c ==> #[trigger] with_token(ts, c, x)[i] == ts[i],
        with_token(ts, c, x)[c] == x,
        c < ts.len() ==> with_token(ts, c, x)[c + 1] == ts[c],
{
}

/// The fields with one comma more at their end, or two.
proof fn fields_with_commas(
    ts: Seq<SToken>,
    acc: Seq<STyped>,
    p: int,
    end: int,
    us: Seq<SToken>,
    ws: Seq<SToken>,
)
    requires
        0 <= p,
        fields(ts, acc, p) matches Out::Got(_, q) && q == end,
        at(ts, end, Tok::RBrace),
        !at(ts, end - 1, Tok::Comma),
        same_part(ts, us, 0, end),
        same_part(ts, ws, 0, end),
        at(us, end, Tok::Comma) && at(us, end + 1, Tok::RBrace),
        at(ws, end, Tok::Comma) && at(ws, end + 1, Tok::Comma),
    ensures
        fields(us, acc, p) == Out::Got(fields(ts, acc, p)->Got_0, end + 1),
        fields(ws, acc, p) is Bad,
    decreases ts.len() - p,
{
    field_advances(ts, p);
    let f = typed(ts, p)->Got_0;
    let q = typed(ts, p)->Got_1;
    if at(ts, q, Tok::Comma) && !at(ts, q + 1, Tok::RBrace) {
        fields_advance(ts, acc.push(f), q + 1);
        field_is_local(ts, us, p, end);
        field_is_local(ts, ws, p, end);
        assert(ts[q] == us[q]);
        assert(ts[q] == ws[q]);
        assert(ts[q + 1] == us[q + 1]);
        assert(ts[q + 1] == ws[q + 1]);
        fields_with_commas(ts, acc.push(f), q + 1, end, us, ws);
    } else {
        assert(q == end);
        field_is_local(ts, us, p, end);
        field_is_local(ts, ws, p, end);
        assert(typed(ws, end + 1) is Bad);
        assert(fields(ws, acc.push(f), end + 1) is Bad);
    }
}

/// One comma behind the last field of a struct changes nothing; two are refused.
pub proof fn trailing_commas(ts: Seq<SToken>, p: int, x: SToken, y: SToken)
    requires
        0 <= p,
        x.tok == STok::Plain(Tok::Comma),
        y.tok == STok::Plain(Tok::Comma),
        struct_decl(ts, p) matches Out::Got(d, q) && d.fields.len() > 0 && !at(ts, q - 2, Tok::Comma),
    ensures
        struct_decl(ts, p) matches Out::Got(d, q) && {
            let one = with_token(ts, q - 1, x);
            &&& struct_decl(one, p) == Out::Got(d, q + 1)
            &&& struct_decl(with_token(one, q - 1, y), p) is Bad
        },
{
    let q = struct_decl(ts, p)->Got_1;
    let end = q - 1;
    let one = with_token(ts, end, x);
    let two = with_token(one, end, y);
    fields_advance(ts, Seq::empty(), p + 3);
    assert(!at(ts, p + 3, Tok::RBrace));
    assert(fields(ts, Seq::empty(), p + 3) matches Out::Got(_, e) && e == end);
    with_token_at(ts, end, x);
    with_token_at(one, end, y);
    assert(same_part(ts, one, 0, end));
    assert(same_part(ts, two, 0, end)) by {
        assert forall|i: int| 0 <= i < end implies #[trigger] ts[i] == two[i] by {
            assert(one[i] == ts[i]);
            assert(two[i] == one[i]);
        }
    }
    fields_with_commas(ts, Seq::empty(), p + 3, end, one, two);
    assert(ts[p] == one[p] && ts[p + 1] == one[p + 1] && ts[p + 2] == one[p + 2] && ts[p + 3] == one[p
        + 3]);
    assert(ts[p] == two[p] && ts[p + 1] == two[p + 1] && ts[p + 2] == two[p + 2] && ts[p + 3] == two[p
        + 3]);
}

} // verus!
