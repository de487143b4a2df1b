//! Parsing undoes printing: an expression that is written down with no more parentheses
//! than it needs is read as the same expression.
use crate::ast::{BinOp, UnOp};
use crate::grammar::{
    arguments, assignment, at, binary, call, expr, exprs, kind, op_at, operands, parens1, parens2,
    postfix, primary, standalone, suffixes, unary, want, Out,
};
use crate::token::{STok, SToken, Tok};
use crate::tree::SExpr;
use vstd::prelude::*;

verus! {

/// The symbol of an operator.
pub open spec fn symbol(op: BinOp) -> Tok {
    match op {
        BinOp::Or => Tok::OrOr,
        BinOp::And => Tok::AndAnd,
        BinOp::Eq => Tok::EqEq,
        BinOp::NotEq => Tok::NotEq,
        BinOp::Lt => Tok::Lt,
        BinOp::Gt => Tok::Gt,
        BinOp::LtEq => Tok::LtEq,
        BinOp::GtEq => Tok::GtEq,
        BinOp::Add => Tok::Plus,
        BinOp::Sub => Tok::Minus,
        BinOp::Mul => Tok::Star,
        BinOp::Div => Tok::Slash,
        BinOp::ElemMul => Tok::DotStar,
        BinOp::ElemDiv => Tok::DotSlash,
    }
}

/// How loosely an operator binds: products before sums, sums before comparisons,
/// comparisons before equality, equality before `&&`, and `&&` before `||`.
pub open spec fn looseness(op: BinOp) -> nat {
    match op {
        BinOp::Mul | BinOp::Div | BinOp::ElemMul | BinOp::ElemDiv => 1,
        BinOp::Add | BinOp::Sub => 2,
        BinOp::Lt | BinOp::Gt | BinOp::LtEq | BinOp::GtEq => 3,
        BinOp::Eq | BinOp::NotEq => 4,
        BinOp::And => 5,
        BinOp::Or => 6,
    }
}

/// Each symbol is read as its own operator, at its own place among the others, and as
/// none at any other place; no two operators have one symbol.
pub proof fn symbols_are_their_operators(op: BinOp, other: BinOp, level: nat)
    ensures
        op_at(level, STok::Plain(symbol(op))) == if level == looseness(op) {
            Some(op)
        } else {
            None::<BinOp>
        },
        symbol(op) == symbol(other) ==> op == other,
{
}

/// How much room an expression needs: nothing for what can be indexed, more for prefixes
/// and calls, more the looser its operator binds, and most for an assignment.
pub open spec fn room(e: SExpr) -> nat {
    match e {
        SExpr::Int(..)
        | SExpr::Float(..)
        | SExpr::Bool(..)
        | SExpr::Str(..)
        | SExpr::Ident(..)
        | SExpr::ArrayLit(..)
        | SExpr::Index(..)
        | SExpr::FieldAccess(..) => 0,
        SExpr::Binary(op, _, _, _) => 1 + looseness(op),
        SExpr::Assign(..) => 8,
        _ => 1,
    }
}

/// An expression where there is room `m` for it: in parentheses where it needs more.
pub open spec fn put(e: SExpr, m: nat) -> Seq<STok>
    decreases e, 1nat,
{
    if room(e) <= m {
        bare(e)
    } else {
        seq![STok::Plain(Tok::LParen)] + bare(e) + seq![STok::Plain(Tok::RParen)]
    }
}

pub open spec fn one(t: Tok) -> Seq<STok> {
    seq![STok::Plain(t)]
}

/// An expression without parentheses around it.
pub open spec fn bare(e: SExpr) -> Seq<STok>
    decreases e, 0nat,
{
    match e {
        SExpr::Int(n, _) => one(Tok::Int(n)),
        SExpr::Float(f, _) => seq![STok::Float(f)],
        SExpr::Bool(b, _) => one(
            if b {
                Tok::True
            } else {
                Tok::False
            },
        ),
        SExpr::Str(s, _) => seq![STok::Str(s)],
        SExpr::Ident(n, _) => seq![STok::Ident(n)],
        SExpr::Unary(op, a, _) => one(
            match op {
                UnOp::Neg => Tok::Minus,
                UnOp::Not => Tok::Bang,
            },
        ) + put(*a, 1),
        SExpr::Deref(a, _) => one(Tok::Star) + put(*a, 1),
        SExpr::Box(a, _) => one(Tok::Box) + put(*a, 1),
        SExpr::Join(a, _) => one(Tok::Join) + put(*a, 1),
        SExpr::StopSandbox(a, _) => one(Tok::Stop) + put(*a, 1),
        SExpr::Ref(a, _) => one(Tok::Amp) + put(*a, 1),
        SExpr::Chan(_) => one(Tok::Chan),
        SExpr::Recv(a, _) => one(Tok::Recv) + one(Tok::LParen) + put(*a, 8) + one(Tok::RParen),
        SExpr::Listen(a, _) => one(Tok::Listen) + one(Tok::LParen) + put(*a, 8) + one(Tok::RParen),
        SExpr::Accept(a, _) => one(Tok::Accept) + one(Tok::LParen) + put(*a, 8) + one(Tok::RParen),
        SExpr::Send(a, b, _) => one(Tok::Send) + one(Tok::LParen) + put(*a, 8) + one(Tok::Comma) + put(
            *b,
            8,
        ) + one(Tok::RParen),
        SExpr::Connect(a, b, _) => one(Tok::Connect) + one(Tok::LParen) + put(*a, 8) + one(Tok::Comma)
            + put(*b, 8) + one(Tok::RParen),
        SExpr::Open(a, b, _) => one(Tok::Open) + one(Tok::LParen) + put(*a, 8) + one(Tok::Comma) + put(
            *b,
            8,
        ) + one(Tok::RParen),
        SExpr::Call(n, v, _) => seq![STok::Ident(n)] + one(Tok::LParen) + list(v) + one(Tok::RParen),
        SExpr::Spawn(n, v, _) => one(Tok::Spawn) + seq![STok::Ident(n)] + one(Tok::LParen) + list(v)
            + one(Tok::RParen),
        SExpr::SpawnSandbox(n, v, _) => one(Tok::Sandbox) + seq![STok::Ident(n)] + one(Tok::LParen)
            + list(v) + one(Tok::RParen),
        SExpr::ArrayLit(v, _) => one(Tok::LBracket) + list(v) + one(Tok::RBracket),
        SExpr::Index(a, v, _) => put(*a, 0) + one(Tok::LBracket) + list(v) + one(Tok::RBracket),
        SExpr::FieldAccess(a, n, _) => put(*a, 0) + one(Tok::Dot) + seq![STok::Ident(n)],
        SExpr::Binary(op, l, r, _) => put(*l, 1 + looseness(op)) + one(symbol(op)) + put(
            *r,
            looseness(op),
        ),
        SExpr::Assign(n, a, _) => seq![STok::Ident(n)] + one(Tok::Assign) + put(*a, 8),
        _ => Seq::empty(),
    }
}

/// Expressions with commas between them.
pub open spec fn list(v: Seq<SExpr>) -> Seq<STok>
    decreases v, v.len(),
{
    if v.len() == 0 {
        Seq::empty()
    } else if v.len() == 1 {
        put(v[0], 8)
    } else {
        put(v[0], 8) + one(Tok::Comma) + list(v.skip(1))
    }
}

/// The expression can be written down this way: it borrows plain names, lists and groups
/// of indices are not empty, and it holds no block.
pub open spec fn plain(e: SExpr) -> bool
    decreases e,
{
    match e {
        SExpr::Int(..)
        | SExpr::Float(..)
        | SExpr::Bool(..)
        | SExpr::Str(..)
        | SExpr::Ident(..)
        | SExpr::Chan(_) => true,
        SExpr::Unary(_, a, _) => plain(*a),
        SExpr::Deref(a, _) => plain(*a),
        SExpr::Box(a, _) => plain(*a),
        SExpr::Join(a, _) => plain(*a),
        SExpr::StopSandbox(a, _) => plain(*a),
        SExpr::Recv(a, _) => plain(*a),
        SExpr::Listen(a, _) => plain(*a),
        SExpr::Accept(a, _) => plain(*a),
        SExpr::FieldAccess(a, _, _) => plain(*a),
        SExpr::Assign(_, a, _) => plain(*a),
        SExpr::Ref(a, _) => *a is Ident,
        SExpr::Binary(_, a, b, _) => plain(*a) && plain(*b),
        SExpr::Send(a, b, _) => plain(*a) && plain(*b),
        SExpr::Connect(a, b, _) => plain(*a) && plain(*b),
        SExpr::Open(a, b, _) => plain(*a) && plain(*b),
        SExpr::Call(_, v, _) => forall|i: int| 0 <= i < v.len() ==> plain(#[trigger] v[i]),
        SExpr::Spawn(_, v, _) => forall|i: int| 0 <= i < v.len() ==> plain(#[trigger] v[i]),
        SExpr::SpawnSandbox(_, v, _) => forall|i: int| 0 <= i < v.len() ==> plain(#[trigger] v[i]),
        SExpr::ArrayLit(v, _) => v.len() > 0 && forall|i: int|
            0 <= i < v.len() ==> plain(#[trigger] v[i]),
        SExpr::Index(a, v, _) => plain(*a) && v.len() > 0 && forall|i: int|
            0 <= i < v.len() ==> plain(#[trigger] v[i]),
        _ => false,
    }
}

/// The expressions are the same but for the places that they report.
pub open spec fn same(a: SExpr, b: SExpr) -> bool
    decreases a,
{
    match (a, b) {
        (SExpr::Int(x, _), SExpr::Int(y, _)) => x == y,
        (SExpr::Float(x, _), SExpr::Float(y, _)) => x == y,
        (SExpr::Bool(x, _), SExpr::Bool(y, _)) => x == y,
        (SExpr::Str(x, _), SExpr::Str(y, _)) => x == y,
        (SExpr::Ident(x, _), SExpr::Ident(y, _)) => x == y,
        (SExpr::Chan(_), SExpr::Chan(_)) => true,
        (SExpr::Unary(o, x, _), SExpr::Unary(p, y, _)) => o == p && same(*x, *y),
        (SExpr::Deref(x, _), SExpr::Deref(y, _)) => same(*x, *y),
        (SExpr::Box(x, _), SExpr::Box(y, _)) => same(*x, *y),
        (SExpr::Ref(x, _), SExpr::Ref(y, _)) => same(*x, *y),
        (SExpr::Join(x, _), SExpr::Join(y, _)) => same(*x, *y),
        (SExpr::StopSandbox(x, _), SExpr::StopSandbox(y, _)) => same(*x, *y),
        (SExpr::Recv(x, _), SExpr::Recv(y, _)) => same(*x, *y),
        (SExpr::Listen(x, _), SExpr::Listen(y, _)) => same(*x, *y),
        (SExpr::Accept(x, _), SExpr::Accept(y, _)) => same(*x, *y),
        (SExpr::FieldAccess(x, m, _), SExpr::FieldAccess(y, n, _)) => m == n && same(*x, *y),
        (SExpr::Assign(m, x, _), SExpr::Assign(n, y, _)) => m == n && same(*x, *y),
        (SExpr::Binary(o, x, u, _), SExpr::Binary(p, y, w, _)) => o == p && same(*x, *y) && same(*u, *w),
        (SExpr::Send(x, u, _), SExpr::Send(y, w, _)) => same(*x, *y) && same(*u, *w),
        (SExpr::Connect(x, u, _), SExpr::Connect(y, w, _)) => same(*x, *y) && same(*u, *w),
        (SExpr::Open(x, u, _), SExpr::Open(y, w, _)) => same(*x, *y) && same(*u, *w),
        (SExpr::Call(m, v, _), SExpr::Call(n, w, _)) => m == n && v.len() == w.len() && forall|i: int|
            0 <= i < v.len() ==> same(#[trigger] v[i], w[i]),
        (SExpr::Spawn(m, v, _), SExpr::Spawn(n, w, _)) => m == n && v.len() == w.len() && forall|i: int|
            0 <= i < v.len() ==> same(#[trigger] v[i], w[i]),
        (SExpr::SpawnSandbox(m, v, _), SExpr::SpawnSandbox(n, w, _)) => m == n && v.len() == w.len()
            && forall|i: int| 0 <= i < v.len() ==> same(#[trigger] v[i], w[i]),
        (SExpr::ArrayLit(v, _), SExpr::ArrayLit(w, _)) => v.len() == w.len() && forall|i: int|
            0 <= i < v.len() ==> same(#[trigger] v[i], w[i]),
        (SExpr::Index(x, v, _), SExpr::Index(y, w, _)) => same(*x, *y) && v.len() == w.len()
            && forall|i: int| 0 <= i < v.len() ==> same(#[trigger] v[i], w[i]),
        _ => false,
    }
}

pub open spec fn same_all(v: Seq<SExpr>, w: Seq<SExpr>) -> bool {
    v.len() == w.len() && forall|i: int| 0 <= i < v.len() ==> same(#[trigger] v[i], w[i])
}

pub open spec fn plain_all(v: Seq<SExpr>) -> bool {
    forall|i: int| 0 <= i < v.len() ==> plain(#[trigger] v[i])
}

/// From `p` on, the stream holds these tokens.
#[verifier::opaque]
pub open spec fn spells(ts: Seq<SToken>, p: int, w: Seq<STok>) -> bool {
    &&& 0 <= p
    &&& p + w.len() <= ts.len()
    &&& forall|i: int| 0 <= i < w.len() ==> (#[trigger] ts[p + i]).tok == w[i]
}

proof fn spells_split(ts: Seq<SToken>, p: int, a: Seq<STok>, b: Seq<STok>)
    requires
        spells(ts, p, a + b),
    ensures
        spells(ts, p, a),
        spells(ts, p + a.len(), b),
        0 <= p,
        p + a.len() + b.len() <= ts.len(),
{
    reveal(spells);
    assert forall|i: int| 0 <= i < a.len() implies (#[trigger] ts[p + i]).tok == a[i] by {
        assert((a + b)[i] == a[i]);
        assert(ts[p + i].tok == (a + b)[i]);
    }
    assert forall|i: int| 0 <= i < b.len() implies (#[trigger] ts[p + a.len() + i]).tok == b[i] by {
        assert((a + b)[a.len() + i] == b[i]);
        assert(ts[p + (a.len() + i)].tok == (a + b)[a.len() + i]);
    }
}

/// What follows ends an operand: no index, field or arguments, and no operator that
/// binds as loosely as `n`, or tighter.
pub open spec fn ends(t: STok, n: nat) -> bool {
    &&& t != STok::Plain(Tok::LParen)
    &&& t != STok::Plain(Tok::LBracket)
    &&& t != STok::Plain(Tok::Dot)
    &&& forall|j: nat| 1 <= j <= n ==> (#[trigger] op_at(j, t)) is None
}

/// What follows ends an expression.
pub open spec fn closes(t: STok) -> bool {
    ends(t, 6) && t != STok::Plain(Tok::Assign)
}

proof fn put_is_something(e: SExpr, m: nat)
    requires
        plain(e),
    ensures
        bare(e).len() > 0,
        put(e, m).len() > 0,
{
}

/// What begins an operand that needs no prefix.
spec fn begins(t: STok) -> bool {
    match t {
        STok::Str(_) | STok::Ident(_) | STok::Float(_) => true,
        STok::Plain(Tok::Int(_)) => true,
        STok::Plain(x) => x == Tok::True || x == Tok::False || x == Tok::LParen || x == Tok::LBracket,
        _ => false,
    }
}

proof fn first_of_postfix(e: SExpr)
    requires
        plain(e),
    ensures
        put(e, 0).len() > 0,
        begins(put(e, 0)[0]),
    decreases e,
{
    if room(e) == 0 {
        match e {
            SExpr::Index(a, v, _) => {
                first_of_postfix(*a);
                assert(bare(e)[0] == put(*a, 0)[0]);
            }
            SExpr::FieldAccess(a, n, _) => {
                first_of_postfix(*a);
                assert(bare(e)[0] == put(*a, 0)[0]);
            }
            SExpr::ArrayLit(v, _) => {
                assert(bare(e)[0] == STok::Plain(Tok::LBracket));
            }
            _ => {}
        }
    } else {
        assert(put(e, 0)[0] == STok::Plain(Tok::LParen));
    }
}

/// What begins no expression with a block.
proof fn first_token(e: SExpr, m: nat)
    requires
        plain(e),
    ensures
        put(e, m).len() > 0,
        put(e, m)[0] != STok::Plain(Tok::If),
        put(e, m)[0] != STok::Plain(Tok::Transact),
        put(e, m)[0] != STok::Plain(Tok::Match),
        put(e, m)[0] != STok::Plain(Tok::RParen),
    decreases e, m,
{
    if room(e) <= m {
        match e {
            SExpr::Index(a, _, _) => {
                first_of_postfix(*a);
                assert(bare(e)[0] == put(*a, 0)[0]);
            }
            SExpr::FieldAccess(a, _, _) => {
                first_of_postfix(*a);
                assert(bare(e)[0] == put(*a, 0)[0]);
            }
            SExpr::Binary(op, l, _, _) => {
                first_token(*l, 1 + looseness(op));
                assert(bare(e)[0] == put(*l, 1 + looseness(op))[0]);
            }
            _ => {}
        }
    } else {
        assert(put(e, m)[0] == STok::Plain(Tok::LParen));
    }
}

/// From an operand of one level to one of a looser level.
proof fn climb(ts: Seq<SToken>, p: int, x: SExpr, q: int, from: nat, to: nat)
    requires
        0 <= p < q <= ts.len(),
        from <= to,
        binary(ts, p, from) == if from == 0 {
            Out::Got(x, q)
        } else {
            operands(ts, x, q, from)
        },
        to > 0 ==> ends(kind(ts, q), (to - 1) as nat),
    ensures
        binary(ts, p, to) == if to == 0 {
            Out::Got(x, q)
        } else {
            operands(ts, x, q, to)
        },
    decreases to,
{
    if from < to {
        let m = (to - 1) as nat;
        climb(ts, p, x, q, from, m);
        if m > 0 {
            assert(op_at(m, kind(ts, q)) is None);
            assert(operands(ts, x, q, m) == Out::Got(x, q));
        }
    }
}

/// Anything that is an operand without an operator.
proof fn climbs(ts: Seq<SToken>, p: int, x: SExpr, q: int, to: nat)
    requires
        0 <= p < q <= ts.len(),
        unary(ts, p) == Out::Got(x, q),
        to > 0 ==> ends(kind(ts, q), (to - 1) as nat),
    ensures
        binary(ts, p, to) == if to == 0 {
            Out::Got(x, q)
        } else {
            operands(ts, x, q, to)
        },
{
    assert(binary(ts, p, 0) == unary(ts, p));
    climb(ts, p, x, q, 0, to);
}

/// An operand that can be indexed, and is not, is an operand.
proof fn operand_of_postfix(ts: Seq<SToken>, p: int, x: SExpr, q: int)
    requires
        0 <= p < q <= ts.len(),
        postfix(ts, p) == suffixes(ts, x, q),
        ends(kind(ts, q), 0),
        begins(kind(ts, p)),
    ensures
        unary(ts, p) == Out::Got(x, q),
{
    assert(suffixes(ts, x, q) == Out::Got(x, q));
    assert(call(ts, p) == Out::Got(x, q));
}

proof fn index_step(ts: Seq<SToken>, y: SExpr, q: int, ys: Seq<SExpr>, r: int)
    requires
        0 <= q < r < ts.len(),
        kind(ts, q) == STok::Plain(Tok::LBracket),
        exprs(ts, Seq::empty(), q + 1) == Out::Got(ys, r),
        kind(ts, r) == STok::Plain(Tok::RBracket),
    ensures
        suffixes(ts, y, q) == suffixes(
            ts,
            SExpr::Index(Box::new(y), ys, crate::grammar::here(ts, q)),
            r + 1,
        ),
{
    assert(want(ts, r, Tok::RBracket, "`]`"@) == Out::Got((), r + 1));
}

proof fn field_step(ts: Seq<SToken>, y: SExpr, q: int, n: Seq<char>)
    requires
        kind(ts, q) == STok::Plain(Tok::Dot),
        kind(ts, q + 1) == STok::Ident(n),
    ensures
        suffixes(ts, y, q) == suffixes(
            ts,
            SExpr::FieldAccess(Box::new(y), n, crate::grammar::here(ts, q)),
            q + 2,
        ),
{
    assert(crate::grammar::ident(ts, q + 1) == Out::Got(n, q + 2));
}

proof fn array_step(ts: Seq<SToken>, p: int, ys: Seq<SExpr>, r: int)
    requires
        0 <= p < r < ts.len(),
        kind(ts, p) == STok::Plain(Tok::LBracket),
        exprs(ts, Seq::empty(), p + 1) == Out::Got(ys, r),
        kind(ts, r) == STok::Plain(Tok::RBracket),
    ensures
        postfix(ts, p) == suffixes(ts, SExpr::ArrayLit(ys, crate::grammar::here(ts, p)), r + 1),
{
    assert(want(ts, r, Tok::RBracket, "`]`"@) == Out::Got((), r + 1));
    assert(primary(ts, p) == Out::Got(SExpr::ArrayLit(ys, crate::grammar::here(ts, p)), r + 1));
}

proof fn argument_step(ts: Seq<SToken>, p: int, ys: Seq<SExpr>, r: int)
    requires
        kind(ts, p) == STok::Plain(Tok::LParen),
        kind(ts, p + 1) != STok::Plain(Tok::RParen),
        exprs(ts, Seq::empty(), p + 1) == Out::Got(ys, r),
        kind(ts, r) == STok::Plain(Tok::RParen),
    ensures
        arguments(ts, p) == Out::Got(ys, r + 1),
{
    assert(want(ts, r, Tok::RParen, "`)`"@) == Out::Got((), r + 1));
}

proof fn call_step(ts: Seq<SToken>, p: int, n: Seq<char>, ys: Seq<SExpr>, r: int)
    requires
        0 <= p < ts.len(),
        kind(ts, p) == STok::Ident(n),
        kind(ts, p + 1) == STok::Plain(Tok::LParen),
        arguments(ts, p + 1) == Out::Got(ys, r),
    ensures
        call(ts, p) == Out::Got(SExpr::Call(n, ys, crate::grammar::here(ts, p)), r),
{
    let x = SExpr::Ident(n, crate::grammar::here(ts, p));
    assert(primary(ts, p) == Out::Got(x, p + 1));
    assert(suffixes(ts, x, p + 1) == Out::Got(x, p + 1));
    assert(postfix(ts, p) == Out::Got(x, p + 1));
}

proof fn spawn_step(ts: Seq<SToken>, p: int, n: Seq<char>, ys: Seq<SExpr>, r: int, at: crate::token::Span)
    requires
        call(ts, p + 1) == Out::Got(SExpr::Call(n, ys, at), r),
    ensures
        kind(ts, p) == STok::Plain(Tok::Spawn) ==> unary(ts, p) == Out::Got(
            SExpr::Spawn(n, ys, crate::grammar::here(ts, p)),
            r,
        ),
        kind(ts, p) == STok::Plain(Tok::Sandbox) ==> unary(ts, p) == Out::Got(
            SExpr::SpawnSandbox(n, ys, crate::grammar::here(ts, p)),
            r,
        ),
{
}

proof fn prefix_step(ts: Seq<SToken>, p: int, y: SExpr, q: int)
    requires
        unary(ts, p + 1) == Out::Got(y, q),
    ensures
        kind(ts, p) == STok::Plain(Tok::Minus) ==> unary(ts, p) == Out::Got(
            SExpr::Unary(UnOp::Neg, Box::new(y), crate::grammar::here(ts, p)),
            q,
        ),
        kind(ts, p) == STok::Plain(Tok::Bang) ==> unary(ts, p) == Out::Got(
            SExpr::Unary(UnOp::Not, Box::new(y), crate::grammar::here(ts, p)),
            q,
        ),
        kind(ts, p) == STok::Plain(Tok::Star) ==> unary(ts, p) == Out::Got(
            SExpr::Deref(Box::new(y), crate::grammar::here(ts, p)),
            q,
        ),
        kind(ts, p) == STok::Plain(Tok::Box) ==> unary(ts, p) == Out::Got(
            SExpr::Box(Box::new(y), crate::grammar::here(ts, p)),
            q,
        ),
        kind(ts, p) == STok::Plain(Tok::Join) ==> unary(ts, p) == Out::Got(
            SExpr::Join(Box::new(y), crate::grammar::here(ts, p)),
            q,
        ),
        kind(ts, p) == STok::Plain(Tok::Stop) ==> unary(ts, p) == Out::Got(
            SExpr::StopSandbox(Box::new(y), crate::grammar::here(ts, p)),
            q,
        ),
        kind(ts, p) == STok::Plain(Tok::Amp) && y is Ident ==> unary(ts, p) == Out::Got(
            SExpr::Ref(Box::new(y), crate::grammar::here(ts, p)),
            q,
        ),
{
}

proof fn form_step(ts: Seq<SToken>, p: int, a: SExpr, b: SExpr, q: int)
    ensures
        parens1(ts, p + 1) == Out::Got(a, q) ==> {
            &&& kind(ts, p) == STok::Plain(Tok::Recv) ==> unary(ts, p) == Out::Got(
                SExpr::Recv(Box::new(a), crate::grammar::here(ts, p)),
                q,
            )
            &&& kind(ts, p) == STok::Plain(Tok::Listen) ==> unary(ts, p) == Out::Got(
                SExpr::Listen(Box::new(a), crate::grammar::here(ts, p)),
                q,
            )
            &&& kind(ts, p) == STok::Plain(Tok::Accept) ==> unary(ts, p) == Out::Got(
                SExpr::Accept(Box::new(a), crate::grammar::here(ts, p)),
                q,
            )
        },
        parens2(ts, p + 1) == Out::Got((a, b), q) ==> {
            &&& kind(ts, p) == STok::Plain(Tok::Send) ==> unary(ts, p) == Out::Got(
                SExpr::Send(Box::new(a), Box::new(b), crate::grammar::here(ts, p)),
                q,
            )
            &&& kind(ts, p) == STok::Plain(Tok::Connect) ==> unary(ts, p) == Out::Got(
                SExpr::Connect(Box::new(a), Box::new(b), crate::grammar::here(ts, p)),
                q,
            )
            &&& kind(ts, p) == STok::Plain(Tok::Open) ==> unary(ts, p) == Out::Got(
                SExpr::Open(Box::new(a), Box::new(b), crate::grammar::here(ts, p)),
                q,
            )
        },
{
}

/// The tokens of one kind of operand.
proof fn first_is(ts: Seq<SToken>, p: int, w: Seq<STok>)
    requires
        spells(ts, p, w),
        w.len() > 0,
    ensures
        kind(ts, p) == w[0],
        0 <= p,
        p + w.len() <= ts.len(),
{
    reveal(spells);
    assert(ts[p + 0].tok == w[0]);
}

/// What can be indexed is read up to what may follow it.
proof fn reads_postfix(ts: Seq<SToken>, p: int, e: SExpr) -> (x: SExpr)
    requires
        plain(e),
        spells(ts, p, put(e, 0)),
    ensures
        same(x, e),
        postfix(ts, p) == suffixes(ts, x, p + put(e, 0).len()),
    decreases e, 20nat,
{
    if room(e) == 0 {
        reads_bare_postfix(ts, p, e)
    } else {
        reads_parens(ts, p, e)
    }
}

/// In parentheses anything is read.
proof fn reads_parens(ts: Seq<SToken>, p: int, e: SExpr) -> (x: SExpr)
    requires
        plain(e),
        spells(
            ts,
            p,
            seq![STok::Plain(Tok::LParen)] + bare(e) + seq![STok::Plain(Tok::RParen)],
        ),
    ensures
        same(x, e),
        postfix(ts, p) == suffixes(ts, x, p + bare(e).len() + 2),
    decreases e, 19nat,
{
    let open = seq![STok::Plain(Tok::LParen)];
    let close = seq![STok::Plain(Tok::RParen)];
    spells_split(ts, p, open + bare(e), close);
    spells_split(ts, p, open, bare(e));
    first_is(ts, p, open);
    let q = p + 1 + bare(e).len();
    first_is(ts, q, close);
    assert(kind(ts, q) == STok::Plain(Tok::RParen));
    let x = reads_bare(ts, p + 1, e);
    assert(primary(ts, p) == Out::Got(x, q + 1));
    x
}

proof fn reads_bare_postfix(ts: Seq<SToken>, p: int, e: SExpr) -> (x: SExpr)
    requires
        plain(e),
        room(e) == 0,
        spells(ts, p, bare(e)),
    ensures
        same(x, e),
        postfix(ts, p) == suffixes(ts, x, p + bare(e).len()),
    decreases e, 11nat,
{
    match e {
        SExpr::Index(..) => reads_index(ts, p, e),
        SExpr::FieldAccess(..) => reads_field(ts, p, e),
        SExpr::ArrayLit(..) => reads_array(ts, p, e),
        _ => reads_word(ts, p, e),
    }
}

proof fn reads_index(ts: Seq<SToken>, p: int, e: SExpr) -> (x: SExpr)
    requires
        plain(e),
        e is Index,
        spells(ts, p, bare(e)),
    ensures
        same(x, e),
        postfix(ts, p) == suffixes(ts, x, p + bare(e).len()),
    decreases e, 10nat,
{
    if let SExpr::Index(a, v, _) = e {
        let w = put(*a, 0);
        let open = one(Tok::LBracket);
        let close = one(Tok::RBracket);
        spells_split(ts, p, w + open + list(v), close);
        spells_split(ts, p, w + open, list(v));
        spells_split(ts, p, w, open);
        let y = reads_postfix(ts, p, *a);
        let q = p + w.len();
        first_is(ts, q, open);
        let r = q + 1 + list(v).len();
        first_is(ts, r, close);
        let ys = reads_list(ts, q + 1, v, Seq::empty());
        assert(Seq::<SExpr>::empty() + ys =~= ys);
        index_step(ts, y, q, ys, r);
        let x = SExpr::Index(Box::new(y), ys, crate::grammar::here(ts, q));
        assert(same(x, e)) by {
            reveal_with_fuel(same, 2);
        }
        x
    } else {
        e
    }
}

proof fn reads_field(ts: Seq<SToken>, p: int, e: SExpr) -> (x: SExpr)
    requires
        plain(e),
        e is FieldAccess,
        spells(ts, p, bare(e)),
    ensures
        same(x, e),
        postfix(ts, p) == suffixes(ts, x, p + bare(e).len()),
    decreases e, 10nat,
{
    if let SExpr::FieldAccess(a, n, _) = e {
        let w = put(*a, 0);
        let dot = one(Tok::Dot);
        let name = seq![STok::Ident(n)];
        spells_split(ts, p, w + dot, name);
        spells_split(ts, p, w, dot);
        let y = reads_postfix(ts, p, *a);
        let q = p + w.len();
        first_is(ts, q, dot);
        first_is(ts, q + 1, name);
        field_step(ts, y, q, n);
        SExpr::FieldAccess(Box::new(y), n, crate::grammar::here(ts, q))
    } else {
        e
    }
}

proof fn reads_array(ts: Seq<SToken>, p: int, e: SExpr) -> (x: SExpr)
    requires
        plain(e),
        e is ArrayLit,
        spells(ts, p, bare(e)),
    ensures
        same(x, e),
        postfix(ts, p) == suffixes(ts, x, p + bare(e).len()),
    decreases e, 10nat,
{
    if let SExpr::ArrayLit(v, _) = e {
        let open = one(Tok::LBracket);
        let close = one(Tok::RBracket);
        spells_split(ts, p, open + list(v), close);
        spells_split(ts, p, open, list(v));
        first_is(ts, p, open);
        let r = p + 1 + list(v).len();
        first_is(ts, r, close);
        let ys = reads_list(ts, p + 1, v, Seq::empty());
        assert(Seq::<SExpr>::empty() + ys =~= ys);
        array_step(ts, p, ys, r);
        SExpr::ArrayLit(ys, crate::grammar::here(ts, p))
    } else {
        e
    }
}

proof fn reads_word(ts: Seq<SToken>, p: int, e: SExpr) -> (x: SExpr)
    requires
        e is Int || e is Float || e is Bool || e is Str || e is Ident,
        spells(ts, p, bare(e)),
    ensures
        same(x, e),
        postfix(ts, p) == suffixes(ts, x, p + bare(e).len()),
{
    let span = crate::grammar::here(ts, p);
    first_is(ts, p, bare(e));
    let x = match e {
        SExpr::Int(n, _) => SExpr::Int(n, span),
        SExpr::Float(f, _) => SExpr::Float(f, span),
        SExpr::Bool(b, _) => SExpr::Bool(b, span),
        SExpr::Str(s, _) => SExpr::Str(s, span),
        SExpr::Ident(n, _) => SExpr::Ident(n, span),
        _ => e,
    };
    assert(primary(ts, p) == Out::Got(x, p + 1));
    x
}

proof fn call_parts(ts: Seq<SToken>, p: int, n: Seq<char>, w: Seq<STok>)
    requires
        spells(ts, p, seq![STok::Ident(n)] + one(Tok::LParen) + w + one(Tok::RParen)),
    ensures
        kind(ts, p) == STok::Ident(n),
        kind(ts, p + 1) == STok::Plain(Tok::LParen),
        spells(ts, p + 2, w),
        kind(ts, p + 2 + w.len()) == STok::Plain(Tok::RParen),
        0 <= p,
        p + 3 + w.len() <= ts.len(),
{
    let name = seq![STok::Ident(n)];
    let open = one(Tok::LParen);
    let close = one(Tok::RParen);
    spells_split(ts, p, name + open + w, close);
    spells_split(ts, p, name + open, w);
    spells_split(ts, p, name, open);
    first_is(ts, p, name);
    first_is(ts, p + 1, open);
    first_is(ts, p + 2 + w.len(), close);
}

proof fn list_first(v: Seq<SExpr>)
    requires
        v.len() > 0,
        plain_all(v),
    ensures
        list(v).len() > 0,
        list(v)[0] != STok::Plain(Tok::RParen),
{
    assert(plain(v[0]));
    first_token(v[0], 8);
    assert(list(v)[0] == put(v[0], 8)[0]);
}

proof fn empty_call_step(ts: Seq<SToken>, p: int, n: Seq<char>)
    requires
        0 <= p < ts.len(),
        kind(ts, p) == STok::Ident(n),
        kind(ts, p + 1) == STok::Plain(Tok::LParen),
        kind(ts, p + 2) == STok::Plain(Tok::RParen),
    ensures
        call(ts, p) == Out::Got(
            SExpr::Call(n, Seq::<SExpr>::empty(), crate::grammar::here(ts, p)),
            p + 3,
        ),
{
    assert(arguments(ts, p + 1) == Out::Got(Seq::<SExpr>::empty(), p + 3));
    call_step(ts, p, n, Seq::empty(), p + 3);
}

/// A call of a name.
proof fn reads_call(ts: Seq<SToken>, p: int, n: Seq<char>, v: Seq<SExpr>) -> (ys: Seq<SExpr>)
    requires
        plain_all(v),
        spells(ts, p, seq![STok::Ident(n)] + one(Tok::LParen) + list(v) + one(Tok::RParen)),
    ensures
        same_all(ys, v),
        call(ts, p) == Out::Got(
            SExpr::Call(n, ys, crate::grammar::here(ts, p)),
            p + list(v).len() + 3,
        ),
    decreases v, v.len() + 1,
{
    call_parts(ts, p, n, list(v));
    if v.len() == 0 {
        empty_call_step(ts, p, n);
        Seq::empty()
    } else {
        list_first(v);
        first_is(ts, p + 2, list(v));
        let ys = reads_list(ts, p + 2, v, Seq::empty());
        assert(Seq::<SExpr>::empty() + ys =~= ys);
        argument_step(ts, p + 1, ys, p + 2 + list(v).len());
        call_step(ts, p, n, ys, p + 3 + list(v).len());
        ys
    }
}

/// Expressions with commas between them, up to what closes them.
proof fn reads_list(ts: Seq<SToken>, p: int, v: Seq<SExpr>, acc: Seq<SExpr>) -> (ys: Seq<SExpr>)
    requires
        v.len() > 0,
        plain_all(v),
        spells(ts, p, list(v)),
        kind(ts, p + list(v).len()) == STok::Plain(Tok::RParen) || kind(ts, p + list(v).len())
            == STok::Plain(Tok::RBracket),
    ensures
        same_all(ys, v),
        exprs(ts, acc, p) == Out::Got(acc + ys, p + list(v).len()),
    decreases v, v.len(),
{
    let w = put(v[0], 8);
    put_is_something(v[0], 8);
    assert(decreases_to!(v => v[0]));
    if v.len() == 1 {
        let y = reads_expr(ts, p, v[0]);
        let ys = seq![y];
        assert(acc.push(y) =~= acc + ys);
        ys
    } else {
        let comma = one(Tok::Comma);
        let rest = v.skip(1);
        spells_split(ts, p, w + comma, list(rest));
        spells_split(ts, p, w, comma);
        let q = p + w.len();
        first_is(ts, q, comma);
        let y = reads_expr(ts, p, v[0]);
        assert forall|i: int| 0 <= i < rest.len() implies plain(#[trigger] rest[i]) by {
            assert(rest[i] == v[i + 1]);
        }
        assert(decreases_to!(v => rest));
        let zs = reads_list(ts, q + 1, rest, acc.push(y));
        let ys = seq![y] + zs;
        assert(acc.push(y) + zs =~= acc + ys);
        assert forall|i: int| 0 <= i < ys.len() implies same(#[trigger] ys[i], v[i]) by {
            if i > 0 {
                assert(ys[i] == zs[i - 1]);
                assert(rest[i - 1] == v[i]);
            }
        }
        ys
    }
}

/// An expression where there is room for all.
proof fn reads_expr(ts: Seq<SToken>, p: int, e: SExpr) -> (x: SExpr)
    requires
        plain(e),
        spells(ts, p, put(e, 8)),
        closes(kind(ts, p + put(e, 8).len())),
    ensures
        same(x, e),
        expr(ts, p) == Out::Got(x, p + put(e, 8).len()),
        assignment(ts, p) == Out::Got(x, p + put(e, 8).len()),
    decreases e, 18nat,
{
    reads_bare(ts, p, e)
}

proof fn reads_bare(ts: Seq<SToken>, p: int, e: SExpr) -> (x: SExpr)
    requires
        plain(e),
        spells(ts, p, bare(e)),
        closes(kind(ts, p + bare(e).len())),
    ensures
        same(x, e),
        expr(ts, p) == Out::Got(x, p + bare(e).len()),
        assignment(ts, p) == Out::Got(x, p + bare(e).len()),
    decreases e, 17nat,
{
    first_token(e, 8);
    put_is_something(e, 8);
    first_is(ts, p, bare(e));
    let q = p + bare(e).len();
    if let SExpr::Assign(n, a, _) = e {
        let name = seq![STok::Ident(n)];
        let eq = one(Tok::Assign);
        spells_split(ts, p, name + eq, put(*a, 8));
        spells_split(ts, p, name, eq);
        first_is(ts, p, name);
        first_is(ts, p + 1, eq);
        let y = reads_expr(ts, p + 2, *a);
        let x = SExpr::Ident(n, crate::grammar::here(ts, p));
        assert(primary(ts, p) == Out::Got(x, p + 1));
        assert(suffixes(ts, x, p + 1) == Out::Got(x, p + 1));
        assert(call(ts, p) == Out::Got(x, p + 1));
        assert(unary(ts, p) == Out::Got(x, p + 1));
        assert(ends(STok::Plain(Tok::Assign), 6));
        climbs(ts, p, x, p + 1, 6);
        assert(op_at(6, kind(ts, p + 1)) is None);
        assert(binary(ts, p, 6) == Out::Got(x, p + 1));
        let r = SExpr::Assign(n, Box::new(y), crate::grammar::here(ts, p));
        assert(assignment(ts, p) == Out::Got(r, q));
        r
    } else {
        assert(ends(kind(ts, q), 5)) by {
            assert forall|j: nat| 1 <= j <= 5 implies (#[trigger] op_at(j, kind(ts, q))) is None by {}
        }
        let x = reads_bare_binary(ts, p, e, 6);
        assert(op_at(6, kind(ts, q)) is None);
        assert(operands(ts, x, q, 6) == Out::Got(x, q));
        assert(assignment(ts, p) == Out::Got(x, q));
        x
    }
}

/// An operand of operators that bind as loosely as `level`.
proof fn reads_binary(ts: Seq<SToken>, p: int, e: SExpr, level: nat) -> (x: SExpr)
    requires
        plain(e),
        level <= 6,
        spells(ts, p, put(e, 1 + level)),
        ends(
            kind(ts, p + put(e, 1 + level).len()),
            if level == 0 {
                0
            } else {
                (level - 1) as nat
            },
        ),
    ensures
        same(x, e),
        binary(ts, p, level) == if level == 0 {
            Out::Got(x, p + put(e, 1 + level).len())
        } else {
            operands(ts, x, p + put(e, 1 + level).len(), level)
        },
    decreases e, 21nat,
{
    if room(e) <= 1 + level {
        reads_bare_binary(ts, p, e, level)
    } else {
        let x = reads_parens(ts, p, e);
        let q = p + bare(e).len() + 2;
        assert(put(e, 1 + level).len() == bare(e).len() + 2);
        assert(put(e, 1 + level)[0] == STok::Plain(Tok::LParen));
        first_is(ts, p, put(e, 1 + level));
        operand_of_postfix(ts, p, x, q);
        climbs(ts, p, x, q, level);
        x
    }
}

proof fn reads_bare_binary(ts: Seq<SToken>, p: int, e: SExpr, level: nat) -> (x: SExpr)
    requires
        plain(e),
        level <= 6,
        room(e) <= 1 + level,
        spells(ts, p, bare(e)),
        ends(
            kind(ts, p + bare(e).len()),
            if level == 0 {
                0
            } else {
                (level - 1) as nat
            },
        ),
    ensures
        same(x, e),
        binary(ts, p, level) == if level == 0 {
            Out::Got(x, p + bare(e).len())
        } else {
            operands(ts, x, p + bare(e).len(), level)
        },
    decreases e, 16nat,
{
    let q = p + bare(e).len();
    put_is_something(e, 8);
    first_is(ts, p, bare(e));
    if let SExpr::Binary(op, l, r, _) = e {
        let n = looseness(op);
        let a = put(*l, 1 + n);
        let o = one(symbol(op));
        let b = put(*r, n);
        put_is_something(*l, 1 + n);
        put_is_something(*r, n);
        spells_split(ts, p, a + o, b);
        spells_split(ts, p, a, o);
        let q1 = p + a.len();
        first_is(ts, q1, o);
        assert(kind(ts, q1) == STok::Plain(symbol(op)));
        symbols_are_their_operators(op, op, n);
        assert(ends(kind(ts, q1), (n - 1) as nat)) by {
            assert forall|j: nat| 1 <= j <= n - 1 implies (#[trigger] op_at(j, kind(ts, q1))) is None by {
                symbols_are_their_operators(op, op, j);
            }
        }
        let x = reads_binary(ts, p, *l, n);
        let m = (n - 1) as nat;
        assert(1 + m == n);
        assert(ends(kind(ts, q), if m == 0 { 0 } else { (m - 1) as nat })) by {
            assert forall|j: nat| 1 <= j <= m - 1 implies (#[trigger] op_at(j, kind(ts, q))) is None by {}
        }
        let y = reads_binary(ts, q1 + 1, *r, m);
        if m > 0 {
            assert(op_at(m, kind(ts, q)) is None);
            assert(operands(ts, y, q, m) == Out::Got(y, q));
        }
        let z = SExpr::Binary(op, Box::new(x), Box::new(y), crate::grammar::here(ts, q1));
        assert(binary(ts, p, n) == operands(ts, z, q, n));
        climb(ts, p, z, q, n, level);
        z
    } else {
        let x = reads_unary(ts, p, e);
        climbs(ts, p, x, q, level);
        x
    }
}

/// An operand without an operator.
proof fn reads_unary(ts: Seq<SToken>, p: int, e: SExpr) -> (x: SExpr)
    requires
        plain(e),
        room(e) <= 1,
        spells(ts, p, bare(e)),
        ends(kind(ts, p + bare(e).len()), 0),
    ensures
        same(x, e),
        unary(ts, p) == Out::Got(x, p + bare(e).len()),
    decreases e, 14nat,
{
    match e {
        SExpr::Unary(..)
        | SExpr::Deref(..)
        | SExpr::Box(..)
        | SExpr::Join(..)
        | SExpr::StopSandbox(..)
        | SExpr::Ref(..) => reads_prefix(ts, p, e),
        SExpr::Chan(_) => {
            first_is(ts, p, bare(e));
            SExpr::Chan(crate::grammar::here(ts, p))
        }
        SExpr::Recv(..)
        | SExpr::Listen(..)
        | SExpr::Accept(..) => reads_form(ts, p, e),
        SExpr::Send(..) | SExpr::Connect(..) | SExpr::Open(..) => reads_form2(ts, p, e),
        SExpr::Call(..) => reads_calling(ts, p, e),
        SExpr::Spawn(..) => reads_spawn(ts, p, e),
        SExpr::SpawnSandbox(..) => reads_sandbox(ts, p, e),
        _ => {
            put_is_something(e, 0);
            first_of_postfix(e);
            first_is(ts, p, bare(e));
            let x = reads_bare_postfix(ts, p, e);
            operand_of_postfix(ts, p, x, p + bare(e).len());
            x
        }
    }
}

proof fn reads_prefix(ts: Seq<SToken>, p: int, e: SExpr) -> (x: SExpr)
    requires
        plain(e),
        e is Unary || e is Deref || e is Box || e is Join || e is StopSandbox || e is Ref,
        spells(ts, p, bare(e)),
        ends(kind(ts, p + bare(e).len()), 0),
    ensures
        same(x, e),
        unary(ts, p) == Out::Got(x, p + bare(e).len()),
    decreases e, 13nat,
{
    let span = crate::grammar::here(ts, p);
    let q = p + bare(e).len();
    put_is_something(e, 8);
    first_is(ts, p, bare(e));
    match e {
        SExpr::Unary(op, a, _) => {
            let pre = one(
                match op {
                    UnOp::Neg => Tok::Minus,
                    UnOp::Not => Tok::Bang,
                },
            );
            let y = reads_prefixed(ts, p, e, pre, *a);
            prefix_step(ts, p, y, q);
            SExpr::Unary(op, Box::new(y), span)
        }
        SExpr::Deref(a, _) => {
            let y = reads_prefixed(ts, p, e, one(Tok::Star), *a);
            prefix_step(ts, p, y, q);
            SExpr::Deref(Box::new(y), span)
        }
        SExpr::Box(a, _) => {
            let y = reads_prefixed(ts, p, e, one(Tok::Box), *a);
            prefix_step(ts, p, y, q);
            SExpr::Box(Box::new(y), span)
        }
        SExpr::Join(a, _) => {
            let y = reads_prefixed(ts, p, e, one(Tok::Join), *a);
            prefix_step(ts, p, y, q);
            SExpr::Join(Box::new(y), span)
        }
        SExpr::StopSandbox(a, _) => {
            let y = reads_prefixed(ts, p, e, one(Tok::Stop), *a);
            prefix_step(ts, p, y, q);
            SExpr::StopSandbox(Box::new(y), span)
        }
        SExpr::Ref(a, _) => {
            let y = reads_prefixed(ts, p, e, one(Tok::Amp), *a);
            prefix_step(ts, p, y, q);
            SExpr::Ref(Box::new(y), span)
        }
        _ => e,
    }
}

proof fn reads_form(ts: Seq<SToken>, p: int, e: SExpr) -> (x: SExpr)
    requires
        plain(e),
        e is Recv || e is Listen || e is Accept,
        spells(ts, p, bare(e)),
    ensures
        same(x, e),
        unary(ts, p) == Out::Got(x, p + bare(e).len()),
    decreases e, 13nat,
{
    put_is_something(e, 8);
    first_is(ts, p, bare(e));
    match e {
        SExpr::Recv(a, _) => {
            let y = reads_one(ts, p, one(Tok::Recv), *a);
            form_step(ts, p, y, y, p + bare(e).len());
            SExpr::Recv(Box::new(y), crate::grammar::here(ts, p))
        }
        SExpr::Listen(a, _) => {
            let y = reads_one(ts, p, one(Tok::Listen), *a);
            form_step(ts, p, y, y, p + bare(e).len());
            SExpr::Listen(Box::new(y), crate::grammar::here(ts, p))
        }
        SExpr::Accept(a, _) => {
            let y = reads_one(ts, p, one(Tok::Accept), *a);
            form_step(ts, p, y, y, p + bare(e).len());
            SExpr::Accept(Box::new(y), crate::grammar::here(ts, p))
        }
        _ => e,
    }
}

proof fn reads_form2(ts: Seq<SToken>, p: int, e: SExpr) -> (x: SExpr)
    requires
        plain(e),
        e is Send || e is Connect || e is Open,
        spells(ts, p, bare(e)),
    ensures
        same(x, e),
        unary(ts, p) == Out::Got(x, p + bare(e).len()),
    decreases e, 13nat,
{
    put_is_something(e, 8);
    first_is(ts, p, bare(e));
    match e {
        SExpr::Send(a, b, _) => {
            let xy = reads_two(ts, p, e, one(Tok::Send), *a, *b);
            form_step(ts, p, xy.0, xy.1, p + bare(e).len());
            SExpr::Send(Box::new(xy.0), Box::new(xy.1), crate::grammar::here(ts, p))
        }
        SExpr::Connect(a, b, _) => {
            let xy = reads_two(ts, p, e, one(Tok::Connect), *a, *b);
            form_step(ts, p, xy.0, xy.1, p + bare(e).len());
            SExpr::Connect(Box::new(xy.0), Box::new(xy.1), crate::grammar::here(ts, p))
        }
        SExpr::Open(a, b, _) => {
            let xy = reads_two(ts, p, e, one(Tok::Open), *a, *b);
            form_step(ts, p, xy.0, xy.1, p + bare(e).len());
            SExpr::Open(Box::new(xy.0), Box::new(xy.1), crate::grammar::here(ts, p))
        }
        _ => e,
    }
}

proof fn spawn_parts(ts: Seq<SToken>, p: int, t: Tok, n: Seq<char>, w: Seq<STok>)
    requires
        spells(ts, p, one(t) + seq![STok::Ident(n)] + one(Tok::LParen) + w + one(Tok::RParen)),
    ensures
        kind(ts, p) == STok::Plain(t),
        spells(ts, p + 1, seq![STok::Ident(n)] + one(Tok::LParen) + w + one(Tok::RParen)),
{
    let rest = seq![STok::Ident(n)] + one(Tok::LParen) + w + one(Tok::RParen);
    assert(one(t) + seq![STok::Ident(n)] + one(Tok::LParen) + w + one(Tok::RParen) =~= one(t) + rest);
    spells_split(ts, p, one(t), rest);
    first_is(ts, p, one(t));
}

proof fn plain_call_step(ts: Seq<SToken>, p: int, n: Seq<char>)
    requires
        kind(ts, p) == STok::Ident(n),
    ensures
        unary(ts, p) == call(ts, p),
{
}

proof fn reads_calling(ts: Seq<SToken>, p: int, e: SExpr) -> (x: SExpr)
    requires
        plain(e),
        e is Call,
        spells(ts, p, bare(e)),
    ensures
        same(x, e),
        unary(ts, p) == Out::Got(x, p + bare(e).len()),
    decreases e, 13nat,
{
    if let SExpr::Call(n, v, _) = e {
        assert(plain_all(v));
        let ys = reads_call(ts, p, n, v);
        call_parts(ts, p, n, list(v));
        plain_call_step(ts, p, n);
        SExpr::Call(n, ys, crate::grammar::here(ts, p))
    } else {
        e
    }
}

#[verifier::rlimit(40)]
proof fn reads_spawn(ts: Seq<SToken>, p: int, e: SExpr) -> (x: SExpr)
    requires
        plain(e),
        e is Spawn,
        spells(ts, p, bare(e)),
    ensures
        same(x, e),
        unary(ts, p) == Out::Got(x, p + bare(e).len()),
    decreases e, 13nat,
{
    if let SExpr::Spawn(n, v, _) = e {
        assert(plain_all(v));
        spawn_parts(ts, p, Tok::Spawn, n, list(v));
        let ys = reads_call(ts, p + 1, n, v);
        spawn_step(ts, p, n, ys, p + 4 + list(v).len(), crate::grammar::here(ts, p + 1));
        SExpr::Spawn(n, ys, crate::grammar::here(ts, p))
    } else {
        e
    }
}

#[verifier::rlimit(40)]
proof fn reads_sandbox(ts: Seq<SToken>, p: int, e: SExpr) -> (x: SExpr)
    requires
        plain(e),
        e is SpawnSandbox,
        spells(ts, p, bare(e)),
    ensures
        same(x, e),
        unary(ts, p) == Out::Got(x, p + bare(e).len()),
    decreases e, 13nat,
{
    if let SExpr::SpawnSandbox(n, v, _) = e {
        assert(plain_all(v));
        spawn_parts(ts, p, Tok::Sandbox, n, list(v));
        let ys = reads_call(ts, p + 1, n, v);
        spawn_step(ts, p, n, ys, p + 4 + list(v).len(), crate::grammar::here(ts, p + 1));
        SExpr::SpawnSandbox(n, ys, crate::grammar::here(ts, p))
    } else {
        e
    }
}

proof fn reads_prefixed(ts: Seq<SToken>, p: int, e: SExpr, pre: Seq<STok>, a: SExpr) -> (y: SExpr)
    requires
        plain(a) || a is Ident,
        pre.len() == 1,
        bare(e) == pre + put(a, 1),
        spells(ts, p, bare(e)),
        ends(kind(ts, p + bare(e).len()), 0),
    ensures
        same(y, a),
        unary(ts, p + 1) == Out::Got(y, p + bare(e).len()),
    decreases a, 30nat,
{
    spells_split(ts, p, pre, put(a, 1));
    let y = reads_binary(ts, p + 1, a, 0);
    assert(binary(ts, p + 1, 0) == unary(ts, p + 1));
    y
}

proof fn reads_one(ts: Seq<SToken>, p: int, pre: Seq<STok>, a: SExpr) -> (y: SExpr)
    requires
        plain(a),
        pre.len() == 1,
        spells(ts, p, pre + one(Tok::LParen) + put(a, 8) + one(Tok::RParen)),
    ensures
        same(y, a),
        parens1(ts, p + 1) == Out::Got(y, p + put(a, 8).len() + 3),
    decreases a, 30nat,
{
    let open = one(Tok::LParen);
    let close = one(Tok::RParen);
    let w = put(a, 8);
    spells_split(ts, p, pre + open + w, close);
    spells_split(ts, p, pre + open, w);
    spells_split(ts, p, pre, open);
    first_is(ts, p + 1, open);
    let q = p + 2 + w.len();
    first_is(ts, q, close);
    reads_expr(ts, p + 2, a)
}

proof fn reads_two(ts: Seq<SToken>, p: int, e: SExpr, pre: Seq<STok>, a: SExpr, b: SExpr) -> (xy: (
    SExpr,
    SExpr,
))
    requires
        match e {
            SExpr::Send(x, y, _) => *x == a && *y == b,
            SExpr::Connect(x, y, _) => *x == a && *y == b,
            SExpr::Open(x, y, _) => *x == a && *y == b,
            _ => false,
        },
        plain(a),
        plain(b),
        pre.len() == 1,
        spells(
            ts,
            p,
            pre + one(Tok::LParen) + put(a, 8) + one(Tok::Comma) + put(b, 8) + one(Tok::RParen),
        ),
    ensures
        same(xy.0, a),
        same(xy.1, b),
        parens2(ts, p + 1) == Out::Got(xy, p + put(a, 8).len() + put(b, 8).len() + 4),
    decreases e, 12nat,
{
    let open = one(Tok::LParen);
    let comma = one(Tok::Comma);
    let close = one(Tok::RParen);
    let u = put(a, 8);
    let w = put(b, 8);
    spells_split(ts, p, pre + open + u + comma + w, close);
    spells_split(ts, p, pre + open + u + comma, w);
    spells_split(ts, p, pre + open + u, comma);
    spells_split(ts, p, pre + open, u);
    spells_split(ts, p, pre, open);
    first_is(ts, p + 1, open);
    let q = p + 2 + u.len();
    first_is(ts, q, comma);
    let r = q + 1 + w.len();
    first_is(ts, r, close);
    let x = reads_expr(ts, p + 2, a);
    let y = reads_expr(ts, q + 1, b);
    (x, y)
}

/// Parsing undoes printing: whatever follows an expression that ends it, the expression
/// is read back, and nothing of what follows. An expression has the parentheses that it
/// needs and no others, so that operators bind as tightly as they should and operands of
/// one operator group to the left.
pub proof fn expressions_are_read_back(ts: Seq<SToken>, p: int, e: SExpr)
    requires
        plain(e),
        spells(ts, p, put(e, 8)),
        closes(kind(ts, p + put(e, 8).len())),
    ensures
        expr(ts, p) matches Out::Got(x, q) && q == p + put(e, 8).len() && same(x, e),
{
    let x = reads_expr(ts, p, e);
}

/// An expression that is written alone is read alone.
pub proof fn lone_expressions_are_read_back(ts: Seq<SToken>, e: SExpr)
    requires
        plain(e),
        spells(ts, 0, put(e, 8).push(STok::Plain(Tok::Eof))),
    ensures
        standalone(ts) matches Out::Got(x, _) && same(x, e),
{
    let w = put(e, 8);
    let end = one(Tok::Eof);
    assert(w.push(STok::Plain(Tok::Eof)) =~= w + end);
    spells_split(ts, 0, w, end);
    first_is(ts, w.len() as int, end);
    let x = reads_expr(ts, 0, e);
}

} // verus!
