//! How statements, blocks, types and declarations are read: each by its own words, with its
//! parts where they stand.
use crate::ast::{EffectSet, STy};
use crate::grammar::{
    block, effect_annotation, effects, else_part, expr, fn_decl, here, if_expr, kind, params, stmt,
    stmts, ty, typed, with_effect, Out,
};
use crate::token::{STok, SToken, Tok};
use crate::tree::{SElse, SExpr, SFn, SStmt, STyped};
use vstd::prelude::*;
use vstd::string::*;

verus! {

/// The token at a place is this one.
pub open spec fn word_at(ts: Seq<SToken>, p: int, t: Tok) -> bool {
    kind(ts, p) == STok::Plain(t)
}

/// `let n: t = e`
pub proof fn lets_are_read(ts: Seq<SToken>, p: int, n: Seq<char>, t: STy, q: int, e: SExpr, r: int)
    requires
        word_at(ts, p, Tok::Let),
        kind(ts, p + 1) == STok::Ident(n),
        word_at(ts, p + 2, Tok::Colon),
        ty(ts, p + 3) == Out::Got(t, q),
        p < q,
        word_at(ts, q, Tok::Assign),
        expr(ts, q + 1) == Out::Got(e, r),
    ensures
        stmt(ts, p) == Out::Got(
            SStmt::Let { name: n, ty: t, value: e, span: here(ts, p) },
            r,
        ),
{
}

/// `return e`, and `return` alone at the end of a block.
pub proof fn returns_are_read(ts: Seq<SToken>, p: int, e: SExpr, r: int)
    requires
        word_at(ts, p, Tok::Return),
    ensures
        word_at(ts, p + 1, Tok::RBrace) ==> stmt(ts, p) == Out::Got(
            SStmt::Return { value: None, span: here(ts, p) },
            p + 1,
        ),
        !word_at(ts, p + 1, Tok::RBrace) && expr(ts, p + 1) == Out::Got(e, r) ==> stmt(ts, p)
            == Out::Got(SStmt::Return { value: Some(e), span: here(ts, p) }, r),
{
}

/// `while c { .. }` and `audited "why" { .. }`
pub proof fn loops_are_read(
    ts: Seq<SToken>,
    p: int,
    c: SExpr,
    q: int,
    why: Seq<char>,
    v: Seq<SStmt>,
    r: int,
)
    ensures
        word_at(ts, p, Tok::While) && expr(ts, p + 1) == Out::Got(c, q) && p < q <= ts.len() && block(
            ts,
            q,
        ) == Out::Got(v, r) ==> stmt(ts, p) == Out::Got(
            SStmt::While { cond: c, body: v, span: here(ts, p) },
            r,
        ),
        word_at(ts, p, Tok::Audited) && kind(ts, p + 1) == STok::Str(why) && block(ts, p + 2)
            == Out::Got(v, r) ==> stmt(ts, p) == Out::Got(
            SStmt::Audited { justification: why, body: v, span: here(ts, p) },
            r,
        ),
{
}

/// `if c { .. }`, with `else { .. }` or another `if` behind it, or neither.
pub proof fn conditions_are_read(
    ts: Seq<SToken>,
    p: int,
    c: SExpr,
    q: int,
    one: Seq<SStmt>,
    r: int,
    other: Seq<SStmt>,
    again: SExpr,
    s: int,
)
    requires
        word_at(ts, p, Tok::If),
        expr(ts, p + 1) == Out::Got(c, q),
        p < q <= ts.len(),
        block(ts, q) == Out::Got(one, r),
        p < r <= ts.len(),
    ensures
        !word_at(ts, r, Tok::Else) ==> expr(ts, p) == Out::Got(
            SExpr::If { cond: Box::new(c), then_block: one, else_block: None, span: here(ts, p) },
            r,
        ),
        word_at(ts, r, Tok::Else) && !word_at(ts, r + 1, Tok::If) && block(ts, r + 1) == Out::Got(
            other,
            s,
        ) ==> expr(ts, p) == Out::Got(
            SExpr::If {
                cond: Box::new(c),
                then_block: one,
                else_block: Some(Box::new(SElse::Block(other))),
                span: here(ts, p),
            },
            s,
        ),
        word_at(ts, r, Tok::Else) && word_at(ts, r + 1, Tok::If) && expr(ts, r + 1) == Out::Got(
            again,
            s,
        ) ==> expr(ts, p) == Out::Got(
            SExpr::If {
                cond: Box::new(c),
                then_block: one,
                else_block: Some(Box::new(SElse::If(again))),
                span: here(ts, p),
            },
            s,
        ),
{
    assert(expr(ts, p) == if_expr(ts, p));
    if word_at(ts, r, Tok::Else) && word_at(ts, r + 1, Tok::If) {
        assert(expr(ts, r + 1) == if_expr(ts, r + 1));
    }
    assert(if_expr(ts, p) == match else_part(ts, r) {
        Out::Bad(e, k) => Out::Bad(e, k),
        Out::Got(else_block, k) => Out::Got(
            SExpr::If { cond: Box::new(c), then_block: one, else_block, span: here(ts, p) },
            k,
        ),
    });
}

/// Statements stand one behind the other, from the first of the places to the last.
pub open spec fn stand(ts: Seq<SToken>, v: Seq<SStmt>, places: Seq<int>) -> bool {
    &&& places.len() == v.len() + 1
    &&& forall|i: int|
        0 <= i < v.len() ==> {
            &&& stmt(ts, places[i]) == Out::Got(#[trigger] v[i], places[i + 1])
            &&& places[i] < places[i + 1] <= ts.len()
            &&& !word_at(ts, places[i], Tok::RBrace)
        }
}

proof fn statements_in_order(
    ts: Seq<SToken>,
    acc: Seq<SStmt>,
    v: Seq<SStmt>,
    places: Seq<int>,
)
    requires
        stand(ts, v, places),
        word_at(ts, places.last(), Tok::RBrace),
    ensures
        stmts(ts, acc, places[0]) == Out::Got(acc + v, places.last() + 1),
    decreases v.len(),
{
    if v.len() == 0 {
        assert(acc + v =~= acc);
    } else {
        let rest = v.skip(1);
        let there = places.skip(1);
        assert(v[0] == v[0int]);
        assert forall|i: int| 0 <= i < rest.len() implies {
            &&& stmt(ts, there[i]) == Out::Got(#[trigger] rest[i], there[i + 1])
            &&& there[i] < there[i + 1] <= ts.len()
            &&& !word_at(ts, there[i], Tok::RBrace)
        } by {
            assert(rest[i] == v[i + 1]);
        }
        statements_in_order(ts, acc.push(v[0]), rest, there);
        assert(acc.push(v[0]) + rest =~= acc + v);
    }
}

/// `{`, statements, `}`: a block holds its statements, all of them and in their order.
pub proof fn blocks_are_read(ts: Seq<SToken>, p: int, v: Seq<SStmt>, places: Seq<int>)
    requires
        word_at(ts, p, Tok::LBrace),
        stand(ts, v, places),
        places[0] == p + 1,
        word_at(ts, places.last(), Tok::RBrace),
    ensures
        block(ts, p) == Out::Got(v, places.last() + 1),
{
    statements_in_order(ts, Seq::empty(), v, places);
    assert(Seq::<SStmt>::empty() + v =~= v);
}

/// `Vector(t, n)`, `Matrix(t, n, m)`, `chan t`, `box t`, `&t` and `thread t`.
pub proof fn types_are_read(ts: Seq<SToken>, p: int, t: STy, q: int, n: i64, m: i64)
    ensures
        ty(ts, p + 1) == Out::Got(t, q) ==> {
            &&& word_at(ts, p, Tok::Box) ==> ty(ts, p) == Out::Got(STy::Box(Box::new(t)), q)
            &&& word_at(ts, p, Tok::Amp) ==> ty(ts, p) == Out::Got(STy::Ref(Box::new(t)), q)
            &&& word_at(ts, p, Tok::Thread) ==> ty(ts, p) == Out::Got(STy::Thread(Box::new(t)), q)
            &&& word_at(ts, p, Tok::Chan) ==> ty(ts, p) == Out::Got(STy::Channel(Box::new(t)), q)
        },
        word_at(ts, p, Tok::Sandbox) ==> ty(ts, p) == Out::Got(STy::Sandbox, p + 1),
        word_at(ts, p + 1, Tok::LParen) && ty(ts, p + 2) == Out::Got(t, q) && word_at(
            ts,
            q,
            Tok::Comma,
        ) && word_at(ts, q + 1, Tok::Int(n)) && 0 <= n <= usize::MAX ==> {
            &&& word_at(ts, p, Tok::VectorKw) && word_at(ts, q + 2, Tok::RParen) ==> ty(ts, p)
                == Out::Got(STy::Vector(Box::new(t), n as usize), q + 3)
            &&& word_at(ts, p, Tok::MatrixKw) && word_at(ts, q + 2, Tok::Comma) && word_at(
                ts,
                q + 3,
                Tok::Int(m),
            ) && 0 <= m <= usize::MAX && word_at(ts, q + 4, Tok::RParen) ==> ty(ts, p) == Out::Got(
                STy::Matrix(Box::new(t), n as usize, m as usize),
                q + 5,
            )
        },
{
}

/// Parameters stand one behind the other with commas between them.
pub open spec fn params_stand(ts: Seq<SToken>, v: Seq<STyped>, places: Seq<int>) -> bool {
    &&& v.len() > 0
    &&& places.len() == v.len() + 1
    &&& forall|i: int|
        0 <= i < v.len() ==> {
            &&& kind(ts, places[i]) == STok::Ident((#[trigger] v[i]).name)
            &&& word_at(ts, places[i] + 1, Tok::Colon)
            &&& ty(ts, places[i] + 2) == Out::Got(v[i].ty, places[i + 1] - 1)
            &&& places[i] < places[i + 1] - 1
            &&& i + 1 < v.len() ==> word_at(ts, places[i + 1] - 1, Tok::Comma)
        }
}

proof fn params_in_order(ts: Seq<SToken>, acc: Seq<STyped>, v: Seq<STyped>, places: Seq<int>)
    requires
        params_stand(ts, v, places),
        !word_at(ts, places.last() - 1, Tok::Comma),
    ensures
        params(ts, acc, places[0]) == Out::Got(acc + v, places.last() - 1),
    decreases v.len(),
{
    assert(v[0] == v[0int]);
    assert(typed(ts, places[0]) == Out::Got(v[0], places[1] - 1));
    if v.len() == 1 {
        assert(acc + v =~= acc.push(v[0]));
        assert(places.last() == places[1]);
    } else {
        let rest = v.skip(1);
        let there = places.skip(1);
        assert forall|i: int| 0 <= i < rest.len() implies {
            &&& kind(ts, there[i]) == STok::Ident((#[trigger] rest[i]).name)
            &&& word_at(ts, there[i] + 1, Tok::Colon)
            &&& ty(ts, there[i] + 2) == Out::Got(rest[i].ty, there[i + 1] - 1)
            &&& there[i] < there[i + 1] - 1
            &&& i + 1 < rest.len() ==> word_at(ts, there[i + 1] - 1, Tok::Comma)
        } by {
            assert(rest[i] == v[i + 1]);
        }
        params_in_order(ts, acc.push(v[0]), rest, there);
        assert(acc.push(v[0]) + rest =~= acc + v);
    }
}

/// `fn n(parameters) -> t { .. }`: a function has its name, its parameters in their order, its
/// type and its body; without an arrow its type is `unit`, and without an annotation it declares
/// no effects.
pub proof fn functions_are_read(
    ts: Seq<SToken>,
    p: int,
    n: Seq<char>,
    v: Seq<STyped>,
    places: Seq<int>,
    t: STy,
    q: int,
    body: Seq<SStmt>,
    r: int,
)
    requires
        word_at(ts, p, Tok::Fn),
        kind(ts, p + 1) == STok::Ident(n),
        word_at(ts, p + 2, Tok::LParen),
        v.len() == 0 ==> places == seq![p + 4],
        v.len() > 0 ==> params_stand(ts, v, places) && places[0] == p + 3,
        word_at(ts, places.last() - 1, Tok::RParen),
        word_at(ts, places.last(), Tok::Arrow) ==> ty(ts, places.last() + 1) == Out::Got(t, q),
        !word_at(ts, places.last(), Tok::Arrow) ==> t == STy::Unit && q == places.last(),
        !word_at(ts, q, Tok::Effect),
        block(ts, q) == Out::Got(body, r),
    ensures
        fn_decl(ts, p) == Out::Got(
            SFn {
                name: n,
                params: v,
                ret: t,
                body,
                span: here(ts, p),
                declared_effects: None,
                requirement: None,
            },
            r,
        ),
{
    let none = Seq::<STyped>::empty();
    if v.len() == 0 {
        assert(v =~= none);
        assert(places.last() == p + 4);
    } else {
        assert(v[0] == v[0int]);
        params_in_order(ts, none, v, places);
        assert(none + v =~= v);
    }
    assert(effect_annotation(ts, q) == Out::Got(None::<EffectSet>, q));
}

/// The names of effects stand one behind the other with commas between them.
pub open spec fn effects_stand(ts: Seq<SToken>, names: Seq<Seq<char>>, p: int) -> bool {
    &&& names.len() > 0
    &&& forall|i: int|
        0 <= i < names.len() ==> {
            &&& kind(ts, p + 2 * i) == STok::Ident(#[trigger] names[i])
            &&& names[i] == "rng"@ || names[i] == "io"@ || names[i] == "concurrent"@ || names[i]
                == "network"@
            &&& i + 1 < names.len() ==> word_at(ts, p + 2 * i + 1, Tok::Comma)
        }
}

/// The effects of a set and those of the names.
pub open spec fn gathered(set: EffectSet, names: Seq<Seq<char>>) -> EffectSet {
    EffectSet {
        rng: set.rng || names.contains("rng"@),
        io: set.io || names.contains("io"@),
        concurrent: set.concurrent || names.contains("concurrent"@),
        network: set.network || names.contains("network"@),
    }
}

proof fn effects_in_order(ts: Seq<SToken>, set: EffectSet, names: Seq<Seq<char>>, p: int)
    requires
        effects_stand(ts, names, p),
        !word_at(ts, p + 2 * names.len() - 1, Tok::Comma),
        p + 2 * names.len() - 1 <= ts.len(),
        0 <= p,
    ensures
        effects(ts, false, set, p) == Out::Got(
            (false, gathered(set, names)),
            p + 2 * names.len() - 1,
        ),
    decreases names.len(),
{
    reveal_strlit("pure");
    reveal_strlit("rng");
    reveal_strlit("io");
    reveal_strlit("concurrent");
    reveal_strlit("network");
    let first = names[0];
    assert(kind(ts, p + 2 * 0) == STok::Ident(names[0]));
    assert(first[0] != 'p' && "pure"@[0] == 'p');
    let rest = names.skip(1);
    let set2 = with_effect(set, first)->0;
    assert(names =~= seq![first] + rest);
    assert forall|x: Seq<char>| #[trigger] names.contains(x) <==> (x == first || rest.contains(x)) by {
        if names.contains(x) {
            let i = names.index_of(x);
            if i > 0 {
                assert(rest[i - 1] == x);
            }
        }
        if rest.contains(x) {
            let i = rest.index_of(x);
            assert(names[i + 1] == x);
        }
        assert(names[0] == first);
    }
    assert("rng"@.len() == 3 && "io"@.len() == 2 && "concurrent"@.len() == 10 && "network"@.len() == 7);
    if names.len() == 1 {
        assert(rest =~= Seq::empty());
        assert(with_effect(set, first) == Some(gathered(set, names)));
    } else {
        assert forall|i: int| 0 <= i < rest.len() implies {
            &&& kind(ts, p + 2 + 2 * i) == STok::Ident(#[trigger] rest[i])
            &&& rest[i] == "rng"@ || rest[i] == "io"@ || rest[i] == "concurrent"@ || rest[i]
                == "network"@
            &&& i + 1 < rest.len() ==> word_at(ts, p + 2 + 2 * i + 1, Tok::Comma)
        } by {
            assert(rest[i] == names[i + 1]);
            assert(p + 2 + 2 * i == p + 2 * (i + 1));
        }
        effects_in_order(ts, set2, rest, p + 2);
        assert(gathered(set2, rest) == gathered(set, names));
    }
}

/// `effect(names)` declares exactly the effects that it names, and `effect(pure)` none.
pub proof fn effects_are_declared_by_name(ts: Seq<SToken>, p: int, names: Seq<Seq<char>>)
    requires
        0 <= p,
        word_at(ts, p, Tok::Effect),
        word_at(ts, p + 1, Tok::LParen),
        p + 2 * names.len() + 1 <= ts.len(),
    ensures
        effects_stand(ts, names, p + 2) && word_at(ts, p + 2 * names.len() + 1, Tok::RParen) ==> (
        effect_annotation(ts, p) matches Out::Got(Some(set), q) && q == p + 2 * names.len() + 2 && (
        set.rng <==> names.contains("rng"@)) && (set.io <==> names.contains("io"@)) && (
        set.concurrent <==> names.contains("concurrent"@)) && (set.network <==> names.contains(
            "network"@,
        ))),
        kind(ts, p + 2) == STok::Ident("pure"@) && word_at(ts, p + 3, Tok::RParen) ==> (
        effect_annotation(ts, p) matches Out::Got(Some(set), q) && q == p + 4 && !set.rng && !set.io
            && !set.concurrent && !set.network),
{
    if effects_stand(ts, names, p + 2) && word_at(ts, p + 2 * names.len() + 1, Tok::RParen) {
        effects_in_order(ts, crate::grammar::no_effects(), names, p + 2);
    }
}

} // verus!
