//! Every borrow in a tree that was read is a borrow of a plain name.
use crate::grammar::{
    arguments, arms, assignment, at, binary, binders, block, call, effect_annotation, else_part, enum_decl,
    expr, exprs, fn_decl, ident, if_expr, items, kind, match_expr, maybe_slot, maybe_slots, op_at,
    operands, parens1, parens2, params, postfix, primary, program, slot, slots, standalone, stmt, stmts,
    struct_decl, suffixes, transact, ty, unary, want, Out,
};
use crate::ast::STy;
use crate::token::{STok, SToken, Tok};
use crate::tree::{SArm, SElse, SExpr, SFn, SProgram, SSlot, SStmt};
use vstd::prelude::*;

verus! {

/// Every borrow in the expression is one of a plain name.
pub open spec fn plain(e: SExpr) -> bool
    decreases e,
{
    match e {
        SExpr::Ref(a, _) => *a is Ident,
        SExpr::Unary(_, a, _) => plain(*a),
        SExpr::Assign(_, a, _) => plain(*a),
        SExpr::Box(a, _) => plain(*a),
        SExpr::Deref(a, _) => plain(*a),
        SExpr::Join(a, _) => plain(*a),
        SExpr::Recv(a, _) => plain(*a),
        SExpr::StopSandbox(a, _) => plain(*a),
        SExpr::Listen(a, _) => plain(*a),
        SExpr::Accept(a, _) => plain(*a),
        SExpr::FieldAccess(a, _, _) => plain(*a),
        SExpr::Binary(_, a, b, _) => plain(*a) && plain(*b),
        SExpr::Send(a, b, _) => plain(*a) && plain(*b),
        SExpr::Connect(a, b, _) => plain(*a) && plain(*b),
        SExpr::Open(a, b, _) => plain(*a) && plain(*b),
        SExpr::Call(_, v, _) => forall|i: int| 0 <= i < v.len() ==> plain(#[trigger] v[i]),
        SExpr::Spawn(_, v, _) => forall|i: int| 0 <= i < v.len() ==> plain(#[trigger] v[i]),
        SExpr::SpawnSandbox(_, v, _) => forall|i: int| 0 <= i < v.len() ==> plain(#[trigger] v[i]),
        SExpr::ArrayLit(v, _) => forall|i: int| 0 <= i < v.len() ==> plain(#[trigger] v[i]),
        SExpr::Index(a, v, _) => plain(*a) && forall|i: int|
            0 <= i < v.len() ==> plain(#[trigger] v[i]),
        SExpr::If { cond, then_block, else_block, .. } => {
            &&& plain(*cond)
            &&& forall|i: int| 0 <= i < then_block.len() ==> plain_stmt(#[trigger] then_block[i])
            &&& match else_block {
                Some(b) => match *b {
                    SElse::Block(v) => forall|i: int| 0 <= i < v.len() ==> plain_stmt(#[trigger] v[i]),
                    SElse::If(x) => plain(x),
                },
                None => true,
            }
        },
        SExpr::Match { scrutinee, arms, .. } => plain(*scrutinee) && forall|i: int|
            0 <= i < arms.len() ==> plain(*(#[trigger] arms[i]).body),
        SExpr::Transact { network, verify, commit, compensate, log, .. } => {
            &&& forall|i: int| 0 <= i < network.args.len() ==> plain(#[trigger] network.args[i])
            &&& forall|i: int| 0 <= i < verify.args.len() ==> plain(#[trigger] verify.args[i])
            &&& forall|i: int| 0 <= i < commit.args.len() ==> plain(#[trigger] commit.args[i])
            &&& match compensate {
                Some(s) => forall|i: int| 0 <= i < s.args.len() ==> plain(#[trigger] s.args[i]),
                None => true,
            }
            &&& match log {
                Some(s) => forall|i: int| 0 <= i < s.args.len() ==> plain(#[trigger] s.args[i]),
                None => true,
            }
        },
        _ => true,
    }
}

/// Every borrow in the statement is one of a plain name.
pub open spec fn plain_stmt(s: SStmt) -> bool
    decreases s,
{
    match s {
        SStmt::Let { value, .. } => plain(value),
        SStmt::Return { value, .. } => match value {
            Some(e) => plain(e),
            None => true,
        },
        SStmt::While { cond, body, .. } => plain(cond) && forall|i: int|
            0 <= i < body.len() ==> plain_stmt(#[trigger] body[i]),
        SStmt::Audited { body, .. } => forall|i: int|
            0 <= i < body.len() ==> plain_stmt(#[trigger] body[i]),
        SStmt::Expr(e) => plain(e),
    }
}

pub open spec fn plain_all(v: Seq<SExpr>) -> bool {
    forall|i: int| 0 <= i < v.len() ==> plain(#[trigger] v[i])
}

pub open spec fn plain_stmts(v: Seq<SStmt>) -> bool {
    forall|i: int| 0 <= i < v.len() ==> plain_stmt(#[trigger] v[i])
}

pub open spec fn plain_arms(v: Seq<SArm>) -> bool {
    forall|i: int| 0 <= i < v.len() ==> plain(*(#[trigger] v[i]).body)
}

pub open spec fn plain_else(b: Option<Box<SElse>>) -> bool {
    match b {
        Some(b) => match *b {
            SElse::Block(v) => plain_stmts(v),
            SElse::If(x) => plain(x),
        },
        None => true,
    }
}

pub open spec fn plain_maybe(s: Option<SSlot>) -> bool {
    s matches Some(s) ==> plain_all(s.args)
}

proof fn in_expr(ts: Seq<SToken>, p: int)
    ensures
        expr(ts, p) matches Out::Got(e, _) ==> plain(e),
    decreases ts.len() - p, 30nat,
{
    if at(ts, p, Tok::If) {
        in_if(ts, p);
    } else if at(ts, p, Tok::Transact) {
        in_transact(ts, p);
    } else if at(ts, p, Tok::Match) {
        in_match(ts, p);
    } else {
        in_assignment(ts, p);
    }
}

proof fn in_if(ts: Seq<SToken>, p: int)
    ensures
        if_expr(ts, p) matches Out::Got(e, _) ==> plain(e),
    decreases ts.len() - p, 29nat,
{
    if at(ts, p, Tok::If) {
        in_expr(ts, p + 1);
        if let Out::Got(_, q1) = expr(ts, p + 1) {
            if p < q1 <= ts.len() {
                in_block(ts, q1);
                if let Out::Got(b, q2) = block(ts, q1) {
                    assert(plain_stmts(b));
                    if p < q2 <= ts.len() {
                        in_else(ts, q2);
                        if let Out::Got(x, _) = else_part(ts, q2) {
                            assert(plain_else(x));
                        }
                    }
                }
            }
        }
    }
}

proof fn in_else(ts: Seq<SToken>, p: int)
    ensures
        else_part(ts, p) matches Out::Got(b, _) ==> plain_else(b),
    decreases ts.len() - p, 35nat,
{
    if at(ts, p, Tok::Else) {
        if at(ts, p + 1, Tok::If) {
            in_if(ts, p + 1);
        } else {
            in_block(ts, p + 1);
        }
    }
}

proof fn in_arms(ts: Seq<SToken>, acc: Seq<SArm>, p: int)
    requires
        plain_arms(acc),
    ensures
        arms(ts, acc, p) matches Out::Got(v, _) ==> plain_arms(v),
    decreases ts.len() - p, 31nat,
{
    if let Out::Got(variant, q0) = ident(ts, p) {
        if let Out::Got(bindings, q1) = binders(ts, q0) {
            if let Out::Got(_, q2) = want(ts, q1, Tok::FatArrow, "`=>`"@) {
                if p < q2 {
                    in_expr(ts, q2);
                    if let Out::Got(body, q3) = expr(ts, q2) {
                        let more = acc.push(
                            SArm {
                                variant,
                                bindings,
                                body: Box::new(body),
                                span: crate::grammar::here(ts, p),
                            },
                        );
                        assert(plain_arms(more)) by {
                            assert forall|i: int| 0 <= i < more.len() implies plain(
                                *(#[trigger] more[i]).body,
                            ) by {
                                if i < acc.len() {
                                    assert(more[i] == acc[i]);
                                }
                            }
                        }
                        if at(ts, q3, Tok::Comma) && p < q3 {
                            in_arms(ts, more, q3 + 1);
                        }
                    }
                }
            }
        }
    }
}

proof fn in_match(ts: Seq<SToken>, p: int)
    ensures
        match_expr(ts, p) matches Out::Got(e, _) ==> plain(e),
    decreases ts.len() - p, 29nat,
{
    if at(ts, p, Tok::Match) {
        in_expr(ts, p + 1);
        if let Out::Got(_, q1) = expr(ts, p + 1) {
            if let Out::Got(_, q2) = want(ts, q1, Tok::LBrace, "`{`"@) {
                if p < q2 {
                    in_arms(ts, Seq::empty(), q2);
                    if let Out::Got(v, _) = arms(ts, Seq::empty(), q2) {
                        assert(plain_arms(v));
                    }
                }
            }
        }
    }
}

proof fn in_slot(ts: Seq<SToken>, p: int, label: Seq<char>)
    ensures
        slot(ts, p, label) matches Out::Got(s, _) ==> plain_all(s.args),
    decreases ts.len() - p, 29nat,
{
    if kind(ts, p) == STok::Ident(label) {
        if let Out::Got(_, q0) = want(ts, p + 1, Tok::Colon, "`:`"@) {
            in_call(ts, q0);
        }
    }
}

proof fn in_maybe(ts: Seq<SToken>, p: int, label: Seq<char>)
    ensures
        maybe_slot(ts, p, label) matches Out::Got(s, _) ==> plain_maybe(s),
    decreases ts.len() - p, 30nat,
{
    in_slot(ts, p, label);
}

proof fn in_slots(ts: Seq<SToken>, p: int)
    ensures
        slots(ts, p) matches Out::Got(s, _) ==> plain_all(s.0.args) && plain_all(s.1.args)
            && plain_all(s.2.args),
    decreases ts.len() - p, 30nat,
{
    in_slot(ts, p, "network"@);
    if let Out::Got(_, q2) = slot(ts, p, "network"@) {
        if p < q2 <= ts.len() {
            in_slot(ts, q2, "verify"@);
            if let Out::Got(_, q3) = slot(ts, q2, "verify"@) {
                if p < q3 <= ts.len() {
                    in_slot(ts, q3, "commit"@);
                }
            }
        }
    }
}

proof fn in_maybes(ts: Seq<SToken>, p: int)
    ensures
        maybe_slots(ts, p) matches Out::Got(s, _) ==> plain_maybe(s.0) && plain_maybe(s.1),
    decreases ts.len() - p, 31nat,
{
    in_maybe(ts, p, "compensate"@);
    if let Out::Got(_, q) = maybe_slot(ts, p, "compensate"@) {
        if p <= q <= ts.len() {
            in_maybe(ts, q, "log"@);
        }
    }
}

proof fn in_transact(ts: Seq<SToken>, p: int)
    ensures
        transact(ts, p) matches Out::Got(e, _) ==> plain(e),
    decreases ts.len() - p, 29nat,
{
    if at(ts, p, Tok::Transact) && at(ts, p + 1, Tok::LBrace) {
        in_slots(ts, p + 2);
        if let Out::Got(three, q2) = slots(ts, p + 2) {
            if p < q2 <= ts.len() {
                in_maybes(ts, q2);
                if let Out::Got(two, _) = maybe_slots(ts, q2) {
                    assert(plain_maybe(two.0) && plain_maybe(two.1));
                }
            }
        }
    }
}

proof fn in_assignment(ts: Seq<SToken>, p: int)
    ensures
        assignment(ts, p) matches Out::Got(e, _) ==> plain(e),
    decreases ts.len() - p, 28nat,
{
    in_binary(ts, p, 6);
    if let Out::Got(_, q) = binary(ts, p, 6) {
        if at(ts, q, Tok::Assign) && p < q {
            in_assignment(ts, q + 1);
        }
    }
}

proof fn in_binary(ts: Seq<SToken>, p: int, level: nat)
    ensures
        binary(ts, p, level) matches Out::Got(e, _) ==> plain(e),
    decreases ts.len() - p, 12 + level,
{
    if level == 0 {
        in_unary(ts, p);
    } else {
        in_binary(ts, p, (level - 1) as nat);
        if let Out::Got(lhs, q) = binary(ts, p, (level - 1) as nat) {
            if p < q <= ts.len() {
                in_operands(ts, lhs, q, level);
            }
        }
    }
}

proof fn in_operands(ts: Seq<SToken>, lhs: SExpr, p: int, level: nat)
    requires
        plain(lhs),
    ensures
        operands(ts, lhs, p, level) matches Out::Got(e, _) ==> plain(e),
    decreases ts.len() - p, 0nat,
{
    if let Some(op) = op_at(level, kind(ts, p)) {
        in_binary(ts, p + 1, (level - 1) as nat);
        if let Out::Got(rhs, q) = binary(ts, p + 1, (level - 1) as nat) {
            if p < q <= ts.len() {
                let e = SExpr::Binary(
                    op,
                    Box::new(lhs),
                    Box::new(rhs),
                    crate::grammar::here(ts, p),
                );
                assert(plain(e));
                in_operands(ts, e, q, level);
            }
        }
    }
}

proof fn in_parens1(ts: Seq<SToken>, p: int)
    ensures
        parens1(ts, p) matches Out::Got(e, _) ==> plain(e),
    decreases ts.len() - p, 31nat,
{
    if at(ts, p, Tok::LParen) {
        in_expr(ts, p + 1);
    }
}

proof fn in_parens2(ts: Seq<SToken>, p: int)
    ensures
        parens2(ts, p) matches Out::Got(ab, _) ==> plain(ab.0) && plain(ab.1),
    decreases ts.len() - p, 31nat,
{
    if at(ts, p, Tok::LParen) {
        in_expr(ts, p + 1);
        if let Out::Got(_, q1) = expr(ts, p + 1) {
            if let Out::Got(_, q2) = want(ts, q1, Tok::Comma, "`,`"@) {
                if p < q2 {
                    in_expr(ts, q2);
                }
            }
        }
    }
}

proof fn in_unary(ts: Seq<SToken>, p: int)
    ensures
        unary(ts, p) matches Out::Got(e, _) ==> plain(e),
    decreases ts.len() - p, 11nat,
{
    match kind(ts, p) {
        STok::Plain(Tok::Bang)
        | STok::Plain(Tok::Minus)
        | STok::Plain(Tok::Star)
        | STok::Plain(Tok::Box)
        | STok::Plain(Tok::Join)
        | STok::Plain(Tok::Stop)
        | STok::Plain(Tok::Amp) => in_unary(ts, p + 1),
        STok::Plain(Tok::Spawn) | STok::Plain(Tok::Sandbox) => {
            in_call(ts, p + 1);
            if let Out::Got(SExpr::Call(_, v, _), _) = call(ts, p + 1) {
                assert(plain_all(v));
            }
        }
        STok::Plain(Tok::Chan) => {}
        STok::Plain(Tok::Recv) | STok::Plain(Tok::Listen) | STok::Plain(Tok::Accept) => {
            in_parens1(ts, p + 1);
        }
        STok::Plain(Tok::Send) | STok::Plain(Tok::Connect) | STok::Plain(Tok::Open) => {
            in_parens2(ts, p + 1);
        }
        _ => in_call(ts, p),
    }
}

proof fn in_exprs(ts: Seq<SToken>, acc: Seq<SExpr>, p: int)
    requires
        plain_all(acc),
    ensures
        exprs(ts, acc, p) matches Out::Got(v, _) ==> plain_all(v),
    decreases ts.len() - p, 31nat,
{
    in_expr(ts, p);
    if let Out::Got(e, q) = expr(ts, p) {
        let more = acc.push(e);
        assert(plain_all(more)) by {
            assert forall|i: int| 0 <= i < more.len() implies plain(#[trigger] more[i]) by {
                if i < acc.len() {
                    assert(more[i] == acc[i]);
                }
            }
        }
        if at(ts, q, Tok::Comma) && p < q {
            in_exprs(ts, more, q + 1);
        }
    }
}

proof fn in_arguments(ts: Seq<SToken>, p: int)
    ensures
        arguments(ts, p) matches Out::Got(v, _) ==> plain_all(v),
    decreases ts.len() - p, 32nat,
{
    if at(ts, p, Tok::LParen) && !at(ts, p + 1, Tok::RParen) {
        in_exprs(ts, Seq::empty(), p + 1);
    }
}

proof fn in_call(ts: Seq<SToken>, p: int)
    ensures
        call(ts, p) matches Out::Got(e, _) ==> plain(e),
    decreases ts.len() - p, 10nat,
{
    in_postfix(ts, p);
    if let Out::Got(_, q) = postfix(ts, p) {
        if at(ts, q, Tok::LParen) && p < q {
            in_arguments(ts, q);
            if let Out::Got(v, _) = arguments(ts, q) {
                assert(plain_all(v));
            }
        }
    }
}

proof fn in_postfix(ts: Seq<SToken>, p: int)
    ensures
        postfix(ts, p) matches Out::Got(e, _) ==> plain(e),
    decreases ts.len() - p, 9nat,
{
    in_primary(ts, p);
    if let Out::Got(e, q) = primary(ts, p) {
        if p < q <= ts.len() {
            in_suffixes(ts, e, q);
        }
    }
}

proof fn in_suffixes(ts: Seq<SToken>, e: SExpr, p: int)
    requires
        plain(e),
    ensures
        suffixes(ts, e, p) matches Out::Got(x, _) ==> plain(x),
    decreases ts.len() - p, 0nat,
{
    match kind(ts, p) {
        STok::Plain(Tok::LBracket) => {
            in_exprs(ts, Seq::empty(), p + 1);
            if let Out::Got(v, q) = exprs(ts, Seq::empty(), p + 1) {
                if let Out::Got(_, q) = want(ts, q, Tok::RBracket, "`]`"@) {
                    if p < q <= ts.len() {
                        let x = SExpr::Index(Box::new(e), v, crate::grammar::here(ts, p));
                        assert(plain_all(v));
                        assert(plain(x));
                        in_suffixes(ts, x, q);
                    }
                }
            }
        }
        STok::Plain(Tok::Dot) => {
            if let Out::Got(field, q) = ident(ts, p + 1) {
                let x = SExpr::FieldAccess(Box::new(e), field, crate::grammar::here(ts, p));
                assert(plain(x));
                in_suffixes(ts, x, q);
            }
        }
        _ => {}
    }
}

proof fn in_primary(ts: Seq<SToken>, p: int)
    ensures
        primary(ts, p) matches Out::Got(e, _) ==> plain(e),
    decreases ts.len() - p, 8nat,
{
    match kind(ts, p) {
        STok::Plain(Tok::LParen) => in_expr(ts, p + 1),
        STok::Plain(Tok::LBracket) => {
            in_exprs(ts, Seq::empty(), p + 1);
            if let Out::Got(v, _) = exprs(ts, Seq::empty(), p + 1) {
                assert(plain_all(v));
            }
        }
        _ => {}
    }
}

proof fn in_block(ts: Seq<SToken>, p: int)
    ensures
        block(ts, p) matches Out::Got(v, _) ==> plain_stmts(v),
    decreases ts.len() - p, 34nat,
{
    if at(ts, p, Tok::LBrace) {
        in_stmts(ts, Seq::empty(), p + 1);
    }
}

proof fn in_stmts(ts: Seq<SToken>, acc: Seq<SStmt>, p: int)
    requires
        plain_stmts(acc),
    ensures
        stmts(ts, acc, p) matches Out::Got(v, _) ==> plain_stmts(v),
    decreases ts.len() - p, 33nat,
{
    if !at(ts, p, Tok::RBrace) {
        in_stmt(ts, p);
        if let Out::Got(s, q) = stmt(ts, p) {
            if p < q <= ts.len() {
                let more = acc.push(s);
                assert(plain_stmts(more)) by {
                    assert forall|i: int| 0 <= i < more.len() implies plain_stmt(#[trigger] more[i]) by {
                        if i < acc.len() {
                            assert(more[i] == acc[i]);
                        }
                    }
                }
                in_stmts(ts, more, q);
            }
        }
    }
}

proof fn in_stmt(ts: Seq<SToken>, p: int)
    ensures
        stmt(ts, p) matches Out::Got(s, _) ==> plain_stmt(s),
    decreases ts.len() - p, 32nat,
{
    match kind(ts, p) {
        STok::Plain(Tok::Let) => {
            if let Out::Got(_, q0) = ident(ts, p + 1) {
                if let Out::Got(_, q1) = want(ts, q0, Tok::Colon, "`:`"@) {
                    if let Out::Got(_, q2) = ty(ts, q1) {
                        if let Out::Got(_, q3) = want(ts, q2, Tok::Assign, "`=`"@) {
                            if p < q3 {
                                in_expr(ts, q3);
                            }
                        }
                    }
                }
            }
        }
        STok::Plain(Tok::Return) => {
            if !at(ts, p + 1, Tok::RBrace) {
                in_expr(ts, p + 1);
            }
        }
        STok::Plain(Tok::While) => {
            in_expr(ts, p + 1);
            if let Out::Got(_, q) = expr(ts, p + 1) {
                if p < q <= ts.len() {
                    in_block(ts, q);
                    if let Out::Got(v, _) = block(ts, q) {
                        assert(plain_stmts(v));
                    }
                }
            }
        }
        STok::Plain(Tok::Audited) => {
            if kind(ts, p + 1) is Str {
                in_block(ts, p + 2);
                if let Out::Got(v, _) = block(ts, p + 2) {
                    assert(plain_stmts(v));
                }
            }
        }
        _ => in_expr(ts, p),
    }
}

/// A borrow that is read is one of a plain name, at the place of its `&`; a borrow of
/// anything else is refused there.
pub proof fn borrows_are_of_names(ts: Seq<SToken>, p: int)
    requires
        at(ts, p, Tok::Amp),
    ensures
        match unary(ts, p + 1) {
            Out::Got(e, q) => if e is Ident {
                unary(ts, p) == Out::Got(SExpr::Ref(Box::new(e), crate::grammar::here(ts, p)), q)
            } else {
                unary(ts, p) == crate::grammar::fail::<SExpr>(
                    "`&` can only borrow a plain variable name"@,
                    crate::grammar::here(ts, p),
                    q,
                )
            },
            Out::Bad(e, q) => unary(ts, p) == Out::<SExpr>::Bad(e, q),
        },
{
}

pub open spec fn plain_fns(v: Seq<SFn>) -> bool {
    forall|i: int| 0 <= i < v.len() ==> plain_stmts((#[trigger] v[i]).body)
}

proof fn in_fn(ts: Seq<SToken>, p: int)
    ensures
        fn_decl(ts, p) matches Out::Got(f, _) ==> plain_stmts(f.body),
{
    if let Out::Got(_, q0) = want(ts, p, Tok::Fn, "`fn`"@) {
        if let Out::Got(_, q1) = ident(ts, q0) {
            if let Out::Got(_, q2) = want(ts, q1, Tok::LParen, "`(`"@) {
                let list = if at(ts, q2, Tok::RParen) {
                    Out::Got(Seq::empty(), q2)
                } else {
                    params(ts, Seq::empty(), q2)
                };
                if let Out::Got(_, q3) = list {
                    if let Out::Got(_, q4) = want(ts, q3, Tok::RParen, "`)`"@) {
                        let result = if at(ts, q4, Tok::Arrow) {
                            ty(ts, q4 + 1)
                        } else {
                            Out::Got(STy::Unit, q4)
                        };
                        if let Out::Got(_, q5) = result {
                            if let Out::Got(_, q6) = effect_annotation(ts, q5) {
                                in_block(ts, q6);
                            }
                        }
                    }
                }
            }
        }
    }
}

proof fn in_items(ts: Seq<SToken>, acc: SProgram, p: int)
    requires
        plain_fns(acc.fns),
    ensures
        items(ts, acc, p) matches Out::Got(d, _) ==> plain_fns(d.fns),
    decreases ts.len() - p,
{
    if !(p < 0 || p >= ts.len() || at(ts, p, Tok::Eof)) {
        if at(ts, p, Tok::Struct) {
            if let Out::Got(d, q) = struct_decl(ts, p) {
                if p < q <= ts.len() {
                    in_items(ts, SProgram { structs: acc.structs.push(d), ..acc }, q);
                }
            }
        } else if at(ts, p, Tok::Enum) {
            if let Out::Got(d, q) = enum_decl(ts, p) {
                if p < q <= ts.len() {
                    in_items(ts, SProgram { enums: acc.enums.push(d), ..acc }, q);
                }
            }
        } else {
            in_fn(ts, p);
            if let Out::Got(d, q) = fn_decl(ts, p) {
                if p < q <= ts.len() {
                    let more = acc.fns.push(d);
                    assert(plain_fns(more)) by {
                        assert forall|i: int| 0 <= i < more.len() implies plain_stmts(
                            (#[trigger] more[i]).body,
                        ) by {
                            if i < acc.fns.len() {
                                assert(more[i] == acc.fns[i]);
                            }
                        }
                    }
                    in_items(ts, SProgram { fns: more, ..acc }, q);
                }
            }
        }
    }
}

/// In every program that is read, and in every expression that is read alone, each
/// borrow is one of a plain name.
pub proof fn trees_borrow_only_names(ts: Seq<SToken>)
    ensures
        program(ts) matches Out::Got(d, _) ==> plain_fns(d.fns),
        standalone(ts) matches Out::Got(e, _) ==> plain(e),
{
    in_items(
        ts,
        SProgram { fns: Seq::empty(), structs: Seq::empty(), enums: Seq::empty() },
        0,
    );
    in_expr(ts, 0);
}

} // verus!
