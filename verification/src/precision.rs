//! What the move checker lets through: in code without branches it finds an error exactly
//! where a variable is used that has been moved from.
use crate::ast::{Expr, FnDecl, Program, Stmt};
use crate::moves::{opens_owned, run, run_all, run_stmt, run_stmts, run_use};
use crate::ownership::{
    check_stmt, check_stmts, entry, fn_errors, takes_content, touch, touch_all, used, State,
};
use crate::scopes::opened;
use crate::token::Span;
use vstd::prelude::*;

verus! {

/// An expression without branches.
pub open spec fn straight(e: Expr) -> bool
    decreases e,
{
    match e {
        Expr::If { .. } | Expr::Match { .. } | Expr::Transact { .. } => false,
        Expr::Int(..) | Expr::Float(..) | Expr::Bool(..) | Expr::Str(..) | Expr::Chan(_)
        | Expr::Ident(..) => true,
        Expr::Unary(_, a, _) => straight(*a),
        Expr::Box(a, _) => straight(*a),
        Expr::Join(a, _) => straight(*a),
        Expr::StopSandbox(a, _) => straight(*a),
        Expr::Listen(a, _) => straight(*a),
        Expr::Ref(a, _) => straight(*a),
        Expr::Recv(a, _) => straight(*a),
        Expr::Accept(a, _) => straight(*a),
        Expr::FieldAccess(a, _, _) => straight(*a),
        Expr::Deref(a, _) => straight(*a),
        Expr::Assign(_, a, _) => straight(*a),
        Expr::Binary(_, a, b, _) => straight(*a) && straight(*b),
        Expr::Connect(a, b, _) => straight(*a) && straight(*b),
        Expr::Open(a, b, _) => straight(*a) && straight(*b),
        Expr::Send(a, b, _) => straight(*a) && straight(*b),
        Expr::Call(_, args, _) => straight_all(args@),
        Expr::Spawn(_, args, _) => straight_all(args@),
        Expr::SpawnSandbox(_, args, _) => straight_all(args@),
        Expr::ArrayLit(args, _) => straight_all(args@),
        Expr::Index(a, args, _) => straight(*a) && straight_all(args@),
    }
}

pub open spec fn straight_all(v: Seq<Expr>) -> bool
    decreases v,
{
    if v.len() == 0 {
        true
    } else {
        straight_all(v.drop_last()) && straight(v.last())
    }
}

/// A statement without branches.
pub open spec fn straight_stmt(s: Stmt) -> bool
    decreases s,
{
    match s {
        Stmt::Let { value, .. } => straight(value),
        Stmt::Return { value, .. } => match value {
            Some(e) => straight(e),
            None => true,
        },
        Stmt::While { .. } => false,
        Stmt::Audited { body, .. } => straight_stmts(body@),
        Stmt::Expr(e) => straight(e),
    }
}

pub open spec fn straight_stmts(v: Seq<Stmt>) -> bool
    decreases v,
{
    if v.len() == 0 {
        true
    } else {
        straight_stmts(v.drop_last()) && straight_stmt(v.last())
    }
}

proof fn one_use(st: State, name: Seq<char>, span: Span, consume: bool, ch: Seq<nat>)
    ensures
        used(st, name, span, consume).st == run_use(st, name, consume, ch).st,
        used(st, name, span, consume).errs.len() == 0 <==> run_use(st, name, consume, ch).ok,
        run_use(st, name, consume, ch).rest == ch,
        takes_content(st, name) == opens_owned(st, name),
{
}

proof fn judged(p: Program, e: Expr, consume: bool, st: State, ch: Seq<nat>)
    requires
        straight(e),
    ensures
        touch(p, e, consume, st).st == run(p, e, consume, st, ch).st,
        touch(p, e, consume, st).errs.len() == 0 <==> run(p, e, consume, st, ch).ok,
        run(p, e, consume, st, ch).rest == ch,
    decreases e,
{
    match e {
        Expr::Ident(name, span) => one_use(st, name@, span, consume, ch),
        Expr::Unary(_, a, _) => judged(p, *a, true, st, ch),
        Expr::Box(a, _) => judged(p, *a, true, st, ch),
        Expr::Join(a, _) => judged(p, *a, true, st, ch),
        Expr::StopSandbox(a, _) => judged(p, *a, true, st, ch),
        Expr::Listen(a, _) => judged(p, *a, true, st, ch),
        Expr::Ref(a, _) => judged(p, *a, false, st, ch),
        Expr::Recv(a, _) => judged(p, *a, false, st, ch),
        Expr::Accept(a, _) => judged(p, *a, false, st, ch),
        Expr::FieldAccess(a, _, _) => judged(p, *a, false, st, ch),
        Expr::Deref(a, _) => match *a {
            Expr::Ident(name, span) => one_use(st, name@, span, opens_owned(st, name@), ch),
            _ => judged(p, *a, false, st, ch),
        },
        Expr::Assign(_, a, _) => judged(p, *a, true, st, ch),
        Expr::Binary(_, a, b, _) => {
            judged(p, *a, true, st, ch);
            judged(p, *b, true, touch(p, *a, true, st).st, ch);
        },
        Expr::Connect(a, b, _) => {
            judged(p, *a, true, st, ch);
            judged(p, *b, true, touch(p, *a, true, st).st, ch);
        },
        Expr::Open(a, b, _) => {
            judged(p, *a, true, st, ch);
            judged(p, *b, true, touch(p, *a, true, st).st, ch);
        },
        Expr::Send(a, b, _) => {
            judged(p, *a, false, st, ch);
            judged(p, *b, true, touch(p, *a, false, st).st, ch);
        },
        Expr::Call(_, args, _) => all_judged(p, args@, st, ch),
        Expr::Spawn(_, args, _) => all_judged(p, args@, st, ch),
        Expr::SpawnSandbox(_, args, _) => all_judged(p, args@, st, ch),
        Expr::ArrayLit(args, _) => all_judged(p, args@, st, ch),
        Expr::Index(a, args, _) => {
            judged(p, *a, false, st, ch);
            all_judged(p, args@, touch(p, *a, false, st).st, ch);
        },
        _ => {},
    }
}

proof fn all_judged(p: Program, v: Seq<Expr>, st: State, ch: Seq<nat>)
    requires
        straight_all(v),
    ensures
        touch_all(p, v, st).st == run_all(p, v, st, ch).st,
        touch_all(p, v, st).errs.len() == 0 <==> run_all(p, v, st, ch).ok,
        run_all(p, v, st, ch).rest == ch,
    decreases v,
{
    if v.len() > 0 {
        all_judged(p, v.drop_last(), st, ch);
        judged(p, v.last(), true, touch_all(p, v.drop_last(), st).st, ch);
    }
}

proof fn statement_judged(p: Program, s: Stmt, st: State, ch: Seq<nat>)
    requires
        straight_stmt(s),
    ensures
        check_stmt(p, s, st).st == run_stmt(p, s, st, ch).st,
        check_stmt(p, s, st).errs.len() == 0 <==> run_stmt(p, s, st, ch).ok,
        run_stmt(p, s, st, ch).rest == ch,
    decreases s,
{
    match s {
        Stmt::Let { value, .. } => judged(p, value, true, st, ch),
        Stmt::Return { value, .. } => match value {
            Some(e) => judged(p, e, true, st, ch),
            None => {},
        },
        Stmt::Audited { body, .. } => {
            statements_judged(p, body@, opened(st), ch);
        },
        Stmt::Expr(e) => judged(p, e, true, st, ch),
        _ => {},
    }
}

proof fn statements_judged(p: Program, v: Seq<Stmt>, st: State, ch: Seq<nat>)
    requires
        straight_stmts(v),
    ensures
        check_stmts(p, v, st).st == run_stmts(p, v, st, ch).st,
        check_stmts(p, v, st).errs.len() == 0 <==> run_stmts(p, v, st, ch).ok,
        run_stmts(p, v, st, ch).rest == ch,
    decreases v,
{
    if v.len() > 0 {
        statements_judged(p, v.drop_last(), st, ch);
        statement_judged(p, v.last(), check_stmts(p, v.drop_last(), st).st, ch);
    }
}

/// In a function without branches the checker finds an error exactly where the run of the
/// function uses a variable that has been moved from: it accepts every such function in which
/// nothing is used after it was moved.
pub proof fn straight_code_is_judged_exactly(p: Program, f: FnDecl, ch: Seq<nat>)
    requires
        straight_stmts(f.body.stmts@),
    ensures
        fn_errors(p, f).len() == 0 <==> run_stmts(
            p,
            f.body.stmts@,
            entry(f, f.params@.len()),
            ch,
        ).ok,
{
    statements_judged(p, f.body.stmts@, entry(f, f.params@.len()), ch);
}

} // verus!
