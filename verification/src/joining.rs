//! Programs can be put together: what is wrong with the moves of one is wrong with
//! them in the whole, and nothing else.
use crate::ast::{ElseBranch, Expr, FnDecl, MatchArm, Program, STy, Stmt};
use crate::ownership::{
    arm_state, check_arm, check_arms, check_block, check_else, check_stmt, check_stmts, clean, entry,
    errors_upto, fn_errors, merged, ownership_errors, result_of, touch, touch_all, State,
};
use crate::registry::variant_named;
use crate::scopes::{defined, opened};
use vstd::prelude::*;

verus! {

/// A variant has the same parts in both programs, or is in neither.
pub open spec fn same_variant(p: Program, r: Program, name: Seq<char>) -> bool {
    match variant_named(p, name) {
        Some(ij) => variant_named(r, name) matches Some(kl) && p.enums@[ij.0].variants@[ij.1].payload@
            == r.enums@[kl.0].variants@[kl.1].payload@,
        None => variant_named(r, name) is None,
    }
}

/// Whatever the expression names means the same in both programs: the variants that it
/// matches on, and the functions that its `transact`s begin with.
pub open spec fn alike(p: Program, r: Program, e: Expr) -> bool
    decreases e,
{
    match e {
        Expr::Unary(_, a, _) => alike(p, r, *a),
        Expr::Box(a, _) => alike(p, r, *a),
        Expr::Join(a, _) => alike(p, r, *a),
        Expr::StopSandbox(a, _) => alike(p, r, *a),
        Expr::Listen(a, _) => alike(p, r, *a),
        Expr::Ref(a, _) => alike(p, r, *a),
        Expr::Recv(a, _) => alike(p, r, *a),
        Expr::Accept(a, _) => alike(p, r, *a),
        Expr::FieldAccess(a, _, _) => alike(p, r, *a),
        Expr::Deref(a, _) => alike(p, r, *a),
        Expr::Assign(_, a, _) => alike(p, r, *a),
        Expr::Binary(_, a, b, _) => alike(p, r, *a) && alike(p, r, *b),
        Expr::Connect(a, b, _) => alike(p, r, *a) && alike(p, r, *b),
        Expr::Open(a, b, _) => alike(p, r, *a) && alike(p, r, *b),
        Expr::Send(a, b, _) => alike(p, r, *a) && alike(p, r, *b),
        Expr::Call(_, args, _) => alike_all(p, r, args@),
        Expr::Spawn(_, args, _) => alike_all(p, r, args@),
        Expr::SpawnSandbox(_, args, _) => alike_all(p, r, args@),
        Expr::ArrayLit(args, _) => alike_all(p, r, args@),
        Expr::Index(a, args, _) => alike(p, r, *a) && alike_all(p, r, args@),
        Expr::If { cond, then_block, else_block, .. } => {
            &&& alike(p, r, *cond)
            &&& alike_stmts(p, r, then_block.stmts@)
            &&& else_block matches Some(b) ==> alike_else(p, r, *b)
        },
        Expr::Match { scrutinee, arms, .. } => alike(p, r, *scrutinee) && alike_arms(p, r, arms@),
        Expr::Transact { network, verify, commit, compensate, log, .. } => {
            &&& result_of(p, network.name@) == result_of(r, network.name@)
            &&& alike_all(p, r, network.args@)
            &&& alike_all(p, r, verify.args@)
            &&& alike_all(p, r, commit.args@)
            &&& compensate matches Some(s) ==> alike_all(p, r, s.args@)
            &&& log matches Some(s) ==> alike_all(p, r, s.args@)
        },
        _ => true,
    }
}

pub open spec fn alike_all(p: Program, r: Program, v: Seq<Expr>) -> bool
    decreases v,
{
    v.len() > 0 ==> alike_all(p, r, v.drop_last()) && alike(p, r, v.last())
}

pub open spec fn alike_else(p: Program, r: Program, b: ElseBranch) -> bool
    decreases b,
{
    match b {
        ElseBranch::Block(b) => alike_stmts(p, r, b.stmts@),
        ElseBranch::If(e) => alike(p, r, e),
    }
}

pub open spec fn alike_arms(p: Program, r: Program, v: Seq<MatchArm>) -> bool
    decreases v,
{
    v.len() > 0 ==> alike_arms(p, r, v.drop_last()) && same_variant(p, r, v.last().variant@) && alike(
        p,
        r,
        *v.last().body,
    )
}

pub open spec fn alike_stmt(p: Program, r: Program, s: Stmt) -> bool
    decreases s,
{
    match s {
        Stmt::Let { value, .. } => alike(p, r, value),
        Stmt::Return { value, .. } => match value {
            Some(e) => alike(p, r, e),
            None => true,
        },
        Stmt::While { cond, body, .. } => alike(p, r, cond) && alike_stmts(p, r, body.stmts@),
        Stmt::Audited { body, .. } => alike_stmts(p, r, body@),
        Stmt::Expr(e) => alike(p, r, e),
    }
}

pub open spec fn alike_stmts(p: Program, r: Program, v: Seq<Stmt>) -> bool
    decreases v,
{
    v.len() > 0 ==> alike_stmts(p, r, v.drop_last()) && alike_stmt(p, r, v.last())
}

proof fn same_touch(p: Program, r: Program, e: Expr, consume: bool, st: State)
    requires
        alike(p, r, e),
    ensures
        touch(p, e, consume, st) == touch(r, e, consume, st),
    decreases e,
{
    match e {
        Expr::Unary(_, a, _)
        | Expr::Box(a, _)
        | Expr::Join(a, _)
        | Expr::StopSandbox(a, _)
        | Expr::Listen(a, _)
        | Expr::Assign(_, a, _) => same_touch(p, r, *a, true, st),
        Expr::Ref(a, _)
        | Expr::Recv(a, _)
        | Expr::Accept(a, _)
        | Expr::FieldAccess(a, _, _)
        | Expr::Deref(a, _) => same_touch(p, r, *a, false, st),
        Expr::Binary(_, a, b, _) | Expr::Connect(a, b, _) | Expr::Open(a, b, _) => {
            same_touch(p, r, *a, true, st);
            same_touch(p, r, *b, true, touch(p, *a, true, st).st);
        }
        Expr::Send(a, b, _) => {
            same_touch(p, r, *a, false, st);
            same_touch(p, r, *b, true, touch(p, *a, false, st).st);
        }
        Expr::Call(_, args, _)
        | Expr::Spawn(_, args, _)
        | Expr::SpawnSandbox(_, args, _)
        | Expr::ArrayLit(args, _) => same_touches(p, r, args@, st),
        Expr::Index(a, args, _) => {
            same_touch(p, r, *a, false, st);
            same_touches(p, r, args@, touch(p, *a, false, st).st);
        }
        Expr::If { cond, then_block, else_block, .. } => {
            same_touch(p, r, *cond, true, st);
            let x = touch(p, *cond, true, st).st;
            same_block(p, r, then_block.stmts@, x);
            if let Some(b) = else_block {
                same_else(p, r, *b, x);
            }
        }
        Expr::Match { scrutinee, arms, .. } => {
            same_touch(p, r, *scrutinee, true, st);
            same_arms(p, r, arms@, touch(p, *scrutinee, true, st).st);
        }
        Expr::Transact { network, verify, commit, compensate, log, .. } => {
            same_touches(p, r, network.args@, opened(st));
            let a = touch_all(p, network.args@, opened(st));
            let s1 = defined(a.st, "network"@, (result_of(p, network.name@), false));
            same_touches(p, r, verify.args@, s1);
            let b = touch_all(p, verify.args@, s1);
            let s2 = defined(b.st, "verify"@, (STy::Bool, false));
            same_touches(p, r, commit.args@, s2);
            let c = touch_all(p, commit.args@, s2);
            let d = match compensate {
                Some(s) => touch_all(p, s.args@, s2),
                None => clean(s2),
            };
            if let Some(s) = compensate {
                same_touches(p, r, s.args@, s2);
            }
            if let Some(s) = log {
                same_touches(p, r, s.args@, merged(c.st, d.st));
            }
        }
        _ => {}
    }
}

proof fn same_touches(p: Program, r: Program, v: Seq<Expr>, st: State)
    requires
        alike_all(p, r, v),
    ensures
        touch_all(p, v, st) == touch_all(r, v, st),
    decreases v,
{
    if v.len() > 0 {
        same_touches(p, r, v.drop_last(), st);
        same_touch(p, r, v.last(), true, touch_all(p, v.drop_last(), st).st);
    }
}

proof fn same_else(p: Program, r: Program, b: ElseBranch, st: State)
    requires
        alike_else(p, r, b),
    ensures
        check_else(p, b, st) == check_else(r, b, st),
    decreases b,
{
    match b {
        ElseBranch::Block(x) => same_block(p, r, x.stmts@, st),
        ElseBranch::If(e) => same_touch(p, r, e, true, st),
    }
}

proof fn same_arms(p: Program, r: Program, v: Seq<MatchArm>, st: State)
    requires
        alike_arms(p, r, v),
    ensures
        check_arms(p, v, st) == check_arms(r, v, st),
    decreases v,
{
    if v.len() > 0 {
        same_arms(p, r, v.drop_last(), st);
        let arm = v[v.len() - 1];
        assert(arm_state(p, arm, st) == arm_state(r, arm, st));
        assert(decreases_to!(v => arm));
        same_touch(p, r, *arm.body, true, arm_state(p, arm, st));
        reveal_with_fuel(check_arm, 2);
        assert(check_arm(p, arm, st) == check_arm(r, arm, st));
    }
}

proof fn same_stmt(p: Program, r: Program, s: Stmt, st: State)
    requires
        alike_stmt(p, r, s),
    ensures
        check_stmt(p, s, st) == check_stmt(r, s, st),
    decreases s,
{
    match s {
        Stmt::Let { value, .. } => same_touch(p, r, value, true, st),
        Stmt::Return { value, .. } => {
            if let Some(e) = value {
                same_touch(p, r, e, true, st);
            }
        }
        Stmt::While { cond, body, .. } => {
            same_touch(p, r, cond, true, st);
            let w = touch(p, cond, true, st).st;
            same_block(p, r, body.stmts@, w);
            let head = merged(st, check_block(p, body.stmts@, w).st);
            same_touch(p, r, cond, true, head);
            same_block(p, r, body.stmts@, touch(p, cond, true, head).st);
        }
        Stmt::Audited { body, .. } => same_block(p, r, body@, st),
        Stmt::Expr(e) => same_touch(p, r, e, true, st),
    }
}

proof fn same_stmts(p: Program, r: Program, v: Seq<Stmt>, st: State)
    requires
        alike_stmts(p, r, v),
    ensures
        check_stmts(p, v, st) == check_stmts(r, v, st),
    decreases v, 0nat,
{
    if v.len() > 0 {
        same_stmts(p, r, v.drop_last(), st);
        same_stmt(p, r, v.last(), check_stmts(p, v.drop_last(), st).st);
    }
}

proof fn same_block(p: Program, r: Program, v: Seq<Stmt>, st: State)
    requires
        alike_stmts(p, r, v),
    ensures
        check_block(p, v, st) == check_block(r, v, st),
    decreases v, 1nat,
{
    same_stmts(p, r, v, opened(st));
}

proof fn same_errors(p: Program, r: Program, f: FnDecl)
    requires
        alike_stmts(p, r, f.body.stmts@),
    ensures
        fn_errors(p, f) == fn_errors(r, f),
{
    same_stmts(p, r, f.body.stmts@, entry(f, f.params@.len()));
}

proof fn first_errors(p: Program, r: Program, n: nat)
    requires
        n <= p.fns@.len() <= r.fns@.len(),
        forall|i: int| 0 <= i < p.fns@.len() ==> #[trigger] r.fns@[i] == p.fns@[i],
        forall|i: int| 0 <= i < p.fns@.len() ==> alike_stmts(p, r, (#[trigger] p.fns@[i]).body.stmts@),
    ensures
        errors_upto(r, n) == errors_upto(p, n),
    decreases n,
{
    if n > 0 {
        first_errors(p, r, (n - 1) as nat);
        assert(r.fns@[n - 1] == p.fns@[n - 1]);
        same_errors(p, r, p.fns@[n - 1]);
    }
}

proof fn second_errors(p: Program, q: Program, r: Program, n: nat)
    requires
        n <= q.fns@.len(),
        r.fns@ == p.fns@ + q.fns@,
        forall|i: int| 0 <= i < q.fns@.len() ==> alike_stmts(q, r, (#[trigger] q.fns@[i]).body.stmts@),
    ensures
        errors_upto(r, p.fns@.len() + n) == errors_upto(r, p.fns@.len()) + errors_upto(q, n),
    decreases n,
{
    let k = p.fns@.len();
    if n > 0 {
        second_errors(p, q, r, (n - 1) as nat);
        let f = q.fns@[n - 1];
        assert(r.fns@[k + n - 1] == f);
        same_errors(q, r, f);
        assert(errors_upto(r, k + n) == errors_upto(r, (k + n - 1) as nat) + fn_errors(r, f));
        assert(errors_upto(r, k) + errors_upto(q, (n - 1) as nat) + fn_errors(q, f) =~= errors_upto(
            r,
            k,
        ) + errors_upto(q, n));
    } else {
        assert(errors_upto(r, k) + errors_upto(q, 0) =~= errors_upto(r, k));
    }
}

/// The errors of two programs put together are those of the first, then those of the
/// second, where whatever their functions name means the same in the whole.
pub proof fn errors_of_joined_programs(p: Program, q: Program, r: Program)
    requires
        r.fns@ == p.fns@ + q.fns@,
        forall|i: int| 0 <= i < p.fns@.len() ==> alike_stmts(p, r, (#[trigger] p.fns@[i]).body.stmts@),
        forall|i: int| 0 <= i < q.fns@.len() ==> alike_stmts(q, r, (#[trigger] q.fns@[i]).body.stmts@),
    ensures
        ownership_errors(r) == ownership_errors(p) + ownership_errors(q),
{
    assert forall|i: int| 0 <= i < p.fns@.len() implies #[trigger] r.fns@[i] == p.fns@[i] by {}
    first_errors(p, r, p.fns@.len());
    second_errors(p, q, r, q.fns@.len());
    assert(r.fns@.len() == p.fns@.len() + q.fns@.len());
}

} // verus!
