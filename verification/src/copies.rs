//! Where every value is freely copied, nothing is ever used after a move.
use crate::ast::{affine, ElseBranch, Expr, FnDecl, MatchArm, Program, STy, Stmt, Ty};
use crate::ownership::{
    arm_state, bound, check_arm, check_arms, check_block, check_else, check_stmt, check_stmts,
    check_stmts_shape, clean, entry, errors_upto, fn_errors, marked, merged, ownership_errors,
    result_of, touch, touch_all, touch_all_shape, used, State,
};
use crate::registry::variant_named;
use crate::scopes::{assigned, defined, lookup, opened};
use crate::token::Span;
use vstd::prelude::*;

verus! {

/// The names that an arm binds are all of types that are copied.
pub open spec fn copied_arm(p: Program, arm: MatchArm) -> bool {
    variant_named(p, arm.variant@) matches Some(ij) ==> {
        let payload = p.enums@[ij.0].variants@[ij.1].payload@;
        forall|i: int|
            0 <= i < payload.len() && i < arm.bindings@.len() ==> !affine((#[trigger] payload[i])@)
    }
}

/// Whatever is bound in the expression is of a type that is copied: by a `let`, by an
/// arm, or by the first step of a `transact`.
pub open spec fn copied(p: Program, e: Expr) -> bool
    decreases e,
{
    match e {
        Expr::Unary(_, a, _) => copied(p, *a),
        Expr::Box(a, _) => copied(p, *a),
        Expr::Join(a, _) => copied(p, *a),
        Expr::StopSandbox(a, _) => copied(p, *a),
        Expr::Listen(a, _) => copied(p, *a),
        Expr::Ref(a, _) => copied(p, *a),
        Expr::Recv(a, _) => copied(p, *a),
        Expr::Accept(a, _) => copied(p, *a),
        Expr::FieldAccess(a, _, _) => copied(p, *a),
        Expr::Deref(a, _) => copied(p, *a),
        Expr::Assign(_, a, _) => copied(p, *a),
        Expr::Binary(_, a, b, _) => copied(p, *a) && copied(p, *b),
        Expr::Connect(a, b, _) => copied(p, *a) && copied(p, *b),
        Expr::Open(a, b, _) => copied(p, *a) && copied(p, *b),
        Expr::Send(a, b, _) => copied(p, *a) && copied(p, *b),
        Expr::Call(_, args, _) => copied_all(p, args@),
        Expr::Spawn(_, args, _) => copied_all(p, args@),
        Expr::SpawnSandbox(_, args, _) => copied_all(p, args@),
        Expr::ArrayLit(args, _) => copied_all(p, args@),
        Expr::Index(a, args, _) => copied(p, *a) && copied_all(p, args@),
        Expr::If { cond, then_block, else_block, .. } => {
            &&& copied(p, *cond)
            &&& copied_stmts(p, then_block.stmts@)
            &&& else_block matches Some(b) ==> copied_else(p, *b)
        },
        Expr::Match { scrutinee, arms, .. } => copied(p, *scrutinee) && copied_arms(p, arms@),
        Expr::Transact { network, verify, commit, compensate, log, .. } => {
            &&& !affine(result_of(p, network.name@))
            &&& copied_all(p, network.args@)
            &&& copied_all(p, verify.args@)
            &&& copied_all(p, commit.args@)
            &&& compensate matches Some(s) ==> copied_all(p, s.args@)
            &&& log matches Some(s) ==> copied_all(p, s.args@)
        },
        _ => true,
    }
}

pub open spec fn copied_all(p: Program, v: Seq<Expr>) -> bool
    decreases v,
{
    v.len() > 0 ==> copied_all(p, v.drop_last()) && copied(p, v.last())
}

pub open spec fn copied_else(p: Program, b: ElseBranch) -> bool
    decreases b,
{
    match b {
        ElseBranch::Block(b) => copied_stmts(p, b.stmts@),
        ElseBranch::If(e) => copied(p, e),
    }
}

pub open spec fn copied_arms(p: Program, v: Seq<MatchArm>) -> bool
    decreases v,
{
    v.len() > 0 ==> copied_arms(p, v.drop_last()) && copied_arm(p, v.last()) && copied(
        p,
        *v.last().body,
    )
}

pub open spec fn copied_stmt(p: Program, s: Stmt) -> bool
    decreases s,
{
    match s {
        Stmt::Let { ty, value, .. } => !affine(ty@) && copied(p, value),
        Stmt::Return { value, .. } => match value {
            Some(e) => copied(p, e),
            None => true,
        },
        Stmt::While { cond, body, .. } => copied(p, cond) && copied_stmts(p, body.stmts@),
        Stmt::Audited { body, .. } => copied_stmts(p, body@),
        Stmt::Expr(e) => copied(p, e),
    }
}

pub open spec fn copied_stmts(p: Program, v: Seq<Stmt>) -> bool
    decreases v,
{
    v.len() > 0 ==> copied_stmts(p, v.drop_last()) && copied_stmt(p, v.last())
}

/// Whatever a function binds is of a type that is copied, its parameters included.
pub open spec fn copied_fn(p: Program, f: FnDecl) -> bool {
    &&& forall|i: int| 0 <= i < f.params@.len() ==> !affine((#[trigger] f.params@[i]).ty@)
    &&& copied_stmts(p, f.body.stmts@)
}

/// No name in scope is of a type that is moved.
spec fn free(st: State) -> bool {
    forall|i: int, n: Seq<char>|
        0 <= i < st.len() && (#[trigger] st[i].contains_key(n)) ==> !affine(st[i][n].0)
}

proof fn free_lookup(st: State, name: Seq<char>)
    requires
        free(st),
    ensures
        lookup(st, name) matches Some(b) ==> !affine(b.0),
    decreases st.len(),
{
    if st.len() > 0 {
        let top = st[st.len() - 1];
        if top.contains_key(name) {
            assert(st[st.len() - 1].contains_key(name));
        } else {
            free_dropped(st);
            free_lookup(st.drop_last(), name);
        }
    }
}

proof fn free_dropped(st: State)
    requires
        st.len() > 0,
        free(st),
    ensures
        free(st.drop_last()),
{
    let d = st.drop_last();
    assert forall|i: int, n: Seq<char>|
        0 <= i < d.len() && (#[trigger] d[i].contains_key(n)) implies !affine(d[i][n].0) by {
        assert(st[i].contains_key(n));
    }
}

proof fn free_opened(st: State)
    requires
        free(st),
    ensures
        free(opened(st)),
{
    let o = opened(st);
    assert forall|i: int, n: Seq<char>|
        0 <= i < o.len() && (#[trigger] o[i].contains_key(n)) implies !affine(o[i][n].0) by {
        assert(i < st.len());
        assert(st[i].contains_key(n));
    }
}

proof fn free_defined(st: State, name: Seq<char>, b: (STy, bool))
    requires
        free(st),
        !affine(b.0),
    ensures
        free(defined(st, name, b)),
{
    let o = defined(st, name, b);
    assert forall|i: int, n: Seq<char>|
        0 <= i < o.len() && (#[trigger] o[i].contains_key(n)) implies !affine(o[i][n].0) by {
        if i < st.len() - 1 || n != name {
            assert(st[i].contains_key(n));
        }
    }
}

proof fn free_assigned(st: State, name: Seq<char>, b: (STy, bool))
    requires
        free(st),
        !affine(b.0),
    ensures
        free(assigned(st, name, b)),
    decreases st.len(),
{
    if st.len() > 0 {
        if st.last().contains_key(name) {
            free_defined(st, name, b);
        } else {
            free_dropped(st);
            free_assigned(st.drop_last(), name, b);
            let inner = assigned(st.drop_last(), name, b);
            let o = assigned(st, name, b);
            assert forall|i: int, n: Seq<char>|
                0 <= i < o.len() && (#[trigger] o[i].contains_key(n)) implies !affine(o[i][n].0) by {
                if i < inner.len() {
                    assert(inner[i].contains_key(n));
                } else {
                    assert(st[st.len() - 1].contains_key(n));
                }
            }
        }
    }
}

proof fn free_marked(st: State, name: Seq<char>, moved: bool)
    requires
        free(st),
    ensures
        free(marked(st, name, moved)),
{
    free_lookup(st, name);
    if let Some(b) = lookup(st, name) {
        free_assigned(st, name, (b.0, moved));
    }
}

proof fn free_merged(a: State, b: State)
    requires
        free(a),
    ensures
        free(merged(a, b)),
{
    let m = merged(a, b);
    assert forall|i: int, n: Seq<char>|
        0 <= i < m.len() && (#[trigger] m[i].contains_key(n)) implies !affine(m[i][n].0) by {
        assert(a[i].contains_key(n));
    }
}

proof fn free_bound(st: State, names: Seq<String>, payload: Seq<Ty>, n: nat)
    requires
        free(st),
        n <= names.len(),
        n <= payload.len(),
        forall|i: int| 0 <= i < n ==> !affine((#[trigger] payload[i])@),
    ensures
        free(bound(st, names, payload, n)),
    decreases n,
{
    if n > 0 {
        free_bound(st, names, payload, (n - 1) as nat);
        assert(!affine(payload[n - 1]@));
        free_defined(
            bound(st, names, payload, (n - 1) as nat),
            names[n - 1]@,
            (payload[n - 1]@, false),
        );
    }
}

proof fn free_arm(p: Program, arm: MatchArm, st: State)
    requires
        free(st),
        copied_arm(p, arm),
    ensures
        free(arm_state(p, arm, st)),
{
    free_opened(st);
    if let Some(ij) = variant_named(p, arm.variant@) {
        let payload = p.enums@[ij.0].variants@[ij.1].payload@;
        let n = if arm.bindings@.len() <= payload.len() {
            arm.bindings@.len()
        } else {
            payload.len()
        };
        free_bound(opened(st), arm.bindings@, payload, n);
    }
}

proof fn free_use(st: State, name: Seq<char>, span: Span, consume: bool)
    requires
        free(st),
    ensures
        used(st, name, span, consume) == clean(st),
{
    free_lookup(st, name);
}

proof fn free_touch(p: Program, e: Expr, consume: bool, st: State)
    requires
        free(st),
        copied(p, e),
    ensures
        free(touch(p, e, consume, st).st),
        touch(p, e, consume, st).errs.len() == 0,
    decreases e,
{
    match e {
        Expr::Ident(name, span) => free_use(st, name@, span, consume),
        Expr::Unary(_, a, _)
        | Expr::Box(a, _)
        | Expr::Join(a, _)
        | Expr::StopSandbox(a, _)
        | Expr::Listen(a, _) => free_touch(p, *a, true, st),
        Expr::Assign(name, a, _) => {
            free_touch(p, *a, true, st);
            free_marked(touch(p, *a, true, st).st, name@, false);
        }
        Expr::Ref(a, _) | Expr::Recv(a, _) | Expr::Accept(a, _) | Expr::FieldAccess(a, _, _) => {
            free_touch(p, *a, false, st);
        }
        Expr::Deref(a, _) => match *a {
            Expr::Ident(name, span) => {
                free_use(st, name@, span, crate::ownership::takes_content(st, name@));
            }
            _ => free_touch(p, *a, false, st),
        },
        Expr::Binary(_, a, b, _) | Expr::Connect(a, b, _) | Expr::Open(a, b, _) => {
            free_touch(p, *a, true, st);
            free_touch(p, *b, true, touch(p, *a, true, st).st);
        }
        Expr::Send(a, b, _) => {
            free_touch(p, *a, false, st);
            free_touch(p, *b, true, touch(p, *a, false, st).st);
        }
        Expr::Call(_, args, _)
        | Expr::Spawn(_, args, _)
        | Expr::SpawnSandbox(_, args, _)
        | Expr::ArrayLit(args, _) => free_touches(p, args@, st),
        Expr::Index(a, args, _) => {
            free_touch(p, *a, false, st);
            free_touches(p, args@, touch(p, *a, false, st).st);
        }
        Expr::If { cond, then_block, else_block, .. } => {
            free_touch(p, *cond, true, st);
            let x = touch(p, *cond, true, st).st;
            free_block(p, then_block.stmts@, x);
            let t = check_block(p, then_block.stmts@, x).st;
            match else_block {
                Some(b) => {
                    free_else(p, *b, x);
                    free_merged(t, check_else(p, *b, x).st);
                }
                None => free_merged(t, x),
            }
        }
        Expr::Match { scrutinee, arms, .. } => {
            free_touch(p, *scrutinee, true, st);
            free_arms(p, arms@, touch(p, *scrutinee, true, st).st);
        }
        Expr::Transact { network, verify, commit, compensate, log, .. } => {
            free_opened(st);
            free_touches(p, network.args@, opened(st));
            let a = touch_all(p, network.args@, opened(st));
            let r = (result_of(p, network.name@), false);
            free_defined(a.st, "network"@, r);
            let s1 = defined(a.st, "network"@, r);
            free_touches(p, verify.args@, s1);
            let b = touch_all(p, verify.args@, s1);
            free_defined(b.st, "verify"@, (STy::Bool, false));
            let s2 = defined(b.st, "verify"@, (STy::Bool, false));
            free_touches(p, commit.args@, s2);
            let c = touch_all(p, commit.args@, s2);
            let d = match compensate {
                Some(s) => touch_all(p, s.args@, s2),
                None => clean(s2),
            };
            if let Some(s) = compensate {
                free_touches(p, s.args@, s2);
            }
            let s3 = merged(c.st, d.st);
            free_merged(c.st, d.st);
            let f = match log {
                Some(s) => touch_all(p, s.args@, s3),
                None => clean(s3),
            };
            if let Some(s) = log {
                free_touches(p, s.args@, s3);
            }
            touch_all_shape(p, network.args@, opened(st));
            touch_all_shape(p, verify.args@, s1);
            touch_all_shape(p, commit.args@, s2);
            if let Some(s) = compensate {
                touch_all_shape(p, s.args@, s2);
            }
            if let Some(s) = log {
                touch_all_shape(p, s.args@, s3);
            }
            free_dropped(f.st);
        }
        _ => {}
    }
}

proof fn free_touches(p: Program, v: Seq<Expr>, st: State)
    requires
        free(st),
        copied_all(p, v),
    ensures
        free(touch_all(p, v, st).st),
        touch_all(p, v, st).errs.len() == 0,
    decreases v,
{
    if v.len() > 0 {
        free_touches(p, v.drop_last(), st);
        free_touch(p, v.last(), true, touch_all(p, v.drop_last(), st).st);
    }
}

proof fn free_else(p: Program, b: ElseBranch, st: State)
    requires
        free(st),
        copied_else(p, b),
    ensures
        free(check_else(p, b, st).st),
        check_else(p, b, st).errs.len() == 0,
    decreases b,
{
    match b {
        ElseBranch::Block(x) => free_block(p, x.stmts@, st),
        ElseBranch::If(e) => free_touch(p, e, true, st),
    }
}

proof fn free_arms(p: Program, v: Seq<MatchArm>, st: State)
    requires
        free(st),
        copied_arms(p, v),
    ensures
        free(check_arms(p, v, st).st),
        check_arms(p, v, st).errs.len() == 0,
    decreases v,
{
    if v.len() > 0 {
        free_arms(p, v.drop_last(), st);
        let arm = v[v.len() - 1];
        assert(decreases_to!(v => arm));
        free_arm(p, arm, st);
        free_touch(p, *arm.body, true, arm_state(p, arm, st));
        reveal_with_fuel(check_arm, 2);
        assert(check_arm(p, arm, st).errs.len() == 0);
        free_merged(check_arms(p, v.drop_last(), st).st, check_arm(p, arm, st).st);
    }
}

proof fn free_stmt(p: Program, s: Stmt, st: State)
    requires
        free(st),
        copied_stmt(p, s),
    ensures
        free(check_stmt(p, s, st).st),
        check_stmt(p, s, st).errs.len() == 0,
    decreases s,
{
    match s {
        Stmt::Let { name, ty, value, .. } => {
            free_touch(p, value, true, st);
            free_defined(touch(p, value, true, st).st, name@, (ty@, false));
        }
        Stmt::Return { value, .. } => {
            if let Some(e) = value {
                free_touch(p, e, true, st);
            }
        }
        Stmt::While { cond, body, .. } => {
            free_touch(p, cond, true, st);
            let w = touch(p, cond, true, st).st;
            free_block(p, body.stmts@, w);
            let once = check_block(p, body.stmts@, w).st;
            free_merged(st, once);
            let head = merged(st, once);
            free_touch(p, cond, true, head);
            free_block(p, body.stmts@, touch(p, cond, true, head).st);
        }
        Stmt::Audited { body, .. } => free_block(p, body@, st),
        Stmt::Expr(e) => free_touch(p, e, true, st),
    }
}

proof fn free_stmts(p: Program, v: Seq<Stmt>, st: State)
    requires
        free(st),
        copied_stmts(p, v),
    ensures
        free(check_stmts(p, v, st).st),
        check_stmts(p, v, st).errs.len() == 0,
    decreases v, 0nat,
{
    if v.len() > 0 {
        free_stmts(p, v.drop_last(), st);
        free_stmt(p, v.last(), check_stmts(p, v.drop_last(), st).st);
    }
}

proof fn free_block(p: Program, v: Seq<Stmt>, st: State)
    requires
        free(st),
        copied_stmts(p, v),
    ensures
        free(check_block(p, v, st).st),
        check_block(p, v, st).errs.len() == 0,
    decreases v, 1nat,
{
    free_opened(st);
    free_stmts(p, v, opened(st));
    check_stmts_shape(p, v, opened(st));
    free_dropped(check_stmts(p, v, opened(st)).st);
}

proof fn free_entry(f: FnDecl, n: nat)
    requires
        n <= f.params@.len(),
        forall|i: int| 0 <= i < f.params@.len() ==> !affine((#[trigger] f.params@[i]).ty@),
    ensures
        free(entry(f, n)),
    decreases n,
{
    if n == 0 {
        free_opened(Seq::empty());
    } else {
        free_entry(f, (n - 1) as nat);
        assert(!affine(f.params@[n - 1].ty@));
        free_defined(
            entry(f, (n - 1) as nat),
            f.params@[n - 1].name@,
            (f.params@[n - 1].ty@, false),
        );
    }
}

/// A function in which nothing is bound to a type that is moved has no errors.
pub proof fn copying_functions_have_no_errors(p: Program, f: FnDecl)
    requires
        copied_fn(p, f),
    ensures
        fn_errors(p, f).len() == 0,
{
    free_entry(f, f.params@.len());
    free_stmts(p, f.body.stmts@, entry(f, f.params@.len()));
}

proof fn no_errors_upto(p: Program, n: nat)
    requires
        n <= p.fns@.len(),
        forall|i: int| 0 <= i < p.fns@.len() ==> copied_fn(p, #[trigger] p.fns@[i]),
    ensures
        errors_upto(p, n).len() == 0,
    decreases n,
{
    if n > 0 {
        no_errors_upto(p, (n - 1) as nat);
        copying_functions_have_no_errors(p, p.fns@[n - 1]);
    }
}

/// A program in which no parameter, `let`, arm or step binds a value of a type that is
/// moved has no errors.
pub proof fn copying_programs_have_no_errors(p: Program)
    requires
        forall|i: int| 0 <= i < p.fns@.len() ==> copied_fn(p, #[trigger] p.fns@[i]),
    ensures
        ownership_errors(p).len() == 0,
{
    no_errors_upto(p, p.fns@.len());
}

} // verus!
