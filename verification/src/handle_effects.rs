//! Effects of handles: what a run sends, receives or closes is what the types of
//! its expressions say.
use crate::ast::{EffectSet, ElseBranch, Expr, FnDecl, MatchArm, Program, STy, Stmt, TransactSlot, Ty};
use crate::bindings::{
    answers_keep_types, binds_unchecked, calls_start_typed, fit_each_at, fits_anywhere, of_type,
    reads_are_typed, state_typed, steps_keep_types, typed,
};
use crate::builtin_eval::builtin_call;
use crate::builtins::{builtin_named, Builtin};
use crate::check::{field_types, fit_all, fits};
use crate::effect_bounds::asked;
use crate::effects::{
    after_stmt, after_stmts, arm_scopes, bound, calling, closed_under, concurrent, io, network,
    network_scope, no_effect, of_arms, of_builtin, of_else, of_expr, of_exprs, of_fn, of_slot, of_stmt,
    of_stmts, param_scope, shorter, within, Known, Types,
};
use crate::machine::{
    answered, apply, arm_env, arm_for, begun, choose_arm, enter, eval, least3, log_step, operand,
    operands, param_env, run, slot_args, slot_done, slot_of, step, steps, stmt_value, wanted,
    SCtrl, SEnv, SFrame, SState, Step,
};
use crate::registry::{field_from, fn_below, fn_named, struct_named, variant_named};
use crate::request::{settled, SAct, SRequest, SResponse};
use crate::scopes::{assigned, closed, defined, lookup, opened};
use crate::token::Span;
use crate::typing::{
    on_type, type_arms, type_block, type_else, type_of, used, used_arms, used_block, used_else,
};
use crate::value::{SOutcome, SValue};
use vstd::prelude::*;

verus! {

/// The declared types of the variables.
pub open spec fn types_of(env: SEnv) -> Types {
    Seq::new(env.len(), |i: int| env[i].map_values(|b: (SValue, STy)| b.1))
}

proof fn types_opened(env: SEnv)
    ensures
        types_of(opened(env)) == opened(types_of(env)),
{
    let a = types_of(opened(env));
    let b = opened(types_of(env));
    assert forall|i: int| 0 <= i < a.len() implies a[i] == b[i] by {
        assert(a[i] =~= b[i]);
    }
    assert(a =~= b);
}

proof fn types_closed(env: SEnv)
    ensures
        types_of(closed(env)) == closed(types_of(env)),
{
    assert(types_of(closed(env)) =~= closed(types_of(env)));
}

proof fn types_defined(env: SEnv, x: Seq<char>, b: (SValue, STy))
    ensures
        types_of(defined(env, x, b)) == defined(types_of(env), x, b.1),
{
    let l = types_of(defined(env, x, b));
    let r = defined(types_of(env), x, b.1);
    assert(l.len() == r.len());
    assert forall|i: int| 0 <= i < l.len() implies l[i] == r[i] by {
        assert(l[i] =~= r[i]);
    }
    assert(l =~= r);
}

proof fn types_lookup(env: SEnv, x: Seq<char>)
    ensures
        lookup(types_of(env), x) == match lookup(env, x) {
            Some(b) => Some(b.1),
            None => None,
        },
    decreases env.len(),
{
    if env.len() > 0 {
        types_lookup(env.drop_last(), x);
        assert(types_of(env).drop_last() =~= types_of(env.drop_last()));
    }
}

proof fn types_assigned(env: SEnv, x: Seq<char>, v: SValue, t: STy)
    requires
        lookup(env, x) matches Some(b) && b.1 == t,
    ensures
        types_of(assigned(env, x, (v, t))) == types_of(env),
    decreases env.len(),
{
    let l = types_of(assigned(env, x, (v, t)));
    let r = types_of(env);
    if env.len() > 0 {
        if env.last().contains_key(x) {
            assert forall|i: int| 0 <= i < l.len() implies l[i] == r[i] by {
                assert(l[i] =~= r[i]);
            }
            assert(l =~= r);
        } else {
            types_assigned(env.drop_last(), x, v, t);
            let inner = assigned(env.drop_last(), x, (v, t));
            assert(types_of(env.drop_last()).len() == env.len() - 1);
            assert(types_of(inner).len() == inner.len());
            assert forall|i: int| 0 <= i < l.len() implies l[i] == r[i] by {
                if i < inner.len() {
                    assert(l[i] == types_of(inner)[i]);
                    assert(r[i] == types_of(env.drop_last())[i]);
                }
            }
            assert(l =~= r);
        }
    }
}

proof fn types_params(f: FnDecl, vals: Seq<SValue>, n: nat)
    ensures
        types_of(param_env(f, vals, n)) == param_scope(f, n),
    decreases n,
{
    if n == 0 {
        types_opened(Seq::empty());
        assert(types_of(Seq::empty()) =~= Seq::empty());
    } else {
        types_params(f, vals, (n - 1) as nat);
        types_defined(
            param_env(f, vals, (n - 1) as nat),
            f.params@[n - 1].name@,
            (vals[n - 1], f.params@[n - 1].ty@),
        );
    }
}

proof fn types_arm(env: SEnv, names: Seq<String>, payload: Seq<SValue>, types: Seq<Ty>, n: nat)
    ensures
        types_of(arm_env(env, names, payload, types, n)) == bound(
            opened(types_of(env)),
            names,
            types,
            n,
        ),
    decreases n,
{
    if n == 0 {
        types_opened(env);
    } else {
        types_arm(env, names, payload, types, (n - 1) as nat);
        types_defined(
            arm_env(env, names, payload, types, (n - 1) as nat),
            names[n - 1]@,
            (payload[n - 1], types[n - 1]@),
        );
    }
}

/// Every name has the same type in both.
pub open spec fn alike(a: Types, b: Types) -> bool {
    &&& a.len() > 0
    &&& b.len() > 0
    &&& forall|x: Seq<char>| #[trigger] lookup(a, x) == lookup(b, x)
}

proof fn lookup_defined(a: Types, x: Seq<char>, t: STy, y: Seq<char>)
    requires
        a.len() > 0,
    ensures
        lookup(defined(a, x, t), y) == if x == y {
            Some(t)
        } else {
            lookup(a, y)
        },
{
    assert(defined(a, x, t).drop_last() =~= a.drop_last());
}

proof fn alike_opened(a: Types, b: Types)
    requires
        alike(a, b),
    ensures
        alike(opened(a), opened(b)),
{
    assert forall|x: Seq<char>| #[trigger] lookup(opened(a), x) == lookup(opened(b), x) by {
        assert(opened(a).drop_last() =~= a);
        assert(opened(b).drop_last() =~= b);
        assert(lookup(a, x) == lookup(b, x));
    }
}

proof fn alike_defined(a: Types, b: Types, x: Seq<char>, t: STy)
    requires
        alike(a, b),
    ensures
        alike(defined(a, x, t), defined(b, x, t)),
{
    assert forall|y: Seq<char>| #[trigger]
        lookup(defined(a, x, t), y) == lookup(defined(b, x, t), y) by {
        lookup_defined(a, x, t, y);
        lookup_defined(b, x, t, y);
        assert(lookup(a, y) == lookup(b, y));
    }
}

proof fn alike_bound(a: Types, b: Types, names: Seq<String>, payload: Seq<Ty>, n: nat)
    requires
        alike(a, b),
    ensures
        alike(bound(a, names, payload, n), bound(b, names, payload, n)),
    decreases n,
{
    if n > 0 {
        alike_bound(a, b, names, payload, (n - 1) as nat);
        alike_defined(
            bound(a, names, payload, (n - 1) as nat),
            bound(b, names, payload, (n - 1) as nat),
            names[n - 1]@,
            payload[n - 1]@,
        );
    }
}

proof fn alike_arm(p: Program, arm: MatchArm, a: Types, b: Types)
    requires
        alike(a, b),
    ensures
        alike(arm_scopes(p, arm, a), arm_scopes(p, arm, b)),
{
    alike_opened(a, b);
    if let Some(ij) = variant_named(p, arm.variant@) {
        let payload = p.enums@[ij.0].variants@[ij.1].payload@;
        alike_bound(
            opened(a),
            opened(b),
            arm.bindings@,
            payload,
            shorter(arm.bindings@.len(), payload.len()),
        );
    }
}

proof fn alike_after(v: Seq<Stmt>, a: Types, b: Types)
    requires
        alike(a, b),
    ensures
        alike(after_stmts(v, a), after_stmts(v, b)),
    decreases v.len(),
{
    if v.len() > 0 {
        alike_after(v.drop_last(), a, b);
        if let Stmt::Let { name, ty, .. } = v.last() {
            alike_defined(
                after_stmts(v.drop_last(), a),
                after_stmts(v.drop_last(), b),
                name@,
                ty@,
            );
        }
    }
}

/// Types depend on the types of names only.
proof fn same_type(p: Program, e: Expr, a: Types, b: Types)
    requires
        alike(a, b),
    ensures
        type_of(p, e, a) == type_of(p, e, b),
    decreases e,
{
    match e {
        Expr::Ident(name, _) => {
            assert(lookup(a, name@) == lookup(b, name@));
        }
        Expr::Assign(name, _, _) => {
            assert(lookup(a, name@) == lookup(b, name@));
        }
        Expr::Box(x, _)
        | Expr::Ref(x, _)
        | Expr::Deref(x, _)
        | Expr::FieldAccess(x, _, _)
        | Expr::Index(x, _, _)
        | Expr::Recv(x, _)
        | Expr::Join(x, _) => same_type(p, *x, a, b),
        Expr::If { then_block, else_block, .. } => {
            alike_opened(a, b);
            same_block_type(p, then_block.stmts@, opened(a), opened(b));
            if let Some(x) = else_block {
                same_else_type(p, *x, a, b);
            }
        }
        Expr::ArrayLit(v, _) => {
            if v@.len() > 0 {
                assert(decreases_to!(v@ => v@[0]));
                same_type(p, v@[0], a, b);
            }
        }
        Expr::Match { arms, .. } => same_arms_type(p, arms@, a, b),
        _ => {}
    }
}

proof fn same_block_type(p: Program, v: Seq<Stmt>, a: Types, b: Types)
    requires
        alike(a, b),
    ensures
        type_block(p, v, a) == type_block(p, v, b),
    decreases v,
{
    if v.len() > 0 {
        alike_after(v.drop_last(), a, b);
        let last = v[v.len() - 1];
        assert(decreases_to!(v => last));
        if let Stmt::Expr(e) = last {
            same_type(p, e, after_stmts(v.drop_last(), a), after_stmts(v.drop_last(), b));
        }
    }
}

proof fn same_else_type(p: Program, x: ElseBranch, a: Types, b: Types)
    requires
        alike(a, b),
    ensures
        type_else(p, x, a) == type_else(p, x, b),
    decreases x,
{
    alike_opened(a, b);
    match x {
        ElseBranch::Block(y) => same_block_type(p, y.stmts@, opened(a), opened(b)),
        ElseBranch::If(y) => same_type(p, y, a, b),
    }
}

proof fn same_arms_type(p: Program, v: Seq<MatchArm>, a: Types, b: Types)
    requires
        alike(a, b),
    ensures
        type_arms(p, v, a) == type_arms(p, v, b),
    decreases v,
{
    if v.len() > 0 {
        same_arms_type(p, v.drop_last(), a, b);
        alike_arm(p, v.last(), a, b);
        same_type(p, *v.last().body, arm_scopes(p, v.last(), a), arm_scopes(p, v.last(), b));
    }
}

proof fn same_used(p: Program, e: Expr, a: Types, b: Types, stop: bool)
    requires
        alike(a, b),
    ensures
        used(p, e, a, stop) == used(p, e, b, stop),
    decreases e,
{
    match e {
        Expr::If { then_block, else_block, .. } => {
            alike_opened(a, b);
            same_block_used(p, then_block.stmts@, opened(a), opened(b), stop);
            if let Some(x) = else_block {
                same_else_used(p, *x, a, b, stop);
            }
        }
        Expr::Match { arms, .. } => same_arms_used(p, arms@, a, b, stop),
        _ => same_type(p, e, a, b),
    }
}

proof fn same_block_used(p: Program, v: Seq<Stmt>, a: Types, b: Types, stop: bool)
    requires
        alike(a, b),
    ensures
        used_block(p, v, a, stop) == used_block(p, v, b, stop),
    decreases v,
{
    if v.len() > 0 {
        alike_after(v.drop_last(), a, b);
        let last = v[v.len() - 1];
        assert(decreases_to!(v => last));
        if let Stmt::Expr(e) = last {
            same_used(p, e, after_stmts(v.drop_last(), a), after_stmts(v.drop_last(), b), stop);
        }
    }
}

proof fn same_else_used(p: Program, x: ElseBranch, a: Types, b: Types, stop: bool)
    requires
        alike(a, b),
    ensures
        used_else(p, x, a, stop) == used_else(p, x, b, stop),
    decreases x,
{
    alike_opened(a, b);
    match x {
        ElseBranch::Block(y) => same_block_used(p, y.stmts@, opened(a), opened(b), stop),
        ElseBranch::If(y) => same_used(p, y, a, b, stop),
    }
}

proof fn same_arms_used(p: Program, v: Seq<MatchArm>, a: Types, b: Types, stop: bool)
    requires
        alike(a, b),
    ensures
        used_arms(p, v, a, stop) == used_arms(p, v, b, stop),
    decreases v,
{
    if v.len() > 0 {
        same_arms_used(p, v.drop_last(), a, b, stop);
        alike_arm(p, v.last(), a, b);
        same_used(p, *v.last().body, arm_scopes(p, v.last(), a), arm_scopes(p, v.last(), b), stop);
    }
}

/// Effects depend on the types of names only.
proof fn same_expr(p: Program, e: Expr, a: Types, b: Types, k: Known)
    requires
        alike(a, b),
    ensures
        of_expr(p, e, a, k) == of_expr(p, e, b, k),
    decreases e,
{
    match e {
        Expr::Unary(_, x, _)
        | Expr::Box(x, _)
        | Expr::Deref(x, _)
        | Expr::Ref(x, _)
        | Expr::FieldAccess(x, _, _)
        | Expr::Assign(_, x, _)
        | Expr::Join(x, _)
        | Expr::Listen(x, _)
        | Expr::Accept(x, _) => same_expr(p, *x, a, b, k),
        Expr::Recv(x, _) => {
            same_expr(p, *x, a, b, k);
            same_used(p, *x, a, b, false);
        }
        Expr::StopSandbox(x, _) => {
            same_expr(p, *x, a, b, k);
            same_used(p, *x, a, b, true);
        }
        Expr::Send(x, y, _) => {
            same_expr(p, *x, a, b, k);
            same_used(p, *x, a, b, false);
            same_expr(p, *y, a, b, k);
        }
        Expr::Binary(_, x, y, _)
        | Expr::Connect(x, y, _)
        | Expr::Open(x, y, _) => {
            same_expr(p, *x, a, b, k);
            same_expr(p, *y, a, b, k);
        }
        Expr::Call(_, args, _)
        | Expr::Spawn(_, args, _)
        | Expr::SpawnSandbox(_, args, _)
        | Expr::ArrayLit(args, _) => same_exprs(p, args@, a, b, k),
        Expr::Index(x, args, _) => {
            same_expr(p, *x, a, b, k);
            same_exprs(p, args@, a, b, k);
        }
        Expr::If { cond, then_block, else_block, .. } => {
            same_expr(p, *cond, a, b, k);
            alike_opened(a, b);
            same_stmts(p, then_block.stmts@, opened(a), opened(b), k);
            if let Some(x) = else_block {
                same_else(p, *x, a, b, k);
            }
        }
        Expr::Transact { network, verify, commit, compensate, log, .. } => {
            alike_opened(a, b);
            same_slot(p, network, opened(a), opened(b), k);
            let na = network_scope(p, network.name@, opened(a));
            let nb = network_scope(p, network.name@, opened(b));
            if let Some(i) = fn_named(p, network.name@) {
                alike_defined(opened(a), opened(b), "network"@, p.fns@[i].ret@);
            }
            same_slot(p, verify, na, nb, k);
            alike_defined(na, nb, "verify"@, STy::Bool);
            let va = defined(na, "verify"@, STy::Bool);
            let vb = defined(nb, "verify"@, STy::Bool);
            same_slot(p, commit, va, vb, k);
            if let Some(s) = compensate {
                same_slot(p, s, va, vb, k);
            }
            if let Some(s) = log {
                same_slot(p, s, va, vb, k);
            }
        }
        Expr::Match { scrutinee, arms, .. } => {
            same_expr(p, *scrutinee, a, b, k);
            same_arms(p, arms@, a, b, k);
        }
        _ => {}
    }
}

proof fn same_exprs(p: Program, v: Seq<Expr>, a: Types, b: Types, k: Known)
    requires
        alike(a, b),
    ensures
        of_exprs(p, v, a, k) == of_exprs(p, v, b, k),
    decreases v,
{
    if v.len() > 0 {
        same_exprs(p, v.drop_last(), a, b, k);
        same_expr(p, v.last(), a, b, k);
    }
}

proof fn same_slot(p: Program, s: TransactSlot, a: Types, b: Types, k: Known)
    requires
        alike(a, b),
    ensures
        of_slot(p, s, a, k) == of_slot(p, s, b, k),
    decreases s,
{
    same_exprs(p, s.args@, a, b, k);
}

proof fn same_else(p: Program, x: ElseBranch, a: Types, b: Types, k: Known)
    requires
        alike(a, b),
    ensures
        of_else(p, x, a, k) == of_else(p, x, b, k),
    decreases x,
{
    alike_opened(a, b);
    match x {
        ElseBranch::Block(y) => same_stmts(p, y.stmts@, opened(a), opened(b), k),
        ElseBranch::If(y) => same_expr(p, y, a, b, k),
    }
}

proof fn same_arms(p: Program, v: Seq<MatchArm>, a: Types, b: Types, k: Known)
    requires
        alike(a, b),
    ensures
        of_arms(p, v, a, k) == of_arms(p, v, b, k),
    decreases v,
{
    if v.len() > 0 {
        same_arms(p, v.drop_last(), a, b, k);
        alike_arm(p, v.last(), a, b);
        same_expr(p, *v.last().body, arm_scopes(p, v.last(), a), arm_scopes(p, v.last(), b), k);
    }
}

proof fn same_stmt(p: Program, s: Stmt, a: Types, b: Types, k: Known)
    requires
        alike(a, b),
    ensures
        of_stmt(p, s, a, k) == of_stmt(p, s, b, k),
    decreases s,
{
    alike_opened(a, b);
    match s {
        Stmt::Let { value, .. } => same_expr(p, value, a, b, k),
        Stmt::Return { value, .. } => {
            if let Some(e) = value {
                same_expr(p, e, a, b, k);
            }
        }
        Stmt::While { cond, body, .. } => {
            same_expr(p, cond, a, b, k);
            same_stmts(p, body.stmts@, opened(a), opened(b), k);
        }
        Stmt::Audited { body, .. } => same_stmts(p, body@, opened(a), opened(b), k),
        Stmt::Expr(e) => same_expr(p, e, a, b, k),
    }
}

proof fn same_stmts(p: Program, v: Seq<Stmt>, a: Types, b: Types, k: Known)
    requires
        alike(a, b),
    ensures
        of_stmts(p, v, a, k) == of_stmts(p, v, b, k),
    decreases v,
{
    if v.len() > 0 {
        same_stmts(p, v.drop_last(), a, b, k);
        alike_after(v.drop_last(), a, b);
        same_stmt(p, v.last(), after_stmts(v.drop_last(), a), after_stmts(v.drop_last(), b), k);
    }
}

proof fn one_of(p: Program, v: Seq<Expr>, i: int, sc: Types, k: Known)
    requires
        0 <= i < v.len(),
    ensures
        within(of_expr(p, v[i], sc, k), of_exprs(p, v, sc, k)),
    decreases v.len(),
{
    if i < v.len() - 1 {
        one_of(p, v.drop_last(), i, sc, k);
        assert(v.drop_last()[i] == v[i]);
    }
}

proof fn arm_of(p: Program, v: Seq<MatchArm>, i: int, sc: Types, k: Known)
    requires
        0 <= i < v.len(),
    ensures
        within(of_expr(p, *v[i].body, arm_scopes(p, v[i], sc), k), of_arms(p, v, sc, k)),
    decreases v.len(),
{
    if i < v.len() - 1 {
        arm_of(p, v.drop_last(), i, sc, k);
        assert(v.drop_last()[i] == v[i]);
    }
}

/// The first statement, then the others in the scopes behind it.
proof fn first_then_rest(p: Program, w: Seq<Stmt>, sc: Types, k: Known)
    requires
        w.len() > 0,
    ensures
        within(of_stmt(p, w[0], sc, k), of_stmts(p, w, sc, k)),
        within(of_stmts(p, w.skip(1), after_stmt(w[0], sc), k), of_stmts(p, w, sc, k)),
        after_stmts(w, sc) == after_stmts(w.skip(1), after_stmt(w[0], sc)),
    decreases w.len(),
{
    let init = w.drop_last();
    if w.len() == 1 {
        assert(init =~= Seq::empty());
        assert(w.skip(1) =~= Seq::empty());
        assert(after_stmts(init, sc) == sc);
        assert(of_stmts(p, init, sc, k) == of_stmts(p, Seq::empty(), sc, k));
    } else {
        first_then_rest(p, init, sc, k);
        assert(init[0] == w[0]);
        assert(w.skip(1).drop_last() =~= init.skip(1));
        assert(w.skip(1).last() == w.last());
    }
}

/// The same from a place on.
proof fn next_then_rest(p: Program, v: Seq<Stmt>, i: int, sc: Types, k: Known)
    requires
        0 <= i < v.len(),
    ensures
        within(of_stmt(p, v[i], sc, k), of_stmts(p, v.skip(i), sc, k)),
        within(of_stmts(p, v.skip(i + 1), after_stmt(v[i], sc), k), of_stmts(p, v.skip(i), sc, k)),
{
    first_then_rest(p, v.skip(i), sc, k);
    assert(v.skip(i).skip(1) =~= v.skip(i + 1));
}

/// What sending to a value or receiving from it does.
pub open spec fn value_transfer(v: SValue) -> EffectSet {
    match v {
        SValue::Channel(_) => concurrent(),
        SValue::Tcp(_) => network(),
        SValue::File(_) => io(),
        _ => no_effect(),
    }
}

/// What closing a value does.
pub open spec fn value_stopping(v: SValue) -> EffectSet {
    match v {
        SValue::Sandbox(_) => concurrent(),
        SValue::Tcp(_) | SValue::TcpListener(_) => network(),
        SValue::File(_) => io(),
        _ => no_effect(),
    }
}

/// The effect of a request.
pub open spec fn effect_of(r: SRequest) -> EffectSet {
    match r {
        SRequest::Send(h, _) => value_transfer(h),
        SRequest::Recv(h) => value_transfer(h),
        SRequest::Stop(h) => value_stopping(h),
        _ => asked(r),
    }
}

/// Whatever is done with the value is among what is known to be done with it.
pub open spec fn uses_within(p: Program, e: Expr, sc: Types, v: SValue) -> bool {
    within(value_transfer(v), used(p, e, sc, false)) && within(
        value_stopping(v),
        used(p, e, sc, true),
    )
}

/// The type of the expression is one that its value is checked against: that of a
/// variable or of a function's result, or of a part of such a value.
pub open spec fn sure(p: Program, e: Expr) -> bool
    decreases e,
{
    match e {
        Expr::Ident(..) | Expr::Assign(..) => true,
        Expr::Call(name, _, _) => builtin_named(name@) is None && struct_named(p, name@) is None
            && variant_named(p, name@) is None,
        Expr::Deref(a, _) => sure(p, *a),
        Expr::FieldAccess(a, _, _) => sure(p, *a),
        Expr::Index(a, _, _) => sure(p, *a),
        _ => false,
    }
}

/// What holds of the value of an expression.
pub open spec fn claim(p: Program, e: Expr, sc: Types, v: SValue) -> bool {
    &&& sure(p, e) ==> of_type(p, v, type_of(p, e, sc))
    &&& uses_within(p, e, sc, v)
}

/// The operand that is used as a handle, or that a part is taken of.
pub open spec fn part_of(e: Expr) -> Option<Expr> {
    match e {
        Expr::Send(a, _, _) => Some(*a),
        Expr::Recv(a, _) => Some(*a),
        Expr::StopSandbox(a, _) => Some(*a),
        Expr::Deref(a, _) => Some(*a),
        Expr::FieldAccess(a, _, _) => Some(*a),
        Expr::Index(a, _, _) => Some(*a),
        _ => None,
    }
}

/// The value is what it should be for what waits for it, where names have these
/// types.
pub open spec fn fitting(p: Program, fs: Seq<SFrame>, t: Types, v: SValue) -> bool
    decreases fs.len(),
{
    fs.len() > 0 ==> match fs.last() {
        SFrame::Args(e, done) => done.len() == 0 ==> (part_of(e) matches Some(a) ==> claim(
            p,
            a,
            t,
            v,
        )),
        SFrame::Scope => fitting(p, fs.drop_last(), closed(t), v),
        SFrame::Stmt(w, i) => i + 1 == w.len() && w[i] is Expr ==> fitting(p, fs.drop_last(), t, v),
        _ => true,
    }
}

/// Every value that an expression can have is one that is waited for.
pub open spec fn hosts(p: Program, fs: Seq<SFrame>, t: Types, e: Expr, sc: Types) -> bool {
    forall|v: SValue| #[trigger] claim(p, e, sc, v) ==> fitting(p, fs, t, v)
}

/// Every value of a function's result type is one that is waited for.
pub open spec fn hosts_type(p: Program, fs: Seq<SFrame>, t: Types, ty: STy) -> bool {
    forall|v: SValue| #[trigger] of_type(p, v, ty) ==> fitting(p, fs, t, v)
}

/// The value of a block, of which these statements are left, is one that is waited
/// for.
pub open spec fn ends(p: Program, fs: Seq<SFrame>, t: Types, w: Seq<Stmt>) -> bool {
    w.len() > 0 ==> match w.last() {
        Stmt::Expr(e) => hosts(p, fs, t, e, after_stmts(w.drop_last(), t)),
        _ => fitting(p, fs, t, SValue::Unit),
    }
}

/// What is on top is a block, or nothing.
pub open spec fn block_top(fs: Seq<SFrame>) -> bool {
    fs.len() > 0 ==> (fs.last() is Scope || fs.last() is Loop || fs.last() is Audited
        || fs.last() is Call)
}

/// The scopes in which the arguments of a step of a `transact` are evaluated.
pub open spec fn slot_scope(p: Program, e: Expr, st: Step, sc: Types) -> Types {
    match e {
        Expr::Transact { network, .. } => {
            let called = network_scope(p, network.name@, opened(sc));
            match st {
                Step::Network => opened(sc),
                Step::Verify => called,
                _ => defined(called, "verify"@, STy::Bool),
            }
        },
        _ => opened(sc),
    }
}

/// The types of names for what waits below a frame.
pub open spec fn under(f: SFrame, t: Types) -> Types {
    match f {
        SFrame::Scope
        | SFrame::Loop(..)
        | SFrame::Audited(..)
        | SFrame::SlotArgs(..)
        | SFrame::Slot(..) => closed(t),
        SFrame::Call(_, _, env) => types_of(env),
        _ => t,
    }
}

/// A block does no more than `all` from a place on, and its value is waited for.
pub open spec fn block_held(
    p: Program,
    k: Known,
    all: EffectSet,
    fs: Seq<SFrame>,
    v: Seq<Stmt>,
    i: int,
    t: Types,
) -> bool {
    &&& 0 <= i < v.len()
    &&& within(of_stmts(p, v.skip(i), t, k), all)
    &&& ends(p, fs, t, v.skip(i))
    &&& block_top(fs)
}

/// An expression does no more than `all`, and its value is waited for.
pub open spec fn expr_held(
    p: Program,
    k: Known,
    all: EffectSet,
    fs: Seq<SFrame>,
    e: Expr,
    t: Types,
) -> bool {
    within(of_expr(p, e, t, k), all) && hosts(p, fs, t, e, t)
}

/// What waits in a frame, on top of others, does no more than `all`.
pub open spec fn frame_held(
    p: Program,
    k: Known,
    all: EffectSet,
    fs: Seq<SFrame>,
    f: SFrame,
    t: Types,
) -> bool {
    match f {
        SFrame::Args(e, done) => {
            &&& expr_held(p, k, all, fs, e, t)
            &&& done.len() > 0 ==> (part_of(e) matches Some(a) ==> claim(p, a, t, done[0]))
        },
        SFrame::Logic(e) => expr_held(p, k, all, fs, e, t),
        SFrame::LogicRight(e) => expr_held(p, k, all, fs, e, t) && e is Binary,
        SFrame::Cond(e) => expr_held(p, k, all, fs, e, t),
        SFrame::Scrutinee(e) => expr_held(p, k, all, fs, e, t),
        SFrame::Stmt(v, i) => block_held(p, k, all, fs, v, i, t),
        SFrame::Loop(v, i) => block_held(p, k, all, fs, v, i, closed(t)),
        SFrame::Audited(v, i) => block_held(p, k, all, fs, v, i, closed(t)) && v[i] is Audited,
        SFrame::SlotArgs(e, st, _, _) => {
            &&& e is Transact
            &&& expr_held(p, k, all, fs, e, closed(t))
            &&& t == slot_scope(p, e, st, closed(t))
        },
        SFrame::Slot(e, st, _) => {
            &&& e is Transact
            &&& expr_held(p, k, all, fs, e, closed(t))
            &&& t == slot_scope(p, e, st, closed(t))
        },
        SFrame::Scope => true,
        SFrame::Call(i, _, env) => hosts_type(p, fs, types_of(env), p.fns@[i].ret@),
    }
}

/// Whatever waits, where names have these types, does no more than `all`.
pub open spec fn waits(p: Program, k: Known, all: EffectSet, fs: Seq<SFrame>, t: Types) -> bool
    decreases fs.len(),
{
    fs.len() > 0 ==> frame_held(p, k, all, fs.drop_last(), fs.last(), t) && waits(
        p,
        k,
        all,
        fs.drop_last(),
        under(fs.last(), t),
    )
}

/// Whatever is left to do, with handles, it does no more than `all`.
pub open spec fn held_within(p: Program, k: Known, all: EffectSet, s: SState) -> bool {
    let t = types_of(s.env);
    match s.ctrl {
        SCtrl::Eval(e) => expr_held(p, k, all, s.frames, e, t) && waits(p, k, all, s.frames, t),
        SCtrl::Run(v, i, last) => {
            &&& waits(p, k, all, s.frames, t)
            &&& if i == v.len() {
                fitting(p, s.frames, t, last)
            } else {
                block_held(p, k, all, s.frames, v, i, t)
            }
        },
        SCtrl::Ret(v) => waits(p, k, all, s.frames, t) && fitting(p, s.frames, t, v),
        SCtrl::Ask(r, _) => within(effect_of(r), all) && waits(p, k, all, s.frames, t),
        SCtrl::Unwind(_) => exists|u: Types| waits(p, k, all, s.frames, u),
        _ => true,
    }
}

/// The value of the expression may be a part of the value of an operand, such as an
/// element that `sum` finds alone in a vector.
pub open spec fn takes_part(e: Expr) -> bool {
    e is Deref || e is FieldAccess || e is Index || e is Call
}

/// The next step takes a part of a value that was made on the spot, and the part is a
/// handle of another kind than its type says. No well-typed program does.
pub open spec fn odd_part(p: Program, s: SState) -> bool {
    s.frames.len() > 0 && s.ctrl is Ret && match s.frames.last() {
        SFrame::Args(e, _) => takes_part(e) && !sure(p, e) && (step(p, s).ctrl matches SCtrl::Ret(x)
            && !uses_within(p, e, types_of(s.env), x)),
        _ => false,
    }
}

/// The next step takes apart a value whose parts are not those that its variant
/// declares. No well-typed program does.
pub open spec fn odd_match(p: Program, s: SState) -> bool {
    binds_unchecked(p, s) || s.frames.len() > 0 && s.frames.last() is Scrutinee && match s.ctrl {
        SCtrl::Ret(SValue::Enum(_, variant, payload)) => match variant_named(p, variant) {
            Some(ij) => payload.len() != p.enums@[ij.0].variants@[ij.1].payload@.len(),
            None => false,
        },
        _ => false,
    }
}

proof fn waits_push(p: Program, k: Known, all: EffectSet, fs: Seq<SFrame>, f: SFrame, t: Types)
    requires
        frame_held(p, k, all, fs, f, t),
        waits(p, k, all, fs, under(f, t)),
    ensures
        waits(p, k, all, fs.push(f), t),
        fs.push(f).last() == f,
        fs.push(f).drop_last() == fs,
{
    assert(fs.push(f).drop_last() =~= fs);
}

/// What waits for a block does not see the names of its innermost scope.
proof fn waits_defined(
    p: Program,
    k: Known,
    all: EffectSet,
    fs: Seq<SFrame>,
    t: Types,
    x: Seq<char>,
    ty: STy,
)
    requires
        waits(p, k, all, fs, t),
        block_top(fs),
    ensures
        waits(p, k, all, fs, defined(t, x, ty)),
{
    closed_defined(t, x, ty);
}

proof fn fitting_defined(p: Program, fs: Seq<SFrame>, t: Types, x: Seq<char>, ty: STy, v: SValue)
    requires
        block_top(fs),
    ensures
        fitting(p, fs, defined(t, x, ty), v) == fitting(p, fs, t, v),
{
    closed_defined(t, x, ty);
}

proof fn closed_defined(t: Types, x: Seq<char>, ty: STy)
    ensures
        closed(defined(t, x, ty)) == closed(t),
{
    assert(closed(defined(t, x, ty)) =~= closed(t));
}

proof fn closed_opened(t: Types)
    ensures
        closed(opened(t)) == t,
{
    assert(closed(opened(t)) =~= t);
}

proof fn named_fn(fns: Seq<FnDecl>, name: Seq<char>, n: int)
    requires
        n <= fns.len(),
    ensures
        fn_below(fns, name, n) matches Some(i) ==> 0 <= i < fns.len() && fns[i].name@ == name,
    decreases n,
{
    if n > 0 && fns[n - 1].name@ != name {
        named_fn(fns, name, n - 1);
    }
}

proof fn param_scope_len(f: FnDecl, n: nat)
    ensures
        param_scope(f, n).len() == 1,
    decreases n,
{
    if n > 0 {
        param_scope_len(f, (n - 1) as nat);
    }
}

/// A value of a type is used as the type says.
proof fn typed_use(p: Program, v: SValue, t: STy)
    requires
        of_type(p, v, t),
    ensures
        within(value_transfer(v), on_type(t, false)),
        within(value_stopping(v), on_type(t, true)),
{
}

/// What is checked against the type of a sure expression is claimed of it.
proof fn sure_claim(p: Program, e: Expr, sc: Types, v: SValue)
    requires
        sure(p, e),
        of_type(p, v, type_of(p, e, sc)),
    ensures
        claim(p, e, sc, v),
{
    typed_use(p, v, type_of(p, e, sc));
}

/// The value is no handle.
pub open spec fn no_handle(v: SValue) -> bool {
    value_transfer(v) == no_effect() && value_stopping(v) == no_effect()
}

proof fn enter_held(
    p: Program,
    k: Known,
    all: EffectSet,
    name: Seq<char>,
    vals: Seq<SValue>,
    span: Span,
    s: SState,
)
    requires
        closed_under(p, k),
        waits(p, k, all, s.frames, types_of(s.env)),
        within(k(name), all),
        fn_named(p, name) matches Some(i) ==> hosts_type(
            p,
            s.frames,
            types_of(s.env),
            p.fns@[i].ret@,
        ),
    ensures
        held_within(p, k, all, enter(p, name, vals, span, s)),
{
    if let Some(i) = fn_named(p, name) {
        named_fn(p.fns@, name, p.fns@.len() as int);
        let f = p.fns@[i];
        assert(within(of_fn(p, f, k), k(f.name@)));
        let env = param_env(f, vals, vals.len());
        if f.params@.len() == vals.len() {
            types_params(f, vals, vals.len());
            types_opened(env);
            let a = param_scope(f, f.params@.len());
            assert(opened(a).drop_last() =~= a);
            param_scope_len(f, f.params@.len());
            assert(alike(opened(a), a));
            same_stmts(p, f.body.stmts@, opened(a), a, k);
            assert(f.body.stmts@.skip(0) =~= f.body.stmts@);
            let g = SFrame::Call(i, span, s.env);
            waits_push(p, k, all, s.frames, g, types_of(opened(env)));
        }
    }
}

/// A step of a `transact` does no more than the whole.
proof fn slot_parts(p: Program, k: Known, e: Expr, st: Step, sc: Types)
    ensures
        slot_of(e, st) matches Some(slot) ==> {
            &&& within(k(slot.name@), of_expr(p, e, sc, k))
            &&& within(
                of_exprs(p, slot.args@, slot_scope(p, e, st, sc), k),
                of_expr(p, e, sc, k),
            )
        },
{
    if let Some(slot) = slot_of(e, st) {
        assert(within(of_slot(p, slot, slot_scope(p, e, st, sc), k), of_expr(p, e, sc, k)));
        reveal_with_fuel(of_slot, 2);
    }
}

/// `s` has the scope of the `transact` open, as the step needs it.
proof fn slot_args_held(
    p: Program,
    k: Known,
    all: EffectSet,
    e: Expr,
    st: Step,
    ok: bool,
    done: Seq<SValue>,
    s: SState,
)
    requires
        closed_under(p, k),
        e is Transact,
        types_of(s.env) == slot_scope(p, e, st, closed(types_of(s.env))),
        waits(p, k, all, s.frames, closed(types_of(s.env))),
        expr_held(p, k, all, s.frames, e, closed(types_of(s.env))),
    ensures
        held_within(p, k, all, slot_args(p, e, st, ok, done, s)),
{
    let t = types_of(s.env);
    if let Some(slot) = slot_of(e, st) {
        slot_parts(p, k, e, st, closed(t));
        if done.len() < slot.args@.len() {
            one_of(p, slot.args@, done.len() as int, t, k);
            waits_push(p, k, all, s.frames, SFrame::SlotArgs(e, st, ok, done), t);
        } else {
            let f = SFrame::Slot(e, st, ok);
            waits_push(p, k, all, s.frames, f, t);
            let w = SState { frames: s.frames.push(f), ..s };
            enter_held(p, k, all, slot.name@, done, slot.span, w);
        }
    }
}

/// What a `transact` comes to is no handle.
proof fn log_held(p: Program, k: Known, all: EffectSet, e: Expr, ok: bool, s: SState)
    requires
        closed_under(p, k),
        e is Transact,
        types_of(s.env) == slot_scope(p, e, Step::Log, closed(types_of(s.env))),
        waits(p, k, all, s.frames, closed(types_of(s.env))),
        expr_held(p, k, all, s.frames, e, closed(types_of(s.env))),
    ensures
        held_within(p, k, all, log_step(p, e, ok, s)),
        fitting(p, s.frames, closed(types_of(s.env)), SValue::Bool(ok)),
{
    types_closed(s.env);
    assert(claim(p, e, closed(types_of(s.env)), SValue::Bool(ok)));
    if slot_of(e, Step::Log) is Some {
        slot_args_held(p, k, all, e, Step::Log, ok, Seq::empty(), s);
    }
}

proof fn slot_done_held(
    p: Program,
    k: Known,
    all: EffectSet,
    e: Expr,
    st: Step,
    ok: bool,
    v: SValue,
    s: SState,
)
    requires
        closed_under(p, k),
        e is Transact,
        types_of(s.env) == slot_scope(p, e, st, closed(types_of(s.env))),
        waits(p, k, all, s.frames, closed(types_of(s.env))),
        expr_held(p, k, all, s.frames, e, closed(types_of(s.env))),
    ensures
        held_within(p, k, all, slot_done(p, e, st, ok, v, s)),
{
    let t = types_of(s.env);
    types_closed(s.env);
    match st {
        Step::Network => {
            if let Some(slot) = slot_of(e, Step::Network) {
                if let Some(i) = fn_named(p, slot.name@) {
                    let b = (v, p.fns@[i].ret@);
                    types_defined(s.env, "network"@, b);
                    closed_defined(t, "network"@, b.1);
                    let w = SState { env: defined(s.env, "network"@, b), ..s };
                    slot_args_held(p, k, all, e, Step::Verify, ok, Seq::empty(), w);
                }
            }
        }
        Step::Verify => {
            let b = (v, STy::Bool);
            types_defined(s.env, "verify"@, b);
            closed_defined(t, "verify"@, b.1);
            let w = SState { env: defined(s.env, "verify"@, b), ..s };
            slot_args_held(p, k, all, e, Step::Commit, true, Seq::empty(), w);
            slot_args_held(p, k, all, e, Step::Compensate, false, Seq::empty(), w);
            log_held(p, k, all, e, false, w);
        }
        _ => log_held(p, k, all, e, ok, s),
    }
}

/// A builtin asks for what it is known to do.
proof fn builtin_held(b: Builtin, vals: Seq<SValue>, r: Option<u64>, span: Span)
    ensures
        builtin_call(b, vals, r, span).0 matches SAct::Ask(q) ==> within(effect_of(q), of_builtin(b)),
        vals.len() == 0 ==> (builtin_call(b, vals, r, span).0 matches SAct::Done(SOutcome::Val(v))
            ==> no_handle(v)),
{
}

/// Arithmetic has no effect, and gives no handle.
proof fn binary_held(op: crate::ast::BinOp, a: SValue, b: SValue, span: Span)
    ensures
        crate::arith::binary(op, a, b, span) matches SAct::Ask(q) ==> effect_of(q) == no_effect(),
        crate::arith::binary(op, a, b, span) matches SAct::Done(SOutcome::Val(v)) ==> no_handle(v),
{
}

proof fn fit_all_at(p: Program, v: Seq<SValue>, t: STy, i: int)
    requires
        fit_all(p, v, t, Span { line: 1, col: 1 }) is Fine,
        0 <= i < v.len(),
    ensures
        of_type(p, v[i], t),
    decreases v,
{
    if i < v.len() - 1 {
        fit_all_at(p, v.drop_last(), t, i);
    }
}

proof fn field_is_there(v: Seq<crate::ast::Field>, name: Seq<char>, i: int)
    requires
        0 <= i,
    ensures
        field_from(v, name, i) matches Some(k) ==> 0 <= k < v.len(),
    decreases v.len() - i,
{
    if i < v.len() {
        field_is_there(v, name, i + 1);
    }
}

/// A part of a value of a type is of the type of that part.
proof fn part_typed(p: Program, e: Expr, sc: Types, vals: Seq<SValue>, s: SState)
    requires
        e is Deref || e is FieldAccess || e is Index,
        sure(p, e),
        part_of(e) matches Some(a) && claim(p, a, sc, vals[0]),
    ensures
        apply(p, e, vals, s).ctrl matches SCtrl::Ret(x) ==> of_type(p, x, type_of(p, e, sc)),
{
    let w = vals[0];
    match e {
        Expr::FieldAccess(a, name, _) => {
            if let SValue::Struct(n, f) = w {
                if let Some(i) = struct_named(p, n) {
                    let d = p.structs@[i];
                    field_is_there(d.fields@, name@, 0);
                    if let Some(k) = crate::registry::field_named(d, name@) {
                        if k < f.len() {
                            fit_each_at(p, f, field_types(d.fields@), Span { line: 1, col: 1 }, k);
                        }
                    }
                }
            }
        }
        Expr::Index(a, _, span) => {
            if vals.len() >= 2 {
                match w {
                    SValue::Vector(v) => {
                        if let SValue::Int(i) = vals[1] {
                            if 0 <= i < v.len() {
                                fit_all_at(p, v, crate::typing::element_type(type_of(p, *a, sc)), i as int);
                            }
                        }
                    }
                    SValue::Matrix(v, rows, cols) => {
                        if vals.len() >= 3 {
                            if let (SValue::Int(r), SValue::Int(c)) = (vals[1], vals[2]) {
                                if 0 <= r < rows && 0 <= c < cols && r * cols + c < v.len() {
                                    assert(0 <= r * cols + c) by (nonlinear_arith)
                                        requires
                                            0 <= r,
                                            0 <= c,
                                            0 <= cols,
                                    ;
                                    fit_all_at(
                                        p,
                                        v,
                                        crate::typing::element_type(type_of(p, *a, sc)),
                                        r * cols + c,
                                    );
                                }
                            }
                        }
                    }
                    _ => {}
                }
            }
        }
        _ => {}
    }
}

proof fn apply_held(p: Program, k: Known, all: EffectSet, e: Expr, vals: Seq<SValue>, s: SState)
    requires
        closed_under(p, k),
        waits(p, k, all, s.frames, types_of(s.env)),
        expr_held(p, k, all, s.frames, e, types_of(s.env)),
        part_of(e) matches Some(a) ==> claim(p, a, types_of(s.env), vals[0]),
        takes_part(e) && !sure(p, e) ==> (apply(p, e, vals, s).ctrl matches SCtrl::Ret(x)
            ==> uses_within(p, e, types_of(s.env), x)),
    ensures
        held_within(p, k, all, apply(p, e, vals, s)),
{
    let t = types_of(s.env);
    let r = apply(p, e, vals, s);
    match e {
        Expr::Assign(name, _, span) => {
            types_lookup(s.env, name@);
            if let Some(b) = lookup(s.env, name@) {
                types_assigned(s.env, name@, vals[0], b.1);
                fits_anywhere(p, vals[0], b.1, span, Span { line: 1, col: 1 });
                if fits(p, vals[0], b.1, span) is Fine {
                    sure_claim(p, e, t, vals[0]);
                }
            }
        }
        Expr::Call(name, _, span) => {
            assert(within(calling(name@, k), all));
            match builtin_named(name@) {
                Some(b) => {
                    builtin_held(b, vals, s.rng, span);
                    if let SCtrl::Ret(x) = r.ctrl {
                        assert(claim(p, e, t, x));
                    }
                }
                None => {
                    if sure(p, e) {
                        if let Some(i) = fn_named(p, name@) {
                            assert forall|v: SValue| #[trigger] of_type(p, v, p.fns@[i].ret@) implies fitting(
                                p,
                                s.frames,
                                t,
                                v,
                            ) by {
                                sure_claim(p, e, t, v);
                            }
                        }
                        enter_held(p, k, all, name@, vals, span, s);
                    } else if let SCtrl::Ret(x) = r.ctrl {
                        assert(claim(p, e, t, x));
                    }
                }
            }
        }
        Expr::Binary(op, _, _, span) => {
            binary_held(op, vals[0], vals[1], span);
            if let SCtrl::Ret(x) = r.ctrl {
                assert(claim(p, e, t, x));
            }
        }
        Expr::Deref(..) | Expr::FieldAccess(..) | Expr::Index(..) => {
            if let SCtrl::Ret(x) = r.ctrl {
                if sure(p, e) {
                    part_typed(p, e, t, vals, s);
                    sure_claim(p, e, t, x);
                } else {
                    assert(claim(p, e, t, x));
                }
            }
        }
        Expr::Unary(..) | Expr::Box(..) | Expr::Ref(..) | Expr::ArrayLit(..) => {
            if let SCtrl::Ret(x) = r.ctrl {
                assert(no_handle(x));
                assert(claim(p, e, t, x));
            }
        }
        _ => {}
    }
}

proof fn operand_held(p: Program, k: Known, e: Expr, done: Seq<SValue>, sc: Types)
    requires
        wanted(e, done) matches Some(n) && done.len() < n,
    ensures
        within(of_expr(p, operand(e, done.len() as int), sc, k), of_expr(p, e, sc, k)),
        done.len() == 0 ==> (part_of(e) matches Some(a) ==> operand(e, 0) == a),
{
    match e {
        Expr::Call(_, args, _)
        | Expr::Spawn(_, args, _)
        | Expr::SpawnSandbox(_, args, _)
        | Expr::ArrayLit(args, _) => one_of(p, args@, done.len() as int, sc, k),
        Expr::Index(_, args, _) => {
            if done.len() > 0 {
                one_of(p, args@, done.len() - 1, sc, k);
            }
        }
        _ => {}
    }
}

proof fn operands_held(p: Program, k: Known, all: EffectSet, e: Expr, done: Seq<SValue>, s: SState)
    requires
        closed_under(p, k),
        waits(p, k, all, s.frames, types_of(s.env)),
        expr_held(p, k, all, s.frames, e, types_of(s.env)),
        done.len() > 0 ==> (part_of(e) matches Some(a) ==> claim(p, a, types_of(s.env), done[0])),
        takes_part(e) && !sure(p, e) ==> (operands(p, e, done, s).ctrl matches SCtrl::Ret(x)
            ==> uses_within(p, e, types_of(s.env), x)),
    ensures
        held_within(p, k, all, operands(p, e, done, s)),
{
    let t = types_of(s.env);
    if let Some(n) = wanted(e, done) {
        if done.len() < n {
            let f = SFrame::Args(e, done);
            operand_held(p, k, e, done, t);
            waits_push(p, k, all, s.frames, f, t);
            let a = operand(e, done.len() as int);
            assert(hosts(p, s.frames.push(f), t, a, t));
        } else {
            apply_held(p, k, all, e, done, s);
        }
    }
}

proof fn eval_held(p: Program, k: Known, all: EffectSet, e: Expr, s: SState)
    requires
        closed_under(p, k),
        typed(p, s.env),
        held_within(p, k, all, s),
        s.ctrl == SCtrl::Eval(e),
    ensures
        held_within(p, k, all, eval(p, e, s)),
{
    let t = types_of(s.env);
    match e {
        Expr::Binary(op, _, _, _) => {
            if op == crate::ast::BinOp::And || op == crate::ast::BinOp::Or {
                waits_push(p, k, all, s.frames, SFrame::Logic(e), t);
            } else {
                operands_held(p, k, all, e, Seq::empty(), s);
            }
        }
        Expr::If { .. } => waits_push(p, k, all, s.frames, SFrame::Cond(e), t),
        Expr::Match { .. } => waits_push(p, k, all, s.frames, SFrame::Scrutinee(e), t),
        Expr::Transact { .. } => {
            types_opened(s.env);
            closed_opened(t);
            let w = SState { env: opened(s.env), ..s };
            slot_args_held(p, k, all, e, Step::Network, false, Seq::empty(), w);
        }
        Expr::Ident(name, _) => {
            reads_are_typed(p, s.env, name@);
            types_lookup(s.env, name@);
            if let Some(b) = lookup(s.env, name@) {
                sure_claim(p, e, t, b.0);
            }
        }
        Expr::Int(..) | Expr::Float(..) | Expr::Bool(..) | Expr::Str(..) | Expr::Chan(_) => {
            if let SCtrl::Ret(x) = eval(p, e, s).ctrl {
                assert(claim(p, e, t, x));
            }
        }
        Expr::Call(name, args, span) => {
            if args@.len() == 0 {
                if let Some(b) = builtin_named(name@) {
                    builtin_held(b, Seq::empty(), s.rng, span);
                }
            }
            operands_held(p, k, all, e, Seq::empty(), s);
        }
        _ => operands_held(p, k, all, e, Seq::empty(), s),
    }
}

/// What is left of a block behind its next statement.
proof fn ends_next(p: Program, fs: Seq<SFrame>, t: Types, v: Seq<Stmt>, i: int)
    requires
        0 <= i < v.len() - 1,
        block_top(fs),
        ends(p, fs, t, v.skip(i)),
    ensures
        ends(p, fs, after_stmt(v[i], t), v.skip(i + 1)),
{
    let w = v.skip(i);
    let u = v.skip(i + 1);
    let t2 = after_stmt(v[i], t);
    assert(w.last() == u.last());
    assert(w.drop_last().skip(1) =~= u.drop_last());
    assert(w.drop_last()[0] == v[i]);
    after_first(w.drop_last(), t);
    assert forall|x: SValue| fitting(p, fs, t, x) implies #[trigger] fitting(p, fs, t2, x) by {
        if let Stmt::Let { name, ty, .. } = v[i] {
            fitting_defined(p, fs, t, name@, ty@, x);
        }
    }
    if let Stmt::Expr(e) = w.last() {
        let sc = after_stmts(w.drop_last(), t);
        assert(sc == after_stmts(u.drop_last(), t2));
        assert forall|x: SValue| #[trigger] claim(p, e, sc, x) implies fitting(p, fs, t2, x) by {
            assert(fitting(p, fs, t, x));
        }
    }
}

proof fn after_first(w: Seq<Stmt>, sc: Types)
    requires
        w.len() > 0,
    ensures
        after_stmts(w, sc) == after_stmts(w.skip(1), after_stmt(w[0], sc)),
    decreases w.len(),
{
    let init = w.drop_last();
    if w.len() == 1 {
        assert(init =~= Seq::empty());
        assert(w.skip(1) =~= Seq::empty());
        assert(after_stmts(init, sc) == sc);
    } else {
        after_first(init, sc);
        assert(init[0] == w[0]);
        assert(w.skip(1).drop_last() =~= init.skip(1));
        assert(w.skip(1).last() == w.last());
    }
}

/// Goes on behind a statement that is no expression.
proof fn block_next(
    p: Program,
    k: Known,
    all: EffectSet,
    fs: Seq<SFrame>,
    v: Seq<Stmt>,
    i: int,
    t: Types,
)
    requires
        block_held(p, k, all, fs, v, i, t),
    ensures
        i + 1 < v.len() ==> block_held(p, k, all, fs, v, i + 1, after_stmt(v[i], t)),
        i + 1 == v.len() && !(v[i] is Expr) ==> fitting(p, fs, after_stmt(v[i], t), SValue::Unit),
{
    next_then_rest(p, v, i, t, k);
    if i + 1 < v.len() {
        ends_next(p, fs, t, v, i);
    } else {
        assert(v.skip(i).last() == v[i]);
        if let Stmt::Let { name, ty, .. } = v[i] {
            fitting_defined(p, fs, t, name@, ty@, SValue::Unit);
        }
    }
}

/// Starts a block in a scope of its own.
proof fn block_starts(
    p: Program,
    k: Known,
    all: EffectSet,
    fs: Seq<SFrame>,
    f: SFrame,
    v: Seq<Stmt>,
    s: SState,
)
    requires
        f is Scope || f is Loop || f is Audited,
        frame_held(p, k, all, fs, f, opened(types_of(s.env))),
        waits(p, k, all, fs, types_of(s.env)),
        within(of_stmts(p, v, opened(types_of(s.env)), k), all),
        f is Scope ==> ends(p, fs.push(f), opened(types_of(s.env)), v) && (v.len() == 0 ==> fitting(
            p,
            fs,
            types_of(s.env),
            SValue::Unit,
        )),
        s.frames == fs.push(f),
    ensures
        held_within(p, k, all, crate::machine::block(v, s)),
{
    let t = types_of(s.env);
    types_opened(s.env);
    closed_opened(t);
    waits_push(p, k, all, fs, f, opened(t));
    assert(v.skip(0) =~= v);
}

proof fn run_held(p: Program, k: Known, all: EffectSet, v: Seq<Stmt>, i: int, last: SValue, s: SState)
    requires
        held_within(p, k, all, s),
        s.ctrl == SCtrl::Run(v, i, last),
    ensures
        held_within(p, k, all, run(p, v, i, last, s)),
{
    let t = types_of(s.env);
    if i != v.len() {
        next_then_rest(p, v, i, t, k);
        let f = SFrame::Stmt(v, i);
        waits_push(p, k, all, s.frames, f, t);
        match v[i] {
            Stmt::Audited { body, .. } => {
                closed_opened(t);
                let g = SFrame::Audited(v, i);
                let w = SState { frames: s.frames.push(g), ..s };
                block_starts(p, k, all, s.frames, g, body@, w);
            }
            Stmt::Expr(e) => {
                assert(v.skip(i).last() == v[v.len() - 1]);
                if i + 1 == v.len() {
                    assert(v.skip(i).drop_last() =~= Seq::empty());
                    assert(after_stmts(v.skip(i).drop_last(), t) == t);
                }
                assert(hosts(p, s.frames.push(f), t, e, t));
            }
            Stmt::Let { value, .. } => {
                assert(hosts(p, s.frames.push(f), t, value, t));
            }
            Stmt::While { cond, .. } => {
                assert(hosts(p, s.frames.push(f), t, cond, t));
            }
            Stmt::Return { value, .. } => {
                match value {
                    Some(e) => {
                        assert(hosts(p, s.frames.push(f), t, e, t));
                    }
                    None => {
                        let r = run(p, v, i, last, s);
                        assert(r.frames == s.frames);
                        assert(waits(p, k, all, r.frames, t));
                        assert(held_within(p, k, all, r));
                    }
                }
            }
        }
    }
}

proof fn stmt_value_held(
    p: Program,
    k: Known,
    all: EffectSet,
    v: Seq<Stmt>,
    i: int,
    x: SValue,
    s: SState,
)
    requires
        waits(p, k, all, s.frames, types_of(s.env)),
        block_held(p, k, all, s.frames, v, i, types_of(s.env)),
        i + 1 == v.len() && v[i] is Expr ==> fitting(p, s.frames, types_of(s.env), x),
    ensures
        held_within(p, k, all, stmt_value(p, v, i, x, s)),
{
    let t = types_of(s.env);
    next_then_rest(p, v, i, t, k);
    block_next(p, k, all, s.frames, v, i, t);
    match v[i] {
        Stmt::Let { name, ty, .. } => {
            types_defined(s.env, name@, (x, ty@));
            waits_defined(p, k, all, s.frames, t, name@, ty@);
        }
        Stmt::While { body, .. } => {
            closed_opened(t);
            let g = SFrame::Loop(v, i);
            let w = SState { frames: s.frames.push(g), ..s };
            block_starts(p, k, all, s.frames, g, body.stmts@, w);
        }
        Stmt::Return { .. } => {
            let r = stmt_value(p, v, i, x, s);
            assert(r.frames == s.frames);
            assert(waits(p, k, all, r.frames, t));
            assert(held_within(p, k, all, r));
        }
        _ => {}
    }
}

proof fn arm_is(arms: Seq<MatchArm>, variant: Seq<char>, i: int)
    requires
        0 <= i,
    ensures
        arm_for(arms, variant, i) matches Some(j) ==> 0 <= j < arms.len() && arms[j].variant@
            == variant,
    decreases arms.len() - i,
{
    if i < arms.len() {
        arm_is(arms, variant, i + 1);
    }
}

proof fn arm_used(p: Program, v: Seq<MatchArm>, i: int, sc: Types, stop: bool)
    requires
        0 <= i < v.len(),
    ensures
        within(
            used(p, *v[i].body, arm_scopes(p, v[i], sc), stop),
            used_arms(p, v, sc, stop),
        ),
    decreases v.len(),
{
    if i < v.len() - 1 {
        arm_used(p, v.drop_last(), i, sc, stop);
        assert(v.drop_last()[i] == v[i]);
    }
}

proof fn choose_arm_held(p: Program, k: Known, all: EffectSet, e: Expr, v: SValue, s: SState)
    requires
        waits(p, k, all, s.frames, types_of(s.env)),
        expr_held(p, k, all, s.frames, e, types_of(s.env)),
        v matches SValue::Enum(_, variant, payload) ==> (variant_named(p, variant) matches Some(ij)
            ==> payload.len() == p.enums@[ij.0].variants@[ij.1].payload@.len()),
    ensures
        held_within(p, k, all, choose_arm(p, e, v, s)),
{
    let t = types_of(s.env);
    if let (Expr::Match { arms, .. }, SValue::Enum(_, variant, payload)) = (e, v) {
        arm_is(arms@, variant, 0);
        if let Some(i) = arm_for(arms@, variant, 0) {
            if let Some(ij) = variant_named(p, variant) {
                let types = p.enums@[ij.0].variants@[ij.1].payload@;
                let names = arms@[i].bindings@;
                let n = least3(names.len(), payload.len(), types.len());
                arm_of(p, arms@, i, t, k);
                types_arm(s.env, names, payload, types, n);
                bound_closes(opened(t), names, types, n);
                closed_opened(t);
                let inner = types_of(arm_env(s.env, names, payload, types, n));
                assert(inner == arm_scopes(p, arms@[i], t));
                let f = SFrame::Scope;
                waits_push(p, k, all, s.frames, f, inner);
                let b = *arms@[i].body;
                arm_used(p, arms@, i, t, false);
                arm_used(p, arms@, i, t, true);
                assert forall|x: SValue| #[trigger] claim(p, b, inner, x) implies fitting(
                    p,
                    s.frames.push(f),
                    inner,
                    x,
                ) by {
                    assert(claim(p, e, t, x));
                }
            }
        }
    }
}

proof fn bound_closes(t: Types, names: Seq<String>, types: Seq<Ty>, n: nat)
    ensures
        closed(bound(t, names, types, n)) == closed(t),
    decreases n,
{
    if n > 0 {
        bound_closes(t, names, types, (n - 1) as nat);
        closed_defined(bound(t, names, types, (n - 1) as nat), names[n - 1]@, types[n - 1]@);
    }
}

/// A branch of an `if`: its value is the value of the `if`.
proof fn branch_held(
    p: Program,
    k: Known,
    all: EffectSet,
    e: Expr,
    v: Seq<Stmt>,
    s: SState,
)
    requires
        waits(p, k, all, s.frames, types_of(s.env)),
        expr_held(p, k, all, s.frames, e, types_of(s.env)),
        e is If,
        within(of_stmts(p, v, opened(types_of(s.env)), k), all),
        within(
            used_block(p, v, opened(types_of(s.env)), false),
            used(p, e, types_of(s.env), false),
        ),
        within(used_block(p, v, opened(types_of(s.env)), true), used(p, e, types_of(s.env), true)),
    ensures
        held_within(
            p,
            k,
            all,
            crate::machine::block(v, SState { frames: s.frames.push(SFrame::Scope), ..s }),
        ),
{
    let t = types_of(s.env);
    let f = SFrame::Scope;
    let g = s.frames.push(f);
    let w = SState { frames: g, ..s };
    closed_opened(t);
    waits_push(p, k, all, s.frames, f, opened(t));
    assert(claim(p, e, t, SValue::Unit));
    if v.len() > 0 {
        if let Stmt::Expr(b) = v.last() {
            let sc = after_stmts(v.drop_last(), opened(t));
            reveal_with_fuel(used_block, 2);
            assert forall|x: SValue| #[trigger] claim(p, b, sc, x) implies fitting(
                p,
                g,
                opened(t),
                x,
            ) by {
                assert(claim(p, e, t, x));
            }
        }
    }
    block_starts(p, k, all, s.frames, f, v, w);
}

proof fn cond_held(p: Program, k: Known, all: EffectSet, e: Expr, v: SValue, s: SState)
    requires
        waits(p, k, all, s.frames, types_of(s.env)),
        expr_held(p, k, all, s.frames, e, types_of(s.env)),
    ensures
        held_within(p, k, all, crate::machine::give(p, SFrame::Cond(e), v, s)),
{
    let t = types_of(s.env);
    if let Expr::If { then_block, else_block, .. } = e {
        if v == SValue::Bool(true) {
            branch_held(p, k, all, e, then_block.stmts@, s);
        } else if let Some(x) = else_block {
            assert(within(of_else(p, *x, t, k), of_expr(p, e, t, k)));
            assert(within(used_else(p, *x, t, false), used(p, e, t, false)));
            assert(within(used_else(p, *x, t, true), used(p, e, t, true)));
            reveal_with_fuel(of_else, 2);
            reveal_with_fuel(used_else, 2);
            match *x {
                ElseBranch::Block(y) => branch_held(p, k, all, e, y.stmts@, s),
                ElseBranch::If(y) => {
                    assert forall|u: SValue| #[trigger] claim(p, y, t, u) implies fitting(
                        p,
                        s.frames,
                        t,
                        u,
                    ) by {
                        assert(claim(p, e, t, u));
                    }
                }
            }
        } else {
            assert(claim(p, e, t, SValue::Unit));
        }
    }
}

proof fn give_held(p: Program, k: Known, all: EffectSet, v: SValue, s: SState)
    requires
        closed_under(p, k),
        held_within(p, k, all, s),
        s.ctrl == SCtrl::Ret(v),
        s.frames.len() > 0,
        !odd_part(p, s),
        !odd_match(p, s),
    ensures
        held_within(p, k, all, step(p, s)),
{
    let t = types_of(s.env);
    let f = s.frames.last();
    let rest = SState { frames: s.frames.drop_last(), ..s };
    types_closed(s.env);
    match f {
        SFrame::Args(e, done) => {
            assert(done.len() > 0 ==> done.push(v)[0] == done[0]);
            assert(done.len() == 0 ==> done.push(v)[0] == v);
            if crate::machine::rejects(e, done.len() as int, v) is None {
                operands_held(p, k, all, e, done.push(v), rest);
            }
        }
        SFrame::Logic(e) => {
            if let Expr::Binary(..) = e {
                waits_push(p, k, all, rest.frames, SFrame::LogicRight(e), t);
                if v is Bool {
                    assert(claim(p, e, t, v));
                }
            }
        }
        SFrame::LogicRight(e) => {
            if v is Bool {
                assert(claim(p, e, t, v));
            }
        }
        SFrame::Cond(e) => cond_held(p, k, all, e, v, rest),
        SFrame::Scrutinee(e) => choose_arm_held(p, k, all, e, v, rest),
        SFrame::Stmt(w, i) => stmt_value_held(p, k, all, w, i, v, rest),
        SFrame::Loop(w, i) => {
            let u = closed(t);
            next_then_rest(p, w, i, u, k);
            let g = SFrame::Stmt(w, i);
            waits_push(p, k, all, rest.frames, g, u);
            if let Stmt::While { cond, .. } = w[i] {
                assert(hosts(p, rest.frames.push(g), u, cond, u));
            }
        }
        SFrame::Audited(w, i) => block_next(p, k, all, rest.frames, w, i, closed(t)),
        SFrame::SlotArgs(e, st, ok, done) => {
            slot_args_held(p, k, all, e, st, ok, done.push(v), rest);
        }
        SFrame::Slot(e, st, ok) => slot_done_held(p, k, all, e, st, ok, v, rest),
        SFrame::Call(i, _, env) => {
            if p.fns@[i].ret@ == STy::Unit {
                assert(of_type(p, SValue::Unit, p.fns@[i].ret@));
            }
        }
        SFrame::Scope => {}
    }
}

/// A step stays within the effects, with what it does to handles.
pub proof fn steps_handle_within(p: Program, k: Known, all: EffectSet, s: SState)
    requires
        closed_under(p, k),
        state_typed(p, s),
        held_within(p, k, all, s),
        !odd_part(p, s),
        !odd_match(p, s),
    ensures
        held_within(p, k, all, step(p, s)),
        state_typed(p, step(p, s)),
{
    steps_keep_types(p, s);
    match s.ctrl {
        SCtrl::Eval(e) => eval_held(p, k, all, e, s),
        SCtrl::Run(v, i, last) => run_held(p, k, all, v, i, last, s),
        SCtrl::Ret(v) => {
            if s.frames.len() > 0 {
                give_held(p, k, all, v, s);
            }
        }
        SCtrl::Unwind(v) => {
            if s.frames.len() > 0 {
                let u = choose|u: Types| waits(p, k, all, s.frames, u);
                let rest = s.frames.drop_last();
                assert(waits(p, k, all, rest, under(s.frames.last(), u)));
                if let SFrame::Call(i, span, _) = s.frames.last() {
                    fits_anywhere(p, v, p.fns@[i].ret@, span, Span { line: 1, col: 1 });
                    if fits(p, v, p.fns@[i].ret@, span) is Fine {
                        assert(of_type(p, v, p.fns@[i].ret@));
                    }
                }
            }
        }
        _ => {}
    }
}

/// An answer that is of the kind that is waited for changes nothing of what is left
/// to do.
pub proof fn answers_handle_within(p: Program, k: Known, all: EffectSet, s: SState, a: SResponse)
    requires
        state_typed(p, s),
        held_within(p, k, all, s),
        s.ctrl matches SCtrl::Ask(r, span) ==> (settled(r, a, span) matches SOutcome::Val(v)
            ==> fitting(p, s.frames, types_of(s.env), v)),
    ensures
        held_within(p, k, all, answered(s, a)),
        state_typed(p, answered(s, a)),
{
    answers_keep_types(p, s, a);
}

/// A call of a function starts within the inferred effects of that function.
pub proof fn calls_handle_within(
    p: Program,
    k: Known,
    name: Seq<char>,
    vals: Seq<SValue>,
    span: Span,
)
    requires
        closed_under(p, k),
    ensures
        held_within(p, k, k(name), begun(p, name, vals, span)),
        state_typed(p, begun(p, name, vals, span)),
{
    let s = SState { ctrl: SCtrl::Stuck, frames: Seq::empty(), env: Seq::empty(), rng: None };
    enter_held(p, k, k(name), name, vals, span, s);
    calls_start_typed(p, name, vals, span);
}

/// A run asks for nothing, not even of a handle, that the inferred effects of its
/// function do not allow: with no `network` nothing is sent over a connection,
/// with no `io` no file is read or written, with no `concurrent` no channel is used.
/// What only a program with a type error does is left out: to take apart a value that
/// was not made as declared, or to find in a value made on the spot a handle of a kind
/// that its type does not have.
pub proof fn runs_handle_within_effects(p: Program, k: Known, all: EffectSet, s: SState, n: nat)
    requires
        closed_under(p, k),
        state_typed(p, s),
        held_within(p, k, all, s),
        forall|j: nat|
            j < n ==> !odd_part(p, #[trigger] steps(p, s, j)) && !odd_match(p, steps(p, s, j)),
    ensures
        held_within(p, k, all, steps(p, s, n)),
        state_typed(p, steps(p, s, n)),
        steps(p, s, n).ctrl matches SCtrl::Ask(r, _) ==> within(effect_of(r), all),
    decreases n,
{
    if n > 0 {
        let m = (n - 1) as nat;
        runs_handle_within_effects(p, k, all, s, m);
        assert(!odd_part(p, steps(p, s, m)));
        steps_handle_within(p, k, all, steps(p, s, m));
    }
}

} // verus!
