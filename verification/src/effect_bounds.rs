//! What effects are for: a run asks only for what the inferred effects of its
//! function allow.
use crate::ast::{
    Block, EffectSet, ElseBranch, Expr, FnDecl, MatchArm, Program, STy, Stmt, TransactSlot,
};
use crate::builtin_eval::builtin_call;
use crate::builtins::builtin_named;
use crate::effects::{
    arm_scopes, both, calling, closed_under, concurrent, io, network, network_scope, no_effect, of_arms, of_builtin,
    of_else, of_expr, of_exprs, of_fn, of_slot, of_stmt, of_stmts, rng, within, Known, Types,
};
use crate::machine::{
    answered, apply, begun, choose_arm, enter, eval, give, log_step, operand, operands, run, slot_args,
    slot_done, slot_of, step, steps, stmt_value, wanted, SCtrl, SFrame, SState, Step,
};
use crate::registry::fn_named;
use crate::request::{SRequest, SResponse};
use crate::scopes::{defined, opened};
use crate::token::Span;
use crate::value::SValue;
use vstd::prelude::*;

verus! {

/// The effect of a request. What is sent, received or closed depends on the kind of
/// a handle and is left out here: see `handle_effects`.
pub open spec fn asked(r: SRequest) -> EffectSet {
    match r {
        SRequest::Print(_) | SRequest::Open(..) => io(),
        SRequest::Uniform(_) | SRequest::Gaussian { .. } => rng(),
        SRequest::Spawn { .. } | SRequest::Join(_) | SRequest::Sandbox { .. } => concurrent(),
        SRequest::Connect(..) | SRequest::Listen(_) | SRequest::Accept(_) => network(),
        _ => no_effect(),
    }
}

/// The effects of an expression, without those of handles.
pub open spec fn base(e: Expr, k: Known) -> EffectSet
    decreases e,
{
    match e {
        Expr::Int(..)
        | Expr::Float(..)
        | Expr::Bool(..)
        | Expr::Str(..)
        | Expr::Ident(..)
        | Expr::Chan(_) => no_effect(),
        Expr::Unary(_, a, _) => base(*a, k),
        Expr::Box(a, _) => base(*a, k),
        Expr::Deref(a, _) => base(*a, k),
        Expr::Ref(a, _) => base(*a, k),
        Expr::FieldAccess(a, _, _) => base(*a, k),
        Expr::Assign(_, a, _) => base(*a, k),
        Expr::Recv(a, _) => base(*a, k),
        Expr::StopSandbox(a, _) => base(*a, k),
        Expr::Binary(_, a, b, _) => both(base(*a, k), base(*b, k)),
        Expr::Send(a, b, _) => both(base(*a, k), base(*b, k)),
        Expr::Call(name, args, _) => both(base_all(args@, k), calling(name@, k)),
        Expr::If { cond, then_block, else_block, .. } => both(
            both(base(*cond, k), base_stmts(then_block.stmts@, k)),
            match else_block {
                Some(b) => base_else(*b, k),
                None => no_effect(),
            },
        ),
        Expr::Spawn(_, args, _) => both(concurrent(), base_all(args@, k)),
        Expr::SpawnSandbox(_, args, _) => both(concurrent(), base_all(args@, k)),
        Expr::Join(a, _) => both(concurrent(), base(*a, k)),
        Expr::Connect(a, b, _) => both(both(network(), base(*a, k)), base(*b, k)),
        Expr::Listen(a, _) => both(network(), base(*a, k)),
        Expr::Accept(a, _) => both(network(), base(*a, k)),
        Expr::Open(a, b, _) => both(both(io(), base(*a, k)), base(*b, k)),
        Expr::Index(a, args, _) => both(base(*a, k), base_all(args@, k)),
        Expr::ArrayLit(args, _) => base_all(args@, k),
        Expr::Transact { network, verify, commit, compensate, log, .. } => both(
            both(both(base_slot(network, k), base_slot(verify, k)), base_slot(commit, k)),
            both(
                match compensate {
                    Some(s) => base_slot(s, k),
                    None => no_effect(),
                },
                match log {
                    Some(s) => base_slot(s, k),
                    None => no_effect(),
                },
            ),
        ),
        Expr::Match { scrutinee, arms, .. } => both(base(*scrutinee, k), base_arms(arms@, k)),
    }
}

pub open spec fn base_all(v: Seq<Expr>, k: Known) -> EffectSet
    decreases v,
{
    if v.len() == 0 {
        no_effect()
    } else {
        both(base_all(v.drop_last(), k), base(v.last(), k))
    }
}

pub open spec fn base_slot(s: TransactSlot, k: Known) -> EffectSet
    decreases s,
{
    both(base_all(s.args@, k), k(s.name@))
}

pub open spec fn base_else(b: ElseBranch, k: Known) -> EffectSet
    decreases b,
{
    match b {
        ElseBranch::Block(b) => base_stmts(b.stmts@, k),
        ElseBranch::If(e) => base(e, k),
    }
}

pub open spec fn base_arms(v: Seq<MatchArm>, k: Known) -> EffectSet
    decreases v,
{
    if v.len() == 0 {
        no_effect()
    } else {
        both(base_arms(v.drop_last(), k), base(*v.last().body, k))
    }
}

pub open spec fn base_stmt(s: Stmt, k: Known) -> EffectSet
    decreases s,
{
    match s {
        Stmt::Let { value, .. } => base(value, k),
        Stmt::Return { value, .. } => match value {
            Some(e) => base(e, k),
            None => no_effect(),
        },
        Stmt::While { cond, body, .. } => both(base(cond, k), base_stmts(body.stmts@, k)),
        Stmt::Audited { body, .. } => base_stmts(body@, k),
        Stmt::Expr(e) => base(e, k),
    }
}

pub open spec fn base_stmts(v: Seq<Stmt>, k: Known) -> EffectSet
    decreases v,
{
    if v.len() == 0 {
        no_effect()
    } else {
        both(base_stmts(v.drop_last(), k), base_stmt(v.last(), k))
    }
}

/// Those are among the inferred effects, whatever the types of the names in scope.
proof fn base_inferred(p: Program, e: Expr, sc: Types, k: Known)
    ensures
        within(base(e, k), of_expr(p, e, sc, k)),
    decreases e,
{
    match e {
        Expr::Unary(_, a, _)
        | Expr::Box(a, _)
        | Expr::Deref(a, _)
        | Expr::Ref(a, _)
        | Expr::FieldAccess(a, _, _)
        | Expr::Assign(_, a, _)
        | Expr::Recv(a, _)
        | Expr::StopSandbox(a, _)
        | Expr::Join(a, _)
        | Expr::Listen(a, _)
        | Expr::Accept(a, _) => base_inferred(p, *a, sc, k),
        Expr::Binary(_, a, b, _)
        | Expr::Send(a, b, _)
        | Expr::Connect(a, b, _)
        | Expr::Open(a, b, _) => {
            base_inferred(p, *a, sc, k);
            base_inferred(p, *b, sc, k);
        }
        Expr::Call(_, args, _)
        | Expr::Spawn(_, args, _)
        | Expr::SpawnSandbox(_, args, _)
        | Expr::ArrayLit(args, _) => base_all_inferred(p, args@, sc, k),
        Expr::Index(a, args, _) => {
            base_inferred(p, *a, sc, k);
            base_all_inferred(p, args@, sc, k);
        }
        Expr::If { cond, then_block, else_block, .. } => {
            base_inferred(p, *cond, sc, k);
            base_stmts_inferred(p, then_block.stmts@, opened(sc), k);
            match else_block {
                Some(b) => base_else_inferred(p, *b, sc, k),
                None => {}
            }
        }
        Expr::Transact { network, verify, commit, compensate, log, .. } => {
            let called = network_scope(p, network.name@, opened(sc));
            let last = defined(called, "verify"@, STy::Bool);
            base_slot_inferred(p, network, opened(sc), k);
            base_slot_inferred(p, verify, called, k);
            base_slot_inferred(p, commit, last, k);
            match compensate {
                Some(s) => base_slot_inferred(p, s, last, k),
                None => {}
            }
            match log {
                Some(s) => base_slot_inferred(p, s, last, k),
                None => {}
            }
        }
        Expr::Match { scrutinee, arms, .. } => {
            base_inferred(p, *scrutinee, sc, k);
            base_arms_inferred(p, arms@, sc, k);
        }
        _ => {}
    }
}

proof fn base_all_inferred(p: Program, v: Seq<Expr>, sc: Types, k: Known)
    ensures
        within(base_all(v, k), of_exprs(p, v, sc, k)),
    decreases v,
{
    if v.len() > 0 {
        base_all_inferred(p, v.drop_last(), sc, k);
        base_inferred(p, v.last(), sc, k);
    }
}

proof fn base_slot_inferred(p: Program, s: TransactSlot, sc: Types, k: Known)
    ensures
        within(base_slot(s, k), of_slot(p, s, sc, k)),
    decreases s,
{
    base_all_inferred(p, s.args@, sc, k);
}

proof fn base_else_inferred(p: Program, b: ElseBranch, sc: Types, k: Known)
    ensures
        within(base_else(b, k), of_else(p, b, sc, k)),
    decreases b,
{
    match b {
        ElseBranch::Block(b) => base_stmts_inferred(p, b.stmts@, opened(sc), k),
        ElseBranch::If(e) => base_inferred(p, e, sc, k),
    }
}

proof fn base_arms_inferred(p: Program, v: Seq<MatchArm>, sc: Types, k: Known)
    ensures
        within(base_arms(v, k), of_arms(p, v, sc, k)),
    decreases v,
{
    if v.len() > 0 {
        base_arms_inferred(p, v.drop_last(), sc, k);
        base_inferred(p, *v.last().body, arm_scopes(p, v.last(), sc), k);
    }
}

proof fn base_stmt_inferred(p: Program, s: Stmt, sc: Types, k: Known)
    ensures
        within(base_stmt(s, k), of_stmt(p, s, sc, k)),
    decreases s,
{
    match s {
        Stmt::Let { value, .. } => base_inferred(p, value, sc, k),
        Stmt::Return { value, .. } => match value {
            Some(e) => base_inferred(p, e, sc, k),
            None => {}
        },
        Stmt::While { cond, body, .. } => {
            base_inferred(p, cond, sc, k);
            base_stmts_inferred(p, body.stmts@, opened(sc), k);
        }
        Stmt::Audited { body, .. } => base_stmts_inferred(p, body@, opened(sc), k),
        Stmt::Expr(e) => base_inferred(p, e, sc, k),
    }
}

proof fn base_stmts_inferred(p: Program, v: Seq<Stmt>, sc: Types, k: Known)
    ensures
        within(base_stmts(v, k), of_stmts(p, v, sc, k)),
    decreases v,
{
    if v.len() > 0 {
        base_stmts_inferred(p, v.drop_last(), sc, k);
        base_stmt_inferred(
            p,
            v.last(),
            crate::effects::after_stmts(v.drop_last(), sc),
            k,
        );
    }
}

proof fn base_one(v: Seq<Expr>, i: int, k: Known)
    requires
        0 <= i < v.len(),
    ensures
        within(base(v[i], k), base_all(v, k)),
    decreases v.len(),
{
    if i < v.len() - 1 {
        base_one(v.drop_last(), i, k);
        assert(v.drop_last()[i] == v[i]);
    }
}

proof fn base_one_stmt(v: Seq<Stmt>, i: int, k: Known)
    requires
        0 <= i < v.len(),
    ensures
        within(base_stmt(v[i], k), base_stmts(v, k)),
    decreases v.len(),
{
    if i < v.len() - 1 {
        base_one_stmt(v.drop_last(), i, k);
        assert(v.drop_last()[i] == v[i]);
    }
}

proof fn base_one_arm(v: Seq<MatchArm>, i: int, k: Known)
    requires
        0 <= i < v.len(),
    ensures
        within(base(*v[i].body, k), base_arms(v, k)),
    decreases v.len(),
{
    if i < v.len() - 1 {
        base_one_arm(v.drop_last(), i, k);
        assert(v.drop_last()[i] == v[i]);
    }
}

/// What waits does no more than `all`.
pub open spec fn frame_bound(f: SFrame, all: EffectSet, k: Known) -> bool {
    match f {
        SFrame::Args(e, _) => within(base(e, k), all),
        SFrame::Logic(e) => within(base(e, k), all),
        SFrame::LogicRight(e) => within(base(e, k), all),
        SFrame::Cond(e) => within(base(e, k), all),
        SFrame::Scrutinee(e) => within(base(e, k), all),
        SFrame::SlotArgs(e, _, _, _) => within(base(e, k), all),
        SFrame::Slot(e, _, _) => within(base(e, k), all),
        SFrame::Stmt(v, i) => 0 <= i < v.len() && within(base_stmts(v, k), all),
        SFrame::Loop(v, i) => 0 <= i < v.len() && within(base_stmts(v, k), all),
        SFrame::Audited(v, i) => 0 <= i < v.len() && within(base_stmts(v, k), all),
        SFrame::Scope | SFrame::Call(..) => true,
    }
}

pub open spec fn frames_bound(fs: Seq<SFrame>, all: EffectSet, k: Known) -> bool {
    forall|i: int| 0 <= i < fs.len() ==> frame_bound(#[trigger] fs[i], all, k)
}

pub open spec fn ctrl_bound(c: SCtrl, all: EffectSet, k: Known) -> bool {
    match c {
        SCtrl::Eval(e) => within(base(e, k), all),
        SCtrl::Run(v, i, _) => 0 <= i && within(base_stmts(v, k), all),
        SCtrl::Ask(r, _) => within(asked(r), all),
        _ => true,
    }
}

/// Whatever is left to do, it does no more than `all`.
pub open spec fn state_bound(s: SState, all: EffectSet, k: Known) -> bool {
    frames_bound(s.frames, all, k) && ctrl_bound(s.ctrl, all, k)
}

proof fn bound_push(fs: Seq<SFrame>, f: SFrame, all: EffectSet, k: Known)
    requires
        frames_bound(fs, all, k),
        frame_bound(f, all, k),
    ensures
        frames_bound(fs.push(f), all, k),
{
    let g = fs.push(f);
    assert forall|i: int| 0 <= i < g.len() implies frame_bound(#[trigger] g[i], all, k) by {
        if i < fs.len() {
            assert(g[i] == fs[i]);
        }
    }
}

proof fn bound_pop(fs: Seq<SFrame>, all: EffectSet, k: Known)
    requires
        frames_bound(fs, all, k),
        fs.len() > 0,
    ensures
        frames_bound(fs.drop_last(), all, k),
        frame_bound(fs.last(), all, k),
{
    let g = fs.drop_last();
    assert forall|i: int| 0 <= i < g.len() implies frame_bound(#[trigger] g[i], all, k) by {
        assert(g[i] == fs[i]);
    }
    assert(frame_bound(fs[fs.len() - 1], all, k));
}

/// A call does what its function does.
proof fn enter_bound(
    p: Program,
    k: Known,
    name: Seq<char>,
    vals: Seq<SValue>,
    span: Span,
    s: SState,
    all: EffectSet,
)
    requires
        closed_under(p, k),
        frames_bound(s.frames, all, k),
        within(k(name), all),
    ensures
        state_bound(enter(p, name, vals, span, s), all, k),
        enter(p, name, vals, span, s).rng == s.rng,
{
    match fn_named(p, name) {
        Some(i) => {
            fn_named_is(p.fns@, name, p.fns@.len() as int);
            let f = p.fns@[i];
            assert(within(of_fn(p, f, k), k(f.name@)));
            base_stmts_inferred(
                p,
                f.body.stmts@,
                crate::effects::param_scope(f, f.params@.len()),
                k,
            );
            bound_push(s.frames, SFrame::Call(i, span, s.env), all, k);
        }
        None => {}
    }
}

proof fn fn_named_is(fns: Seq<FnDecl>, name: Seq<char>, n: int)
    requires
        n <= fns.len(),
    ensures
        crate::registry::fn_below(fns, name, n) matches Some(i) ==> 0 <= i < fns.len()
            && fns[i].name@ == name,
    decreases n,
{
    if n > 0 && fns[n - 1].name@ != name {
        fn_named_is(fns, name, n - 1);
    }
}

proof fn slot_args_bound(
    p: Program,
    k: Known,
    e: Expr,
    st: Step,
    ok: bool,
    done: Seq<SValue>,
    s: SState,
    all: EffectSet,
)
    requires
        closed_under(p, k),
        frames_bound(s.frames, all, k),
        within(base(e, k), all),
    ensures
        state_bound(slot_args(p, e, st, ok, done, s), all, k),
        slot_args(p, e, st, ok, done, s).rng == s.rng,
{
    match slot_of(e, st) {
        Some(slot) => {
            slot_in(e, st, k);
            bound_push(s.frames, SFrame::SlotArgs(e, st, ok, done), all, k);
            bound_push(s.frames, SFrame::Slot(e, st, ok), all, k);
            if done.len() < slot.args@.len() {
                base_one(slot.args@, done.len() as int, k);
            }
            enter_bound(
                p,
                k,
                slot.name@,
                done,
                slot.span,
                SState { frames: s.frames.push(SFrame::Slot(e, st, ok)), ..s },
                all,
            );
        }
        None => {}
    }
}

proof fn slot_in(e: Expr, st: Step, k: Known)
    ensures
        slot_of(e, st) matches Some(slot) ==> within(base_all(slot.args@, k), base(e, k)) && within(
            k(slot.name@),
            base(e, k),
        ),
{
    match slot_of(e, st) {
        Some(slot) => {
            assert(within(base_slot(slot, k), base(e, k)));
            reveal_with_fuel(base_slot, 2);
            assert(base_slot(slot, k) == both(base_all(slot.args@, k), k(slot.name@)));
        }
        None => {}
    }
}

proof fn log_bound(p: Program, k: Known, e: Expr, ok: bool, s: SState, all: EffectSet)
    requires
        closed_under(p, k),
        frames_bound(s.frames, all, k),
        within(base(e, k), all),
    ensures
        state_bound(log_step(p, e, ok, s), all, k),
        log_step(p, e, ok, s).rng == s.rng,
{
    slot_args_bound(p, k, e, Step::Log, ok, Seq::empty(), s, all);
}

proof fn slot_done_bound(
    p: Program,
    k: Known,
    e: Expr,
    st: Step,
    ok: bool,
    v: SValue,
    s: SState,
    all: EffectSet,
)
    requires
        closed_under(p, k),
        frames_bound(s.frames, all, k),
        within(base(e, k), all),
    ensures
        state_bound(slot_done(p, e, st, ok, v, s), all, k),
        slot_done(p, e, st, ok, v, s).rng == s.rng,
{
    log_bound(p, k, e, ok, s, all);
    match st {
        Step::Network => match slot_of(e, Step::Network) {
            Some(slot) => match fn_named(p, slot.name@) {
                Some(i) => {
                    let t = SState {
                        env: crate::scopes::defined(s.env, "network"@, (v, p.fns@[i].ret@)),
                        ..s
                    };
                    slot_args_bound(p, k, e, Step::Verify, ok, Seq::empty(), t, all);
                }
                None => {}
            },
            None => {}
        },
        Step::Verify => {
            let t = SState {
                env: crate::scopes::defined(s.env, "verify"@, (v, crate::ast::STy::Bool)),
                ..s
            };
            slot_args_bound(p, k, e, Step::Commit, true, Seq::empty(), t, all);
            slot_args_bound(p, k, e, Step::Compensate, false, Seq::empty(), t, all);
            log_bound(p, k, e, false, t, all);
        }
        _ => {}
    }
}

/// A builtin asks for what it is known to do, and draws or seeds only where that is
/// its effect.
proof fn builtin_bound(b: crate::builtins::Builtin, vals: Seq<SValue>, r: Option<u64>, span: Span)
    ensures
        builtin_call(b, vals, r, span).0 matches crate::request::SAct::Ask(q) ==> within(
            asked(q),
            of_builtin(b),
        ),
        builtin_call(b, vals, r, span).1 != r ==> of_builtin(b).rng,
{
}

proof fn apply_bound(p: Program, k: Known, e: Expr, vals: Seq<SValue>, s: SState, all: EffectSet)
    requires
        closed_under(p, k),
        frames_bound(s.frames, all, k),
        within(base(e, k), all),
    ensures
        state_bound(apply(p, e, vals, s), all, k),
        apply(p, e, vals, s).rng != s.rng ==> all.rng,
{
    match e {
        Expr::Call(name, _, span) => {
            assert(within(calling(name@, k), all));
            match builtin_named(name@) {
                Some(b) => {
                    builtin_bound(b, vals, s.rng, span);
                }
                None => {
                    enter_bound(p, k, name@, vals, span, s, all);
                }
            }
        }
        Expr::Binary(op, _, _, span) => {
            binary_bound(op, vals[0], vals[1], span);
        }
        _ => {}
    }
}

/// Arithmetic has no effect.
proof fn binary_bound(op: crate::ast::BinOp, a: SValue, b: SValue, span: Span)
    ensures
        crate::arith::binary(op, a, b, span) matches crate::request::SAct::Ask(q) ==> asked(q)
            == no_effect(),
{
}

proof fn operand_bound(e: Expr, done: Seq<SValue>, k: Known)
    requires
        wanted(e, done) matches Some(n) && done.len() < n,
        !(e is Index) || done.len() <= 1 || done.len() == 2,
    ensures
        within(base(operand(e, done.len() as int), k), base(e, k)),
{
    match e {
        Expr::Call(_, args, _)
        | Expr::Spawn(_, args, _)
        | Expr::SpawnSandbox(_, args, _)
        | Expr::ArrayLit(args, _) => {
            base_one(args@, done.len() as int, k);
        }
        Expr::Index(_, args, _) => {
            if done.len() > 0 {
                base_one(args@, done.len() - 1, k);
            }
        }
        _ => {}
    }
}

proof fn operands_bound(p: Program, k: Known, e: Expr, done: Seq<SValue>, s: SState, all: EffectSet)
    requires
        closed_under(p, k),
        frames_bound(s.frames, all, k),
        within(base(e, k), all),
    ensures
        state_bound(operands(p, e, done, s), all, k),
        operands(p, e, done, s).rng != s.rng ==> all.rng,
{
    match wanted(e, done) {
        Some(n) => {
            if done.len() < n {
                operand_bound(e, done, k);
                bound_push(s.frames, SFrame::Args(e, done), all, k);
            } else {
                apply_bound(p, k, e, done, s, all);
            }
        }
        None => {}
    }
}

proof fn eval_bound(p: Program, k: Known, e: Expr, s: SState, all: EffectSet)
    requires
        closed_under(p, k),
        frames_bound(s.frames, all, k),
        within(base(e, k), all),
    ensures
        state_bound(eval(p, e, s), all, k),
        eval(p, e, s).rng != s.rng ==> all.rng,
{
    bound_push(s.frames, SFrame::Logic(e), all, k);
    bound_push(s.frames, SFrame::Cond(e), all, k);
    bound_push(s.frames, SFrame::Scrutinee(e), all, k);
    operands_bound(p, k, e, Seq::empty(), s, all);
    slot_args_bound(
        p,
        k,
        e,
        Step::Network,
        false,
        Seq::empty(),
        SState { env: opened(s.env), ..s },
        all,
    );
}

proof fn run_bound(
    p: Program,
    k: Known,
    v: Seq<Stmt>,
    i: int,
    last: SValue,
    s: SState,
    all: EffectSet,
)
    requires
        frames_bound(s.frames, all, k),
        within(base_stmts(v, k), all),
        0 <= i,
    ensures
        state_bound(run(p, v, i, last, s), all, k),
        run(p, v, i, last, s).rng == s.rng,
{
    if i < v.len() {
        base_one_stmt(v, i, k);
        bound_push(s.frames, SFrame::Stmt(v, i), all, k);
        bound_push(s.frames, SFrame::Audited(v, i), all, k);
        assert(within(base_stmt(v[i], k), all));
    }
}

proof fn stmt_value_bound(
    p: Program,
    k: Known,
    v: Seq<Stmt>,
    i: int,
    x: SValue,
    s: SState,
    all: EffectSet,
)
    requires
        frames_bound(s.frames, all, k),
        within(base_stmts(v, k), all),
        0 <= i < v.len(),
    ensures
        state_bound(stmt_value(p, v, i, x, s), all, k),
        stmt_value(p, v, i, x, s).rng == s.rng,
{
    base_one_stmt(v, i, k);
    bound_push(s.frames, SFrame::Loop(v, i), all, k);
    assert(within(base_stmt(v[i], k), all));
}

proof fn choose_arm_bound(p: Program, k: Known, e: Expr, v: SValue, s: SState, all: EffectSet)
    requires
        frames_bound(s.frames, all, k),
        within(base(e, k), all),
    ensures
        state_bound(choose_arm(p, e, v, s), all, k),
        choose_arm(p, e, v, s).rng == s.rng,
{
    bound_push(s.frames, SFrame::Scope, all, k);
    match (e, v) {
        (Expr::Match { arms, .. }, SValue::Enum(_, variant, _)) => {
            arm_in(arms@, variant, 0);
            match crate::machine::arm_for(arms@, variant, 0) {
                Some(i) => {
                    base_one_arm(arms@, i, k);
                }
                None => {}
            }
        }
        _ => {}
    }
}

proof fn arm_in(arms: Seq<MatchArm>, variant: Seq<char>, i: int)
    requires
        0 <= i,
    ensures
        crate::machine::arm_for(arms, variant, i) matches Some(j) ==> 0 <= j < arms.len(),
    decreases arms.len() - i,
{
    if i < arms.len() {
        arm_in(arms, variant, i + 1);
    }
}

proof fn give_bound(p: Program, k: Known, f: SFrame, v: SValue, s: SState, all: EffectSet)
    requires
        closed_under(p, k),
        frames_bound(s.frames, all, k),
        frame_bound(f, all, k),
    ensures
        state_bound(give(p, f, v, s), all, k),
        give(p, f, v, s).rng != s.rng ==> all.rng,
{
    match f {
        SFrame::Args(e, done) => {
            operands_bound(p, k, e, done.push(v), s, all);
        }
        SFrame::Logic(e) => {
            bound_push(s.frames, SFrame::LogicRight(e), all, k);
        }
        SFrame::Cond(e) => {
            bound_push(s.frames, SFrame::Scope, all, k);
            cond_parts(e, k);
        }
        SFrame::Scrutinee(e) => {
            choose_arm_bound(p, k, e, v, s, all);
        }
        SFrame::Stmt(w, i) => {
            stmt_value_bound(p, k, w, i, v, s, all);
        }
        SFrame::Loop(w, i) => {
            bound_push(s.frames, SFrame::Stmt(w, i), all, k);
            base_one_stmt(w, i, k);
            assert(within(base_stmt(w[i], k), all));
        }
        SFrame::SlotArgs(e, st, ok, done) => {
            slot_args_bound(p, k, e, st, ok, done.push(v), s, all);
        }
        SFrame::Slot(e, st, ok) => {
            slot_done_bound(p, k, e, st, ok, v, s, all);
        }
        _ => {}
    }
}

proof fn cond_parts(e: Expr, k: Known)
    ensures
        e matches Expr::If { then_block, else_block, .. } ==> {
            &&& within(base_stmts(then_block.stmts@, k), base(e, k))
            &&& match else_block {
                Some(x) => match *x {
                    ElseBranch::Block(b) => within(base_stmts(b.stmts@, k), base(e, k)),
                    ElseBranch::If(y) => within(base(y, k), base(e, k)),
                },
                None => true,
            }
        },
{
    match e {
        Expr::If { else_block, .. } => match else_block {
            Some(x) => {
                assert(within(base_else(*x, k), base(e, k)));
                reveal_with_fuel(base_else, 2);
            }
            None => {}
        },
        _ => {}
    }
}

/// Every step stays within the effects.
pub proof fn steps_stay_within(p: Program, k: Known, s: SState, all: EffectSet)
    requires
        closed_under(p, k),
        state_bound(s, all, k),
    ensures
        state_bound(step(p, s), all, k),
        step(p, s).rng != s.rng ==> all.rng,
{
    match s.ctrl {
        SCtrl::Eval(e) => {
            eval_bound(p, k, e, s, all);
        }
        SCtrl::Run(v, i, last) => {
            run_bound(p, k, v, i, last, s, all);
        }
        SCtrl::Ret(v) => {
            if s.frames.len() > 0 {
                bound_pop(s.frames, all, k);
                give_bound(
                    p,
                    k,
                    s.frames.last(),
                    v,
                    SState { frames: s.frames.drop_last(), ..s },
                    all,
                );
            }
        }
        SCtrl::Unwind(v) => {
            if s.frames.len() > 0 {
                bound_pop(s.frames, all, k);
            }
        }
        _ => {}
    }
}

/// An answer changes nothing of what is left to do.
pub proof fn answers_stay_within(k: Known, s: SState, a: SResponse, all: EffectSet)
    requires
        state_bound(s, all, k),
    ensures
        state_bound(answered(s, a), all, k),
        answered(s, a).rng == s.rng,
{
}

/// A call of a function starts within the inferred effects of that function.
pub proof fn calls_start_within(
    p: Program,
    k: Known,
    name: Seq<char>,
    vals: Seq<SValue>,
    span: Span,
)
    requires
        closed_under(p, k),
    ensures
        state_bound(begun(p, name, vals, span), k(name), k),
{
    let s = SState { ctrl: SCtrl::Stuck, frames: Seq::empty(), env: Seq::empty(), rng: None };
    enter_bound(p, k, name, vals, span, s, k(name));
}

/// A run asks only for what the inferred effects of its function allow: with no
/// `io` nothing is printed and no file is opened, with no `rng` nothing is drawn and
/// the generator is not touched, with no `concurrent` no thread or process is
/// started, and with no `network` no connection is made.
pub proof fn runs_stay_within_effects(
    p: Program,
    k: Known,
    s: SState,
    all: EffectSet,
    n: nat,
)
    requires
        closed_under(p, k),
        state_bound(s, all, k),
    ensures
        state_bound(steps(p, s, n), all, k),
        steps(p, s, n).ctrl matches SCtrl::Ask(r, _) ==> within(asked(r), all),
        !all.rng ==> steps(p, s, n).rng == s.rng,
    decreases n,
{
    if n > 0 {
        runs_stay_within_effects(p, k, s, all, (n - 1) as nat);
        steps_stay_within(p, k, steps(p, s, (n - 1) as nat), all);
    }
}

} // verus!
