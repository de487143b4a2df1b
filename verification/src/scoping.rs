//! What holds of every run: what waits does not change what is evaluated, scopes
//! are closed where they were opened, and the steps of a `transact` keep their
//! order.
use crate::ast::{Expr, Program, Stmt};
use crate::machine::{
    act, answered, apply, begun, choose_arm, enter, eval, give, log_step, operands, run,
    slot_args, slot_done, slot_of, step, steps, SCtrl, SEnv, SFrame, SState, Step,
};
use crate::request::SResponse;
use crate::scopes::{defined, opened};
use crate::token::Span;
use crate::value::SValue;
use vstd::prelude::*;

verus! {

/// The state with more that waits below what waits in it.
pub open spec fn under(s: SState, base: Seq<SFrame>) -> SState {
    SState { frames: base + s.frames, ..s }
}

/// Whether the next step is one of the part on top, and not of what waits for it.
pub open spec fn inside(s: SState) -> bool {
    s.frames.len() > 0 || !(s.ctrl is Ret || s.ctrl is Unwind)
}

proof fn under_push(base: Seq<SFrame>, fs: Seq<SFrame>, f: SFrame)
    ensures
        (base + fs).push(f) == base + fs.push(f),
{
    assert((base + fs).push(f) =~= base + fs.push(f));
}

proof fn enter_under(
    p: Program,
    name: Seq<char>,
    vals: Seq<SValue>,
    span: Span,
    s: SState,
    base: Seq<SFrame>,
)
    ensures
        enter(p, name, vals, span, under(s, base)) == under(enter(p, name, vals, span, s), base),
{
    assert forall|f: SFrame| #[trigger] (base + s.frames).push(f) == base + s.frames.push(f) by {
        under_push(base, s.frames, f);
    }
}

proof fn slot_args_under(
    p: Program,
    e: Expr,
    step: Step,
    ok: bool,
    done: Seq<SValue>,
    s: SState,
    base: Seq<SFrame>,
)
    ensures
        slot_args(p, e, step, ok, done, under(s, base)) == under(
            slot_args(p, e, step, ok, done, s),
            base,
        ),
{
    match slot_of(e, step) {
        None => {}
        Some(slot) => {
            under_push(base, s.frames, SFrame::SlotArgs(e, step, ok, done));
            under_push(base, s.frames, SFrame::Slot(e, step, ok));
            enter_under(
                p,
                slot.name@,
                done,
                slot.span,
                SState { frames: s.frames.push(SFrame::Slot(e, step, ok)), ..s },
                base,
            );
        }
    }
}

proof fn apply_under(p: Program, e: Expr, vals: Seq<SValue>, s: SState, base: Seq<SFrame>)
    ensures
        apply(p, e, vals, under(s, base)) == under(apply(p, e, vals, s), base),
{
    match e {
        Expr::Call(name, _, span) => {
            enter_under(p, name@, vals, span, s, base);
        }
        _ => {}
    }
}

proof fn operands_under(p: Program, e: Expr, done: Seq<SValue>, s: SState, base: Seq<SFrame>)
    ensures
        operands(p, e, done, under(s, base)) == under(operands(p, e, done, s), base),
{
    under_push(base, s.frames, SFrame::Args(e, done));
    apply_under(p, e, done, s, base);
}

proof fn eval_under(p: Program, e: Expr, s: SState, base: Seq<SFrame>)
    ensures
        eval(p, e, under(s, base)) == under(eval(p, e, s), base),
{
    under_push(base, s.frames, SFrame::Logic(e));
    under_push(base, s.frames, SFrame::Cond(e));
    under_push(base, s.frames, SFrame::Scrutinee(e));
    operands_under(p, e, Seq::empty(), s, base);
    slot_args_under(
        p,
        e,
        Step::Network,
        false,
        Seq::empty(),
        SState { env: opened(s.env), ..s },
        base,
    );
}

proof fn slot_done_under(
    p: Program,
    e: Expr,
    step: Step,
    ok: bool,
    v: SValue,
    s: SState,
    base: Seq<SFrame>,
)
    ensures
        slot_done(p, e, step, ok, v, under(s, base)) == under(
            slot_done(p, e, step, ok, v, s),
            base,
        ),
{
    slot_args_under(p, e, Step::Log, ok, Seq::empty(), s, base);
    match step {
        Step::Network => match slot_of(e, Step::Network) {
            Some(slot) => match crate::registry::fn_named(p, slot.name@) {
                Some(i) => {
                    let t = SState {
                        env: defined(s.env, "network"@, (v, p.fns@[i].ret@)),
                        ..s
                    };
                    slot_args_under(p, e, Step::Verify, ok, Seq::empty(), t, base);
                }
                None => {}
            },
            None => {}
        },
        Step::Verify => {
            let t = SState {
                env: defined(s.env, "verify"@, (v, crate::ast::STy::Bool)),
                ..s
            };
            slot_args_under(p, e, Step::Commit, true, Seq::empty(), t, base);
            slot_args_under(p, e, Step::Compensate, false, Seq::empty(), t, base);
            slot_args_under(p, e, Step::Log, false, Seq::empty(), t, base);
        }
        _ => {}
    }
}

proof fn give_under(p: Program, f: SFrame, v: SValue, s: SState, base: Seq<SFrame>)
    ensures
        give(p, f, v, under(s, base)) == under(give(p, f, v, s), base),
{
    assert forall|g: SFrame| #[trigger] (base + s.frames).push(g) == base + s.frames.push(g) by {
        under_push(base, s.frames, g);
    }
    match f {
        SFrame::Args(e, done) => {
            operands_under(p, e, done.push(v), s, base);
        }
        SFrame::SlotArgs(e, st, ok, done) => {
            slot_args_under(p, e, st, ok, done.push(v), s, base);
        }
        SFrame::Slot(e, st, ok) => {
            slot_done_under(p, e, st, ok, v, s, base);
        }
        _ => {}
    }
}

/// What waits does not change what is evaluated: as long as a part is not at its
/// end, its steps are the same whatever waits for it.
pub proof fn evaluation_ignores_what_waits(p: Program, s: SState, base: Seq<SFrame>)
    requires
        inside(s),
    ensures
        step(p, under(s, base)) == under(step(p, s), base),
{
    let fs = s.frames;
    match s.ctrl {
        SCtrl::Eval(e) => {
            eval_under(p, e, s, base);
        }
        SCtrl::Run(stmts, i, last) => {
            assert forall|g: SFrame| #[trigger] (base + fs).push(g) == base + fs.push(g) by {
                under_push(base, fs, g);
            }
        }
        SCtrl::Ret(v) => {
            assert((base + fs).last() == fs.last());
            assert((base + fs).drop_last() =~= base + fs.drop_last());
            give_under(p, fs.last(), v, SState { frames: fs.drop_last(), ..s }, base);
        }
        SCtrl::Unwind(v) => {
            assert((base + fs).last() == fs.last());
            assert((base + fs).drop_last() =~= base + fs.drop_last());
        }
        _ => {}
    }
}

/// The same over many steps: where a part has not come to its end before step `n`,
/// it takes these steps whatever waits for it.
pub proof fn runs_compose(p: Program, s: SState, base: Seq<SFrame>, n: nat)
    requires
        forall|k: nat| k < n ==> inside(#[trigger] steps(p, s, k)),
    ensures
        steps(p, under(s, base), n) == under(steps(p, s, n), base),
    decreases n,
{
    if n > 0 {
        let m = (n - 1) as nat;
        runs_compose(p, s, base, m);
        assert(inside(steps(p, s, m)));
        evaluation_ignores_what_waits(p, steps(p, s, m), base);
    }
}

/// How many scopes are open, given what waits: two for a function, one for each
/// block and each `transact` under way in it.
pub open spec fn open_scopes(fs: Seq<SFrame>) -> nat
    decreases fs.len(),
{
    if fs.len() == 0 {
        0
    } else {
        match fs.last() {
            SFrame::Call(..) => 2,
            SFrame::Scope
            | SFrame::Loop(..)
            | SFrame::Audited(..)
            | SFrame::SlotArgs(..)
            | SFrame::Slot(..) => 1 + open_scopes(fs.drop_last()),
            _ => open_scopes(fs.drop_last()),
        }
    }
}

/// Every call waits with the scopes that its caller had open.
pub open spec fn callers_kept(fs: Seq<SFrame>) -> bool
    decreases fs.len(),
{
    if fs.len() == 0 {
        true
    } else {
        callers_kept(fs.drop_last()) && match fs.last() {
            SFrame::Call(_, _, env) => env.len() == open_scopes(fs.drop_last()),
            _ => true,
        }
    }
}

/// The scopes that are open are those that were opened and not closed.
pub open spec fn balanced(s: SState) -> bool {
    &&& callers_kept(s.frames)
    &&& (s.ctrl is Eval || s.ctrl is Run || s.ctrl is Ret || s.ctrl is Ask) ==> s.env.len()
        == open_scopes(s.frames)
}

proof fn frame_on(fs: Seq<SFrame>, f: SFrame)
    ensures
        open_scopes(fs.push(f)) == match f {
            SFrame::Call(..) => 2,
            SFrame::Scope
            | SFrame::Loop(..)
            | SFrame::Audited(..)
            | SFrame::SlotArgs(..)
            | SFrame::Slot(..) => 1 + open_scopes(fs),
            _ => open_scopes(fs),
        },
        callers_kept(fs.push(f)) == (callers_kept(fs) && match f {
            SFrame::Call(_, _, env) => env.len() == open_scopes(fs),
            _ => true,
        }),
{
    assert(fs.push(f).drop_last() =~= fs);
}

proof fn param_env_len(f: crate::ast::FnDecl, vals: Seq<SValue>, n: nat)
    ensures
        crate::machine::param_env(f, vals, n).len() == 1,
    decreases n,
{
    if n > 0 {
        param_env_len(f, vals, (n - 1) as nat);
    }
}

proof fn enter_balanced(
    p: Program,
    name: Seq<char>,
    vals: Seq<SValue>,
    span: Span,
    s: SState,
)
    requires
        callers_kept(s.frames),
        s.env.len() == open_scopes(s.frames),
    ensures
        balanced(enter(p, name, vals, span, s)),
{
    match crate::registry::fn_named(p, name) {
        Some(i) => {
            frame_on(s.frames, SFrame::Call(i, span, s.env));
            param_env_len(p.fns@[i], vals, vals.len());
        }
        None => {}
    }
}

/// `s` with the scope of a `transact` open for which nothing waits yet.
proof fn slot_args_balanced(
    p: Program,
    e: Expr,
    step: Step,
    ok: bool,
    done: Seq<SValue>,
    s: SState,
)
    requires
        callers_kept(s.frames),
        s.env.len() == 1 + open_scopes(s.frames),
    ensures
        balanced(slot_args(p, e, step, ok, done, s)),
{
    match slot_of(e, step) {
        Some(slot) => {
            frame_on(s.frames, SFrame::SlotArgs(e, step, ok, done));
            frame_on(s.frames, SFrame::Slot(e, step, ok));
            enter_balanced(
                p,
                slot.name@,
                done,
                slot.span,
                SState { frames: s.frames.push(SFrame::Slot(e, step, ok)), ..s },
            );
        }
        None => {}
    }
}

proof fn assigned_len<V>(s: Seq<Map<Seq<char>, V>>, name: Seq<char>, v: V)
    ensures
        crate::scopes::assigned(s, name, v).len() == s.len(),
    decreases s.len(),
{
    if s.len() > 0 {
        assigned_len(s.drop_last(), name, v);
    }
}

proof fn apply_balanced(p: Program, e: Expr, vals: Seq<SValue>, s: SState)
    requires
        callers_kept(s.frames),
        s.env.len() == open_scopes(s.frames),
    ensures
        balanced(apply(p, e, vals, s)),
{
    match e {
        Expr::Call(name, _, span) => {
            enter_balanced(p, name@, vals, span, s);
            match crate::builtins::builtin_named(name@) {
                Some(b) => {
                    let r = crate::builtin_eval::builtin_call(b, vals, s.rng, span);
                    assert(balanced(act(SState { rng: r.1, ..s }, r.0, span)));
                }
                None => {}
            }
        }
        Expr::Assign(name, _, span) => {
            match crate::scopes::lookup(s.env, name@) {
                Some(b) => {
                    assigned_len(s.env, name@, (vals[0], b.1));
                }
                None => {}
            }
        }
        _ => {}
    }
}

proof fn operands_balanced(p: Program, e: Expr, done: Seq<SValue>, s: SState)
    requires
        callers_kept(s.frames),
        s.env.len() == open_scopes(s.frames),
    ensures
        balanced(operands(p, e, done, s)),
{
    frame_on(s.frames, SFrame::Args(e, done));
    apply_balanced(p, e, done, s);
}

proof fn eval_balanced(p: Program, e: Expr, s: SState)
    requires
        callers_kept(s.frames),
        s.env.len() == open_scopes(s.frames),
    ensures
        balanced(eval(p, e, s)),
{
    frame_on(s.frames, SFrame::Logic(e));
    frame_on(s.frames, SFrame::Cond(e));
    frame_on(s.frames, SFrame::Scrutinee(e));
    operands_balanced(p, e, Seq::empty(), s);
    slot_args_balanced(
        p,
        e,
        Step::Network,
        false,
        Seq::empty(),
        SState { env: opened(s.env), ..s },
    );
}

proof fn run_balanced(p: Program, stmts: Seq<Stmt>, i: int, last: SValue, s: SState)
    requires
        callers_kept(s.frames),
        s.env.len() == open_scopes(s.frames),
    ensures
        balanced(run(p, stmts, i, last, s)),
{
    frame_on(s.frames, SFrame::Stmt(stmts, i));
    frame_on(s.frames, SFrame::Audited(stmts, i));
}

proof fn log_balanced(p: Program, e: Expr, ok: bool, s: SState)
    requires
        callers_kept(s.frames),
        s.env.len() == 1 + open_scopes(s.frames),
    ensures
        balanced(log_step(p, e, ok, s)),
{
    slot_args_balanced(p, e, Step::Log, ok, Seq::empty(), s);
}

proof fn slot_done_balanced(p: Program, e: Expr, step: Step, ok: bool, v: SValue, s: SState)
    requires
        callers_kept(s.frames),
        s.env.len() == 1 + open_scopes(s.frames),
    ensures
        balanced(slot_done(p, e, step, ok, v, s)),
{
    log_balanced(p, e, ok, s);
    match step {
        Step::Network => match slot_of(e, Step::Network) {
            Some(slot) => match crate::registry::fn_named(p, slot.name@) {
                Some(i) => {
                    let t = SState {
                        env: defined(s.env, "network"@, (v, p.fns@[i].ret@)),
                        ..s
                    };
                    slot_args_balanced(p, e, Step::Verify, ok, Seq::empty(), t);
                }
                None => {}
            },
            None => {}
        },
        Step::Verify => {
            let t = SState {
                env: defined(s.env, "verify"@, (v, crate::ast::STy::Bool)),
                ..s
            };
            slot_args_balanced(p, e, Step::Commit, true, Seq::empty(), t);
            slot_args_balanced(p, e, Step::Compensate, false, Seq::empty(), t);
            log_balanced(p, e, false, t);
        }
        _ => {}
    }
}

proof fn arm_env_len(
    env: SEnv,
    names: Seq<String>,
    payload: Seq<SValue>,
    types: Seq<crate::ast::Ty>,
    n: nat,
)
    ensures
        crate::machine::arm_env(env, names, payload, types, n).len() == env.len() + 1,
    decreases n,
{
    if n > 0 {
        arm_env_len(env, names, payload, types, (n - 1) as nat);
    }
}

proof fn choose_arm_balanced(p: Program, e: Expr, v: SValue, s: SState)
    requires
        callers_kept(s.frames),
        s.env.len() == open_scopes(s.frames),
    ensures
        balanced(choose_arm(p, e, v, s)),
{
    frame_on(s.frames, SFrame::Scope);
    match (e, v) {
        (Expr::Match { arms, .. }, SValue::Enum(_, variant, payload)) => match crate::machine::arm_for(
            arms@,
            variant,
            0,
        ) {
            Some(i) => match crate::registry::variant_named(p, variant) {
                Some(ij) => {
                    let types = p.enums@[ij.0].variants@[ij.1].payload@;
                    let names = arms@[i].bindings@;
                    arm_env_len(
                        s.env,
                        names,
                        payload,
                        types,
                        crate::machine::least3(names.len(), payload.len(), types.len()),
                    );
                }
                None => {}
            },
            None => {}
        },
        _ => {}
    }
}

proof fn give_balanced(p: Program, f: SFrame, v: SValue, s: SState)
    requires
        callers_kept(s.frames),
        callers_kept(s.frames.push(f)),
        s.env.len() == open_scopes(s.frames.push(f)),
    ensures
        balanced(give(p, f, v, s)),
{
    frame_on(s.frames, f);
    match f {
        SFrame::Args(e, done) => {
            operands_balanced(p, e, done.push(v), s);
        }
        SFrame::Logic(e) => {
            frame_on(s.frames, SFrame::LogicRight(e));
        }
        SFrame::Cond(_) => {
            frame_on(s.frames, SFrame::Scope);
        }
        SFrame::Scrutinee(e) => {
            choose_arm_balanced(p, e, v, s);
        }
        SFrame::Stmt(stmts, i) => {
            frame_on(s.frames, SFrame::Loop(stmts, i));
        }
        SFrame::Loop(stmts, i) => {
            frame_on(s.frames, SFrame::Stmt(stmts, i));
        }
        SFrame::SlotArgs(e, st, ok, done) => {
            slot_args_balanced(p, e, st, ok, done.push(v), s);
        }
        SFrame::Slot(e, st, ok) => {
            slot_done_balanced(p, e, st, ok, v, s);
        }
        _ => {}
    }
}

/// Scopes are closed where they were opened: every step keeps the number of open
/// scopes in step with what waits.
pub proof fn steps_keep_balance(p: Program, s: SState)
    requires
        balanced(s),
    ensures
        balanced(step(p, s)),
{
    match s.ctrl {
        SCtrl::Eval(e) => {
            eval_balanced(p, e, s);
        }
        SCtrl::Run(stmts, i, last) => {
            run_balanced(p, stmts, i, last, s);
        }
        SCtrl::Ret(v) => {
            if s.frames.len() > 0 {
                let rest = SState { frames: s.frames.drop_last(), ..s };
                assert(rest.frames.push(s.frames.last()) =~= s.frames);
                give_balanced(p, s.frames.last(), v, rest);
            }
        }
        SCtrl::Unwind(v) => {
            if s.frames.len() > 0 {
                assert(s.frames.drop_last().push(s.frames.last()) =~= s.frames);
                frame_on(s.frames.drop_last(), s.frames.last());
            }
        }
        _ => {}
    }
}

/// An answer keeps the balance too.
pub proof fn answers_keep_balance(s: SState, a: SResponse)
    requires
        balanced(s),
    ensures
        balanced(answered(s, a)),
{
}

/// A run begins in balance.
pub proof fn runs_begin_balanced(p: Program, name: Seq<char>, vals: Seq<SValue>, span: Span)
    ensures
        balanced(begun(p, name, vals, span)),
{
    let s = SState { ctrl: SCtrl::Stuck, frames: Seq::empty(), env: Seq::empty(), rng: None };
    enter_balanced(p, name, vals, span, s);
}

/// A part that was evaluated to a value leaves as many scopes open as there were.
pub proof fn parts_leave_no_scope(p: Program, s: SState, n: nat)
    requires
        balanced(s),
        s.ctrl is Eval,
        steps(p, s, n).ctrl is Ret,
        steps(p, s, n).frames == s.frames,
    ensures
        steps(p, s, n).env.len() == s.env.len(),
{
    many_steps_keep_balance(p, s, n);
}

proof fn many_steps_keep_balance(p: Program, s: SState, n: nat)
    requires
        balanced(s),
    ensures
        balanced(steps(p, s, n)),
    decreases n,
{
    if n > 0 {
        many_steps_keep_balance(p, s, (n - 1) as nat);
        steps_keep_balance(p, steps(p, s, (n - 1) as nat));
    }
}

/// Where the left side of `&&` or `||` decides, the right side is not evaluated:
/// the next step has the value, and nothing else has changed.
pub proof fn decided_operands_are_skipped(p: Program, s: SState, e: Expr, b: bool)
    requires
        s.ctrl == SCtrl::Ret(SValue::Bool(b)),
        s.frames.len() > 0,
        s.frames.last() == SFrame::Logic(e),
        e matches Expr::Binary(op, _, _, _) && (op is And && !b || op is Or && b),
    ensures
        step(p, s) == (SState { frames: s.frames.drop_last(), ..s }),
{
}

/// A `transact` is committed where its check said yes, and compensated where it said
/// no: after `verify` the next call is that of `commit` only for `true`, and that
/// of `compensate` only for `false`.
pub proof fn transact_commits_what_was_verified(
    p: Program,
    e: Expr,
    ok: bool,
    b: bool,
    s: SState,
)
    requires
        e is Transact,
    ensures
        ({
            let t = slot_done(p, e, Step::Verify, ok, SValue::Bool(b), s);
            let u = SState {
                env: defined(s.env, "verify"@, (SValue::Bool(b), crate::ast::STy::Bool)),
                ..s
            };
            if b {
                t == slot_args(p, e, Step::Commit, true, Seq::empty(), u)
            } else if slot_of(e, Step::Compensate) is Some {
                t == slot_args(p, e, Step::Compensate, false, Seq::empty(), u)
            } else {
                t == log_step(p, e, false, u)
            }
        }),
{
}

} // verus!
