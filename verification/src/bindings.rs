//! Variables hold values of their declared types, in every state of every run.
use crate::ast::{greatest, integer, least, tys_view, Expr, FnDecl, Program, STy, Stmt, Ty};
use crate::check::{fit_all, fit_each, fits};
use crate::machine::{
    answered, apply, arm_env, arm_for, assign, begun, choose_arm, enter, eval, give, least3,
    log_step, operands, param_env, param_types, run, slot_args, slot_done, slot_of, step, steps,
    stmt_value, SCtrl, SEnv, SFrame, SState, Step,
};
use crate::registry::{fn_named, variant_named};
use crate::request::SResponse;
use crate::scopes::{assigned, closed, defined, lookup, opened};
use crate::token::Span;
use crate::value::SValue;
use vstd::prelude::*;

verus! {

/// The value is one of the type.
pub open spec fn of_type(p: Program, v: SValue, t: STy) -> bool {
    fits(p, v, t, Span { line: 1, col: 1 }) is Fine
}

/// Every variable holds a value of its declared type.
pub open spec fn typed(p: Program, env: SEnv) -> bool {
    forall|i: int, name: Seq<char>|
        0 <= i < env.len() && (#[trigger] env[i].contains_key(name)) ==> of_type(
            p,
            env[i][name].0,
            env[i][name].1,
        )
}

/// The function that a step of a `transact` calls.
pub open spec fn slot_fn(p: Program, e: Expr, st: Step) -> Option<int> {
    match slot_of(e, st) {
        Some(slot) => fn_named(p, slot.name@),
        None => None,
    }
}

/// What waits is in order: callers have typed variables, and a step of a `transact`
/// waits for its function.
pub open spec fn frames_typed(p: Program, fs: Seq<SFrame>) -> bool {
    forall|i: int|
        0 <= i < fs.len() ==> match #[trigger] fs[i] {
            SFrame::Call(_, _, env) => typed(p, env),
            SFrame::Slot(e, st, _) => i + 1 < fs.len() ==> (fs[i + 1] matches SFrame::Call(k, _, _)
                && slot_fn(p, e, st) == Some(k)),
            _ => true,
        }
}

/// What a step of a `transact` gets is of its function's type.
pub open spec fn handed(p: Program, s: SState) -> bool {
    s.frames.len() > 0 ==> (s.frames.last() matches SFrame::Slot(e, st, _) ==> match s.ctrl {
        SCtrl::Ret(v) => slot_fn(p, e, st) matches Some(k) && of_type(p, v, p.fns@[k].ret@),
        SCtrl::Failed(_) | SCtrl::Stuck | SCtrl::Done(_) => true,
        _ => false,
    })
}

/// Every variable of a run holds a value of its declared type.
pub open spec fn state_typed(p: Program, s: SState) -> bool {
    typed(p, s.env) && frames_typed(p, s.frames) && handed(p, s)
}

/// The next step binds the names of a match arm to values that nothing has checked.
pub open spec fn binds_unchecked(p: Program, s: SState) -> bool {
    s.frames.len() > 0 && s.frames.last() is Scrutinee && match s.ctrl {
        SCtrl::Ret(SValue::Enum(_, variant, payload)) => match variant_named(p, variant) {
            Some(ij) => !(fit_each(
                p,
                payload,
                tys_view(p.enums@[ij.0].variants@[ij.1].payload@),
                Span { line: 1, col: 1 },
            ) is Fine),
            None => false,
        },
        _ => false,
    }
}

/// Whether a value is one of a type does not depend on the place in the source.
pub(crate) proof fn fits_anywhere(p: Program, v: SValue, t: STy, a: Span, b: Span)
    ensures
        fits(p, v, t, a) is Fine == fits(p, v, t, b) is Fine,
    decreases v,
{
    match (v, t) {
        (SValue::Boxed(x), STy::Box(u)) => fits_anywhere(p, *x, *u, a, b),
        (SValue::Ref(x), STy::Ref(u)) => fits_anywhere(p, *x, *u, a, b),
        (SValue::Vector(e), STy::Vector(u, _)) => fit_all_anywhere(p, e, *u, a, b),
        (SValue::Matrix(e, _, _), STy::Matrix(u, _, _)) => fit_all_anywhere(p, e, *u, a, b),
        (SValue::Struct(_, f), STy::Named(want, _)) => {
            if let Some(i) = crate::registry::struct_named(p, want) {
                fit_each_anywhere(p, f, crate::check::field_types(p.structs@[i].fields@), a, b);
            }
        }
        (SValue::Enum(_, variant, f), STy::Named(_, _)) => {
            if let Some(ij) = variant_named(p, variant) {
                fit_each_anywhere(p, f, tys_view(p.enums@[ij.0].variants@[ij.1].payload@), a, b);
            }
        }
        _ => {}
    }
}

proof fn fit_all_anywhere(p: Program, v: Seq<SValue>, t: STy, a: Span, b: Span)
    ensures
        fit_all(p, v, t, a) is Fine == fit_all(p, v, t, b) is Fine,
    decreases v,
{
    if v.len() > 0 {
        fit_all_anywhere(p, v.drop_last(), t, a, b);
        fits_anywhere(p, v.last(), t, a, b);
    }
}

proof fn fit_each_anywhere(p: Program, v: Seq<SValue>, ts: Seq<STy>, a: Span, b: Span)
    ensures
        fit_each(p, v, ts, a) is Fine == fit_each(p, v, ts, b) is Fine,
    decreases v,
{
    if v.len() > 0 {
        fit_each_anywhere(p, v.drop_last(), ts, a, b);
        if v.len() <= ts.len() {
            fits_anywhere(p, v.last(), ts[v.len() - 1], a, b);
        }
    }
}

pub(crate) proof fn fit_each_at(p: Program, v: Seq<SValue>, ts: Seq<STy>, span: Span, i: int)
    requires
        fit_each(p, v, ts, span) is Fine,
        0 <= i < v.len(),
        i < ts.len(),
    ensures
        of_type(p, v[i], ts[i]),
    decreases v,
{
    if i == v.len() - 1 {
        fits_anywhere(p, v[i], ts[i], span, Span { line: 1, col: 1 });
    } else {
        fit_each_at(p, v.drop_last(), ts, span, i);
    }
}

proof fn opened_typed(p: Program, env: SEnv)
    requires
        typed(p, env),
    ensures
        typed(p, opened(env)),
{
    let o = opened(env);
    assert forall|i: int, name: Seq<char>|
        0 <= i < o.len() && (#[trigger] o[i].contains_key(name)) implies of_type(
        p,
        o[i][name].0,
        o[i][name].1,
    ) by {
        assert(i < env.len());
        assert(o[i] == env[i]);
        assert(env[i].contains_key(name));
    }
}

proof fn closed_typed(p: Program, env: SEnv)
    requires
        typed(p, env),
    ensures
        typed(p, closed(env)),
{
    let o = closed(env);
    assert forall|i: int, name: Seq<char>|
        0 <= i < o.len() && (#[trigger] o[i].contains_key(name)) implies of_type(
        p,
        o[i][name].0,
        o[i][name].1,
    ) by {
        assert(o[i] == env[i]);
        assert(env[i].contains_key(name));
    }
}

proof fn defined_typed(p: Program, env: SEnv, x: Seq<char>, v: SValue, t: STy)
    requires
        typed(p, env),
        of_type(p, v, t),
    ensures
        typed(p, defined(env, x, (v, t))),
{
    let o = defined(env, x, (v, t));
    assert forall|i: int, name: Seq<char>|
        0 <= i < o.len() && (#[trigger] o[i].contains_key(name)) implies of_type(
        p,
        o[i][name].0,
        o[i][name].1,
    ) by {
        if i < env.len() - 1 || name != x {
            assert(env[i].contains_key(name));
        }
    }
}

proof fn assigned_typed(p: Program, env: SEnv, x: Seq<char>, v: SValue, t: STy)
    requires
        typed(p, env),
        of_type(p, v, t),
    ensures
        typed(p, assigned(env, x, (v, t))),
    decreases env.len(),
{
    if env.len() > 0 {
        if env.last().contains_key(x) {
            defined_typed(p, env, x, v, t);
        } else {
            closed_typed(p, env);
            assigned_typed(p, env.drop_last(), x, v, t);
            let inner = assigned(env.drop_last(), x, (v, t));
            let o = assigned(env, x, (v, t));
            assert forall|i: int, name: Seq<char>|
                0 <= i < o.len() && (#[trigger] o[i].contains_key(name)) implies of_type(
                p,
                o[i][name].0,
                o[i][name].1,
            ) by {
                if i < inner.len() {
                    assert(o[i] == inner[i]);
                    assert(inner[i].contains_key(name));
                } else {
                    assert(o[i] == env[env.len() - 1]);
                    assert(env[env.len() - 1].contains_key(name));
                }
            }
        }
    }
}

proof fn params_typed(p: Program, f: FnDecl, vals: Seq<SValue>, n: nat, span: Span)
    requires
        n <= vals.len(),
        vals.len() == f.params@.len(),
        fit_each(p, vals, param_types(f), span) is Fine,
    ensures
        typed(p, param_env(f, vals, n)),
    decreases n,
{
    if n == 0 {
        opened_typed(p, Seq::empty());
    } else {
        params_typed(p, f, vals, (n - 1) as nat, span);
        fit_each_at(p, vals, param_types(f), span, n - 1);
        defined_typed(
            p,
            param_env(f, vals, (n - 1) as nat),
            f.params@[n - 1].name@,
            vals[n - 1],
            f.params@[n - 1].ty@,
        );
    }
}

proof fn arm_typed(
    p: Program,
    env: SEnv,
    names: Seq<String>,
    payload: Seq<SValue>,
    types: Seq<Ty>,
    n: nat,
    span: Span,
)
    requires
        typed(p, env),
        n <= names.len() && n <= payload.len() && n <= types.len(),
        fit_each(p, payload, tys_view(types), span) is Fine,
    ensures
        typed(p, arm_env(env, names, payload, types, n)),
    decreases n,
{
    if n == 0 {
        opened_typed(p, env);
    } else {
        arm_typed(p, env, names, payload, types, (n - 1) as nat, span);
        fit_each_at(p, payload, tys_view(types), span, n - 1);
        defined_typed(
            p,
            arm_env(env, names, payload, types, (n - 1) as nat),
            names[n - 1]@,
            payload[n - 1],
            types[n - 1]@,
        );
    }
}

/// A frame on top of what waits.
proof fn push_typed(p: Program, fs: Seq<SFrame>, f: SFrame)
    requires
        frames_typed(p, fs),
        f matches SFrame::Call(_, _, env) ==> typed(p, env),
        fs.len() > 0 ==> (fs.last() matches SFrame::Slot(e, st, _) ==> (f matches SFrame::Call(k, _, _)
            && slot_fn(p, e, st) == Some(k))),
    ensures
        frames_typed(p, fs.push(f)),
{
    let g = fs.push(f);
    assert forall|i: int| 0 <= i < g.len() implies match #[trigger] g[i] {
        SFrame::Call(_, _, env) => typed(p, env),
        SFrame::Slot(e, st, _) => i + 1 < g.len() ==> (g[i + 1] matches SFrame::Call(k, _, _)
            && slot_fn(p, e, st) == Some(k)),
        _ => true,
    } by {
        if i < fs.len() {
            assert(g[i] == fs[i]);
            if i + 1 < fs.len() {
                assert(g[i + 1] == fs[i + 1]);
            }
        }
    }
}

proof fn pop_typed(p: Program, fs: Seq<SFrame>)
    requires
        frames_typed(p, fs),
        fs.len() > 0,
    ensures
        frames_typed(p, fs.drop_last()),
        fs.last() matches SFrame::Call(_, _, env) ==> typed(p, env),
        fs.len() > 1 ==> (fs[fs.len() - 2] matches SFrame::Slot(e, st, _) ==> (
        fs.last() matches SFrame::Call(k, _, _) && slot_fn(p, e, st) == Some(k))),
{
    let g = fs.drop_last();
    assert(match fs[fs.len() - 1] {
        SFrame::Call(_, _, env) => typed(p, env),
        _ => true,
    });
    if fs.len() > 1 {
        let j = fs.len() - 2;
        assert(match fs[j] {
            SFrame::Slot(e, st, _) => j + 1 < fs.len() ==> (fs[j + 1] matches SFrame::Call(k, _, _)
                && slot_fn(p, e, st) == Some(k)),
            _ => true,
        });
    }
    assert forall|i: int| 0 <= i < g.len() implies match #[trigger] g[i] {
        SFrame::Call(_, _, env) => typed(p, env),
        SFrame::Slot(e, st, _) => i + 1 < g.len() ==> (g[i + 1] matches SFrame::Call(k, _, _)
            && slot_fn(p, e, st) == Some(k)),
        _ => true,
    } by {
        assert(g[i] == fs[i]);
    }
}

/// No step of a `transact` waits for a value right now.
spec fn unhanded(fs: Seq<SFrame>) -> bool {
    fs.len() > 0 ==> !(fs.last() is Slot)
}

proof fn enter_typed(p: Program, name: Seq<char>, vals: Seq<SValue>, span: Span, s: SState)
    requires
        typed(p, s.env),
        frames_typed(p, s.frames),
        s.frames.len() > 0 ==> (s.frames.last() matches SFrame::Slot(e, st, _) ==> slot_fn(p, e, st)
            == fn_named(p, name)),
    ensures
        state_typed(p, enter(p, name, vals, span, s)),
{
    if let Some(i) = fn_named(p, name) {
        let f = p.fns@[i];
        if f.params@.len() == vals.len() && fit_each(p, vals, param_types(f), span) is Fine {
            params_typed(p, f, vals, vals.len(), span);
            opened_typed(p, param_env(f, vals, vals.len()));
            push_typed(p, s.frames, SFrame::Call(i, span, s.env));
        }
    }
}

proof fn slot_args_typed(p: Program, e: Expr, st: Step, ok: bool, done: Seq<SValue>, s: SState)
    requires
        typed(p, s.env),
        frames_typed(p, s.frames),
        unhanded(s.frames),
    ensures
        state_typed(p, slot_args(p, e, st, ok, done, s)),
{
    if let Some(slot) = slot_of(e, st) {
        push_typed(p, s.frames, SFrame::SlotArgs(e, st, ok, done));
        push_typed(p, s.frames, SFrame::Slot(e, st, ok));
        let w = SState { frames: s.frames.push(SFrame::Slot(e, st, ok)), ..s };
        enter_typed(p, slot.name@, done, slot.span, w);
    }
}

proof fn log_typed(p: Program, e: Expr, ok: bool, s: SState)
    requires
        typed(p, s.env),
        frames_typed(p, s.frames),
        unhanded(s.frames),
    ensures
        state_typed(p, log_step(p, e, ok, s)),
{
    slot_args_typed(p, e, Step::Log, ok, Seq::empty(), s);
    closed_typed(p, s.env);
}

proof fn slot_done_typed(p: Program, e: Expr, st: Step, ok: bool, v: SValue, s: SState)
    requires
        typed(p, s.env),
        frames_typed(p, s.frames),
        unhanded(s.frames),
        slot_fn(p, e, st) matches Some(k) && of_type(p, v, p.fns@[k].ret@),
    ensures
        state_typed(p, slot_done(p, e, st, ok, v, s)),
{
    log_typed(p, e, ok, s);
    closed_typed(p, s.env);
    match st {
        Step::Network => {
            let k = slot_fn(p, e, st)->0;
            let t = p.fns@[k].ret@;
            defined_typed(p, s.env, "network"@, v, t);
            let w = SState { env: defined(s.env, "network"@, (v, t)), ..s };
            slot_args_typed(p, e, Step::Verify, ok, Seq::empty(), w);
        }
        Step::Verify => {
            if v is Bool {
                defined_typed(p, s.env, "verify"@, v, STy::Bool);
                let w = SState { env: defined(s.env, "verify"@, (v, STy::Bool)), ..s };
                slot_args_typed(p, e, Step::Commit, true, Seq::empty(), w);
                slot_args_typed(p, e, Step::Compensate, false, Seq::empty(), w);
                log_typed(p, e, false, w);
            }
        }
        _ => {}
    }
}

proof fn assign_typed(p: Program, name: Seq<char>, v: SValue, span: Span, s: SState)
    requires
        typed(p, s.env),
        frames_typed(p, s.frames),
        unhanded(s.frames),
    ensures
        state_typed(p, assign(p, name, v, span, s)),
{
    if let Some(b) = lookup(s.env, name) {
        fits_anywhere(p, v, b.1, span, Span { line: 1, col: 1 });
        if fits(p, v, b.1, span) is Fine {
            assigned_typed(p, s.env, name, v, b.1);
        }
    }
}

proof fn apply_typed(p: Program, e: Expr, vals: Seq<SValue>, s: SState)
    requires
        typed(p, s.env),
        frames_typed(p, s.frames),
        unhanded(s.frames),
    ensures
        state_typed(p, apply(p, e, vals, s)),
{
    match e {
        Expr::Assign(name, _, span) => assign_typed(p, name@, vals[0], span, s),
        Expr::Call(name, _, span) => enter_typed(p, name@, vals, span, s),
        _ => {}
    }
}

proof fn operands_typed(p: Program, e: Expr, done: Seq<SValue>, s: SState)
    requires
        typed(p, s.env),
        frames_typed(p, s.frames),
        unhanded(s.frames),
    ensures
        state_typed(p, operands(p, e, done, s)),
{
    push_typed(p, s.frames, SFrame::Args(e, done));
    apply_typed(p, e, done, s);
}

proof fn eval_typed(p: Program, e: Expr, s: SState)
    requires
        typed(p, s.env),
        frames_typed(p, s.frames),
        unhanded(s.frames),
    ensures
        state_typed(p, eval(p, e, s)),
{
    push_typed(p, s.frames, SFrame::Logic(e));
    push_typed(p, s.frames, SFrame::Cond(e));
    push_typed(p, s.frames, SFrame::Scrutinee(e));
    operands_typed(p, e, Seq::empty(), s);
    opened_typed(p, s.env);
    let w = SState { env: opened(s.env), ..s };
    slot_args_typed(p, e, Step::Network, false, Seq::empty(), w);
}

proof fn run_typed(p: Program, v: Seq<Stmt>, i: int, last: SValue, s: SState)
    requires
        typed(p, s.env),
        frames_typed(p, s.frames),
        unhanded(s.frames),
    ensures
        state_typed(p, run(p, v, i, last, s)),
{
    push_typed(p, s.frames, SFrame::Stmt(v, i));
    push_typed(p, s.frames, SFrame::Audited(v, i));
    opened_typed(p, s.env);
}

proof fn stmt_value_typed(p: Program, v: Seq<Stmt>, i: int, x: SValue, s: SState)
    requires
        typed(p, s.env),
        frames_typed(p, s.frames),
        unhanded(s.frames),
    ensures
        state_typed(p, stmt_value(p, v, i, x, s)),
{
    push_typed(p, s.frames, SFrame::Loop(v, i));
    opened_typed(p, s.env);
    if let Stmt::Let { name, ty, span, .. } = v[i] {
        fits_anywhere(p, x, ty@, span, Span { line: 1, col: 1 });
        if fits(p, x, ty@, span) is Fine {
            defined_typed(p, s.env, name@, x, ty@);
        }
    }
}

proof fn choose_arm_typed(p: Program, e: Expr, v: SValue, s: SState)
    requires
        typed(p, s.env),
        frames_typed(p, s.frames),
        unhanded(s.frames),
        v matches SValue::Enum(_, variant, payload) ==> (variant_named(p, variant) matches Some(ij)
            ==> fit_each(
            p,
            payload,
            tys_view(p.enums@[ij.0].variants@[ij.1].payload@),
            Span { line: 1, col: 1 },
        ) is Fine),
    ensures
        state_typed(p, choose_arm(p, e, v, s)),
{
    push_typed(p, s.frames, SFrame::Scope);
    if let (Expr::Match { arms, .. }, SValue::Enum(_, variant, payload)) = (e, v) {
        if let Some(i) = arm_for(arms@, variant, 0) {
            if let Some(ij) = variant_named(p, variant) {
                let types = p.enums@[ij.0].variants@[ij.1].payload@;
                let names = arms@[i].bindings@;
                arm_typed(
                    p,
                    s.env,
                    names,
                    payload,
                    types,
                    least3(names.len(), payload.len(), types.len()),
                    Span { line: 1, col: 1 },
                );
            }
        }
    }
}

proof fn give_typed(p: Program, f: SFrame, v: SValue, s: SState)
    requires
        typed(p, s.env),
        frames_typed(p, s.frames),
        !(f is Call) ==> unhanded(s.frames),
        match f {
            SFrame::Slot(e, st, _) => slot_fn(p, e, st) matches Some(k) && of_type(
                p,
                v,
                p.fns@[k].ret@,
            ),
            SFrame::Call(k, _, env) => typed(p, env) && (s.frames.len() > 0 ==> (
            s.frames.last() matches SFrame::Slot(e, st, _) ==> slot_fn(p, e, st) == Some(k))),
            SFrame::Scrutinee(_) => v matches SValue::Enum(_, variant, payload) ==> (variant_named(
                p,
                variant,
            ) matches Some(ij) ==> fit_each(
                p,
                payload,
                tys_view(p.enums@[ij.0].variants@[ij.1].payload@),
                Span { line: 1, col: 1 },
            ) is Fine),
            _ => true,
        },
    ensures
        state_typed(p, give(p, f, v, s)),
{
    closed_typed(p, s.env);
    opened_typed(p, s.env);
    match f {
        SFrame::Args(e, done) => operands_typed(p, e, done.push(v), s),
        SFrame::Logic(e) => push_typed(p, s.frames, SFrame::LogicRight(e)),
        SFrame::Cond(_) => push_typed(p, s.frames, SFrame::Scope),
        SFrame::Scrutinee(e) => choose_arm_typed(p, e, v, s),
        SFrame::Stmt(w, i) => stmt_value_typed(p, w, i, v, s),
        SFrame::Loop(w, i) => push_typed(p, s.frames, SFrame::Stmt(w, i)),
        SFrame::SlotArgs(e, st, ok, done) => slot_args_typed(p, e, st, ok, done.push(v), s),
        SFrame::Slot(e, st, ok) => slot_done_typed(p, e, st, ok, v, s),
        _ => {}
    }
}

/// A step keeps every variable a value of its declared type.
pub proof fn steps_keep_types(p: Program, s: SState)
    requires
        state_typed(p, s),
        !binds_unchecked(p, s),
    ensures
        state_typed(p, step(p, s)),
{
    match s.ctrl {
        SCtrl::Eval(e) => eval_typed(p, e, s),
        SCtrl::Run(v, i, last) => run_typed(p, v, i, last, s),
        SCtrl::Ret(v) => {
            if s.frames.len() > 0 {
                pop_typed(p, s.frames);
                give_typed(p, s.frames.last(), v, SState { frames: s.frames.drop_last(), ..s });
            }
        }
        SCtrl::Unwind(v) => {
            if s.frames.len() > 0 {
                pop_typed(p, s.frames);
                if let SFrame::Call(k, span, _) = s.frames.last() {
                    fits_anywhere(p, v, p.fns@[k].ret@, span, Span { line: 1, col: 1 });
                }
            }
        }
        _ => {}
    }
}

/// An answer from outside binds nothing.
pub proof fn answers_keep_types(p: Program, s: SState, a: SResponse)
    requires
        state_typed(p, s),
    ensures
        state_typed(p, answered(s, a)),
{
}

/// A run begins with arguments of the declared types, or not at all.
pub proof fn calls_start_typed(p: Program, name: Seq<char>, vals: Seq<SValue>, span: Span)
    ensures
        state_typed(p, begun(p, name, vals, span)),
{
    let s = SState { ctrl: SCtrl::Stuck, frames: Seq::empty(), env: Seq::empty(), rng: None };
    enter_typed(p, name, vals, span, s);
}

/// What is read from a variable is of its declared type.
pub proof fn reads_are_typed(p: Program, env: SEnv, name: Seq<char>)
    requires
        typed(p, env),
    ensures
        lookup(env, name) matches Some(b) ==> of_type(p, b.0, b.1),
    decreases env.len(),
{
    if env.len() > 0 {
        closed_typed(p, env);
        let top = env[env.len() - 1];
        if top.contains_key(name) {
            assert(env[env.len() - 1].contains_key(name));
        } else {
            reads_are_typed(p, env.drop_last(), name);
        }
    }
}

/// An integer variable holds a number in the range of its type.
pub proof fn integers_stay_in_range(p: Program, env: SEnv, name: Seq<char>)
    requires
        typed(p, env),
    ensures
        lookup(env, name) matches Some(b) ==> (integer(b.1) ==> (b.0 matches SValue::Int(n)
            && least(b.1) <= n <= greatest(b.1))),
{
    reads_are_typed(p, env, name);
}

/// A variable never holds a value outside its declared type: an integer out of range
/// is an error where it is bound, assigned, passed or returned. A `match` on a value
/// that was made on the spot binds its parts without a check.
pub proof fn variables_hold_their_types(p: Program, s: SState, n: nat)
    requires
        state_typed(p, s),
        forall|k: nat| k < n ==> !binds_unchecked(p, #[trigger] steps(p, s, k)),
    ensures
        state_typed(p, steps(p, s, n)),
    decreases n,
{
    if n > 0 {
        let m = (n - 1) as nat;
        variables_hold_their_types(p, s, m);
        assert(!binds_unchecked(p, steps(p, s, m)));
        steps_keep_types(p, steps(p, s, m));
    }
}

} // verus!
