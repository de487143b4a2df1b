//! The runs that contracts speak of are the runs of the interpreter: where no sum,
//! difference or product leaves the 64 bits of a machine integer, both come to the
//! same result.
use crate::arith::{binary, int_op};
use crate::ast::{
    bounds_are_tight, greatest, integer, least, BinOp, ElseBranch, Expr, FnDecl, Program, Stmt, UnOp,
};
use crate::check::{fit_each, fits, SCheck};
use crate::contract_check::{
    admitted, contract_holds, given_values, inputs, is_param, param_values, post_value, pre_holds, runs, signature_fault,
};
use crate::machine::{
    apply, begun, give, operands, param_env, param_types, step, steps, SCtrl, SEnv, SFrame,
    SState,
};
use crate::registry::fn_named;
use crate::scopes::{defined, lookup, opened};
use crate::symbolic::{
    bool_shaped, compared, computed, is_arith, is_comparison, ran, run_bool, run_branch, run_int,
    run_stmt, run_stmts, run_value, Env, Ev,
};
use crate::token::Span;
use crate::value::SValue;
use vstd::prelude::*;

verus! {

/// Whether a machine integer holds a number.
pub open spec fn small(n: int) -> bool {
    i64::MIN <= n <= i64::MAX
}

pub open spec fn word(n: int) -> SValue {
    SValue::Int(n as i64)
}

/// No arithmetic on the way leaves the machine integers.
pub open spec fn calm_int(sc: Env, e: Expr) -> bool
    decreases e, 1nat,
{
    match e {
        Expr::Unary(UnOp::Neg, a, _) => calm_int(sc, *a) && (run_int(false, sc, *a) matches Ev::Val(n)
            ==> small(-n)),
        Expr::Binary(op, l, r, _) => is_arith(op) ==> calm_int(sc, *l) && (run_int(
            false,
            sc,
            *l,
        ) matches Ev::Val(a) ==> calm_int(sc, *r) && (run_int(false, sc, *r) matches Ev::Val(b)
            ==> small(computed(op, a, b)))),
        Expr::If { cond, then_block, else_block, .. } => calm_bool(sc, *cond) && (run_bool(
            false,
            sc,
            *cond,
        ) matches Ev::Val(c) ==> if c {
            calm_value(opened(sc), then_block.stmts@)
        } else {
            match else_block {
                Some(x) => match *x {
                    ElseBranch::Block(b) => calm_value(opened(sc), b.stmts@),
                    ElseBranch::If(y) => calm_int(sc, y),
                },
                None => true,
            }
        }),
        _ => true,
    }
}

pub open spec fn calm_value(sc: Env, v: Seq<Stmt>) -> bool
    decreases v, v.len(),
{
    v.len() > 0 ==> match v[v.len() - 1] {
        Stmt::Expr(e) => calm_stmts(sc, v, (v.len() - 1) as nat) && (run_stmts(
            false,
            sc,
            v,
            (v.len() - 1) as nat,
        ) matches Ev::Val(s) ==> calm_int(s, e)),
        _ => true,
    }
}

pub open spec fn calm_bool(sc: Env, e: Expr) -> bool
    decreases e, 1nat,
{
    match e {
        Expr::Unary(UnOp::Not, a, _) => calm_bool(sc, *a),
        Expr::Binary(op, l, r, _) => if op is And || op is Or {
            calm_bool(sc, *l) && (run_bool(false, sc, *l) matches Ev::Val(a) ==> a == (op is And)
                ==> calm_bool(sc, *r))
        } else if !is_comparison(op) {
            true
        } else if (op is Eq || op is NotEq) && bool_shaped(*l) && bool_shaped(*r) {
            calm_bool(sc, *l) && (run_bool(false, sc, *l) is Val ==> calm_bool(sc, *r))
        } else {
            calm_int(sc, *l) && (run_int(false, sc, *l) is Val ==> calm_int(sc, *r))
        },
        _ => true,
    }
}

pub open spec fn calm_stmts(sc: Env, v: Seq<Stmt>, n: nat) -> bool
    decreases v, n,
{
    if n == 0 || n > v.len() {
        true
    } else {
        calm_stmts(sc, v, (n - 1) as nat) && (run_stmts(
            false,
            sc,
            v,
            (n - 1) as nat,
        ) matches Ev::Val(s) ==> calm_stmt(s, v[n - 1]))
    }
}

pub open spec fn calm_stmt(sc: Env, s: Stmt) -> bool
    decreases s, 1nat,
{
    match s {
        Stmt::Let { value, .. } => calm_int(sc, value),
        Stmt::Return { value, .. } => match value {
            Some(e) => calm_int(sc, e),
            None => true,
        },
        Stmt::Expr(e) => calm_branch(sc, e),
        Stmt::While { .. } => true,
        Stmt::Audited { body, .. } => calm_stmts(opened(sc), body@, body@.len()),
    }
}

pub open spec fn calm_branch(sc: Env, e: Expr) -> bool
    decreases e, 2nat,
{
    match e {
        Expr::If { cond, then_block, else_block, .. } => calm_bool(sc, *cond) && (run_bool(
            false,
            sc,
            *cond,
        ) matches Ev::Val(c) ==> if c {
            calm_stmts(opened(sc), then_block.stmts@, then_block.stmts@.len())
        } else {
            match else_block {
                Some(x) => match *x {
                    ElseBranch::Block(b) => calm_stmts(opened(sc), b.stmts@, b.stmts@.len()),
                    ElseBranch::If(y) => calm_branch(sc, y),
                },
                None => true,
            }
        }),
        _ => calm_int(sc, e),
    }
}

/// The bindings of a run hold the numbers of `sc`.
pub open spec fn mirrors(sc: Env, env: SEnv) -> bool {
    &&& sc.len() == env.len()
    &&& forall|i: int, name: Seq<char>|
        0 <= i < sc.len() ==> (#[trigger] sc[i].contains_key(name) <==> env[i].contains_key(name))
    &&& forall|i: int, name: Seq<char>|
        0 <= i < sc.len() && #[trigger] sc[i].contains_key(name) ==> small(sc[i][name])
            && env[i][name].0 == word(sc[i][name])
}

proof fn mirrors_lookup(sc: Env, env: SEnv, name: Seq<char>)
    requires
        mirrors(sc, env),
    ensures
        match lookup(sc, name) {
            Some(n) => small(n) && (lookup(env, name) matches Some(b) && b.0 == word(n)),
            None => lookup(env, name) is None,
        },
    decreases sc.len(),
{
    if sc.len() > 0 {
        let (d, f) = (sc.drop_last(), env.drop_last());
        assert(sc.last() == sc[sc.len() - 1]);
        assert(env.last() == env[env.len() - 1]);
        assert(sc.last().contains_key(name) <==> env.last().contains_key(name)) by {
            assert(sc[sc.len() - 1].contains_key(name) <==> env[sc.len() - 1].contains_key(name));
        }
        mirrors_inner(sc, env);
        mirrors_lookup(d, f, name);
    }
}

/// The outer scopes mirror each other.
proof fn mirrors_inner(sc: Env, env: SEnv)
    requires
        mirrors(sc, env),
        sc.len() > 0,
    ensures
        mirrors(sc.drop_last(), env.drop_last()),
{
    let (d, f) = (sc.drop_last(), env.drop_last());
    assert forall|i: int, name: Seq<char>| 0 <= i < d.len() implies (#[trigger] d[i].contains_key(name)
        <==> f[i].contains_key(name)) by {
        assert(sc[i].contains_key(name) <==> env[i].contains_key(name));
    }
    assert forall|i: int, name: Seq<char>|
        0 <= i < d.len() && #[trigger] d[i].contains_key(name) implies small(d[i][name])
        && f[i][name].0 == word(d[i][name]) by {
        assert(sc[i].contains_key(name));
    }
}

proof fn mirrors_opened(sc: Env, env: SEnv)
    requires
        mirrors(sc, env),
    ensures
        mirrors(opened(sc), opened(env)),
{
    let (d, f) = (opened(sc), opened(env));
    assert forall|i: int, name: Seq<char>| 0 <= i < d.len() implies (#[trigger] d[i].contains_key(name)
        <==> f[i].contains_key(name)) by {
        if i < sc.len() {
            assert(sc[i].contains_key(name) <==> env[i].contains_key(name));
        }
    }
    assert forall|i: int, name: Seq<char>|
        0 <= i < d.len() && #[trigger] d[i].contains_key(name) implies small(d[i][name])
        && f[i][name].0 == word(d[i][name]) by {
        if i < sc.len() {
            assert(sc[i].contains_key(name));
        }
    }
}

proof fn mirrors_defined(sc: Env, env: SEnv, name: Seq<char>, n: int, t: crate::ast::STy)
    requires
        mirrors(sc, env),
        small(n),
    ensures
        mirrors(defined(sc, name, n), defined(env, name, (word(n), t))),
{
    let (d, f) = (defined(sc, name, n), defined(env, name, (word(n), t)));
    assert forall|i: int, m: Seq<char>| 0 <= i < d.len() implies (#[trigger] d[i].contains_key(m)
        <==> f[i].contains_key(m)) by {
        assert(sc[i].contains_key(m) <==> env[i].contains_key(m));
    }
    assert forall|i: int, m: Seq<char>|
        0 <= i < d.len() && #[trigger] d[i].contains_key(m) implies small(d[i][m]) && f[i][m].0
        == word(d[i][m]) by {
        if i < sc.len() - 1 || m != name {
            assert(sc[i].contains_key(m));
        }
    }
}

/// Some number of steps leads from `s` to `t`.
pub open spec fn reaches(p: Program, s: SState, t: SState) -> bool {
    exists|n: nat| #[trigger] steps(p, s, n) == t
}

proof fn steps_add(p: Program, s: SState, a: nat, b: nat)
    ensures
        steps(p, s, a + b) == steps(p, steps(p, s, a), b),
    decreases b,
{
    if b > 0 {
        steps_add(p, s, a, (b - 1) as nat);
        assert(a + b - 1 == a + (b - 1) as nat);
    }
}

proof fn reach_on(p: Program, s: SState, t: SState, u: SState)
    requires
        reaches(p, s, t),
        reaches(p, t, u),
    ensures
        reaches(p, s, u),
{
    let a = choose|n: nat| #[trigger] steps(p, s, n) == t;
    let b = choose|n: nat| #[trigger] steps(p, t, n) == u;
    steps_add(p, s, a, b);
    assert(steps(p, s, a + b) == u);
}

proof fn reach_step(p: Program, s: SState, t: SState)
    requires
        reaches(p, s, t),
    ensures
        reaches(p, s, step(p, t)),
{
    let a = choose|n: nat| #[trigger] steps(p, s, n) == t;
    assert(steps(p, s, a + 1) == step(p, t));
}

proof fn reach_self(p: Program, s: SState)
    ensures
        reaches(p, s, s),
        reaches(p, s, step(p, s)),
{
    assert(steps(p, s, 0) == s);
    reach_step(p, s, s);
}

proof fn popped(fs: Seq<SFrame>, f: SFrame)
    ensures
        fs.push(f).drop_last() == fs,
        fs.push(f).last() == f,
{
    assert(fs.push(f).drop_last() =~= fs);
}

/// The function is left with the number `v`.
pub open spec fn exits(p: Program, s: SState, v: int) -> bool {
    small(v) && exists|env: SEnv|
        reaches(p, s, #[trigger] SState { ctrl: SCtrl::Unwind(word(v)), env, ..s }.as_is())
}

impl SState {
    pub open spec fn as_is(self) -> SState {
        self
    }
}

/// A state at which the function has no number to return.
pub open spec fn no_result(t: SState, fs: Seq<SFrame>) -> bool {
    t.ctrl is Failed || (t.ctrl == SCtrl::Unwind(SValue::Unit) && t.frames == fs)
}

/// The function stops without a number.
pub open spec fn stops(p: Program, s: SState) -> bool {
    exists|t: SState| #[trigger] reaches(p, s, t) && no_result(t, s.frames)
}

pub open spec fn is_call(f: SFrame) -> bool {
    f is Call
}

/// Leaving a part leaves what waits for it.
proof fn exit_through(p: Program, s: SState, t: SState, f: SFrame, v: int)
    requires
        reaches(p, s, t),
        t.frames == s.frames.push(f),
        t.rng == s.rng,
        !is_call(f),
        exits(p, t, v),
    ensures
        exits(p, s, v),
{
    let env = choose|env: SEnv|
        reaches(p, t, #[trigger] SState { ctrl: SCtrl::Unwind(word(v)), env, ..t }.as_is());
    let u = SState { ctrl: SCtrl::Unwind(word(v)), env, ..t };
    assert(u.as_is() == u);
    reach_on(p, s, t, u);
    reach_step(p, s, u);
    popped(s.frames, f);
    let w = SState { ctrl: SCtrl::Unwind(word(v)), env, ..s };
    assert(step(p, u) == w);
    assert(w.as_is() == w);
}

proof fn stop_through(p: Program, s: SState, t: SState, f: SFrame)
    requires
        reaches(p, s, t),
        t.frames == s.frames.push(f),
        !is_call(f),
        stops(p, t),
    ensures
        stops(p, s),
{
    let u = choose|u: SState| #[trigger] reaches(p, t, u) && no_result(u, t.frames);
    reach_on(p, s, t, u);
    if u.ctrl is Failed {
        assert(reaches(p, s, u) && no_result(u, s.frames));
    } else {
        reach_step(p, s, u);
        popped(s.frames, f);
        let w = step(p, u);
        assert(w.ctrl == SCtrl::Unwind(SValue::Unit) && w.frames == s.frames);
        assert(reaches(p, s, w) && no_result(w, s.frames));
    }
}

/// The same from a state that is reached.
proof fn exit_from(p: Program, s: SState, t: SState, v: int)
    requires
        reaches(p, s, t),
        t.frames == s.frames,
        t.rng == s.rng,
        exits(p, t, v),
    ensures
        exits(p, s, v),
{
    let env = choose|env: SEnv|
        reaches(p, t, #[trigger] SState { ctrl: SCtrl::Unwind(word(v)), env, ..t }.as_is());
    let u = SState { ctrl: SCtrl::Unwind(word(v)), env, ..t };
    assert(u.as_is() == u);
    reach_on(p, s, t, u);
    assert(u == SState { ctrl: SCtrl::Unwind(word(v)), env, ..s });
}

proof fn stop_from(p: Program, s: SState, t: SState)
    requires
        reaches(p, s, t),
        t.frames == s.frames,
        stops(p, t),
    ensures
        stops(p, s),
{
    let u = choose|u: SState| #[trigger] reaches(p, t, u) && no_result(u, t.frames);
    reach_on(p, s, t, u);
    assert(reaches(p, s, u) && no_result(u, s.frames));
}

/// Where the evaluation of an integer leads.
pub open spec fn lands_int(p: Program, s: SState, o: Ev<int>) -> bool {
    match o {
        Ev::Val(n) => small(n) && reaches(p, s, SState { ctrl: SCtrl::Ret(word(n)), ..s }),
        Ev::Ret(v) => exits(p, s, v),
        Ev::Stop => stops(p, s),
        Ev::Bad => true,
    }
}

pub open spec fn lands_bool(p: Program, s: SState, o: Ev<bool>) -> bool {
    match o {
        Ev::Val(b) => reaches(p, s, SState { ctrl: SCtrl::Ret(SValue::Bool(b)), ..s }),
        Ev::Ret(v) => exits(p, s, v),
        Ev::Stop => stops(p, s),
        Ev::Bad => true,
    }
}

/// The state in which a value is handed on, with any bindings.
pub open spec fn handing(s: SState, v: SValue, env: SEnv) -> SState {
    SState { ctrl: SCtrl::Ret(v), env, ..s }
}

/// The bindings differ at most in the innermost scope.
pub open spec fn same_below(a: SEnv, b: SEnv) -> bool {
    a.len() == b.len() && a.drop_last() == b.drop_last()
}

pub open spec fn lands_value(p: Program, s: SState, o: Ev<int>) -> bool {
    match o {
        Ev::Val(n) => small(n) && exists|env: SEnv|
            reaches(p, s, #[trigger] handing(s, word(n), env)) && same_below(env, s.env),
        Ev::Ret(v) => exits(p, s, v),
        Ev::Stop => stops(p, s),
        Ev::Bad => true,
    }
}

pub open spec fn lands_branch(p: Program, s: SState, o: Ev<()>) -> bool {
    match o {
        Ev::Val(_) => exists|v: SValue| reaches(p, s, #[trigger] handing(s, v, s.env)),
        Ev::Ret(v) => exits(p, s, v),
        Ev::Stop => stops(p, s),
        Ev::Bad => true,
    }
}

/// The state before statement `n`.
pub open spec fn before(s: SState, v: Seq<Stmt>, n: nat, last: SValue, env: SEnv) -> SState {
    SState { ctrl: SCtrl::Run(v, n as int, last), env, ..s }
}

pub open spec fn lands_stmts(p: Program, s: SState, v: Seq<Stmt>, n: nat, o: Ev<Env>) -> bool {
    match o {
        Ev::Val(sc) => exists|last: SValue, env: SEnv|
            reaches(p, s, #[trigger] before(s, v, n, last, env)) && mirrors(sc, env) && same_below(
                env,
                s.env,
            ),
        Ev::Ret(x) => exits(p, s, x),
        Ev::Stop => stops(p, s),
        Ev::Bad => true,
    }
}

/// The state in which an operand is evaluated.
proof fn to_operand(p: Program, s: SState, e: Expr) -> (t: SState)
    requires
        s.ctrl == SCtrl::Eval(e),
        match e {
            Expr::Unary(..) => true,
            Expr::Binary(op, _, _, _) => !(op is And) && !(op is Or),
            _ => false,
        },
    ensures
        reaches(p, s, t),
        t == (SState {
            ctrl: SCtrl::Eval(crate::machine::operand(e, 0)),
            frames: s.frames.push(SFrame::Args(e, Seq::empty())),
            ..s
        }),
{
    reach_self(p, s);
    step(p, s)
}

/// The second operand of an operator.
proof fn to_second(p: Program, s: SState, e: Expr, a: SValue) -> (t: SState)
    requires
        e matches Expr::Binary(op, _, _, _) && !(op is And) && !(op is Or),
        reaches(
            p,
            s,
            SState {
                ctrl: SCtrl::Ret(a),
                frames: s.frames.push(SFrame::Args(e, Seq::empty())),
                ..s
            },
        ),
    ensures
        reaches(p, s, t),
        t == (SState {
            ctrl: SCtrl::Eval(crate::machine::operand(e, 1)),
            frames: s.frames.push(SFrame::Args(e, seq![a])),
            ..s
        }),
{
    let u = SState {
        ctrl: SCtrl::Ret(a),
        frames: s.frames.push(SFrame::Args(e, Seq::empty())),
        ..s
    };
    popped(s.frames, SFrame::Args(e, Seq::empty()));
    reach_step(p, s, u);
    assert(Seq::<SValue>::empty().push(a) =~= seq![a]);
    step(p, u)
}

/// Evaluating an operator on two values.
proof fn operator_step(p: Program, e: Expr, a: SValue, b: SValue, s: SState)
    requires
        e is Binary,
    ensures
        e matches Expr::Binary(op, _, _, span) && apply(p, e, seq![a, b], s) == crate::machine::act(
            s,
            binary(op, a, b, span),
            span,
        ),
{
    assert(seq![a, b][0] == a);
    assert(seq![a, b][1] == b);
}

/// The step that evaluates an operator.
proof fn to_operator(p: Program, s: SState, e: Expr, a: SValue, b: SValue)
    requires
        e matches Expr::Binary(op, _, _, _) && !(op is And) && !(op is Or),
    ensures
        step(
            p,
            SState { ctrl: SCtrl::Ret(b), frames: s.frames.push(SFrame::Args(e, seq![a])), ..s },
        ) == apply(p, e, seq![a, b], SState { ctrl: SCtrl::Ret(b), ..s }),
{
    let f = SFrame::Args(e, seq![a]);
    popped(s.frames, f);
    assert(seq![a].push(b) =~= seq![a, b]);
    let u = SState { ctrl: SCtrl::Ret(b), frames: s.frames.push(f), ..s };
    let rest = SState { ctrl: SCtrl::Ret(b), ..s };
    assert(SState { frames: s.frames, ..u } == rest);
    assert(give(p, f, b, rest) == operands(p, e, seq![a, b], rest));
}

/// What an operator gives.
proof fn to_result(p: Program, s: SState, e: Expr, a: SValue, b: SValue, v: SValue)
    requires
        e matches Expr::Binary(op, _, _, span) && !(op is And) && !(op is Or) && binary(op, a, b, span)
            == crate::request::SAct::Done(crate::value::SOutcome::Val(v)),
        (a is Int && b is Int) || (a is Bool && b is Bool),
        reaches(
            p,
            s,
            SState { ctrl: SCtrl::Ret(b), frames: s.frames.push(SFrame::Args(e, seq![a])), ..s },
        ),
    ensures
        reaches(p, s, SState { ctrl: SCtrl::Ret(v), ..s }),
{
    let u = SState { ctrl: SCtrl::Ret(b), frames: s.frames.push(SFrame::Args(e, seq![a])), ..s };
    let rest = SState { ctrl: SCtrl::Ret(b), ..s };
    reach_step(p, s, u);
    to_operator(p, s, e, a, b);
    operator_step(p, e, a, b, rest);
}

/// Arithmetic that stays within the machine integers is that of the numbers.
proof fn arith_agrees(op: BinOp, a: int, b: int, span: Span)
    requires
        is_arith(op),
        small(a),
        small(b),
        small(computed(op, a, b)),
    ensures
        binary(op, word(a), word(b), span) == crate::request::SAct::Done(
            crate::value::SOutcome::Val(word(computed(op, a, b))),
        ),
{
    let (x, y) = (a as i64, b as i64);
    assert(int_op(op, x, y, span) == crate::value::SOutcome::Val(word(computed(op, a, b))));
}

/// Negation that stays within the machine integers is that of the numbers.
proof fn neg_agrees(n: int, span: Span)
    requires
        small(n),
        small(-n),
    ensures
        crate::machine::unary(UnOp::Neg, word(n), span) == crate::value::SOutcome::Val(word(-n)),
{
}

/// An expression with one operand.
proof fn to_unary(p: Program, s: SState, e: Expr, a: SValue, v: SValue)
    requires
        e matches Expr::Unary(op, _, span) && crate::machine::unary(op, a, span)
            == crate::value::SOutcome::Val(v),
        reaches(
            p,
            s,
            SState {
                ctrl: SCtrl::Ret(a),
                frames: s.frames.push(SFrame::Args(e, Seq::empty())),
                ..s
            },
        ),
    ensures
        reaches(p, s, SState { ctrl: SCtrl::Ret(v), ..s }),
{
    let f = SFrame::Args(e, Seq::empty());
    let u = SState { ctrl: SCtrl::Ret(a), frames: s.frames.push(f), ..s };
    reach_step(p, s, u);
    popped(s.frames, f);
    assert(Seq::<SValue>::empty().push(a) =~= seq![a]);
    assert(step(p, u) == (SState { ctrl: SCtrl::Ret(v), ..s }));
}

/// An integer expression comes to its number.
#[verifier::rlimit(60)]
proof fn agree_int(p: Program, s: SState, sc: Env, e: Expr)
    requires
        s.ctrl == SCtrl::Eval(e),
        mirrors(sc, s.env),
        s.env.len() > 0,
        calm_int(sc, e),
    ensures
        lands_int(p, s, run_int(false, sc, e)),
    decreases e, 1nat,
{
    match e {
        Expr::Int(_, _) => {
            reach_self(p, s);
        }
        Expr::Ident(name, _) => {
            mirrors_lookup(sc, s.env, name@);
            reach_self(p, s);
        }
        Expr::Unary(UnOp::Neg, a, span) => {
            let t = to_operand(p, s, e);
            let f = SFrame::Args(e, Seq::empty());
            agree_int(p, t, sc, *a);
            match run_int(false, sc, *a) {
                Ev::Val(n) => {
                    reach_on(p, s, t, SState { ctrl: SCtrl::Ret(word(n)), ..t });
                    neg_agrees(n, span);
                    to_unary(p, s, e, word(n), word(-n));
                }
                Ev::Ret(v) => exit_through(p, s, t, f, v),
                Ev::Stop => stop_through(p, s, t, f),
                Ev::Bad => {}
            }
        }
        Expr::Binary(op, l, r, span) => {
            if is_arith(op) {
                let t = to_operand(p, s, e);
                let f = SFrame::Args(e, Seq::empty());
                agree_int(p, t, sc, *l);
                match run_int(false, sc, *l) {
                    Ev::Val(a) => {
                        reach_on(p, s, t, SState { ctrl: SCtrl::Ret(word(a)), ..t });
                        let u = to_second(p, s, e, word(a));
                        let g = SFrame::Args(e, seq![word(a)]);
                        agree_int(p, u, sc, *r);
                        match run_int(false, sc, *r) {
                            Ev::Val(b) => {
                                reach_on(p, s, u, SState { ctrl: SCtrl::Ret(word(b)), ..u });
                                arith_agrees(op, a, b, span);
                                to_result(p, s, e, word(a), word(b), word(computed(op, a, b)));
                            }
                            Ev::Ret(v) => exit_through(p, s, u, g, v),
                            Ev::Stop => stop_through(p, s, u, g),
                            Ev::Bad => {}
                        }
                    }
                    Ev::Ret(v) => exit_through(p, s, t, f, v),
                    Ev::Stop => stop_through(p, s, t, f),
                    Ev::Bad => {}
                }
            }
        }
        Expr::If { .. } => {
            agree_if(p, s, sc, e);
        }
        _ => {}
    }
}

/// The state in which a condition is evaluated.
proof fn to_cond(p: Program, s: SState, e: Expr) -> (t: SState)
    requires
        s.ctrl == SCtrl::Eval(e),
        e is If,
    ensures
        reaches(p, s, t),
        e matches Expr::If { cond, .. } && t == (SState {
            ctrl: SCtrl::Eval(*cond),
            frames: s.frames.push(SFrame::Cond(e)),
            ..s
        }),
{
    reach_self(p, s);
    step(p, s)
}

/// The state in which a branch is run.
proof fn to_branch(p: Program, s: SState, e: Expr, c: bool) -> (t: SState)
    requires
        e is If,
        reaches(
            p,
            s,
            SState { ctrl: SCtrl::Ret(SValue::Bool(c)), frames: s.frames.push(SFrame::Cond(e)), ..s },
        ),
    ensures
        reaches(p, s, t),
        t == give(p, SFrame::Cond(e), SValue::Bool(c), s),
{
    let u = SState {
        ctrl: SCtrl::Ret(SValue::Bool(c)),
        frames: s.frames.push(SFrame::Cond(e)),
        ..s
    };
    popped(s.frames, SFrame::Cond(e));
    reach_step(p, s, u);
    assert(SState { frames: s.frames, ..u } == SState { ctrl: u.ctrl, ..s });
    let t = give(p, SFrame::Cond(e), SValue::Bool(c), s);
    assert(step(p, u) == t);
    t
}

/// The end of a block hands its value on.
proof fn leave_block(p: Program, s: SState, t: SState, v: SValue, env: SEnv)
    requires
        reaches(p, s, t),
        t.frames == s.frames.push(SFrame::Scope),
        t.rng == s.rng,
        t.env == opened(s.env),
        reaches(p, t, handing(t, v, env)),
        same_below(env, t.env),
    ensures
        reaches(p, s, SState { ctrl: SCtrl::Ret(v), ..s }),
{
    let u = handing(t, v, env);
    reach_on(p, s, t, u);
    reach_step(p, s, u);
    popped(s.frames, SFrame::Scope);
    assert(opened(s.env).drop_last() =~= s.env);
    assert(step(p, u) == (SState { ctrl: SCtrl::Ret(v), ..s }));
}

/// A block in a branch comes to its value.
proof fn agree_block_value(p: Program, s: SState, t: SState, sc: Env, v: Seq<Stmt>)
    requires
        reaches(p, s, t),
        mirrors(sc, s.env),
        calm_value(opened(sc), v),
        t == (SState {
            ctrl: SCtrl::Run(v, 0, SValue::Unit),
            frames: s.frames.push(SFrame::Scope),
            env: opened(s.env),
            ..s
        }),
    ensures
        lands_int(p, s, run_value(false, opened(sc), v)),
    decreases v, v.len() + 2,
{
    mirrors_opened(sc, s.env);
    agree_value(p, t, opened(sc), v);
    match run_value(false, opened(sc), v) {
        Ev::Val(n) => {
            let env = choose|env: SEnv|
                reaches(p, t, #[trigger] handing(t, word(n), env)) && same_below(env, t.env);
            leave_block(p, s, t, word(n), env);
        }
        Ev::Ret(x) => exit_through(p, s, t, SFrame::Scope, x),
        Ev::Stop => stop_through(p, s, t, SFrame::Scope),
        Ev::Bad => {}
    }
}

proof fn agree_if(p: Program, s: SState, sc: Env, e: Expr)
    requires
        s.ctrl == SCtrl::Eval(e),
        mirrors(sc, s.env),
        s.env.len() > 0,
        calm_int(sc, e),
        e is If,
    ensures
        lands_int(p, s, run_int(false, sc, e)),
    decreases e, 0nat,
{
    match e {
        Expr::If { cond, then_block, else_block, .. } => {
            let t = to_cond(p, s, e);
            let f = SFrame::Cond(e);
            agree_bool(p, t, sc, *cond);
            match run_bool(false, sc, *cond) {
                Ev::Val(c) => {
                    reach_on(p, s, t, SState { ctrl: SCtrl::Ret(SValue::Bool(c)), ..t });
                    let u = to_branch(p, s, e, c);
                    if c {
                        agree_block_value(p, s, u, sc, then_block.stmts@);
                    } else {
                        match else_block {
                            Some(x) => match *x {
                                ElseBranch::Block(b) => {
                                    agree_block_value(p, s, u, sc, b.stmts@);
                                }
                                ElseBranch::If(y) => {
                                    agree_int(p, u, sc, y);
                                    match run_int(false, sc, y) {
                                        Ev::Val(n) => {
                                            reach_on(
                                                p,
                                                s,
                                                u,
                                                SState { ctrl: SCtrl::Ret(word(n)), ..u },
                                            );
                                            assert(SState { ctrl: SCtrl::Ret(word(n)), ..u }
                                                == SState { ctrl: SCtrl::Ret(word(n)), ..s });
                                        }
                                        Ev::Ret(v) => exit_from(p, s, u, v),
                                        Ev::Stop => stop_from(p, s, u),
                                        Ev::Bad => {}
                                    }
                                }
                            },
                            None => {}
                        }
                    }
                }
                Ev::Ret(v) => exit_through(p, s, t, f, v),
                Ev::Stop => stop_through(p, s, t, f),
                Ev::Bad => {}
            }
        }
        _ => {}
    }
}

/// The statements of a block, and then its last expression.
proof fn agree_value(p: Program, s: SState, sc: Env, v: Seq<Stmt>)
    requires
        s.ctrl == SCtrl::Run(v, 0, SValue::Unit),
        mirrors(sc, s.env),
        s.env.len() > 0,
        calm_value(sc, v),
    ensures
        lands_value(p, s, run_value(false, sc, v)),
    decreases v, v.len() + 1,
{
    if v.len() > 0 {
        match v[v.len() - 1] {
            Stmt::Expr(e) => {
                let n = (v.len() - 1) as nat;
                agree_stmts(p, s, sc, v, n);
                match run_stmts(false, sc, v, n) {
                    Ev::Val(c) => {
                        let (last, env) = choose|last: SValue, env: SEnv|
                            reaches(p, s, #[trigger] before(s, v, n, last, env)) && mirrors(c, env)
                                && same_below(env, s.env);
                        let t = before(s, v, n, last, env);
                        let f = SFrame::Stmt(v, n as int);
                        reach_step(p, s, t);
                        let u = step(p, t);
                        assert(u == (SState {
                            ctrl: SCtrl::Eval(e),
                            frames: s.frames.push(f),
                            env,
                            ..s
                        }));
                        agree_int(p, u, c, e);
                        match run_int(false, c, e) {
                            Ev::Val(k) => {
                                let w = SState { ctrl: SCtrl::Ret(word(k)), ..u };
                                reach_on(p, s, u, w);
                                reach_step(p, s, w);
                                popped(s.frames, f);
                                let x = before(s, v, v.len(), word(k), env);
                                assert(step(p, w) == x);
                                reach_step(p, s, x);
                                assert(step(p, x) == handing(s, word(k), env));
                            }
                            Ev::Ret(y) => exit_through(p, s, u, f, y),
                            Ev::Stop => stop_through(p, s, u, f),
                            Ev::Bad => {}
                        }
                    }
                    _ => {}
                }
            }
            _ => {}
        }
    }
}

/// A truth-valued expression comes to its truth value.
proof fn agree_bool(p: Program, s: SState, sc: Env, e: Expr)
    requires
        s.ctrl == SCtrl::Eval(e),
        mirrors(sc, s.env),
        s.env.len() > 0,
        calm_bool(sc, e),
    ensures
        lands_bool(p, s, run_bool(false, sc, e)),
    decreases e, 1nat,
{
    match e {
        Expr::Bool(_, _) => {
            reach_self(p, s);
        }
        Expr::Unary(UnOp::Not, a, _) => {
            let t = to_operand(p, s, e);
            let f = SFrame::Args(e, Seq::empty());
            agree_bool(p, t, sc, *a);
            match run_bool(false, sc, *a) {
                Ev::Val(b) => {
                    let u = SState { ctrl: SCtrl::Ret(SValue::Bool(b)), ..t };
                    reach_on(p, s, t, u);
                    reach_step(p, s, u);
                    popped(s.frames, f);
                    assert(Seq::<SValue>::empty().push(SValue::Bool(b)) =~= seq![SValue::Bool(b)]);
                    assert(step(p, u) == (SState { ctrl: SCtrl::Ret(SValue::Bool(!b)), ..s }));
                }
                Ev::Ret(v) => exit_through(p, s, t, f, v),
                Ev::Stop => stop_through(p, s, t, f),
                Ev::Bad => {}
            }
        }
        Expr::Binary(op, l, r, span) => {
            if op is And || op is Or {
                agree_logic(p, s, sc, e);
            } else if is_comparison(op) {
                if (op is Eq || op is NotEq) && bool_shaped(*l) && bool_shaped(*r) {
                    agree_iff(p, s, sc, e);
                } else {
                    agree_compare(p, s, sc, e);
                }
            }
        }
        _ => {}
    }
}

proof fn agree_compare(p: Program, s: SState, sc: Env, e: Expr)
    requires
        s.ctrl == SCtrl::Eval(e),
        mirrors(sc, s.env),
        s.env.len() > 0,
        calm_bool(sc, e),
        e matches Expr::Binary(op, l, r, _) && is_comparison(op) && !((op is Eq || op is NotEq)
            && bool_shaped(*l) && bool_shaped(*r)),
    ensures
        lands_bool(p, s, run_bool(false, sc, e)),
    decreases e, 0nat,
{
    match e {
        Expr::Binary(op, l, r, span) => {
            let t = to_operand(p, s, e);
            let f = SFrame::Args(e, Seq::empty());
            agree_int(p, t, sc, *l);
            match run_int(false, sc, *l) {
                Ev::Val(a) => {
                    reach_on(p, s, t, SState { ctrl: SCtrl::Ret(word(a)), ..t });
                    let u = to_second(p, s, e, word(a));
                    let g = SFrame::Args(e, seq![word(a)]);
                    agree_int(p, u, sc, *r);
                    match run_int(false, sc, *r) {
                        Ev::Val(b) => {
                            reach_on(p, s, u, SState { ctrl: SCtrl::Ret(word(b)), ..u });
                            to_result(
                                p,
                                s,
                                e,
                                word(a),
                                word(b),
                                SValue::Bool(compared(op, a, b)),
                            );
                        }
                        Ev::Ret(v) => exit_through(p, s, u, g, v),
                        Ev::Stop => stop_through(p, s, u, g),
                        Ev::Bad => {}
                    }
                }
                Ev::Ret(v) => exit_through(p, s, t, f, v),
                Ev::Stop => stop_through(p, s, t, f),
                Ev::Bad => {}
            }
        }
        _ => {}
    }
}

proof fn agree_iff(p: Program, s: SState, sc: Env, e: Expr)
    requires
        s.ctrl == SCtrl::Eval(e),
        mirrors(sc, s.env),
        s.env.len() > 0,
        calm_bool(sc, e),
        e matches Expr::Binary(op, l, r, _) && (op is Eq || op is NotEq) && bool_shaped(*l)
            && bool_shaped(*r),
    ensures
        lands_bool(p, s, run_bool(false, sc, e)),
    decreases e, 0nat,
{
    match e {
        Expr::Binary(op, l, r, span) => {
            let t = to_operand(p, s, e);
            let f = SFrame::Args(e, Seq::empty());
            agree_bool(p, t, sc, *l);
            match run_bool(false, sc, *l) {
                Ev::Val(a) => {
                    let av = SValue::Bool(a);
                    reach_on(p, s, t, SState { ctrl: SCtrl::Ret(av), ..t });
                    let u = to_second(p, s, e, av);
                    let g = SFrame::Args(e, seq![av]);
                    agree_bool(p, u, sc, *r);
                    match run_bool(false, sc, *r) {
                        Ev::Val(b) => {
                            let bv = SValue::Bool(b);
                            reach_on(p, s, u, SState { ctrl: SCtrl::Ret(bv), ..u });
                            to_result(p, s, e, av, bv, SValue::Bool((a == b) == (op is Eq)));
                        }
                        Ev::Ret(v) => exit_through(p, s, u, g, v),
                        Ev::Stop => stop_through(p, s, u, g),
                        Ev::Bad => {}
                    }
                }
                Ev::Ret(v) => exit_through(p, s, t, f, v),
                Ev::Stop => stop_through(p, s, t, f),
                Ev::Bad => {}
            }
        }
        _ => {}
    }
}

proof fn agree_logic(p: Program, s: SState, sc: Env, e: Expr)
    requires
        s.ctrl == SCtrl::Eval(e),
        mirrors(sc, s.env),
        s.env.len() > 0,
        calm_bool(sc, e),
        e matches Expr::Binary(op, _, _, _) && (op is And || op is Or),
    ensures
        lands_bool(p, s, run_bool(false, sc, e)),
    decreases e, 0nat,
{
    match e {
        Expr::Binary(op, l, r, span) => {
            reach_self(p, s);
            let t = step(p, s);
            let f = SFrame::Logic(e);
            assert(t == (SState { ctrl: SCtrl::Eval(*l), frames: s.frames.push(f), ..s }));
            agree_bool(p, t, sc, *l);
            match run_bool(false, sc, *l) {
                Ev::Val(a) => {
                    let u = SState { ctrl: SCtrl::Ret(SValue::Bool(a)), ..t };
                    reach_on(p, s, t, u);
                    reach_step(p, s, u);
                    popped(s.frames, f);
                    let w = step(p, u);
                    if a == (op is And) {
                        let g = SFrame::LogicRight(e);
                        assert(w == (SState {
                            ctrl: SCtrl::Eval(*r),
                            frames: s.frames.push(g),
                            ..s
                        }));
                        agree_bool(p, w, sc, *r);
                        match run_bool(false, sc, *r) {
                            Ev::Val(b) => {
                                let x = SState { ctrl: SCtrl::Ret(SValue::Bool(b)), ..w };
                                reach_on(p, s, w, x);
                                reach_step(p, s, x);
                                popped(s.frames, g);
                                assert(step(p, x) == (SState {
                                    ctrl: SCtrl::Ret(SValue::Bool(b)),
                                    ..s
                                }));
                            }
                            Ev::Ret(v) => exit_through(p, s, w, g, v),
                            Ev::Stop => stop_through(p, s, w, g),
                            Ev::Bad => {}
                        }
                    } else {
                        assert(w == (SState { ctrl: SCtrl::Ret(SValue::Bool(a)), ..s }));
                    }
                }
                Ev::Ret(v) => exit_through(p, s, t, f, v),
                Ev::Stop => stop_through(p, s, t, f),
                Ev::Bad => {}
            }
        }
        _ => {}
    }
}

/// The first `n` statements leave the bindings that they should.
proof fn agree_stmts(p: Program, s: SState, sc: Env, v: Seq<Stmt>, n: nat)
    requires
        s.ctrl matches SCtrl::Run(w, i, _) && w == v && i == 0,
        mirrors(sc, s.env),
        s.env.len() > 0,
        n <= v.len(),
        calm_stmts(sc, v, n),
    ensures
        lands_stmts(p, s, v, n, run_stmts(false, sc, v, n)),
    decreases v, n,
{
    if n == 0 {
        reach_self(p, s);
        match s.ctrl {
            SCtrl::Run(_, _, last) => {
                assert(before(s, v, 0, last, s.env) == s);
            }
            _ => {}
        }
    } else {
        let m = (n - 1) as nat;
        agree_stmts(p, s, sc, v, m);
        match run_stmts(false, sc, v, m) {
            Ev::Val(c) => {
                let (last, env) = choose|last: SValue, env: SEnv|
                    reaches(p, s, #[trigger] before(s, v, m, last, env)) && mirrors(c, env)
                        && same_below(env, s.env);
                let t = before(s, v, m, last, env);
                agree_stmt(p, t, c, v, m);
                match run_stmt(false, c, v[m as int]) {
                    Ev::Val(d) => {
                        let (next, inner) = choose|next: SValue, inner: SEnv|
                            reaches(p, t, #[trigger] before(t, v, (m + 1) as nat, next, inner))
                                && mirrors(d, inner) && same_below(inner, t.env);
                        let u = before(t, v, (m + 1) as nat, next, inner);
                        reach_on(p, s, t, u);
                        assert(u == before(s, v, n, next, inner));
                    }
                    Ev::Ret(x) => exit_from(p, s, t, x),
                    Ev::Stop => stop_from(p, s, t),
                    Ev::Bad => {}
                }
            }
            _ => {}
        }
    }
}

/// Whether an integer fits its declared type.
proof fn fits_integer(p: Program, n: int, t: crate::ast::STy, span: Span)
    requires
        small(n),
        integer(t),
    ensures
        least(t) <= n <= greatest(t) ==> fits(p, word(n), t, span) == SCheck::Fine,
        !(least(t) <= n <= greatest(t)) ==> fits(p, word(n), t, span) is Fail,
{
}

proof fn agree_stmt(p: Program, s: SState, sc: Env, v: Seq<Stmt>, m: nat)
    requires
        m < v.len(),
        s.ctrl matches SCtrl::Run(w, i, _) && w == v && i == m,
        mirrors(sc, s.env),
        s.env.len() > 0,
        calm_stmt(sc, v[m as int]),
    ensures
        lands_stmts(p, s, v, (m + 1) as nat, run_stmt(false, sc, v[m as int])),
    decreases v[m as int], 1nat,
{
    reach_self(p, s);
    let t = step(p, s);
    let f = SFrame::Stmt(v, m as int);
    let k = (m + 1) as nat;
    match v[m as int] {
        Stmt::Let { name, ty, value, span } => {
            assert(t == (SState { ctrl: SCtrl::Eval(value), frames: s.frames.push(f), ..s }));
            agree_int(p, t, sc, value);
            match run_int(false, sc, value) {
                Ev::Val(n) => {
                    let u = SState { ctrl: SCtrl::Ret(word(n)), ..t };
                    reach_on(p, s, t, u);
                    reach_step(p, s, u);
                    popped(s.frames, f);
                    if integer(ty@) {
                        fits_integer(p, n, ty@, span);
                        mirrors_defined(sc, s.env, name@, n, ty@);
                        let env = defined(s.env, name@, (word(n), ty@));
                        assert(env.drop_last() =~= s.env.drop_last());
                        if least(ty@) <= n <= greatest(ty@) {
                            assert(step(p, u) == before(s, v, k, SValue::Unit, env));
                        } else {
                            assert(step(p, u).ctrl is Failed);
                            assert(reaches(p, s, step(p, u)) && no_result(step(p, u), s.frames));
                        }
                    }
                }
                Ev::Ret(x) => exit_through(p, s, t, f, x),
                Ev::Stop => stop_through(p, s, t, f),
                Ev::Bad => {}
            }
        }
        Stmt::Return { value, .. } => match value {
            Some(e) => {
                assert(t == (SState { ctrl: SCtrl::Eval(e), frames: s.frames.push(f), ..s }));
                agree_int(p, t, sc, e);
                match run_int(false, sc, e) {
                    Ev::Val(n) => {
                        let u = SState { ctrl: SCtrl::Ret(word(n)), ..t };
                        reach_on(p, s, t, u);
                        reach_step(p, s, u);
                        popped(s.frames, f);
                        let w = SState { ctrl: SCtrl::Unwind(word(n)), env: s.env, ..s };
                        assert(step(p, u) == w);
                        assert(w.as_is() == w);
                    }
                    Ev::Ret(x) => exit_through(p, s, t, f, x),
                    Ev::Stop => stop_through(p, s, t, f),
                    Ev::Bad => {}
                }
            }
            None => {
                assert(t.ctrl == SCtrl::Unwind(SValue::Unit) && t.frames == s.frames);
                assert(reaches(p, s, t) && no_result(t, s.frames));
            }
        },
        Stmt::Expr(e) => {
            assert(t == (SState { ctrl: SCtrl::Eval(e), frames: s.frames.push(f), ..s }));
            agree_branch(p, t, sc, e);
            match run_branch(false, sc, e) {
                Ev::Val(_) => {
                    let x = choose|x: SValue| reaches(p, t, #[trigger] handing(t, x, t.env));
                    let u = handing(t, x, t.env);
                    reach_on(p, s, t, u);
                    reach_step(p, s, u);
                    popped(s.frames, f);
                    assert(step(p, u) == before(s, v, k, x, s.env));
                }
                Ev::Ret(x) => exit_through(p, s, t, f, x),
                Ev::Stop => stop_through(p, s, t, f),
                Ev::Bad => {}
            }
        }
        Stmt::While { .. } => {}
        Stmt::Audited { body, .. } => {
            let g = SFrame::Audited(v, m as int);
            assert(t == (SState {
                ctrl: SCtrl::Run(body@, 0, SValue::Unit),
                frames: s.frames.push(g),
                env: opened(s.env),
                ..s
            }));
            mirrors_opened(sc, s.env);
            agree_stmts(p, t, opened(sc), body@, body@.len());
            match run_stmts(false, opened(sc), body@, body@.len()) {
                Ev::Val(c) => {
                    let n = body@.len();
                    let (last, env) = choose|last: SValue, env: SEnv|
                        reaches(p, t, #[trigger] before(t, body@, n, last, env)) && mirrors(c, env)
                            && same_below(env, t.env);
                    let u = before(t, body@, n, last, env);
                    reach_on(p, s, t, u);
                    reach_step(p, s, u);
                    let w = step(p, u);
                    assert(w == handing(t, last, env));
                    reach_step(p, s, w);
                    popped(s.frames, g);
                    assert(opened(s.env).drop_last() =~= s.env);
                    assert(step(p, w) == before(s, v, k, SValue::Unit, s.env));
                }
                Ev::Ret(x) => exit_through(p, s, t, g, x),
                Ev::Stop => stop_through(p, s, t, g),
                Ev::Bad => {}
            }
        }
    }
}

/// A block in a branch runs to its end.
proof fn agree_block(p: Program, s: SState, t: SState, sc: Env, v: Seq<Stmt>)
    requires
        reaches(p, s, t),
        mirrors(sc, s.env),
        calm_stmts(opened(sc), v, v.len()),
        t == (SState {
            ctrl: SCtrl::Run(v, 0, SValue::Unit),
            frames: s.frames.push(SFrame::Scope),
            env: opened(s.env),
            ..s
        }),
    ensures
        lands_branch(p, s, ran(run_stmts(false, opened(sc), v, v.len()))),
    decreases v, v.len() + 1,
{
    mirrors_opened(sc, s.env);
    agree_stmts(p, t, opened(sc), v, v.len());
    match run_stmts(false, opened(sc), v, v.len()) {
        Ev::Val(c) => {
            let n = v.len();
            let (last, env) = choose|last: SValue, env: SEnv|
                reaches(p, t, #[trigger] before(t, v, n, last, env)) && mirrors(c, env)
                    && same_below(env, t.env);
            let u = before(t, v, n, last, env);
            reach_step(p, t, u);
            assert(step(p, u) == handing(t, last, env));
            leave_block(p, s, t, last, env);
            assert(handing(s, last, s.env) == SState { ctrl: SCtrl::Ret(last), ..s });
        }
        Ev::Ret(x) => exit_through(p, s, t, SFrame::Scope, x),
        Ev::Stop => stop_through(p, s, t, SFrame::Scope),
        Ev::Bad => {}
    }
}

proof fn agree_branch(p: Program, s: SState, sc: Env, e: Expr)
    requires
        s.ctrl == SCtrl::Eval(e),
        mirrors(sc, s.env),
        s.env.len() > 0,
        calm_branch(sc, e),
    ensures
        lands_branch(p, s, run_branch(false, sc, e)),
    decreases e, 2nat,
{
    match e {
        Expr::If { cond, then_block, else_block, .. } => {
            let t = to_cond(p, s, e);
            let f = SFrame::Cond(e);
            agree_bool(p, t, sc, *cond);
            match run_bool(false, sc, *cond) {
                Ev::Val(c) => {
                    reach_on(p, s, t, SState { ctrl: SCtrl::Ret(SValue::Bool(c)), ..t });
                    let u = to_branch(p, s, e, c);
                    if c {
                        agree_block(p, s, u, sc, then_block.stmts@);
                    } else {
                        match else_block {
                            Some(x) => match *x {
                                ElseBranch::Block(b) => {
                                    agree_block(p, s, u, sc, b.stmts@);
                                }
                                ElseBranch::If(y) => {
                                    agree_branch(p, u, sc, y);
                                    match run_branch(false, sc, y) {
                                        Ev::Val(_) => {
                                            let w = choose|w: SValue|
                                                reaches(p, u, #[trigger] handing(u, w, u.env));
                                            reach_on(p, s, u, handing(u, w, u.env));
                                            assert(handing(u, w, u.env) == handing(s, w, s.env));
                                        }
                                        Ev::Ret(v) => exit_from(p, s, u, v),
                                        Ev::Stop => stop_from(p, s, u),
                                        Ev::Bad => {}
                                    }
                                }
                            },
                            None => {
                                assert(u == handing(s, SValue::Unit, s.env));
                            }
                        }
                    }
                }
                Ev::Ret(v) => exit_through(p, s, t, f, v),
                Ev::Stop => stop_through(p, s, t, f),
                Ev::Bad => {}
            }
        }
        _ => {
            agree_int(p, s, sc, e);
            match run_int(false, sc, e) {
                Ev::Val(n) => {
                    assert(handing(s, word(n), s.env) == SState { ctrl: SCtrl::Ret(word(n)), ..s });
                }
                _ => {}
            }
        }
    }
}

/// Arguments as a run takes them.
pub open spec fn words(args: Seq<int>) -> Seq<SValue> {
    Seq::new(args.len(), |i: int| word(args[i]))
}

proof fn params_mirror(f: FnDecl, args: Seq<int>, n: nat)
    requires
        args.len() == f.params@.len(),
        n <= args.len(),
        forall|i: int| 0 <= i < args.len() ==> small(#[trigger] args[i]),
    ensures
        mirrors(param_values(f.params@, args, n), param_env(f, words(args), n)),
        param_env(f, words(args), n).len() == 1,
    decreases n,
{
    if n == 0 {
        let none: Env = seq![Map::empty()];
        assert(param_env(f, words(args), 0) =~= seq![Map::empty()]);
        assert(mirrors(none, seq![Map::empty()]));
    } else {
        params_mirror(f, args, (n - 1) as nat);
        mirrors_defined(
            param_values(f.params@, args, (n - 1) as nat),
            param_env(f, words(args), (n - 1) as nat),
            f.params@[n - 1].name@,
            args[n - 1],
            f.params@[n - 1].ty@,
        );
    }
}

proof fn arguments_fit(p: Program, f: FnDecl, args: Seq<int>, n: nat, span: Span)
    requires
        admitted(f, args),
        n <= args.len(),
        forall|i: int| 0 <= i < args.len() ==> small(#[trigger] args[i]),
        forall|i: int| 0 <= i < f.params@.len() ==> integer((#[trigger] f.params@[i]).ty@),
    ensures
        fit_each(p, words(args).take(n as int), param_types(f), span) == SCheck::Fine,
    decreases n,
{
    let w = words(args);
    if n > 0 {
        arguments_fit(p, f, args, (n - 1) as nat, span);
        assert(w.take(n as int).drop_last() =~= w.take(n - 1));
        fits_integer(p, args[n - 1], f.params@[n - 1].ty@, span);
        assert(w.take(n as int).last() == word(args[n - 1]));
    }
}

/// The arguments of a call that a contract admits are machine integers of the types
/// of the parameters.
proof fn admitted_small(f: FnDecl, args: Seq<int>)
    requires
        signature_fault(f) is None,
        admitted(f, args),
    ensures
        forall|i: int| 0 <= i < args.len() ==> small(#[trigger] args[i]),
        forall|i: int| 0 <= i < f.params@.len() ==> integer((#[trigger] f.params@[i]).ty@),
{
    crate::contract_check::odd_param_none(f.params@, 0);
    assert forall|i: int| 0 <= i < args.len() implies small(#[trigger] args[i]) by {
        bounds_are_tight(f.params@[i].ty@);
    }
}

/// The same where no names are given besides the parameters.
proof fn own_runs_agree(p: Program, k: int, args: Seq<int>, span: Span)
    requires
        0 <= k < p.fns@.len(),
        fn_named(p, p.fns@[k].name@) == Some(k),
        signature_fault(p.fns@[k]) is None,
        admitted(p.fns@[k], args),
        calm_stmts(
            opened(inputs(p.fns@[k], Seq::empty(), args)),
            p.fns@[k].body.stmts@,
            p.fns@[k].body.stmts@.len(),
        ),
    ensures
        match runs(p.fns@[k], inputs(p.fns@[k], Seq::empty(), args)) {
            Ev::Ret(v) => small(v) && (least(p.fns@[k].ret@) <= v <= greatest(p.fns@[k].ret@)
                ==> exists|t: SState|
                #[trigger] reaches(p, begun(p, p.fns@[k].name@, words(args), span), t) && t.ctrl
                    == SCtrl::Done(word(v))) && (!(least(p.fns@[k].ret@) <= v <= greatest(
                p.fns@[k].ret@,
            )) ==> exists|t: SState|
                #[trigger] reaches(p, begun(p, p.fns@[k].name@, words(args), span), t)
                    && t.ctrl is Failed),
            Ev::Bad => true,
            _ => exists|t: SState|
                #[trigger] reaches(p, begun(p, p.fns@[k].name@, words(args), span), t)
                    && t.ctrl is Failed,
        },
{
    let f = p.fns@[k];
    let body = f.body.stmts@;
    let sc = inputs(f, Seq::empty(), args);
    admitted_small(f, args);
    params_mirror(f, args, args.len());
    arguments_fit(p, f, args, args.len(), span);
    assert(words(args).take(args.len() as int) =~= words(args));
    let s = begun(p, f.name@, words(args), span);
    let env0: SEnv = Seq::empty();
    let call = SFrame::Call(k, span, env0);
    let none = Seq::<SFrame>::empty();
    assert(s == (SState {
        ctrl: SCtrl::Run(body, 0, SValue::Unit),
        frames: none.push(call),
        env: opened(param_env(f, words(args), words(args).len())),
        rng: None,
    }));
    mirrors_opened(sc, param_env(f, words(args), args.len()));
    agree_stmts(p, s, opened(sc), body, body.len());
    popped(none, call);
    bounds_are_tight(f.ret@);
    match runs(f, sc) {
        Ev::Ret(v) => {
            let env = choose|env: SEnv|
                reaches(p, s, #[trigger] SState { ctrl: SCtrl::Unwind(word(v)), env, ..s }.as_is());
            let t = SState { ctrl: SCtrl::Unwind(word(v)), env, ..s };
            assert(t.as_is() == t);
            reach_step(p, s, t);
            let u = step(p, t);
            fits_integer(p, v, f.ret@, span);
            if least(f.ret@) <= v <= greatest(f.ret@) {
                reach_step(p, s, u);
                let w = step(p, u);
                assert(w.ctrl == SCtrl::Done(word(v)));
                assert(reaches(p, s, w));
            } else {
                assert(u.ctrl is Failed);
                assert(reaches(p, s, u));
            }
        }
        Ev::Val(c) => {
            let n = body.len();
            let (last, env) = choose|last: SValue, env: SEnv|
                reaches(p, s, #[trigger] before(s, body, n, last, env)) && mirrors(c, env)
                    && same_below(env, s.env);
            let t = before(s, body, n, last, env);
            reach_step(p, s, t);
            let u = step(p, t);
            reach_step(p, s, u);
            let w = step(p, u);
            assert(w.ctrl is Failed);
            assert(reaches(p, s, w));
        }
        Ev::Stop => {
            let t = choose|t: SState| #[trigger] reaches(p, s, t) && no_result(t, s.frames);
            if !(t.ctrl is Failed) {
                reach_step(p, s, t);
                let u = step(p, t);
                assert(fits(p, SValue::Unit, f.ret@, span) is Fail);
                assert(u.ctrl is Failed);
                assert(reaches(p, s, u));
            }
        }
        Ev::Bad => {}
    }
}

/// What is at its end stays there.
proof fn ends_stay(p: Program, s: SState, a: nat, b: nat)
    requires
        a <= b,
        steps(p, s, a).ctrl is Done || steps(p, s, a).ctrl is Failed,
    ensures
        steps(p, s, b) == steps(p, s, a),
    decreases b,
{
    if a < b {
        ends_stay(p, s, a, (b - 1) as nat);
    }
}

proof fn one_end(p: Program, s: SState, t: SState, u: SState)
    requires
        reaches(p, s, t),
        reaches(p, s, u),
        t.ctrl is Done || t.ctrl is Failed,
        u.ctrl is Done || u.ctrl is Failed,
    ensures
        t == u,
{
    let a = choose|n: nat| #[trigger] steps(p, s, n) == t;
    let b = choose|n: nat| #[trigger] steps(p, s, n) == u;
    if a <= b {
        ends_stay(p, s, a, b);
    } else {
        ends_stay(p, s, b, a);
    }
}

/// Every name of `a` has the same value in `b`.
pub open spec fn wider(a: Env, b: Env) -> bool {
    &&& a.len() > 0
    &&& a.len() == b.len()
    &&& forall|x: Seq<char>| #[trigger] lookup(a, x) is Some ==> lookup(b, x) == lookup(a, x)
}

proof fn wider_opened(a: Env, b: Env)
    requires
        wider(a, b),
    ensures
        wider(opened(a), opened(b)),
{
    assert(opened(a).drop_last() =~= a);
    assert(opened(b).drop_last() =~= b);
    assert forall|x: Seq<char>| #[trigger] lookup(opened(a), x) is Some implies lookup(opened(b), x)
        == lookup(opened(a), x) by {
        assert(lookup(a, x) is Some);
    }
}

proof fn lookup_given(a: Env, x: Seq<char>, n: int, y: Seq<char>)
    requires
        a.len() > 0,
    ensures
        lookup(defined(a, x, n), y) == if x == y {
            Some(n)
        } else {
            lookup(a, y)
        },
{
    assert(defined(a, x, n).drop_last() =~= a.drop_last());
}

proof fn wider_defined(a: Env, b: Env, x: Seq<char>, n: int)
    requires
        wider(a, b),
    ensures
        wider(defined(a, x, n), defined(b, x, n)),
{
    assert forall|y: Seq<char>| #[trigger] lookup(defined(a, x, n), y) is Some implies lookup(
        defined(b, x, n),
        y,
    ) == lookup(defined(a, x, n), y) by {
        lookup_given(a, x, n, y);
        lookup_given(b, x, n, y);
        if x != y {
            assert(lookup(a, y) is Some);
        }
    }
}

/// A part that finds its names comes to the same where there are more names.
proof fn wide_int(pred: bool, a: Env, b: Env, e: Expr)
    requires
        wider(a, b),
        !(run_int(pred, a, e) is Bad),
    ensures
        run_int(pred, b, e) == run_int(pred, a, e),
    decreases e, 1nat,
{
    match e {
        Expr::Ident(name, _) => {
            assert(lookup(a, name@) is Some);
        }
        Expr::Unary(UnOp::Neg, x, _) => wide_int(pred, a, b, *x),
        Expr::Binary(_, l, r, _) => {
            wide_int(pred, a, b, *l);
            if run_int(pred, a, *l) is Val {
                wide_int(pred, a, b, *r);
            }
        }
        Expr::If { cond, then_block, else_block, .. } => {
            wide_bool(pred, a, b, *cond);
            wider_opened(a, b);
            if run_bool(pred, a, *cond) == Ev::Val(true) {
                wide_value(pred, opened(a), opened(b), then_block.stmts@);
            } else if run_bool(pred, a, *cond) is Val {
                if let Some(x) = else_block {
                    match *x {
                        ElseBranch::Block(y) => wide_value(pred, opened(a), opened(b), y.stmts@),
                        ElseBranch::If(y) => wide_int(pred, a, b, y),
                    }
                }
            }
        }
        _ => {}
    }
}

proof fn wide_value(pred: bool, a: Env, b: Env, v: Seq<Stmt>)
    requires
        wider(a, b),
        !(run_value(pred, a, v) is Bad),
    ensures
        run_value(pred, b, v) == run_value(pred, a, v),
    decreases v, v.len(),
{
    if v.len() > 0 {
        let last = v[v.len() - 1];
        assert(decreases_to!(v => last));
        if let Stmt::Expr(e) = last {
            let n = (v.len() - 1) as nat;
            wide_stmts(pred, a, b, v, n);
            if let Ev::Val(c) = run_stmts(pred, a, v, n) {
                wide_int(pred, c, run_stmts(pred, b, v, n)->Val_0, e);
            }
        }
    }
}

proof fn wide_bool(pred: bool, a: Env, b: Env, e: Expr)
    requires
        wider(a, b),
        !(run_bool(pred, a, e) is Bad),
    ensures
        run_bool(pred, b, e) == run_bool(pred, a, e),
    decreases e, 1nat,
{
    match e {
        Expr::Unary(UnOp::Not, x, _) => wide_bool(pred, a, b, *x),
        Expr::Binary(op, l, r, _) => {
            if op is And || op is Or {
                wide_bool(pred, a, b, *l);
                if run_bool(pred, a, *l) == Ev::Val(op is And) {
                    wide_bool(pred, a, b, *r);
                }
            } else if is_comparison(op) {
                if (op is Eq || op is NotEq) && bool_shaped(*l) && bool_shaped(*r) {
                    wide_bool(pred, a, b, *l);
                    if run_bool(pred, a, *l) is Val {
                        wide_bool(pred, a, b, *r);
                    }
                } else {
                    wide_int(pred, a, b, *l);
                    if run_int(pred, a, *l) is Val {
                        wide_int(pred, a, b, *r);
                    }
                }
            }
        }
        _ => {}
    }
}

/// What statements come to in two scopes of which one has more names.
spec fn alike(x: Ev<Env>, y: Ev<Env>) -> bool {
    match x {
        Ev::Val(c) => y matches Ev::Val(d) && wider(c, d),
        _ => y == x,
    }
}

proof fn wide_stmts(pred: bool, a: Env, b: Env, v: Seq<Stmt>, n: nat)
    requires
        wider(a, b),
        !(run_stmts(pred, a, v, n) is Bad),
    ensures
        alike(run_stmts(pred, a, v, n), run_stmts(pred, b, v, n)),
    decreases v, n,
{
    if n > 0 && n <= v.len() {
        wide_stmts(pred, a, b, v, (n - 1) as nat);
        if let Ev::Val(c) = run_stmts(pred, a, v, (n - 1) as nat) {
            wide_stmt(pred, c, run_stmts(pred, b, v, (n - 1) as nat)->Val_0, v[n - 1]);
        }
    }
}

proof fn wide_stmt(pred: bool, a: Env, b: Env, s: Stmt)
    requires
        wider(a, b),
        !(run_stmt(pred, a, s) is Bad),
    ensures
        alike(run_stmt(pred, a, s), run_stmt(pred, b, s)),
    decreases s, 1nat,
{
    match s {
        Stmt::Let { name, value, .. } => {
            wide_int(pred, a, b, value);
            if let Ev::Val(n) = run_int(pred, a, value) {
                wider_defined(a, b, name@, n);
            }
        }
        Stmt::Return { value, .. } => {
            if let Some(e) = value {
                wide_int(pred, a, b, e);
            }
        }
        Stmt::Expr(e) => wide_branch(pred, a, b, e),
        Stmt::Audited { body, .. } => {
            wider_opened(a, b);
            wide_stmts(pred, opened(a), opened(b), body@, body@.len());
        }
        Stmt::While { .. } => {}
    }
}

proof fn wide_branch(pred: bool, a: Env, b: Env, e: Expr)
    requires
        wider(a, b),
        !(run_branch(pred, a, e) is Bad),
    ensures
        run_branch(pred, b, e) == run_branch(pred, a, e),
    decreases e, 2nat,
{
    match e {
        Expr::If { cond, then_block, else_block, .. } => {
            wide_bool(pred, a, b, *cond);
            wider_opened(a, b);
            if run_bool(pred, a, *cond) == Ev::Val(true) {
                let v = then_block.stmts@;
                wide_stmts(pred, opened(a), opened(b), v, v.len());
            } else if run_bool(pred, a, *cond) is Val {
                if let Some(x) = else_block {
                    match *x {
                        ElseBranch::Block(y) => {
                            wide_stmts(pred, opened(a), opened(b), y.stmts@, y.stmts@.len());
                        }
                        ElseBranch::If(y) => wide_branch(pred, a, b, y),
                    }
                }
            }
        }
        _ => wide_int(pred, a, b, e),
    }
}

/// The parameters have their values whatever names are given besides.
proof fn inputs_wider(f: FnDecl, args: Seq<int>, extra: Seq<(String, i64)>, n: nat)
    ensures
        wider(inputs(f, Seq::empty(), args), given_values(f, args, extra, n)),
    decreases n,
{
    let a = inputs(f, Seq::empty(), args);
    if n == 0 {
        param_values_len(f, args, f.params@.len());
    } else {
        inputs_wider(f, args, extra, (n - 1) as nat);
        let b = given_values(f, args, extra, (n - 1) as nat);
        let x = extra[n - 1].0@;
        if !is_param(f.params@, x) {
            let c = defined(b, x, extra[n - 1].1 as int);
            assert forall|y: Seq<char>| #[trigger] lookup(a, y) is Some implies lookup(c, y)
                == lookup(a, y) by {
                lookup_given(b, x, extra[n - 1].1 as int, y);
                param_names(f, args, f.params@.len(), x);
            }
        }
    }
}

proof fn param_values_len(f: FnDecl, args: Seq<int>, n: nat)
    ensures
        param_values(f.params@, args, n).len() == 1,
    decreases n,
{
    if n > 0 {
        param_values_len(f, args, (n - 1) as nat);
    }
}

/// Only parameters have values before other names are given one.
proof fn param_names(f: FnDecl, args: Seq<int>, n: nat, x: Seq<char>)
    requires
        n <= f.params@.len(),
        !is_param(f.params@, x),
    ensures
        lookup(param_values(f.params@, args, n), x) is None,
    decreases n,
{
    if n == 0 {
        let none: Env = seq![Map::empty()];
        reveal_with_fuel(lookup, 3);
        assert(none.drop_last() =~= Seq::empty());
        assert(lookup(none, x) is None);
    } else {
        param_names(f, args, (n - 1) as nat, x);
        param_values_len(f, args, (n - 1) as nat);
        lookup_given(
            param_values(f.params@, args, (n - 1) as nat),
            f.params@[n - 1].name@,
            args[n - 1],
            x,
        );
    }
}

/// Names that are given a value besides the parameters change nothing for a function
/// that reads only its own.
pub proof fn given_names_change_nothing(f: FnDecl, args: Seq<int>, extra: Seq<(String, i64)>)
    requires
        !(runs(f, inputs(f, Seq::empty(), args)) is Bad),
    ensures
        runs(f, inputs(f, Seq::empty(), args)) matches Ev::Ret(v) ==> runs(f, inputs(f, extra, args))
            == Ev::<Env>::Ret(v),
        runs(f, inputs(f, Seq::empty(), args)) is Stop ==> runs(f, inputs(f, extra, args)) is Stop,
        runs(f, inputs(f, Seq::empty(), args)) is Val ==> runs(f, inputs(f, extra, args)) is Val,
{
    let a = inputs(f, Seq::empty(), args);
    let b = inputs(f, extra, args);
    inputs_wider(f, args, extra, extra.len());
    wider_opened(a, b);
    wide_stmts(false, opened(a), opened(b), f.body.stmts@, f.body.stmts@.len());
}

/// A run of the interpreter that calls a function comes to what the contract's run
/// of it comes to, whatever names are given a value besides its parameters. The
/// function reads only its own names.
pub proof fn runs_agree(p: Program, k: int, extra: Seq<(String, i64)>, args: Seq<int>, span: Span)
    requires
        0 <= k < p.fns@.len(),
        fn_named(p, p.fns@[k].name@) == Some(k),
        signature_fault(p.fns@[k]) is None,
        admitted(p.fns@[k], args),
        calm_stmts(
            opened(inputs(p.fns@[k], Seq::empty(), args)),
            p.fns@[k].body.stmts@,
            p.fns@[k].body.stmts@.len(),
        ),
        !(runs(p.fns@[k], inputs(p.fns@[k], Seq::empty(), args)) is Bad),
    ensures
        match runs(p.fns@[k], inputs(p.fns@[k], extra, args)) {
            Ev::Ret(v) => small(v) && (least(p.fns@[k].ret@) <= v <= greatest(p.fns@[k].ret@)
                ==> exists|t: SState|
                #[trigger] reaches(p, begun(p, p.fns@[k].name@, words(args), span), t) && t.ctrl
                    == SCtrl::Done(word(v))) && (!(least(p.fns@[k].ret@) <= v <= greatest(
                p.fns@[k].ret@,
            )) ==> exists|t: SState|
                #[trigger] reaches(p, begun(p, p.fns@[k].name@, words(args), span), t)
                    && t.ctrl is Failed),
            Ev::Bad => true,
            _ => exists|t: SState|
                #[trigger] reaches(p, begun(p, p.fns@[k].name@, words(args), span), t)
                    && t.ctrl is Failed,
        },
{
    own_runs_agree(p, k, args, span);
    given_names_change_nothing(p.fns@[k], args, extra);
}

/// A contract that holds is kept by the interpreter: whatever a call returns, on
/// arguments that the types and the preconditions admit and with no arithmetic that
/// leaves the machine integers, is a number that meets every postcondition. The
/// conditions may speak of names that are given a value besides the parameters; a
/// parameter wins over such a name. The function reads only its own names.
pub proof fn proved_contracts_are_kept(
    p: Program,
    k: int,
    pre: Seq<Expr>,
    post: Seq<Expr>,
    extra: Seq<(String, i64)>,
    args: Seq<int>,
    span: Span,
    t: SState,
    w: SValue,
    i: int,
)
    requires
        0 <= k < p.fns@.len(),
        fn_named(p, p.fns@[k].name@) == Some(k),
        signature_fault(p.fns@[k]) is None,
        contract_holds(p.fns@[k], pre, post, extra),
        admitted(p.fns@[k], args),
        pre_holds(pre, inputs(p.fns@[k], extra, args)),
        calm_stmts(
            opened(inputs(p.fns@[k], Seq::empty(), args)),
            p.fns@[k].body.stmts@,
            p.fns@[k].body.stmts@.len(),
        ),
        !(runs(p.fns@[k], inputs(p.fns@[k], Seq::empty(), args)) is Bad),
        reaches(p, begun(p, p.fns@[k].name@, words(args), span), t),
        t.ctrl == SCtrl::Done(w),
        0 <= i < post.len(),
    ensures
        w matches SValue::Int(n) && post_value(
            inputs(p.fns@[k], extra, args),
            n as int,
            post[i],
        ) == Ev::Val(true),
{
    let f = p.fns@[k];
    let s = begun(p, f.name@, words(args), span);
    let given = inputs(f, extra, args);
    runs_agree(p, k, extra, args, span);
    given_names_change_nothing(f, args, extra);
    match runs(f, given) {
        Ev::Ret(v) => {
            let fit = least(f.ret@) <= v <= greatest(f.ret@);
            let u = choose|u: SState|
                #[trigger] reaches(p, s, u) && if fit {
                    u.ctrl == SCtrl::Done(word(v))
                } else {
                    u.ctrl is Failed
                };
            one_end(p, s, t, u);
            assert(post_value(given, v, post[i]) == Ev::Val(true));
        }
        _ => {
            let u = choose|u: SState| #[trigger] reaches(p, s, u) && u.ctrl is Failed;
            one_end(p, s, t, u);
        }
    }
}

} // verus!
