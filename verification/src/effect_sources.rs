//! Effects are not made up: each inferred effect of a function comes from something that
//! it, or a function that it leads to, can ask for.
use crate::ast::{Effect, EffectSet, ElseBranch, Expr, MatchArm, Program, STy, Stmt, TransactSlot};
use crate::bindings::of_type;
use crate::builtin_eval::builtin_call;
use crate::builtins::{builtin_named, Builtin};
use crate::effects::{
    after_stmts, arm_scopes, below, closed_under, least_closed, network_scope, of_arms, of_builtin,
    of_else, of_expr, of_exprs, of_fn, of_slot, of_stmt, of_stmts, param_scope, within, Known,
    Types,
};
use crate::handle_effects::effect_of;
use crate::machine::{apply, SCtrl, SState};
use crate::observability::request_trace;
use crate::request::{SAct, SRequest};
use crate::scopes::{defined, opened};
use crate::token::Span;
use crate::typing::{stopping, transfer, type_of, used, used_arms, used_block, used_else};
use crate::value::SValue;
use vstd::prelude::*;

verus! {

/// Whether a set holds an effect.
pub open spec fn has(s: EffectSet, f: Effect) -> bool {
    match f {
        Effect::Rng => s.rng,
        Effect::Io => s.io,
        Effect::Concurrent => s.concurrent,
        Effect::Network => s.network,
    }
}

/// What a request does to the world: it draws a number, prints or opens or uses a file,
/// starts or waits for something that runs beside or talks to it, or uses the network.
pub open spec fn kind_of(q: SRequest) -> Option<Effect> {
    match q {
        SRequest::Uniform(_) | SRequest::Gaussian { .. } => Some(Effect::Rng),
        SRequest::Print(_) | SRequest::Open(..) => Some(Effect::Io),
        SRequest::Spawn { .. } | SRequest::Join(_) | SRequest::Sandbox { .. } => Some(
            Effect::Concurrent,
        ),
        SRequest::Connect(..) | SRequest::Listen(_) | SRequest::Accept(_) => Some(Effect::Network),
        SRequest::Send(h, _) => handle_kind(h),
        SRequest::Recv(h) => handle_kind(h),
        SRequest::Stop(h) => handle_kind(h),
        SRequest::Arith(..) | SRequest::Builtin(..) | SRequest::Channel => None,
    }
}

/// What a handle belongs to.
pub open spec fn handle_kind(h: SValue) -> Option<Effect> {
    match h {
        SValue::Channel(_) | SValue::Sandbox(_) => Some(Effect::Concurrent),
        SValue::Tcp(_) | SValue::TcpListener(_) => Some(Effect::Network),
        SValue::File(_) => Some(Effect::Io),
        _ => None,
    }
}

/// A call of the builtin can ask for something of this kind, or, for random numbers,
/// change the generator.
pub open spec fn builtin_can(b: Builtin, f: Effect) -> bool {
    exists|vals: Seq<SValue>, r: Option<u64>, span: Span|
        builtin_does(#[trigger] builtin_call(b, vals, r, span), r, f)
}

pub open spec fn builtin_does(x: (SAct, Option<u64>), r: Option<u64>, f: Effect) -> bool {
    (x.0 matches SAct::Ask(q) && kind_of(q) == Some(f)) || (f is Rng && x.1 != r)
}

/// The effects of a builtin are exactly those that a call of it can have: no more, no
/// fewer.
pub proof fn builtin_effects_are_exact(b: Builtin, f: Effect)
    ensures
        has(of_builtin(b), f) <==> builtin_can(b, f),
{
    let at = Span { line: 1, col: 1 };
    let none = Seq::<SValue>::empty();
    if has(of_builtin(b), f) {
        match b {
            Builtin::Print => {
                assert(builtin_does(builtin_call(b, none, None, at), None, f));
            }
            Builtin::RandSeed => {
                let one = seq![SValue::Int(0)];
                assert(one[0] is Int);
                assert(builtin_does(builtin_call(b, one, None, at), None, f));
            }
            Builtin::RandF64 => {
                assert(builtin_does(builtin_call(b, none, Some(0), at), Some(0), f));
            }
            Builtin::RandGaussian => {
                let two = seq![SValue::Float(0), SValue::Float(0)];
                assert(two[0] is Float && two[1] is Float);
                assert(builtin_does(builtin_call(b, two, Some(0), at), Some(0), f));
            }
            _ => {}
        }
    }
    if builtin_can(b, f) {
        let (vals, r, span) = choose|vals: Seq<SValue>, r: Option<u64>, span: Span|
            builtin_does(#[trigger] builtin_call(b, vals, r, span), r, f);
        assert(builtin_does(builtin_call(b, vals, r, span), r, f));
    }
}

/// The effect of a request is the one of its kind, and it is traced under that effect;
/// a request without an effect is not traced. A handle is used as its kind allows.
pub proof fn requests_have_one_effect(q: SRequest, f: Effect)
    requires
        match q {
            SRequest::Send(h, _) => h is Channel || h is Tcp || h is File,
            SRequest::Recv(h) => h is Channel || h is Tcp || h is File,
            SRequest::Stop(h) => h is Sandbox || h is Tcp || h is TcpListener || h is File,
            _ => true,
        },
    ensures
        has(effect_of(q), f) <==> kind_of(q) == Some(f),
        request_trace(q) matches Some(x) ==> kind_of(q) == Some(x.0),
        request_trace(q) is None <==> kind_of(q) is None,
{
}

/// What is known of using a handle of a type is exactly what using one can be: there is
/// a value of that type that does it.
pub proof fn handle_types_have_exact_effects(p: Program, t: STy, f: Effect)
    ensures
        has(transfer(t), f) <==> exists|h: SValue|
            #[trigger] of_type(p, h, t) && (h is Channel || h is Tcp || h is File) && handle_kind(h)
                == Some(f),
        has(stopping(t), f) <==> exists|h: SValue|
            #[trigger] of_type(p, h, t) && (h is Sandbox || h is Tcp || h is TcpListener || h is File)
                && handle_kind(h) == Some(f),
{
    match t {
        STy::Channel(_) => {
            assert(of_type(p, SValue::Channel(0), t));
        }
        STy::Tcp => {
            assert(of_type(p, SValue::Tcp(0), t));
        }
        STy::File => {
            assert(of_type(p, SValue::File(0), t));
        }
        STy::Sandbox => {
            assert(of_type(p, SValue::Sandbox(0), t));
        }
        STy::TcpListener => {
            assert(of_type(p, SValue::TcpListener(0), t));
        }
        _ => {}
    }
}

/// The value of the expression can be of this type: where several expressions can give
/// it, of the type of any of them.
pub open spec fn may_be(p: Program, e: Expr, sc: Types, t: STy) -> bool
    decreases e,
{
    match e {
        Expr::If { then_block, else_block, .. } => may_be_block(p, then_block.stmts@, opened(sc), t) || (
        else_block matches Some(b) && may_be_else(p, *b, sc, t)),
        Expr::Match { arms, .. } => may_be_arms(p, arms@, sc, t),
        _ => type_of(p, e, sc) == t,
    }
}

pub open spec fn may_be_block(p: Program, v: Seq<Stmt>, sc: Types, t: STy) -> bool
    decreases v,
{
    v.len() > 0 && (v.last() matches Stmt::Expr(e) && may_be(p, e, after_stmts(v.drop_last(), sc), t))
}

pub open spec fn may_be_else(p: Program, b: ElseBranch, sc: Types, t: STy) -> bool
    decreases b,
{
    match b {
        ElseBranch::Block(b) => may_be_block(p, b.stmts@, opened(sc), t),
        ElseBranch::If(e) => may_be(p, e, sc, t),
    }
}

pub open spec fn may_be_arms(p: Program, v: Seq<MatchArm>, sc: Types, t: STy) -> bool
    decreases v,
{
    v.len() > 0 && (may_be_arms(p, v.drop_last(), sc, t) || may_be(
        p,
        *v.last().body,
        arm_scopes(p, v.last(), sc),
        t,
    ))
}

/// What using a value of the type does.
pub open spec fn type_does(t: STy, stop: bool, f: Effect) -> bool {
    if stop {
        has(stopping(t), f)
    } else {
        has(transfer(t), f)
    }
}

proof fn use_has_a_type(p: Program, e: Expr, sc: Types, stop: bool, f: Effect)
    requires
        has(used(p, e, sc, stop), f),
    ensures
        exists|t: STy| #[trigger] may_be(p, e, sc, t) && type_does(t, stop, f),
    decreases e,
{
    match e {
        Expr::If { then_block, else_block, .. } => {
            let a = used_block(p, then_block.stmts@, opened(sc), stop);
            if has(a, f) {
                block_has_a_type(p, then_block.stmts@, opened(sc), stop, f);
                let t = choose|t: STy| #[trigger]
                    may_be_block(p, then_block.stmts@, opened(sc), t) && type_does(t, stop, f);
                assert(may_be(p, e, sc, t));
            } else if let Some(b) = else_block {
                else_has_a_type(p, *b, sc, stop, f);
                let t = choose|t: STy| #[trigger]
                    may_be_else(p, *b, sc, t) && type_does(t, stop, f);
                assert(may_be(p, e, sc, t));
            }
        }
        Expr::Match { arms, .. } => {
            arms_have_a_type(p, arms@, sc, stop, f);
            let t = choose|t: STy| #[trigger]
                may_be_arms(p, arms@, sc, t) && type_does(t, stop, f);
            assert(may_be(p, e, sc, t));
        }
        _ => {
            assert(may_be(p, e, sc, type_of(p, e, sc)));
        }
    }
}

proof fn block_has_a_type(p: Program, v: Seq<Stmt>, sc: Types, stop: bool, f: Effect)
    requires
        has(used_block(p, v, sc, stop), f),
    ensures
        exists|t: STy| #[trigger] may_be_block(p, v, sc, t) && type_does(t, stop, f),
    decreases v,
{
    let last = v[v.len() - 1];
    assert(decreases_to!(v => last));
    if let Stmt::Expr(e) = last {
        let inner = after_stmts(v.drop_last(), sc);
        use_has_a_type(p, e, inner, stop, f);
        let t = choose|t: STy| #[trigger] may_be(p, e, inner, t) && type_does(t, stop, f);
        assert(may_be_block(p, v, sc, t));
    }
}

proof fn else_has_a_type(p: Program, b: ElseBranch, sc: Types, stop: bool, f: Effect)
    requires
        has(used_else(p, b, sc, stop), f),
    ensures
        exists|t: STy| #[trigger] may_be_else(p, b, sc, t) && type_does(t, stop, f),
    decreases b,
{
    match b {
        ElseBranch::Block(x) => {
            block_has_a_type(p, x.stmts@, opened(sc), stop, f);
            let t = choose|t: STy| #[trigger]
                may_be_block(p, x.stmts@, opened(sc), t) && type_does(t, stop, f);
            assert(may_be_else(p, b, sc, t));
        }
        ElseBranch::If(e) => {
            use_has_a_type(p, e, sc, stop, f);
            let t = choose|t: STy| #[trigger] may_be(p, e, sc, t) && type_does(t, stop, f);
            assert(may_be_else(p, b, sc, t));
        }
    }
}

proof fn arms_have_a_type(p: Program, v: Seq<MatchArm>, sc: Types, stop: bool, f: Effect)
    requires
        has(used_arms(p, v, sc, stop), f),
    ensures
        exists|t: STy| #[trigger] may_be_arms(p, v, sc, t) && type_does(t, stop, f),
    decreases v,
{
    if has(used_arms(p, v.drop_last(), sc, stop), f) {
        arms_have_a_type(p, v.drop_last(), sc, stop, f);
        let t = choose|t: STy| #[trigger]
            may_be_arms(p, v.drop_last(), sc, t) && type_does(t, stop, f);
        assert(may_be_arms(p, v, sc, t));
    } else {
        let inner = arm_scopes(p, v.last(), sc);
        use_has_a_type(p, *v.last().body, inner, stop, f);
        let t = choose|t: STy| #[trigger]
            may_be(p, *v.last().body, inner, t) && type_does(t, stop, f);
        assert(may_be_arms(p, v, sc, t));
    }
}

/// The expression itself, its operands given, can have the effect: with some operands it
/// asks for something of that kind, or changes the generator. What is sent to, received
/// from or closed is a handle of a type that the operand can have.
pub open spec fn can(p: Program, e: Expr, sc: Types, f: Effect) -> bool {
    match e {
        Expr::Send(a, _, _) => exists|t: STy| #[trigger] may_be(p, *a, sc, t) && type_does(t, false, f),
        Expr::Recv(a, _) => exists|t: STy| #[trigger] may_be(p, *a, sc, t) && type_does(t, false, f),
        Expr::StopSandbox(a, _) => exists|t: STy| #[trigger]
            may_be(p, *a, sc, t) && type_does(t, true, f),
        _ => exists|vals: Seq<SValue>, s: SState| does(#[trigger] apply(p, e, vals, s), s, f),
    }
}

pub open spec fn does(t: SState, s: SState, f: Effect) -> bool {
    (t.ctrl matches SCtrl::Ask(q, _) && kind_of(q) == Some(f)) || (f is Rng && t.rng != s.rng)
}

/// The expression leads to the function of that name: by a call, in a thread or a process
/// of its own, or as a step of a `transact`.
pub open spec fn leads_to(e: Expr, name: Seq<char>) -> bool {
    match e {
        Expr::Call(n, _, _) => n@ == name && builtin_named(name) is None,
        Expr::Spawn(n, _, _) => n@ == name,
        Expr::SpawnSandbox(n, _, _) => n@ == name,
        Expr::Transact { network, verify, commit, compensate, log, .. } => {
            ||| network.name@ == name
            ||| verify.name@ == name
            ||| commit.name@ == name
            ||| compensate matches Some(s) && s.name@ == name
            ||| log matches Some(s) && s.name@ == name
        },
        _ => false,
    }
}

/// The expression `d`, where names have the types `dsc`, stands in `e`, where they have
/// the types `sc`.
pub open spec fn stands(p: Program, d: Expr, dsc: Types, e: Expr, sc: Types) -> bool
    decreases e,
{
    (d == e && dsc == sc) || match e {
        Expr::Unary(_, a, _) => stands(p, d, dsc, *a, sc),
        Expr::Box(a, _) => stands(p, d, dsc, *a, sc),
        Expr::Deref(a, _) => stands(p, d, dsc, *a, sc),
        Expr::Ref(a, _) => stands(p, d, dsc, *a, sc),
        Expr::FieldAccess(a, _, _) => stands(p, d, dsc, *a, sc),
        Expr::Assign(_, a, _) => stands(p, d, dsc, *a, sc),
        Expr::Join(a, _) => stands(p, d, dsc, *a, sc),
        Expr::Recv(a, _) => stands(p, d, dsc, *a, sc),
        Expr::StopSandbox(a, _) => stands(p, d, dsc, *a, sc),
        Expr::Listen(a, _) => stands(p, d, dsc, *a, sc),
        Expr::Accept(a, _) => stands(p, d, dsc, *a, sc),
        Expr::Binary(_, a, b, _) => stands(p, d, dsc, *a, sc) || stands(p, d, dsc, *b, sc),
        Expr::Send(a, b, _) => stands(p, d, dsc, *a, sc) || stands(p, d, dsc, *b, sc),
        Expr::Connect(a, b, _) => stands(p, d, dsc, *a, sc) || stands(p, d, dsc, *b, sc),
        Expr::Open(a, b, _) => stands(p, d, dsc, *a, sc) || stands(p, d, dsc, *b, sc),
        Expr::Call(_, v, _) => stands_all(p, d, dsc, v@, sc),
        Expr::Spawn(_, v, _) => stands_all(p, d, dsc, v@, sc),
        Expr::SpawnSandbox(_, v, _) => stands_all(p, d, dsc, v@, sc),
        Expr::ArrayLit(v, _) => stands_all(p, d, dsc, v@, sc),
        Expr::Index(a, v, _) => stands(p, d, dsc, *a, sc) || stands_all(p, d, dsc, v@, sc),
        Expr::If { cond, then_block, else_block, .. } => {
            ||| stands(p, d, dsc, *cond, sc)
            ||| stands_stmts(p, d, dsc, then_block.stmts@, opened(sc))
            ||| else_block matches Some(b) && stands_else(p, d, dsc, *b, sc)
        },
        Expr::Match { scrutinee, arms, .. } => stands(p, d, dsc, *scrutinee, sc) || stands_arms(
            p,
            d,
            dsc,
            arms@,
            sc,
        ),
        Expr::Transact { network, verify, commit, compensate, log, .. } => {
            let called = network_scope(p, network.name@, opened(sc));
            let last = defined(called, "verify"@, STy::Bool);
            ||| stands_all(p, d, dsc, network.args@, opened(sc))
            ||| stands_all(p, d, dsc, verify.args@, called)
            ||| stands_all(p, d, dsc, commit.args@, last)
            ||| compensate matches Some(s) && stands_all(p, d, dsc, s.args@, last)
            ||| log matches Some(s) && stands_all(p, d, dsc, s.args@, last)
        },
        _ => false,
    }
}

pub open spec fn stands_all(p: Program, d: Expr, dsc: Types, v: Seq<Expr>, sc: Types) -> bool
    decreases v,
{
    v.len() > 0 && (stands_all(p, d, dsc, v.drop_last(), sc) || stands(p, d, dsc, v.last(), sc))
}

pub open spec fn stands_else(p: Program, d: Expr, dsc: Types, b: ElseBranch, sc: Types) -> bool
    decreases b,
{
    match b {
        ElseBranch::Block(b) => stands_stmts(p, d, dsc, b.stmts@, opened(sc)),
        ElseBranch::If(e) => stands(p, d, dsc, e, sc),
    }
}

pub open spec fn stands_arms(p: Program, d: Expr, dsc: Types, v: Seq<MatchArm>, sc: Types) -> bool
    decreases v,
{
    v.len() > 0 && (stands_arms(p, d, dsc, v.drop_last(), sc) || stands(
        p,
        d,
        dsc,
        *v.last().body,
        arm_scopes(p, v.last(), sc),
    ))
}

pub open spec fn stands_stmt(p: Program, d: Expr, dsc: Types, s: Stmt, sc: Types) -> bool
    decreases s,
{
    match s {
        Stmt::Let { value, .. } => stands(p, d, dsc, value, sc),
        Stmt::Return { value, .. } => value matches Some(e) && stands(p, d, dsc, e, sc),
        Stmt::While { cond, body, .. } => stands(p, d, dsc, cond, sc) || stands_stmts(
            p,
            d,
            dsc,
            body.stmts@,
            opened(sc),
        ),
        Stmt::Audited { body, .. } => stands_stmts(p, d, dsc, body@, opened(sc)),
        Stmt::Expr(e) => stands(p, d, dsc, e, sc),
    }
}

pub open spec fn stands_stmts(p: Program, d: Expr, dsc: Types, v: Seq<Stmt>, sc: Types) -> bool
    decreases v,
{
    v.len() > 0 && (stands_stmts(p, d, dsc, v.drop_last(), sc) || stands_stmt(
        p,
        d,
        dsc,
        v.last(),
        after_stmts(v.drop_last(), sc),
    ))
}

/// The expression has the effect itself, or leads to a function that is known to.
pub open spec fn causes(p: Program, d: Expr, dsc: Types, k: Known, f: Effect) -> bool {
    can(p, d, dsc, f) || exists|name: Seq<char>| #[trigger] leads_to(d, name) && has(k(name), f)
}

spec fn in_expr(p: Program, e: Expr, sc: Types, k: Known, f: Effect) -> bool {
    exists|d: Expr, dsc: Types| #[trigger] stands(p, d, dsc, e, sc) && causes(p, d, dsc, k, f)
}

spec fn in_all(p: Program, v: Seq<Expr>, sc: Types, k: Known, f: Effect) -> bool {
    exists|d: Expr, dsc: Types| #[trigger] stands_all(p, d, dsc, v, sc) && causes(p, d, dsc, k, f)
}

spec fn in_stmts(p: Program, v: Seq<Stmt>, sc: Types, k: Known, f: Effect) -> bool {
    exists|d: Expr, dsc: Types| #[trigger] stands_stmts(p, d, dsc, v, sc) && causes(p, d, dsc, k, f)
}

spec fn in_arms(p: Program, v: Seq<MatchArm>, sc: Types, k: Known, f: Effect) -> bool {
    exists|d: Expr, dsc: Types| #[trigger] stands_arms(p, d, dsc, v, sc) && causes(p, d, dsc, k, f)
}

spec fn in_else(p: Program, b: ElseBranch, sc: Types, k: Known, f: Effect) -> bool {
    exists|d: Expr, dsc: Types| #[trigger] stands_else(p, d, dsc, b, sc) && causes(p, d, dsc, k, f)
}

spec fn in_stmt(p: Program, s: Stmt, sc: Types, k: Known, f: Effect) -> bool {
    exists|d: Expr, dsc: Types| #[trigger] stands_stmt(p, d, dsc, s, sc) && causes(p, d, dsc, k, f)
}

/// The expression is a cause itself.
proof fn itself(p: Program, e: Expr, sc: Types, k: Known, f: Effect)
    requires
        causes(p, e, sc, k, f),
    ensures
        in_expr(p, e, sc, k, f),
{
    assert(stands(p, e, sc, e, sc));
}

proof fn from_part(p: Program, a: Expr, asc: Types, e: Expr, sc: Types, k: Known, f: Effect)
    requires
        in_expr(p, a, asc, k, f),
        forall|d: Expr, dsc: Types| #[trigger] stands(p, d, dsc, a, asc) ==> stands(p, d, dsc, e, sc),
    ensures
        in_expr(p, e, sc, k, f),
{
    let (d, dsc) = choose|d: Expr, dsc: Types| #[trigger]
        stands(p, d, dsc, a, asc) && causes(p, d, dsc, k, f);
    assert(stands(p, d, dsc, e, sc));
}

proof fn from_parts(p: Program, v: Seq<Expr>, vsc: Types, e: Expr, sc: Types, k: Known, f: Effect)
    requires
        in_all(p, v, vsc, k, f),
        forall|d: Expr, dsc: Types| #[trigger] stands_all(p, d, dsc, v, vsc) ==> stands(p, d, dsc, e, sc),
    ensures
        in_expr(p, e, sc, k, f),
{
    let (d, dsc) = choose|d: Expr, dsc: Types| #[trigger]
        stands_all(p, d, dsc, v, vsc) && causes(p, d, dsc, k, f);
    assert(stands(p, d, dsc, e, sc));
}

/// With some operands, these ask.
proof fn askers(p: Program, e: Expr, sc: Types, f: Effect)
    ensures
        e is Spawn || e is SpawnSandbox || e is Join ==> (f is Concurrent ==> can(p, e, sc, f)),
        e is Connect || e is Listen || e is Accept ==> (f is Network ==> can(p, e, sc, f)),
        e is Open ==> (f is Io ==> can(p, e, sc, f)),
        e matches Expr::Call(name, _, _) ==> (builtin_named(name@) matches Some(b) ==> (has(
            of_builtin(b),
            f,
        ) ==> can(p, e, sc, f))),
{
    let none = Seq::<SValue>::empty();
    let s = SState { ctrl: SCtrl::Stuck, frames: Seq::empty(), env: Seq::empty(), rng: None };
    match e {
        Expr::Spawn(..) | Expr::SpawnSandbox(..) => {
            reveal_with_fuel(crate::machine::sandbox_args, 2);
            if f is Concurrent {
                assert(does(apply(p, e, none, s), s, f));
            }
        }
        Expr::Join(..) => {
            let one = seq![SValue::Thread(0)];
            assert(one[0] == SValue::Thread(0));
            if f is Concurrent {
                assert(does(apply(p, e, one, s), s, f));
            }
        }
        Expr::Connect(..) => {
            let two = seq![SValue::Str(Seq::empty()), SValue::Int(0)];
            assert(two[0] is Str && two[1] == SValue::Int(0));
            if f is Network {
                assert(does(apply(p, e, two, s), s, f));
            }
        }
        Expr::Listen(..) => {
            let one = seq![SValue::Int(0)];
            assert(one[0] == SValue::Int(0));
            if f is Network {
                assert(does(apply(p, e, one, s), s, f));
            }
        }
        Expr::Accept(..) => {
            let one = seq![SValue::TcpListener(0)];
            assert(one[0] == SValue::TcpListener(0));
            if f is Network {
                assert(does(apply(p, e, one, s), s, f));
            }
        }
        Expr::Open(..) => {
            let two = seq![SValue::Str(Seq::empty()), SValue::Str("r"@)];
            assert(two[0] is Str && two[1] == SValue::Str("r"@));
            if f is Io {
                assert(does(apply(p, e, two, s), s, f));
            }
        }
        Expr::Call(name, _, span) => {
            if let Some(b) = builtin_named(name@) {
                if has(of_builtin(b), f) {
                    builtin_effects_are_exact(b, f);
                    let (vals, r, at) = choose|vals: Seq<SValue>, r: Option<u64>, at: Span|
                        builtin_does(#[trigger] builtin_call(b, vals, r, at), r, f);
                    builtin_ignores_place(b, vals, r, at, span, f);
                    let t = SState { rng: r, ..s };
                    assert(does(apply(p, e, vals, t), t, f));
                }
            }
        }
        _ => {}
    }
}

proof fn builtin_ignores_place(
    b: Builtin,
    vals: Seq<SValue>,
    r: Option<u64>,
    x: Span,
    y: Span,
    f: Effect,
)
    requires
        builtin_does(builtin_call(b, vals, r, x), r, f),
    ensures
        builtin_does(builtin_call(b, vals, r, y), r, f),
{
}

proof fn trace_expr(p: Program, e: Expr, sc: Types, k: Known, f: Effect)
    requires
        has(of_expr(p, e, sc, k), f),
    ensures
        in_expr(p, e, sc, k, f),
    decreases e,
{
    askers(p, e, sc, f);
    match e {
        Expr::Unary(_, a, _)
        | Expr::Box(a, _)
        | Expr::Deref(a, _)
        | Expr::Ref(a, _)
        | Expr::FieldAccess(a, _, _)
        | Expr::Assign(_, a, _) => {
            trace_expr(p, *a, sc, k, f);
            from_part(p, *a, sc, e, sc, k, f);
        }
        Expr::Join(a, _) | Expr::Listen(a, _) | Expr::Accept(a, _) => {
            if has(of_expr(p, *a, sc, k), f) {
                trace_expr(p, *a, sc, k, f);
                from_part(p, *a, sc, e, sc, k, f);
            } else {
                itself(p, e, sc, k, f);
            }
        }
        Expr::Recv(a, _) => {
            if has(of_expr(p, *a, sc, k), f) {
                trace_expr(p, *a, sc, k, f);
                from_part(p, *a, sc, e, sc, k, f);
            } else {
                use_has_a_type(p, *a, sc, false, f);
                itself(p, e, sc, k, f);
            }
        }
        Expr::StopSandbox(a, _) => {
            if has(of_expr(p, *a, sc, k), f) {
                trace_expr(p, *a, sc, k, f);
                from_part(p, *a, sc, e, sc, k, f);
            } else {
                use_has_a_type(p, *a, sc, true, f);
                itself(p, e, sc, k, f);
            }
        }
        Expr::Binary(_, a, b, _) | Expr::Send(a, b, _) | Expr::Connect(a, b, _) | Expr::Open(a, b, _) => {
            if has(of_expr(p, *a, sc, k), f) {
                trace_expr(p, *a, sc, k, f);
                from_part(p, *a, sc, e, sc, k, f);
            } else if has(of_expr(p, *b, sc, k), f) {
                trace_expr(p, *b, sc, k, f);
                from_part(p, *b, sc, e, sc, k, f);
            } else {
                if e is Send {
                    use_has_a_type(p, *a, sc, false, f);
                }
                itself(p, e, sc, k, f);
            }
        }
        Expr::Call(name, v, _) => {
            if has(of_exprs(p, v@, sc, k), f) {
                trace_exprs(p, v@, sc, k, f);
                from_parts(p, v@, sc, e, sc, k, f);
            } else {
                if builtin_named(name@) is None {
                    assert(leads_to(e, name@));
                }
                itself(p, e, sc, k, f);
            }
        }
        Expr::Spawn(name, v, _) | Expr::SpawnSandbox(name, v, _) => {
            if has(of_exprs(p, v@, sc, k), f) {
                trace_exprs(p, v@, sc, k, f);
                from_parts(p, v@, sc, e, sc, k, f);
            } else {
                if has(k(name@), f) {
                    assert(leads_to(e, name@));
                }
                itself(p, e, sc, k, f);
            }
        }
        Expr::ArrayLit(v, _) => {
            trace_exprs(p, v@, sc, k, f);
            from_parts(p, v@, sc, e, sc, k, f);
        }
        Expr::Index(a, v, _) => {
            if has(of_expr(p, *a, sc, k), f) {
                trace_expr(p, *a, sc, k, f);
                from_part(p, *a, sc, e, sc, k, f);
            } else {
                trace_exprs(p, v@, sc, k, f);
                from_parts(p, v@, sc, e, sc, k, f);
            }
        }
        Expr::If { cond, then_block, else_block, .. } => {
            let o = opened(sc);
            if has(of_expr(p, *cond, sc, k), f) {
                trace_expr(p, *cond, sc, k, f);
                from_part(p, *cond, sc, e, sc, k, f);
            } else if has(of_stmts(p, then_block.stmts@, o, k), f) {
                trace_stmts(p, then_block.stmts@, o, k, f);
                let (d, dsc) = choose|d: Expr, dsc: Types| #[trigger]
                    stands_stmts(p, d, dsc, then_block.stmts@, o) && causes(p, d, dsc, k, f);
                assert(stands(p, d, dsc, e, sc));
            } else if let Some(b) = else_block {
                trace_else(p, *b, sc, k, f);
                let (d, dsc) = choose|d: Expr, dsc: Types| #[trigger]
                    stands_else(p, d, dsc, *b, sc) && causes(p, d, dsc, k, f);
                assert(stands(p, d, dsc, e, sc));
            }
        }
        Expr::Match { scrutinee, arms, .. } => {
            if has(of_expr(p, *scrutinee, sc, k), f) {
                trace_expr(p, *scrutinee, sc, k, f);
                from_part(p, *scrutinee, sc, e, sc, k, f);
            } else {
                trace_arms(p, arms@, sc, k, f);
                let (d, dsc) = choose|d: Expr, dsc: Types| #[trigger]
                    stands_arms(p, d, dsc, arms@, sc) && causes(p, d, dsc, k, f);
                assert(stands(p, d, dsc, e, sc));
            }
        }
        Expr::Transact { network, verify, commit, compensate, log, .. } => {
            let called = network_scope(p, network.name@, opened(sc));
            let last = defined(called, "verify"@, STy::Bool);
            if has(of_slot(p, network, opened(sc), k), f) {
                trace_slot(p, network, opened(sc), e, sc, k, f);
            } else if has(of_slot(p, verify, called, k), f) {
                trace_slot(p, verify, called, e, sc, k, f);
            } else if has(of_slot(p, commit, last, k), f) {
                trace_slot(p, commit, last, e, sc, k, f);
            } else {
                if let Some(s) = compensate {
                    if has(of_slot(p, s, last, k), f) {
                        trace_slot(p, s, last, e, sc, k, f);
                    }
                }
                if let Some(s) = log {
                    if has(of_slot(p, s, last, k), f) {
                        trace_slot(p, s, last, e, sc, k, f);
                    }
                }
            }
        }
        _ => {}
    }
}

proof fn trace_slot(
    p: Program,
    s: TransactSlot,
    ssc: Types,
    e: Expr,
    sc: Types,
    k: Known,
    f: Effect,
)
    requires
        has(of_slot(p, s, ssc, k), f),
        leads_to(e, s.name@),
        forall|d: Expr, dsc: Types| #[trigger]
            stands_all(p, d, dsc, s.args@, ssc) ==> stands(p, d, dsc, e, sc),
    ensures
        in_expr(p, e, sc, k, f),
    decreases s,
{
    if has(of_exprs(p, s.args@, ssc, k), f) {
        trace_exprs(p, s.args@, ssc, k, f);
        from_parts(p, s.args@, ssc, e, sc, k, f);
    } else {
        itself(p, e, sc, k, f);
    }
}

proof fn trace_exprs(p: Program, v: Seq<Expr>, sc: Types, k: Known, f: Effect)
    requires
        has(of_exprs(p, v, sc, k), f),
    ensures
        in_all(p, v, sc, k, f),
    decreases v,
{
    if has(of_exprs(p, v.drop_last(), sc, k), f) {
        trace_exprs(p, v.drop_last(), sc, k, f);
        let (d, dsc) = choose|d: Expr, dsc: Types| #[trigger]
            stands_all(p, d, dsc, v.drop_last(), sc) && causes(p, d, dsc, k, f);
        assert(stands_all(p, d, dsc, v, sc));
    } else {
        trace_expr(p, v.last(), sc, k, f);
        let (d, dsc) = choose|d: Expr, dsc: Types| #[trigger]
            stands(p, d, dsc, v.last(), sc) && causes(p, d, dsc, k, f);
        assert(stands_all(p, d, dsc, v, sc));
    }
}

proof fn trace_else(p: Program, b: ElseBranch, sc: Types, k: Known, f: Effect)
    requires
        has(of_else(p, b, sc, k), f),
    ensures
        in_else(p, b, sc, k, f),
    decreases b,
{
    match b {
        ElseBranch::Block(x) => {
            trace_stmts(p, x.stmts@, opened(sc), k, f);
            let (d, dsc) = choose|d: Expr, dsc: Types| #[trigger]
                stands_stmts(p, d, dsc, x.stmts@, opened(sc)) && causes(p, d, dsc, k, f);
            assert(stands_else(p, d, dsc, b, sc));
        }
        ElseBranch::If(e) => {
            trace_expr(p, e, sc, k, f);
            let (d, dsc) = choose|d: Expr, dsc: Types| #[trigger]
                stands(p, d, dsc, e, sc) && causes(p, d, dsc, k, f);
            assert(stands_else(p, d, dsc, b, sc));
        }
    }
}

proof fn trace_arms(p: Program, v: Seq<MatchArm>, sc: Types, k: Known, f: Effect)
    requires
        has(of_arms(p, v, sc, k), f),
    ensures
        in_arms(p, v, sc, k, f),
    decreases v,
{
    if has(of_arms(p, v.drop_last(), sc, k), f) {
        trace_arms(p, v.drop_last(), sc, k, f);
        let (d, dsc) = choose|d: Expr, dsc: Types| #[trigger]
            stands_arms(p, d, dsc, v.drop_last(), sc) && causes(p, d, dsc, k, f);
        assert(stands_arms(p, d, dsc, v, sc));
    } else {
        let inner = arm_scopes(p, v.last(), sc);
        trace_expr(p, *v.last().body, inner, k, f);
        let (d, dsc) = choose|d: Expr, dsc: Types| #[trigger]
            stands(p, d, dsc, *v.last().body, inner) && causes(p, d, dsc, k, f);
        assert(stands_arms(p, d, dsc, v, sc));
    }
}

proof fn trace_stmt(p: Program, s: Stmt, sc: Types, k: Known, f: Effect)
    requires
        has(of_stmt(p, s, sc, k), f),
    ensures
        in_stmt(p, s, sc, k, f),
    decreases s,
{
    match s {
        Stmt::Let { value, .. } => {
            trace_expr(p, value, sc, k, f);
            let (d, dsc) = choose|d: Expr, dsc: Types| #[trigger]
                stands(p, d, dsc, value, sc) && causes(p, d, dsc, k, f);
            assert(stands_stmt(p, d, dsc, s, sc));
        }
        Stmt::Return { value, .. } => {
            if let Some(e) = value {
                trace_expr(p, e, sc, k, f);
                let (d, dsc) = choose|d: Expr, dsc: Types| #[trigger]
                    stands(p, d, dsc, e, sc) && causes(p, d, dsc, k, f);
                assert(stands_stmt(p, d, dsc, s, sc));
            }
        }
        Stmt::While { cond, body, .. } => {
            if has(of_expr(p, cond, sc, k), f) {
                trace_expr(p, cond, sc, k, f);
                let (d, dsc) = choose|d: Expr, dsc: Types| #[trigger]
                    stands(p, d, dsc, cond, sc) && causes(p, d, dsc, k, f);
                assert(stands_stmt(p, d, dsc, s, sc));
            } else {
                trace_stmts(p, body.stmts@, opened(sc), k, f);
                let (d, dsc) = choose|d: Expr, dsc: Types| #[trigger]
                    stands_stmts(p, d, dsc, body.stmts@, opened(sc)) && causes(p, d, dsc, k, f);
                assert(stands_stmt(p, d, dsc, s, sc));
            }
        }
        Stmt::Audited { body, .. } => {
            trace_stmts(p, body@, opened(sc), k, f);
            let (d, dsc) = choose|d: Expr, dsc: Types| #[trigger]
                stands_stmts(p, d, dsc, body@, opened(sc)) && causes(p, d, dsc, k, f);
            assert(stands_stmt(p, d, dsc, s, sc));
        }
        Stmt::Expr(e) => {
            trace_expr(p, e, sc, k, f);
            let (d, dsc) = choose|d: Expr, dsc: Types| #[trigger]
                stands(p, d, dsc, e, sc) && causes(p, d, dsc, k, f);
            assert(stands_stmt(p, d, dsc, s, sc));
        }
    }
}

proof fn trace_stmts(p: Program, v: Seq<Stmt>, sc: Types, k: Known, f: Effect)
    requires
        has(of_stmts(p, v, sc, k), f),
    ensures
        in_stmts(p, v, sc, k, f),
    decreases v,
{
    if has(of_stmts(p, v.drop_last(), sc, k), f) {
        trace_stmts(p, v.drop_last(), sc, k, f);
        let (d, dsc) = choose|d: Expr, dsc: Types| #[trigger]
            stands_stmts(p, d, dsc, v.drop_last(), sc) && causes(p, d, dsc, k, f);
        assert(stands_stmts(p, d, dsc, v, sc));
    } else {
        let inner = after_stmts(v.drop_last(), sc);
        trace_stmt(p, v.last(), inner, k, f);
        let (d, dsc) = choose|d: Expr, dsc: Types| #[trigger]
            stands_stmt(p, d, dsc, v.last(), inner) && causes(p, d, dsc, k, f);
        assert(stands_stmts(p, d, dsc, v, sc));
    }
}

/// A function of that name holds the expression, with names of these types.
pub open spec fn holds(p: Program, name: Seq<char>, d: Expr, dsc: Types) -> bool {
    exists|i: int|
        0 <= i < p.fns@.len() && (#[trigger] p.fns@[i]).name@ == name && stands_stmts(
            p,
            d,
            dsc,
            p.fns@[i].body.stmts@,
            param_scope(p.fns@[i], p.fns@[i].params@.len()),
        )
}

/// The function of that name can have the effect within `n` calls: it holds an expression
/// that can, or one that leads to a function that can within `n - 1`.
pub open spec fn reaches(p: Program, name: Seq<char>, f: Effect, n: nat) -> bool
    decreases n,
{
    exists|d: Expr, dsc: Types| #[trigger]
        holds(p, name, d, dsc) && (can(p, d, dsc, f) || (n > 0 && exists|g: Seq<char>| #[trigger]
            leads_to(d, g) && reaches(p, g, f, (n - 1) as nat)))
}

spec fn reached(p: Program, name: Seq<char>, f: Effect) -> bool {
    exists|n: nat| #[trigger] reaches(p, name, f, n)
}

spec fn reached_sets(p: Program) -> Known {
    |name: Seq<char>|
        EffectSet {
            rng: reached(p, name, Effect::Rng),
            io: reached(p, name, Effect::Io),
            concurrent: reached(p, name, Effect::Concurrent),
            network: reached(p, name, Effect::Network),
        }
}

proof fn one_more_call(p: Program, i: int, f: Effect)
    requires
        0 <= i < p.fns@.len(),
        has(of_fn(p, p.fns@[i], reached_sets(p)), f),
    ensures
        reached(p, p.fns@[i].name@, f),
{
    let fun = p.fns@[i];
    let k = reached_sets(p);
    let sc = param_scope(fun, fun.params@.len());
    trace_stmts(p, fun.body.stmts@, sc, k, f);
    let (d, dsc) = choose|d: Expr, dsc: Types| #[trigger]
        stands_stmts(p, d, dsc, fun.body.stmts@, sc) && causes(p, d, dsc, k, f);
    assert(holds(p, fun.name@, d, dsc));
    if can(p, d, dsc, f) {
        assert(reaches(p, fun.name@, f, 0));
    } else {
        let g = choose|g: Seq<char>| #[trigger] leads_to(d, g) && has(k(g), f);
        assert(reached(p, g, f));
        let n = choose|n: nat| #[trigger] reaches(p, g, f, n);
        assert(reaches(p, fun.name@, f, n + 1));
    }
}

/// An effect is inferred of a function only where the function, or one that it leads to
/// by calls, threads, processes or steps of a `transact`, holds an expression that can
/// have it. (That no effect is left out is what `runs_stay_within_effects` and
/// `runs_handle_within_effects` say.)
pub proof fn inferred_effects_have_sources(p: Program, k: Known, name: Seq<char>, f: Effect)
    requires
        least_closed(p, k),
        has(k(name), f),
    ensures
        exists|n: nat| #[trigger] reaches(p, name, f, n),
{
    let r = reached_sets(p);
    assert forall|i: int| 0 <= i < p.fns@.len() implies within(
        of_fn(p, #[trigger] p.fns@[i], r),
        r(p.fns@[i].name@),
    ) by {
        if of_fn(p, p.fns@[i], r).rng {
            one_more_call(p, i, Effect::Rng);
        }
        if of_fn(p, p.fns@[i], r).io {
            one_more_call(p, i, Effect::Io);
        }
        if of_fn(p, p.fns@[i], r).concurrent {
            one_more_call(p, i, Effect::Concurrent);
        }
        if of_fn(p, p.fns@[i], r).network {
            one_more_call(p, i, Effect::Network);
        }
    }
    assert(closed_under(p, r));
    assert(below(k, r));
    assert(within(k(name), r(name)));
    assert(reached(p, name, f));
}

} // verus!
