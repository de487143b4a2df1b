//! Contracts of functions: a predicate on a function's arguments and result is
//! proved for all inputs, or refuted by an input.
use crate::ast::{
    Expr, FnDecl, Param, Program, STy, bounds_are_tight, greatest, integer, least, name_of,
};
use crate::idents::{
    Names, collect_idents, mentioned,
};
use crate::ir::lines_view;
use crate::registry::{find_first_fn, first_fn};
use crate::scopes::{Duplicate, Scopes, Table, defined, map_of_keys, opened};
use crate::soundness::{
    at, at_agree, at_defined, at_opened, back_bool, back_stmts, bounded, bounded_defined,
    bounded_opened, bounded_wider, compose, forth_bool, forth_stmts, grow_bool, grow_stmts,
    let_true, name_value, prefix_satisfied, push_true, ready, ret_from, step, step_assume,
    step_named, step_self,
};
use crate::source::{
    Fault, fault_text, parse_standalone_expr, read_expr,
};
use crate::symbolic::{
    Env, Ev, Ret, SRet, Sym, Vars, Walk, Walker, assuming, named, negated, ranged, rets_view,
    run_bool, run_stmts, too_many, walk_bool, walk_stmts,
};
use crate::terms::{
    Answer, BoolTerm, IntTerm, Rho, agree, all, all_agree, all_below, all_wider, bool_below,
    bool_val, copy_terms, int_below, int_val, model_rho, model_value, satisfied, solve,
};
use crate::text::{cat4, cat5, same};
use crate::tree::SExpr;
use vstd::prelude::*;
use vstd::string::*;
use vstd::utf8::encode_utf8;

verus! {

#[derive(Debug, Clone)]
pub enum ContractCheckResult {
    /// The predicates hold on every path, for every input that the types of the
    /// parameters and the preconditions admit.
    Proved,
    /// An input that meets the preconditions, with the result that it gives and the
    /// predicate that it violates.
    Counterexample {
        violated_predicate: String,
        bindings: Vec<(String, i64)>,
        result: Option<i64>,
    },
    /// A predicate mentions a name that is no parameter, not `result`, and not
    /// otherwise given a value.
    UnboundIdentifier(String),
    NoSuchFunction(String),
    /// A predicate is not an expression.
    PredicateParseError(String),
    /// The function or a predicate is not modelled, or the solver gave up.
    Unsupported(String),
}

/// The first predicate from `i` on that is no expression, as the user sees it.
pub open spec fn parse_fault(v: Seq<String>, i: int) -> Option<Seq<char>>
    decreases v.len() - i,
{
    if i < 0 || i >= v.len() {
        None
    } else {
        match read_expr(encode_utf8(v[i]@)) {
            Err(f) => Some(fault_text(f)),
            Ok(_) => parse_fault(v, i + 1),
        }
    }
}

/// The expressions that the predicates spell.
pub open spec fn parsed(v: Seq<String>, es: Seq<Expr>) -> bool {
    es.len() == v.len() && forall|i: int|
        0 <= i < v.len() ==> read_expr(encode_utf8(v[i]@)) == Ok::<SExpr, Fault>(
            (#[trigger] es[i])@,
        )
}

/// The first of the first `n` parameters that is no integer.
pub open spec fn odd_param(ps: Seq<Param>, i: int) -> Option<int>
    decreases ps.len() - i,
{
    if i < 0 || i >= ps.len() {
        None
    } else if !integer(ps[i].ty@) {
        Some(i)
    } else {
        odd_param(ps, i + 1)
    }
}

/// Why the types of a function are not modelled.
pub open spec fn signature_fault(f: FnDecl) -> Option<Seq<char>> {
    match odd_param(f.params@, 0) {
        Some(i) => Some(
            "parameter `"@ + f.params@[i].name@ + "` has type `"@ + name_of(f.params@[i].ty@) + "` — Tier 1 only models integer parameters today"@,
        ),
        None => if integer(f.ret@) {
            None
        } else {
            Some(
                "`"@ + f.name@ + "` returns `"@ + name_of(f.ret@) + "` — Tier 1 only models an integer-returning function today"@,
            )
        },
    }
}

pub open spec fn is_param(ps: Seq<Param>, name: Seq<char>) -> bool {
    exists|i: int| 0 <= i < ps.len() && (#[trigger] ps[i]).name@ == name
}

/// Whether a predicate may mention a name.
pub open spec fn is_bound(f: FnDecl, extra: Map<Seq<char>, i64>, name: Seq<char>) -> bool {
    name == "result"@ || is_param(f.params@, name) || extra.contains_key(name)
}

/// The names that the first `n` predicates mention, behind `out`.
pub open spec fn mentioned_by(es: Seq<Expr>, out: Names, n: nat) -> Names
    decreases n,
{
    if n == 0 || n > es.len() {
        out
    } else {
        mentioned(es[n - 1], mentioned_by(es, out, (n - 1) as nat))
    }
}

/// The first name from `i` on that a predicate may not mention.
pub open spec fn unbound_from(
    f: FnDecl,
    extra: Map<Seq<char>, i64>,
    names: Names,
    i: int,
) -> Option<Seq<char>>
    decreases names.len() - i,
{
    if i < 0 || i >= names.len() {
        None
    } else if !is_bound(f, extra, names[i]) {
        Some(names[i])
    } else {
        unbound_from(f, extra, names, i + 1)
    }
}

/// The first name that some predicate may not mention.
pub open spec fn unbound(
    f: FnDecl,
    pre: Seq<Expr>,
    post: Seq<Expr>,
    extra: Map<Seq<char>, i64>,
) -> Option<Seq<char>> {
    unbound_from(
        f,
        extra,
        mentioned_by(post, mentioned_by(pre, Seq::empty(), pre.len()), post.len()),
        0,
    )
}

/// The values of the first `n` parameters.
pub open spec fn param_values(ps: Seq<Param>, args: Seq<int>, n: nat) -> Env
    decreases n,
{
    if n == 0 {
        seq![Map::empty()]
    } else {
        defined(param_values(ps, args, (n - 1) as nat), ps[n - 1].name@, args[n - 1])
    }
}

/// The values of the parameters and of the first `n` names that are given one
/// besides. A parameter wins over a name given besides.
pub open spec fn given_values(
    f: FnDecl,
    args: Seq<int>,
    extra: Seq<(String, i64)>,
    n: nat,
) -> Env
    decreases n,
{
    if n == 0 {
        param_values(f.params@, args, f.params@.len())
    } else {
        let before = given_values(f, args, extra, (n - 1) as nat);
        if is_param(f.params@, extra[n - 1].0@) {
            before
        } else {
            defined(before, extra[n - 1].0@, extra[n - 1].1 as int)
        }
    }
}

/// The values of all names that a predicate may mention, but for `result`.
pub open spec fn inputs(f: FnDecl, extra: Seq<(String, i64)>, args: Seq<int>) -> Env {
    given_values(f, args, extra, extra.len())
}

/// The arguments that the types of the parameters admit.
pub open spec fn admitted(f: FnDecl, args: Seq<int>) -> bool {
    args.len() == f.params@.len() && forall|i: int|
        0 <= i < args.len() ==> least(f.params@[i].ty@) <= #[trigger] args[i] <= greatest(
            f.params@[i].ty@,
        )
}

/// The preconditions hold.
pub open spec fn pre_holds(pre: Seq<Expr>, env: Env) -> bool {
    forall|i: int| 0 <= i < pre.len() ==> run_bool(true, env, #[trigger] pre[i]) == Ev::Val(true)
}

/// What the function does on its inputs.
pub open spec fn runs(f: FnDecl, env: Env) -> Ev<Env> {
    run_stmts(false, opened(env), f.body.stmts@, f.body.stmts@.len())
}

/// What a predicate on the inputs and the result comes to.
pub open spec fn post_value(env: Env, v: int, e: Expr) -> Ev<bool> {
    run_bool(true, defined(opened(env), "result"@, v), e)
}

/// The contract holds: whatever the function returns on admitted inputs that meet
/// the preconditions meets the postconditions.
pub open spec fn contract_holds(
    f: FnDecl,
    pre: Seq<Expr>,
    post: Seq<Expr>,
    extra: Seq<(String, i64)>,
) -> bool {
    forall|args: Seq<int>, v: int, i: int|
        #![trigger runs(f, inputs(f, extra, args)), post_value(
            inputs(f, extra, args),
            v,
            post[i],
        )]
        admitted(f, args) && pre_holds(pre, inputs(f, extra, args)) && runs(
            f,
            inputs(f, extra, args),
        ) == Ev::<Env>::Ret(v) && 0 <= i < post.len() ==> post_value(
            inputs(f, extra, args),
            v,
            post[i],
        ) == Ev::Val(true)
}

/// Admitted inputs that meet the preconditions, on which the function returns `v`
/// and violates a postcondition.
pub open spec fn violates(
    f: FnDecl,
    pre: Seq<Expr>,
    e: Expr,
    extra: Seq<(String, i64)>,
    args: Seq<int>,
    v: int,
) -> bool {
    &&& admitted(f, args)
    &&& pre_holds(pre, inputs(f, extra, args))
    &&& runs(f, inputs(f, extra, args)) == Ev::<Env>::Ret(v)
    &&& post_value(inputs(f, extra, args), v, e) == Ev::Val(false)
}

pub open spec fn has(b: Seq<(String, i64)>, name: Seq<char>, v: int) -> bool {
    exists|j: int| 0 <= j < b.len() && (#[trigger] b[j]).0@ == name && b[j].1 == v
}

/// The bindings show every input.
pub open spec fn shows(b: Seq<(String, i64)>, env: Env) -> bool {
    forall|name: Seq<char>|
        #![trigger env[0].contains_key(name)]
        env[0].contains_key(name) && name != "result"@ ==> has(b, name, env[0][name])
}

/// Variables for the first `n` parameters, with the claims on their types.
pub open spec fn begin_params(ps: Seq<Param>, n: nat) -> Sym<Vars>
    decreases n,
{
    if n == 0 {
        Sym::Done(
            Walk { next: 0, path: Seq::empty(), rets: Seq::empty() },
            seq![Map::empty()],
        )
    } else {
        match begin_params(ps, (n - 1) as nat) {
            Sym::Fail(r, m) => Sym::Fail(r, m),
            Sym::Done(w, s) => if w.next == u64::MAX {
                Sym::Fail(w.rets, too_many())
            } else {
                Sym::Done(
                    ranged(Walk { next: (w.next + 1) as u64, ..w }, w.next, ps[n - 1].ty@),
                    defined(s, ps[n - 1].name@, w.next),
                )
            },
        }
    }
}

/// Variables for the parameters and the first `n` names given besides.
pub open spec fn begin(f: FnDecl, extra: Seq<(String, i64)>, n: nat) -> Sym<Vars>
    decreases n,
{
    if n == 0 {
        begin_params(f.params@, f.params@.len())
    } else {
        match begin(f, extra, (n - 1) as nat) {
            Sym::Fail(r, m) => Sym::Fail(r, m),
            Sym::Done(w, s) => if is_param(f.params@, extra[n - 1].0@) {
                Sym::Done(w, s)
            } else if w.next == u64::MAX {
                Sym::Fail(w.rets, too_many())
            } else {
                Sym::Done(
                    named(w, IntTerm::Lit(extra[n - 1].1)),
                    defined(s, extra[n - 1].0@, w.next),
                )
            },
        }
    }
}

/// Claims the first `n` preconditions.
pub open spec fn claim_pre(
    w: Walk,
    sc: Vars,
    pre: Seq<Expr>,
    src: Seq<String>,
    n: nat,
) -> Sym<()>
    decreases n,
{
    if n == 0 || n > pre.len() {
        Sym::Done(w, ())
    } else {
        match claim_pre(w, sc, pre, src, (n - 1) as nat) {
            Sym::Fail(r, m) => Sym::Fail(r, m),
            Sym::Done(x, _) => match walk_bool(true, x, sc, pre[n - 1]) {
                Sym::Fail(r, m) => Sym::Fail(r, "pre_logic `"@ + src[n - 1]@ + "`: "@ + m),
                Sym::Done(y, b) => Sym::Done(assuming(y, b), ()),
            },
        }
    }
}

/// Follows a postcondition from a `return`.
pub open spec fn walk_post(r: SRet, top: Vars, e: Expr) -> Sym<BoolTerm> {
    walk_bool(
        true,
        Walk { next: r.next, path: r.path, rets: Seq::empty() },
        defined(opened(top), "result"@, r.result),
        e,
    )
}

/// No values reach a `return` and violate a postcondition there.
pub open spec fn safe_at(r: SRet, top: Vars, e: Expr) -> bool {
    walk_post(r, top, e) matches Sym::Done(x, b) && forall|rho: Rho|
        !#[trigger] satisfied(x.path.push(negated(b)), rho)
}

/// Values that reach a `return` and violate a postcondition there.
pub open spec fn refutes(r: SRet, top: Vars, e: Expr, rho: Rho) -> bool {
    walk_post(r, top, e) matches Sym::Done(x, b) && satisfied(x.path.push(negated(b)), rho)
}

/// The names in scope at a `return`: those given from outside, then the locals.
pub open spec fn scopes_at(r: SRet, top: Vars) -> Vars {
    if r.scopes.len() == 0 {
        top
    } else {
        top + r.scopes.subrange(1, r.scopes.len() as int)
    }
}

/// `b` holds each name in scope with its value, as far as that fits.
pub open spec fn listed(b: Seq<(String, i64)>, sc: Vars, rho: Rho) -> bool {
    forall|name: Seq<char>, v: i64|
        #![trigger has(b, name, v as int)]
        has(b, name, v as int) <==> exists|i: int|
            0 <= i < sc.len() && (#[trigger] sc[i]).contains_key(name) && name != "result"@ && rho(
                sc[i][name],
            ) == v
}

pub open spec fn fitting(n: int) -> Option<i64> {
    if i64::MIN <= n <= i64::MAX {
        Some(n as i64)
    } else {
        None
    }
}

/// The result for values that refute a postcondition.
pub open spec fn refuted(
    r: SRet,
    top: Vars,
    src: Seq<char>,
    rho: Rho,
    out: ContractCheckResult,
) -> bool {
    out matches ContractCheckResult::Counterexample { violated_predicate, bindings, result } && {
        &&& violated_predicate@ == src
        &&& result == fitting(rho(r.result))
        &&& listed(bindings@, scopes_at(r, top), rho)
    }
}

pub open spec fn gave_up() -> Seq<char> {
    "the solver could not decide a postcondition"@
}

pub open spec fn says_unsupported(r: ContractCheckResult, m: Seq<char>) -> bool {
    r matches ContractCheckResult::Unsupported(t) && t@ == m
}

/// What the answer of the solver on one postcondition at one `return` leads to:
/// nothing, where the postcondition holds there.
pub open spec fn follows_from(
    answer: Answer,
    r: SRet,
    top: Vars,
    src: Seq<char>,
    out: Option<ContractCheckResult>,
) -> bool {
    match answer {
        Answer::Unsat => out is None,
        Answer::Unknown => out matches Some(c) && says_unsupported(c, gave_up()),
        Answer::Sat(m) => out matches Some(c) && refuted(r, top, src, model_rho(m), c),
    }
}

/// Everything before the postcondition `i` at the `return` `j` is safe.
pub open spec fn safe_before(rets: Seq<SRet>, top: Vars, post: Seq<Expr>, j: int, i: int) -> bool {
    &&& forall|a: int, b: int|
        0 <= a < j && 0 <= b < post.len() ==> #[trigger] safe_at(rets[a], top, post[b])
    &&& forall|b: int| 0 <= b < i ==> #[trigger] safe_at(rets[j], top, post[b])
}

/// What checking all postconditions at all returns leads to, for a walk that ended
/// with `error`: the first that is not safe decides.
pub open spec fn checked(
    rets: Seq<SRet>,
    error: Option<Seq<char>>,
    top: Vars,
    post: Seq<Expr>,
    src: Seq<String>,
    r: ContractCheckResult,
) -> bool {
    ||| safe_before(rets, top, post, rets.len() as int, 0) && match error {
        Some(m) => says_unsupported(r, m),
        None => r is Proved,
    }
    ||| exists|j: int, i: int| #[trigger]
        stopped_at(rets, top, post, src, j, i, r)
}

/// What stops the check at a postcondition.
pub open spec fn stopped_at(
    rets: Seq<SRet>,
    top: Vars,
    post: Seq<Expr>,
    src: Seq<String>,
    j: int,
    i: int,
    r: ContractCheckResult,
) -> bool {
    &&& 0 <= j < rets.len()
    &&& 0 <= i < post.len()
    &&& safe_before(rets, top, post, j, i)
    &&& match walk_post(rets[j], top, post[i]) {
        Sym::Fail(_, m) => says_unsupported(r, m),
        Sym::Done(_, _) => {
            ||| says_unsupported(r, gave_up())
            ||| exists|rho: Rho| #[trigger]
                refutes(rets[j], top, post[i], rho) && refuted(
                    rets[j],
                    top,
                    src[i]@,
                    rho,
                    r,
                )
        },
    }
}

/// What the walk over a function and its contract leads to.
pub open spec fn judged(
    f: FnDecl,
    pre: Seq<Expr>,
    post: Seq<Expr>,
    pre_src: Seq<String>,
    post_src: Seq<String>,
    extra: Seq<(String, i64)>,
    r: ContractCheckResult,
) -> bool {
    match begin(f, extra, extra.len()) {
        Sym::Fail(_, m) => says_unsupported(r, m),
        Sym::Done(w, top) => match claim_pre(w, top, pre, pre_src, pre.len()) {
            Sym::Fail(_, m) => says_unsupported(r, m),
            Sym::Done(x, _) => match walk_stmts(
                false,
                x,
                opened(top),
                f.body.stmts@,
                f.body.stmts@.len(),
            ) {
                Sym::Fail(rets, m) => checked(rets, Some(m), top, post, post_src, r),
                Sym::Done(y, _) => checked(y.rets, None, top, post, post_src, r),
            },
        },
    }
}

/// A variable for one parameter more.
proof fn begin_param_step(w: Walk, s: Vars, t: STy)
    requires
        ready(w, s),
        w.next < u64::MAX,
    ensures
        ({
            let x = ranged(Walk { next: (w.next + 1) as u64, ..w }, w.next, t);
            all_below(x.path, x.next) && bounded(s, x.next) && x.next == w.next + 1
        }),
{
    let v = Walk { next: (w.next + 1) as u64, ..w };
    let x = ranged(v, w.next, t);
    all_wider(w.path, w.next, v.next);
    reveal_with_fuel(bool_below, 2);
    reveal_with_fuel(int_below, 2);
    assert forall|i: int| 0 <= i < x.path.len() implies bool_below(#[trigger] x.path[i], x.next) by {
        if i < w.path.len() {
            assert(x.path[i] == w.path[i]);
        }
    }
    assert forall|i: int, name: Seq<char>|
        0 <= i < s.len() && #[trigger] s[i].contains_key(name) implies s[i][name] < x.next by {
        assert(s[i][name] < w.next);
    }
}

/// What the claims on a parameter say.
proof fn range_true(w: Walk, k: u64, t: STy, rho: Rho)
    requires
        integer(t),
    ensures
        satisfied(ranged(w, k, t).path, rho) == (satisfied(w.path, rho) && least(t) <= rho(k)
            <= greatest(t)),
{
    reveal_with_fuel(bool_val, 2);
    reveal_with_fuel(int_val, 2);
    bounds_are_tight(t);
    let a = BoolTerm::Ge(Box::new(IntTerm::Var(k)), Box::new(IntTerm::Lit(least(t) as i64)));
    let b = BoolTerm::Le(Box::new(IntTerm::Var(k)), Box::new(IntTerm::Lit(greatest(t) as i64)));
    push_true(w.path, a, rho);
    push_true(w.path.push(a), b, rho);
}

pub open spec fn all_integers(ps: Seq<Param>) -> bool {
    forall|i: int| 0 <= i < ps.len() ==> integer((#[trigger] ps[i]).ty@)
}

pub(crate) proof fn odd_param_none(ps: Seq<Param>, i: int)
    requires
        odd_param(ps, i) is None,
        0 <= i,
    ensures
        forall|j: int| i <= j < ps.len() ==> integer((#[trigger] ps[j]).ty@),
    decreases ps.len() - i,
{
    if i < ps.len() {
        odd_param_none(ps, i + 1);
    }
}

/// The variables of the parameters are numbered in order.
proof fn begin_params_ready(ps: Seq<Param>, n: nat)
    requires
        n <= ps.len(),
    ensures
        begin_params(ps, n) matches Sym::Done(w, s) ==> {
            &&& ready(w, s)
            &&& w.next == n
            &&& w.rets.len() == 0
            &&& s.len() == 1
        },
    decreases n,
{
    if n > 0 {
        begin_params_ready(ps, (n - 1) as nat);
        match begin_params(ps, (n - 1) as nat) {
            Sym::Done(w, s) => {
                if w.next < u64::MAX {
                    begin_param_step(w, s, ps[n - 1].ty@);
                    bounded_defined(s, (w.next + 1) as u64, ps[n - 1].name@, w.next);
                }
            }
            _ => {}
        }
    }
}

proof fn begin_ready(f: FnDecl, extra: Seq<(String, i64)>, n: nat)
    requires
        n <= extra.len(),
    ensures
        begin(f, extra, n) matches Sym::Done(w, s) ==> {
            &&& ready(w, s)
            &&& w.rets.len() == 0
            &&& s.len() == 1
        },
    decreases n,
{
    if n == 0 {
        begin_params_ready(f.params@, f.params@.len());
    } else {
        begin_ready(f, extra, (n - 1) as nat);
        match begin(f, extra, (n - 1) as nat) {
            Sym::Done(w, s) => {
                if !is_param(f.params@, extra[n - 1].0@) && w.next < u64::MAX {
                    let t = IntTerm::Lit(extra[n - 1].1);
                    step_named(true, w, t);
                    bounded_wider(s, w.next, (w.next + 1) as u64);
                    bounded_defined(s, (w.next + 1) as u64, extra[n - 1].0@, w.next);
                }
            }
            _ => {}
        }
    }
}

/// The arguments that values of the variables stand for.
pub open spec fn args_of(ps: Seq<Param>, rho: Rho) -> Seq<int> {
    Seq::new(ps.len(), |i: int| rho(i as u64))
}

proof fn begin_params_back(ps: Seq<Param>, n: nat, rho: Rho)
    requires
        n <= ps.len(),
        all_integers(ps),
        begin_params(ps, n) matches Sym::Done(w, _) && satisfied(w.path, rho),
    ensures
        begin_params(ps, n) matches Sym::Done(w, s) && at(s, rho) == param_values(
            ps,
            args_of(ps, rho),
            n,
        ),
        forall|i: int|
            0 <= i < n ==> least(ps[i].ty@) <= #[trigger] args_of(ps, rho)[i] <= greatest(
                ps[i].ty@,
            ),
    decreases n,
{
    let args = args_of(ps, rho);
    if n == 0 {
        let none: Vars = seq![Map::empty()];
        assert(Map::<Seq<char>, u64>::empty().map_values(|k: u64| rho(k)) =~= Map::<
            Seq<char>,
            int,
        >::empty());
        assert(at(none, rho) =~= seq![Map::<Seq<char>, int>::empty()]);
    } else {
        let m = (n - 1) as nat;
        begin_params_ready(ps, m);
        match begin_params(ps, m) {
            Sym::Done(w, s) => {
                let v = Walk { next: (w.next + 1) as u64, ..w };
                range_true(v, w.next, ps[n - 1].ty@, rho);
                begin_params_back(ps, m, rho);
                at_defined(s, rho, ps[n - 1].name@, w.next);
                assert(args[n - 1] == rho(w.next));
                assert forall|i: int| 0 <= i < n implies least(ps[i].ty@) <= #[trigger] args[i]
                    <= greatest(ps[i].ty@) by {}
            }
            _ => {}
        }
    }
}

/// Values that satisfy the claims on the inputs are inputs.
proof fn begin_back(f: FnDecl, extra: Seq<(String, i64)>, n: nat, rho: Rho)
    requires
        n <= extra.len(),
        all_integers(f.params@),
        begin(f, extra, n) matches Sym::Done(w, _) && satisfied(w.path, rho),
    ensures
        begin(f, extra, n) matches Sym::Done(w, s) && at(s, rho) == given_values(
            f,
            args_of(f.params@, rho),
            extra,
            n,
        ),
        admitted(f, args_of(f.params@, rho)),
    decreases n,
{
    if n == 0 {
        begin_params_back(f.params@, f.params@.len(), rho);
    } else {
        match begin(f, extra, (n - 1) as nat) {
            Sym::Done(w, s) => {
                let t = IntTerm::Lit(extra[n - 1].1);
                if !is_param(f.params@, extra[n - 1].0@) {
                    let_true(w, t, STy::I64, rho);
                    at_defined(s, rho, extra[n - 1].0@, w.next);
                    reveal_with_fuel(int_val, 2);
                }
                begin_back(f, extra, (n - 1) as nat, rho);
            }
            _ => {}
        }
    }
}

proof fn begin_params_forth(ps: Seq<Param>, n: nat, args: Seq<int>) -> (rho: Rho)
    requires
        n <= ps.len(),
        args.len() == ps.len(),
        all_integers(ps),
        forall|i: int|
            0 <= i < args.len() ==> least(ps[i].ty@) <= #[trigger] args[i] <= greatest(ps[i].ty@),
        begin_params(ps, n) is Done,
    ensures
        begin_params(ps, n) matches Sym::Done(w, s) && satisfied(w.path, rho) && at(s, rho)
            == param_values(ps, args, n),
    decreases n,
{
    if n == 0 {
        let rho = |k: u64| 0int;
        let none: Vars = seq![Map::empty()];
        assert(Map::<Seq<char>, u64>::empty().map_values(|k: u64| rho(k)) =~= Map::<
            Seq<char>,
            int,
        >::empty());
        assert(at(none, rho) =~= seq![Map::<Seq<char>, int>::empty()]);
        rho
    } else {
        let m = (n - 1) as nat;
        begin_params_ready(ps, m);
        let r = begin_params_forth(ps, m, args);
        match begin_params(ps, m) {
            Sym::Done(w, s) => {
                let a = args[n - 1];
                let r2 = |k: u64|
                    if k == w.next {
                        a
                    } else {
                        r(k)
                    };
                all_agree(w.path, r, r2, w.next);
                at_agree(s, r, r2, w.next);
                let v = Walk { next: (w.next + 1) as u64, ..w };
                range_true(v, w.next, ps[n - 1].ty@, r2);
                at_defined(s, r2, ps[n - 1].name@, w.next);
                r2
            }
            _ => r,
        }
    }
}

/// Inputs give values that satisfy the claims on the inputs.
proof fn begin_forth(f: FnDecl, extra: Seq<(String, i64)>, n: nat, args: Seq<int>) -> (rho: Rho)
    requires
        n <= extra.len(),
        all_integers(f.params@),
        admitted(f, args),
        begin(f, extra, n) is Done,
    ensures
        begin(f, extra, n) matches Sym::Done(w, s) && satisfied(w.path, rho) && at(s, rho)
            == given_values(f, args, extra, n),
    decreases n,
{
    if n == 0 {
        begin_params_forth(f.params@, f.params@.len(), args)
    } else {
        let m = (n - 1) as nat;
        begin_ready(f, extra, m);
        let r = begin_forth(f, extra, m, args);
        match begin(f, extra, m) {
            Sym::Done(w, s) => {
                if is_param(f.params@, extra[n - 1].0@) {
                    r
                } else {
                    let t = IntTerm::Lit(extra[n - 1].1);
                    let r2 = name_value(w, t, r);
                    let_true(w, t, STy::I64, r2);
                    at_agree(s, r, r2, w.next);
                    at_defined(s, r2, extra[n - 1].0@, w.next);
                    reveal_with_fuel(int_val, 2);
                    r2
                }
            }
            _ => r,
        }
    }
}

proof fn claim_pre_grows(w: Walk, sc: Vars, pre: Seq<Expr>, src: Seq<String>, n: nat)
    requires
        ready(w, sc),
        n <= pre.len(),
    ensures
        claim_pre(w, sc, pre, src, n) matches Sym::Done(x, _) ==> step(true, w, x),
    decreases n,
{
    if n == 0 {
        step_self(true, w);
    } else {
        claim_pre_grows(w, sc, pre, src, (n - 1) as nat);
        match claim_pre(w, sc, pre, src, (n - 1) as nat) {
            Sym::Done(x, _) => {
                bounded_wider(sc, w.next, x.next);
                grow_bool(true, x, sc, pre[n - 1]);
                match walk_bool(true, x, sc, pre[n - 1]) {
                    Sym::Done(y, b) => {
                        step_assume(true, y, b);
                        compose(true, x, y, Sym::<()>::Done(assuming(y, b), ()));
                        compose(true, w, x, Sym::<()>::Done(assuming(y, b), ()));
                    }
                    _ => {}
                }
            }
            _ => {}
        }
    }
}

proof fn claim_pre_back(w: Walk, sc: Vars, pre: Seq<Expr>, src: Seq<String>, n: nat, rho: Rho)
    requires
        ready(w, sc),
        n <= pre.len(),
        claim_pre(w, sc, pre, src, n) matches Sym::Done(x, _) && satisfied(x.path, rho),
    ensures
        satisfied(w.path, rho),
        forall|i: int|
            0 <= i < n ==> run_bool(true, at(sc, rho), #[trigger] pre[i]) == Ev::Val(true),
    decreases n,
{
    if n > 0 {
        let m = (n - 1) as nat;
        claim_pre_grows(w, sc, pre, src, m);
        match claim_pre(w, sc, pre, src, m) {
            Sym::Done(x, _) => {
                bounded_wider(sc, w.next, x.next);
                grow_bool(true, x, sc, pre[n - 1]);
                back_bool(true, x, sc, pre[n - 1], rho);
                match walk_bool(true, x, sc, pre[n - 1]) {
                    Sym::Done(y, b) => {
                        push_true(y.path, b, rho);
                        prefix_satisfied(x.path, y.path, rho);
                    }
                    _ => {}
                }
                claim_pre_back(w, sc, pre, src, m, rho);
            }
            _ => {}
        }
    }
}

proof fn claim_pre_forth(
    w: Walk,
    sc: Vars,
    pre: Seq<Expr>,
    src: Seq<String>,
    n: nat,
    rho: Rho,
) -> (r: Rho)
    requires
        ready(w, sc),
        n <= pre.len(),
        claim_pre(w, sc, pre, src, n) is Done,
        satisfied(w.path, rho),
        pre_holds(pre, at(sc, rho)),
    ensures
        agree(rho, r, w.next),
        claim_pre(w, sc, pre, src, n) matches Sym::Done(x, _) && satisfied(x.path, r),
    decreases n,
{
    if n == 0 {
        rho
    } else {
        let m = (n - 1) as nat;
        let r1 = claim_pre_forth(w, sc, pre, src, m, rho);
        claim_pre_grows(w, sc, pre, src, m);
        match claim_pre(w, sc, pre, src, m) {
            Sym::Done(x, _) => {
                bounded_wider(sc, w.next, x.next);
                at_agree(sc, rho, r1, w.next);
                let r2 = forth_bool(true, x, sc, pre[n - 1], r1);
                grow_bool(true, x, sc, pre[n - 1]);
                back_bool(true, x, sc, pre[n - 1], r2);
                at_agree(sc, r1, r2, x.next);
                assert(run_bool(true, at(sc, rho), pre[n - 1]) == Ev::Val(true));
                match walk_bool(true, x, sc, pre[n - 1]) {
                    Sym::Done(y, b) => {
                        push_true(y.path, b, r2);
                    }
                    _ => {}
                }
                assert forall|k: u64| k < w.next implies #[trigger] rho(k) == r2(k) by {
                    assert(rho(k) == r1(k));
                    assert(r1(k) == r2(k));
                }
                r2
            }
            _ => r1,
        }
    }
}

/// The walk over a function and its contract, up to the body.
pub open spec fn walked_to(
    f: FnDecl,
    pre: Seq<Expr>,
    pre_src: Seq<String>,
    extra: Seq<(String, i64)>,
    w: Walk,
    top: Vars,
    x: Walk,
) -> bool {
    &&& all_integers(f.params@)
    &&& begin(f, extra, extra.len()) == Sym::Done(w, top)
    &&& claim_pre(w, top, pre, pre_src, pre.len()) == Sym::Done(x, ())
}

/// The scopes in which a postcondition is read at a `return`.
proof fn post_ready(x: Walk, top: Vars, r: SRet)
    requires
        bounded(top, x.next),
        ret_from(r, x.path, x.next),
    ensures
        ready(
            Walk { next: r.next, path: r.path, rets: Seq::empty() },
            defined(opened(top), "result"@, r.result),
        ),
{
    bounded_wider(top, x.next, r.next);
    bounded_opened(top, r.next);
    bounded_defined(opened(top), r.next, "result"@, r.result);
}

/// Where no values refute a postcondition at any `return`, the contract holds.
pub(crate) proof fn safe_means_holds(
    f: FnDecl,
    pre: Seq<Expr>,
    post: Seq<Expr>,
    pre_src: Seq<String>,
    extra: Seq<(String, i64)>,
    w: Walk,
    top: Vars,
    x: Walk,
    y: Walk,
    s: Vars,
)
    requires
        walked_to(f, pre, pre_src, extra, w, top, x),
        walk_stmts(false, x, opened(top), f.body.stmts@, f.body.stmts@.len()) == Sym::Done(y, s),
        safe_before(y.rets, top, post, y.rets.len() as int, 0),
    ensures
        contract_holds(f, pre, post, extra),
{
    let v = f.body.stmts@;
    begin_ready(f, extra, extra.len());
    claim_pre_grows(w, top, pre, pre_src, pre.len());
    bounded_wider(top, w.next, x.next);
    bounded_opened(top, x.next);
    grow_stmts(false, x, opened(top), v, v.len());
    assert forall|args: Seq<int>, val: int, i: int|
        #![trigger runs(f, inputs(f, extra, args)), post_value(
            inputs(f, extra, args),
            val,
            post[i],
        )]
        admitted(f, args) && pre_holds(pre, inputs(f, extra, args)) && runs(
            f,
            inputs(f, extra, args),
        ) == Ev::<Env>::Ret(val) && 0 <= i < post.len() implies post_value(
        inputs(f, extra, args),
        val,
        post[i],
    ) == Ev::Val(true) by {
        let env = inputs(f, extra, args);
        let r0 = begin_forth(f, extra, extra.len(), args);
        let r1 = claim_pre_forth(w, top, pre, pre_src, pre.len(), r0);
        at_agree(top, r0, r1, w.next);
        at_opened(top, r1);
        let r2 = forth_stmts(false, x, opened(top), v, v.len(), r1);
        let j = choose|j: int|
            x.rets.len() <= j < y.rets.len() && satisfied((#[trigger] y.rets[j]).path, r2) && r2(
                y.rets[j].result,
            ) == val;
        let r = y.rets[j];
        assert(ret_from(r, x.path, x.next));
        post_ready(x, top, r);
        at_agree(top, r1, r2, x.next);
        let p = Walk { next: r.next, path: r.path, rets: Seq::<SRet>::empty() };
        let sc = defined(opened(top), "result"@, r.result);
        at_opened(top, r2);
        at_defined(opened(top), r2, "result"@, r.result);
        assert(safe_at(r, top, post[i]));
        let r3 = forth_bool(true, p, sc, post[i], r2);
        grow_bool(true, p, sc, post[i]);
        back_bool(true, p, sc, post[i], r3);
        at_agree(sc, r2, r3, p.next);
        match walk_post(r, top, post[i]) {
            Sym::Done(z, b) => {
                push_true(z.path, negated(b), r3);
                reveal_with_fuel(bool_val, 2);
            }
            _ => {}
        }
    }
}

/// Values that refute a postcondition at a `return` are inputs that violate it.
pub(crate) proof fn refuted_means_violated(
    f: FnDecl,
    pre: Seq<Expr>,
    e: Expr,
    pre_src: Seq<String>,
    extra: Seq<(String, i64)>,
    w: Walk,
    top: Vars,
    x: Walk,
    rets: Seq<SRet>,
    j: int,
    rho: Rho,
)
    requires
        walked_to(f, pre, pre_src, extra, w, top, x),
        match walk_stmts(false, x, opened(top), f.body.stmts@, f.body.stmts@.len()) {
            Sym::Done(y, _) => y.rets == rets,
            Sym::Fail(q, _) => q == rets,
        },
        0 <= j < rets.len(),
        refutes(rets[j], top, e, rho),
    ensures
        violates(f, pre, e, extra, args_of(f.params@, rho), rho(rets[j].result)),
        satisfied(w.path, rho),
        at(top, rho) == inputs(f, extra, args_of(f.params@, rho)),
{
    let v = f.body.stmts@;
    let r = rets[j];
    begin_ready(f, extra, extra.len());
    claim_pre_grows(w, top, pre, pre_src, pre.len());
    bounded_wider(top, w.next, x.next);
    bounded_opened(top, x.next);
    grow_stmts(false, x, opened(top), v, v.len());
    back_stmts(false, x, opened(top), v, v.len(), rho);
    assert(x.rets.len() == 0);
    assert(ret_from(r, x.path, x.next));
    post_ready(x, top, r);
    let p = Walk { next: r.next, path: r.path, rets: Seq::<SRet>::empty() };
    let sc = defined(opened(top), "result"@, r.result);
    grow_bool(true, p, sc, e);
    back_bool(true, p, sc, e, rho);
    at_opened(top, rho);
    at_defined(opened(top), rho, "result"@, r.result);
    match walk_post(r, top, e) {
        Sym::Done(z, b) => {
            push_true(z.path, negated(b), rho);
            reveal_with_fuel(bool_val, 2);
            prefix_satisfied(r.path, z.path, rho);
        }
        _ => {}
    }
    prefix_satisfied(x.path, r.path, rho);
    claim_pre_back(w, top, pre, pre_src, pre.len(), rho);
    begin_back(f, extra, extra.len(), rho);
}

/// Bindings that list the names in scope show every input.
proof fn listed_shows(b: Seq<(String, i64)>, r: SRet, top: Vars, f: FnDecl, extra: Seq<(String, i64)>, rho: Rho)
    requires
        listed(b, scopes_at(r, top), rho),
        top.len() == 1,
        at(top, rho) == inputs(f, extra, args_of(f.params@, rho)),
        forall|name: Seq<char>|
            #![trigger top[0].contains_key(name)]
            top[0].contains_key(name) ==> i64::MIN <= rho(top[0][name]) <= i64::MAX,
    ensures
        shows(b, inputs(f, extra, args_of(f.params@, rho))),
{
    let env = inputs(f, extra, args_of(f.params@, rho));
    let sc = scopes_at(r, top);
    assert forall|name: Seq<char>|
        #![trigger env[0].contains_key(name)]
        env[0].contains_key(name) && name != "result"@ implies has(b, name, env[0][name]) by {
        assert(at(top, rho)[0] == top[0].map_values(|k: u64| rho(k)));
        assert(top[0].contains_key(name));
        let v = rho(top[0][name]) as i64;
        assert(sc[0] == top[0]);
        assert(sc[0].contains_key(name));
        assert(has(b, name, v as int));
    }
}

/// The inputs fit.
proof fn begin_params_fit(ps: Seq<Param>, n: nat, rho: Rho)
    requires
        n <= ps.len(),
        all_integers(ps),
        begin_params(ps, n) matches Sym::Done(w, _) && satisfied(w.path, rho),
    ensures
        begin_params(ps, n) matches Sym::Done(_, s) && forall|name: Seq<char>|
            #![trigger s[0].contains_key(name)]
            s[0].contains_key(name) ==> i64::MIN <= rho(s[0][name]) <= i64::MAX,
    decreases n,
{
    if n > 0 {
        let m = (n - 1) as nat;
        begin_params_ready(ps, m);
        match begin_params(ps, m) {
            Sym::Done(w, s) => {
                let v = Walk { next: (w.next + 1) as u64, ..w };
                range_true(v, w.next, ps[n - 1].ty@, rho);
                bounds_are_tight(ps[n - 1].ty@);
                begin_params_fit(ps, m, rho);
                assert(s.last() == s[0]);
            }
            _ => {}
        }
    }
}

proof fn begin_fit(f: FnDecl, extra: Seq<(String, i64)>, n: nat, rho: Rho)
    requires
        n <= extra.len(),
        all_integers(f.params@),
        begin(f, extra, n) matches Sym::Done(w, _) && satisfied(w.path, rho),
    ensures
        begin(f, extra, n) matches Sym::Done(_, s) && forall|name: Seq<char>|
            #![trigger s[0].contains_key(name)]
            s[0].contains_key(name) ==> i64::MIN <= rho(s[0][name]) <= i64::MAX,
    decreases n,
{
    if n == 0 {
        begin_params_fit(f.params@, f.params@.len(), rho);
    } else {
        let m = (n - 1) as nat;
        begin_ready(f, extra, m);
        match begin(f, extra, m) {
            Sym::Done(w, s) => {
                let t = IntTerm::Lit(extra[n - 1].1);
                if !is_param(f.params@, extra[n - 1].0@) {
                    let_true(w, t, STy::I64, rho);
                    reveal_with_fuel(int_val, 2);
                }
                begin_fit(f, extra, m, rho);
                assert(s.last() == s[0]);
            }
            _ => {}
        }
    }
}

/// A counterexample is an input that the function was given, with the result that
/// it returned and the postcondition that this violates.
pub open spec fn real_counterexample(
    f: FnDecl,
    pre: Seq<Expr>,
    post: Seq<Expr>,
    post_src: Seq<String>,
    extra: Seq<(String, i64)>,
    r: ContractCheckResult,
) -> bool {
    r matches ContractCheckResult::Counterexample { violated_predicate, bindings, result }
        && exists|args: Seq<int>, v: int, i: int|
        0 <= i < post.len() && #[trigger] violates(f, pre, post[i], extra, args, v)
            && violated_predicate@ == post_src[i]@ && result == fitting(v) && shows(
            bindings@,
            inputs(f, extra, args),
        )
}

/// What a judgement means: `Proved` says that the contract holds, and a
/// counterexample is one.
pub proof fn judgement_is_sound(
    f: FnDecl,
    pre: Seq<Expr>,
    post: Seq<Expr>,
    pre_src: Seq<String>,
    post_src: Seq<String>,
    extra: Seq<(String, i64)>,
    r: ContractCheckResult,
)
    requires
        signature_fault(f) is None,
        judged(f, pre, post, pre_src, post_src, extra, r),
        pre_src.len() == pre.len(),
        post_src.len() == post.len(),
    ensures
        r is Proved ==> contract_holds(f, pre, post, extra),
        r is Counterexample ==> real_counterexample(f, pre, post, post_src, extra, r),
{
    odd_param_none(f.params@, 0);
    match begin(f, extra, extra.len()) {
        Sym::Done(w, top) => match claim_pre(w, top, pre, pre_src, pre.len()) {
            Sym::Done(x, _) => {
                begin_ready(f, extra, extra.len());
                let o = walk_stmts(false, x, opened(top), f.body.stmts@, f.body.stmts@.len());
                let rets = match o {
                    Sym::Fail(rets, _) => rets,
                    Sym::Done(y, _) => y.rets,
                };
                if r is Proved {
                    match o {
                        Sym::Done(y, s) => {
                            safe_means_holds(f, pre, post, pre_src, extra, w, top, x, y, s);
                        }
                        _ => {}
                    }
                }
                if r is Counterexample {
                    let (j, i) = choose|j: int, i: int| #[trigger]
                        stopped_at(rets, top, post, post_src, j, i, r);
                    let rho = choose|rho: Rho| #[trigger]
                        refutes(rets[j], top, post[i], rho) && refuted(
                            rets[j],
                            top,
                            post_src[i]@,
                            rho,
                            r,
                        );
                    refuted_means_violated(
                        f,
                        pre,
                        post[i],
                        pre_src,
                        extra,
                        w,
                        top,
                        x,
                        rets,
                        j,
                        rho,
                    );
                    begin_fit(f, extra, extra.len(), rho);
                    match r {
                        ContractCheckResult::Counterexample { bindings, .. } => {
                            listed_shows(bindings@, rets[j], top, f, extra, rho);
                        }
                        _ => {}
                    }
                    let args = args_of(f.params@, rho);
                    let v = rho(rets[j].result);
                    assert(violates(f, pre, post[i], extra, args, v));
                }
            }
            _ => {}
        },
        _ => {}
    }
}

impl Walker {
    fn param(&mut self, p: &Param, sc: &mut Scopes<u64>) -> (r: Result<(), String>)
        requires
            integer(p.ty@),
        ensures
            old(self).next == u64::MAX ==> (r matches Err(m) && m@ == too_many()),
            old(self).next < u64::MAX ==> r is Ok && final(self)@ == ranged(
                Walk { next: (old(self).next + 1) as u64, ..old(self)@ },
                old(self).next,
                p.ty@,
            ) && final(sc)@ == defined(old(sc)@, p.name@, old(self).next),
    {
        if self.next == u64::MAX {
            return Err("Tier 1 can't number any more locals".to_owned());
        }
        let k = self.next;
        self.next = k + 1;
        self.claim_range(k, &p.ty);
        sc.define(p.name.as_str(), k);
        Ok(())
    }

    fn given(&mut self, name: &str, value: i64, sc: &mut Scopes<u64>) -> (r: Result<(), String>)
        ensures
            old(self).next == u64::MAX ==> (r matches Err(m) && m@ == too_many()),
            old(self).next < u64::MAX ==> r is Ok && final(self)@ == named(
                old(self)@,
                IntTerm::Lit(value),
            ) && final(sc)@ == defined(old(sc)@, name@, old(self).next),
    {
        if self.next == u64::MAX {
            return Err("Tier 1 can't number any more locals".to_owned());
        }
        let k = self.name_term(IntTerm::Lit(value));
        sc.define(name, k);
        Ok(())
    }

    /// Claims a precondition.
    fn pre(&mut self, e: &Expr, src: &str, sc: &mut Scopes<u64>) -> (r: Result<(), String>)
        ensures
            match walk_bool(true, old(self)@, old(sc)@, *e) {
                Sym::Done(y, b) => r is Ok && final(self)@ == assuming(y, b) && final(sc)@ == old(
                    sc,
                )@,
                Sym::Fail(_, m) => r matches Err(t) && t@ == "pre_logic `"@ + src@ + "`: "@ + m,
            },
    {
        match self.predicate(e, sc) {
            Ok(b) => {
                self.assume_that(b);
                Ok(())
            }
            Err(m) => Err(cat4("pre_logic `", src, "`: ", m.as_str())),
        }
    }
}

fn names_param(ps: &Vec<Param>, name: &str) -> (r: bool)
    ensures
        r == is_param(ps@, name@),
{
    let mut i: usize = 0;
    while i < ps.len()
        invariant
            i <= ps@.len(),
            forall|j: int| 0 <= j < i ==> (#[trigger] ps@[j]).name@ != name@,
        decreases ps@.len() - i,
    {
        if same(ps[i].name.as_str(), name) {
            return true;
        }
        i = i + 1;
    }
    false
}

fn parse_all(v: &Vec<String>) -> (r: Result<Vec<Expr>, String>)
    ensures
        match r {
            Ok(es) => parse_fault(v@, 0) is None && parsed(v@, es@),
            Err(m) => parse_fault(v@, 0) == Some(m@),
        },
{
    let mut out: Vec<Expr> = Vec::new();
    let mut i: usize = 0;
    while i < v.len()
        invariant
            i <= v@.len(),
            out@.len() == i,
            parse_fault(v@, 0) == parse_fault(v@, i as int),
            forall|j: int|
                0 <= j < i ==> read_expr(encode_utf8(v@[j]@)) == Ok::<SExpr, Fault>(
                    (#[trigger] out@[j])@,
                ),
        decreases v@.len() - i,
    {
        match parse_standalone_expr(v[i].as_str()) {
            Ok(e) => {
                out.push(e);
            }
            Err(e) => {
                return Err(e.to_text());
            }
        }
        i = i + 1;
    }
    Ok(out)
}

fn check_signature(f: &FnDecl) -> (r: Result<(), String>)
    ensures
        match r {
            Ok(_) => signature_fault(*f) is None,
            Err(m) => signature_fault(*f) == Some(m@),
        },
{
    let mut i: usize = 0;
    while i < f.params.len()
        invariant
            i <= f.params@.len(),
            odd_param(f.params@, 0) == odd_param(f.params@, i as int),
        decreases f.params@.len() - i,
    {
        let p = &f.params[i];
        if !p.ty.is_integer() {
            let t = p.ty.name();
            return Err(
                cat5("parameter `", p.name.as_str(), "` has type `", t.as_str(), "` — Tier 1 only models integer parameters today"),
            );
        }
        i = i + 1;
    }
    if !f.ret.is_integer() {
        let t = f.ret.name();
        return Err(
            cat5("`", f.name.as_str(), "` returns `", t.as_str(), "` — Tier 1 only models an integer-returning function today"),
        );
    }
    Ok(())
}

fn collect_all(es: &Vec<Expr>, out: &mut Vec<String>)
    ensures
        lines_view(final(out)@) == mentioned_by(es@, lines_view(old(out)@), es@.len()),
{
    let ghost start = lines_view(out@);
    let mut i: usize = 0;
    while i < es.len()
        invariant
            i <= es@.len(),
            start == lines_view(old(out)@),
            lines_view(out@) == mentioned_by(es@, start, i as nat),
        decreases es@.len() - i,
    {
        collect_idents(&es[i], out);
        i = i + 1;
    }
}

fn find_unbound(f: &FnDecl, pre: &Vec<Expr>, post: &Vec<Expr>, extra: &Table<i64>) -> (r: Option<
    String,
>)
    ensures
        match r {
            Some(n) => unbound(*f, pre@, post@, extra@) == Some(n@),
            None => unbound(*f, pre@, post@, extra@) is None,
        },
{
    let mut names: Vec<String> = Vec::new();
    proof {
        assert(lines_view(names@) =~= Seq::<Seq<char>>::empty());
    }
    collect_all(pre, &mut names);
    collect_all(post, &mut names);
    let ghost all = lines_view(names@);
    let mut i: usize = 0;
    while i < names.len()
        invariant
            i <= names@.len(),
            all == lines_view(names@),
            unbound(*f, pre@, post@, extra@) == unbound_from(*f, extra@, all, i as int),
        decreases names@.len() - i,
    {
        let n = names[i].as_str();
        if !(same(n, "result") || names_param(&f.params, n) || extra.get(n).is_some()) {
            return Some(names[i].clone());
        }
        i = i + 1;
    }
    None
}

proof fn begin_params_stop(ps: Seq<Param>, a: nat, b: nat)
    requires
        a <= b,
        begin_params(ps, a) is Fail,
    ensures
        begin_params(ps, b) == begin_params(ps, a),
    decreases b,
{
    if a < b {
        begin_params_stop(ps, a, (b - 1) as nat);
    }
}

proof fn begin_stop(f: FnDecl, extra: Seq<(String, i64)>, a: nat, b: nat)
    requires
        a <= b,
        begin(f, extra, a) is Fail,
    ensures
        begin(f, extra, b) == begin(f, extra, a),
    decreases b,
{
    if a < b {
        begin_stop(f, extra, a, (b - 1) as nat);
    }
}

proof fn claim_pre_stop(w: Walk, sc: Vars, pre: Seq<Expr>, src: Seq<String>, a: nat, b: nat)
    requires
        a <= b <= pre.len(),
        claim_pre(w, sc, pre, src, a) is Fail,
    ensures
        claim_pre(w, sc, pre, src, b) == claim_pre(w, sc, pre, src, a),
    decreases b,
{
    if a < b {
        claim_pre_stop(w, sc, pre, src, a, (b - 1) as nat);
    }
}

fn start(f: &FnDecl, extra: &Table<i64>) -> (r: Result<(Walker, Scopes<u64>), String>)
    requires
        signature_fault(*f) is None,
    ensures
        match r {
            Ok(q) => begin(*f, extra.entries@, extra.entries@.len()) == Sym::Done((q.0)@, (q.1)@),
            Err(m) => begin(*f, extra.entries@, extra.entries@.len()) matches Sym::Fail(_, t) && t
                == m@,
        },
{
    let mut w = Walker { next: 0, path: Vec::new(), rets: Vec::new() };
    let mut sc: Scopes<u64> = Scopes::new();
    sc.push();
    proof {
        odd_param_none(f.params@, 0);
        assert(w@.path =~= Seq::empty());
        assert(w@.rets =~= Seq::empty());
        assert(sc@ =~= seq![Map::<Seq<char>, u64>::empty()]);
    }
    let mut i: usize = 0;
    while i < f.params.len()
        invariant
            i <= f.params@.len(),
            all_integers(f.params@),
            begin_params(f.params@, i as nat) == Sym::Done(w@, sc@),
        decreases f.params@.len() - i,
    {
        match w.param(&f.params[i], &mut sc) {
            Ok(_) => {}
            Err(m) => {
                proof {
                    begin_params_stop(f.params@, (i + 1) as nat, f.params@.len());
                    begin_stop(*f, extra.entries@, 0, extra.entries@.len());
                }
                return Err(m);
            }
        }
        i = i + 1;
    }
    let mut j: usize = 0;
    while j < extra.entries.len()
        invariant
            j <= extra.entries@.len(),
            begin(*f, extra.entries@, j as nat) == Sym::Done(w@, sc@),
        decreases extra.entries@.len() - j,
    {
        let name = extra.entries[j].0.as_str();
        if !names_param(&f.params, name) {
            match w.given(name, extra.entries[j].1, &mut sc) {
                Ok(_) => {}
                Err(m) => {
                    proof {
                        begin_stop(*f, extra.entries@, (j + 1) as nat, extra.entries@.len());
                    }
                    return Err(m);
                }
            }
        }
        j = j + 1;
    }
    Ok((w, sc))
}

fn claim_all(w: &mut Walker, sc: &mut Scopes<u64>, pre: &Vec<Expr>, src: &Vec<String>) -> (r: Result<
    (),
    String,
>)
    requires
        pre@.len() == src@.len(),
    ensures
        match r {
            Ok(_) => claim_pre(old(w)@, old(sc)@, pre@, src@, pre@.len()) == Sym::Done(
                final(w)@,
                (),
            ) && final(sc)@ == old(sc)@,
            Err(m) => claim_pre(old(w)@, old(sc)@, pre@, src@, pre@.len()) matches Sym::Fail(_, t)
                && t == m@,
        },
{
    let ghost w0 = w@;
    let ghost s0 = sc@;
    let mut i: usize = 0;
    while i < pre.len()
        invariant
            i <= pre@.len(),
            pre@.len() == src@.len(),
            w0 == old(w)@,
            s0 == old(sc)@,
            sc@ == s0,
            claim_pre(w0, s0, pre@, src@, i as nat) == Sym::Done(w@, ()),
        decreases pre@.len() - i,
    {
        match w.pre(&pre[i], src[i].as_str(), sc) {
            Ok(_) => {}
            Err(m) => {
                proof {
                    claim_pre_stop(w0, s0, pre@, src@, (i + 1) as nat, pre@.len());
                }
                return Err(m);
            }
        }
        i = i + 1;
    }
    Ok(())
}

/// Values read off a model, behind those in `out`.
pub open spec fn listed_more(
    b: Seq<(String, i64)>,
    before: Seq<(String, i64)>,
    sc: Vars,
    rho: Rho,
) -> bool {
    forall|name: Seq<char>, v: i64|
        #![trigger has(b, name, v as int)]
        has(b, name, v as int) <==> has(before, name, v as int) || exists|i: int|
            0 <= i < sc.len() && (#[trigger] sc[i]).contains_key(name) && name != "result"@ && rho(
                sc[i][name],
            ) == v
}

/// One name more.
proof fn has_push(b: Seq<(String, i64)>, e: (String, i64), name: Seq<char>, v: int)
    ensures
        has(b.push(e), name, v) <==> has(b, name, v) || (e.0@ == name && e.1 == v),
{
    let c = b.push(e);
    if has(b, name, v) {
        let j = choose|j: int| 0 <= j < b.len() && (#[trigger] b[j]).0@ == name && b[j].1 == v;
        assert(c[j] == b[j]);
    }
    if e.0@ == name && e.1 == v {
        assert(c[b.len() as int] == e);
    }
    if has(c, name, v) {
        let j = choose|j: int| 0 <= j < c.len() && (#[trigger] c[j]).0@ == name && c[j].1 == v;
        if j < b.len() {
            assert(b[j] == c[j]);
        }
    }
}

/// The names of one scope, with their values in a model.
fn read_frame(t: &Table<u64>, m: &z3::Model, out: &mut Vec<(String, i64)>)
    ensures
        listed_more(final(out)@, old(out)@, seq![t@], model_rho(*m)),
{
    let ghost before = out@;
    let ghost rho = model_rho(*m);
    let ghost map = t@;
    let mut i: usize = 0;
    while i < t.entries.len()
        invariant
            i <= t.entries@.len(),
            before == old(out)@,
            rho == model_rho(*m),
            map == t@,
            forall|name: Seq<char>, v: i64|
                #![trigger has(out@, name, v as int)]
                has(out@, name, v as int) <==> has(before, name, v as int) || ((exists|j: int|
                    0 <= j < i && (#[trigger] t.entries@[j]).0@ == name) && map.contains_key(name)
                    && name != "result"@ && rho(map[name]) == v),
        decreases t.entries@.len() - i,
    {
        let ghost was = out@;
        let name = t.entries[i].0.as_str();
        proof {
            map_of_keys(t.entries@, name@);
        }
        if !same(name, "result") {
            match t.get(name) {
                Some(k) => match model_value(m, *k) {
                    Some(v) => {
                        let e = (name.to_owned(), v);
                        out.push(e);
                        proof {
                            assert forall|n: Seq<char>, x: i64|
                                #![trigger has(out@, n, x as int)]
                                has(out@, n, x as int) <==> has(was, n, x as int) || (n == name@
                                    && x == v) by {
                                has_push(was, e, n, x as int);
                            }
                        }
                    }
                    None => {}
                },
                None => {}
            }
        }
        proof {
            assert forall|n: Seq<char>, v: i64|
                #![trigger has(out@, n, v as int)]
                has(out@, n, v as int) <==> has(before, n, v as int) || ((exists|j: int|
                    0 <= j < i + 1 && (#[trigger] t.entries@[j]).0@ == n) && map.contains_key(n)
                    && n != "result"@ && rho(map[n]) == v) by {
                assert(has(was, n, v as int) <==> has(before, n, v as int) || ((exists|j: int|
                    0 <= j < i && (#[trigger] t.entries@[j]).0@ == n) && map.contains_key(n) && n
                    != "result"@ && rho(map[n]) == v));
                assert(t.entries@[i as int].0@ == name@);
                if exists|j: int| 0 <= j < i + 1 && (#[trigger] t.entries@[j]).0@ == n {
                    let j = choose|j: int| 0 <= j < i + 1 && (#[trigger] t.entries@[j]).0@ == n;
                    if j == i {
                        assert(n == name@);
                    }
                }
            }
        }
        i = i + 1;
    }
    proof {
        let sc = seq![t@];
        assert forall|n: Seq<char>, v: i64|
            #![trigger has(out@, n, v as int)]
            has(out@, n, v as int) <==> has(before, n, v as int) || exists|i: int|
                0 <= i < sc.len() && (#[trigger] sc[i]).contains_key(n) && n != "result"@ && rho(
                    sc[i][n],
                ) == v by {
            map_of_keys(t.entries@, n);
            if map.contains_key(n) && n != "result"@ && rho(map[n]) == v {
                assert(sc[0].contains_key(n));
            }
        }
    }
}

proof fn listed_step(
    b: Seq<(String, i64)>,
    mid: Seq<(String, i64)>,
    before: Seq<(String, i64)>,
    sc: Vars,
    t: Map<Seq<char>, u64>,
    rho: Rho,
)
    requires
        listed_more(mid, before, sc, rho),
        listed_more(b, mid, seq![t], rho),
    ensures
        listed_more(b, before, sc.push(t), rho),
{
    let one = seq![t];
    let all = sc.push(t);
    assert forall|n: Seq<char>, v: i64|
        #![trigger has(b, n, v as int)]
        has(b, n, v as int) <==> has(before, n, v as int) || exists|i: int|
            0 <= i < all.len() && (#[trigger] all[i]).contains_key(n) && n != "result"@ && rho(
                all[i][n],
            ) == v by {
        assert(has(mid, n, v as int) <==> has(before, n, v as int) || exists|i: int|
            0 <= i < sc.len() && (#[trigger] sc[i]).contains_key(n) && n != "result"@ && rho(
                sc[i][n],
            ) == v);
        if exists|i: int|
            0 <= i < sc.len() && (#[trigger] sc[i]).contains_key(n) && n != "result"@ && rho(
                sc[i][n],
            ) == v {
            let i = choose|i: int|
                0 <= i < sc.len() && (#[trigger] sc[i]).contains_key(n) && n != "result"@ && rho(
                    sc[i][n],
                ) == v;
            assert(all[i] == sc[i]);
        }
        if exists|i: int|
            0 <= i < one.len() && (#[trigger] one[i]).contains_key(n) && n != "result"@ && rho(
                one[i][n],
            ) == v {
            assert(all[sc.len() as int] == t);
        }
        if exists|i: int|
            0 <= i < all.len() && (#[trigger] all[i]).contains_key(n) && n != "result"@ && rho(
                all[i][n],
            ) == v {
            let i = choose|i: int|
                0 <= i < all.len() && (#[trigger] all[i]).contains_key(n) && n != "result"@ && rho(
                    all[i][n],
                ) == v;
            if i < sc.len() {
                assert(sc[i] == all[i]);
            } else {
                assert(one[0] == all[i]);
            }
        }
    }
}

/// The names of all scopes from `from` on.
fn read_scopes(sc: &Scopes<u64>, from: usize, m: &z3::Model, out: &mut Vec<(String, i64)>)
    requires
        from <= 1,
    ensures
        listed_more(
            final(out)@,
            old(out)@,
            if from <= sc@.len() {
                sc@.subrange(from as int, sc@.len() as int)
            } else {
                Seq::empty()
            },
            model_rho(*m),
        ),
{
    let ghost before = out@;
    let ghost rho = model_rho(*m);
    let mut i: usize = from;
    let ghost mut done: Vars = Seq::empty();
    while i < sc.frames.len()
        invariant
            from <= 1,
            from <= i,
            i <= sc.frames@.len() || i == from,
            sc@.len() == sc.frames@.len(),
            before == old(out)@,
            rho == model_rho(*m),
            done == if from <= sc@.len() {
                sc@.subrange(from as int, i as int)
            } else {
                Seq::empty()
            },
            listed_more(out@, before, done, rho),
        decreases sc.frames@.len() - i,
    {
        let ghost mid = out@;
        read_frame(&sc.frames[i], m, out);
        proof {
            let t = sc.frames@[i as int]@;
            listed_step(out@, mid, before, done, t, rho);
            assert(sc@.subrange(from as int, i + 1) =~= done.push(t));
            done = done.push(t);
        }
        i = i + 1;
    }
}

/// What the solver's answer on one postcondition at one `return` leads to.
pub fn conclude(answer: &Answer, ret: &Ret, top: &Scopes<u64>, src: &String) -> (r: Option<
    ContractCheckResult,
>)
    ensures
        follows_from(*answer, ret@, top@, src@, r),
{
    match answer {
        Answer::Unsat => None,
        Answer::Unknown => Some(
            ContractCheckResult::Unsupported("the solver could not decide a postcondition".to_owned()),
        ),
        Answer::Sat(m) => {
            let mut bindings: Vec<(String, i64)> = Vec::new();
            let ghost none = bindings@;
            let ghost rho = model_rho(*m);
            read_scopes(top, 0, m, &mut bindings);
            let ghost mid = bindings@;
            read_scopes(&ret.scopes, 1, m, &mut bindings);
            proof {
                listed_both(bindings@, mid, none, ret@, top@, rho);
            }
            Some(
                ContractCheckResult::Counterexample {
                    violated_predicate: src.clone(),
                    bindings,
                    result: model_value(m, ret.result),
                },
            )
        }
    }
}

proof fn listed_both(
    b: Seq<(String, i64)>,
    mid: Seq<(String, i64)>,
    none: Seq<(String, i64)>,
    r: SRet,
    top: Vars,
    rho: Rho,
)
    requires
        none.len() == 0,
        listed_more(mid, none, top.subrange(0, top.len() as int), rho),
        listed_more(
            b,
            mid,
            if 1 <= r.scopes.len() {
                r.scopes.subrange(1, r.scopes.len() as int)
            } else {
                Seq::empty()
            },
            rho,
        ),
    ensures
        listed(b, scopes_at(r, top), rho),
{
    let more = if 1 <= r.scopes.len() {
        r.scopes.subrange(1, r.scopes.len() as int)
    } else {
        Seq::empty()
    };
    assert(top.subrange(0, top.len() as int) =~= top);
    let all = scopes_at(r, top);
    assert(all =~= top + more);
    assert forall|n: Seq<char>, v: i64|
        #![trigger has(b, n, v as int)]
        has(b, n, v as int) <==> exists|i: int|
            0 <= i < all.len() && (#[trigger] all[i]).contains_key(n) && n != "result"@ && rho(
                all[i][n],
            ) == v by {
        assert(has(none, n, v as int) == false);
        assert(has(mid, n, v as int) <==> exists|i: int|
            0 <= i < top.len() && (#[trigger] top[i]).contains_key(n) && n != "result"@ && rho(
                top[i][n],
            ) == v);
        if exists|i: int|
            0 <= i < top.len() && (#[trigger] top[i]).contains_key(n) && n != "result"@ && rho(
                top[i][n],
            ) == v {
            let i = choose|i: int|
                0 <= i < top.len() && (#[trigger] top[i]).contains_key(n) && n != "result"@ && rho(
                    top[i][n],
                ) == v;
            assert(all[i] == top[i]);
        }
        if exists|i: int|
            0 <= i < more.len() && (#[trigger] more[i]).contains_key(n) && n != "result"@ && rho(
                more[i][n],
            ) == v {
            let i = choose|i: int|
                0 <= i < more.len() && (#[trigger] more[i]).contains_key(n) && n != "result"@
                    && rho(more[i][n]) == v;
            assert(all[top.len() + i] == more[i]);
        }
        if exists|i: int|
            0 <= i < all.len() && (#[trigger] all[i]).contains_key(n) && n != "result"@ && rho(
                all[i][n],
            ) == v {
            let i = choose|i: int|
                0 <= i < all.len() && (#[trigger] all[i]).contains_key(n) && n != "result"@ && rho(
                    all[i][n],
                ) == v;
            if i < top.len() {
                assert(top[i] == all[i]);
            } else {
                assert(more[i - top.len()] == all[i]);
            }
        }
    }
}

/// The claims that reach a `return` and violate a postcondition there.
fn question(ret: &Ret, top: &Scopes<u64>, e: &Expr) -> (r: Result<(u64, Vec<BoolTerm>), String>)
    ensures
        match r {
            Ok(q) => walk_post(ret@, top@, *e) matches Sym::Done(x, b) && q.0 == x.next && (q.1)@
                == x.path.push(negated(b)),
            Err(m) => walk_post(ret@, top@, *e) matches Sym::Fail(_, t) && t == m@,
        },
{
    let mut w = Walker { next: ret.next, path: copy_terms(&ret.path), rets: Vec::new() };
    proof {
        assert(w@.rets =~= Seq::<SRet>::empty());
    }
    let mut sc = top.duplicate();
    sc.push();
    sc.define("result", ret.result);
    match w.predicate(e, &mut sc) {
        Ok(b) => {
            let mut claims = w.path;
            claims.push(BoolTerm::Not(Box::new(b)));
            Ok((w.next, claims))
        }
        Err(m) => Err(m),
    }
}

/// The claims of a question are over its variables.
proof fn question_bounded(x: Walk, top: Vars, r: SRet, e: Expr)
    requires
        bounded(top, x.next),
        ret_from(r, x.path, x.next),
    ensures
        walk_post(r, top, e) matches Sym::Done(z, b) ==> all_below(
            z.path.push(negated(b)),
            z.next,
        ),
{
    post_ready(x, top, r);
    let p = Walk { next: r.next, path: r.path, rets: Seq::<SRet>::empty() };
    let sc = defined(opened(top), "result"@, r.result);
    grow_bool(true, p, sc, e);
    match walk_post(r, top, e) {
        Sym::Done(z, b) => {
            reveal_with_fuel(bool_below, 2);
            let s = z.path.push(negated(b));
            assert forall|i: int| 0 <= i < s.len() implies bool_below(#[trigger] s[i], z.next) by {
                if i < z.path.len() {
                    assert(s[i] == z.path[i]);
                }
            }
        }
        _ => {}
    }
}

/// Checks one postcondition at one `return`.
fn check_one(ret: &Ret, top: &Scopes<u64>, e: &Expr, src: &String, Ghost(x): Ghost<Walk>) -> (r:
    Option<ContractCheckResult>)
    requires
        bounded(top@, x.next),
        ret_from(ret@, x.path, x.next),
    ensures
        match r {
            None => safe_at(ret@, top@, *e),
            Some(c) => match walk_post(ret@, top@, *e) {
                Sym::Fail(_, m) => says_unsupported(c, m),
                Sym::Done(_, _) => {
                    ||| says_unsupported(c, gave_up())
                    ||| exists|rho: Rho| #[trigger]
                        refutes(ret@, top@, *e, rho) && refuted(ret@, top@, src@, rho, c)
                },
            },
        },
{
    match question(ret, top, e) {
        Err(m) => Some(ContractCheckResult::Unsupported(m)),
        Ok(q) => {
            proof {
                question_bounded(x, top@, ret@, *e);
            }
            let answer = solve(q.0, &q.1);
            let r = conclude(&answer, ret, top, src);
            proof {
                match answer {
                    Answer::Sat(m) => {
                        assert(refutes(ret@, top@, *e, model_rho(m)));
                    }
                    _ => {}
                }
            }
            r
        }
    }
}

/// Checks every postcondition at every `return`, and then reports `error`.
fn check_all(
    rets: &Vec<Ret>,
    error: Option<String>,
    top: &Scopes<u64>,
    post: &Vec<Expr>,
    src: &Vec<String>,
    Ghost(x): Ghost<Walk>,
) -> (r: ContractCheckResult)
    requires
        post@.len() == src@.len(),
        bounded(top@, x.next),
        forall|j: int|
            0 <= j < rets@.len() ==> ret_from((#[trigger] rets@[j])@, x.path, x.next),
    ensures
        checked(
            rets_view(rets@),
            match error {
                Some(m) => Some(m@),
                None => None,
            },
            top@,
            post@,
            src@,
            r,
        ),
{
    let ghost rv = rets_view(rets@);
    let mut j: usize = 0;
    while j < rets.len()
        invariant
            j <= rets@.len(),
            rv == rets_view(rets@),
            post@.len() == src@.len(),
            bounded(top@, x.next),
            forall|j: int|
                0 <= j < rets@.len() ==> ret_from((#[trigger] rets@[j])@, x.path, x.next),
            forall|a: int, b: int|
                0 <= a < j && 0 <= b < post@.len() ==> #[trigger] safe_at(rv[a], top@, post@[b]),
        decreases rets@.len() - j,
    {
        let mut i: usize = 0;
        while i < post.len()
            invariant
                j < rets@.len(),
                i <= post@.len(),
                rv == rets_view(rets@),
                post@.len() == src@.len(),
                bounded(top@, x.next),
                forall|j: int|
                    0 <= j < rets@.len() ==> ret_from((#[trigger] rets@[j])@, x.path, x.next),
                forall|a: int, b: int|
                    0 <= a < j && 0 <= b < post@.len() ==> #[trigger] safe_at(
                        rv[a],
                        top@,
                        post@[b],
                    ),
                forall|b: int| 0 <= b < i ==> #[trigger] safe_at(rv[j as int], top@, post@[b]),
            decreases post@.len() - i,
        {
            proof {
                assert(rv[j as int] == rets@[j as int]@);
            }
            match check_one(&rets[j], top, &post[i], &src[i], Ghost(x)) {
                Some(c) => {
                    proof {
                        assert(stopped_at(rv, top@, post@, src@, j as int, i as int, c));
                    }
                    return c;
                }
                None => {}
            }
            i = i + 1;
        }
        j = j + 1;
    }
    match error {
        Some(m) => ContractCheckResult::Unsupported(m),
        None => ContractCheckResult::Proved,
    }
}

/// Checks the contract of a function whose predicates have been read.
pub fn check_parsed(
    f: &FnDecl,
    pre: &Vec<Expr>,
    post: &Vec<Expr>,
    pre_src: &Vec<String>,
    post_src: &Vec<String>,
    extra: &Table<i64>,
) -> (r: ContractCheckResult)
    requires
        pre@.len() == pre_src@.len(),
        post@.len() == post_src@.len(),
    ensures
        match signature_fault(*f) {
            Some(m) => says_unsupported(r, m),
            None => match unbound(*f, pre@, post@, extra@) {
                Some(n) => r matches ContractCheckResult::UnboundIdentifier(t) && t@ == n,
                None => {
                    &&& judged(*f, pre@, post@, pre_src@, post_src@, extra.entries@, r)
                    &&& r is Proved || r is Counterexample || r is Unsupported
                    &&& r is Proved ==> contract_holds(*f, pre@, post@, extra.entries@)
                    &&& r is Counterexample ==> real_counterexample(
                        *f,
                        pre@,
                        post@,
                        post_src@,
                        extra.entries@,
                        r,
                    )
                },
            },
        },
{
    match check_signature(f) {
        Err(m) => {
            return ContractCheckResult::Unsupported(m);
        }
        Ok(_) => {}
    }
    match find_unbound(f, pre, post, extra) {
        Some(n) => {
            return ContractCheckResult::UnboundIdentifier(n);
        }
        None => {}
    }
    let r = judge(f, pre, post, pre_src, post_src, extra);
    proof {
        judgement_is_sound(*f, pre@, post@, pre_src@, post_src@, extra.entries@, r);
    }
    r
}

fn judge(
    f: &FnDecl,
    pre: &Vec<Expr>,
    post: &Vec<Expr>,
    pre_src: &Vec<String>,
    post_src: &Vec<String>,
    extra: &Table<i64>,
) -> (r: ContractCheckResult)
    requires
        signature_fault(*f) is None,
        pre@.len() == pre_src@.len(),
        post@.len() == post_src@.len(),
    ensures
        judged(*f, pre@, post@, pre_src@, post_src@, extra.entries@, r),
        r is Proved || r is Counterexample || r is Unsupported,
{
    let (mut w, mut sc) = match start(f, extra) {
        Ok(q) => q,
        Err(m) => {
            return ContractCheckResult::Unsupported(m);
        }
    };
    let ghost w0 = w@;
    let ghost top0 = sc@;
    proof {
        begin_ready(*f, extra.entries@, extra.entries@.len());
        claim_pre_grows(w0, top0, pre@, pre_src@, pre@.len());
    }
    match claim_all(&mut w, &mut sc, pre, pre_src) {
        Ok(_) => {}
        Err(m) => {
            return ContractCheckResult::Unsupported(m);
        }
    }
    let ghost x = w@;
    let top = sc.duplicate();
    sc.push();
    proof {
        bounded_wider(top0, w0.next, x.next);
        bounded_opened(top0, x.next);
        grow_stmts(false, x, opened(top0), f.body.stmts@, f.body.stmts@.len());
    }
    let error = match w.stmts(false, &f.body.stmts, f.body.stmts.len(), &mut sc) {
        Ok(_) => None,
        Err(m) => Some(m),
    };
    let rets = w.rets;
    proof {
        assert forall|j: int| 0 <= j < rets@.len() implies ret_from(
            (#[trigger] rets@[j])@,
            x.path,
            x.next,
        ) by {
            assert(rets_view(rets@)[j] == rets@[j]@);
        }
    }
    check_all(&rets, error, &top, post, post_src, Ghost(x))
}

/// What checking a contract leads to.
pub open spec fn contract_checked(
    program: Program,
    name: Seq<char>,
    pre_src: Seq<String>,
    post_src: Seq<String>,
    extra: Table<i64>,
    r: ContractCheckResult,
) -> bool {
    let k = first_fn(program.fns@, name, 0);
    if k is None {
        r matches ContractCheckResult::NoSuchFunction(t) && t@ == name
    } else if parse_fault(pre_src, 0) is Some {
        r matches ContractCheckResult::PredicateParseError(t) && parse_fault(pre_src, 0) == Some(t@)
    } else if parse_fault(post_src, 0) is Some {
        r matches ContractCheckResult::PredicateParseError(t) && parse_fault(post_src, 0) == Some(
            t@,
        )
    } else {
        exists|pre: Seq<Expr>, post: Seq<Expr>| #[trigger]
            outcome(program.fns@[k->0], pre, post, pre_src, post_src, extra, r)
    }
}

/// What checking a contract leads to, for predicates that are expressions.
pub open spec fn outcome(
    f: FnDecl,
    pre: Seq<Expr>,
    post: Seq<Expr>,
    pre_src: Seq<String>,
    post_src: Seq<String>,
    extra: Table<i64>,
    r: ContractCheckResult,
) -> bool {
    &&& parsed(pre_src, pre)
    &&& parsed(post_src, post)
    &&& match signature_fault(f) {
        Some(m) => says_unsupported(r, m),
        None => match unbound(f, pre, post, extra@) {
            Some(n) => r matches ContractCheckResult::UnboundIdentifier(t) && t@ == n,
            None => {
                &&& judged(f, pre, post, pre_src, post_src, extra.entries@, r)
                &&& r is Proved || r is Counterexample || r is Unsupported
                &&& r is Proved ==> contract_holds(f, pre, post, extra.entries@)
                &&& r is Counterexample ==> real_counterexample(
                    f,
                    pre,
                    post,
                    post_src,
                    extra.entries@,
                    r,
                )
            },
        },
    }
}

/// Checks that the function `fn_name`, on inputs that meet `pre_logic`, returns
/// results that meet `post_logic`. `extra_bindings` gives a value to every name in
/// the predicates that is neither a parameter nor `result`.
pub fn check_fn_contract(
    program: &Program,
    fn_name: &str,
    pre_logic: &Vec<String>,
    post_logic: &Vec<String>,
    extra_bindings: &Table<i64>,
) -> (r: ContractCheckResult)
    ensures
        contract_checked(*program, fn_name@, pre_logic@, post_logic@, *extra_bindings, r),
{
    let k = match find_first_fn(program, fn_name) {
        None => {
            return ContractCheckResult::NoSuchFunction(fn_name.to_owned());
        }
        Some(k) => k,
    };
    let pre = match parse_all(pre_logic) {
        Ok(v) => v,
        Err(m) => {
            return ContractCheckResult::PredicateParseError(m);
        }
    };
    let post = match parse_all(post_logic) {
        Ok(v) => v,
        Err(m) => {
            return ContractCheckResult::PredicateParseError(m);
        }
    };
    let r = check_parsed(&program.fns[k], &pre, &post, pre_logic, post_logic, extra_bindings);
    proof {
        let i = first_fn(program.fns@, fn_name@, 0);
        assert(outcome(
            program.fns@[i->0],
            pre@,
            post@,
            pre_logic@,
            post_logic@,
            *extra_bindings,
            r,
        ));
    }
    r
}

} // verus!
