//! What a walk over a function says of its runs: a `return` that the walk notes is
//! reached by exactly the runs that satisfy its claims.
use crate::ast::{
    BinOp, ElseBranch, Expr, STy, Stmt, UnOp, bounds_are_tight, greatest, integer, least,
};
use crate::scopes::{defined, lookup, opened};
use crate::symbolic::{
    Env, Ev, SRet, Sym, Vars, Walk, assuming, bool_shaped, is_arith, is_comparison, logic, named,
    negated, ran, ranged, rejoin, returned, run_bool, run_branch, run_int, run_stmt, run_stmts,
    run_value, since, walk_bool, walk_branch, walk_int, walk_stmt, walk_stmts, walk_value, walked,
};
use crate::terms::{
    BoolTerm, IntTerm, Rho, agree, all_agree, all_below, all_bounded, all_val, bool_below,
    bool_val, bool_wider, cases, int_below, int_val, int_wider, satisfied,
};
use vstd::prelude::*;

verus! {

/// `a` stands at the start of `b`.
pub open spec fn prefix(a: Seq<BoolTerm>, b: Seq<BoolTerm>) -> bool {
    a.len() <= b.len() && forall|i: int| 0 <= i < a.len() ==> #[trigger] a[i] == b[i]
}

/// The variables in scope are numbered below `n`.
pub open spec fn bounded(sc: Vars, n: u64) -> bool {
    forall|i: int, name: Seq<char>|
        0 <= i < sc.len() && #[trigger] sc[i].contains_key(name) ==> sc[i][name] < n
}

/// A walk may start here.
pub open spec fn ready(w: Walk, sc: Vars) -> bool {
    all_below(w.path, w.next) && bounded(sc, w.next)
}

/// A `return` noted behind the claims `path`.
pub open spec fn ret_from(r: SRet, path: Seq<BoolTerm>, n: u64) -> bool {
    &&& prefix(path, r.path)
    &&& all_below(r.path, r.next)
    &&& r.result < r.next
    &&& n <= r.next
    &&& bounded(r.scopes, r.next)
}

/// The returns of a walk that started at `w`.
pub open spec fn grew(pred: bool, w: Walk, rets: Seq<SRet>) -> bool {
    &&& w.rets.len() <= rets.len()
    &&& forall|j: int| 0 <= j < w.rets.len() ==> #[trigger] rets[j] == w.rets[j]
    &&& forall|j: int|
        w.rets.len() <= j < rets.len() ==> ret_from(#[trigger] rets[j], w.path, w.next)
    &&& pred ==> rets == w.rets
}

/// A walk from `w` may be at `x`.
pub open spec fn step(pred: bool, w: Walk, x: Walk) -> bool {
    &&& grew(pred, w, x.rets)
    &&& prefix(w.path, x.path)
    &&& w.next <= x.next
    &&& all_below(x.path, x.next)
}

pub open spec fn grown<T>(pred: bool, w: Walk, o: Sym<T>) -> bool {
    match o {
        Sym::Done(x, _) => step(pred, w, x),
        Sym::Fail(r, _) => grew(pred, w, r),
    }
}

/// The values of the names in scope, given those of the variables.
pub open spec fn at(sc: Vars, rho: Rho) -> Env {
    Seq::new(sc.len(), |i: int| sc[i].map_values(|k: u64| rho(k)))
}

/// Values that satisfy the claims of a noted `return` reach it.
pub open spec fn rets_true<T>(rets: Seq<SRet>, from: nat, o: Ev<T>, rho: Rho) -> bool {
    forall|j: int|
        from <= j < rets.len() && satisfied((#[trigger] rets[j]).path, rho) ==> o == Ev::<T>::Ret(
            rho(rets[j].result),
        )
}

/// A run with the values `rho` is found in the walk, with the values `r2` of the
/// variables that the walk added.
pub open spec fn found<T>(pred: bool, w: Walk, x: Walk, o: Ev<T>, rho: Rho, r2: Rho) -> bool {
    &&& agree(rho, r2, w.next)
    &&& match o {
        Ev::Val(_) => satisfied(x.path, r2),
        Ev::Ret(v) => exists|j: int|
            w.rets.len() <= j < x.rets.len() && satisfied((#[trigger] x.rets[j]).path, r2) && r2(
                x.rets[j].result,
            ) == v,
        Ev::Stop => !pred,
        Ev::Bad => false,
    }
}

pub(crate) proof fn lookup_at_values(sc: Vars, rho: Rho, name: Seq<char>)
    ensures
        lookup(at(sc, rho), name) == match lookup(sc, name) {
            Some(k) => Some(rho(k)),
            None => None,
        },
    decreases sc.len(),
{
    if sc.len() > 0 {
        assert(at(sc, rho).drop_last() =~= at(sc.drop_last(), rho));
        assert(at(sc, rho).last() == sc.last().map_values(|k: u64| rho(k)));
        lookup_at_values(sc.drop_last(), rho, name);
    }
}

pub(crate) proof fn lookup_bounded(sc: Vars, n: u64, name: Seq<char>)
    requires
        bounded(sc, n),
    ensures
        lookup(sc, name) matches Some(k) ==> k < n,
    decreases sc.len(),
{
    if sc.len() > 0 {
        let d = sc.drop_last();
        assert forall|i: int, m: Seq<char>|
            0 <= i < d.len() && #[trigger] d[i].contains_key(m) implies d[i][m] < n by {
            assert(sc[i].contains_key(m));
        }
        assert(sc.last() == sc[sc.len() - 1]);
        lookup_bounded(d, n, name);
    }
}

pub(crate) proof fn at_agree(sc: Vars, a: Rho, b: Rho, n: u64)
    requires
        bounded(sc, n),
        agree(a, b, n),
    ensures
        at(sc, a) == at(sc, b),
{
    assert forall|i: int| 0 <= i < sc.len() implies #[trigger] at(sc, a)[i] == at(sc, b)[i] by {
        let x = sc[i].map_values(|k: u64| a(k));
        let y = sc[i].map_values(|k: u64| b(k));
        assert forall|m: Seq<char>| #[trigger] x.contains_key(m) implies x[m] == y[m] by {
            assert(sc[i].contains_key(m));
            assert(a(sc[i][m]) == b(sc[i][m]));
        }
        assert(x =~= y);
    }
    assert(at(sc, a) =~= at(sc, b));
}

pub(crate) proof fn at_opened(sc: Vars, rho: Rho)
    ensures
        at(opened(sc), rho) == opened(at(sc, rho)),
{
    assert(Map::<Seq<char>, u64>::empty().map_values(|k: u64| rho(k)) =~= Map::<
        Seq<char>,
        int,
    >::empty());
    assert(at(opened(sc), rho) =~= opened(at(sc, rho)));
}

pub(crate) proof fn at_defined(sc: Vars, rho: Rho, name: Seq<char>, k: u64)
    ensures
        at(defined(sc, name, k), rho) == defined(at(sc, rho), name, rho(k)),
{
    if sc.len() > 0 {
        let f = |k: u64| rho(k);
        assert(sc.last().insert(name, k).map_values(f) =~= sc.last().map_values(f).insert(
            name,
            rho(k),
        ));
        assert(at(sc, rho).last() == sc.last().map_values(f));
        assert(at(defined(sc, name, k), rho) =~= defined(at(sc, rho), name, rho(k)));
    } else {
        assert(at(defined(sc, name, k), rho) =~= defined(at(sc, rho), name, rho(k)));
    }
}

pub(crate) proof fn bounded_opened(sc: Vars, n: u64)
    requires
        bounded(sc, n),
    ensures
        bounded(opened(sc), n),
{
    let o = opened(sc);
    assert forall|i: int, m: Seq<char>|
        0 <= i < o.len() && #[trigger] o[i].contains_key(m) implies o[i][m] < n by {
        if i < sc.len() {
            assert(sc[i].contains_key(m));
        }
    }
}

pub(crate) proof fn bounded_defined(sc: Vars, n: u64, name: Seq<char>, k: u64)
    requires
        bounded(sc, n),
        k < n,
    ensures
        bounded(defined(sc, name, k), n),
{
    let o = defined(sc, name, k);
    assert forall|i: int, m: Seq<char>|
        0 <= i < o.len() && #[trigger] o[i].contains_key(m) implies o[i][m] < n by {
        if i < sc.len() - 1 {
            assert(sc[i].contains_key(m));
        } else if m != name {
            assert(sc[i].contains_key(m));
        }
    }
}

pub(crate) proof fn bounded_wider(sc: Vars, n: u64, m: u64)
    requires
        bounded(sc, n),
        n <= m,
    ensures
        bounded(sc, m),
{
    assert forall|i: int, name: Seq<char>|
        0 <= i < sc.len() && #[trigger] sc[i].contains_key(name) implies sc[i][name] < m by {
        assert(sc[i][name] < n);
    }
}

pub(crate) proof fn prefix_satisfied(a: Seq<BoolTerm>, b: Seq<BoolTerm>, rho: Rho)
    requires
        prefix(a, b),
        satisfied(b, rho),
    ensures
        satisfied(a, rho),
{
    assert forall|i: int| 0 <= i < a.len() implies bool_val(#[trigger] a[i], rho) by {
        assert(a[i] == b[i]);
        assert(bool_val(b[i], rho));
    }
}

pub(crate) proof fn prefix_trans(a: Seq<BoolTerm>, b: Seq<BoolTerm>, c: Seq<BoolTerm>)
    requires
        prefix(a, b),
        prefix(b, c),
    ensures
        prefix(a, c),
{
    assert forall|i: int| 0 <= i < a.len() implies #[trigger] a[i] == c[i] by {
        assert(b[i] == c[i]);
    }
}

pub(crate) proof fn compose<T>(pred: bool, w: Walk, x: Walk, o: Sym<T>)
    requires
        step(pred, w, x),
        grown(pred, x, o),
    ensures
        grown(pred, w, o),
{
    let rets = match o {
        Sym::Done(y, _) => y.rets,
        Sym::Fail(r, _) => r,
    };
    assert forall|j: int| w.rets.len() <= j < rets.len() implies ret_from(
        #[trigger] rets[j],
        w.path,
        w.next,
    ) by {
        if j < x.rets.len() {
            assert(rets[j] == x.rets[j]);
        } else {
            prefix_trans(w.path, x.path, rets[j].path);
        }
    }
    match o {
        Sym::Done(y, _) => {
            prefix_trans(w.path, x.path, y.path);
        }
        Sym::Fail(_, _) => {}
    }
}

pub(crate) proof fn step_self(pred: bool, w: Walk)
    requires
        all_below(w.path, w.next),
    ensures
        step(pred, w, w),
{
}

pub(crate) proof fn step_assume(pred: bool, w: Walk, c: BoolTerm)
    requires
        all_below(w.path, w.next),
        bool_below(c, w.next),
    ensures
        step(pred, w, assuming(w, c)),
{
    reveal_with_fuel(bool_below, 4);
    reveal_with_fuel(int_below, 2);
    let x = assuming(w, c);
    assert forall|i: int| 0 <= i < x.path.len() implies bool_below(#[trigger] x.path[i], x.next) by {
        if i < w.path.len() {
            assert(x.path[i] == w.path[i]);
        }
    }
}

/// From the first case to the other.
pub(crate) proof fn step_other(pred: bool, x: Walk, c: BoolTerm, y: Walk)
    requires
        all_below(x.path, x.next),
        bool_below(c, x.next),
        step(pred, assuming(x, c), y),
    ensures
        step(pred, x, Walk { path: x.path.push(negated(c)), ..y }),
        bool_below(negated(c), y.next),
{
    reveal_with_fuel(bool_below, 4);
    reveal_with_fuel(int_below, 2);
    let z = Walk { path: x.path.push(negated(c)), ..y };
    step_assume(pred, x, c);
    compose(pred, x, assuming(x, c), Sym::<()>::Done(y, ()));
    bool_wider(c, x.next, y.next);
    assert forall|i: int| 0 <= i < z.path.len() implies bool_below(#[trigger] z.path[i], z.next) by {
        if i < x.path.len() {
            assert(z.path[i] == x.path[i]);
            bool_wider(x.path[i], x.next, z.next);
        }
    }
}

pub(crate) proof fn since_below(y: Walk, n: nat, m: u64)
    requires
        all_below(y.path, y.next),
        n <= y.path.len(),
        y.next <= m,
    ensures
        bool_below(crate::terms::all(since(y, n)), m),
{
    let s = since(y, n);
    assert forall|i: int| 0 <= i < s.len() implies bool_below(#[trigger] s[i], m) by {
        assert(s[i] == y.path[n + i]);
        bool_wider(y.path[n + i], y.next, m);
    }
    all_bounded(s, m);
}

/// From before the cases to behind them.
pub(crate) proof fn step_rejoin(pred: bool, x: Walk, c: BoolTerm, y: Walk, u: Walk)
    requires
        all_below(x.path, x.next),
        bool_below(c, x.next),
        step(pred, assuming(x, c), y),
        step(pred, Walk { path: x.path.push(negated(c)), ..y }, u),
    ensures
        step(pred, x, rejoin(x.path, c, y, u)),
{
    reveal_with_fuel(bool_below, 4);
    reveal_with_fuel(int_below, 2);
    let z = Walk { path: x.path.push(negated(c)), ..y };
    step_other(pred, x, c, y);
    compose(pred, x, z, Sym::<()>::Done(u, ()));
    let n = x.path.len() + 1;
    since_below(y, n, u.next);
    since_below(u, n, u.next);
    bool_wider(c, x.next, u.next);
    let r = rejoin(x.path, c, y, u);
    assert forall|i: int| 0 <= i < r.path.len() implies bool_below(#[trigger] r.path[i], r.next) by {
        if i < x.path.len() {
            assert(r.path[i] == x.path[i]);
            bool_wider(x.path[i], x.next, r.next);
        }
    }
}

pub(crate) proof fn step_logic(pred: bool, op: BinOp, x: Walk, l: BoolTerm, y: Walk, r: BoolTerm)
    requires
        all_below(x.path, x.next),
        bool_below(l, x.next),
        step(
            pred,
            assuming(
                x,
                if op is And {
                    l
                } else {
                    negated(l)
                },
            ),
            y,
        ),
        bool_below(r, y.next),
    ensures
        grown(pred, x, logic(op, x.path, l, y, r)),
        logic(op, x.path, l, y, r) matches Sym::Done(u, t) && bool_below(t, u.next),
{
    reveal_with_fuel(bool_below, 4);
    reveal_with_fuel(int_below, 2);
    let c = if op is And {
        l
    } else {
        negated(l)
    };
    step_assume(pred, x, c);
    compose(pred, x, assuming(x, c), Sym::<()>::Done(y, ()));
    let n = x.path.len() + 1;
    since_below(y, n, y.next);
    bool_wider(l, x.next, y.next);
    match logic(op, x.path, l, y, r) {
        Sym::Done(u, _) => {
            assert(crate::terms::all(Seq::<BoolTerm>::empty()) == BoolTerm::Lit(true));
            assert forall|i: int| 0 <= i < u.path.len() implies bool_below(
                #[trigger] u.path[i],
                u.next,
            ) by {
                if i < x.path.len() {
                    assert(u.path[i] == x.path[i]);
                    bool_wider(x.path[i], x.next, u.next);
                }
            }
        }
        _ => {}
    }
}

pub(crate) proof fn step_named(pred: bool, w: Walk, t: IntTerm)
    requires
        all_below(w.path, w.next),
        int_below(t, w.next),
        w.next < u64::MAX,
    ensures
        step(pred, w, named(w, t)),
{
    reveal_with_fuel(bool_below, 4);
    reveal_with_fuel(int_below, 2);
    let x = named(w, t);
    int_wider(t, w.next, x.next);
    assert forall|i: int| 0 <= i < x.path.len() implies bool_below(#[trigger] x.path[i], x.next) by {
        if i < w.path.len() {
            assert(x.path[i] == w.path[i]);
            bool_wider(w.path[i], w.next, x.next);
        }
    }
}

pub(crate) proof fn step_ranged(pred: bool, w: Walk, k: u64, t: STy)
    requires
        all_below(w.path, w.next),
        k < w.next,
    ensures
        step(pred, w, ranged(w, k, t)),
{
    reveal_with_fuel(bool_below, 4);
    reveal_with_fuel(int_below, 2);
    let x = ranged(w, k, t);
    assert forall|i: int| 0 <= i < x.path.len() implies bool_below(#[trigger] x.path[i], x.next) by {
        if i < w.path.len() {
            assert(x.path[i] == w.path[i]);
        }
    }
}

pub(crate) proof fn step_returned(w: Walk, sc: Vars, t: IntTerm)
    requires
        ready(w, sc),
        int_below(t, w.next),
        w.next < u64::MAX,
    ensures
        step(false, w, returned(w, sc, t)),
{
    let x = named(w, t);
    step_named(false, w, t);
    bounded_wider(sc, w.next, x.next);
    let y = returned(w, sc, t);
    assert forall|i: int| 0 <= i < y.path.len() implies bool_below(#[trigger] y.path[i], y.next) by {
        if i < x.path.len() {
            assert(y.path[i] == x.path[i]);
        }
    }
}

pub(crate) proof fn grow_int(pred: bool, w: Walk, sc: Vars, e: Expr)
    requires
        ready(w, sc),
    ensures
        grown(pred, w, walk_int(pred, w, sc, e)),
        walk_int(pred, w, sc, e) matches Sym::Done(x, t) ==> int_below(t, x.next),
    decreases e, 1nat,
{
    step_self(pred, w);
    match e {
        Expr::Ident(name, _) => {
            lookup_bounded(sc, w.next, name@);
        }
        Expr::Unary(UnOp::Neg, a, _) => {
            grow_int(pred, w, sc, *a);
        }
        Expr::Binary(op, l, r, _) => {
            if is_arith(op) {
                grow_int(pred, w, sc, *l);
                match walk_int(pred, w, sc, *l) {
                    Sym::Done(x, a) => {
                        bounded_wider(sc, w.next, x.next);
                        grow_int(pred, x, sc, *r);
                        compose(pred, w, x, walk_int(pred, x, sc, *r));
                        match walk_int(pred, x, sc, *r) {
                            Sym::Done(y, _) => {
                                int_wider(a, x.next, y.next);
                            }
                            _ => {}
                        }
                    }
                    _ => {}
                }
            }
        }
        Expr::If { cond, then_block, else_block, .. } => {
            grow_bool(pred, w, sc, *cond);
            match walk_bool(pred, w, sc, *cond) {
                Sym::Done(x, c) => {
                    let p = assuming(x, c);
                    step_assume(pred, x, c);
                    bounded_wider(sc, w.next, x.next);
                    bounded_opened(sc, x.next);
                    let first = walk_value(pred, p, opened(sc), then_block.stmts@);
                    grow_value(pred, p, opened(sc), then_block.stmts@);
                    compose(pred, x, p, first);
                    compose(pred, w, x, first);
                    match first {
                        Sym::Done(y, a) => {
                            let z = Walk { path: x.path.push(negated(c)), ..y };
                            step_other(pred, x, c, y);
                            bounded_wider(sc, x.next, z.next);
                            bounded_opened(sc, z.next);
                            match else_block {
                                Some(q) => match *q {
                                    ElseBranch::Block(b) => {
                                        let o = walk_value(pred, z, opened(sc), b.stmts@);
                                        grow_value(pred, z, opened(sc), b.stmts@);
                                        compose(pred, x, z, o);
                                        compose(pred, w, x, o);
                                        grow_ite(pred, w, x, c, y, a, o);
                                    }
                                    ElseBranch::If(f) => {
                                        let o = walk_int(pred, z, sc, f);
                                        grow_int(pred, z, sc, f);
                                        compose(pred, x, z, o);
                                        compose(pred, w, x, o);
                                        grow_ite(pred, w, x, c, y, a, o);
                                    }
                                },
                                None => {
                                    compose(pred, w, x, Sym::<()>::Done(z, ()));
                                }
                            }
                        }
                        _ => {}
                    }
                }
                _ => {}
            }
        }
        _ => {}
    }
}

pub(crate) proof fn grow_ite(pred: bool, w: Walk, x: Walk, c: BoolTerm, y: Walk, a: IntTerm, o: Sym<IntTerm>)
    requires
        step(pred, w, x),
        bool_below(c, x.next),
        step(pred, assuming(x, c), y),
        int_below(a, y.next),
        grown(pred, Walk { path: x.path.push(negated(c)), ..y }, o),
        o matches Sym::Done(u, b) ==> int_below(b, u.next),
    ensures
        o matches Sym::Done(u, b) ==> {
            &&& step(pred, w, rejoin(x.path, c, y, u))
            &&& int_below(IntTerm::Ite(Box::new(c), Box::new(a), Box::new(b)), u.next)
        },
{
    match o {
        Sym::Done(u, b) => {
            step_rejoin(pred, x, c, y, u);
            compose(pred, w, x, Sym::<()>::Done(rejoin(x.path, c, y, u), ()));
            int_wider(a, y.next, u.next);
            bool_wider(c, x.next, u.next);
        }
        _ => {}
    }
}

pub(crate) proof fn grow_value(pred: bool, w: Walk, sc: Vars, v: Seq<Stmt>)
    requires
        ready(w, sc),
    ensures
        grown(pred, w, walk_value(pred, w, sc, v)),
        walk_value(pred, w, sc, v) matches Sym::Done(x, t) ==> int_below(t, x.next),
    decreases v, v.len(),
{
    step_self(pred, w);
    if v.len() > 0 {
        match v[v.len() - 1] {
            Stmt::Expr(e) => {
                let n = (v.len() - 1) as nat;
                grow_stmts(pred, w, sc, v, n);
                match walk_stmts(pred, w, sc, v, n) {
                    Sym::Done(x, s) => {
                        grow_int(pred, x, s, e);
                        compose(pred, w, x, walk_int(pred, x, s, e));
                    }
                    _ => {}
                }
            }
            _ => {}
        }
    }
}

pub(crate) proof fn grow_bool(pred: bool, w: Walk, sc: Vars, e: Expr)
    requires
        ready(w, sc),
    ensures
        grown(pred, w, walk_bool(pred, w, sc, e)),
        walk_bool(pred, w, sc, e) matches Sym::Done(x, t) ==> bool_below(t, x.next),
    decreases e, 1nat,
{
    reveal_with_fuel(bool_below, 4);
    reveal_with_fuel(int_below, 2);
    step_self(pred, w);
    match e {
        Expr::Unary(UnOp::Not, a, _) => {
            grow_bool(pred, w, sc, *a);
        }
        Expr::Binary(op, l, r, _) => {
            if op is And || op is Or {
                grow_bool(pred, w, sc, *l);
                match walk_bool(pred, w, sc, *l) {
                    Sym::Done(x, a) => {
                        let c = if op is And {
                            a
                        } else {
                            negated(a)
                        };
                        step_assume(pred, x, c);
                        bounded_wider(sc, w.next, x.next);
                        let o = walk_bool(pred, assuming(x, c), sc, *r);
                        grow_bool(pred, assuming(x, c), sc, *r);
                        compose(pred, x, assuming(x, c), o);
                        compose(pred, w, x, o);
                        match o {
                            Sym::Done(y, b) => {
                                step_logic(pred, op, x, a, y, b);
                                compose(pred, w, x, logic(op, x.path, a, y, b));
                            }
                            _ => {}
                        }
                    }
                    _ => {}
                }
            } else if is_comparison(op) {
                if (op is Eq || op is NotEq) && bool_shaped(*l) && bool_shaped(*r) {
                    grow_bool(pred, w, sc, *l);
                    match walk_bool(pred, w, sc, *l) {
                        Sym::Done(x, a) => {
                            bounded_wider(sc, w.next, x.next);
                            grow_bool(pred, x, sc, *r);
                            compose(pred, w, x, walk_bool(pred, x, sc, *r));
                            match walk_bool(pred, x, sc, *r) {
                                Sym::Done(y, _) => {
                                    bool_wider(a, x.next, y.next);
                                }
                                _ => {}
                            }
                        }
                        _ => {}
                    }
                } else {
                    grow_int(pred, w, sc, *l);
                    match walk_int(pred, w, sc, *l) {
                        Sym::Done(x, a) => {
                            bounded_wider(sc, w.next, x.next);
                            grow_int(pred, x, sc, *r);
                            compose(pred, w, x, walk_int(pred, x, sc, *r));
                            match walk_int(pred, x, sc, *r) {
                                Sym::Done(y, _) => {
                                    int_wider(a, x.next, y.next);
                                }
                                _ => {}
                            }
                        }
                        _ => {}
                    }
                }
            }
        }
        _ => {}
    }
}

pub(crate) proof fn grow_stmts(pred: bool, w: Walk, sc: Vars, v: Seq<Stmt>, n: nat)
    requires
        ready(w, sc),
        n <= v.len(),
    ensures
        grown(pred, w, walk_stmts(pred, w, sc, v, n)),
        walk_stmts(pred, w, sc, v, n) matches Sym::Done(x, s) ==> bounded(s, x.next),
    decreases v, n,
{
    step_self(pred, w);
    if n > 0 {
        grow_stmts(pred, w, sc, v, (n - 1) as nat);
        match walk_stmts(pred, w, sc, v, (n - 1) as nat) {
            Sym::Done(x, s) => {
                grow_stmt(pred, x, s, v[n - 1]);
                compose(pred, w, x, walk_stmt(pred, x, s, v[n - 1]));
            }
            _ => {}
        }
    }
}

pub(crate) proof fn grow_stmt(pred: bool, w: Walk, sc: Vars, s: Stmt)
    requires
        ready(w, sc),
    ensures
        grown(pred, w, walk_stmt(pred, w, sc, s)),
        walk_stmt(pred, w, sc, s) matches Sym::Done(x, t) ==> bounded(t, x.next),
    decreases s, 1nat,
{
    step_self(pred, w);
    match s {
        Stmt::Let { name, ty, value, .. } => {
            if integer(ty@) {
                grow_int(pred, w, sc, value);
                match walk_int(pred, w, sc, value) {
                    Sym::Done(x, t) => {
                        if x.next < u64::MAX {
                            let y = named(x, t);
                            step_named(pred, x, t);
                            bounded_wider(sc, w.next, y.next);
                            bounded_defined(sc, y.next, name@, x.next);
                            compose(pred, w, x, Sym::<()>::Done(y, ()));
                            if !pred {
                                step_ranged(pred, y, x.next, ty@);
                                compose(pred, w, y, Sym::<()>::Done(ranged(y, x.next, ty@), ()));
                            }
                        }
                    }
                    _ => {}
                }
            }
        }
        Stmt::Return { value, .. } => {
            if !pred {
                match value {
                    Some(e) => {
                        grow_int(pred, w, sc, e);
                        match walk_int(pred, w, sc, e) {
                            Sym::Done(x, t) => {
                                bounded_wider(sc, w.next, x.next);
                                if x.next < u64::MAX {
                                    step_returned(x, sc, t);
                                    let y = returned(x, sc, t);
                                    compose(pred, w, x, Sym::<()>::Done(y, ()));
                                    bounded_wider(sc, w.next, y.next);
                                }
                            }
                            _ => {}
                        }
                    }
                    None => {
                        step_assume(pred, w, BoolTerm::Lit(false));
                    }
                }
            }
        }
        Stmt::Expr(e) => {
            grow_branch(pred, w, sc, e);
            match walk_branch(pred, w, sc, e) {
                Sym::Done(x, _) => {
                    bounded_wider(sc, w.next, x.next);
                }
                _ => {}
            }
        }
        Stmt::While { .. } => {}
        Stmt::Audited { body, .. } => {
            bounded_opened(sc, w.next);
            grow_stmts(pred, w, opened(sc), body@, body@.len());
            match walk_stmts(pred, w, opened(sc), body@, body@.len()) {
                Sym::Done(x, _) => {
                    bounded_wider(sc, w.next, x.next);
                }
                _ => {}
            }
        }
    }
}

pub(crate) proof fn grow_branch(pred: bool, w: Walk, sc: Vars, e: Expr)
    requires
        ready(w, sc),
    ensures
        grown(pred, w, walk_branch(pred, w, sc, e)),
    decreases e, 2nat,
{
    match e {
        Expr::If { cond, then_block, else_block, .. } => {
            grow_bool(pred, w, sc, *cond);
            match walk_bool(pred, w, sc, *cond) {
                Sym::Done(x, c) => {
                    let p = assuming(x, c);
                    let v = then_block.stmts@;
                    step_assume(pred, x, c);
                    bounded_wider(sc, w.next, x.next);
                    bounded_opened(sc, x.next);
                    let first = walk_stmts(pred, p, opened(sc), v, v.len());
                    grow_stmts(pred, p, opened(sc), v, v.len());
                    compose(pred, x, p, first);
                    compose(pred, w, x, first);
                    match first {
                        Sym::Done(y, _) => {
                            let z = Walk { path: x.path.push(negated(c)), ..y };
                            step_other(pred, x, c, y);
                            bounded_wider(sc, x.next, z.next);
                            bounded_opened(sc, z.next);
                            let o = match else_block {
                                Some(q) => match *q {
                                    ElseBranch::Block(b) => walked(
                                        walk_stmts(pred, z, opened(sc), b.stmts@, b.stmts@.len()),
                                    ),
                                    ElseBranch::If(f) => walk_branch(pred, z, sc, f),
                                },
                                None => Sym::Done(z, ()),
                            };
                            match else_block {
                                Some(q) => match *q {
                                    ElseBranch::Block(b) => {
                                        grow_stmts(
                                            pred,
                                            z,
                                            opened(sc),
                                            b.stmts@,
                                            b.stmts@.len(),
                                        );
                                    }
                                    ElseBranch::If(f) => {
                                        grow_branch(pred, z, sc, f);
                                    }
                                },
                                None => {
                                    step_self(pred, z);
                                }
                            }
                            compose(pred, x, z, o);
                            compose(pred, w, x, o);
                            match o {
                                Sym::Done(u, _) => {
                                    step_rejoin(pred, x, c, y, u);
                                    compose(
                                        pred,
                                        w,
                                        x,
                                        Sym::<()>::Done(rejoin(x.path, c, y, u), ()),
                                    );
                                }
                                _ => {}
                            }
                        }
                        _ => {}
                    }
                }
                _ => {}
            }
        }
        _ => {
            grow_int(pred, w, sc, e);
        }
    }
}

/// What the values `rho` say of a walk for a value.
pub open spec fn int_true(w: Walk, o: Sym<IntTerm>, r: Ev<int>, rho: Rho) -> bool {
    match o {
        Sym::Done(x, t) => {
            &&& satisfied(x.path, rho) ==> r == Ev::Val(int_val(t, rho))
            &&& rets_true(x.rets, w.rets.len(), r, rho)
        },
        Sym::Fail(rets, _) => rets_true(rets, w.rets.len(), r, rho),
    }
}

pub open spec fn bool_true(w: Walk, o: Sym<BoolTerm>, r: Ev<bool>, rho: Rho) -> bool {
    match o {
        Sym::Done(x, t) => {
            &&& satisfied(x.path, rho) ==> r == Ev::Val(bool_val(t, rho))
            &&& rets_true(x.rets, w.rets.len(), r, rho)
        },
        Sym::Fail(rets, _) => rets_true(rets, w.rets.len(), r, rho),
    }
}

pub open spec fn stmts_true(w: Walk, o: Sym<Vars>, r: Ev<Env>, rho: Rho) -> bool {
    match o {
        Sym::Done(x, s) => {
            &&& satisfied(x.path, rho) ==> r == Ev::Val(at(s, rho))
            &&& rets_true(x.rets, w.rets.len(), r, rho)
        },
        Sym::Fail(rets, _) => rets_true(rets, w.rets.len(), r, rho),
    }
}

pub open spec fn branch_true(w: Walk, o: Sym<()>, r: Ev<()>, rho: Rho) -> bool {
    match o {
        Sym::Done(x, _) => {
            &&& satisfied(x.path, rho) ==> r == Ev::Val(())
            &&& rets_true(x.rets, w.rets.len(), r, rho)
        },
        Sym::Fail(rets, _) => rets_true(rets, w.rets.len(), r, rho),
    }
}

/// The returns of a first part and of a second part that starts behind it: where
/// the first part has a value, `r` is what the second comes to.
pub(crate) proof fn rets_seq<A, B, C>(
    pred: bool,
    w: Walk,
    x: Walk,
    rets: Seq<SRet>,
    ra: Ev<A>,
    rb: Ev<B>,
    r: Ev<C>,
    rho: Rho,
)
    requires
        rets_true(x.rets, w.rets.len(), ra, rho),
        grew(pred, x, rets),
        rets_true(rets, x.rets.len(), rb, rho),
        w.rets.len() <= x.rets.len(),
        forall|v: int| ra == Ev::<A>::Ret(v) ==> r == Ev::<C>::Ret(v),
        forall|v: int| satisfied(x.path, rho) && rb == Ev::<B>::Ret(v) ==> r == Ev::<C>::Ret(v),
    ensures
        rets_true(rets, w.rets.len(), r, rho),
{
    assert forall|j: int|
        w.rets.len() <= j < rets.len() && satisfied((#[trigger] rets[j]).path, rho) implies r
        == Ev::<C>::Ret(rho(rets[j].result)) by {
        if j < x.rets.len() {
            assert(rets[j] == x.rets[j]);
        } else {
            prefix_satisfied(x.path, rets[j].path, rho);
        }
    }
}

/// Behind two cases: the claims of the case that holds are satisfied.
pub(crate) proof fn rejoin_true(x: Walk, c: BoolTerm, y: Walk, u: Walk, rho: Rho)
    requires
        prefix(x.path.push(c), y.path),
        prefix(x.path.push(negated(c)), u.path),
    ensures
        satisfied(rejoin(x.path, c, y, u).path, rho) == (satisfied(x.path, rho) && if bool_val(
            c,
            rho,
        ) {
            satisfied(y.path, rho)
        } else {
            satisfied(u.path, rho)
        }),
{
    let r = rejoin(x.path, c, y, u);
    let n = x.path.len();
    all_val(since(y, n + 1), rho);
    all_val(since(u, n + 1), rho);
    reveal_with_fuel(bool_val, 4);
    let k = cases(c, since(y, n + 1), since(u, n + 1));
    assert(r.path[n as int] == k);
    split_true(x.path, c, y.path, rho);
    split_true(x.path, negated(c), u.path, rho);
    push_true(x.path, k, rho);
}

pub(crate) proof fn push_true(a: Seq<BoolTerm>, c: BoolTerm, rho: Rho)
    ensures
        satisfied(a.push(c), rho) == (satisfied(a, rho) && bool_val(c, rho)),
{
    let b = a.push(c);
    if satisfied(b, rho) {
        assert forall|i: int| 0 <= i < a.len() implies bool_val(#[trigger] a[i], rho) by {
            assert(b[i] == a[i]);
        }
        assert(b[a.len() as int] == c);
    }
    if satisfied(a, rho) && bool_val(c, rho) {
        assert forall|i: int| 0 <= i < b.len() implies bool_val(#[trigger] b[i], rho) by {
            if i < a.len() {
                assert(b[i] == a[i]);
            }
        }
    }
}

/// Claims behind `a` and `c`, taken apart.
pub(crate) proof fn split_true(a: Seq<BoolTerm>, c: BoolTerm, p: Seq<BoolTerm>, rho: Rho)
    requires
        prefix(a.push(c), p),
    ensures
        satisfied(p, rho) == (satisfied(a, rho) && bool_val(c, rho) && satisfied(
            p.subrange(a.len() as int + 1, p.len() as int),
            rho,
        )),
{
    let s = p.subrange(a.len() as int + 1, p.len() as int);
    let b = a.push(c);
    push_true(a, c, rho);
    if satisfied(p, rho) {
        prefix_satisfied(b, p, rho);
        assert forall|i: int| 0 <= i < s.len() implies bool_val(#[trigger] s[i], rho) by {
            assert(s[i] == p[a.len() as int + 1 + i]);
        }
    }
    if satisfied(b, rho) && satisfied(s, rho) {
        assert forall|i: int| 0 <= i < p.len() implies bool_val(#[trigger] p[i], rho) by {
            if i < b.len() {
                assert(b[i] == p[i]);
            } else {
                assert(p[i] == s[i - b.len()]);
            }
        }
    }
}

pub(crate) proof fn logic_true(op: BinOp, x: Walk, l: BoolTerm, y: Walk, r: BoolTerm, rho: Rho)
    requires
        prefix(
            x.path.push(
                if op is And {
                    l
                } else {
                    negated(l)
                },
            ),
            y.path,
        ),
    ensures
        logic(op, x.path, l, y, r) matches Sym::Done(u, t) && {
            &&& satisfied(u.path, rho) == (satisfied(x.path, rho) && (bool_val(l, rho) == (op is And)
                ==> satisfied(y.path, rho)))
            &&& bool_val(t, rho) == if op is And {
                bool_val(l, rho) && bool_val(r, rho)
            } else {
                bool_val(l, rho) || bool_val(r, rho)
            }
            &&& u.rets == y.rets
            &&& u.next == y.next
        },
{
    let n = x.path.len();
    let more = since(y, n + 1);
    let none = Seq::<BoolTerm>::empty();
    all_val(more, rho);
    all_val(none, rho);
    reveal_with_fuel(bool_val, 4);
    if op is And {
        push_true(x.path, cases(l, more, none), rho);
        split_true(x.path, l, y.path, rho);
    } else {
        push_true(x.path, cases(l, none, more), rho);
        split_true(x.path, negated(l), y.path, rho);
    }
}

/// Values that satisfy what a walk claims make a run of the same.
pub(crate) proof fn back_int(pred: bool, w: Walk, sc: Vars, e: Expr, rho: Rho)
    requires
        ready(w, sc),
    ensures
        int_true(w, walk_int(pred, w, sc, e), run_int(pred, at(sc, rho), e), rho),
    decreases e, 1nat,
{
    grow_int(pred, w, sc, e);
    let env = at(sc, rho);
    match e {
        Expr::Ident(name, _) => {
            lookup_at_values(sc, rho, name@);
        }
        Expr::Unary(UnOp::Neg, a, _) => {
            back_int(pred, w, sc, *a, rho);
        }
        Expr::Binary(op, l, r, _) => {
            if is_arith(op) {
                back_int(pred, w, sc, *l, rho);
                grow_int(pred, w, sc, *l);
                match walk_int(pred, w, sc, *l) {
                    Sym::Done(x, a) => {
                        bounded_wider(sc, w.next, x.next);
                        back_int(pred, x, sc, *r, rho);
                        grow_int(pred, x, sc, *r);
                        let rets = match walk_int(pred, x, sc, *r) {
                            Sym::Done(y, _) => y.rets,
                            Sym::Fail(q, _) => q,
                        };
                        rets_seq(
                            pred,
                            w,
                            x,
                            rets,
                            run_int(pred, env, *l),
                            run_int(pred, env, *r),
                            run_int(pred, env, e),
                            rho,
                        );
                        match walk_int(pred, x, sc, *r) {
                            Sym::Done(y, _) => {
                                if satisfied(y.path, rho) {
                                    prefix_satisfied(x.path, y.path, rho);
                                }
                            }
                            _ => {}
                        }
                    }
                    _ => {}
                }
            }
        }
        Expr::If { .. } => {
            back_if(pred, w, sc, e, rho);
        }
        _ => {}
    }
}

pub(crate) proof fn back_if(pred: bool, w: Walk, sc: Vars, e: Expr, rho: Rho)
    requires
        ready(w, sc),
        e is If,
    ensures
        int_true(w, walk_int(pred, w, sc, e), run_int(pred, at(sc, rho), e), rho),
    decreases e, 0nat,
{
    let env = at(sc, rho);
    let r = run_int(pred, env, e);
    match e {
        Expr::If { cond, then_block, else_block, .. } => {
            let v = then_block.stmts@;
            grow_bool(pred, w, sc, *cond);
            back_bool(pred, w, sc, *cond, rho);
            let rc = run_bool(pred, env, *cond);
            match walk_bool(pred, w, sc, *cond) {
                Sym::Done(x, c) => {
                    let p = assuming(x, c);
                    step_assume(pred, x, c);
                    push_true(x.path, c, rho);
                    bounded_wider(sc, w.next, x.next);
                    bounded_opened(sc, x.next);
                    at_opened(sc, rho);
                    grow_value(pred, p, opened(sc), v);
                    back_value(pred, p, opened(sc), v, rho);
                    let ra = run_value(pred, opened(env), v);
                    let first = walk_value(pred, p, opened(sc), v);
                    let rets_a = match first {
                        Sym::Done(y, _) => y.rets,
                        Sym::Fail(q, _) => q,
                    };
                    rets_seq(pred, w, p, rets_a, rc, ra, r, rho);
                    match first {
                        Sym::Done(y, a) => {
                            let z = Walk { path: x.path.push(negated(c)), ..y };
                            step_other(pred, x, c, y);
                            push_true(x.path, negated(c), rho);
                            bounded_wider(sc, x.next, z.next);
                            bounded_opened(sc, z.next);
                            match else_block {
                                Some(q) => {
                                    let (rb, other) = match *q {
                                        ElseBranch::Block(b) => (
                                            run_value(pred, opened(env), b.stmts@),
                                            walk_value(pred, z, opened(sc), b.stmts@),
                                        ),
                                        ElseBranch::If(f) => (
                                            run_int(pred, env, f),
                                            walk_int(pred, z, sc, f),
                                        ),
                                    };
                                    match *q {
                                        ElseBranch::Block(b) => {
                                            grow_value(pred, z, opened(sc), b.stmts@);
                                            back_value(pred, z, opened(sc), b.stmts@, rho);
                                        }
                                        ElseBranch::If(f) => {
                                            grow_int(pred, z, sc, f);
                                            back_int(pred, z, sc, f, rho);
                                        }
                                    }
                                    let rets_b = match other {
                                        Sym::Done(u, _) => u.rets,
                                        Sym::Fail(u, _) => u,
                                    };
                                    assert(rets_true(z.rets, w.rets.len(), r, rho));
                                    rets_seq(pred, w, z, rets_b, r, rb, r, rho);
                                    match other {
                                        Sym::Done(u, b) => {
                                            rejoin_true(x, c, y, u, rho);
                                            reveal_with_fuel(int_val, 2);
                                        }
                                        _ => {}
                                    }
                                }
                                None => {}
                            }
                        }
                        _ => {}
                    }
                }
                _ => {}
            }
        }
        _ => {}
    }
}

pub(crate) proof fn back_value(pred: bool, w: Walk, sc: Vars, v: Seq<Stmt>, rho: Rho)
    requires
        ready(w, sc),
    ensures
        int_true(w, walk_value(pred, w, sc, v), run_value(pred, at(sc, rho), v), rho),
    decreases v, v.len(),
{
    if v.len() > 0 {
        match v[v.len() - 1] {
            Stmt::Expr(e) => {
                let n = (v.len() - 1) as nat;
                let env = at(sc, rho);
                grow_stmts(pred, w, sc, v, n);
                back_stmts(pred, w, sc, v, n, rho);
                match walk_stmts(pred, w, sc, v, n) {
                    Sym::Done(x, s) => {
                        grow_int(pred, x, s, e);
                        back_int(pred, x, s, e, rho);
                        let rets = match walk_int(pred, x, s, e) {
                            Sym::Done(y, _) => y.rets,
                            Sym::Fail(q, _) => q,
                        };
                        rets_seq(
                            pred,
                            w,
                            x,
                            rets,
                            run_stmts(pred, env, v, n),
                            run_int(pred, at(s, rho), e),
                            run_value(pred, env, v),
                            rho,
                        );
                        match walk_int(pred, x, s, e) {
                            Sym::Done(y, _) => {
                                if satisfied(y.path, rho) {
                                    prefix_satisfied(x.path, y.path, rho);
                                }
                            }
                            _ => {}
                        }
                    }
                    _ => {}
                }
            }
            _ => {}
        }
    }
}

pub(crate) proof fn back_bool(pred: bool, w: Walk, sc: Vars, e: Expr, rho: Rho)
    requires
        ready(w, sc),
    ensures
        bool_true(w, walk_bool(pred, w, sc, e), run_bool(pred, at(sc, rho), e), rho),
    decreases e, 1nat,
{
    reveal_with_fuel(bool_val, 3);
    let env = at(sc, rho);
    match e {
        Expr::Unary(UnOp::Not, a, _) => {
            back_bool(pred, w, sc, *a, rho);
        }
        Expr::Binary(op, l, r, _) => {
            if op is And || op is Or {
                grow_bool(pred, w, sc, *l);
                back_bool(pred, w, sc, *l, rho);
                match walk_bool(pred, w, sc, *l) {
                    Sym::Done(x, a) => {
                        let c = if op is And {
                            a
                        } else {
                            negated(a)
                        };
                        let p = assuming(x, c);
                        step_assume(pred, x, c);
                        push_true(x.path, c, rho);
                        bounded_wider(sc, w.next, x.next);
                        grow_bool(pred, p, sc, *r);
                        back_bool(pred, p, sc, *r, rho);
                        let rets = match walk_bool(pred, p, sc, *r) {
                            Sym::Done(y, _) => y.rets,
                            Sym::Fail(q, _) => q,
                        };
                        rets_seq(
                            pred,
                            w,
                            p,
                            rets,
                            run_bool(pred, env, *l),
                            run_bool(pred, env, *r),
                            run_bool(pred, env, e),
                            rho,
                        );
                        match walk_bool(pred, p, sc, *r) {
                            Sym::Done(y, b) => {
                                logic_true(op, x, a, y, b, rho);
                            }
                            _ => {}
                        }
                    }
                    _ => {}
                }
            } else if is_comparison(op) {
                if (op is Eq || op is NotEq) && bool_shaped(*l) && bool_shaped(*r) {
                    grow_bool(pred, w, sc, *l);
                    back_bool(pred, w, sc, *l, rho);
                    match walk_bool(pred, w, sc, *l) {
                        Sym::Done(x, a) => {
                            bounded_wider(sc, w.next, x.next);
                            grow_bool(pred, x, sc, *r);
                            back_bool(pred, x, sc, *r, rho);
                            let rets = match walk_bool(pred, x, sc, *r) {
                                Sym::Done(y, _) => y.rets,
                                Sym::Fail(q, _) => q,
                            };
                            rets_seq(
                                pred,
                                w,
                                x,
                                rets,
                                run_bool(pred, env, *l),
                                run_bool(pred, env, *r),
                                run_bool(pred, env, e),
                                rho,
                            );
                            match walk_bool(pred, x, sc, *r) {
                                Sym::Done(y, _) => {
                                    if satisfied(y.path, rho) {
                                        prefix_satisfied(x.path, y.path, rho);
                                    }
                                }
                                _ => {}
                            }
                        }
                        _ => {}
                    }
                } else {
                    back_compare(pred, w, sc, e, rho);
                }
            }
        }
        _ => {}
    }
}

pub(crate) proof fn back_compare(pred: bool, w: Walk, sc: Vars, e: Expr, rho: Rho)
    requires
        ready(w, sc),
        e matches Expr::Binary(op, l, r, _) && is_comparison(op) && !((op is Eq || op is NotEq)
            && bool_shaped(*l) && bool_shaped(*r)),
    ensures
        bool_true(w, walk_bool(pred, w, sc, e), run_bool(pred, at(sc, rho), e), rho),
    decreases e, 0nat,
{
    reveal_with_fuel(bool_val, 3);
    let env = at(sc, rho);
    match e {
        Expr::Binary(op, l, r, _) => {
            grow_int(pred, w, sc, *l);
            back_int(pred, w, sc, *l, rho);
            match walk_int(pred, w, sc, *l) {
                Sym::Done(x, a) => {
                    bounded_wider(sc, w.next, x.next);
                    grow_int(pred, x, sc, *r);
                    back_int(pred, x, sc, *r, rho);
                    let rets = match walk_int(pred, x, sc, *r) {
                        Sym::Done(y, _) => y.rets,
                        Sym::Fail(q, _) => q,
                    };
                    rets_seq(
                        pred,
                        w,
                        x,
                        rets,
                        run_int(pred, env, *l),
                        run_int(pred, env, *r),
                        run_bool(pred, env, e),
                        rho,
                    );
                    match walk_int(pred, x, sc, *r) {
                        Sym::Done(y, _) => {
                            if satisfied(y.path, rho) {
                                prefix_satisfied(x.path, y.path, rho);
                            }
                        }
                        _ => {}
                    }
                }
                _ => {}
            }
        }
        _ => {}
    }
}

pub(crate) proof fn back_stmts(pred: bool, w: Walk, sc: Vars, v: Seq<Stmt>, n: nat, rho: Rho)
    requires
        ready(w, sc),
        n <= v.len(),
    ensures
        stmts_true(w, walk_stmts(pred, w, sc, v, n), run_stmts(pred, at(sc, rho), v, n), rho),
    decreases v, n,
{
    if n > 0 {
        let m = (n - 1) as nat;
        let env = at(sc, rho);
        grow_stmts(pred, w, sc, v, m);
        back_stmts(pred, w, sc, v, m, rho);
        match walk_stmts(pred, w, sc, v, m) {
            Sym::Done(x, s) => {
                grow_stmt(pred, x, s, v[n - 1]);
                back_stmt(pred, x, s, v[n - 1], rho);
                let rets = match walk_stmt(pred, x, s, v[n - 1]) {
                    Sym::Done(y, _) => y.rets,
                    Sym::Fail(q, _) => q,
                };
                rets_seq(
                    pred,
                    w,
                    x,
                    rets,
                    run_stmts(pred, env, v, m),
                    run_stmt(pred, at(s, rho), v[n - 1]),
                    run_stmts(pred, env, v, n),
                    rho,
                );
                match walk_stmt(pred, x, s, v[n - 1]) {
                    Sym::Done(y, _) => {
                        if satisfied(y.path, rho) {
                            prefix_satisfied(x.path, y.path, rho);
                        }
                    }
                    _ => {}
                }
            }
            _ => {}
        }
    }
}

/// What the claims on a new local say.
pub(crate) proof fn let_true(x: Walk, t: IntTerm, ty: STy, rho: Rho)
    requires
        integer(ty),
    ensures
        satisfied(named(x, t).path, rho) == (satisfied(x.path, rho) && rho(x.next) == int_val(
            t,
            rho,
        )),
        satisfied(ranged(named(x, t), x.next, ty).path, rho) == (satisfied(x.path, rho) && rho(
            x.next,
        ) == int_val(t, rho) && least(ty) <= rho(x.next) <= greatest(ty)),
{
    reveal_with_fuel(bool_val, 2);
    reveal_with_fuel(int_val, 2);
    bounds_are_tight(ty);
    let y = named(x, t);
    let a = BoolTerm::Ge(
        Box::new(IntTerm::Var(x.next)),
        Box::new(IntTerm::Lit(least(ty) as i64)),
    );
    let b = BoolTerm::Le(
        Box::new(IntTerm::Var(x.next)),
        Box::new(IntTerm::Lit(greatest(ty) as i64)),
    );
    push_true(x.path, BoolTerm::Eq(Box::new(IntTerm::Var(x.next)), Box::new(t)), rho);
    push_true(y.path, a, rho);
    push_true(y.path.push(a), b, rho);
}

pub(crate) proof fn back_stmt(pred: bool, w: Walk, sc: Vars, s: Stmt, rho: Rho)
    requires
        ready(w, sc),
    ensures
        stmts_true(w, walk_stmt(pred, w, sc, s), run_stmt(pred, at(sc, rho), s), rho),
    decreases s, 1nat,
{
    match s {
        Stmt::Let { name, ty, value, .. } => {
            if integer(ty@) {
                back_int(pred, w, sc, value, rho);
                match walk_int(pred, w, sc, value) {
                    Sym::Done(x, t) => {
                        let_true(x, t, ty@, rho);
                        at_defined(sc, rho, name@, x.next);
                    }
                    _ => {}
                }
            }
        }
        Stmt::Return { value, .. } => {
            match value {
                Some(e) => {
                    if !pred {
                        grow_int(pred, w, sc, e);
                        back_int(pred, w, sc, e, rho);
                        match walk_int(pred, w, sc, e) {
                            Sym::Done(x, t) => {
                                let_true(x, t, STy::I64, rho);
                                let y = returned(x, sc, t);
                                push_true(named(x, t).path, BoolTerm::Lit(false), rho);
                                reveal_with_fuel(bool_val, 2);
                                let r = run_stmt(pred, at(sc, rho), s);
                                if x.next < u64::MAX {
                                    assert forall|j: int|
                                        w.rets.len() <= j < y.rets.len() && satisfied(
                                            (#[trigger] y.rets[j]).path,
                                            rho,
                                        ) implies r == Ev::<Env>::Ret(rho(y.rets[j].result)) by {
                                        if j < x.rets.len() {
                                            assert(y.rets[j] == x.rets[j]);
                                        }
                                    }
                                }
                            }
                            _ => {}
                        }
                    }
                }
                None => {
                    push_true(w.path, BoolTerm::Lit(false), rho);
                    reveal_with_fuel(bool_val, 2);
                }
            }
        }
        Stmt::Expr(e) => {
            back_branch(pred, w, sc, e, rho);
            rets_same(w, walk_branch(pred, w, sc, e), run_branch(pred, at(sc, rho), e), run_stmt(
                pred,
                at(sc, rho),
                s,
            ), rho);
        }
        Stmt::While { .. } => {}
        Stmt::Audited { body, .. } => {
            bounded_opened(sc, w.next);
            at_opened(sc, rho);
            back_stmts(pred, w, opened(sc), body@, body@.len(), rho);
            rets_same(
                w,
                walk_stmts(pred, w, opened(sc), body@, body@.len()),
                run_stmts(pred, opened(at(sc, rho)), body@, body@.len()),
                run_stmt(pred, at(sc, rho), s),
                rho,
            );
        }
    }
}

/// Where `b` returns whenever `a` does, what is true of the returns of `a` is true
/// of those of `b`.
pub(crate) proof fn rets_same<S, A, B>(w: Walk, o: Sym<S>, a: Ev<A>, b: Ev<B>, rho: Rho)
    requires
        forall|v: int| a == Ev::<A>::Ret(v) ==> b == Ev::<B>::Ret(v),
        match o {
            Sym::Done(x, _) => rets_true(x.rets, w.rets.len(), a, rho),
            Sym::Fail(r, _) => rets_true(r, w.rets.len(), a, rho),
        },
    ensures
        match o {
            Sym::Done(x, _) => rets_true(x.rets, w.rets.len(), b, rho),
            Sym::Fail(r, _) => rets_true(r, w.rets.len(), b, rho),
        },
{
}

pub(crate) proof fn back_branch(pred: bool, w: Walk, sc: Vars, e: Expr, rho: Rho)
    requires
        ready(w, sc),
    ensures
        branch_true(w, walk_branch(pred, w, sc, e), run_branch(pred, at(sc, rho), e), rho),
    decreases e, 2nat,
{
    let env = at(sc, rho);
    let r = run_branch(pred, env, e);
    match e {
        Expr::If { cond, then_block, else_block, .. } => {
            let v = then_block.stmts@;
            grow_bool(pred, w, sc, *cond);
            back_bool(pred, w, sc, *cond, rho);
            let rc = run_bool(pred, env, *cond);
            match walk_bool(pred, w, sc, *cond) {
                Sym::Done(x, c) => {
                    let p = assuming(x, c);
                    step_assume(pred, x, c);
                    push_true(x.path, c, rho);
                    bounded_wider(sc, w.next, x.next);
                    bounded_opened(sc, x.next);
                    at_opened(sc, rho);
                    grow_stmts(pred, p, opened(sc), v, v.len());
                    back_stmts(pred, p, opened(sc), v, v.len(), rho);
                    let ra = run_stmts(pred, opened(env), v, v.len());
                    let first = walk_stmts(pred, p, opened(sc), v, v.len());
                    let rets_a = match first {
                        Sym::Done(y, _) => y.rets,
                        Sym::Fail(q, _) => q,
                    };
                    rets_seq(pred, w, p, rets_a, rc, ra, r, rho);
                    match first {
                        Sym::Done(y, _) => {
                            let z = Walk { path: x.path.push(negated(c)), ..y };
                            step_other(pred, x, c, y);
                            push_true(x.path, negated(c), rho);
                            bounded_wider(sc, x.next, z.next);
                            bounded_opened(sc, z.next);
                            let (rb, other) = match else_block {
                                Some(q) => match *q {
                                    ElseBranch::Block(b) => (
                                        ran(run_stmts(pred, opened(env), b.stmts@, b.stmts@.len())),
                                        walked(
                                            walk_stmts(
                                                pred,
                                                z,
                                                opened(sc),
                                                b.stmts@,
                                                b.stmts@.len(),
                                            ),
                                        ),
                                    ),
                                    ElseBranch::If(f) => (
                                        run_branch(pred, env, f),
                                        walk_branch(pred, z, sc, f),
                                    ),
                                },
                                None => (Ev::Val(()), Sym::Done(z, ())),
                            };
                            match else_block {
                                Some(q) => match *q {
                                    ElseBranch::Block(b) => {
                                        let k = b.stmts@.len();
                                        grow_stmts(pred, z, opened(sc), b.stmts@, k);
                                        back_stmts(pred, z, opened(sc), b.stmts@, k, rho);
                                        rets_same(
                                            z,
                                            walk_stmts(pred, z, opened(sc), b.stmts@, k),
                                            run_stmts(pred, opened(env), b.stmts@, k),
                                            rb,
                                            rho,
                                        );
                                    }
                                    ElseBranch::If(f) => {
                                        grow_branch(pred, z, sc, f);
                                        back_branch(pred, z, sc, f, rho);
                                    }
                                },
                                None => {
                                    step_self(pred, z);
                                }
                            }
                            let rets_b = match other {
                                Sym::Done(u, _) => u.rets,
                                Sym::Fail(u, _) => u,
                            };
                            rets_seq(pred, w, z, rets_b, r, rb, r, rho);
                            match other {
                                Sym::Done(u, _) => {
                                    rejoin_true(x, c, y, u, rho);
                                }
                                _ => {}
                            }
                        }
                        _ => {}
                    }
                }
                Sym::Fail(_, _) => {
                    rets_same(w, walk_bool(pred, w, sc, *cond), rc, r, rho);
                }
            }
        }
        _ => {
            back_int(pred, w, sc, e, rho);
            rets_same(w, walk_int(pred, w, sc, e), run_int(pred, env, e), r, rho);
        }
    }
}

/// A run that ends in the first part is found behind the second.
pub(crate) proof fn found_first<A, B>(
    pred: bool,
    w: Walk,
    x: Walk,
    y: Walk,
    a: Ev<A>,
    b: Ev<B>,
    rho: Rho,
    r: Rho,
)
    requires
        step(pred, w, x),
        found(pred, w, x, a, rho, r),
        grew(pred, x, y.rets),
        !(a is Val),
        a is Ret ==> b == Ev::<B>::Ret(a->Ret_0),
        a is Stop ==> b is Stop,
        a is Bad ==> b is Bad,
    ensures
        found(pred, w, y, b, rho, r),
{
    match a {
        Ev::Ret(v) => {
            let j = choose|j: int|
                w.rets.len() <= j < x.rets.len() && satisfied((#[trigger] x.rets[j]).path, r) && r(
                    x.rets[j].result,
                ) == v;
            assert(y.rets[j] == x.rets[j]);
        }
        _ => {}
    }
}

/// A run that goes through the first part is found in the second.
pub(crate) proof fn found_second<A, B>(
    pred: bool,
    w: Walk,
    x: Walk,
    p: Walk,
    y: Walk,
    a: Ev<A>,
    b: Ev<B>,
    rho: Rho,
    r1: Rho,
    r2: Rho,
)
    requires
        w.next <= x.next,
        w.rets.len() <= p.rets.len(),
        p.next >= x.next,
        agree(rho, r1, w.next),
        found(pred, p, y, a, r1, r2),
        a is Val ==> b is Val,
        a is Ret ==> b == Ev::<B>::Ret(a->Ret_0),
        a is Stop ==> b is Stop,
        a is Bad ==> b is Bad,
    ensures
        found(pred, w, y, b, rho, r2),
{
    assert forall|k: u64| k < w.next implies #[trigger] rho(k) == r2(k) by {
        assert(rho(k) == r1(k));
        assert(r1(k) == r2(k));
    }
    match a {
        Ev::Ret(v) => {
            let j = choose|j: int|
                p.rets.len() <= j < y.rets.len() && satisfied((#[trigger] y.rets[j]).path, r2) && r2(
                    y.rets[j].result,
                ) == v;
            assert(w.rets.len() <= j < y.rets.len());
        }
        _ => {}
    }
}

/// The same run is found behind claims that the same values satisfy.
pub(crate) proof fn found_same<A, B>(pred: bool, w: Walk, y: Walk, u: Walk, a: Ev<A>, b: Ev<B>, rho: Rho, r: Rho)
    requires
        found(pred, w, y, a, rho, r),
        y.rets.len() <= u.rets.len(),
        forall|j: int| 0 <= j < y.rets.len() ==> #[trigger] u.rets[j] == y.rets[j],
        a is Val ==> b is Val && satisfied(u.path, r),
        a is Ret ==> b == Ev::<B>::Ret(a->Ret_0),
        a is Stop ==> b is Stop,
        a is Bad ==> b is Bad,
    ensures
        found(pred, w, u, b, rho, r),
{
    match a {
        Ev::Ret(v) => {
            let j = choose|j: int|
                w.rets.len() <= j < y.rets.len() && satisfied((#[trigger] y.rets[j]).path, r) && r(
                    y.rets[j].result,
                ) == v;
            assert(u.rets[j] == y.rets[j]);
        }
        _ => {}
    }
}

/// Every run is found in a walk that does not fail.
pub(crate) proof fn forth_int(pred: bool, w: Walk, sc: Vars, e: Expr, rho: Rho) -> (r: Rho)
    requires
        ready(w, sc),
        satisfied(w.path, rho),
        walk_int(pred, w, sc, e) is Done,
    ensures
        walk_int(pred, w, sc, e) matches Sym::Done(x, _) && found(
            pred,
            w,
            x,
            run_int(pred, at(sc, rho), e),
            rho,
            r,
        ),
    decreases e, 1nat,
{
    let env = at(sc, rho);
    match e {
        Expr::Ident(name, _) => {
            lookup_at_values(sc, rho, name@);
            rho
        }
        Expr::Unary(UnOp::Neg, a, _) => {
            let r = forth_int(pred, w, sc, *a, rho);
            match walk_int(pred, w, sc, *a) {
                Sym::Done(x, _) => {
                    found_same(pred, w, x, x, run_int(pred, env, *a), run_int(pred, env, e), rho, r);
                }
                _ => {}
            }
            r
        }
        Expr::Binary(op, l, r, _) => {
            let r1 = forth_int(pred, w, sc, *l, rho);
            grow_int(pred, w, sc, *l);
            let ra = run_int(pred, env, *l);
            let o = run_int(pred, env, e);
            match walk_int(pred, w, sc, *l) {
                Sym::Done(x, a) => {
                    bounded_wider(sc, w.next, x.next);
                    grow_int(pred, x, sc, *r);
                    match walk_int(pred, x, sc, *r) {
                        Sym::Done(y, b) => {
                            if ra is Val {
                                at_agree(sc, rho, r1, w.next);
                                let r2 = forth_int(pred, x, sc, *r, r1);
                                found_second(
                                    pred,
                                    w,
                                    x,
                                    x,
                                    y,
                                    run_int(pred, env, *r),
                                    o,
                                    rho,
                                    r1,
                                    r2,
                                );
                                r2
                            } else {
                                found_first(pred, w, x, y, ra, o, rho, r1);
                                r1
                            }
                        }
                        _ => rho,
                    }
                }
                _ => rho,
            }
        }
        Expr::If { .. } => forth_if(pred, w, sc, e, rho),
        _ => rho,
    }
}

/// From the condition into a case.
pub(crate) proof fn case_holds(x: Walk, c: BoolTerm, r: Rho)
    requires
        satisfied(x.path, r),
    ensures
        bool_val(c, r) ==> satisfied(assuming(x, c).path, r),
        !bool_val(c, r) ==> satisfied(x.path.push(negated(c)), r),
{
    push_true(x.path, c, r);
    push_true(x.path, negated(c), r);
}

pub(crate) proof fn forth_if(pred: bool, w: Walk, sc: Vars, e: Expr, rho: Rho) -> (r: Rho)
    requires
        ready(w, sc),
        satisfied(w.path, rho),
        walk_int(pred, w, sc, e) is Done,
        e is If,
    ensures
        walk_int(pred, w, sc, e) matches Sym::Done(x, _) && found(
            pred,
            w,
            x,
            run_int(pred, at(sc, rho), e),
            rho,
            r,
        ),
    decreases e, 0nat,
{
    let env = at(sc, rho);
    let o = run_int(pred, env, e);
    match e {
        Expr::If { cond, then_block, else_block, .. } => {
            let v = then_block.stmts@;
            let r1 = forth_bool(pred, w, sc, *cond, rho);
            grow_bool(pred, w, sc, *cond);
            back_bool(pred, w, sc, *cond, r1);
            let rc = run_bool(pred, env, *cond);
            match walk_bool(pred, w, sc, *cond) {
                Sym::Done(x, c) => {
                    let p = assuming(x, c);
                    step_assume(pred, x, c);
                    bounded_wider(sc, w.next, x.next);
                    bounded_opened(sc, x.next);
                    grow_value(pred, p, opened(sc), v);
                    at_agree(sc, rho, r1, w.next);
                    at_opened(sc, r1);
                    match walk_value(pred, p, opened(sc), v) {
                        Sym::Done(y, a) => {
                            let z = Walk { path: x.path.push(negated(c)), ..y };
                            step_other(pred, x, c, y);
                            bounded_wider(sc, x.next, z.next);
                            bounded_opened(sc, z.next);
                            match else_block {
                                Some(q) => {
                                    let other = match *q {
                                        ElseBranch::Block(b) => walk_value(
                                            pred,
                                            z,
                                            opened(sc),
                                            b.stmts@,
                                        ),
                                        ElseBranch::If(f) => walk_int(pred, z, sc, f),
                                    };
                                    match *q {
                                        ElseBranch::Block(b) => {
                                            grow_value(pred, z, opened(sc), b.stmts@);
                                        }
                                        ElseBranch::If(f) => {
                                            grow_int(pred, z, sc, f);
                                        }
                                    }
                                    match other {
                                        Sym::Done(u, _) => {
                                            let end = rejoin(x.path, c, y, u);
                                            compose(pred, x, p, Sym::<()>::Done(y, ()));
                                            compose(pred, x, z, Sym::<()>::Done(u, ()));
                                            if rc is Val {
                                                case_holds(x, c, r1);
                                                if rc->Val_0 {
                                                    let r2 = forth_value(pred, p, opened(sc), v, r1);
                                                    let ra = run_value(pred, opened(env), v);
                                                    found_second(pred, w, x, p, y, ra, o, rho, r1, r2);
                                                    rejoin_true(x, c, y, u, r2);
                                                    split_val(x, c, y, r2);
                                                    found_same(pred, w, y, end, o, o, rho, r2);
                                                    r2
                                                } else {
                                                    let (rb, r2) = match *q {
                                                        ElseBranch::Block(b) => (
                                                            run_value(pred, opened(env), b.stmts@),
                                                            forth_value(pred, z, opened(sc), b.stmts@, r1),
                                                        ),
                                                        ElseBranch::If(f) => (
                                                            run_int(pred, env, f),
                                                            forth_int(pred, z, sc, f, r1),
                                                        ),
                                                    };
                                                    found_second(pred, w, x, z, u, rb, o, rho, r1, r2);
                                                    rejoin_true(x, c, y, u, r2);
                                                    split_val(x, negated(c), u, r2);
                                                    reveal_with_fuel(bool_val, 2);
                                                    found_same(pred, w, u, end, o, o, rho, r2);
                                                    r2
                                                }
                                            } else {
                                                found_first(pred, w, x, end, rc, o, rho, r1);
                                                r1
                                            }
                                        }
                                        _ => rho,
                                    }
                                }
                                None => rho,
                            }
                        }
                        _ => rho,
                    }
                }
                _ => rho,
            }
        }
        _ => rho,
    }
}

pub(crate) proof fn split_val(x: Walk, c: BoolTerm, y: Walk, r: Rho)
    requires
        prefix(x.path.push(c), y.path),
    ensures
        satisfied(y.path, r) ==> satisfied(x.path, r) && bool_val(c, r),
{
    split_true(x.path, c, y.path, r);
}

pub(crate) proof fn forth_value(pred: bool, w: Walk, sc: Vars, v: Seq<Stmt>, rho: Rho) -> (r: Rho)
    requires
        ready(w, sc),
        satisfied(w.path, rho),
        walk_value(pred, w, sc, v) is Done,
    ensures
        walk_value(pred, w, sc, v) matches Sym::Done(x, _) && found(
            pred,
            w,
            x,
            run_value(pred, at(sc, rho), v),
            rho,
            r,
        ),
    decreases v, v.len(),
{
    let env = at(sc, rho);
    match v[v.len() - 1] {
        Stmt::Expr(e) => {
            let n = (v.len() - 1) as nat;
            let r1 = forth_stmts(pred, w, sc, v, n, rho);
            grow_stmts(pred, w, sc, v, n);
            back_stmts(pred, w, sc, v, n, r1);
            at_agree(sc, rho, r1, w.next);
            let ra = run_stmts(pred, env, v, n);
            let o = run_value(pred, env, v);
            match walk_stmts(pred, w, sc, v, n) {
                Sym::Done(x, s) => {
                    grow_int(pred, x, s, e);
                    match walk_int(pred, x, s, e) {
                        Sym::Done(y, _) => {
                            if ra is Val {
                                let r2 = forth_int(pred, x, s, e, r1);
                                found_second(
                                    pred,
                                    w,
                                    x,
                                    x,
                                    y,
                                    run_int(pred, at(s, r1), e),
                                    o,
                                    rho,
                                    r1,
                                    r2,
                                );
                                r2
                            } else {
                                found_first(pred, w, x, y, ra, o, rho, r1);
                                r1
                            }
                        }
                        _ => rho,
                    }
                }
                _ => rho,
            }
        }
        _ => rho,
    }
}

pub(crate) proof fn forth_bool(pred: bool, w: Walk, sc: Vars, e: Expr, rho: Rho) -> (r: Rho)
    requires
        ready(w, sc),
        satisfied(w.path, rho),
        walk_bool(pred, w, sc, e) is Done,
    ensures
        walk_bool(pred, w, sc, e) matches Sym::Done(x, _) && found(
            pred,
            w,
            x,
            run_bool(pred, at(sc, rho), e),
            rho,
            r,
        ),
    decreases e, 1nat,
{
    let env = at(sc, rho);
    let o = run_bool(pred, env, e);
    match e {
        Expr::Unary(UnOp::Not, a, _) => {
            let r = forth_bool(pred, w, sc, *a, rho);
            match walk_bool(pred, w, sc, *a) {
                Sym::Done(x, _) => {
                    found_same(pred, w, x, x, run_bool(pred, env, *a), o, rho, r);
                }
                _ => {}
            }
            r
        }
        Expr::Binary(op, l, r, _) => {
            if op is And || op is Or {
                forth_logic(pred, w, sc, e, rho)
            } else if (op is Eq || op is NotEq) && bool_shaped(*l) && bool_shaped(*r) {
                let r1 = forth_bool(pred, w, sc, *l, rho);
                grow_bool(pred, w, sc, *l);
                let ra = run_bool(pred, env, *l);
                match walk_bool(pred, w, sc, *l) {
                    Sym::Done(x, a) => {
                        bounded_wider(sc, w.next, x.next);
                        grow_bool(pred, x, sc, *r);
                        match walk_bool(pred, x, sc, *r) {
                            Sym::Done(y, _) => {
                                if ra is Val {
                                    at_agree(sc, rho, r1, w.next);
                                    let r2 = forth_bool(pred, x, sc, *r, r1);
                                    found_second(
                                        pred,
                                        w,
                                        x,
                                        x,
                                        y,
                                        run_bool(pred, env, *r),
                                        o,
                                        rho,
                                        r1,
                                        r2,
                                    );
                                    r2
                                } else {
                                    found_first(pred, w, x, y, ra, o, rho, r1);
                                    r1
                                }
                            }
                            _ => rho,
                        }
                    }
                    _ => rho,
                }
            } else {
                let r1 = forth_int(pred, w, sc, *l, rho);
                grow_int(pred, w, sc, *l);
                let ra = run_int(pred, env, *l);
                match walk_int(pred, w, sc, *l) {
                    Sym::Done(x, a) => {
                        bounded_wider(sc, w.next, x.next);
                        grow_int(pred, x, sc, *r);
                        match walk_int(pred, x, sc, *r) {
                            Sym::Done(y, _) => {
                                if ra is Val {
                                    at_agree(sc, rho, r1, w.next);
                                    let r2 = forth_int(pred, x, sc, *r, r1);
                                    found_second(
                                        pred,
                                        w,
                                        x,
                                        x,
                                        y,
                                        run_int(pred, env, *r),
                                        o,
                                        rho,
                                        r1,
                                        r2,
                                    );
                                    r2
                                } else {
                                    found_first(pred, w, x, y, ra, o, rho, r1);
                                    r1
                                }
                            }
                            _ => rho,
                        }
                    }
                    _ => rho,
                }
            }
        }
        _ => rho,
    }
}

pub(crate) proof fn forth_logic(pred: bool, w: Walk, sc: Vars, e: Expr, rho: Rho) -> (r: Rho)
    requires
        ready(w, sc),
        satisfied(w.path, rho),
        walk_bool(pred, w, sc, e) is Done,
        e matches Expr::Binary(op, _, _, _) && (op is And || op is Or),
    ensures
        walk_bool(pred, w, sc, e) matches Sym::Done(x, _) && found(
            pred,
            w,
            x,
            run_bool(pred, at(sc, rho), e),
            rho,
            r,
        ),
    decreases e, 0nat,
{
    let env = at(sc, rho);
    let o = run_bool(pred, env, e);
    match e {
        Expr::Binary(op, l, r, _) => {
            let r1 = forth_bool(pred, w, sc, *l, rho);
            grow_bool(pred, w, sc, *l);
            back_bool(pred, w, sc, *l, r1);
            at_agree(sc, rho, r1, w.next);
            let ra = run_bool(pred, env, *l);
            match walk_bool(pred, w, sc, *l) {
                Sym::Done(x, a) => {
                    let c = if op is And {
                        a
                    } else {
                        negated(a)
                    };
                    let p = assuming(x, c);
                    step_assume(pred, x, c);
                    bounded_wider(sc, w.next, x.next);
                    grow_bool(pred, p, sc, *r);
                    match walk_bool(pred, p, sc, *r) {
                        Sym::Done(y, b) => {
                            compose(pred, x, p, Sym::<()>::Done(y, ()));
                            match logic(op, x.path, a, y, b) {
                                Sym::Done(end, _) => {
                                    if ra is Val {
                                        reveal_with_fuel(bool_val, 2);
                                        if ra->Val_0 == (op is And) {
                                            push_true(x.path, c, r1);
                                            let r2 = forth_bool(pred, p, sc, *r, r1);
                                            found_second(
                                                pred,
                                                w,
                                                x,
                                                p,
                                                y,
                                                run_bool(pred, env, *r),
                                                o,
                                                rho,
                                                r1,
                                                r2,
                                            );
                                            logic_true(op, x, a, y, b, r2);
                                            split_val(x, c, y, r2);
                                            found_same(pred, w, y, end, o, o, rho, r2);
                                            r2
                                        } else {
                                            logic_true(op, x, a, y, b, r1);
                                            r1
                                        }
                                    } else {
                                        logic_true(op, x, a, y, b, r1);
                                        found_first(pred, w, x, end, ra, o, rho, r1);
                                        r1
                                    }
                                }
                                _ => rho,
                            }
                        }
                        _ => rho,
                    }
                }
                _ => rho,
            }
        }
        _ => rho,
    }
}

pub(crate) proof fn forth_stmts(pred: bool, w: Walk, sc: Vars, v: Seq<Stmt>, n: nat, rho: Rho) -> (r: Rho)
    requires
        ready(w, sc),
        n <= v.len(),
        satisfied(w.path, rho),
        walk_stmts(pred, w, sc, v, n) is Done,
    ensures
        walk_stmts(pred, w, sc, v, n) matches Sym::Done(x, _) && found(
            pred,
            w,
            x,
            run_stmts(pred, at(sc, rho), v, n),
            rho,
            r,
        ),
    decreases v, n,
{
    if n == 0 {
        rho
    } else {
        let m = (n - 1) as nat;
        let env = at(sc, rho);
        let r1 = forth_stmts(pred, w, sc, v, m, rho);
        grow_stmts(pred, w, sc, v, m);
        back_stmts(pred, w, sc, v, m, r1);
        at_agree(sc, rho, r1, w.next);
        let ra = run_stmts(pred, env, v, m);
        let o = run_stmts(pred, env, v, n);
        match walk_stmts(pred, w, sc, v, m) {
            Sym::Done(x, s) => {
                grow_stmt(pred, x, s, v[n - 1]);
                match walk_stmt(pred, x, s, v[n - 1]) {
                    Sym::Done(y, _) => {
                        if ra is Val {
                            let r2 = forth_stmt(pred, x, s, v[n - 1], r1);
                            found_second(
                                pred,
                                w,
                                x,
                                x,
                                y,
                                run_stmt(pred, at(s, r1), v[n - 1]),
                                o,
                                rho,
                                r1,
                                r2,
                            );
                            r2
                        } else {
                            found_first(pred, w, x, y, ra, o, rho, r1);
                            r1
                        }
                    }
                    _ => rho,
                }
            }
            _ => rho,
        }
    }
}

/// Values that give a new variable the value of its term.
pub(crate) proof fn name_value(x: Walk, t: IntTerm, r: Rho) -> (r2: Rho)
    requires
        all_below(x.path, x.next),
        int_below(t, x.next),
        satisfied(x.path, r),
    ensures
        agree(r, r2, x.next),
        satisfied(x.path, r2),
        int_val(t, r2) == int_val(t, r),
        r2(x.next) == int_val(t, r),
{
    let n = int_val(t, r);
    let r2 = |k: u64|
        if k == x.next {
            n
        } else {
            r(k)
        };
    all_agree(x.path, r, r2, x.next);
    crate::terms::int_agree(t, r, r2, x.next);
    r2
}

pub(crate) proof fn forth_stmt(pred: bool, w: Walk, sc: Vars, s: Stmt, rho: Rho) -> (r: Rho)
    requires
        ready(w, sc),
        satisfied(w.path, rho),
        walk_stmt(pred, w, sc, s) is Done,
    ensures
        walk_stmt(pred, w, sc, s) matches Sym::Done(x, _) && found(
            pred,
            w,
            x,
            run_stmt(pred, at(sc, rho), s),
            rho,
            r,
        ),
    decreases s, 1nat,
{
    let env = at(sc, rho);
    let o = run_stmt(pred, env, s);
    match s {
        Stmt::Let { name, ty, value, .. } => {
            let r1 = forth_int(pred, w, sc, value, rho);
            grow_int(pred, w, sc, value);
            back_int(pred, w, sc, value, r1);
            at_agree(sc, rho, r1, w.next);
            let ra = run_int(pred, env, value);
            match (walk_int(pred, w, sc, value), walk_stmt(pred, w, sc, s)) {
                (Sym::Done(x, t), Sym::Done(end, _)) => {
                    if ra is Val {
                        let r2 = name_value(x, t, r1);
                        let_true(x, t, ty@, r2);
                        assert forall|k: u64| k < w.next implies #[trigger] rho(k) == r2(k) by {
                            assert(rho(k) == r1(k));
                            assert(r1(k) == r2(k));
                        }
                        r2
                    } else {
                        found_first(pred, w, x, end, ra, o, rho, r1);
                        r1
                    }
                }
                _ => rho,
            }
        }
        Stmt::Return { value, .. } => {
            match value {
                Some(e) => {
                    let r1 = forth_int(pred, w, sc, e, rho);
                    grow_int(pred, w, sc, e);
                    back_int(pred, w, sc, e, r1);
                    at_agree(sc, rho, r1, w.next);
                    let ra = run_int(pred, env, e);
                    match (walk_int(pred, w, sc, e), walk_stmt(pred, w, sc, s)) {
                        (Sym::Done(x, t), Sym::Done(end, _)) => {
                            bounded_wider(sc, w.next, x.next);
                            step_returned(x, sc, t);
                            if ra is Val {
                                let r2 = name_value(x, t, r1);
                                let_true(x, t, STy::I64, r2);
                                assert forall|k: u64| k < w.next implies #[trigger] rho(k) == r2(
                                    k,
                                ) by {
                                    assert(rho(k) == r1(k));
                                    assert(r1(k) == r2(k));
                                }
                                let j = x.rets.len() as int;
                                assert(end.rets[j].path == named(x, t).path);
                                assert(end.rets[j].result == x.next);
                                assert(satisfied(end.rets[j].path, r2));
                                r2
                            } else {
                                found_first(pred, w, x, end, ra, o, rho, r1);
                                r1
                            }
                        }
                        _ => rho,
                    }
                }
                None => rho,
            }
        }
        Stmt::Expr(e) => {
            let r1 = forth_branch(pred, w, sc, e, rho);
            match walk_branch(pred, w, sc, e) {
                Sym::Done(x, _) => {
                    found_same(pred, w, x, x, run_branch(pred, env, e), o, rho, r1);
                }
                _ => {}
            }
            r1
        }
        Stmt::While { .. } => rho,
        Stmt::Audited { body, .. } => {
            bounded_opened(sc, w.next);
            at_opened(sc, rho);
            let r1 = forth_stmts(pred, w, opened(sc), body@, body@.len(), rho);
            match walk_stmts(pred, w, opened(sc), body@, body@.len()) {
                Sym::Done(x, _) => {
                    found_same(
                        pred,
                        w,
                        x,
                        x,
                        run_stmts(pred, opened(env), body@, body@.len()),
                        o,
                        rho,
                        r1,
                    );
                }
                _ => {}
            }
            r1
        }
    }
}

pub(crate) proof fn forth_branch(pred: bool, w: Walk, sc: Vars, e: Expr, rho: Rho) -> (r: Rho)
    requires
        ready(w, sc),
        satisfied(w.path, rho),
        walk_branch(pred, w, sc, e) is Done,
    ensures
        walk_branch(pred, w, sc, e) matches Sym::Done(x, _) && found(
            pred,
            w,
            x,
            run_branch(pred, at(sc, rho), e),
            rho,
            r,
        ),
    decreases e, 2nat,
{
    let env = at(sc, rho);
    let o = run_branch(pred, env, e);
    match e {
        Expr::If { cond, then_block, else_block, .. } => {
            let v = then_block.stmts@;
            let r1 = forth_bool(pred, w, sc, *cond, rho);
            grow_bool(pred, w, sc, *cond);
            back_bool(pred, w, sc, *cond, r1);
            let rc = run_bool(pred, env, *cond);
            match walk_bool(pred, w, sc, *cond) {
                Sym::Done(x, c) => {
                    let p = assuming(x, c);
                    step_assume(pred, x, c);
                    bounded_wider(sc, w.next, x.next);
                    bounded_opened(sc, x.next);
                    grow_stmts(pred, p, opened(sc), v, v.len());
                    at_agree(sc, rho, r1, w.next);
                    at_opened(sc, r1);
                    match walk_stmts(pred, p, opened(sc), v, v.len()) {
                        Sym::Done(y, _) => {
                            let z = Walk { path: x.path.push(negated(c)), ..y };
                            step_other(pred, x, c, y);
                            bounded_wider(sc, x.next, z.next);
                            bounded_opened(sc, z.next);
                            let other = match else_block {
                                Some(q) => match *q {
                                    ElseBranch::Block(b) => walked(
                                        walk_stmts(pred, z, opened(sc), b.stmts@, b.stmts@.len()),
                                    ),
                                    ElseBranch::If(f) => walk_branch(pred, z, sc, f),
                                },
                                None => Sym::Done(z, ()),
                            };
                            match else_block {
                                Some(q) => match *q {
                                    ElseBranch::Block(b) => {
                                        grow_stmts(pred, z, opened(sc), b.stmts@, b.stmts@.len());
                                    }
                                    ElseBranch::If(f) => {
                                        grow_branch(pred, z, sc, f);
                                    }
                                },
                                None => {
                                    step_self(pred, z);
                                }
                            }
                            match other {
                                Sym::Done(u, _) => {
                                    let end = rejoin(x.path, c, y, u);
                                    compose(pred, x, p, Sym::<()>::Done(y, ()));
                                    compose(pred, x, z, Sym::<()>::Done(u, ()));
                                    if rc is Val {
                                        case_holds(x, c, r1);
                                        if rc->Val_0 {
                                            let r2 = forth_stmts(
                                                pred,
                                                p,
                                                opened(sc),
                                                v,
                                                v.len(),
                                                r1,
                                            );
                                            let ra = run_stmts(pred, opened(env), v, v.len());
                                            found_second(pred, w, x, p, y, ra, o, rho, r1, r2);
                                            rejoin_true(x, c, y, u, r2);
                                            split_val(x, c, y, r2);
                                            found_same(pred, w, y, end, o, o, rho, r2);
                                            r2
                                        } else {
                                            let (rb, r2) = match else_block {
                                                Some(q) => match *q {
                                                    ElseBranch::Block(b) => (
                                                        ran(
                                                            run_stmts(
                                                                pred,
                                                                opened(env),
                                                                b.stmts@,
                                                                b.stmts@.len(),
                                                            ),
                                                        ),
                                                        forth_stmts(
                                                            pred,
                                                            z,
                                                            opened(sc),
                                                            b.stmts@,
                                                            b.stmts@.len(),
                                                            r1,
                                                        ),
                                                    ),
                                                    ElseBranch::If(f) => (
                                                        run_branch(pred, env, f),
                                                        forth_branch(pred, z, sc, f, r1),
                                                    ),
                                                },
                                                None => (Ev::Val(()), r1),
                                            };
                                            match else_block {
                                                Some(q) => match *q {
                                                    ElseBranch::Block(b) => {
                                                        found_same(
                                                            pred,
                                                            z,
                                                            u,
                                                            u,
                                                            run_stmts(
                                                                pred,
                                                                opened(env),
                                                                b.stmts@,
                                                                b.stmts@.len(),
                                                            ),
                                                            rb,
                                                            r1,
                                                            r2,
                                                        );
                                                    }
                                                    _ => {}
                                                },
                                                None => {}
                                            }
                                            found_second(pred, w, x, z, u, rb, o, rho, r1, r2);
                                            rejoin_true(x, c, y, u, r2);
                                            split_val(x, negated(c), u, r2);
                                            reveal_with_fuel(bool_val, 2);
                                            found_same(pred, w, u, end, o, o, rho, r2);
                                            r2
                                        }
                                    } else {
                                        found_first(pred, w, x, end, rc, o, rho, r1);
                                        r1
                                    }
                                }
                                _ => rho,
                            }
                        }
                        _ => rho,
                    }
                }
                _ => rho,
            }
        }
        _ => {
            let r1 = forth_int(pred, w, sc, e, rho);
            match walk_int(pred, w, sc, e) {
                Sym::Done(x, _) => {
                    found_same(pred, w, x, x, run_int(pred, env, e), o, rho, r1);
                }
                _ => {}
            }
            r1
        }
    }
}

} // verus!
