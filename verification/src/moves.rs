//! What the move checker guarantees. A run of a program takes one way through
//! every branch and goes round every loop some number of times; along a run a
//! variable either holds its value or has been moved from. Where the checker
//! finds no error, no run uses a variable that has been moved from.
use crate::ast::{ElseBranch, Expr, FnDecl, MatchArm, Program, STy, Stmt};
use crate::ownership::{
    arm_state, arm_state_keeps, by_home, check_arm, check_arm_shape, check_arms, check_arms_shape,
    check_block, check_block_shape, check_else, check_else_shape, check_stmt, check_stmts,
    check_stmts_shape, clean, defined_shape, entry, entry_opens, fn_errors, home, home_is,
    home_shape, inner_shape, marked, marked_shape, merged, merged_shape, opened_shape, result_of,
    same_names, shape, shape_sym, shape_trans, takes_content, touch, touch_all, touch_all_shape,
    touch_shape, used, State,
};
use crate::scopes::{defined, lookup, opened};
use crate::token::Span;
use vstd::prelude::*;

verus! {

/// Whether a binding has been moved from; `None` where there is no such binding.
pub open spec fn bit(a: State, i: int, n: Seq<char>) -> Option<bool> {
    if 0 <= i < a.len() && a[i].contains_key(n) {
        Some(a[i][n].1)
    } else {
        None
    }
}

/// A check that takes `a` to `x` and `b` to `y` either leaves one binding
/// alone or gives it a value that does not depend on the state.
pub open spec fn fixed(a: State, b: State, x: State, y: State, i: int, n: Seq<char>) -> bool {
    ||| bit(x, i, n) == bit(a, i, n) && bit(y, i, n) == bit(b, i, n)
    ||| bit(x, i, n) == bit(y, i, n)
}

proof fn merged_bit(a: State, b: State, i: int, n: Seq<char>)
    requires
        shape(a, b),
    ensures
        bit(merged(a, b), i, n) == match (bit(a, i, n), bit(b, i, n)) {
            (Some(x), Some(y)) => Some(x || y),
            _ => None,
        },
{
    if 0 <= i < a.len() {
        assert(same_names(a[i], b[i]));
    }
}

proof fn merged_fixed(
    a: State,
    b: State,
    t1: State,
    t2: State,
    f1: State,
    f2: State,
    i: int,
    n: Seq<char>,
)
    requires
        shape(a, b),
        shape(t1, a),
        shape(f1, a),
        shape(t2, b),
        shape(f2, b),
        fixed(a, b, t1, t2, i, n),
        fixed(a, b, f1, f2, i, n),
    ensures
        fixed(a, b, merged(t1, f1), merged(t2, f2), i, n),
        shape(merged(t1, f1), a),
        shape(merged(t2, f2), b),
{
    shape_sym(f1, a);
    shape_sym(f2, b);
    shape_trans(t1, a, f1);
    shape_trans(t2, b, f2);
    merged_bit(t1, f1, i, n);
    merged_bit(t2, f2, i, n);
    merged_shape(t1, f1);
    merged_shape(t2, f2);
    shape_trans(merged(t1, f1), t1, a);
    shape_trans(merged(t2, f2), t2, b);
    if 0 <= i < a.len() {
        assert(same_names(a[i], b[i]));
        assert(same_names(t1[i], a[i]));
        assert(same_names(f1[i], a[i]));
        assert(same_names(t2[i], b[i]));
        assert(same_names(f2[i], b[i]));
    }
}

proof fn marked_bit(st: State, name: Seq<char>, m: bool, i: int, n: Seq<char>)
    ensures
        bit(marked(st, name, m), i, n) == if i == home(st, name) && n == name && i >= 0 {
            Some(m)
        } else {
            bit(st, i, n)
        },
{
    home_is(st, name);
    by_home(st, name);
}

proof fn lookup_shape(a: State, b: State, name: Seq<char>)
    requires
        shape(a, b),
    ensures
        lookup(a, name) is Some == lookup(b, name) is Some,
        lookup(a, name) matches Some(x) ==> x.0 == (lookup(b, name)->0).0,
        takes_content(a, name) == takes_content(b, name),
{
    home_shape(a, b, name);
    home_is(a, name);
    by_home(a, name);
    by_home(b, name);
    let h = home(a, name);
    if h >= 0 {
        assert(same_names(a[h], b[h]));
        assert(a[h].contains_key(name));
    }
}

proof fn used_fixed(
    a: State,
    b: State,
    name: Seq<char>,
    span: Span,
    consume: bool,
    i: int,
    n: Seq<char>,
)
    requires
        shape(a, b),
    ensures
        fixed(a, b, used(a, name, span, consume).st, used(b, name, span, consume).st, i, n),
{
    lookup_shape(a, b, name);
    home_shape(a, b, name);
    home_is(a, name);
    home_is(b, name);
    by_home(a, name);
    by_home(b, name);
    marked_bit(a, name, true, i, n);
    marked_bit(b, name, true, i, n);
}

proof fn marked_fixed(a: State, b: State, name: Seq<char>, m: bool, i: int, n: Seq<char>)
    requires
        shape(a, b),
    ensures
        fixed(a, b, marked(a, name, m), marked(b, name, m), i, n),
        shape(marked(a, name, m), marked(b, name, m)),
{
    home_shape(a, b, name);
    marked_bit(a, name, m, i, n);
    marked_bit(b, name, m, i, n);
    marked_shape(a, name, m);
    marked_shape(b, name, m);
    shape_sym(marked(b, name, m), b);
    shape_trans(marked(a, name, m), a, b);
    shape_trans(marked(a, name, m), b, marked(b, name, m));
}

proof fn defined_fixed(
    a: State,
    b: State,
    x: State,
    y: State,
    name: Seq<char>,
    v: (STy, bool),
    i: int,
    n: Seq<char>,
)
    requires
        shape(x, y),
        x.len() > 0,
        fixed(a, b, x, y, i, n),
    ensures
        fixed(a, b, defined(x, name, v), defined(y, name, v), i, n),
        shape(defined(x, name, v), defined(y, name, v)),
{
    defined_shape(x, y, name, v);
}

proof fn dropped_fixed(a: State, b: State, x: State, y: State, i: int, n: Seq<char>)
    requires
        shape(x, y),
        x.len() == a.len() + 1,
        y.len() == b.len() + 1,
        a.len() == b.len(),
        fixed(opened(a), opened(b), x, y, i, n),
    ensures
        fixed(a, b, x.drop_last(), y.drop_last(), i, n),
        shape(x.drop_last(), y.drop_last()),
{
    inner_shape(x, y);
    if 0 <= i < a.len() {
        assert(opened(a)[i] == a[i]);
        assert(opened(b)[i] == b[i]);
    }
}

/// Checking from two states of one shape gives two states of one shape.
proof fn results_shape(a: State, b: State, x: State, y: State)
    requires
        shape(a, b),
        shape(x, a),
        shape(y, b),
    ensures
        shape(x, y),
{
    shape_sym(y, b);
    shape_trans(x, a, b);
    shape_trans(x, b, y);
}

proof fn touch_fixed(p: Program, e: Expr, consume: bool, a: State, b: State, i: int, n: Seq<char>)
    requires
        shape(a, b),
        a.len() > 0,
    ensures
        shape(touch(p, e, consume, a).st, touch(p, e, consume, b).st),
        fixed(a, b, touch(p, e, consume, a).st, touch(p, e, consume, b).st, i, n),
    decreases e,
{
    touch_shape(p, e, consume, a);
    touch_shape(p, e, consume, b);
    results_shape(a, b, touch(p, e, consume, a).st, touch(p, e, consume, b).st);
    match e {
        Expr::Int(..) | Expr::Float(..) | Expr::Bool(..) | Expr::Str(..) | Expr::Chan(_) => {}
        Expr::Ident(name, span) => {
            used_fixed(a, b, name@, span, consume, i, n);
        }
        Expr::Unary(_, u, _)
        | Expr::Box(u, _)
        | Expr::Join(u, _)
        | Expr::StopSandbox(u, _)
        | Expr::Listen(u, _) => {
            touch_fixed(p, *u, true, a, b, i, n);
        }
        Expr::Ref(u, _)
        | Expr::Recv(u, _)
        | Expr::Accept(u, _)
        | Expr::FieldAccess(u, _, _) => {
            touch_fixed(p, *u, false, a, b, i, n);
        }
        Expr::Deref(u, _) => match *u {
            Expr::Ident(name, span) => {
                lookup_shape(a, b, name@);
                used_fixed(a, b, name@, span, takes_content(a, name@), i, n);
            }
            _ => {
                touch_fixed(p, *u, false, a, b, i, n);
            }
        },
        Expr::Binary(_, u, v, _) | Expr::Connect(u, v, _) | Expr::Open(u, v, _) => {
            touch_fixed(p, *u, true, a, b, i, n);
            touch_shape(p, *u, true, a);
            touch_fixed(p, *v, true, touch(p, *u, true, a).st, touch(p, *u, true, b).st, i, n);
        }
        Expr::Send(u, v, _) => {
            touch_fixed(p, *u, false, a, b, i, n);
            touch_shape(p, *u, false, a);
            touch_fixed(p, *v, true, touch(p, *u, false, a).st, touch(p, *u, false, b).st, i, n);
        }
        Expr::Call(_, args, _)
        | Expr::Spawn(_, args, _)
        | Expr::SpawnSandbox(_, args, _)
        | Expr::ArrayLit(args, _) => {
            touch_all_fixed(p, args@, a, b, i, n);
        }
        Expr::Index(u, args, _) => {
            touch_fixed(p, *u, false, a, b, i, n);
            touch_shape(p, *u, false, a);
            touch_all_fixed(
                p,
                args@,
                touch(p, *u, false, a).st,
                touch(p, *u, false, b).st,
                i,
                n,
            );
        }
        Expr::Assign(name, u, _) => {
            touch_fixed(p, *u, true, a, b, i, n);
            marked_fixed(touch(p, *u, true, a).st, touch(p, *u, true, b).st, name@, false, i, n);
        }
        Expr::If { cond, then_block, else_block, .. } => {
            touch_fixed(p, *cond, true, a, b, i, n);
            touch_shape(p, *cond, true, a);
            let xa = touch(p, *cond, true, a).st;
            let xb = touch(p, *cond, true, b).st;
            check_block_fixed(p, then_block.stmts@, xa, xb, i, n);
            check_block_shape(p, then_block.stmts@, xa);
            check_block_shape(p, then_block.stmts@, xb);
            let ta = check_block(p, then_block.stmts@, xa).st;
            let tb = check_block(p, then_block.stmts@, xb).st;
            match else_block {
                Some(u) => {
                    check_else_fixed(p, *u, xa, xb, i, n);
                    check_else_shape(p, *u, xa);
                    check_else_shape(p, *u, xb);
                    let fa = check_else(p, *u, xa).st;
                    let fb = check_else(p, *u, xb).st;
                    merged_fixed(xa, xb, ta, tb, fa, fb, i, n);
                }
                None => {
                    merged_fixed(xa, xb, ta, tb, xa, xb, i, n);
                }
            }
        }
        Expr::Match { scrutinee, arms, .. } => {
            touch_fixed(p, *scrutinee, true, a, b, i, n);
            touch_shape(p, *scrutinee, true, a);
            check_arms_fixed(
                p,
                arms@,
                touch(p, *scrutinee, true, a).st,
                touch(p, *scrutinee, true, b).st,
                i,
                n,
            );
        }
        Expr::Transact { .. } => {
            transact_fixed(p, e, a, b, i, n);
        }
    }
}

proof fn transact_fixed(p: Program, e: Expr, a: State, b: State, i: int, n: Seq<char>)
    requires
        shape(a, b),
        a.len() > 0,
        e is Transact,
    ensures
        fixed(a, b, touch(p, e, true, a).st, touch(p, e, true, b).st, i, n),
    decreases e, 0nat,
{
    if let Expr::Transact { network, verify, commit, compensate, log, .. } = e {
        let oa = opened(a);
        let ob = opened(b);
        opened_shape(a, b);
        touch_all_fixed(p, network.args@, oa, ob, i, n);
        touch_all_shape(p, network.args@, oa);
        let na = touch_all(p, network.args@, oa).st;
        let nb = touch_all(p, network.args@, ob).st;
        let ret = (result_of(p, network.name@), false);
        defined_fixed(oa, ob, na, nb, "network"@, ret, i, n);
        let s1a = defined(na, "network"@, ret);
        let s1b = defined(nb, "network"@, ret);
        touch_all_fixed(p, verify.args@, s1a, s1b, i, n);
        touch_all_shape(p, verify.args@, s1a);
        let va = touch_all(p, verify.args@, s1a).st;
        let vb = touch_all(p, verify.args@, s1b).st;
        defined_fixed(oa, ob, va, vb, "verify"@, (STy::Bool, false), i, n);
        let s2a = defined(va, "verify"@, (STy::Bool, false));
        let s2b = defined(vb, "verify"@, (STy::Bool, false));
        touch_all_fixed(p, commit.args@, s2a, s2b, i, n);
        touch_all_shape(p, commit.args@, s2a);
        touch_all_shape(p, commit.args@, s2b);
        let ca = touch_all(p, commit.args@, s2a).st;
        let cb = touch_all(p, commit.args@, s2b).st;
        let da = match compensate {
            Some(s) => touch_all(p, s.args@, s2a).st,
            None => s2a,
        };
        let db = match compensate {
            Some(s) => touch_all(p, s.args@, s2b).st,
            None => s2b,
        };
        match compensate {
            Some(s) => {
                touch_all_fixed(p, s.args@, s2a, s2b, i, n);
                touch_all_shape(p, s.args@, s2a);
                touch_all_shape(p, s.args@, s2b);
            }
            None => {}
        }
        merged_fixed(s2a, s2b, ca, cb, da, db, i, n);
        let s3a = merged(ca, da);
        let s3b = merged(cb, db);
        results_shape(s2a, s2b, s3a, s3b);
        match log {
            Some(s) => {
                touch_all_fixed(p, s.args@, s3a, s3b, i, n);
                touch_all_shape(p, s.args@, s3a);
                touch_all_shape(p, s.args@, s3b);
                dropped_fixed(
                    a,
                    b,
                    touch_all(p, s.args@, s3a).st,
                    touch_all(p, s.args@, s3b).st,
                    i,
                    n,
                );
            }
            None => {
                dropped_fixed(a, b, s3a, s3b, i, n);
            }
        }
    }
}

proof fn touch_all_fixed(p: Program, v: Seq<Expr>, a: State, b: State, i: int, n: Seq<char>)
    requires
        shape(a, b),
        a.len() > 0,
    ensures
        shape(touch_all(p, v, a).st, touch_all(p, v, b).st),
        fixed(a, b, touch_all(p, v, a).st, touch_all(p, v, b).st, i, n),
    decreases v,
{
    if v.len() > 0 {
        touch_all_fixed(p, v.drop_last(), a, b, i, n);
        touch_all_shape(p, v.drop_last(), a);
        touch_fixed(
            p,
            v.last(),
            true,
            touch_all(p, v.drop_last(), a).st,
            touch_all(p, v.drop_last(), b).st,
            i,
            n,
        );
    }
}

proof fn check_else_fixed(p: Program, u: ElseBranch, a: State, b: State, i: int, n: Seq<char>)
    requires
        shape(a, b),
        a.len() > 0,
    ensures
        fixed(a, b, check_else(p, u, a).st, check_else(p, u, b).st, i, n),
    decreases u,
{
    match u {
        ElseBranch::Block(x) => {
            check_block_fixed(p, x.stmts@, a, b, i, n);
        }
        ElseBranch::If(e) => {
            touch_fixed(p, e, true, a, b, i, n);
        }
    }
}

proof fn bound_fixed(
    a: State,
    b: State,
    names: Seq<String>,
    payload: Seq<crate::ast::Ty>,
    k: nat,
    i: int,
    n: Seq<char>,
)
    requires
        shape(a, b),
        a.len() > 0,
    ensures
        ({
            let x = crate::ownership::bound(a, names, payload, k);
            let y = crate::ownership::bound(b, names, payload, k);
            shape(x, y) && fixed(a, b, x, y, i, n) && x.len() == a.len()
        }),
    decreases k,
{
    if k > 0 {
        bound_fixed(a, b, names, payload, (k - 1) as nat, i, n);
        defined_fixed(
            a,
            b,
            crate::ownership::bound(a, names, payload, (k - 1) as nat),
            crate::ownership::bound(b, names, payload, (k - 1) as nat),
            names[k - 1]@,
            (payload[k - 1]@, false),
            i,
            n,
        );
    }
}

proof fn arm_state_fixed(p: Program, arm: MatchArm, a: State, b: State, i: int, n: Seq<char>)
    requires
        shape(a, b),
    ensures
        shape(arm_state(p, arm, a), arm_state(p, arm, b)),
        fixed(opened(a), opened(b), arm_state(p, arm, a), arm_state(p, arm, b), i, n),
{
    opened_shape(a, b);
    match crate::registry::variant_named(p, arm.variant@) {
        Some(ij) => {
            let payload = p.enums@[ij.0].variants@[ij.1].payload@;
            let k = if arm.bindings@.len() <= payload.len() {
                arm.bindings@.len()
            } else {
                payload.len()
            };
            bound_fixed(opened(a), opened(b), arm.bindings@, payload, k, i, n);
        }
        None => {}
    }
}

proof fn check_arm_fixed(p: Program, arm: MatchArm, a: State, b: State, i: int, n: Seq<char>)
    requires
        shape(a, b),
        a.len() > 0,
    ensures
        fixed(a, b, check_arm(p, arm, a).st, check_arm(p, arm, b).st, i, n),
    decreases arm,
{
    let sa = arm_state(p, arm, a);
    let sb = arm_state(p, arm, b);
    arm_state_fixed(p, arm, a, b, i, n);
    arm_state_keeps(p, arm, a);
    arm_state_keeps(p, arm, b);
    touch_fixed(p, *arm.body, true, sa, sb, i, n);
    touch_shape(p, *arm.body, true, sa);
    touch_shape(p, *arm.body, true, sb);
    dropped_fixed(
        a,
        b,
        touch(p, *arm.body, true, sa).st,
        touch(p, *arm.body, true, sb).st,
        i,
        n,
    );
}

proof fn check_arms_fixed(p: Program, v: Seq<MatchArm>, a: State, b: State, i: int, n: Seq<char>)
    requires
        shape(a, b),
        a.len() > 0,
    ensures
        fixed(a, b, check_arms(p, v, a).st, check_arms(p, v, b).st, i, n),
    decreases v,
{
    if v.len() > 0 {
        check_arms_fixed(p, v.drop_last(), a, b, i, n);
        check_arm_fixed(p, v.last(), a, b, i, n);
        check_arms_shape(p, v.drop_last(), a);
        check_arms_shape(p, v.drop_last(), b);
        check_arm_shape(p, v.last(), a);
        check_arm_shape(p, v.last(), b);
        merged_fixed(
            a,
            b,
            check_arms(p, v.drop_last(), a).st,
            check_arms(p, v.drop_last(), b).st,
            check_arm(p, v.last(), a).st,
            check_arm(p, v.last(), b).st,
            i,
            n,
        );
    }
}

proof fn check_stmt_fixed(p: Program, s: Stmt, a: State, b: State, i: int, n: Seq<char>)
    requires
        shape(a, b),
        a.len() > 0,
    ensures
        shape(check_stmt(p, s, a).st, check_stmt(p, s, b).st),
        fixed(a, b, check_stmt(p, s, a).st, check_stmt(p, s, b).st, i, n),
    decreases s,
{
    match s {
        Stmt::Let { name, ty, value, .. } => {
            touch_fixed(p, value, true, a, b, i, n);
            touch_shape(p, value, true, a);
            defined_fixed(
                a,
                b,
                touch(p, value, true, a).st,
                touch(p, value, true, b).st,
                name@,
                (ty@, false),
                i,
                n,
            );
        }
        Stmt::Return { value, .. } => match value {
            Some(e) => {
                touch_fixed(p, e, true, a, b, i, n);
            }
            None => {}
        },
        Stmt::While { cond, body, .. } => {
            touch_fixed(p, cond, true, a, b, i, n);
            touch_shape(p, cond, true, a);
            touch_shape(p, cond, true, b);
            let wa = touch(p, cond, true, a).st;
            let wb = touch(p, cond, true, b).st;
            check_block_fixed(p, body.stmts@, wa, wb, i, n);
            check_block_shape(p, body.stmts@, wa);
            check_block_shape(p, body.stmts@, wb);
            let oa = check_block(p, body.stmts@, wa).st;
            let ob = check_block(p, body.stmts@, wb).st;
            shape_trans(oa, wa, a);
            shape_trans(ob, wb, b);
            merged_shape(a, oa);
            merged_shape(b, ob);
            merged_fixed(a, b, a, b, oa, ob, i, n);
            let ha = merged(a, oa);
            let hb = merged(b, ob);
            results_shape(a, b, ha, hb);
            touch_fixed(p, cond, true, ha, hb, i, n);
        }
        Stmt::Audited { body, .. } => {
            check_block_fixed(p, body@, a, b, i, n);
            check_block_shape(p, body@, a);
            check_block_shape(p, body@, b);
            results_shape(a, b, check_block(p, body@, a).st, check_block(p, body@, b).st);
        }
        Stmt::Expr(e) => {
            touch_fixed(p, e, true, a, b, i, n);
        }
    }
}

proof fn check_stmts_fixed(p: Program, v: Seq<Stmt>, a: State, b: State, i: int, n: Seq<char>)
    requires
        shape(a, b),
        a.len() > 0,
    ensures
        shape(check_stmts(p, v, a).st, check_stmts(p, v, b).st),
        fixed(a, b, check_stmts(p, v, a).st, check_stmts(p, v, b).st, i, n),
    decreases v, 0nat,
{
    if v.len() > 0 {
        check_stmts_fixed(p, v.drop_last(), a, b, i, n);
        check_stmts_shape(p, v.drop_last(), a);
        check_stmt_fixed(
            p,
            v.last(),
            check_stmts(p, v.drop_last(), a).st,
            check_stmts(p, v.drop_last(), b).st,
            i,
            n,
        );
    }
}

proof fn check_block_fixed(p: Program, v: Seq<Stmt>, a: State, b: State, i: int, n: Seq<char>)
    requires
        shape(a, b),
    ensures
        fixed(a, b, check_block(p, v, a).st, check_block(p, v, b).st, i, n),
    decreases v, 1nat,
{
    opened_shape(a, b);
    check_stmts_fixed(p, v, opened(a), opened(b), i, n);
    check_stmts_shape(p, v, opened(a));
    check_stmts_shape(p, v, opened(b));
    dropped_fixed(
        a,
        b,
        check_stmts(p, v, opened(a)).st,
        check_stmts(p, v, opened(b)).st,
        i,
        n,
    );
}

/// What a run through a piece of a program leaves: the bindings, whether every
/// variable that was used still held its value, and the choices not yet used.
pub ghost struct Run {
    pub st: State,
    pub ok: bool,
    pub rest: Seq<nat>,
}

/// The next choice; 0 where none is left.
pub open spec fn choice(ch: Seq<nat>) -> nat {
    if ch.len() > 0 {
        ch[0]
    } else {
        0
    }
}

pub open spec fn later(ch: Seq<nat>) -> Seq<nat> {
    if ch.len() > 0 {
        ch.drop_first()
    } else {
        ch
    }
}

pub open spec fn still(st: State, ch: Seq<nat>) -> Run {
    Run { st, ok: true, rest: ch }
}

pub open spec fn then_run(first: Run, next: Run) -> Run {
    Run { st: next.st, ok: first.ok && next.ok, rest: next.rest }
}

/// The value has one owner: it is a box, or a handle of what runs or is open outside.
pub open spec fn owned(t: STy) -> bool {
    t is Box || t is Thread || t is Sandbox || t is Tcp || t is TcpListener || t is File
}

/// What the variable holds is a box of something that has one owner.
pub open spec fn opens_owned(st: State, name: Seq<char>) -> bool {
    lookup(st, name) matches Some(b) && (b.0 matches STy::Box(inner) && owned(*inner))
}

/// A run that uses one variable.
pub open spec fn run_use(st: State, name: Seq<char>, consume: bool, ch: Seq<nat>) -> Run {
    match lookup(st, name) {
        None => still(st, ch),
        Some(b) => if !owned(b.0) {
            still(st, ch)
        } else {
            Run {
                st: if !b.1 && consume {
                    marked(st, name, true)
                } else {
                    st
                },
                ok: !b.1,
                rest: ch,
            }
        },
    }
}

/// A run through an expression. A choice decides each branch: 0 is `else`, for
/// a `match` the number of the arm.
pub open spec fn run(p: Program, e: Expr, consume: bool, st: State, ch: Seq<nat>) -> Run
    decreases e,
{
    match e {
        Expr::Int(..) | Expr::Float(..) | Expr::Bool(..) | Expr::Str(..) | Expr::Chan(_) => still(
            st,
            ch,
        ),
        Expr::Ident(name, _) => run_use(st, name@, consume, ch),
        Expr::Unary(_, a, _) => run(p, *a, true, st, ch),
        Expr::Box(a, _) => run(p, *a, true, st, ch),
        Expr::Join(a, _) => run(p, *a, true, st, ch),
        Expr::StopSandbox(a, _) => run(p, *a, true, st, ch),
        Expr::Listen(a, _) => run(p, *a, true, st, ch),
        Expr::Ref(a, _) => run(p, *a, false, st, ch),
        Expr::Recv(a, _) => run(p, *a, false, st, ch),
        Expr::Accept(a, _) => run(p, *a, false, st, ch),
        Expr::FieldAccess(a, _, _) => run(p, *a, false, st, ch),
        Expr::Deref(a, _) => match *a {
            Expr::Ident(name, _) => run_use(st, name@, opens_owned(st, name@), ch),
            _ => run(p, *a, false, st, ch),
        },
        Expr::Binary(_, a, b, _) => {
            let x = run(p, *a, true, st, ch);
            then_run(x, run(p, *b, true, x.st, x.rest))
        },
        Expr::Connect(a, b, _) => {
            let x = run(p, *a, true, st, ch);
            then_run(x, run(p, *b, true, x.st, x.rest))
        },
        Expr::Open(a, b, _) => {
            let x = run(p, *a, true, st, ch);
            then_run(x, run(p, *b, true, x.st, x.rest))
        },
        Expr::Send(a, b, _) => {
            let x = run(p, *a, false, st, ch);
            then_run(x, run(p, *b, true, x.st, x.rest))
        },
        Expr::Call(_, args, _) => run_all(p, args@, st, ch),
        Expr::Spawn(_, args, _) => run_all(p, args@, st, ch),
        Expr::SpawnSandbox(_, args, _) => run_all(p, args@, st, ch),
        Expr::ArrayLit(args, _) => run_all(p, args@, st, ch),
        Expr::Index(a, args, _) => {
            let x = run(p, *a, false, st, ch);
            then_run(x, run_all(p, args@, x.st, x.rest))
        },
        Expr::Assign(name, a, _) => {
            let x = run(p, *a, true, st, ch);
            Run { st: marked(x.st, name@, false), ok: x.ok, rest: x.rest }
        },
        Expr::If { cond, then_block, else_block, .. } => {
            let x = run(p, *cond, true, st, ch);
            let rest = later(x.rest);
            if choice(x.rest) != 0 {
                then_run(x, run_block(p, then_block.stmts@, x.st, rest))
            } else {
                match else_block {
                    Some(b) => then_run(x, run_else(p, *b, x.st, rest)),
                    None => then_run(x, still(x.st, rest)),
                }
            }
        },
        Expr::Match { scrutinee, arms, .. } => {
            let x = run(p, *scrutinee, true, st, ch);
            then_run(x, run_arms(p, arms@, choice(x.rest), x.st, later(x.rest)))
        },
        Expr::Transact { network, verify, commit, compensate, log, .. } => {
            let a = run_all(p, network.args@, opened(st), ch);
            let s1 = defined(a.st, "network"@, (result_of(p, network.name@), false));
            let b = run_all(p, verify.args@, s1, a.rest);
            let s2 = defined(b.st, "verify"@, (STy::Bool, false));
            let rest = later(b.rest);
            let c = if choice(b.rest) != 0 {
                run_all(p, commit.args@, s2, rest)
            } else {
                match compensate {
                    Some(s) => run_all(p, s.args@, s2, rest),
                    None => still(s2, rest),
                }
            };
            let f = match log {
                Some(s) => run_all(p, s.args@, c.st, c.rest),
                None => still(c.st, c.rest),
            };
            Run { st: f.st.drop_last(), ok: a.ok && b.ok && c.ok && f.ok, rest: f.rest }
        },
    }
}

pub open spec fn run_all(p: Program, v: Seq<Expr>, st: State, ch: Seq<nat>) -> Run
    decreases v,
{
    if v.len() == 0 {
        still(st, ch)
    } else {
        let x = run_all(p, v.drop_last(), st, ch);
        then_run(x, run(p, v.last(), true, x.st, x.rest))
    }
}

pub open spec fn run_else(p: Program, b: ElseBranch, st: State, ch: Seq<nat>) -> Run
    decreases b,
{
    match b {
        ElseBranch::Block(b) => run_block(p, b.stmts@, st, ch),
        ElseBranch::If(e) => run(p, e, true, st, ch),
    }
}

pub open spec fn run_arm(p: Program, arm: MatchArm, st: State, ch: Seq<nat>) -> Run
    decreases arm,
{
    let x = run(p, *arm.body, true, arm_state(p, arm, st), ch);
    Run { st: x.st.drop_last(), ok: x.ok, rest: x.rest }
}

/// A run through arm `k`; through none where there is no such arm.
pub open spec fn run_arms(p: Program, v: Seq<MatchArm>, k: nat, st: State, ch: Seq<nat>) -> Run
    decreases v,
{
    if v.len() == 0 {
        still(st, ch)
    } else if k == v.len() - 1 {
        run_arm(p, v.last(), st, ch)
    } else {
        run_arms(p, v.drop_last(), k, st, ch)
    }
}

/// `k` times round a loop; the condition is evaluated again after each.
pub open spec fn run_loop(p: Program, s: Stmt, k: nat, st: State, ch: Seq<nat>) -> Run
    decreases s, 0nat, k,
{
    match s {
        Stmt::While { cond, body, .. } => if k == 0 {
            still(st, ch)
        } else {
            let x = run_loop(p, s, (k - 1) as nat, st, ch);
            let y = run_block(p, body.stmts@, x.st, x.rest);
            let z = run(p, cond, true, y.st, y.rest);
            Run { st: z.st, ok: x.ok && y.ok && z.ok, rest: z.rest }
        },
        _ => still(st, ch),
    }
}

/// A run through a statement. A choice decides how many times round a loop.
pub open spec fn run_stmt(p: Program, s: Stmt, st: State, ch: Seq<nat>) -> Run
    decreases s, 1nat,
{
    match s {
        Stmt::Let { name, ty, value, .. } => {
            let x = run(p, value, true, st, ch);
            Run { st: defined(x.st, name@, (ty@, false)), ok: x.ok, rest: x.rest }
        },
        Stmt::Return { value, .. } => match value {
            Some(e) => run(p, e, true, st, ch),
            None => still(st, ch),
        },
        Stmt::While { cond, body, .. } => {
            let x = run(p, cond, true, st, ch);
            then_run(x, run_loop(p, s, choice(x.rest), x.st, later(x.rest)))
        },
        Stmt::Audited { body, .. } => run_block(p, body@, st, ch),
        Stmt::Expr(e) => run(p, e, true, st, ch),
    }
}

pub open spec fn run_stmts(p: Program, v: Seq<Stmt>, st: State, ch: Seq<nat>) -> Run
    decreases v, 0nat,
{
    if v.len() == 0 {
        still(st, ch)
    } else {
        let x = run_stmts(p, v.drop_last(), st, ch);
        then_run(x, run_stmt(p, v.last(), x.st, x.rest))
    }
}

pub open spec fn run_block(p: Program, v: Seq<Stmt>, st: State, ch: Seq<nat>) -> Run
    decreases v, 1nat,
{
    let x = run_stmts(p, v, opened(st), ch);
    Run { st: x.st.drop_last(), ok: x.ok, rest: x.rest }
}

/// Whether everything that has been moved from in `c` counts as moved in `a`.
pub open spec fn covers(a: State, c: State) -> bool {
    &&& shape(c, a)
    &&& forall|i: int, n: Seq<char>| #[trigger]
        bit(c, i, n) == Some(true) ==> bit(a, i, n) == Some(true)
}

proof fn covers_trans(a: State, b: State, c: State)
    requires
        covers(a, b),
        covers(b, c),
    ensures
        covers(a, c),
{
    shape_trans(c, b, a);
    assert forall|i: int, n: Seq<char>| #[trigger] bit(c, i, n) == Some(true) implies bit(a, i, n)
        == Some(true) by {
        assert(bit(b, i, n) == Some(true));
    }
}

proof fn merged_covers(a: State, b: State)
    requires
        shape(a, b),
    ensures
        covers(merged(a, b), a),
        covers(merged(a, b), b),
{
    merged_shape(a, b);
    shape_sym(merged(a, b), a);
    shape_sym(a, b);
    shape_trans(b, a, merged(a, b));
    assert forall|i: int, n: Seq<char>| #[trigger] bit(a, i, n) == Some(true) implies bit(
        merged(a, b),
        i,
        n,
    ) == Some(true) by {
        merged_bit(a, b, i, n);
        assert(same_names(a[i], b[i]));
    }
    assert forall|i: int, n: Seq<char>| #[trigger] bit(b, i, n) == Some(true) implies bit(
        merged(a, b),
        i,
        n,
    ) == Some(true) by {
        merged_bit(a, b, i, n);
        assert(same_names(a[i], b[i]));
    }
}

proof fn marked_covers(a: State, c: State, name: Seq<char>, m: bool)
    requires
        covers(a, c),
    ensures
        covers(marked(a, name, m), marked(c, name, m)),
{
    home_shape(c, a, name);
    marked_fixed(c, a, name, m, 0, name);
    assert forall|i: int, n: Seq<char>| #[trigger]
        bit(marked(c, name, m), i, n) == Some(true) implies bit(marked(a, name, m), i, n) == Some(
        true,
    ) by {
        marked_bit(a, name, m, i, n);
        marked_bit(c, name, m, i, n);
        assert(bit(c, i, n) == Some(true) ==> bit(a, i, n) == Some(true));
    }
}

proof fn defined_covers(a: State, c: State, name: Seq<char>, t: STy)
    requires
        covers(a, c),
        c.len() > 0,
    ensures
        covers(defined(a, name, (t, false)), defined(c, name, (t, false))),
{
    defined_shape(c, a, name, (t, false));
    let x = defined(c, name, (t, false));
    assert forall|i: int, n: Seq<char>| #[trigger] bit(x, i, n) == Some(true) implies bit(
        defined(a, name, (t, false)),
        i,
        n,
    ) == Some(true) by {
        assert(bit(c, i, n) == Some(true));
        assert(bit(a, i, n) == Some(true));
    }
}

proof fn opened_covers(a: State, c: State)
    requires
        covers(a, c),
    ensures
        covers(opened(a), opened(c)),
{
    opened_shape(c, a);
    assert forall|i: int, n: Seq<char>| #[trigger] bit(opened(c), i, n) == Some(true) implies bit(
        opened(a),
        i,
        n,
    ) == Some(true) by {
        assert(bit(c, i, n) == Some(true));
        assert(bit(a, i, n) == Some(true));
    }
}

proof fn dropped_covers(a: State, c: State)
    requires
        covers(a, c),
        c.len() > 0,
    ensures
        covers(a.drop_last(), c.drop_last()),
{
    inner_shape(c, a);
    assert forall|i: int, n: Seq<char>| #[trigger]
        bit(c.drop_last(), i, n) == Some(true) implies bit(a.drop_last(), i, n) == Some(true) by {
        assert(bit(c, i, n) == Some(true));
        assert(bit(a, i, n) == Some(true));
    }
}

proof fn covers_refl(a: State)
    ensures
        covers(a, a),
{
}

proof fn use_safe(a: State, c: State, name: Seq<char>, span: Span, consume: bool, ch: Seq<nat>)
    requires
        covers(a, c),
        used(a, name, span, consume).errs.len() == 0,
    ensures
        run_use(c, name, consume, ch).ok,
        covers(used(a, name, span, consume).st, run_use(c, name, consume, ch).st),
{
    lookup_shape(c, a, name);
    home_shape(c, a, name);
    home_is(c, name);
    by_home(c, name);
    by_home(a, name);
    let h = home(c, name);
    if h >= 0 {
        assert(bit(c, h, name) == Some(true) ==> bit(a, h, name) == Some(true));
        marked_covers(a, c, name, true);
    }
}

proof fn safe(p: Program, e: Expr, consume: bool, a: State, c: State, ch: Seq<nat>)
    requires
        covers(a, c),
        c.len() > 0,
        touch(p, e, consume, a).errs.len() == 0,
    ensures
        run(p, e, consume, c, ch).ok,
        covers(touch(p, e, consume, a).st, run(p, e, consume, c, ch).st),
    decreases e,
{
    match e {
        Expr::Int(..) | Expr::Float(..) | Expr::Bool(..) | Expr::Str(..) | Expr::Chan(_) => {}
        Expr::Ident(name, span) => {
            use_safe(a, c, name@, span, consume, ch);
        }
        Expr::Unary(_, u, _)
        | Expr::Box(u, _)
        | Expr::Join(u, _)
        | Expr::StopSandbox(u, _)
        | Expr::Listen(u, _) => {
            safe(p, *u, true, a, c, ch);
        }
        Expr::Ref(u, _)
        | Expr::Recv(u, _)
        | Expr::Accept(u, _)
        | Expr::FieldAccess(u, _, _) => {
            safe(p, *u, false, a, c, ch);
        }
        Expr::Deref(u, _) => match *u {
            Expr::Ident(name, span) => {
                lookup_shape(c, a, name@);
                use_safe(a, c, name@, span, takes_content(a, name@), ch);
            }
            _ => {
                safe(p, *u, false, a, c, ch);
            }
        },
        Expr::Binary(_, u, v, _) | Expr::Connect(u, v, _) | Expr::Open(u, v, _) => {
            let x = touch(p, *u, true, a);
            let y = touch(p, *v, true, x.st);
            assert(x.errs.len() + y.errs.len() == 0);
            safe(p, *u, true, a, c, ch);
            let r = run(p, *u, true, c, ch);
            touch_shape(p, *u, true, a);
            safe(p, *v, true, x.st, r.st, r.rest);
        }
        Expr::Send(u, v, _) => {
            let x = touch(p, *u, false, a);
            let y = touch(p, *v, true, x.st);
            assert(x.errs.len() + y.errs.len() == 0);
            safe(p, *u, false, a, c, ch);
            let r = run(p, *u, false, c, ch);
            touch_shape(p, *u, false, a);
            safe(p, *v, true, x.st, r.st, r.rest);
        }
        Expr::Call(_, args, _)
        | Expr::Spawn(_, args, _)
        | Expr::SpawnSandbox(_, args, _)
        | Expr::ArrayLit(args, _) => {
            safe_all(p, args@, a, c, ch);
        }
        Expr::Index(u, args, _) => {
            let x = touch(p, *u, false, a);
            let y = touch_all(p, args@, x.st);
            assert(x.errs.len() + y.errs.len() == 0);
            safe(p, *u, false, a, c, ch);
            let r = run(p, *u, false, c, ch);
            touch_shape(p, *u, false, a);
            safe_all(p, args@, x.st, r.st, r.rest);
        }
        Expr::Assign(name, u, _) => {
            safe(p, *u, true, a, c, ch);
            marked_covers(touch(p, *u, true, a).st, run(p, *u, true, c, ch).st, name@, false);
        }
        Expr::If { cond, then_block, else_block, .. } => {
            let x = touch(p, *cond, true, a);
            let t = check_block(p, then_block.stmts@, x.st);
            let f = match else_block {
                Some(b) => check_else(p, *b, x.st),
                None => clean(x.st),
            };
            assert((x.errs + t.errs + f.errs).len() == x.errs.len() + t.errs.len()
                + f.errs.len());
            safe(p, *cond, true, a, c, ch);
            touch_shape(p, *cond, true, a);
            let r = run(p, *cond, true, c, ch);
            let rest = later(r.rest);
            check_block_shape(p, then_block.stmts@, x.st);
            match else_block {
                Some(b) => {
                    check_else_shape(p, *b, x.st);
                }
                None => {}
            }
            shape_sym(f.st, x.st);
            shape_trans(t.st, x.st, f.st);
            merged_covers(t.st, f.st);
            if choice(r.rest) != 0 {
                safe_block(p, then_block.stmts@, x.st, r.st, rest);
                covers_trans(
                    merged(t.st, f.st),
                    t.st,
                    run_block(p, then_block.stmts@, r.st, rest).st,
                );
            } else {
                match else_block {
                    Some(b) => {
                        safe_else(p, *b, x.st, r.st, rest);
                        covers_trans(merged(t.st, f.st), f.st, run_else(p, *b, r.st, rest).st);
                    }
                    None => {
                        covers_trans(merged(t.st, f.st), f.st, r.st);
                    }
                }
            }
        }
        Expr::Match { scrutinee, arms, .. } => {
            let x = touch(p, *scrutinee, true, a);
            let y = check_arms(p, arms@, x.st);
            assert(x.errs.len() + y.errs.len() == 0);
            safe(p, *scrutinee, true, a, c, ch);
            touch_shape(p, *scrutinee, true, a);
            let r = run(p, *scrutinee, true, c, ch);
            safe_arms(p, arms@, choice(r.rest), x.st, r.st, later(r.rest));
        }
        Expr::Transact { .. } => {
            safe_transact(p, e, a, c, ch);
        }
    }
}

proof fn safe_transact(p: Program, e: Expr, a: State, c: State, ch: Seq<nat>)
    requires
        e is Transact,
        covers(a, c),
        c.len() > 0,
        touch(p, e, true, a).errs.len() == 0,
    ensures
        run(p, e, true, c, ch).ok,
        covers(touch(p, e, true, a).st, run(p, e, true, c, ch).st),
    decreases e, 0nat,
{
    if let Expr::Transact { network, verify, commit, compensate, log, .. } = e {
        let ta = touch_all(p, network.args@, opened(a));
        let ret = result_of(p, network.name@);
        let s1 = defined(ta.st, "network"@, (ret, false));
        let tb = touch_all(p, verify.args@, s1);
        let s2 = defined(tb.st, "verify"@, (STy::Bool, false));
        let tc = touch_all(p, commit.args@, s2);
        let td = match compensate {
            Some(s) => touch_all(p, s.args@, s2),
            None => clean(s2),
        };
        let s3 = merged(tc.st, td.st);
        let tf = match log {
            Some(s) => touch_all(p, s.args@, s3),
            None => clean(s3),
        };
        assert((ta.errs + tb.errs + tc.errs + td.errs + tf.errs).len() == ta.errs.len()
            + tb.errs.len() + tc.errs.len() + td.errs.len() + tf.errs.len());
        opened_covers(a, c);
        touch_all_shape(p, network.args@, opened(a));
        safe_all(p, network.args@, opened(a), opened(c), ch);
        let ra = run_all(p, network.args@, opened(c), ch);
        defined_covers(ta.st, ra.st, "network"@, ret);
        let c1 = defined(ra.st, "network"@, (ret, false));
        touch_all_shape(p, verify.args@, s1);
        safe_all(p, verify.args@, s1, c1, ra.rest);
        let rb = run_all(p, verify.args@, c1, ra.rest);
        defined_covers(tb.st, rb.st, "verify"@, STy::Bool);
        let c2 = defined(rb.st, "verify"@, (STy::Bool, false));
        let rest = later(rb.rest);
        touch_all_shape(p, commit.args@, s2);
        match compensate {
            Some(s) => {
                touch_all_shape(p, s.args@, s2);
            }
            None => {}
        }
        shape_sym(td.st, s2);
        shape_trans(tc.st, s2, td.st);
        merged_covers(tc.st, td.st);
        let rc = if choice(rb.rest) != 0 {
            run_all(p, commit.args@, c2, rest)
        } else {
            match compensate {
                Some(s) => run_all(p, s.args@, c2, rest),
                None => still(c2, rest),
            }
        };
        if choice(rb.rest) != 0 {
            safe_all(p, commit.args@, s2, c2, rest);
            covers_trans(s3, tc.st, rc.st);
        } else {
            match compensate {
                Some(s) => {
                    safe_all(p, s.args@, s2, c2, rest);
                }
                None => {}
            }
            covers_trans(s3, td.st, rc.st);
        }
        match log {
            Some(s) => {
                touch_all_shape(p, s.args@, s3);
                safe_all(p, s.args@, s3, rc.st, rc.rest);
                dropped_covers(tf.st, run_all(p, s.args@, rc.st, rc.rest).st);
            }
            None => {
                dropped_covers(s3, rc.st);
            }
        }
    }
}

proof fn safe_all(p: Program, v: Seq<Expr>, a: State, c: State, ch: Seq<nat>)
    requires
        covers(a, c),
        c.len() > 0,
        touch_all(p, v, a).errs.len() == 0,
    ensures
        run_all(p, v, c, ch).ok,
        covers(touch_all(p, v, a).st, run_all(p, v, c, ch).st),
    decreases v,
{
    if v.len() > 0 {
        let x = touch_all(p, v.drop_last(), a);
        let y = touch(p, v.last(), true, x.st);
        assert(x.errs.len() + y.errs.len() == 0);
        safe_all(p, v.drop_last(), a, c, ch);
        touch_all_shape(p, v.drop_last(), a);
        let r = run_all(p, v.drop_last(), c, ch);
        safe(p, v.last(), true, x.st, r.st, r.rest);
    }
}

proof fn safe_else(p: Program, b: ElseBranch, a: State, c: State, ch: Seq<nat>)
    requires
        covers(a, c),
        c.len() > 0,
        check_else(p, b, a).errs.len() == 0,
    ensures
        run_else(p, b, c, ch).ok,
        covers(check_else(p, b, a).st, run_else(p, b, c, ch).st),
    decreases b,
{
    match b {
        ElseBranch::Block(x) => {
            safe_block(p, x.stmts@, a, c, ch);
        }
        ElseBranch::If(e) => {
            safe(p, e, true, a, c, ch);
        }
    }
}

proof fn bound_covers(
    a: State,
    c: State,
    names: Seq<String>,
    payload: Seq<crate::ast::Ty>,
    k: nat,
)
    requires
        covers(a, c),
        c.len() > 0,
    ensures
        covers(
            crate::ownership::bound(a, names, payload, k),
            crate::ownership::bound(c, names, payload, k),
        ),
    decreases k,
{
    if k > 0 {
        bound_covers(a, c, names, payload, (k - 1) as nat);
        crate::ownership::bound_keeps(c, names, payload, (k - 1) as nat);
        defined_covers(
            crate::ownership::bound(a, names, payload, (k - 1) as nat),
            crate::ownership::bound(c, names, payload, (k - 1) as nat),
            names[k - 1]@,
            payload[k - 1]@,
        );
    }
}

proof fn arm_covers(p: Program, arm: MatchArm, a: State, c: State)
    requires
        covers(a, c),
    ensures
        covers(arm_state(p, arm, a), arm_state(p, arm, c)),
{
    opened_covers(a, c);
    match crate::registry::variant_named(p, arm.variant@) {
        Some(ij) => {
            let payload = p.enums@[ij.0].variants@[ij.1].payload@;
            let k = if arm.bindings@.len() <= payload.len() {
                arm.bindings@.len()
            } else {
                payload.len()
            };
            bound_covers(opened(a), opened(c), arm.bindings@, payload, k);
        }
        None => {}
    }
}

proof fn safe_arms(p: Program, v: Seq<MatchArm>, k: nat, a: State, c: State, ch: Seq<nat>)
    requires
        covers(a, c),
        c.len() > 0,
        check_arms(p, v, a).errs.len() == 0,
    ensures
        run_arms(p, v, k, c, ch).ok,
        covers(check_arms(p, v, a).st, run_arms(p, v, k, c, ch).st),
    decreases v,
{
    if v.len() > 0 {
        let x = check_arms(p, v.drop_last(), a);
        let y = check_arm(p, v.last(), a);
        assert(x.errs.len() + y.errs.len() == 0);
        check_arms_shape(p, v.drop_last(), a);
        check_arm_shape(p, v.last(), a);
        shape_sym(y.st, a);
        shape_trans(x.st, a, y.st);
        merged_covers(x.st, y.st);
        if k == v.len() - 1 {
            let arm = v.last();
            arm_covers(p, arm, a, c);
            arm_state_keeps(p, arm, a);
            arm_state_keeps(p, arm, c);
            safe(p, *arm.body, true, arm_state(p, arm, a), arm_state(p, arm, c), ch);
            touch_shape(p, *arm.body, true, arm_state(p, arm, a));
            dropped_covers(
                touch(p, *arm.body, true, arm_state(p, arm, a)).st,
                run(p, *arm.body, true, arm_state(p, arm, c), ch).st,
            );
            covers_trans(merged(x.st, y.st), y.st, run_arm(p, arm, c, ch).st);
        } else {
            safe_arms(p, v.drop_last(), k, a, c, ch);
            covers_trans(merged(x.st, y.st), x.st, run_arms(p, v.drop_last(), k, c, ch).st);
        }
    }
}

/// Checking a loop once more, from the state that two passes leave, finds nothing
/// that the second pass has not found: the second pass leaves no variable moved that
/// was not counted as moved when it began.
pub proof fn second_pass_suffices(p: Program, cond: Expr, body: Seq<Stmt>, st: State)
    requires
        st.len() > 0,
    ensures
        ({
            let head = merged(st, check_block(p, body, touch(p, cond, true, st).st).st);
            &&& shape(head, st)
            &&& covers(head, st)
            &&& covers(head, check_block(p, body, touch(p, cond, true, head).st).st)
        }),
{
    let w = touch(p, cond, true, st).st;
    touch_shape(p, cond, true, st);
    check_block_shape(p, body, w);
    let once = check_block(p, body, w).st;
    shape_trans(once, w, st);
    shape_sym(once, st);
    merged_covers(st, once);
    merged_shape(st, once);
    let head = merged(st, once);
    let x = touch(p, cond, true, head).st;
    touch_shape(p, cond, true, head);
    check_block_shape(p, body, x);
    let r = check_block(p, body, x).st;
    shape_trans(r, x, head);
    assert forall|i: int, n: Seq<char>| #[trigger] bit(r, i, n) == Some(true) implies bit(
        head,
        i,
        n,
    ) == Some(true) by {
        shape_sym(head, st);
        touch_fixed(p, cond, true, st, head, i, n);
        check_block_fixed(p, body, w, x, i, n);
        merged_bit(st, once, i, n);
        if bit(r, i, n) == bit(once, i, n) {
            assert(bit(once, i, n) == Some(true));
        }
    }
}

/// Rounds of a loop, from behind its condition.
proof fn safe_loop(p: Program, s: Stmt, k: nat, a: State, c: State, ch: Seq<nat>)
    requires
        s is While,
        a.len() > 0,
        check_stmt(p, s, a).errs.len() == 0,
        covers(check_stmt(p, s, a).st, c),
    ensures
        run_loop(p, s, k, c, ch).ok,
        covers(check_stmt(p, s, a).st, run_loop(p, s, k, c, ch).st),
    decreases s, 0nat, k,
{
    if let Stmt::While { cond, body, .. } = s {
        let b = body.stmts@;
        let head = merged(a, check_block(p, b, touch(p, cond, true, a).st).st);
        second_pass_suffices(p, cond, b, a);
        let x = touch(p, cond, true, head);
        let r = check_block(p, b, x.st);
        assert(x.errs.len() + r.errs.len() == 0);
        touch_shape(p, cond, true, head);
        if k > 0 {
            safe_loop(p, s, (k - 1) as nat, a, c, ch);
            let u = run_loop(p, s, (k - 1) as nat, c, ch);
            safe_block(p, b, x.st, u.st, u.rest);
            let v = run_block(p, b, u.st, u.rest);
            covers_trans(head, r.st, v.st);
            safe(p, cond, true, head, v.st, v.rest);
        }
    }
}

proof fn safe_stmt(p: Program, s: Stmt, a: State, c: State, ch: Seq<nat>)
    requires
        covers(a, c),
        c.len() > 0,
        check_stmt(p, s, a).errs.len() == 0,
    ensures
        run_stmt(p, s, c, ch).ok,
        covers(check_stmt(p, s, a).st, run_stmt(p, s, c, ch).st),
    decreases s, 1nat,
{
    match s {
        Stmt::Let { name, ty, value, .. } => {
            safe(p, value, true, a, c, ch);
            touch_shape(p, value, true, a);
            defined_covers(
                touch(p, value, true, a).st,
                run(p, value, true, c, ch).st,
                name@,
                ty@,
            );
        }
        Stmt::Return { value, .. } => match value {
            Some(e) => {
                safe(p, e, true, a, c, ch);
            }
            None => {}
        },
        Stmt::While { cond, body, .. } => {
            let b = body.stmts@;
            let head = merged(a, check_block(p, b, touch(p, cond, true, a).st).st);
            second_pass_suffices(p, cond, b, a);
            let x = touch(p, cond, true, head);
            assert(x.errs.len() + check_block(p, b, x.st).errs.len() == 0);
            covers_trans(head, a, c);
            safe(p, cond, true, head, c, ch);
            let r = run(p, cond, true, c, ch);
            safe_loop(p, s, choice(r.rest), a, r.st, later(r.rest));
        }
        Stmt::Audited { body, .. } => {
            safe_block(p, body@, a, c, ch);
        }
        Stmt::Expr(e) => {
            safe(p, e, true, a, c, ch);
        }
    }
}

proof fn safe_stmts(p: Program, v: Seq<Stmt>, a: State, c: State, ch: Seq<nat>)
    requires
        covers(a, c),
        c.len() > 0,
        check_stmts(p, v, a).errs.len() == 0,
    ensures
        run_stmts(p, v, c, ch).ok,
        covers(check_stmts(p, v, a).st, run_stmts(p, v, c, ch).st),
    decreases v, 0nat,
{
    if v.len() > 0 {
        let x = check_stmts(p, v.drop_last(), a);
        let y = check_stmt(p, v.last(), x.st);
        assert(x.errs.len() + y.errs.len() == 0);
        safe_stmts(p, v.drop_last(), a, c, ch);
        check_stmts_shape(p, v.drop_last(), a);
        let r = run_stmts(p, v.drop_last(), c, ch);
        safe_stmt(p, v.last(), x.st, r.st, r.rest);
    }
}

proof fn safe_block(p: Program, v: Seq<Stmt>, a: State, c: State, ch: Seq<nat>)
    requires
        covers(a, c),
        c.len() > 0,
        check_block(p, v, a).errs.len() == 0,
    ensures
        run_block(p, v, c, ch).ok,
        covers(check_block(p, v, a).st, run_block(p, v, c, ch).st),
    decreases v, 1nat,
{
    opened_covers(a, c);
    safe_stmts(p, v, opened(a), opened(c), ch);
    check_stmts_shape(p, v, opened(a));
    dropped_covers(check_stmts(p, v, opened(a)).st, run_stmts(p, v, opened(c), ch).st);
}

/// Where the checker finds no error in a function, no run of the function uses a
/// variable that has been moved from, whichever way it takes.
pub proof fn no_use_after_move(p: Program, f: FnDecl, ch: Seq<nat>)
    requires
        fn_errors(p, f).len() == 0,
    ensures
        run_stmts(p, f.body.stmts@, entry(f, f.params@.len()), ch).ok,
{
    let st = entry(f, f.params@.len());
    entry_opens(f, f.params@.len());
    covers_refl(st);
    safe_stmts(p, f.body.stmts@, st, st, ch);
}

} // verus!
