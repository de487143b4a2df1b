//! What expressions and statements are worth: the rules by which a value follows from the
//! values of the parts.
use crate::arith::binary;
use crate::ast::{BinOp, ElseBranch, Expr, Program, STy, Stmt, UnOp};
use crate::check::{fits, SCheck};
use crate::machine::{
    eval, give, indexed, run, step, steps, stmt_value, SCtrl, SEnv, SFrame, SState,
};
use crate::native::{integers_are_computed_with, wrapped};
use crate::request::SAct;
use crate::scopes::{assigned, closed, defined, lookup, opened};
use crate::value::{SOutcome, SValue};
use vstd::prelude::*;

verus! {

/// One state comes to be another after some steps.
pub open spec fn leads(p: Program, a: SState, b: SState) -> bool {
    exists|n: nat| #[trigger] steps(p, a, n) == b
}

/// Bindings, and the state of the generator.
pub ghost struct World {
    pub env: SEnv,
    pub rng: Option<u64>,
}

pub open spec fn state(ctrl: SCtrl, frames: Seq<SFrame>, w: World) -> SState {
    SState { ctrl, frames, env: w.env, rng: w.rng }
}

/// Whatever waits for it, the expression comes out with the value.
pub open spec fn worth(p: Program, w: World, e: Expr, v: SValue, after: World) -> bool {
    forall|fs: Seq<SFrame>| #[trigger]
        leads(p, state(SCtrl::Eval(e), fs, w), state(SCtrl::Ret(v), fs, after))
}

/// Whatever waits for them, the statements from `i` on come out with the value.
pub open spec fn ran(
    p: Program,
    w: World,
    stmts: Seq<Stmt>,
    i: int,
    last: SValue,
    v: SValue,
    after: World,
) -> bool {
    forall|fs: Seq<SFrame>| #[trigger]
        leads(p, state(SCtrl::Run(stmts, i, last), fs, w), state(SCtrl::Ret(v), fs, after))
}

proof fn steps_add(p: Program, a: SState, m: nat, n: nat)
    ensures
        steps(p, steps(p, a, m), n) == steps(p, a, m + n),
    decreases n,
{
    if n > 0 {
        steps_add(p, a, m, (n - 1) as nat);
    }
}

proof fn onward(p: Program, a: SState, b: SState, c: SState)
    requires
        leads(p, a, b),
        leads(p, b, c),
    ensures
        leads(p, a, c),
{
    let m = choose|m: nat| #[trigger] steps(p, a, m) == b;
    let n = choose|n: nat| #[trigger] steps(p, b, n) == c;
    steps_add(p, a, m, n);
    assert(steps(p, a, m + n) == c);
}

proof fn once(p: Program, a: SState)
    ensures
        leads(p, a, step(p, a)),
        leads(p, a, a),
{
    assert(steps(p, a, 0) == a);
    assert(steps(p, a, 1) == step(p, steps(p, a, 0)));
}

/// The first step leads on.
proof fn first_step(p: Program, a: SState, b: SState)
    requires
        leads(p, a, b),
        a != b,
    ensures
        leads(p, step(p, a), b),
{
    let n = choose|n: nat| #[trigger] steps(p, a, n) == b;
    assert(n > 0);
    assert(steps(p, a, 1) == step(p, steps(p, a, 0)));
    steps_add(p, a, 1, (n - 1) as nat);
    assert(steps(p, step(p, a), (n - 1) as nat) == b);
}

proof fn on_top(fs: Seq<SFrame>, f: SFrame)
    ensures
        fs.push(f).drop_last() == fs,
        fs.push(f).last() == f,
        fs.push(f).len() > 0,
{
    assert(fs.push(f).drop_last() =~= fs);
}

/// A part is evaluated, and its value is handed to what waits for it.
proof fn handed(p: Program, fs: Seq<SFrame>, f: SFrame, w: World, e: Expr, v: SValue, after: World)
    requires
        worth(p, w, e, v, after),
    ensures
        leads(
            p,
            state(SCtrl::Eval(e), fs.push(f), w),
            give(p, f, v, state(SCtrl::Ret(v), fs, after)),
        ),
{
    let a = state(SCtrl::Eval(e), fs.push(f), w);
    let b = state(SCtrl::Ret(v), fs.push(f), after);
    assert(leads(p, a, b));
    on_top(fs, f);
    once(p, b);
    onward(p, a, b, step(p, b));
}

/// The same of statements.
proof fn ran_and_handed(
    p: Program,
    fs: Seq<SFrame>,
    f: SFrame,
    w: World,
    stmts: Seq<Stmt>,
    v: SValue,
    after: World,
)
    requires
        ran(p, w, stmts, 0, SValue::Unit, v, after),
    ensures
        leads(
            p,
            state(SCtrl::Run(stmts, 0, SValue::Unit), fs.push(f), w),
            give(p, f, v, state(SCtrl::Ret(v), fs, after)),
        ),
{
    let a = state(SCtrl::Run(stmts, 0, SValue::Unit), fs.push(f), w);
    let b = state(SCtrl::Ret(v), fs.push(f), after);
    assert(leads(p, a, b));
    on_top(fs, f);
    once(p, b);
    onward(p, a, b, step(p, b));
}

/// A constant is worth itself, and a name what it is bound to.
pub proof fn constants_and_names(p: Program, w: World, e: Expr)
    ensures
        match e {
            Expr::Int(n, _) => worth(p, w, e, SValue::Int(n), w),
            Expr::Bool(b, _) => worth(p, w, e, SValue::Bool(b), w),
            Expr::Str(t, _) => worth(p, w, e, SValue::Str(t@), w),
            Expr::Float(f, _) => worth(p, w, e, SValue::Float(f.bits), w),
            Expr::Ident(name, _) => lookup(w.env, name@) matches Some(b) ==> worth(p, w, e, b.0, w),
            _ => true,
        },
{
    assert forall|fs: Seq<SFrame>, v: SValue|
        eval(p, e, state(SCtrl::Eval(e), fs, w)) == state(SCtrl::Ret(v), fs, w) implies #[trigger] leads(
        p,
        state(SCtrl::Eval(e), fs, w),
        state(SCtrl::Ret(v), fs, w),
    ) by {
        once(p, state(SCtrl::Eval(e), fs, w));
    }
}

/// One operand: its value is what the expression is applied to.
proof fn one_operand(p: Program, w: World, e: Expr, a: Expr, x: SValue, after: World, v: SValue, last: World)
    requires
        match e {
            Expr::Unary(_, b, _) => *b == a,
            Expr::Box(b, _) => *b == a,
            Expr::Ref(b, _) => *b == a,
            Expr::Deref(b, _) => *b == a,
            Expr::Assign(_, b, _) => *b == a,
            Expr::FieldAccess(b, _, _) => *b == a,
            _ => false,
        },
        worth(p, w, a, x, after),
        forall|fs: Seq<SFrame>|
            crate::machine::apply(p, e, seq![x], #[trigger] state(SCtrl::Ret(x), fs, after)) == state(
                SCtrl::Ret(v),
                fs,
                last,
            ),
    ensures
        worth(p, w, e, v, last),
{
    assert forall|fs: Seq<SFrame>| #[trigger]
        leads(p, state(SCtrl::Eval(e), fs, w), state(SCtrl::Ret(v), fs, last)) by {
        let none = Seq::<SValue>::empty();
        let f = SFrame::Args(e, none);
        let s = state(SCtrl::Eval(e), fs, w);
        once(p, s);
        assert(step(p, s) == state(SCtrl::Eval(a), fs.push(f), w));
        handed(p, fs, f, w, a, x, after);
        assert(none.push(x) =~= seq![x]);
        assert(give(p, f, x, state(SCtrl::Ret(x), fs, after)) == state(SCtrl::Ret(v), fs, last));
        onward(p, s, step(p, s), state(SCtrl::Ret(v), fs, last));
    }
}

/// `-` takes an integer from zero, and `!` turns a truth value round.
pub proof fn prefixes(p: Program, w: World, op: UnOp, e: Expr, x: SValue, after: World)
    requires
        e matches Expr::Unary(o, a, _) && o == op && worth(p, w, *a, x, after),
    ensures
        op == UnOp::Neg ==> (x matches SValue::Int(n) ==> worth(
            p,
            w,
            e,
            SValue::Int(wrapped(-n)),
            after,
        )),
        op == UnOp::Not ==> (x matches SValue::Bool(b) ==> worth(
            p,
            w,
            e,
            SValue::Bool(!b),
            after,
        )),
{
    if let Expr::Unary(_, a, span) = e {
        match (op, x) {
            (UnOp::Neg, SValue::Int(n)) => {
                integers_are_computed_with(0, n, span);
                one_operand(p, w, e, *a, x, after, SValue::Int(wrapped(-n)), after);
            },
            (UnOp::Not, SValue::Bool(b)) => {
                one_operand(p, w, e, *a, x, after, SValue::Bool(!b), after);
            },
            _ => {},
        }
    }
}

/// `*` undoes `box` and `&`.
pub proof fn dereferences(p: Program, w: World, e: Expr, x: SValue, after: World)
    ensures
        e matches Expr::Box(a, _) ==> (worth(p, w, *a, x, after) ==> worth(
            p,
            w,
            e,
            SValue::Boxed(Box::new(x)),
            after,
        )),
        e matches Expr::Ref(a, _) ==> (worth(p, w, *a, x, after) ==> worth(
            p,
            w,
            e,
            SValue::Ref(Box::new(x)),
            after,
        )),
        e matches Expr::Deref(a, _) ==> {
            &&& worth(p, w, *a, SValue::Boxed(Box::new(x)), after) ==> worth(p, w, e, x, after)
            &&& worth(p, w, *a, SValue::Ref(Box::new(x)), after) ==> worth(p, w, e, x, after)
        },
{
    match e {
        Expr::Box(a, _) => {
            if worth(p, w, *a, x, after) {
                one_operand(p, w, e, *a, x, after, SValue::Boxed(Box::new(x)), after);
            }
        },
        Expr::Ref(a, _) => {
            if worth(p, w, *a, x, after) {
                one_operand(p, w, e, *a, x, after, SValue::Ref(Box::new(x)), after);
            }
        },
        Expr::Deref(a, _) => {
            let (b, r) = (SValue::Boxed(Box::new(x)), SValue::Ref(Box::new(x)));
            if worth(p, w, *a, b, after) {
                one_operand(p, w, e, *a, b, after, x, after);
            }
            if worth(p, w, *a, r, after) {
                one_operand(p, w, e, *a, r, after, x, after);
            }
        },
        _ => {},
    }
}

/// An assignment is worth the value, and binds the name to it.
pub proof fn assignments(p: Program, w: World, e: Expr, x: SValue, after: World)
    requires
        e matches Expr::Assign(name, a, span) && {
            &&& worth(p, w, *a, x, after)
            &&& lookup(after.env, name@) matches Some(b) && fits(p, x, b.1, span) == SCheck::Fine
        },
    ensures
        e matches Expr::Assign(name, _, _) && worth(
            p,
            w,
            e,
            x,
            World {
                env: assigned(after.env, name@, (x, (lookup(after.env, name@)->0).1)),
                ..after
            },
        ),
{
    if let Expr::Assign(name, a, _) = e {
        let last = World {
            env: assigned(after.env, name@, (x, (lookup(after.env, name@)->0).1)),
            ..after
        };
        one_operand(p, w, e, *a, x, after, x, last);
    }
}

/// The operands of an operator are evaluated from left to right, and the operator is applied
/// to their values.
pub proof fn operators(
    p: Program,
    w: World,
    op: BinOp,
    e: Expr,
    x: SValue,
    mid: World,
    y: SValue,
    after: World,
    v: SValue,
)
    requires
        op != BinOp::And,
        op != BinOp::Or,
        e matches Expr::Binary(o, l, r, span) && {
            &&& o == op
            &&& worth(p, w, *l, x, mid)
            &&& worth(p, mid, *r, y, after)
            &&& binary(op, x, y, span) == SAct::Done(SOutcome::Val(v))
        },
    ensures
        worth(p, w, e, v, after),
{
    if let Expr::Binary(_, l, r, span) = e {
        let none = Seq::<SValue>::empty();
        assert forall|fs: Seq<SFrame>| #[trigger]
            leads(p, state(SCtrl::Eval(e), fs, w), state(SCtrl::Ret(v), fs, after)) by {
            let s = state(SCtrl::Eval(e), fs, w);
            let f = SFrame::Args(e, none);
            let g = SFrame::Args(e, seq![x]);
            once(p, s);
            assert(step(p, s) == state(SCtrl::Eval(*l), fs.push(f), w));
            handed(p, fs, f, w, *l, x, mid);
            assert(none.push(x) =~= seq![x]);
            let t = state(SCtrl::Eval(*r), fs.push(g), mid);
            assert(give(p, f, x, state(SCtrl::Ret(x), fs, mid)) == t);
            onward(p, s, step(p, s), t);
            handed(p, fs, g, mid, *r, y, after);
            assert(seq![x].push(y) =~= seq![x, y]);
            let end = state(SCtrl::Ret(v), fs, after);
            assert(give(p, g, y, state(SCtrl::Ret(y), fs, after)) == end);
            onward(p, s, t, end);
        }
    }
}

/// `&&` is worth `false` where its left side is, and else what its right side is worth; `||`
/// is worth `true` where its left side is, and else what its right side is worth.
pub proof fn logic(p: Program, w: World, op: BinOp, e: Expr, x: bool, mid: World, y: bool, after: World)
    requires
        op == BinOp::And || op == BinOp::Or,
        e matches Expr::Binary(o, l, r, _) && o == op && worth(p, w, *l, SValue::Bool(x), mid) && (x == (
        op == BinOp::And) ==> worth(p, mid, *r, SValue::Bool(y), after)),
    ensures
        op == BinOp::And && !x ==> worth(p, w, e, SValue::Bool(false), mid),
        op == BinOp::And && x ==> worth(p, w, e, SValue::Bool(y), after),
        op == BinOp::Or && x ==> worth(p, w, e, SValue::Bool(true), mid),
        op == BinOp::Or && !x ==> worth(p, w, e, SValue::Bool(y), after),
{
    if let Expr::Binary(_, l, r, _) = e {
        let both = x == (op == BinOp::And);
        let (v, last) = if both {
            (SValue::Bool(y), after)
        } else {
            (SValue::Bool(x), mid)
        };
        assert forall|fs: Seq<SFrame>| #[trigger]
            leads(p, state(SCtrl::Eval(e), fs, w), state(SCtrl::Ret(v), fs, last)) by {
            let s = state(SCtrl::Eval(e), fs, w);
            let f = SFrame::Logic(e);
            once(p, s);
            assert(step(p, s) == state(SCtrl::Eval(*l), fs.push(f), w));
            handed(p, fs, f, w, *l, SValue::Bool(x), mid);
            let t = give(p, f, SValue::Bool(x), state(SCtrl::Ret(SValue::Bool(x)), fs, mid));
            onward(p, s, step(p, s), t);
            if both {
                let g = SFrame::LogicRight(e);
                assert(t == state(SCtrl::Eval(*r), fs.push(g), mid));
                handed(p, fs, g, mid, *r, SValue::Bool(y), after);
                onward(p, s, t, state(SCtrl::Ret(v), fs, last));
            }
        }
    }
}

/// A block runs in a scope of its own, which ends with it.
proof fn in_a_scope(p: Program, fs: Seq<SFrame>, w: World, stmts: Seq<Stmt>, v: SValue, after: World)
    requires
        ran(p, World { env: opened(w.env), ..w }, stmts, 0, SValue::Unit, v, after),
    ensures
        leads(
            p,
            state(
                SCtrl::Run(stmts, 0, SValue::Unit),
                fs.push(SFrame::Scope),
                World { env: opened(w.env), ..w },
            ),
            state(SCtrl::Ret(v), fs, World { env: closed(after.env), ..after }),
        ),
{
    ran_and_handed(p, fs, SFrame::Scope, World { env: opened(w.env), ..w }, stmts, v, after);
}

/// `if` runs its first block where its condition is worth `true`, and its second where that
/// is worth `false`; without a second block it is then worth nothing.
pub proof fn conditions(p: Program, w: World, e: Expr, b: bool, mid: World, v: SValue, after: World)
    requires
        e matches Expr::If { cond, .. } && worth(p, w, *cond, SValue::Bool(b), mid),
    ensures
        e matches Expr::If { then_block, else_block, .. } && {
            let inner = World { env: opened(mid.env), ..mid };
            let last = World { env: closed(after.env), ..after };
            &&& b && ran(p, inner, then_block.stmts@, 0, SValue::Unit, v, after) ==> worth(
                p,
                w,
                e,
                v,
                last,
            )
            &&& !b ==> match else_block {
                None => worth(p, w, e, SValue::Unit, mid),
                Some(x) => match *x {
                    ElseBranch::Block(y) => ran(p, inner, y.stmts@, 0, SValue::Unit, v, after)
                        ==> worth(p, w, e, v, last),
                    ElseBranch::If(y) => worth(p, mid, y, v, after) ==> worth(p, w, e, v, after),
                },
            }
        },
{
    if let Expr::If { cond, then_block, else_block, .. } = e {
        let inner = World { env: opened(mid.env), ..mid };
        let last = World { env: closed(after.env), ..after };
        let f = SFrame::Cond(e);
        assert forall|fs: Seq<SFrame>| leads(
            p,
            #[trigger] state(SCtrl::Eval(e), fs, w),
            give(p, f, SValue::Bool(b), state(SCtrl::Ret(SValue::Bool(b)), fs, mid)),
        ) by {
            let s = state(SCtrl::Eval(e), fs, w);
            once(p, s);
            assert(step(p, s) == state(SCtrl::Eval(*cond), fs.push(f), w));
            handed(p, fs, f, w, *cond, SValue::Bool(b), mid);
            onward(
                p,
                s,
                step(p, s),
                give(p, f, SValue::Bool(b), state(SCtrl::Ret(SValue::Bool(b)), fs, mid)),
            );
        }
        if b {
            branch_taken(p, w, e, mid, b, then_block.stmts@, v, after);
        } else {
            match else_block {
                None => {
                    assert forall|fs: Seq<SFrame>| #[trigger]
                        leads(
                            p,
                            state(SCtrl::Eval(e), fs, w),
                            state(SCtrl::Ret(SValue::Unit), fs, mid),
                        ) by {
                        assert(give(
                            p,
                            f,
                            SValue::Bool(b),
                            state(SCtrl::Ret(SValue::Bool(b)), fs, mid),
                        ) == state(SCtrl::Ret(SValue::Unit), fs, mid));
                    }
                },
                Some(x) => match *x {
                    ElseBranch::Block(y) => {
                        branch_taken(p, w, e, mid, b, y.stmts@, v, after);
                    },
                    ElseBranch::If(y) => {
                        if worth(p, mid, y, v, after) {
                            assert forall|fs: Seq<SFrame>| #[trigger]
                                leads(
                                    p,
                                    state(SCtrl::Eval(e), fs, w),
                                    state(SCtrl::Ret(v), fs, after),
                                ) by {
                                let t = state(SCtrl::Eval(y), fs, mid);
                                assert(give(
                                    p,
                                    f,
                                    SValue::Bool(b),
                                    state(SCtrl::Ret(SValue::Bool(b)), fs, mid),
                                ) == t);
                                assert(leads(p, t, state(SCtrl::Ret(v), fs, after)));
                                onward(
                                    p,
                                    state(SCtrl::Eval(e), fs, w),
                                    t,
                                    state(SCtrl::Ret(v), fs, after),
                                );
                            }
                        }
                    },
                },
            }
        }
    }
}

proof fn branch_taken(
    p: Program,
    w: World,
    e: Expr,
    mid: World,
    b: bool,
    stmts: Seq<Stmt>,
    v: SValue,
    after: World,
)
    requires
        forall|fs: Seq<SFrame>| leads(
            p,
            #[trigger] state(SCtrl::Eval(e), fs, w),
            give(p, SFrame::Cond(e), SValue::Bool(b), state(SCtrl::Ret(SValue::Bool(b)), fs, mid)),
        ),
        forall|fs: Seq<SFrame>|
            give(
                p,
                SFrame::Cond(e),
                SValue::Bool(b),
                #[trigger] state(SCtrl::Ret(SValue::Bool(b)), fs, mid),
            ) == state(
                SCtrl::Run(stmts, 0, SValue::Unit),
                fs.push(SFrame::Scope),
                World { env: opened(mid.env), ..mid },
            ),
    ensures
        ran(p, World { env: opened(mid.env), ..mid }, stmts, 0, SValue::Unit, v, after) ==> worth(
            p,
            w,
            e,
            v,
            World { env: closed(after.env), ..after },
        ),
{
    if ran(p, World { env: opened(mid.env), ..mid }, stmts, 0, SValue::Unit, v, after) {
        let last = World { env: closed(after.env), ..after };
        assert forall|fs: Seq<SFrame>| #[trigger]
            leads(p, state(SCtrl::Eval(e), fs, w), state(SCtrl::Ret(v), fs, last)) by {
            let s = state(SCtrl::Eval(e), fs, w);
            let r = state(SCtrl::Ret(SValue::Bool(b)), fs, mid);
            let t = give(p, SFrame::Cond(e), SValue::Bool(b), r);
            in_a_scope(p, fs, mid, stmts, v, after);
            onward(p, s, t, state(SCtrl::Ret(v), fs, last));
        }
    }
}

/// Statements: at their end they are worth what the last expression was. A `let` binds its
/// name for the statements behind it, an expression leaves its value for them.
pub proof fn statements(
    p: Program,
    w: World,
    stmts: Seq<Stmt>,
    i: int,
    last: SValue,
    x: SValue,
    mid: World,
    v: SValue,
    after: World,
)
    requires
        0 <= i <= stmts.len(),
    ensures
        i == stmts.len() ==> ran(p, w, stmts, i, last, last, w),
        i < stmts.len() ==> match stmts[i] {
            Stmt::Let { name, ty, value, span, .. } => worth(p, w, value, x, mid) && fits(
                p,
                x,
                ty@,
                span,
            ) == SCheck::Fine && ran(
                p,
                World { env: defined(mid.env, name@, (x, ty@)), ..mid },
                stmts,
                i + 1,
                SValue::Unit,
                v,
                after,
            ) ==> ran(p, w, stmts, i, last, v, after),
            Stmt::Expr(e) => worth(p, w, e, x, mid) && ran(p, mid, stmts, i + 1, x, v, after) ==> ran(
                p,
                w,
                stmts,
                i,
                last,
                v,
                after,
            ),
            _ => true,
        },
{
    if i == stmts.len() {
        assert forall|fs: Seq<SFrame>| #[trigger]
            leads(
                p,
                state(SCtrl::Run(stmts, i, last), fs, w),
                state(SCtrl::Ret(last), fs, w),
            ) by {
            once(p, state(SCtrl::Run(stmts, i, last), fs, w));
        }
    } else {
        match stmts[i] {
            Stmt::Let { name, ty, value, span, .. } => {
                let next = World { env: defined(mid.env, name@, (x, ty@)), ..mid };
                if worth(p, w, value, x, mid) && fits(p, x, ty@, span) == SCheck::Fine && ran(
                    p,
                    next,
                    stmts,
                    i + 1,
                    SValue::Unit,
                    v,
                    after,
                ) {
                    one_statement(p, w, stmts, i, last, value, x, mid, SValue::Unit, next, v, after);
                }
            },
            Stmt::Expr(e) => {
                if worth(p, w, e, x, mid) && ran(p, mid, stmts, i + 1, x, v, after) {
                    one_statement(p, w, stmts, i, last, e, x, mid, x, mid, v, after);
                }
            },
            _ => {},
        }
    }
}

proof fn one_statement(
    p: Program,
    w: World,
    stmts: Seq<Stmt>,
    i: int,
    last: SValue,
    e: Expr,
    x: SValue,
    mid: World,
    left: SValue,
    next: World,
    v: SValue,
    after: World,
)
    requires
        0 <= i < stmts.len(),
        worth(p, w, e, x, mid),
        ran(p, next, stmts, i + 1, left, v, after),
        forall|fs: Seq<SFrame>|
            run(p, stmts, i, last, #[trigger] state(SCtrl::Run(stmts, i, last), fs, w)) == state(
                SCtrl::Eval(e),
                fs.push(SFrame::Stmt(stmts, i)),
                w,
            ),
        forall|fs: Seq<SFrame>|
            stmt_value(p, stmts, i, x, #[trigger] state(SCtrl::Ret(x), fs, mid)) == state(
                SCtrl::Run(stmts, i + 1, left),
                fs,
                next,
            ),
    ensures
        ran(p, w, stmts, i, last, v, after),
{
    assert forall|fs: Seq<SFrame>| #[trigger]
        leads(p, state(SCtrl::Run(stmts, i, last), fs, w), state(SCtrl::Ret(v), fs, after)) by {
        let s = state(SCtrl::Run(stmts, i, last), fs, w);
        let f = SFrame::Stmt(stmts, i);
        once(p, s);
        assert(step(p, s) == state(SCtrl::Eval(e), fs.push(f), w));
        handed(p, fs, f, w, e, x, mid);
        let t = state(SCtrl::Run(stmts, i + 1, left), fs, next);
        assert(give(p, f, x, state(SCtrl::Ret(x), fs, mid)) == t);
        onward(p, s, step(p, s), t);
        assert(leads(p, t, state(SCtrl::Ret(v), fs, after)));
        onward(p, s, t, state(SCtrl::Ret(v), fs, after));
    }
}

/// `while` ends where its condition is worth `false`. Where that is worth `true`, its body
/// runs in a scope of its own, and the loop starts again.
pub proof fn loops(
    p: Program,
    w: World,
    stmts: Seq<Stmt>,
    i: int,
    last: SValue,
    b: bool,
    mid: World,
    x: SValue,
    turn: World,
    v: SValue,
    after: World,
)
    requires
        0 <= i < stmts.len(),
        stmts[i] matches Stmt::While { cond, .. } && worth(p, w, cond, SValue::Bool(b), mid),
    ensures
        !b && ran(p, mid, stmts, i + 1, SValue::Unit, v, after) ==> ran(
            p,
            w,
            stmts,
            i,
            last,
            v,
            after,
        ),
        stmts[i] matches Stmt::While { body, .. } && (b && ran(
            p,
            World { env: opened(mid.env), ..mid },
            body.stmts@,
            0,
            SValue::Unit,
            x,
            turn,
        ) && ran(
            p,
            World { env: closed(turn.env), ..turn },
            stmts,
            i,
            SValue::Unit,
            v,
            after,
        ) ==> ran(p, w, stmts, i, last, v, after)),
{
    if let Stmt::While { cond, body, .. } = stmts[i] {
        let inner = World { env: opened(mid.env), ..mid };
        let again = World { env: closed(turn.env), ..turn };
        if !b {
            if ran(p, mid, stmts, i + 1, SValue::Unit, v, after) {
                one_statement(
                    p,
                    w,
                    stmts,
                    i,
                    last,
                    cond,
                    SValue::Bool(false),
                    mid,
                    SValue::Unit,
                    mid,
                    v,
                    after,
                );
            }
        } else if ran(p, inner, body.stmts@, 0, SValue::Unit, x, turn) && ran(
            p,
            again,
            stmts,
            i,
            SValue::Unit,
            v,
            after,
        ) {
            assert forall|fs: Seq<SFrame>| #[trigger]
                leads(p, state(SCtrl::Run(stmts, i, last), fs, w), state(SCtrl::Ret(v), fs, after)) by {
                let s = state(SCtrl::Run(stmts, i, last), fs, w);
                let f = SFrame::Stmt(stmts, i);
                let l = SFrame::Loop(stmts, i);
                let end = state(SCtrl::Ret(v), fs, after);
                once(p, s);
                assert(step(p, s) == state(SCtrl::Eval(cond), fs.push(f), w));
                handed(p, fs, f, w, cond, SValue::Bool(true), mid);
                let t = state(SCtrl::Run(body.stmts@, 0, SValue::Unit), fs.push(l), inner);
                assert(give(
                    p,
                    f,
                    SValue::Bool(true),
                    state(SCtrl::Ret(SValue::Bool(true)), fs, mid),
                ) == t);
                onward(p, s, step(p, s), t);
                ran_and_handed(p, fs, l, inner, body.stmts@, x, turn);
                let u = state(SCtrl::Eval(cond), fs.push(f), again);
                assert(give(p, l, x, state(SCtrl::Ret(x), fs, turn)) == u);
                onward(p, s, t, u);
                let r = state(SCtrl::Run(stmts, i, SValue::Unit), fs, again);
                assert(leads(p, r, end));
                assert(step(p, r) == u);
                first_step(p, r, end);
                onward(p, s, u, end);
            }
        }
    }
}

/// Names: a name that has just been bound is worth what it was bound to, and no other name
/// changes; a new scope changes no name, and what was bound in it is gone behind it; an
/// assignment gives a bound name its value, and leaves the others.
pub proof fn names_are_bound(
    env: SEnv,
    name: Seq<char>,
    b: (SValue, STy),
    other: Seq<char>,
    c: (SValue, STy),
)
    requires
        env.len() > 0,
    ensures
        lookup(defined(env, name, b), name) == Some(b),
        other != name ==> lookup(defined(env, name, b), other) == lookup(env, other),
        lookup(opened(env), other) == lookup(env, other),
        closed(defined(opened(env), name, b)) == env,
        closed(opened(env)) == env,
        lookup(env, name) is Some ==> lookup(assigned(env, name, c), name) == Some(c),
        other != name ==> lookup(assigned(env, name, c), other) == lookup(env, other),
{
    assert(opened(env).drop_last() =~= env);
    assert(defined(opened(env), name, b).drop_last() =~= env);
    assert(defined(env, name, b).drop_last() =~= env.drop_last());
    assigned_names(env, name, other, c);
}

proof fn assigned_names(env: SEnv, name: Seq<char>, other: Seq<char>, c: (SValue, STy))
    ensures
        lookup(env, name) is Some ==> lookup(assigned(env, name, c), name) == Some(c),
        other != name ==> lookup(assigned(env, name, c), other) == lookup(env, other),
    decreases env.len(),
{
    if env.len() > 0 {
        assigned_names(env.drop_last(), name, other, c);
        let a = assigned(env, name, c);
        if env.last().dom().contains(name) {
            assert(a.drop_last() =~= env.drop_last());
        } else {
            assert(a.drop_last() =~= assigned(env.drop_last(), name, c));
        }
    }
}

/// `return` gives up what is left of the function, with the value of its expression.
pub proof fn functions_are_left(
    p: Program,
    w: World,
    stmts: Seq<Stmt>,
    i: int,
    last: SValue,
    v: SValue,
    after: World,
    fs: Seq<SFrame>,
)
    requires
        0 <= i < stmts.len(),
        stmts[i] matches Stmt::Return { value, .. } && (value matches Some(e) && worth(
            p,
            w,
            e,
            v,
            after,
        )),
    ensures
        leads(p, state(SCtrl::Run(stmts, i, last), fs, w), state(SCtrl::Unwind(v), fs, after)),
{
    if let Stmt::Return { value, .. } = stmts[i] {
        if let Some(e) = value {
            let s = state(SCtrl::Run(stmts, i, last), fs, w);
            let f = SFrame::Stmt(stmts, i);
            once(p, s);
            assert(step(p, s) == state(SCtrl::Eval(e), fs.push(f), w));
            handed(p, fs, f, w, e, v, after);
            assert(give(p, f, v, state(SCtrl::Ret(v), fs, after)) == state(
                SCtrl::Unwind(v),
                fs,
                after,
            ));
            onward(p, s, step(p, s), state(SCtrl::Unwind(v), fs, after));
        }
    }
}

/// A value that is returned goes past all that waits in the function, to the call: where it
/// is one of the function's type, the call is worth it, and the caller's names are back.
pub proof fn calls_get_what_is_returned(
    p: Program,
    v: SValue,
    w: World,
    fs: Seq<SFrame>,
    f: int,
    span: crate::token::Span,
    env: SEnv,
    gs: Seq<SFrame>,
)
    requires
        fits(p, v, p.fns@[f].ret@, span) == SCheck::Fine,
        forall|i: int| 0 <= i < gs.len() ==> !((#[trigger] gs[i]) is Call),
    ensures
        leads(
            p,
            state(SCtrl::Unwind(v), fs.push(SFrame::Call(f, span, env)) + gs, w),
            state(SCtrl::Ret(v), fs, World { env, ..w }),
        ),
    decreases gs.len(),
{
    let below = fs.push(SFrame::Call(f, span, env));
    let s = state(SCtrl::Unwind(v), below + gs, w);
    once(p, s);
    if gs.len() == 0 {
        assert(below + gs =~= below);
        on_top(fs, SFrame::Call(f, span, env));
    } else {
        let less = gs.drop_last();
        assert((below + gs).drop_last() =~= below + less);
        assert((below + gs).last() == gs[gs.len() - 1]);
        assert(step(p, s) == state(SCtrl::Unwind(v), below + less, w));
        assert forall|i: int| 0 <= i < less.len() implies !((#[trigger] less[i]) is Call) by {
            assert(less[i] == gs[i]);
        }
        calls_get_what_is_returned(p, v, w, fs, f, span, env, less);
        onward(p, s, step(p, s), state(SCtrl::Ret(v), fs, World { env, ..w }));
    }
}

/// A call runs the body of the function with its parameters bound to the arguments, and with
/// no other name.
pub proof fn calls_bind_parameters(
    p: Program,
    name: Seq<char>,
    vals: Seq<SValue>,
    span: crate::token::Span,
    s: SState,
    f: int,
    k: int,
)
    requires
        crate::registry::fn_named(p, name) == Some(f),
        p.fns@[f].params@.len() == vals.len(),
        crate::check::fit_each(p, vals, crate::machine::param_types(p.fns@[f]), span)
            == SCheck::Fine,
        0 <= k < vals.len(),
        forall|j: int|
            k < j < vals.len() ==> (#[trigger] p.fns@[f].params@[j]).name@
                != p.fns@[f].params@[k].name@,
    ensures
        ({
            let t = crate::machine::enter(p, name, vals, span, s);
            &&& t.ctrl == SCtrl::Run(p.fns@[f].body.stmts@, 0, SValue::Unit)
            &&& t.frames == s.frames.push(SFrame::Call(f, span, s.env))
            &&& lookup(t.env, p.fns@[f].params@[k].name@) == Some(
                (vals[k], p.fns@[f].params@[k].ty@),
            )
            &&& forall|other: Seq<char>|
                (forall|j: int|
                    0 <= j < vals.len() ==> (#[trigger] p.fns@[f].params@[j]).name@ != other)
                    ==> #[trigger] lookup(t.env, other) is None
        }),
{
    let d = p.fns@[f];
    let env = crate::machine::param_env(d, vals, vals.len());
    assert(opened(env).drop_last() =~= env);
    bound_parameters(d, vals, vals.len(), k);
    assert forall|other: Seq<char>|
        (forall|j: int| 0 <= j < vals.len() ==> (#[trigger] d.params@[j]).name@ != other) implies lookup(
        opened(env),
        other,
    ) is None by {
        unbound_names(d, vals, vals.len(), other);
    }
}

proof fn bound_parameters(d: crate::ast::FnDecl, vals: Seq<SValue>, n: nat, k: int)
    requires
        n <= vals.len(),
        d.params@.len() == vals.len(),
        0 <= k < n,
        forall|j: int| k < j < n ==> (#[trigger] d.params@[j]).name@ != d.params@[k].name@,
    ensures
        lookup(crate::machine::param_env(d, vals, n), d.params@[k].name@) == Some(
            (vals[k], d.params@[k].ty@),
        ),
        crate::machine::param_env(d, vals, n).len() == 1,
    decreases n,
{
    let m = (n - 1) as nat;
    one_scope(d, vals, m);
    let before = crate::machine::param_env(d, vals, m);
    names_are_bound(
        before,
        d.params@[n - 1].name@,
        (vals[n - 1], d.params@[n - 1].ty@),
        d.params@[k].name@,
        (vals[n - 1], d.params@[n - 1].ty@),
    );
    if k < n - 1 {
        bound_parameters(d, vals, m, k);
        assert(d.params@[n - 1].name@ != d.params@[k].name@);
    }
}

proof fn one_scope(d: crate::ast::FnDecl, vals: Seq<SValue>, n: nat)
    ensures
        crate::machine::param_env(d, vals, n).len() == 1,
    decreases n,
{
    if n > 0 {
        one_scope(d, vals, (n - 1) as nat);
    }
}

proof fn unbound_names(d: crate::ast::FnDecl, vals: Seq<SValue>, n: nat, other: Seq<char>)
    requires
        n <= vals.len(),
        forall|j: int| 0 <= j < vals.len() ==> (#[trigger] d.params@[j]).name@ != other,
    ensures
        lookup(crate::machine::param_env(d, vals, n), other) is None,
    decreases n,
{
    if n > 0 {
        let m = (n - 1) as nat;
        unbound_names(d, vals, m, other);
        one_scope(d, vals, m);
        let b = (vals[n - 1], d.params@[n - 1].ty@);
        assert(d.params@[n - 1].name@ != other);
        names_are_bound(
            crate::machine::param_env(d, vals, m),
            d.params@[n - 1].name@,
            b,
            other,
            b,
        );
    } else {
        let env = opened(Seq::<Map<Seq<char>, (SValue, STy)>>::empty());
        assert(env.drop_last() =~= Seq::empty());
        assert(env.last() == Map::<Seq<char>, (SValue, STy)>::empty());
        assert(lookup(env.drop_last(), other) is None);
        assert(lookup(env, other) is None);
    }
}

/// An index names an element of a vector or matrix, where it is in bounds; where it is not,
/// that is an error with the index and the length.
pub proof fn elements_are_indexed(
    e: Seq<SValue>,
    rows: usize,
    cols: usize,
    i: i64,
    j: i64,
    span: crate::token::Span,
)
    requires
        e.len() <= usize::MAX,
    ensures
        ({
            let r = indexed(seq![SValue::Vector(e), SValue::Int(i)], span);
            &&& 0 <= i < e.len() ==> r == SOutcome::Val(e[i as int])
            &&& !(0 <= i < e.len()) ==> (r matches SOutcome::Fail(x) && x.span == span && (
            x.kind matches crate::value::SErrorKind::IndexOutOfBounds { index, len } && index == i
                && len == e.len()))
        }),
        e.len() == rows * cols ==> {
            let r = indexed(
                seq![SValue::Matrix(e, rows, cols), SValue::Int(i), SValue::Int(j)],
                span,
            );
            &&& 0 <= i < rows && 0 <= j < cols ==> r == SOutcome::Val(e[i * cols + j])
            &&& !(0 <= i < rows) ==> (r matches SOutcome::Fail(x) && x.span == span && (
            x.kind matches crate::value::SErrorKind::IndexOutOfBounds { index, len } && index == i
                && len == rows))
            &&& 0 <= i < rows && !(0 <= j < cols) ==> (r matches SOutcome::Fail(x) && x.span == span
                && (x.kind matches crate::value::SErrorKind::IndexOutOfBounds { index, len } && index
                == j && len == cols))
        },
{
    let v = seq![SValue::Vector(e), SValue::Int(i)];
    let m = seq![SValue::Matrix(e, rows, cols), SValue::Int(i), SValue::Int(j)];
    assert(v[0] == SValue::Vector(e) && v[1] == SValue::Int(i));
    assert(m[0] == SValue::Matrix(e, rows, cols) && m[1] == SValue::Int(i) && m[2] == SValue::Int(j));
    if e.len() == rows * cols && 0 <= i < rows && 0 <= j < cols {
        assert(i * cols + j < rows * cols) by (nonlinear_arith)
            requires
                0 <= i < rows,
                0 <= j < cols,
        ;
    }
}

/// A field of a struct is the value that stands in its place.
pub proof fn fields_are_found(p: Program, n: Seq<char>, f: Seq<SValue>, name: Seq<char>, i: int, k: int)
    requires
        crate::registry::struct_named(p, n) == Some(i),
        crate::registry::field_named(p.structs@[i], name) == Some(k),
        0 <= k < f.len(),
    ensures
        crate::machine::field(p, SValue::Struct(n, f), name) == SOutcome::Val(f[k]),
{
}

/// An array literal holds its elements; where they are rows, it is the matrix of the rows, one
/// after the other.
pub proof fn arrays_hold_their_elements(vals: Seq<SValue>, c: nat, i: int, j: int)
    ensures
        vals.len() == 0 || !(vals[0] is Vector) ==> crate::machine::array(vals) == SOutcome::Val(
            SValue::Vector(vals),
        ),
        vals.len() <= usize::MAX && c <= usize::MAX && 0 <= i < vals.len() && 0 <= j < c && (forall|
            k: int,
        |
            0 <= k < vals.len() ==> (#[trigger] vals[k]) is Vector && vals[k]->Vector_0.len() == c)
            ==> (crate::machine::array(vals) matches SOutcome::Val(SValue::Matrix(e, rows, cols))
            && rows == vals.len() && cols == c && e.len() == rows * cols && e[i * c + j]
            == vals[i]->Vector_0[j]),
{
    if 0 <= i < vals.len() && 0 <= j < c && (forall|k: int|
        0 <= k < vals.len() ==> (#[trigger] vals[k]) is Vector && vals[k]->Vector_0.len() == c) {
        assert(vals[0] is Vector);
        rows_in_order(vals, c, i, j);
    }
}

proof fn rows_in_order(vals: Seq<SValue>, c: nat, i: int, j: int)
    requires
        forall|k: int|
            0 <= k < vals.len() ==> (#[trigger] vals[k]) is Vector && vals[k]->Vector_0.len() == c,
        0 <= j < c,
    ensures
        crate::machine::flattened(vals) matches Some(e) && e.len() == vals.len() * c && (0 <= i
            < vals.len() ==> e[i * c + j] == vals[i]->Vector_0[j]),
    decreases vals.len(),
{
    if vals.len() > 0 {
        let rest = vals.drop_last();
        let n = rest.len();
        assert forall|k: int| 0 <= k < rest.len() implies (#[trigger] rest[k]) is Vector
            && rest[k]->Vector_0.len() == c by {
            assert(rest[k] == vals[k]);
        }
        rows_in_order(rest, c, i, j);
        assert(vals.last() == vals[n as int]);
        assert(vals.len() * c == n * c + c) by (nonlinear_arith)
            requires
                vals.len() == n + 1,
        ;
        if 0 <= i < n {
            assert(rest[i] == vals[i]);
            assert(i * c + j < n * c) by (nonlinear_arith)
                requires
                    0 <= i < n,
                    0 <= j < c,
            ;
            assert(0 <= i * c) by (nonlinear_arith)
                requires
                    0 <= i,
                    0 <= c,
            ;
        }
    } else {
        assert(vals.len() * c == 0) by (nonlinear_arith)
            requires
                vals.len() == 0,
        ;
    }
}

/// `match` goes on with the first arm for the variant of the value, in a scope in which the
/// names of the arm are bound to what the variant carries.
pub proof fn arms_are_chosen(
    p: Program,
    e: Expr,
    s: SState,
    owner: Seq<char>,
    variant: Seq<char>,
    payload: Seq<SValue>,
    i: int,
    d: (int, int),
    k: int,
)
    requires
        crate::registry::variant_named(p, variant) == Some(d),
        p.enums@[d.0].variants@[d.1].payload@.len() == payload.len(),
        e matches Expr::Match { arms, .. } && {
            &&& 0 <= i < arms@.len()
            &&& arms@[i].variant@ == variant
            &&& forall|j: int| 0 <= j < i ==> (#[trigger] arms@[j]).variant@ != variant
            &&& arms@[i].bindings@.len() == payload.len()
            &&& forall|j: int|
                k < j < payload.len() ==> (#[trigger] arms@[i].bindings@[j])@
                    != arms@[i].bindings@[k]@
        },
        0 <= k < payload.len(),
    ensures
        e matches Expr::Match { arms, .. } && {
            let t = crate::machine::choose_arm(
                p,
                e,
                SValue::Enum(owner, variant, payload),
                s,
            );
            &&& t.ctrl == SCtrl::Eval(*arms@[i].body)
            &&& t.frames == s.frames.push(SFrame::Scope)
            &&& lookup(t.env, arms@[i].bindings@[k]@) matches Some(b) && b.0 == payload[k]
        },
{
    if let Expr::Match { arms, .. } = e {
        first_arm(arms@, variant, i, 0);
        let types = p.enums@[d.0].variants@[d.1].payload@;
        bound_names(s.env, arms@[i].bindings@, payload, types, payload.len(), k);
    }
}

proof fn first_arm(arms: Seq<crate::ast::MatchArm>, variant: Seq<char>, i: int, from: int)
    requires
        0 <= from <= i < arms.len(),
        arms[i].variant@ == variant,
        forall|j: int| 0 <= j < i ==> (#[trigger] arms[j]).variant@ != variant,
    ensures
        crate::machine::arm_for(arms, variant, from) == Some(i),
    decreases i - from,
{
    if from < i {
        assert(arms[from].variant@ != variant);
        first_arm(arms, variant, i, from + 1);
    }
}

proof fn arm_scopes(
    env: SEnv,
    names: Seq<String>,
    payload: Seq<SValue>,
    types: Seq<crate::ast::Ty>,
    n: nat,
)
    ensures
        crate::machine::arm_env(env, names, payload, types, n).len() > 0,
    decreases n,
{
    if n > 0 {
        arm_scopes(env, names, payload, types, (n - 1) as nat);
    }
}

proof fn bound_names(
    env: SEnv,
    names: Seq<String>,
    payload: Seq<SValue>,
    types: Seq<crate::ast::Ty>,
    n: nat,
    k: int,
)
    requires
        0 <= k < n,
        n <= names.len(),
        n <= payload.len(),
        forall|j: int| k < j < n ==> (#[trigger] names[j])@ != names[k]@,
    ensures
        lookup(crate::machine::arm_env(env, names, payload, types, n), names[k]@) matches Some(b) && b.0
            == payload[k],
    decreases n,
{
    let m = (n - 1) as nat;
    let before = crate::machine::arm_env(env, names, payload, types, m);
    let b = (payload[n - 1], types[n - 1]@);
    arm_scopes(env, names, payload, types, m);
    names_are_bound(before, names[n - 1]@, b, names[k]@, b);
    if k < n - 1 {
        assert(names[n - 1]@ != names[k]@);
        bound_names(env, names, payload, types, m, k);
    }
}

} // verus!
