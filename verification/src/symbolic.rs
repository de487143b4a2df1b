//! Functions over integers, run on values and run on terms.
//!
//! A modelled function has integer locals, `+ - *`, comparisons, `if` and `return`.
//! `run_*` says what it does on values; `walk_*` follows it on terms and notes each
//! `return` with all that holds where it is reached. Values are mathematical
//! integers: that a machine sum may leave its type is not modelled, but for the
//! range that a `let` declares.
use crate::ast::{
    BinOp, Block, ElseBranch, Expr, STy, Stmt, Ty, UnOp, greatest, integer, least, name_of,
};
use crate::scopes::{
    Duplicate, Scopes, defined, lookup, opened,
};
use crate::shown::{expr_shown, show_expr};
use crate::terms::{
    BoolTerm, IntTerm, cases, conjoin, copy_terms,
};
use crate::text::{cat3, cat5};
use vstd::prelude::*;
use vstd::string::*;

verus! {

/// What running a part of a function comes to.
pub ghost enum Ev<T> {
    /// The part ends here, with this.
    Val(T),
    /// The function returns this.
    Ret(int),
    /// The function stops without a result: a `let` is out of its range, or a
    /// `return` has no value.
    Stop,
    /// The part is not modelled.
    Bad,
}

/// The values of the names in scope.
pub type Env = Seq<Map<Seq<char>, int>>;

/// The variables of the names in scope.
pub type Vars = Seq<Map<Seq<char>, u64>>;

/// Whether `==` on this operand compares truth values.
pub open spec fn bool_shaped(e: Expr) -> bool {
    match e {
        Expr::Bool(_, _) => true,
        Expr::Unary(UnOp::Not, _, _) => true,
        Expr::Binary(op, _, _, _) => match op {
            BinOp::And
            | BinOp::Or
            | BinOp::Eq
            | BinOp::NotEq
            | BinOp::Lt
            | BinOp::Gt
            | BinOp::LtEq
            | BinOp::GtEq => true,
            _ => false,
        },
        _ => false,
    }
}

pub fn is_bool_shaped(e: &Expr) -> (r: bool)
    ensures
        r == bool_shaped(*e),
{
    match e {
        Expr::Bool(_, _) => true,
        Expr::Unary(UnOp::Not, _, _) => true,
        Expr::Binary(op, _, _, _) => matches!(
            op,
            BinOp::And
            | BinOp::Or
            | BinOp::Eq
            | BinOp::NotEq
            | BinOp::Lt
            | BinOp::Gt
            | BinOp::LtEq
            | BinOp::GtEq
        ),
        _ => false,
    }
}

/// The comparison of two integers.
pub open spec fn compared(op: BinOp, a: int, b: int) -> bool {
    match op {
        BinOp::Eq => a == b,
        BinOp::NotEq => a != b,
        BinOp::Lt => a < b,
        BinOp::Gt => a > b,
        BinOp::LtEq => a <= b,
        _ => a >= b,
    }
}

pub open spec fn is_comparison(op: BinOp) -> bool {
    op is Eq || op is NotEq || op is Lt || op is Gt || op is LtEq || op is GtEq
}

pub open spec fn is_arith(op: BinOp) -> bool {
    op is Add || op is Sub || op is Mul
}

pub open spec fn computed(op: BinOp, a: int, b: int) -> int {
    match op {
        BinOp::Add => a + b,
        BinOp::Sub => a - b,
        _ => a * b,
    }
}

/// The value of an integer expression. `pred` says that it belongs to a predicate,
/// where no range is checked and nothing returns.
pub open spec fn run_int(pred: bool, sc: Env, e: Expr) -> Ev<int>
    decreases e, 1nat,
{
    match e {
        Expr::Int(n, _) => Ev::Val(n as int),
        Expr::Ident(name, _) => match lookup(sc, name@) {
            Some(n) => Ev::Val(n),
            None => Ev::Bad,
        },
        Expr::Unary(UnOp::Neg, a, _) => match run_int(pred, sc, *a) {
            Ev::Val(n) => Ev::Val(-n),
            o => o,
        },
        Expr::Binary(op, l, r, _) => if is_arith(op) {
            match run_int(pred, sc, *l) {
                Ev::Val(a) => match run_int(pred, sc, *r) {
                    Ev::Val(b) => Ev::Val(computed(op, a, b)),
                    o => o,
                },
                o => o,
            }
        } else {
            Ev::Bad
        },
        Expr::If { cond, then_block, else_block, .. } => match run_bool(pred, sc, *cond) {
            Ev::Val(c) => if c {
                run_value(pred, opened(sc), then_block.stmts@)
            } else {
                match else_block {
                    Some(x) => match *x {
                        ElseBranch::Block(b) => run_value(pred, opened(sc), b.stmts@),
                        ElseBranch::If(y) => run_int(pred, sc, y),
                    },
                    None => Ev::Bad,
                }
            },
            Ev::Ret(v) => Ev::Ret(v),
            Ev::Stop => Ev::Stop,
            Ev::Bad => Ev::Bad,
        },
        _ => Ev::Bad,
    }
}

/// The value of a block: that of its last expression.
pub open spec fn run_value(pred: bool, sc: Env, v: Seq<Stmt>) -> Ev<int>
    decreases v, v.len(),
{
    if v.len() == 0 {
        Ev::Bad
    } else {
        match v[v.len() - 1] {
            Stmt::Expr(e) => match run_stmts(pred, sc, v, (v.len() - 1) as nat) {
                Ev::Val(s) => run_int(pred, s, e),
                Ev::Ret(x) => Ev::Ret(x),
                Ev::Stop => Ev::Stop,
                Ev::Bad => Ev::Bad,
            },
            _ => Ev::Bad,
        }
    }
}

/// The value of a truth-valued expression.
pub open spec fn run_bool(pred: bool, sc: Env, e: Expr) -> Ev<bool>
    decreases e, 1nat,
{
    match e {
        Expr::Bool(b, _) => Ev::Val(b),
        Expr::Unary(UnOp::Not, a, _) => match run_bool(pred, sc, *a) {
            Ev::Val(b) => Ev::Val(!b),
            o => o,
        },
        Expr::Binary(op, l, r, _) => if op is And || op is Or {
            match run_bool(pred, sc, *l) {
                Ev::Val(a) => if a == (op is And) {
                    run_bool(pred, sc, *r)
                } else {
                    Ev::Val(a)
                },
                o => o,
            }
        } else if !is_comparison(op) {
            Ev::Bad
        } else if (op is Eq || op is NotEq) && bool_shaped(*l) && bool_shaped(*r) {
            match run_bool(pred, sc, *l) {
                Ev::Val(a) => match run_bool(pred, sc, *r) {
                    Ev::Val(b) => Ev::Val((a == b) == (op is Eq)),
                    o => o,
                },
                o => o,
            }
        } else {
            match run_int(pred, sc, *l) {
                Ev::Val(a) => match run_int(pred, sc, *r) {
                    Ev::Val(b) => Ev::Val(compared(op, a, b)),
                    Ev::Ret(x) => Ev::Ret(x),
                    Ev::Stop => Ev::Stop,
                    Ev::Bad => Ev::Bad,
                },
                Ev::Ret(x) => Ev::Ret(x),
                Ev::Stop => Ev::Stop,
                Ev::Bad => Ev::Bad,
            }
        },
        _ => Ev::Bad,
    }
}

/// The scopes behind the first `n` statements.
pub open spec fn run_stmts(pred: bool, sc: Env, v: Seq<Stmt>, n: nat) -> Ev<Env>
    decreases v, n,
{
    if n == 0 || n > v.len() {
        Ev::Val(sc)
    } else {
        match run_stmts(pred, sc, v, (n - 1) as nat) {
            Ev::Val(s) => run_stmt(pred, s, v[n - 1]),
            o => o,
        }
    }
}

/// The scopes behind a statement.
pub open spec fn run_stmt(pred: bool, sc: Env, s: Stmt) -> Ev<Env>
    decreases s, 1nat,
{
    match s {
        Stmt::Let { name, ty, value, .. } => if !integer(ty@) {
            Ev::Bad
        } else {
            match run_int(pred, sc, value) {
                Ev::Val(n) => if pred || least(ty@) <= n <= greatest(ty@) {
                    Ev::Val(defined(sc, name@, n))
                } else {
                    Ev::Stop
                },
                Ev::Ret(x) => Ev::Ret(x),
                Ev::Stop => Ev::Stop,
                Ev::Bad => Ev::Bad,
            }
        },
        Stmt::Return { value, .. } => if pred {
            Ev::Bad
        } else {
            match value {
                Some(e) => match run_int(pred, sc, e) {
                    Ev::Val(n) => Ev::Ret(n),
                    Ev::Ret(x) => Ev::Ret(x),
                    Ev::Stop => Ev::Stop,
                    Ev::Bad => Ev::Bad,
                },
                None => Ev::Stop,
            }
        },
        Stmt::Expr(e) => match run_branch(pred, sc, e) {
            Ev::Val(_) => Ev::Val(sc),
            Ev::Ret(x) => Ev::Ret(x),
            Ev::Stop => Ev::Stop,
            Ev::Bad => Ev::Bad,
        },
        Stmt::While { .. } => Ev::Bad,
        Stmt::Audited { body, .. } => match run_stmts(pred, opened(sc), body@, body@.len()) {
            Ev::Val(_) => Ev::Val(sc),
            o => o,
        },
    }
}

/// An expression that is run for what it does.
pub open spec fn run_branch(pred: bool, sc: Env, e: Expr) -> Ev<()>
    decreases e, 2nat,
{
    match e {
        Expr::If { cond, then_block, else_block, .. } => match run_bool(pred, sc, *cond) {
            Ev::Val(c) => if c {
                ran(run_stmts(pred, opened(sc), then_block.stmts@, then_block.stmts@.len()))
            } else {
                match else_block {
                    Some(x) => match *x {
                        ElseBranch::Block(b) => ran(
                            run_stmts(pred, opened(sc), b.stmts@, b.stmts@.len()),
                        ),
                        ElseBranch::If(y) => run_branch(pred, sc, y),
                    },
                    None => Ev::Val(()),
                }
            },
            o => ran(o),
        },
        _ => ran(run_int(pred, sc, e)),
    }
}

/// What a part comes to, without its value.
pub open spec fn ran<T>(o: Ev<T>) -> Ev<()> {
    match o {
        Ev::Val(_) => Ev::Val(()),
        Ev::Ret(x) => Ev::Ret(x),
        Ev::Stop => Ev::Stop,
        Ev::Bad => Ev::Bad,
    }
}

/// A `return`: what holds where it is reached, the variable of its value, and the
/// names in scope.
pub ghost struct SRet {
    pub path: Seq<BoolTerm>,
    pub next: u64,
    pub result: u64,
    pub scopes: Vars,
}

/// A walk under way: the number of the next variable, what holds here, and the
/// returns so far.
pub ghost struct Walk {
    pub next: u64,
    pub path: Seq<BoolTerm>,
    pub rets: Seq<SRet>,
}

/// What a walk over a part comes to. One that fails keeps the returns before it.
pub ghost enum Sym<T> {
    Done(Walk, T),
    Fail(Seq<SRet>, Seq<char>),
}

/// The same walk with one more claim.
pub open spec fn assuming(w: Walk, c: BoolTerm) -> Walk {
    Walk { path: w.path.push(c), ..w }
}

/// What was claimed since the first `n` claims.
pub open spec fn since(w: Walk, n: nat) -> Seq<BoolTerm> {
    w.path.subrange(n as int, w.path.len() as int)
}

/// Behind two cases that both started with the claims `path`.
pub open spec fn rejoin(path: Seq<BoolTerm>, c: BoolTerm, a: Walk, b: Walk) -> Walk {
    Walk {
        path: path.push(cases(c, since(a, path.len() + 1), since(b, path.len() + 1))),
        ..b
    }
}

pub open spec fn negated(c: BoolTerm) -> BoolTerm {
    BoolTerm::Not(Box::new(c))
}

pub open spec fn not_int(e: Expr) -> Seq<char> {
    "Tier 1 doesn't model `"@ + expr_shown(e) + "` — only integer literals/identifiers, +-*, and if/else are supported"@
}

pub open spec fn not_bool(e: Expr) -> Seq<char> {
    "Tier 1 doesn't model `"@ + expr_shown(e) + "` as a boolean expression — only comparisons, `&&`/`||`/`!`, and a boolean-shaped `==`/`!=` are supported"@
}

pub open spec fn too_many() -> Seq<char> {
    "Tier 1 can't number any more locals"@
}

/// The term of an arithmetic operator.
pub open spec fn arith_term(op: BinOp, a: IntTerm, b: IntTerm) -> IntTerm {
    match op {
        BinOp::Add => IntTerm::Add(Box::new(a), Box::new(b)),
        BinOp::Sub => IntTerm::Sub(Box::new(a), Box::new(b)),
        _ => IntTerm::Mul(Box::new(a), Box::new(b)),
    }
}

/// The claim of a comparison.
pub open spec fn compare_term(op: BinOp, a: IntTerm, b: IntTerm) -> BoolTerm {
    match op {
        BinOp::Eq => BoolTerm::Eq(Box::new(a), Box::new(b)),
        BinOp::NotEq => negated(BoolTerm::Eq(Box::new(a), Box::new(b))),
        BinOp::Lt => BoolTerm::Lt(Box::new(a), Box::new(b)),
        BinOp::Gt => BoolTerm::Gt(Box::new(a), Box::new(b)),
        BinOp::LtEq => BoolTerm::Le(Box::new(a), Box::new(b)),
        _ => BoolTerm::Ge(Box::new(a), Box::new(b)),
    }
}

/// The claim of an equality of truth values.
pub open spec fn iff_term(op: BinOp, a: BoolTerm, b: BoolTerm) -> BoolTerm {
    if op is Eq {
        BoolTerm::Iff(Box::new(a), Box::new(b))
    } else {
        negated(BoolTerm::Iff(Box::new(a), Box::new(b)))
    }
}

/// Behind a `&&` or `||` whose right side was followed, as `b`, in the case that
/// the left side leaves it open.
pub open spec fn logic(op: BinOp, path: Seq<BoolTerm>, l: BoolTerm, b: Walk, r: BoolTerm) -> Sym<
    BoolTerm,
> {
    let more = since(b, path.len() + 1);
    if op is And {
        Sym::Done(
            Walk { path: path.push(cases(l, more, Seq::empty())), ..b },
            BoolTerm::And(Box::new(l), Box::new(r)),
        )
    } else {
        Sym::Done(
            Walk { path: path.push(cases(l, Seq::empty(), more)), ..b },
            BoolTerm::Or(Box::new(l), Box::new(r)),
        )
    }
}

/// Follows an integer expression.
pub open spec fn walk_int(pred: bool, w: Walk, sc: Vars, e: Expr) -> Sym<IntTerm>
    decreases e, 1nat,
{
    match e {
        Expr::Int(n, _) => Sym::Done(w, IntTerm::Lit(n)),
        Expr::Ident(name, _) => match lookup(sc, name@) {
            Some(k) => Sym::Done(w, IntTerm::Var(k)),
            None => Sym::Fail(w.rets, "unbound identifier `"@ + name@ + "`"@),
        },
        Expr::Unary(UnOp::Neg, a, _) => match walk_int(pred, w, sc, *a) {
            Sym::Done(x, t) => Sym::Done(x, IntTerm::Neg(Box::new(t))),
            Sym::Fail(x, m) => Sym::Fail(x, m),
        },
        Expr::Binary(op, l, r, _) => if is_arith(op) {
            match walk_int(pred, w, sc, *l) {
                Sym::Fail(x, m) => Sym::Fail(x, m),
                Sym::Done(x, a) => match walk_int(pred, x, sc, *r) {
                    Sym::Fail(y, m) => Sym::Fail(y, m),
                    Sym::Done(y, b) => Sym::Done(y, arith_term(op, a, b)),
                },
            }
        } else if op is Div {
            Sym::Fail(
                w.rets,
                "Tier 1 doesn't model division's result (integer-truncation semantics, same conservative choice smt.rs makes)"@,
            )
        } else {
            Sym::Fail(w.rets, not_int(e))
        },
        Expr::If { cond, then_block, else_block, .. } => match walk_bool(pred, w, sc, *cond) {
            Sym::Fail(x, m) => Sym::Fail(x, m),
            Sym::Done(x, c) => match walk_value(
                pred,
                assuming(x, c),
                opened(sc),
                then_block.stmts@,
            ) {
                Sym::Fail(y, m) => Sym::Fail(y, m),
                Sym::Done(y, a) => {
                    let z = Walk { path: x.path.push(negated(c)), ..y };
                    let other = match else_block {
                        Some(q) => match *q {
                            ElseBranch::Block(b) => walk_value(pred, z, opened(sc), b.stmts@),
                            ElseBranch::If(f) => walk_int(pred, z, sc, f),
                        },
                        None => Sym::Fail(
                            z.rets,
                            "Tier 1 needs a value-position `if` to have an `else`"@,
                        ),
                    };
                    match other {
                        Sym::Fail(u, m) => Sym::Fail(u, m),
                        Sym::Done(u, b) => Sym::Done(
                            rejoin(x.path, c, y, u),
                            IntTerm::Ite(Box::new(c), Box::new(a), Box::new(b)),
                        ),
                    }
                }
            },
        },
        _ => Sym::Fail(w.rets, not_int(e)),
    }
}

/// Follows a block for its value.
pub open spec fn walk_value(pred: bool, w: Walk, sc: Vars, v: Seq<Stmt>) -> Sym<IntTerm>
    decreases v, v.len(),
{
    let none = "Tier 1 needs a value-position `if`'s branch to end in a bare expression"@;
    if v.len() == 0 {
        Sym::Fail(w.rets, none)
    } else {
        match v[v.len() - 1] {
            Stmt::Expr(e) => match walk_stmts(pred, w, sc, v, (v.len() - 1) as nat) {
                Sym::Done(x, s) => walk_int(pred, x, s, e),
                Sym::Fail(x, m) => Sym::Fail(x, m),
            },
            _ => Sym::Fail(w.rets, none),
        }
    }
}

/// Follows a truth-valued expression.
pub open spec fn walk_bool(pred: bool, w: Walk, sc: Vars, e: Expr) -> Sym<BoolTerm>
    decreases e, 1nat,
{
    match e {
        Expr::Bool(b, _) => Sym::Done(w, BoolTerm::Lit(b)),
        Expr::Unary(UnOp::Not, a, _) => match walk_bool(pred, w, sc, *a) {
            Sym::Done(x, t) => Sym::Done(x, negated(t)),
            Sym::Fail(x, m) => Sym::Fail(x, m),
        },
        Expr::Binary(op, l, r, _) => if op is And || op is Or {
            match walk_bool(pred, w, sc, *l) {
                Sym::Fail(x, m) => Sym::Fail(x, m),
                Sym::Done(x, a) => match walk_bool(
                    pred,
                    assuming(
                        x,
                        if op is And {
                            a
                        } else {
                            negated(a)
                        },
                    ),
                    sc,
                    *r,
                ) {
                    Sym::Fail(y, m) => Sym::Fail(y, m),
                    Sym::Done(y, b) => logic(op, x.path, a, y, b),
                },
            }
        } else if !is_comparison(op) {
            Sym::Fail(w.rets, not_bool(e))
        } else if (op is Eq || op is NotEq) && bool_shaped(*l) && bool_shaped(*r) {
            match walk_bool(pred, w, sc, *l) {
                Sym::Fail(x, m) => Sym::Fail(x, m),
                Sym::Done(x, a) => match walk_bool(pred, x, sc, *r) {
                    Sym::Fail(y, m) => Sym::Fail(y, m),
                    Sym::Done(y, b) => Sym::Done(y, iff_term(op, a, b)),
                },
            }
        } else {
            match walk_int(pred, w, sc, *l) {
                Sym::Fail(x, m) => Sym::Fail(x, m),
                Sym::Done(x, a) => match walk_int(pred, x, sc, *r) {
                    Sym::Fail(y, m) => Sym::Fail(y, m),
                    Sym::Done(y, b) => Sym::Done(y, compare_term(op, a, b)),
                },
            }
        },
        _ => Sym::Fail(w.rets, not_bool(e)),
    }
}

/// Follows the first `n` statements.
pub open spec fn walk_stmts(pred: bool, w: Walk, sc: Vars, v: Seq<Stmt>, n: nat) -> Sym<Vars>
    decreases v, n,
{
    if n == 0 || n > v.len() {
        Sym::Done(w, sc)
    } else {
        match walk_stmts(pred, w, sc, v, (n - 1) as nat) {
            Sym::Done(x, s) => walk_stmt(pred, x, s, v[n - 1]),
            Sym::Fail(x, m) => Sym::Fail(x, m),
        }
    }
}

/// A variable for `t`, with the claim that it is `t`.
pub open spec fn named(w: Walk, t: IntTerm) -> Walk {
    Walk {
        next: (w.next + 1) as u64,
        path: w.path.push(BoolTerm::Eq(Box::new(IntTerm::Var(w.next)), Box::new(t))),
        ..w
    }
}

/// The claim that a variable lies in the range of a type.
pub open spec fn ranged(w: Walk, k: u64, t: STy) -> Walk {
    Walk {
        path: w.path.push(
            BoolTerm::Ge(Box::new(IntTerm::Var(k)), Box::new(IntTerm::Lit(least(t) as i64))),
        ).push(
            BoolTerm::Le(Box::new(IntTerm::Var(k)), Box::new(IntTerm::Lit(greatest(t) as i64))),
        ),
        ..w
    }
}

/// Behind a `return` of `t`: nothing is reached there.
pub open spec fn returned(w: Walk, sc: Vars, t: IntTerm) -> Walk {
    let x = named(w, t);
    Walk {
        path: x.path.push(BoolTerm::Lit(false)),
        rets: x.rets.push(SRet { path: x.path, next: x.next, result: w.next, scopes: sc }),
        ..x
    }
}

/// Follows a statement.
pub open spec fn walk_stmt(pred: bool, w: Walk, sc: Vars, s: Stmt) -> Sym<Vars>
    decreases s, 1nat,
{
    match s {
        Stmt::Let { name, ty, value, .. } => if !integer(ty@) {
            Sym::Fail(
                w.rets,
                "`let "@ + name@ + ": "@ + name_of(ty@) + "` — Tier 1 only models integer locals"@,
            )
        } else {
            match walk_int(pred, w, sc, value) {
                Sym::Fail(x, m) => Sym::Fail(x, m),
                Sym::Done(x, t) => if x.next == u64::MAX {
                    Sym::Fail(x.rets, too_many())
                } else if pred {
                    Sym::Done(named(x, t), defined(sc, name@, x.next))
                } else {
                    Sym::Done(ranged(named(x, t), x.next, ty@), defined(sc, name@, x.next))
                },
            }
        },
        Stmt::Return { value, .. } => if pred {
            Sym::Fail(w.rets, "Tier 1 doesn't model `return` in a predicate"@)
        } else {
            match value {
                Some(e) => match walk_int(pred, w, sc, e) {
                    Sym::Fail(x, m) => Sym::Fail(x, m),
                    Sym::Done(x, t) => if x.next == u64::MAX {
                        Sym::Fail(x.rets, too_many())
                    } else {
                        Sym::Done(returned(x, sc, t), sc)
                    },
                },
                None => Sym::Done(assuming(w, BoolTerm::Lit(false)), sc),
            }
        },
        Stmt::Expr(e) => match walk_branch(pred, w, sc, e) {
            Sym::Done(x, _) => Sym::Done(x, sc),
            Sym::Fail(x, m) => Sym::Fail(x, m),
        },
        Stmt::While { .. } => Sym::Fail(
            w.rets,
            "Tier 1 doesn't model loops (no invariant synthesis, same conservative choice smt.rs's own Tier-1 pass makes)"@,
        ),
        Stmt::Audited { body, .. } => match walk_stmts(
            pred,
            w,
            opened(sc),
            body@,
            body@.len(),
        ) {
            Sym::Done(x, _) => Sym::Done(x, sc),
            Sym::Fail(x, m) => Sym::Fail(x, m),
        },
    }
}

/// What a walk comes to, without its result.
pub open spec fn walked<T>(o: Sym<T>) -> Sym<()> {
    match o {
        Sym::Done(x, _) => Sym::Done(x, ()),
        Sym::Fail(x, m) => Sym::Fail(x, m),
    }
}

/// Follows an expression for what it does.
pub open spec fn walk_branch(pred: bool, w: Walk, sc: Vars, e: Expr) -> Sym<()>
    decreases e, 2nat,
{
    match e {
        Expr::If { cond, then_block, else_block, .. } => match walk_bool(pred, w, sc, *cond) {
            Sym::Fail(x, m) => Sym::Fail(x, m),
            Sym::Done(x, c) => match walk_stmts(
                pred,
                assuming(x, c),
                opened(sc),
                then_block.stmts@,
                then_block.stmts@.len(),
            ) {
                Sym::Fail(y, m) => Sym::Fail(y, m),
                Sym::Done(y, _) => {
                    let z = Walk { path: x.path.push(negated(c)), ..y };
                    let other = match else_block {
                        Some(q) => match *q {
                            ElseBranch::Block(b) => walked(
                                walk_stmts(pred, z, opened(sc), b.stmts@, b.stmts@.len()),
                            ),
                            ElseBranch::If(f) => walk_branch(pred, z, sc, f),
                        },
                        None => Sym::Done(z, ()),
                    };
                    match other {
                        Sym::Fail(u, m) => Sym::Fail(u, m),
                        Sym::Done(u, _) => Sym::Done(rejoin(x.path, c, y, u), ()),
                    }
                }
            },
        },
        _ => walked(walk_int(pred, w, sc, e)),
    }
}

/// A `return` that a walk came by.
pub struct Ret {
    pub path: Vec<BoolTerm>,
    pub next: u64,
    pub result: u64,
    pub scopes: Scopes<u64>,
}

impl View for Ret {
    type V = SRet;

    open spec fn view(&self) -> SRet {
        SRet { path: self.path@, next: self.next, result: self.result, scopes: self.scopes@ }
    }
}

pub open spec fn rets_view(v: Seq<Ret>) -> Seq<SRet> {
    Seq::new(v.len(), |i: int| v[i]@)
}

impl Duplicate for u64 {
    fn duplicate(&self) -> (r: Self) {
        *self
    }
}

/// A walk under way.
pub struct Walker {
    pub next: u64,
    pub path: Vec<BoolTerm>,
    pub rets: Vec<Ret>,
}

impl View for Walker {
    type V = Walk;

    open spec fn view(&self) -> Walk {
        Walk { next: self.next, path: self.path@, rets: rets_view(self.rets@) }
    }
}

/// `r` and `w` are what `s` says.
pub open spec fn follows<T>(r: Result<T, String>, w: Walk, s: Sym<T>) -> bool {
    match r {
        Ok(t) => s == Sym::Done(w, t),
        Err(m) => s == Sym::<T>::Fail(w.rets, m@),
    }
}

/// `r` and `w` are what `s` says, with the scopes.
pub open spec fn follows_in(r: Result<(), String>, w: Walk, sc: Vars, s: Sym<Vars>) -> bool {
    match r {
        Ok(_) => s == Sym::Done(w, sc),
        Err(m) => s == Sym::<Vars>::Fail(w.rets, m@),
    }
}

fn no_int(e: &Expr) -> (r: String)
    ensures
        r@ == not_int(*e),
{
    let s = show_expr(e);
    cat3("Tier 1 doesn't model `", s.as_str(), "` — only integer literals/identifiers, +-*, and if/else are supported")
}

fn no_bool(e: &Expr) -> (r: String)
    ensures
        r@ == not_bool(*e),
{
    let s = show_expr(e);
    cat3("Tier 1 doesn't model `", s.as_str(), "` as a boolean expression — only comparisons, `&&`/`||`/`!`, and a boolean-shaped `==`/`!=` are supported")
}

fn no_name(name: &str) -> (r: String)
    ensures
        r@ == "unbound identifier `"@ + name@ + "`"@,
{
    cat3("unbound identifier `", name, "`")
}

fn negate(c: &BoolTerm) -> (r: BoolTerm)
    ensures
        r == negated(*c),
{
    BoolTerm::Not(Box::new(c.duplicate()))
}

fn make_arith(op: BinOp, a: IntTerm, b: IntTerm) -> (r: IntTerm)
    ensures
        r == arith_term(op, a, b),
{
    match op {
        BinOp::Add => IntTerm::Add(Box::new(a), Box::new(b)),
        BinOp::Sub => IntTerm::Sub(Box::new(a), Box::new(b)),
        _ => IntTerm::Mul(Box::new(a), Box::new(b)),
    }
}

fn make_compare(op: BinOp, a: IntTerm, b: IntTerm) -> (r: BoolTerm)
    ensures
        r == compare_term(op, a, b),
{
    match op {
        BinOp::Eq => BoolTerm::Eq(Box::new(a), Box::new(b)),
        BinOp::NotEq => BoolTerm::Not(Box::new(BoolTerm::Eq(Box::new(a), Box::new(b)))),
        BinOp::Lt => BoolTerm::Lt(Box::new(a), Box::new(b)),
        BinOp::Gt => BoolTerm::Gt(Box::new(a), Box::new(b)),
        BinOp::LtEq => BoolTerm::Le(Box::new(a), Box::new(b)),
        _ => BoolTerm::Ge(Box::new(a), Box::new(b)),
    }
}

fn make_iff(op: BinOp, a: BoolTerm, b: BoolTerm) -> (r: BoolTerm)
    ensures
        r == iff_term(op, a, b),
{
    let t = BoolTerm::Iff(Box::new(a), Box::new(b));
    if matches!(op, BinOp::Eq) {
        t
    } else {
        BoolTerm::Not(Box::new(t))
    }
}

fn make_cases(c: &BoolTerm, a: &[BoolTerm], b: &[BoolTerm]) -> (r: BoolTerm)
    ensures
        r == cases(*c, a@, b@),
{
    BoolTerm::Or(
        Box::new(BoolTerm::And(Box::new(c.duplicate()), Box::new(conjoin(a)))),
        Box::new(
            BoolTerm::And(Box::new(BoolTerm::Not(Box::new(c.duplicate()))), Box::new(conjoin(b))),
        ),
    )
}

fn is_comparing(op: BinOp) -> (r: bool)
    ensures
        r == is_comparison(op),
{
    matches!(op, BinOp::Eq | BinOp::NotEq | BinOp::Lt | BinOp::Gt | BinOp::LtEq | BinOp::GtEq)
}

/// A walk leaves the claims that it started with.
pub open spec fn kept(a: Walk, b: Walk) -> bool {
    a.path.len() <= b.path.len() && b.path.subrange(0, a.path.len() as int) == a.path
}

impl Walker {
    pub(crate) fn assume_that(&mut self, c: BoolTerm)
        ensures
            final(self)@ == assuming(old(self)@, c),
    {
        self.path.push(c);
    }

    /// A variable for `t`.
    pub(crate) fn name_term(&mut self, t: IntTerm) -> (r: u64)
        requires
            old(self).next < u64::MAX,
        ensures
            final(self)@ == named(old(self)@, t),
            r == old(self).next,
    {
        let k = self.next;
        self.next = k + 1;
        self.path.push(BoolTerm::Eq(Box::new(IntTerm::Var(k)), Box::new(t)));
        k
    }

    pub(crate) fn claim_range(&mut self, k: u64, t: &Ty)
        requires
            integer(t@),
        ensures
            final(self)@ == ranged(old(self)@, k, t@),
    {
        let (lo, hi) = t.bounds();
        self.path.push(BoolTerm::Ge(Box::new(IntTerm::Var(k)), Box::new(IntTerm::Lit(lo))));
        self.path.push(BoolTerm::Le(Box::new(IntTerm::Var(k)), Box::new(IntTerm::Lit(hi))));
    }

    fn note_return(&mut self, t: IntTerm, sc: &Scopes<u64>)
        requires
            old(self).next < u64::MAX,
        ensures
            final(self)@ == returned(old(self)@, sc@, t),
    {
        let k = self.name_term(t);
        let ghost before = self.rets@;
        let ret = Ret {
            path: copy_terms(&self.path),
            next: self.next,
            result: k,
            scopes: sc.duplicate(),
        };
        let ghost rv = ret@;
        self.rets.push(ret);
        proof {
            assert(rets_view(self.rets@) =~= rets_view(before).push(rv));
        }
        self.path.push(BoolTerm::Lit(false));
    }

    /// Takes the claims of the first case off and goes on with the other.
    fn other_case(&mut self, n: usize, c: &BoolTerm) -> (r: Vec<BoolTerm>)
        requires
            n + 1 <= old(self).path@.len(),
        ensures
            final(self)@ == (Walk {
                path: old(self).path@.subrange(0, n as int).push(negated(*c)),
                ..old(self)@
            }),
            r@ == since(old(self)@, (n + 1) as nat),
    {
        let _len: usize = self.path.len();
        let a = self.path.split_off(n + 1);
        self.path.truncate(n);
        proof {
            assert(self.path@ =~= old(self).path@.subrange(0, n as int));
        }
        self.path.push(negate(c));
        a
    }

    /// Puts the claims of two cases together.
    fn rejoin(&mut self, n: usize, c: &BoolTerm, a: &Vec<BoolTerm>)
        requires
            n + 1 <= old(self).path@.len(),
        ensures
            final(self)@ == (Walk {
                path: old(self).path@.subrange(0, n as int).push(
                    cases(*c, a@, since(old(self)@, (n + 1) as nat)),
                ),
                ..old(self)@
            }),
    {
        let _len: usize = self.path.len();
        let b = self.path.split_off(n + 1);
        self.path.truncate(n);
        proof {
            assert(self.path@ =~= old(self).path@.subrange(0, n as int));
        }
        self.path.push(make_cases(c, a.as_slice(), b.as_slice()));
    }

    fn int_expr(&mut self, pred: bool, e: &Expr, sc: &mut Scopes<u64>) -> (r: Result<
        IntTerm,
        String,
    >)
        ensures
            follows(r, final(self)@, walk_int(pred, old(self)@, old(sc)@, *e)),
            r is Ok ==> kept(old(self)@, final(self)@) && final(sc)@ == old(sc)@,
        decreases e, 1nat,
    {
        proof {
            kept_self(self@);
        }
        match e {
            Expr::Int(n, _) => Ok(IntTerm::Lit(*n)),
            Expr::Ident(name, _) => match sc.get(name.as_str()) {
                Some(k) => Ok(IntTerm::Var(*k)),
                None => Err(no_name(name.as_str())),
            },
            Expr::Unary(UnOp::Neg, a, _) => {
                let t = self.int_expr(pred, a, sc)?;
                Ok(IntTerm::Neg(Box::new(t)))
            }
            Expr::Binary(op, l, r, _) => match op {
                BinOp::Add | BinOp::Sub | BinOp::Mul => {
                    let a = self.int_expr(pred, l, sc)?;
                    let ghost x = self@;
                    let b = self.int_expr(pred, r, sc)?;
                    proof {
                        kept_trans(old(self)@, x, self@);
                    }
                    Ok(make_arith(*op, a, b))
                }
                BinOp::Div => Err(
                    "Tier 1 doesn't model division's result (integer-truncation semantics, same conservative choice smt.rs makes)".to_owned(),
                ),
                _ => Err(no_int(e)),
            },
            Expr::If { .. } => self.if_value(pred, e, sc),
            _ => Err(no_int(e)),
        }
    }

    fn if_value(&mut self, pred: bool, e: &Expr, sc: &mut Scopes<u64>) -> (r: Result<
        IntTerm,
        String,
    >)
        requires
            e is If,
        ensures
            follows(r, final(self)@, walk_int(pred, old(self)@, old(sc)@, *e)),
            r is Ok ==> kept(old(self)@, final(self)@) && final(sc)@ == old(sc)@,
        decreases e, 0nat,
    {
        match e {
            Expr::If { cond, then_block, else_block, .. } => {
                let c = self.bool_expr(pred, cond, sc)?;
                let ghost x = self@;
                let n: usize = self.path.len();
                self.assume_that(c.duplicate());
                let ghost p = self@;
                let a = self.block_value(pred, &then_block.stmts, sc)?;
                let ghost y = self@;
                proof {
                    kept_push(x, c, y);
                }
                let first = self.other_case(n, &c);
                let ghost z = self@;
                let b = match else_block {
                    Some(q) => match &**q {
                        ElseBranch::Block(b) => self.block_value(pred, &b.stmts, sc)?,
                        ElseBranch::If(f) => self.int_expr(pred, f, sc)?,
                    },
                    None => {
                        return Err("Tier 1 needs a value-position `if` to have an `else`".to_owned());
                    }
                };
                proof {
                    kept_push(x, negated(c), self@);
                }
                self.rejoin(n, &c, &first);
                proof {
                    assert(kept(x, self@)) by {
                        assert(self.path@.subrange(0, n as int) =~= x.path);
                    }
                    kept_trans(old(self)@, x, self@);
                }
                Ok(IntTerm::Ite(Box::new(c), Box::new(a), Box::new(b)))
            }
            _ => Err(no_int(e)),
        }
    }

    /// The value of a block, in a scope of its own.
    fn block_value(&mut self, pred: bool, v: &Vec<Stmt>, sc: &mut Scopes<u64>) -> (r: Result<
        IntTerm,
        String,
    >)
        ensures
            follows(r, final(self)@, walk_value(pred, old(self)@, opened(old(sc)@), v@)),
            r is Ok ==> kept(old(self)@, final(self)@) && final(sc)@ == old(sc)@,
        decreases v, 2nat,
    {
        let n: usize = v.len();
        if n > 0 {
            match &v[n - 1] {
                Stmt::Expr(e) => {
                    let ghost outer = sc@;
                    sc.push();
                    self.stmts(pred, v, n - 1, sc)?;
                    let ghost x = self@;
                    let t = self.int_expr(pred, e, sc)?;
                    sc.pop();
                    proof {
                        kept_trans(old(self)@, x, self@);
                        assert(opened(outer).drop_last() =~= outer);
                    }
                    return Ok(t);
                }
                _ => {}
            }
        }
        Err(
            "Tier 1 needs a value-position `if`'s branch to end in a bare expression".to_owned(),
        )
    }

    fn bool_expr(&mut self, pred: bool, e: &Expr, sc: &mut Scopes<u64>) -> (r: Result<
        BoolTerm,
        String,
    >)
        ensures
            follows(r, final(self)@, walk_bool(pred, old(self)@, old(sc)@, *e)),
            r is Ok ==> kept(old(self)@, final(self)@) && final(sc)@ == old(sc)@,
        decreases e, 1nat,
    {
        proof {
            kept_self(self@);
        }
        match e {
            Expr::Bool(b, _) => Ok(BoolTerm::Lit(*b)),
            Expr::Unary(UnOp::Not, a, _) => {
                let t = self.bool_expr(pred, a, sc)?;
                Ok(BoolTerm::Not(Box::new(t)))
            }
            Expr::Binary(op, l, r, _) => {
                if matches!(op, BinOp::And | BinOp::Or) {
                    return self.logic(pred, e, sc);
                }
                if !is_comparing(*op) {
                    return Err(no_bool(e));
                }
                if matches!(op, BinOp::Eq | BinOp::NotEq) && is_bool_shaped(l) && is_bool_shaped(
                    r,
                ) {
                    let a = self.bool_expr(pred, l, sc)?;
                    let ghost x = self@;
                    let b = self.bool_expr(pred, r, sc)?;
                    proof {
                        kept_trans(old(self)@, x, self@);
                    }
                    return Ok(make_iff(*op, a, b));
                }
                let a = self.int_expr(pred, l, sc)?;
                let ghost x = self@;
                let b = self.int_expr(pred, r, sc)?;
                proof {
                    kept_trans(old(self)@, x, self@);
                }
                Ok(make_compare(*op, a, b))
            }
            _ => Err(no_bool(e)),
        }
    }

    fn logic(&mut self, pred: bool, e: &Expr, sc: &mut Scopes<u64>) -> (r: Result<BoolTerm, String>)
        requires
            e matches Expr::Binary(op, _, _, _) && (op is And || op is Or),
        ensures
            follows(r, final(self)@, walk_bool(pred, old(self)@, old(sc)@, *e)),
            r is Ok ==> kept(old(self)@, final(self)@) && final(sc)@ == old(sc)@,
        decreases e, 0nat,
    {
        match e {
            Expr::Binary(op, l, r, _) => {
                let a = self.bool_expr(pred, l, sc)?;
                let ghost x = self@;
                let n: usize = self.path.len();
                let and = matches!(op, BinOp::And);
                let open = if and {
                    a.duplicate()
                } else {
                    negate(&a)
                };
                let ghost c = open;
                self.assume_that(open);
                let b = self.bool_expr(pred, r, sc)?;
                proof {
                    kept_push(x, c, self@);
                }
                let ghost y = self@;
                let _len: usize = self.path.len();
                let more = self.path.split_off(n + 1);
                self.path.truncate(n);
                proof {
                    assert(self.path@ =~= x.path);
                }
                let none: Vec<BoolTerm> = Vec::new();
                proof {
                    assert(none@ =~= Seq::<BoolTerm>::empty());
                }
                if and {
                    self.path.push(make_cases(&a, more.as_slice(), none.as_slice()));
                } else {
                    self.path.push(make_cases(&a, none.as_slice(), more.as_slice()));
                }
                proof {
                    assert(kept(x, self@)) by {
                        assert(self.path@.subrange(0, n as int) =~= x.path);
                    }
                    kept_trans(old(self)@, x, self@);
                }
                if and {
                    Ok(BoolTerm::And(Box::new(a), Box::new(b)))
                } else {
                    Ok(BoolTerm::Or(Box::new(a), Box::new(b)))
                }
            }
            _ => Err(no_bool(e)),
        }
    }

    /// Follows the first `n` statements.
    pub fn stmts(&mut self, pred: bool, v: &Vec<Stmt>, n: usize, sc: &mut Scopes<u64>) -> (r: Result<
        (),
        String,
    >)
        requires
            n <= v@.len(),
        ensures
            follows_in(
                r,
                final(self)@,
                final(sc)@,
                walk_stmts(pred, old(self)@, old(sc)@, v@, n as nat),
            ),
            r is Ok ==> kept(old(self)@, final(self)@),
            r is Ok && old(sc)@.len() > 0 ==> final(sc)@.len() == old(sc)@.len()
                && final(sc)@.drop_last() == old(sc)@.drop_last(),
        decreases v, 1nat,
    {
        let ghost w = self@;
        let ghost s = sc@;
        let mut i: usize = 0;
        proof {
            kept_self(w);
        }
        while i < n
            invariant
                i <= n <= v@.len(),
                w == old(self)@,
                s == old(sc)@,
                walk_stmts(pred, w, s, v@, i as nat) == Sym::Done(self@, sc@),
                kept(w, self@),
                s.len() > 0 ==> sc@.len() == s.len() && sc@.drop_last() == s.drop_last(),
            decreases n - i,
        {
            let ghost x = self@;
            match self.stmt(pred, &v[i], sc) {
                Ok(_) => {
                    proof {
                        kept_trans(w, x, self@);
                    }
                }
                Err(m) => {
                    proof {
                        walk_stops(pred, w, s, v@, (i + 1) as nat, n as nat);
                    }
                    return Err(m);
                }
            }
            i = i + 1;
        }
        Ok(())
    }

    fn stmt(&mut self, pred: bool, s: &Stmt, sc: &mut Scopes<u64>) -> (r: Result<(), String>)
        ensures
            follows_in(
                r,
                final(self)@,
                final(sc)@,
                walk_stmt(pred, old(self)@, old(sc)@, *s),
            ),
            r is Ok ==> kept(old(self)@, final(self)@),
            r is Ok && old(sc)@.len() > 0 ==> final(sc)@.len() == old(sc)@.len()
                && final(sc)@.drop_last() == old(sc)@.drop_last(),
        decreases s, 1nat,
    {
        match s {
            Stmt::Let { name, ty, value, .. } => {
                if !ty.is_integer() {
                    let t = ty.name();
                    return Err(
                        cat5("`let ", name.as_str(), ": ", t.as_str(), "` — Tier 1 only models integer locals"),
                    );
                }
                let t = self.int_expr(pred, value, sc)?;
                if self.next == u64::MAX {
                    return Err("Tier 1 can't number any more locals".to_owned());
                }
                let ghost x = self@;
                let k = self.name_term(t);
                if !pred {
                    self.claim_range(k, ty);
                }
                let ghost outer = sc@;
                sc.define(name.as_str(), k);
                proof {
                    assert(self@.path.subrange(0, x.path.len() as int) =~= x.path);
                    kept_trans(old(self)@, x, self@);
                    if outer.len() > 0 {
                        assert(sc@.drop_last() =~= outer.drop_last());
                    }
                }
                Ok(())
            }
            Stmt::Return { value, .. } => {
                if pred {
                    return Err("Tier 1 doesn't model `return` in a predicate".to_owned());
                }
                match value {
                    Some(e) => {
                        let t = self.int_expr(pred, e, sc)?;
                        if self.next == u64::MAX {
                            return Err("Tier 1 can't number any more locals".to_owned());
                        }
                        let ghost x = self@;
                        self.note_return(t, sc);
                        proof {
                            assert(self@.path.subrange(0, x.path.len() as int) =~= x.path);
                            kept_trans(old(self)@, x, self@);
                        }
                    }
                    None => {
                        self.assume_that(BoolTerm::Lit(false));
                        proof {
                            assert(self@.path.subrange(0, old(self)@.path.len() as int)
                                =~= old(self)@.path);
                        }
                    }
                }
                Ok(())
            }
            Stmt::Expr(e) => self.branch(pred, e, sc),
            Stmt::While { .. } => Err(
                "Tier 1 doesn't model loops (no invariant synthesis, same conservative choice smt.rs's own Tier-1 pass makes)".to_owned(),
            ),
            Stmt::Audited { body, .. } => {
                let ghost outer = sc@;
                sc.push();
                self.stmts(pred, body, body.len(), sc)?;
                sc.pop();
                proof {
                    assert(opened(outer).drop_last() =~= outer);
                }
                Ok(())
            }
        }
    }

    /// Follows a block in a scope of its own.
    fn block(&mut self, pred: bool, v: &Vec<Stmt>, sc: &mut Scopes<u64>) -> (r: Result<(), String>)
        ensures
            follows(
                r,
                final(self)@,
                walked(walk_stmts(pred, old(self)@, opened(old(sc)@), v@, v@.len())),
            ),
            r is Ok ==> kept(old(self)@, final(self)@) && final(sc)@ == old(sc)@,
        decreases v, 2nat,
    {
        let ghost outer = sc@;
        sc.push();
        self.stmts(pred, v, v.len(), sc)?;
        sc.pop();
        proof {
            assert(opened(outer).drop_last() =~= outer);
        }
        Ok(())
    }

    fn branch(&mut self, pred: bool, e: &Expr, sc: &mut Scopes<u64>) -> (r: Result<(), String>)
        ensures
            follows(r, final(self)@, walk_branch(pred, old(self)@, old(sc)@, *e)),
            r is Ok ==> kept(old(self)@, final(self)@) && final(sc)@ == old(sc)@,
        decreases e, 2nat,
    {
        match e {
            Expr::If { cond, then_block, else_block, .. } => {
                let c = self.bool_expr(pred, cond, sc)?;
                let ghost x = self@;
                let n: usize = self.path.len();
                self.assume_that(c.duplicate());
                self.block(pred, &then_block.stmts, sc)?;
                proof {
                    kept_push(x, c, self@);
                }
                let first = self.other_case(n, &c);
                match else_block {
                    Some(q) => match &**q {
                        ElseBranch::Block(b) => self.block(pred, &b.stmts, sc)?,
                        ElseBranch::If(f) => self.branch(pred, f, sc)?,
                    },
                    None => {
                        proof {
                            assert(self@.path.subrange(0, self@.path.len() as int) =~= self@.path);
                        }
                    }
                }
                proof {
                    kept_push(x, negated(c), self@);
                }
                self.rejoin(n, &c, &first);
                proof {
                    assert(kept(x, self@)) by {
                        assert(self.path@.subrange(0, n as int) =~= x.path);
                    }
                    kept_trans(old(self)@, x, self@);
                }
                Ok(())
            }
            _ => {
                self.int_expr(pred, e, sc)?;
                Ok(())
            }
        }
    }

    /// Follows a predicate.
    pub fn predicate(&mut self, e: &Expr, sc: &mut Scopes<u64>) -> (r: Result<BoolTerm, String>)
        ensures
            follows(r, final(self)@, walk_bool(true, old(self)@, old(sc)@, *e)),
            r is Ok ==> final(sc)@ == old(sc)@,
    {
        self.bool_expr(true, e, sc)
    }
}

proof fn kept_self(a: Walk)
    ensures
        kept(a, a),
{
    assert(a.path.subrange(0, a.path.len() as int) =~= a.path);
}

proof fn kept_trans(a: Walk, b: Walk, c: Walk)
    requires
        kept(a, b),
        kept(b, c),
    ensures
        kept(a, c),
{
    assert(c.path.subrange(0, a.path.len() as int) =~= a.path) by {
        assert forall|i: int| 0 <= i < a.path.len() implies c.path[i] == a.path[i] by {
            assert(b.path.subrange(0, a.path.len() as int)[i] == a.path[i]);
            assert(c.path.subrange(0, b.path.len() as int)[i] == b.path[i]);
        }
    }
}

/// What extends `a` with `c` extends `a`.
proof fn kept_push(a: Walk, c: BoolTerm, b: Walk)
    requires
        kept(assuming(a, c), b),
    ensures
        kept(a, b),
        b.path.len() >= a.path.len() + 1,
{
    assert(kept(a, assuming(a, c))) by {
        assert(assuming(a, c).path.subrange(0, a.path.len() as int) =~= a.path);
    }
    kept_trans(a, assuming(a, c), b);
}

proof fn walk_stops(pred: bool, w: Walk, sc: Vars, v: Seq<Stmt>, a: nat, b: nat)
    requires
        a <= b <= v.len(),
        walk_stmts(pred, w, sc, v, a) is Fail,
    ensures
        walk_stmts(pred, w, sc, v, b) == walk_stmts(pred, w, sc, v, a),
    decreases b,
{
    if a < b {
        walk_stops(pred, w, sc, v, a, (b - 1) as nat);
    }
}

} // verus!
