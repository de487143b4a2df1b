//! Which programs have code: the checks before code generation.
use crate::ast::{ElseBranch, Expr, Program, Stmt};
use crate::builtins::{builtin_named, Builtin};
use crate::ir::{llvm, llvm_ty, unsupported, Halt, SHalt, SLlvm, Text};
use crate::registry::{find_struct, find_variant, struct_named, variant_named};
use crate::text::{cat3};
use vstd::prelude::*;
use vstd::string::*;

verus! {

/// The builtins whose code is unrolled in place.
pub open spec fn unrolled(b: Builtin) -> bool {
    match b {
        Builtin::Transpose
        | Builtin::Dot
        | Builtin::Cross
        | Builtin::Zeros
        | Builtin::Ones
        | Builtin::Identity
        | Builtin::Sum
        | Builtin::Len
        | Builtin::Norm
        | Builtin::Norm1
        | Builtin::NormInf
        | Builtin::FrobeniusNorm
        | Builtin::Trace
        | Builtin::IsSymmetric
        | Builtin::IsDiag
        | Builtin::IsSquare
        | Builtin::Distance
        | Builtin::Bearing
        | Builtin::LlaToEcef
        | Builtin::EcefToLla
        | Builtin::EcefToEnu
        | Builtin::EnuToEcef
        | Builtin::KfPredictState
        | Builtin::KfPredictCov => true,
        _ => false,
    }
}

/// The builtins whose code is a call of the runtime.
pub open spec fn in_runtime(b: Builtin) -> bool {
    match b {
        Builtin::Det
        | Builtin::Inv
        | Builtin::Solve
        | Builtin::Rank
        | Builtin::KfUpdateState
        | Builtin::KfUpdateCov => true,
        _ => false,
    }
}

pub fn is_unrolled(b: Builtin) -> (r: bool)
    ensures
        r == unrolled(b),
{
    matches!(
        b,
        Builtin::Transpose
        | Builtin::Dot
        | Builtin::Cross
        | Builtin::Zeros
        | Builtin::Ones
        | Builtin::Identity
        | Builtin::Sum
        | Builtin::Len
        | Builtin::Norm
        | Builtin::Norm1
        | Builtin::NormInf
        | Builtin::FrobeniusNorm
        | Builtin::Trace
        | Builtin::IsSymmetric
        | Builtin::IsDiag
        | Builtin::IsSquare
        | Builtin::Distance
        | Builtin::Bearing
        | Builtin::LlaToEcef
        | Builtin::EcefToLla
        | Builtin::EcefToEnu
        | Builtin::EnuToEcef
        | Builtin::KfPredictState
        | Builtin::KfPredictCov
    )
}

pub fn is_in_runtime(b: Builtin) -> (r: bool)
    ensures
        r == in_runtime(b),
{
    matches!(
        b,
        Builtin::Det
        | Builtin::Inv
        | Builtin::Solve
        | Builtin::Rank
        | Builtin::KfUpdateState
        | Builtin::KfUpdateCov
    )
}

/// What is wrong first, where anything is.
pub type Fault = Option<SHalt>;

pub open spec fn fault(message: Text) -> Fault {
    Some(SHalt::Unsupported(message))
}

pub open spec fn or_else(a: Fault, b: Fault) -> Fault {
    match a {
        Some(h) => Some(h),
        None => b,
    }
}

pub open spec fn ty_fault(t: crate::ast::STy) -> Fault {
    match llvm(t) {
        SLlvm::Is(_) => None,
        SLlvm::Not(h) => Some(h),
    }
}

/// Whether `name` makes a value of a struct or an enum.
pub open spec fn constructs(p: Program, name: Text) -> bool {
    struct_named(p, name) is Some || variant_named(p, name) is Some
}

/// What is wrong with calling a name.
pub open spec fn call_fault(p: Program, name: Text, args: Seq<Expr>) -> Fault {
    if constructs(p, name) {
        fault(
            "codegen doesn't support `"@ + name + "` yet — struct/enum construction (Row 11) is interpreter-only for now, see nirdosha_row11_amendment.md"@,
        )
    } else {
        match builtin_named(name) {
            Some(Builtin::Print) => if exists|i: int| 0 <= i < args.len() && (#[trigger] args[i]) is Bool {
                fault(
                    "codegen only supports `print` on integer/f64-typed arguments so far — no existing example needs bool/unit printing, so it wasn't built"@,
                )
            } else {
                None
            },
            Some(b) => if unrolled(b) || in_runtime(b) {
                None
            } else {
                fault(
                    "codegen doesn't support `"@ + name + "` yet — this builtin is interpreter-only for now (numeric codegen lands in a later phase)"@,
                )
            },
            None => None,
        }
    }
}

/// What is wrong with an expression.
pub open spec fn expr_fault(p: Program, e: Expr) -> Fault
    decreases e,
{
    match e {
        Expr::Int(..) | Expr::Bool(..) | Expr::Ident(..) | Expr::Float(..) | Expr::Str(..) => None,
        Expr::Unary(_, a, _) => expr_fault(p, *a),
        Expr::Box(a, _) => expr_fault(p, *a),
        Expr::Deref(a, _) => expr_fault(p, *a),
        Expr::Ref(a, _) => expr_fault(p, *a),
        Expr::Assign(_, a, _) => expr_fault(p, *a),
        Expr::Recv(a, _) => expr_fault(p, *a),
        Expr::StopSandbox(a, _) => expr_fault(p, *a),
        Expr::Listen(a, _) => expr_fault(p, *a),
        Expr::Accept(a, _) => expr_fault(p, *a),
        Expr::Binary(_, a, b, _) => or_else(expr_fault(p, *a), expr_fault(p, *b)),
        Expr::Send(a, b, _) => or_else(expr_fault(p, *a), expr_fault(p, *b)),
        Expr::Connect(a, b, _) => or_else(expr_fault(p, *a), expr_fault(p, *b)),
        Expr::Call(name, args, _) => or_else(
            call_fault(p, name@, args@),
            exprs_fault(p, args@),
        ),
        Expr::If { cond, then_block, else_block, .. } => or_else(
            or_else(expr_fault(p, *cond), stmts_fault(p, then_block.stmts@)),
            match else_block {
                Some(b) => match *b {
                    ElseBranch::Block(x) => stmts_fault(p, x.stmts@),
                    ElseBranch::If(x) => expr_fault(p, x),
                },
                None => None,
            },
        ),
        Expr::FieldAccess(..) | Expr::Match { .. } => fault(
            "codegen doesn't support struct/enum/match yet (Row 11) — interpreter-only for now"@,
        ),
        Expr::Spawn(..) | Expr::Join(..) => fault(
            "codegen doesn't support `spawn`/`join` yet — interpreter-only for now"@,
        ),
        Expr::Chan(_) => fault("codegen doesn't support `chan` yet — interpreter-only for now"@),
        Expr::SpawnSandbox(..) => fault(
            "codegen doesn't support `sandbox` yet — interpreter-only for now"@,
        ),
        Expr::Open(..) => fault(
            "codegen doesn't support `open`/file I/O yet — interpreter-only for now"@,
        ),
        Expr::Index(a, args, _) => or_else(expr_fault(p, *a), exprs_fault(p, args@)),
        Expr::ArrayLit(args, _) => exprs_fault(p, args@),
        Expr::Transact { .. } => fault(
            "codegen doesn't support `transact` yet — interpreter-only for now"@,
        ),
    }
}

pub open spec fn exprs_fault(p: Program, v: Seq<Expr>) -> Fault
    decreases v,
{
    if v.len() == 0 {
        None
    } else {
        or_else(exprs_fault(p, v.drop_last()), expr_fault(p, v.last()))
    }
}

/// What is wrong with a statement.
pub open spec fn stmt_fault(p: Program, s: Stmt) -> Fault
    decreases s,
{
    match s {
        Stmt::Let { ty, value, .. } => or_else(ty_fault(ty@), expr_fault(p, value)),
        Stmt::Return { value, .. } => match value {
            Some(e) => expr_fault(p, e),
            None => None,
        },
        Stmt::While { cond, body, .. } => or_else(
            expr_fault(p, cond),
            stmts_fault(p, body.stmts@),
        ),
        Stmt::Expr(e) => expr_fault(p, e),
        Stmt::Audited { body, .. } => stmts_fault(p, body@),
    }
}

pub open spec fn stmts_fault(p: Program, v: Seq<Stmt>) -> Fault
    decreases v,
{
    if v.len() == 0 {
        None
    } else {
        or_else(stmts_fault(p, v.drop_last()), stmt_fault(p, v.last()))
    }
}

/// What is wrong with the types of the first `n` parameters.
pub open spec fn params_fault(f: crate::ast::FnDecl, n: nat) -> Fault
    decreases n,
{
    if n == 0 {
        None
    } else {
        or_else(params_fault(f, (n - 1) as nat), ty_fault(f.params@[n - 1].ty@))
    }
}

/// What is wrong with the first `n` functions.
pub open spec fn fns_fault(p: Program, n: nat) -> Fault
    decreases n,
{
    if n == 0 {
        None
    } else {
        let f = p.fns@[n - 1];
        or_else(
            fns_fault(p, (n - 1) as nat),
            or_else(
                or_else(params_fault(f, f.params@.len()), ty_fault(f.ret@)),
                stmts_fault(p, f.body.stmts@),
            ),
        )
    }
}

/// `r` reports the fault `f`.
pub open spec fn reports(r: Result<(), Halt>, f: Fault) -> bool {
    match r {
        Ok(_) => f is None,
        Err(h) => f == Some(h@),
    }
}

fn check_type(t: &crate::ast::Ty) -> (r: Result<(), Halt>)
    ensures
        reports(r, ty_fault(t@)),
{
    match llvm_ty(t) {
        Ok(_) => Ok(()),
        Err(h) => Err(h),
    }
}

fn check_call(p: &Program, name: &str, args: &Vec<Expr>) -> (r: Result<(), Halt>)
    ensures
        reports(r, call_fault(*p, name@, args@)),
{
    if find_struct(p, name).is_some() || find_variant(p, name).is_some() {
        return Err(
            unsupported(
                cat3("codegen doesn't support `", name, "` yet — struct/enum construction (Row 11) is interpreter-only for now, see nirdosha_row11_amendment.md"),
            ),
        );
    }
    match Builtin::from_name(name) {
        Some(Builtin::Print) => {
            let mut i: usize = 0;
            while i < args.len()
                invariant
                    i <= args@.len(),
                    forall|j: int| 0 <= j < i ==> !((#[trigger] args@[j]) is Bool),
                    call_fault(*p, name@, args@) == (if exists|k: int|
                        0 <= k < args@.len() && (#[trigger] args@[k]) is Bool {
                        fault(
                            "codegen only supports `print` on integer/f64-typed arguments so far — no existing example needs bool/unit printing, so it wasn't built"@,
                        )
                    } else {
                        None
                    }),
                decreases args@.len() - i,
            {
                if let Expr::Bool(..) = &args[i] {
                    return Err(
                        unsupported(
                            "codegen only supports `print` on integer/f64-typed arguments so far — no existing example needs bool/unit printing, so it wasn't built".to_owned(),
                        ),
                    );
                }
                i = i + 1;
            }
            Ok(())
        }
        Some(b) => if is_unrolled(b) || is_in_runtime(b) {
            Ok(())
        } else {
            Err(
                unsupported(
                    cat3("codegen doesn't support `", name, "` yet — this builtin is interpreter-only for now (numeric codegen lands in a later phase)"),
                ),
            )
        },
        None => Ok(()),
    }
}

proof fn exprs_fault_stops(p: Program, v: Seq<Expr>, n: nat)
    requires
        n <= v.len(),
        exprs_fault(p, v.take(n as int)) is Some,
    ensures
        exprs_fault(p, v) == exprs_fault(p, v.take(n as int)),
    decreases v.len(),
{
    if n == v.len() {
        assert(v.take(n as int) =~= v);
    } else {
        assert(v.drop_last().take(n as int) =~= v.take(n as int));
        exprs_fault_stops(p, v.drop_last(), n);
    }
}

proof fn stmts_fault_stops(p: Program, v: Seq<Stmt>, n: nat)
    requires
        n <= v.len(),
        stmts_fault(p, v.take(n as int)) is Some,
    ensures
        stmts_fault(p, v) == stmts_fault(p, v.take(n as int)),
    decreases v.len(),
{
    if n == v.len() {
        assert(v.take(n as int) =~= v);
    } else {
        assert(v.drop_last().take(n as int) =~= v.take(n as int));
        stmts_fault_stops(p, v.drop_last(), n);
    }
}

fn check_exprs(p: &Program, v: &Vec<Expr>) -> (r: Result<(), Halt>)
    ensures
        reports(r, exprs_fault(*p, v@)),
    decreases v,
{
    let mut i: usize = 0;
    while i < v.len()
        invariant
            i <= v@.len(),
            exprs_fault(*p, v@.take(i as int)) is None,
        decreases v@.len() - i,
    {
        let c = check_expr(p, &v[i]);
        proof {
            assert(v@.take(i + 1).drop_last() =~= v@.take(i as int));
        }
        match c {
            Ok(_) => {}
            Err(h) => {
                proof {
                    exprs_fault_stops(*p, v@, (i + 1) as nat);
                }
                return Err(h);
            }
        }
        i = i + 1;
    }
    proof {
        assert(v@.take(i as int) =~= v@);
    }
    Ok(())
}

fn check_stmts(p: &Program, v: &Vec<Stmt>) -> (r: Result<(), Halt>)
    ensures
        reports(r, stmts_fault(*p, v@)),
    decreases v,
{
    let mut i: usize = 0;
    while i < v.len()
        invariant
            i <= v@.len(),
            stmts_fault(*p, v@.take(i as int)) is None,
        decreases v@.len() - i,
    {
        let c = check_stmt(p, &v[i]);
        proof {
            assert(v@.take(i + 1).drop_last() =~= v@.take(i as int));
        }
        match c {
            Ok(_) => {}
            Err(h) => {
                proof {
                    stmts_fault_stops(*p, v@, (i + 1) as nat);
                }
                return Err(h);
            }
        }
        i = i + 1;
    }
    proof {
        assert(v@.take(i as int) =~= v@);
    }
    Ok(())
}

fn check_stmt(p: &Program, s: &Stmt) -> (r: Result<(), Halt>)
    ensures
        reports(r, stmt_fault(*p, *s)),
    decreases s,
{
    match s {
        Stmt::Let { ty, value, .. } => {
            check_type(ty)?;
            check_expr(p, value)
        }
        Stmt::Return { value, .. } => match value {
            Some(e) => check_expr(p, e),
            None => Ok(()),
        },
        Stmt::While { cond, body, .. } => {
            check_expr(p, cond)?;
            check_stmts(p, &body.stmts)
        }
        Stmt::Expr(e) => check_expr(p, e),
        Stmt::Audited { body, .. } => check_stmts(p, body),
    }
}

fn check_expr(p: &Program, e: &Expr) -> (r: Result<(), Halt>)
    ensures
        reports(r, expr_fault(*p, *e)),
    decreases e,
{
    match e {
        Expr::Int(..) | Expr::Bool(..) | Expr::Ident(..) | Expr::Float(..) | Expr::Str(..) => Ok(()),
        Expr::Unary(_, a, _)
        | Expr::Box(a, _)
        | Expr::Deref(a, _)
        | Expr::Ref(a, _)
        | Expr::Assign(_, a, _)
        | Expr::Recv(a, _)
        | Expr::StopSandbox(a, _)
        | Expr::Listen(a, _)
        | Expr::Accept(a, _) => check_expr(p, a),
        Expr::Binary(_, a, b, _) | Expr::Send(a, b, _) | Expr::Connect(a, b, _) => {
            check_expr(p, a)?;
            check_expr(p, b)
        }
        Expr::Call(name, args, _) => {
            check_call(p, name.as_str(), args)?;
            check_exprs(p, args)
        }
        Expr::If { cond, then_block, else_block, .. } => {
            check_expr(p, cond)?;
            check_stmts(p, &then_block.stmts)?;
            match else_block {
                Some(b) => match &**b {
                    ElseBranch::Block(x) => check_stmts(p, &x.stmts),
                    ElseBranch::If(x) => check_expr(p, x),
                },
                None => Ok(()),
            }
        }
        Expr::FieldAccess(..) | Expr::Match { .. } => Err(
            unsupported(
                "codegen doesn't support struct/enum/match yet (Row 11) — interpreter-only for now".to_owned(),
            ),
        ),
        Expr::Spawn(..) | Expr::Join(..) => Err(
            unsupported(
                "codegen doesn't support `spawn`/`join` yet — interpreter-only for now".to_owned(),
            ),
        ),
        Expr::Chan(_) => Err(
            unsupported("codegen doesn't support `chan` yet — interpreter-only for now".to_owned()),
        ),
        Expr::SpawnSandbox(..) => Err(
            unsupported("codegen doesn't support `sandbox` yet — interpreter-only for now".to_owned()),
        ),
        Expr::Open(..) => Err(
            unsupported(
                "codegen doesn't support `open`/file I/O yet — interpreter-only for now".to_owned(),
            ),
        ),
        Expr::Index(a, args, _) => {
            check_expr(p, a)?;
            check_exprs(p, args)
        }
        Expr::ArrayLit(args, _) => check_exprs(p, args),
        Expr::Transact { .. } => Err(
            unsupported("codegen doesn't support `transact` yet — interpreter-only for now".to_owned()),
        ),
    }
}

proof fn params_fault_stops(f: crate::ast::FnDecl, a: nat, b: nat)
    requires
        a <= b,
        params_fault(f, a) is Some,
    ensures
        params_fault(f, b) == params_fault(f, a),
    decreases b,
{
    if a < b {
        params_fault_stops(f, a, (b - 1) as nat);
    }
}

proof fn fns_fault_stops(p: Program, a: nat, b: nat)
    requires
        a <= b,
        fns_fault(p, a) is Some,
    ensures
        fns_fault(p, b) == fns_fault(p, a),
    decreases b,
{
    if a < b {
        fns_fault_stops(p, a, (b - 1) as nat);
    }
}

fn check_params(f: &crate::ast::FnDecl) -> (r: Result<(), Halt>)
    ensures
        reports(r, params_fault(*f, f.params@.len())),
{
    let mut i: usize = 0;
    while i < f.params.len()
        invariant
            i <= f.params@.len(),
            params_fault(*f, i as nat) is None,
        decreases f.params@.len() - i,
    {
        match check_type(&f.params[i].ty) {
            Ok(_) => {}
            Err(h) => {
                proof {
                    params_fault_stops(*f, (i + 1) as nat, f.params@.len());
                }
                return Err(h);
            }
        }
        i = i + 1;
    }
    Ok(())
}

fn check_fn(p: &Program, f: &crate::ast::FnDecl) -> (r: Result<(), Halt>)
    ensures
        reports(
            r,
            or_else(
                or_else(params_fault(*f, f.params@.len()), ty_fault(f.ret@)),
                stmts_fault(*p, f.body.stmts@),
            ),
        ),
{
    check_params(f)?;
    check_type(&f.ret)?;
    check_stmts(p, &f.body.stmts)
}

/// Whether every part of a program has code; the first that has not is the error.
pub fn check_supported(p: &Program) -> (r: Result<(), Halt>)
    ensures
        reports(r, fns_fault(*p, p.fns@.len())),
{
    let mut i: usize = 0;
    while i < p.fns.len()
        invariant
            i <= p.fns@.len(),
            fns_fault(*p, i as nat) is None,
        decreases p.fns@.len() - i,
    {
        match check_fn(p, &p.fns[i]) {
            Ok(_) => {}
            Err(h) => {
                proof {
                    fns_fault_stops(*p, (i + 1) as nat, p.fns@.len());
                }
                return Err(h);
            }
        }
        i = i + 1;
    }
    Ok(())
}

} // verus!
