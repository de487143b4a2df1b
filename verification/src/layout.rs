//! What code generation knows of a program: the types of its expressions, the
//! slots of its names, the guards that were proved away, and where boxes end.
use crate::ast::{literal, literal_value, ty_view, BinOp, Expr, Program, STy, Stmt, Ty, UnOp};
use crate::builtins::{builtin_named, Builtin};
use crate::ir::{
    aggregate, define, free_box, guard_index, guard_range, is_aggregate, Cx, Module, Text,
};
use crate::registry::{find_fn, fn_named};
use crate::scopes::{lookup, Scopes};
use crate::support::{in_runtime, is_in_runtime, is_unrolled, unrolled};
use crate::text::{cat2, same};
use crate::token::Span;
use vstd::prelude::*;
use vstd::string::*;

verus! {

/// The sites at which a prover has shown that a guard can never fail.
#[derive(Debug, Default)]
pub struct SmtReport {
    pub proven_in_range: Vec<Span>,
    pub proven_index_bounds: Vec<Span>,
    pub proven_nonzero_divisor: Vec<Span>,
}

/// The names of the boxes that end at each place of a program.
#[derive(Debug, Default)]
pub struct FreeMap {
    pub at_fn_end: Vec<(String, Vec<String>)>,
    pub at_return: Vec<(Span, Vec<String>)>,
    pub at_audited_end: Vec<(Span, Vec<String>)>,
    pub at_while_end: Vec<(Span, Vec<String>)>,
    /// The second part says whether it is the first branch.
    pub at_if_branch_end: Vec<(Span, bool, Vec<String>)>,
}

pub fn holds(v: &Vec<Span>, span: Span) -> (r: bool)
    ensures
        r == v@.contains(span),
{
    let mut i: usize = 0;
    while i < v.len()
        invariant
            i <= v@.len(),
            forall|j: int| 0 <= j < i ==> v@[j] != span,
        decreases v@.len() - i,
    {
        if v[i] == span {
            return true;
        }
        i = i + 1;
    }
    false
}

/// The names listed first for a place, from entry `i` on; none where there are none.
pub open spec fn names_at(v: Seq<(Span, Vec<String>)>, span: Span, i: int) -> Seq<String>
    decreases v.len() - i,
{
    if i < 0 || i >= v.len() {
        Seq::empty()
    } else if v[i].0 == span {
        v[i].1@
    } else {
        names_at(v, span, i + 1)
    }
}

pub open spec fn names_in(v: Seq<(String, Vec<String>)>, name: Text, i: int) -> Seq<String>
    decreases v.len() - i,
{
    if i < 0 || i >= v.len() {
        Seq::empty()
    } else if v[i].0@ == name {
        v[i].1@
    } else {
        names_in(v, name, i + 1)
    }
}

pub open spec fn names_on(v: Seq<(Span, bool, Vec<String>)>, span: Span, first: bool, i: int) -> Seq<
    String,
>
    decreases v.len() - i,
{
    if i < 0 || i >= v.len() {
        Seq::empty()
    } else if v[i].0 == span && v[i].1 == first {
        v[i].2@
    } else {
        names_on(v, span, first, i + 1)
    }
}

/// The slot of a name: its type and the register that holds its address.
pub struct Slot {
    pub ty: Ty,
    pub ptr: String,
}

impl View for Slot {
    type V = (STy, Text);

    open spec fn view(&self) -> (STy, Text) {
        (self.ty@, self.ptr@)
    }
}

pub type Slots = Seq<Map<Seq<char>, (STy, Text)>>;

/// A dimension that a literal gives.
pub open spec fn dim(n: Option<i64>) -> usize {
    match n {
        Some(k) => if k < 0 {
            0
        } else if k > usize::MAX {
            usize::MAX
        } else {
            k as usize
        },
        None => 0,
    }
}

fn dimension(e: &Expr) -> (r: usize)
    ensures
        r == dim(literal(*e)),
{
    match literal_value(e) {
        Some(k) => if k < 0 {
            0
        } else if k as u64 > usize::MAX as u64 {
            usize::MAX
        } else {
            k as usize
        },
        None => 0,
    }
}

/// The type of a vector's or matrix's elements.
pub open spec fn elem_or(t: STy, other: STy) -> STy {
    match t {
        STy::Vector(e, _) => *e,
        STy::Matrix(e, _, _) => *e,
        _ => other,
    }
}

/// The type of a product.
pub open spec fn product_ty(l: STy, r: STy) -> STy {
    match (l, r) {
        (STy::Matrix(e, a, _), STy::Vector(..)) => STy::Vector(e, a),
        (STy::Matrix(e, a, _), STy::Matrix(_, _, c)) => STy::Matrix(e, a, c),
        (STy::Matrix(..), _) => l,
        (STy::Vector(..), _) => l,
        (_, STy::Matrix(..)) => r,
        _ => l,
    }
}

/// The type of an array literal of `n` elements of which the first has type `t`.
pub open spec fn array_ty(t: STy, n: nat) -> STy {
    match t {
        STy::Vector(e, k) => if aggregate(*e) {
            STy::Vector(Box::new(t), n as usize)
        } else {
            STy::Matrix(e, n as usize, k)
        },
        _ => STy::Vector(Box::new(t), n as usize),
    }
}

pub open spec fn three() -> STy {
    STy::Vector(Box::new(STy::F64), 3)
}

/// The type of a builtin's result, given the types of its first two arguments.
pub open spec fn builtin_ty(b: Builtin, args: Seq<Expr>, t0: STy, t1: STy) -> STy {
    match b {
        Builtin::Transpose => match t0 {
            STy::Matrix(e, r, c) => STy::Matrix(e, c, r),
            _ => STy::F64,
        },
        Builtin::Dot => match t0 {
            STy::Vector(e, _) => *e,
            _ => STy::F64,
        },
        Builtin::Cross => t0,
        Builtin::Zeros | Builtin::Ones => if args.len() == 1 {
            STy::Vector(Box::new(STy::F64), dim(literal(args[0])))
        } else if args.len() >= 2 {
            STy::Matrix(Box::new(STy::F64), dim(literal(args[0])), dim(literal(args[1])))
        } else {
            STy::Error
        },
        Builtin::Identity => if args.len() >= 1 {
            STy::Matrix(Box::new(STy::F64), dim(literal(args[0])), dim(literal(args[0])))
        } else {
            STy::Error
        },
        Builtin::Sum => elem_or(t0, STy::F64),
        Builtin::Len => STy::I64,
        Builtin::Norm
        | Builtin::Norm1
        | Builtin::NormInf
        | Builtin::FrobeniusNorm
        | Builtin::Distance
        | Builtin::Bearing
        | Builtin::Det => STy::F64,
        Builtin::Trace => match t0 {
            STy::Matrix(e, _, _) => *e,
            _ => STy::F64,
        },
        Builtin::IsSymmetric | Builtin::IsDiag | Builtin::IsSquare => STy::Bool,
        Builtin::LlaToEcef
        | Builtin::EcefToLla
        | Builtin::EcefToEnu
        | Builtin::EnuToEcef => three(),
        Builtin::KfPredictState => match t0 {
            STy::Vector(e, n) => STy::Vector(e, n),
            _ => STy::F64,
        },
        Builtin::KfPredictCov | Builtin::KfUpdateCov => match t0 {
            STy::Vector(e, n) => STy::Matrix(e, n, n),
            _ => STy::F64,
        },
        Builtin::Inv => t0,
        Builtin::Solve => t1,
        Builtin::Rank => STy::I64,
        Builtin::KfUpdateState => t0,
        _ => STy::Error,
    }
}

/// The type of an expression. A name that is not bound, and what has no type of
/// its own, counts as `i64`.
pub open spec fn ty_of(p: Program, e: Expr, sc: Slots) -> STy
    decreases e,
{
    match e {
        Expr::Int(..) => STy::I64,
        Expr::Float(..) => STy::F64,
        Expr::Bool(..) => STy::Bool,
        Expr::Str(..) => STy::Str,
        Expr::Ident(name, _) => slot_ty(sc, name@),
        Expr::Unary(op, a, _) => match op {
            UnOp::Not => STy::Bool,
            UnOp::Neg => ty_of(p, *a, sc),
        },
        Expr::Binary(op, l, r, _) => match op {
            BinOp::Eq
            | BinOp::NotEq
            | BinOp::Lt
            | BinOp::Gt
            | BinOp::LtEq
            | BinOp::GtEq
            | BinOp::And
            | BinOp::Or => STy::Bool,
            BinOp::Mul => product_ty(ty_of(p, *l, sc), ty_of(p, *r, sc)),
            _ => ty_of(p, *l, sc),
        },
        Expr::Assign(name, _, _) => slot_ty(sc, name@),
        Expr::Call(name, args, _) => match builtin_named(name@) {
            Some(b) => if unrolled(b) || in_runtime(b) {
                builtin_ty(
                    b,
                    args@,
                    if args@.len() > 0 {
                        ty_of(p, args@[0], sc)
                    } else {
                        STy::Error
                    },
                    if args@.len() > 1 {
                        ty_of(p, args@[1], sc)
                    } else {
                        STy::Error
                    },
                )
            } else {
                result_ty(p, name@)
            },
            None => result_ty(p, name@),
        },
        Expr::ArrayLit(args, _) => if args@.len() > 0 {
            array_ty(ty_of(p, args@[0], sc), args@.len())
        } else {
            STy::Error
        },
        Expr::Index(a, _, _) => elem_or(ty_of(p, *a, sc), STy::I64),
        Expr::Connect(..) => STy::Tcp,
        Expr::Listen(..) => STy::TcpListener,
        Expr::Accept(..) => STy::Tcp,
        Expr::Recv(a, _) => match ty_of(p, *a, sc) {
            STy::Tcp => STy::Str,
            STy::Channel(t) => *t,
            _ => STy::I64,
        },
        Expr::Box(a, _) => STy::Box(Box::new(ty_of(p, *a, sc))),
        Expr::Ref(a, _) => STy::Ref(Box::new(ty_of(p, *a, sc))),
        Expr::Deref(a, _) => match ty_of(p, *a, sc) {
            STy::Box(t) => *t,
            STy::Ref(t) => *t,
            _ => STy::I64,
        },
        _ => STy::I64,
    }
}

pub open spec fn slot_ty(sc: Slots, name: Text) -> STy {
    match lookup(sc, name) {
        Some(s) => s.0,
        None => STy::I64,
    }
}

/// The declared result of a function.
pub open spec fn result_ty(p: Program, name: Text) -> STy {
    match fn_named(p, name) {
        Some(i) => p.fns@[i].ret@,
        None => STy::I64,
    }
}

/// The value of a block: the type of its last expression.
pub open spec fn trailing_ty(p: Program, v: Seq<Stmt>, sc: Slots) -> STy {
    if v.len() == 0 {
        STy::Unit
    } else {
        match v.last() {
            Stmt::Expr(e) => ty_of(p, e, sc),
            _ => STy::Unit,
        }
    }
}

/// What stays the same while one function is made.
pub struct Plan<'a> {
    pub program: &'a Program,
    pub report: &'a SmtReport,
    pub free: &'a FreeMap,
    /// The result of the function that is being made.
    pub ret: Ty,
}

fn slot_type(sc: &Scopes<Slot>, name: &str) -> (r: Ty)
    ensures
        r@ == slot_ty(sc@, name@),
{
    match sc.get(name) {
        Some(s) => s.ty.duplicate(),
        None => Ty::I64,
    }
}

fn result_type(p: &Program, name: &str) -> (r: Ty)
    ensures
        r@ == result_ty(*p, name@),
{
    match find_fn(p, name) {
        Some(i) => p.fns[i].ret.duplicate(),
        None => Ty::I64,
    }
}

fn element_type(t: Ty, other: Ty) -> (r: Ty)
    ensures
        r@ == elem_or(t@, other@),
{
    match t {
        Ty::Vector(e, _) => *e,
        Ty::Matrix(e, _, _) => *e,
        _ => other,
    }
}

pub fn product_type(l: Ty, r: Ty) -> (t: Ty)
    ensures
        t@ == product_ty(l@, r@),
{
    match (l, r) {
        (Ty::Matrix(e, a, _), Ty::Vector(..)) => Ty::Vector(e, a),
        (Ty::Matrix(e, a, _), Ty::Matrix(_, _, c)) => Ty::Matrix(e, a, c),
        (Ty::Matrix(e, a, c), _) => Ty::Matrix(e, a, c),
        (Ty::Vector(e, n), _) => Ty::Vector(e, n),
        (_, Ty::Matrix(e, a, c)) => Ty::Matrix(e, a, c),
        (t, _) => t,
    }
}

pub fn array_type(t: Ty, n: usize) -> (r: Ty)
    ensures
        r@ == array_ty(t@, n as nat),
{
    proof {
        reveal_with_fuel(ty_view, 2);
    }
    match t {
        Ty::Vector(e, k) => if is_aggregate(&e) {
            Ty::Vector(Box::new(Ty::Vector(e, k)), n)
        } else {
            Ty::Matrix(e, n, k)
        },
        other => Ty::Vector(Box::new(other), n),
    }
}

fn builtin_type(b: Builtin, args: &Vec<Expr>, t0: Ty, t1: Ty) -> (r: Ty)
    ensures
        r@ == builtin_ty(b, args@, t0@, t1@),
{
    proof {
        reveal_with_fuel(ty_view, 2);
    }
    match b {
        Builtin::Transpose => match t0 {
            Ty::Matrix(e, r, c) => Ty::Matrix(e, c, r),
            _ => Ty::F64,
        },
        Builtin::Dot => match t0 {
            Ty::Vector(e, _) => *e,
            _ => Ty::F64,
        },
        Builtin::Cross | Builtin::Inv | Builtin::KfUpdateState => t0,
        Builtin::Zeros | Builtin::Ones => if args.len() == 1 {
            Ty::Vector(Box::new(Ty::F64), dimension(&args[0]))
        } else if args.len() >= 2 {
            Ty::Matrix(Box::new(Ty::F64), dimension(&args[0]), dimension(&args[1]))
        } else {
            Ty::Error
        },
        Builtin::Identity => if args.len() >= 1 {
            Ty::Matrix(Box::new(Ty::F64), dimension(&args[0]), dimension(&args[0]))
        } else {
            Ty::Error
        },
        Builtin::Sum => element_type(t0, Ty::F64),
        Builtin::Len | Builtin::Rank => Ty::I64,
        Builtin::Norm
        | Builtin::Norm1
        | Builtin::NormInf
        | Builtin::FrobeniusNorm
        | Builtin::Distance
        | Builtin::Bearing
        | Builtin::Det => Ty::F64,
        Builtin::Trace => match t0 {
            Ty::Matrix(e, _, _) => *e,
            _ => Ty::F64,
        },
        Builtin::IsSymmetric | Builtin::IsDiag | Builtin::IsSquare => Ty::Bool,
        Builtin::LlaToEcef
        | Builtin::EcefToLla
        | Builtin::EcefToEnu
        | Builtin::EnuToEcef => Ty::Vector(Box::new(Ty::F64), 3),
        Builtin::KfPredictState => match t0 {
            Ty::Vector(e, n) => Ty::Vector(e, n),
            _ => Ty::F64,
        },
        Builtin::KfPredictCov | Builtin::KfUpdateCov => match t0 {
            Ty::Vector(e, n) => Ty::Matrix(e, n, n),
            _ => Ty::F64,
        },
        Builtin::Solve => t1,
        _ => Ty::Error,
    }
}

/// The type of an expression.
pub fn local_ty_of(p: &Program, e: &Expr, sc: &Scopes<Slot>) -> (r: Ty)
    ensures
        r@ == ty_of(*p, *e, sc@),
    decreases e,
{
    match e {
        Expr::Int(..) => Ty::I64,
        Expr::Float(..) => Ty::F64,
        Expr::Bool(..) => Ty::Bool,
        Expr::Str(..) => Ty::Str,
        Expr::Ident(name, _) | Expr::Assign(name, _, _) => slot_type(sc, name.as_str()),
        Expr::Unary(op, a, _) => match op {
            UnOp::Not => Ty::Bool,
            UnOp::Neg => local_ty_of(p, a, sc),
        },
        Expr::Binary(op, l, r, _) => match op {
            BinOp::Eq
            | BinOp::NotEq
            | BinOp::Lt
            | BinOp::Gt
            | BinOp::LtEq
            | BinOp::GtEq
            | BinOp::And
            | BinOp::Or => Ty::Bool,
            BinOp::Mul => {
                let a = local_ty_of(p, l, sc);
                let b = local_ty_of(p, r, sc);
                product_type(a, b)
            }
            _ => local_ty_of(p, l, sc),
        },
        Expr::Call(name, args, _) => match Builtin::from_name(name.as_str()) {
            Some(b) => if is_unrolled(b) || is_in_runtime(b) {
                let t0 = if args.len() > 0 {
                    local_ty_of(p, &args[0], sc)
                } else {
                    Ty::Error
                };
                let t1 = if args.len() > 1 {
                    local_ty_of(p, &args[1], sc)
                } else {
                    Ty::Error
                };
                builtin_type(b, args, t0, t1)
            } else {
                result_type(p, name.as_str())
            },
            None => result_type(p, name.as_str()),
        },
        Expr::ArrayLit(args, _) => if args.len() > 0 {
            let t = local_ty_of(p, &args[0], sc);
            array_type(t, args.len())
        } else {
            Ty::Error
        },
        Expr::Index(a, _, _) => {
            let t = local_ty_of(p, a, sc);
            element_type(t, Ty::I64)
        }
        Expr::Connect(..) | Expr::Accept(..) => Ty::Tcp,
        Expr::Listen(..) => Ty::TcpListener,
        Expr::Recv(a, _) => match local_ty_of(p, a, sc) {
            Ty::Tcp => Ty::Str,
            Ty::Channel(t) => *t,
            _ => Ty::I64,
        },
        Expr::Box(a, _) => Ty::Box(Box::new(local_ty_of(p, a, sc))),
        Expr::Ref(a, _) => Ty::Ref(Box::new(local_ty_of(p, a, sc))),
        Expr::Deref(a, _) => match local_ty_of(p, a, sc) {
            Ty::Box(t) => *t,
            Ty::Ref(t) => *t,
            _ => Ty::I64,
        },
        _ => Ty::I64,
    }
}

/// Frees the boxes that the first `n` names hold.
pub open spec fn frees(cx: Cx, names: Seq<String>, sc: Slots, n: nat) -> Cx
    decreases n,
{
    if n == 0 {
        cx
    } else {
        let c = frees(cx, names, sc, (n - 1) as nat);
        match lookup(sc, names[n - 1]@) {
            None => c,
            Some(s) => {
                let h = define(c, names[n - 1]@ + ".heap_ptr"@, "load ptr, ptr "@ + s.1);
                free_box(h.0, h.1, s.0)
            },
        }
    }
}

/// Frees the boxes that some names hold.
#[verifier::opaque]
pub open spec fn free_all(cx: Cx, names: Seq<String>, sc: Slots) -> Cx {
    frees(cx, names, sc, names.len())
}

/// Aborts on a value outside of an integer type, unless the guard is waived or
/// proved away.
#[verifier::opaque]
pub open spec fn check_range(report: SmtReport, cx: Cx, val: Text, t: STy, span: Span) -> Cx {
    if cx.audited || report.proven_in_range@.contains(span) || !crate::ast::integer(t) {
        cx
    } else {
        guard_range(cx, val, crate::ast::least(t), crate::ast::greatest(t))
    }
}

/// Aborts on an index outside of its dimension, unless the guard is waived or
/// proved away.
#[verifier::opaque]
pub open spec fn check_index(report: SmtReport, cx: Cx, idx: Text, dim: nat, span: Span) -> Cx {
    if cx.audited || report.proven_index_bounds@.contains(span) {
        cx
    } else {
        guard_index(cx, idx, dim)
    }
}

impl Module {
    pub fn free_all(&mut self, names: &Vec<String>, sc: &Scopes<Slot>)
        ensures
            final(self)@ == free_all(old(self)@, names@, sc@),
    {
        proof {
            reveal(free_all);
        }
        let ghost cx = self@;
        let mut i: usize = 0;
        while i < names.len()
            invariant
                i <= names@.len(),
                self@ == frees(cx, names@, sc@, i as nat),
            decreases names@.len() - i,
        {
            match sc.get(names[i].as_str()) {
                None => {}
                Some(s) => {
                    let prefix = cat2(names[i].as_str(), ".heap_ptr");
                    let h = self.define(prefix.as_str(), cat2("load ptr, ptr ", s.ptr.as_str()));
                    self.free_box(h.as_str(), &s.ty);
                }
            }
            i = i + 1;
        }
    }

    pub fn free_at(&mut self, v: &Vec<(Span, Vec<String>)>, span: Span, sc: &Scopes<Slot>)
        ensures
            final(self)@ == free_all(old(self)@, names_at(v@, span, 0), sc@),
    {
        let mut i: usize = 0;
        while i < v.len()
            invariant
                i <= v@.len(),
                self@ == old(self)@,
                names_at(v@, span, 0) == names_at(v@, span, i as int),
            decreases v@.len() - i,
        {
            if v[i].0 == span {
                self.free_all(&v[i].1, sc);
                return;
            }
            i = i + 1;
        }
        proof {
            reveal(free_all);
        }
    }

    pub fn free_in(&mut self, v: &Vec<(String, Vec<String>)>, name: &str, sc: &Scopes<Slot>)
        ensures
            final(self)@ == free_all(old(self)@, names_in(v@, name@, 0), sc@),
    {
        let mut i: usize = 0;
        while i < v.len()
            invariant
                i <= v@.len(),
                self@ == old(self)@,
                names_in(v@, name@, 0) == names_in(v@, name@, i as int),
            decreases v@.len() - i,
        {
            if same(v[i].0.as_str(), name) {
                self.free_all(&v[i].1, sc);
                return;
            }
            i = i + 1;
        }
        proof {
            reveal(free_all);
        }
    }

    pub fn free_on(
        &mut self,
        v: &Vec<(Span, bool, Vec<String>)>,
        span: Span,
        first: bool,
        sc: &Scopes<Slot>,
    )
        ensures
            final(self)@ == free_all(old(self)@, names_on(v@, span, first, 0), sc@),
    {
        let mut i: usize = 0;
        while i < v.len()
            invariant
                i <= v@.len(),
                self@ == old(self)@,
                names_on(v@, span, first, 0) == names_on(v@, span, first, i as int),
            decreases v@.len() - i,
        {
            if v[i].0 == span && v[i].1 == first {
                self.free_all(&v[i].2, sc);
                return;
            }
            i = i + 1;
        }
        proof {
            reveal(free_all);
        }
    }

    pub fn check_range(&mut self, report: &SmtReport, val: &str, t: &Ty, span: Span)
        ensures
            final(self)@ == check_range(*report, old(self)@, val@, t@, span),
    {
        proof {
            reveal(check_range);
        }
        if !(self.audited || holds(&report.proven_in_range, span) || !t.is_integer()) {
            let (lo, hi) = t.bounds();
            self.guard_range(val, lo, hi);
        }
    }

    pub fn check_index(&mut self, report: &SmtReport, idx: &str, dim: usize, span: Span)
        ensures
            final(self)@ == check_index(*report, old(self)@, idx@, dim as nat, span),
    {
        proof {
            reveal(check_index);
        }
        if !(self.audited || holds(&report.proven_index_bounds, span)) {
            self.guard_index(idx, dim);
        }
    }
}

} // verus!
