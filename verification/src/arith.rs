//! Operators and builtin functions on values. Integer arithmetic wraps around
//! in 64 bits. Arithmetic on floating-point numbers is asked of the
//! surroundings.
use crate::ast::BinOp;
use crate::request::{Act, Request, SAct, SRequest};
use crate::scopes::Duplicate;
use crate::text::same;
use crate::token::Span;
use crate::value::{
    equal, float_below, float_eq, float_lt, floats_equal, kind_name, values_view, ErrorKind,
    Outcome, RuntimeError, SError, SErrorKind, SOutcome, SValue, Value,
};
use vstd::prelude::*;
use vstd::string::*;

verus! {

/// The bits of the floating-point number 1.
pub const ONE: u64 = 0x3FF0_0000_0000_0000;

pub open spec fn failed(kind: SErrorKind, span: Span) -> SOutcome {
    SOutcome::Fail(SError { kind, span })
}

pub open spec fn mismatch(expected: Seq<char>, found: Seq<char>, span: Span) -> SOutcome {
    failed(SErrorKind::TypeMismatch { expected, found }, span)
}

/// One step of integer arithmetic. The quotient of the least integer and -1,
/// which does not fit, has no result.
pub open spec fn int_op(op: BinOp, x: i64, y: i64, span: Span) -> SOutcome {
    match op {
        BinOp::Add => SOutcome::Val(SValue::Int(x.wrapping_add(y))),
        BinOp::Sub => SOutcome::Val(SValue::Int(x.wrapping_sub(y))),
        BinOp::Mul | BinOp::ElemMul => SOutcome::Val(SValue::Int(x.wrapping_mul(y))),
        BinOp::Div | BinOp::ElemDiv => if y == 0 {
            failed(SErrorKind::DivByZero, span)
        } else {
            match x.checked_div(y) {
                Some(q) => SOutcome::Val(SValue::Int(q)),
                None => SOutcome::Stuck,
            }
        },
        BinOp::Eq => SOutcome::Val(SValue::Bool(x == y)),
        BinOp::NotEq => SOutcome::Val(SValue::Bool(x != y)),
        BinOp::Lt => SOutcome::Val(SValue::Bool(x < y)),
        BinOp::Gt => SOutcome::Val(SValue::Bool(x > y)),
        BinOp::LtEq => SOutcome::Val(SValue::Bool(x <= y)),
        BinOp::GtEq => SOutcome::Val(SValue::Bool(x >= y)),
        BinOp::And | BinOp::Or => SOutcome::Stuck,
    }
}

/// One step of arithmetic on two elements.
pub open spec fn scalar(op: BinOp, a: SValue, b: SValue, span: Span) -> SOutcome {
    match (a, b) {
        (SValue::Int(x), SValue::Int(y)) => int_op(op, x, y, span),
        _ => SOutcome::Stuck,
    }
}

/// A list of results, or why there is none.
pub ghost enum SList {
    Vals(Seq<SValue>),
    Fail(SError),
    Stuck,
}

pub enum List {
    Vals(Vec<Value>),
    Fail(RuntimeError),
    Stuck,
}

impl View for List {
    type V = SList;

    open spec fn view(&self) -> SList {
        match *self {
            List::Vals(v) => SList::Vals(values_view(v@)),
            List::Fail(e) => SList::Fail(e@),
            List::Stuck => SList::Stuck,
        }
    }
}

/// `done` with one more result.
pub open spec fn listed(done: SList, next: SOutcome) -> SList {
    match done {
        SList::Vals(v) => match next {
            SOutcome::Val(x) => SList::Vals(v.push(x)),
            SOutcome::Fail(e) => SList::Fail(e),
            SOutcome::Stuck => SList::Stuck,
        },
        other => other,
    }
}

/// The first `n` results of combining two lists element by element.
pub open spec fn each(op: BinOp, a: Seq<SValue>, b: Seq<SValue>, n: nat, span: Span) -> SList
    decreases n,
{
    if n == 0 {
        SList::Vals(Seq::empty())
    } else {
        listed(each(op, a, b, (n - 1) as nat, span), scalar(op, a[n - 1], b[n - 1], span))
    }
}

/// The first `n` results of multiplying every element by `s`.
pub open spec fn scaled(a: Seq<SValue>, s: SValue, n: nat, span: Span) -> SList
    decreases n,
{
    if n == 0 {
        SList::Vals(Seq::empty())
    } else {
        listed(scaled(a, s, (n - 1) as nat, span), scalar(BinOp::Mul, a[n - 1], s, span))
    }
}

/// The product of two elements, where both exist.
pub open spec fn product(
    a: Seq<SValue>,
    i: int,
    b: Seq<SValue>,
    j: int,
    span: Span,
) -> SOutcome {
    if 0 <= i < a.len() && 0 <= j < b.len() {
        scalar(BinOp::Mul, a[i], b[j], span)
    } else {
        SOutcome::Stuck
    }
}

/// The sum of `n` products: of the elements of `a` from `i` on, each with the
/// element of `b` that stands `step` places behind the one before it, from `j` on.
pub open spec fn inner(
    a: Seq<SValue>,
    i: int,
    b: Seq<SValue>,
    j: int,
    step: int,
    n: nat,
    span: Span,
) -> SOutcome
    decreases n,
{
    if n == 0 {
        SOutcome::Stuck
    } else if n == 1 {
        product(a, i, b, j, span)
    } else {
        plus(
            inner(a, i, b, j, step, (n - 1) as nat, span),
            product(a, i + n - 1, b, j + (n - 1) * step, span),
            span,
        )
    }
}

/// The sum of two results, where both are there.
pub open spec fn plus(sum: SOutcome, p: SOutcome, span: Span) -> SOutcome {
    match sum {
        SOutcome::Val(x) => match p {
            SOutcome::Val(y) => scalar(BinOp::Add, x, y, span),
            other => other,
        },
        other => other,
    }
}

/// The first `n` entries of row `i` of the product of two matrices with `ac`
/// and `bc` columns.
pub open spec fn product_row(
    a: Seq<SValue>,
    ac: nat,
    b: Seq<SValue>,
    bc: nat,
    i: nat,
    n: nat,
    done: SList,
    span: Span,
) -> SList
    decreases n,
{
    if n == 0 {
        done
    } else {
        listed(
            product_row(a, ac, b, bc, i, (n - 1) as nat, done, span),
            inner(a, (i * ac) as int, b, n - 1, bc as int, ac, span),
        )
    }
}

/// The first `n` rows of the product of two matrices.
pub open spec fn product_rows(
    a: Seq<SValue>,
    ac: nat,
    b: Seq<SValue>,
    bc: nat,
    n: nat,
    span: Span,
) -> SList
    decreases n,
{
    if n == 0 {
        SList::Vals(Seq::empty())
    } else {
        product_row(
            a,
            ac,
            b,
            bc,
            (n - 1) as nat,
            bc,
            product_rows(a, ac, b, bc, (n - 1) as nat, span),
            span,
        )
    }
}

/// The first `n` entries of the product of a matrix and a vector.
pub open spec fn applied(
    m: Seq<SValue>,
    cols: nat,
    v: Seq<SValue>,
    n: nat,
    span: Span,
) -> SList
    decreases n,
{
    if n == 0 {
        SList::Vals(Seq::empty())
    } else {
        listed(
            applied(m, cols, v, (n - 1) as nat, span),
            inner(m, ((n - 1) * cols) as int, v, 0, 1, cols, span),
        )
    }
}

pub open spec fn any_float(v: Seq<SValue>) -> bool {
    exists|i: int| 0 <= i < v.len() && (#[trigger] v[i]) is Float
}

/// Whether a number, a vector or a matrix holds floating-point numbers.
pub open spec fn has_float(v: SValue) -> bool {
    match v {
        SValue::Float(_) => true,
        SValue::Vector(e) => any_float(e),
        SValue::Matrix(e, _, _) => any_float(e),
        _ => false,
    }
}

pub open spec fn as_vector(l: SList) -> SOutcome {
    match l {
        SList::Vals(v) => SOutcome::Val(SValue::Vector(v)),
        SList::Fail(e) => SOutcome::Fail(e),
        SList::Stuck => SOutcome::Stuck,
    }
}

pub open spec fn as_matrix(l: SList, r: usize, c: usize) -> SOutcome {
    match l {
        SList::Vals(v) => SOutcome::Val(SValue::Matrix(v, r, c)),
        SList::Fail(e) => SOutcome::Fail(e),
        SList::Stuck => SOutcome::Stuck,
    }
}

pub open spec fn least_len(a: nat, b: nat) -> nat {
    if a <= b {
        a
    } else {
        b
    }
}

/// Whether an operator works element by element.
pub open spec fn elementwise(op: BinOp) -> bool {
    op == BinOp::Add || op == BinOp::Sub || op == BinOp::ElemMul || op == BinOp::ElemDiv
}

/// What a floating-point comparison gives; `None` for arithmetic.
pub open spec fn float_test(op: BinOp, x: u64, y: u64) -> Option<bool> {
    match op {
        BinOp::Eq => Some(float_eq(x, y)),
        BinOp::NotEq => Some(!float_eq(x, y)),
        BinOp::Lt => Some(float_lt(x, y)),
        BinOp::Gt => Some(float_lt(y, x)),
        BinOp::LtEq => Some(float_lt(x, y) || float_eq(x, y)),
        BinOp::GtEq => Some(float_lt(y, x) || float_eq(x, y)),
        _ => None,
    }
}

/// The result of a binary operator other than `&&` and `||`.
pub open spec fn binary(op: BinOp, l: SValue, r: SValue, span: Span) -> SAct {
    let ask = SAct::Ask(SRequest::Arith(op, l, r));
    let floats = has_float(l) || has_float(r);
    match (l, r) {
        (SValue::Int(x), SValue::Int(y)) => SAct::Done(int_op(op, x, y, span)),
        (SValue::Float(x), SValue::Float(y)) => match float_test(op, x, y) {
            Some(b) => SAct::Done(SOutcome::Val(SValue::Bool(b))),
            None => if op == BinOp::And || op == BinOp::Or {
                SAct::Done(SOutcome::Stuck)
            } else {
                ask
            },
        },
        (SValue::Bool(x), SValue::Bool(y)) => SAct::Done(
            match op {
                BinOp::Eq => SOutcome::Val(SValue::Bool(x == y)),
                BinOp::NotEq => SOutcome::Val(SValue::Bool(x != y)),
                _ => mismatch("int"@, "bool"@, span),
            },
        ),
        (SValue::Str(x), SValue::Str(y)) => SAct::Done(
            match op {
                BinOp::Eq => SOutcome::Val(SValue::Bool(x == y)),
                BinOp::NotEq => SOutcome::Val(SValue::Bool(x != y)),
                _ => mismatch("int"@, "str"@, span),
            },
        ),
        (SValue::Vector(a), SValue::Vector(b)) => if elementwise(op) {
            if floats {
                ask
            } else {
                SAct::Done(as_vector(each(op, a, b, least_len(a.len(), b.len()), span)))
            }
        } else {
            SAct::Done(
                match op {
                    BinOp::Eq => SOutcome::Val(SValue::Bool(equal(l, r))),
                    BinOp::NotEq => SOutcome::Val(SValue::Bool(!equal(l, r))),
                    _ => SOutcome::Stuck,
                },
            )
        },
        (SValue::Matrix(a, ar, ac), SValue::Matrix(b, br, bc)) => if elementwise(op) {
            if floats {
                ask
            } else {
                SAct::Done(
                    as_matrix(each(op, a, b, least_len(a.len(), b.len()), span), ar, ac),
                )
            }
        } else if op == BinOp::Mul {
            if floats {
                ask
            } else {
                SAct::Done(
                    as_matrix(
                        product_rows(a, ac as nat, b, bc as nat, ar as nat, span),
                        ar,
                        bc,
                    ),
                )
            }
        } else {
            SAct::Done(
                match op {
                    BinOp::Eq => SOutcome::Val(SValue::Bool(equal(l, r))),
                    BinOp::NotEq => SOutcome::Val(SValue::Bool(!equal(l, r))),
                    _ => SOutcome::Stuck,
                },
            )
        },
        (SValue::Matrix(m, rows, cols), SValue::Vector(v)) => if floats {
            ask
        } else {
            SAct::Done(as_vector(applied(m, cols as nat, v, rows as nat, span)))
        },
        (SValue::Int(_), SValue::Matrix(e, rows, cols)) => if floats {
            ask
        } else {
            SAct::Done(as_matrix(scaled(e, l, e.len(), span), rows, cols))
        },
        (SValue::Matrix(e, rows, cols), SValue::Int(_)) => if floats {
            ask
        } else {
            SAct::Done(as_matrix(scaled(e, r, e.len(), span), rows, cols))
        },
        (SValue::Float(_), SValue::Matrix(..)) => ask,
        (SValue::Matrix(..), SValue::Float(_)) => ask,
        _ => SAct::Done(mismatch(kind_name(l), kind_name(r), span)),
    }
}

fn fail(kind: ErrorKind, span: Span) -> (r: Outcome)
    ensures
        r@ == failed(kind@, span),
{
    Outcome::Fail(RuntimeError { kind, span })
}

/// The outcome for a value of the wrong kind.
pub fn mismatched(expected: &str, found: &str, span: Span) -> (r: Outcome)
    ensures
        r@ == mismatch(expected@, found@, span),
{
    fail(
        ErrorKind::TypeMismatch { expected: expected.to_owned(), found: found.to_owned() },
        span,
    )
}

fn int_binop(op: BinOp, x: i64, y: i64, span: Span) -> (r: Outcome)
    ensures
        r@ == int_op(op, x, y, span),
{
    match op {
        BinOp::Add => Outcome::Val(Value::Int(x.wrapping_add(y))),
        BinOp::Sub => Outcome::Val(Value::Int(x.wrapping_sub(y))),
        BinOp::Mul | BinOp::ElemMul => Outcome::Val(Value::Int(x.wrapping_mul(y))),
        BinOp::Div | BinOp::ElemDiv => if y == 0 {
            fail(ErrorKind::DivByZero, span)
        } else {
            match x.checked_div(y) {
                Some(q) => Outcome::Val(Value::Int(q)),
                None => Outcome::Stuck,
            }
        },
        BinOp::Eq => Outcome::Val(Value::Bool(x == y)),
        BinOp::NotEq => Outcome::Val(Value::Bool(x != y)),
        BinOp::Lt => Outcome::Val(Value::Bool(x < y)),
        BinOp::Gt => Outcome::Val(Value::Bool(x > y)),
        BinOp::LtEq => Outcome::Val(Value::Bool(x <= y)),
        BinOp::GtEq => Outcome::Val(Value::Bool(x >= y)),
        BinOp::And | BinOp::Or => Outcome::Stuck,
    }
}

/// One step of arithmetic on two elements.
pub(crate) fn scalar_binop(op: BinOp, a: &Value, b: &Value, span: Span) -> (r: Outcome)
    ensures
        r@ == scalar(op, a@, b@, span),
{
    match (a, b) {
        (Value::Int(x), Value::Int(y)) => int_binop(op, *x, *y, span),
        _ => Outcome::Stuck,
    }
}

/// Adds one result to a list of results.
fn list_push(done: List, next: Outcome) -> (r: List)
    ensures
        r@ == listed(done@, next@),
{
    match done {
        List::Vals(v) => match next {
            Outcome::Val(x) => {
                let mut v = v;
                let ghost before = v@;
                let ghost xv = x@;
                v.push(x);
                proof {
                    assert(values_view(v@) =~= values_view(before).push(xv));
                }
                List::Vals(v)
            }
            Outcome::Fail(e) => List::Fail(e),
            Outcome::Stuck => List::Stuck,
        },
        other => other,
    }
}

fn no_values() -> (r: List)
    ensures
        r@ == SList::Vals(Seq::empty()),
{
    let v: Vec<Value> = Vec::new();
    proof {
        assert(values_view(v@) =~= Seq::<SValue>::empty());
    }
    List::Vals(v)
}

fn each_pair(op: BinOp, a: &Vec<Value>, b: &Vec<Value>, span: Span) -> (r: List)
    ensures
        r@ == each(
            op,
            values_view(a@),
            values_view(b@),
            least_len(values_view(a@).len(), values_view(b@).len()),
            span,
        ),
{
    let mut done = no_values();
    let mut i: usize = 0;
    while i < a.len() && i < b.len()
        invariant
            i <= a@.len(),
            i <= b@.len(),
            done@ == each(op, values_view(a@), values_view(b@), i as nat, span),
        decreases a@.len() - i,
    {
        let next = scalar_binop(op, &a[i], &b[i], span);
        done = list_push(done, next);
        i = i + 1;
    }
    done
}

fn scale(a: &Vec<Value>, s: &Value, span: Span) -> (r: List)
    ensures
        r@ == scaled(values_view(a@), s@, values_view(a@).len(), span),
{
    let mut done = no_values();
    let mut i: usize = 0;
    while i < a.len()
        invariant
            i <= a@.len(),
            done@ == scaled(values_view(a@), s@, i as nat, span),
        decreases a@.len() - i,
    {
        let next = scalar_binop(BinOp::Mul, &a[i], s, span);
        done = list_push(done, next);
        i = i + 1;
    }
    done
}

fn multiply(a: &Vec<Value>, i: Option<usize>, b: &Vec<Value>, j: Option<usize>, span: Span) -> (r:
    Outcome)
    ensures
        match (i, j) {
            (Some(x), Some(y)) => r@ == product(
                values_view(a@),
                x as int,
                values_view(b@),
                y as int,
                span,
            ),
            _ => r@ == SOutcome::Stuck,
        },
{
    match (i, j) {
        (Some(x), Some(y)) => if x < a.len() && y < b.len() {
            scalar_binop(BinOp::Mul, &a[x], &b[y], span)
        } else {
            Outcome::Stuck
        },
        _ => Outcome::Stuck,
    }
}

/// A place in a list, where it is one at all: the place that `i` stands for.
pub(crate) open spec fn is_place(o: Option<usize>, i: int) -> bool {
    match o {
        Some(x) => x == i,
        None => i > usize::MAX,
    }
}

fn forward(o: Option<usize>, step: usize) -> (r: Option<usize>)
    ensures
        forall|i: int| i >= 0 && is_place(o, i) ==> is_place(r, i + step),
{
    match o {
        Some(x) => x.checked_add(step),
        None => None,
    }
}

proof fn off_the_end(a: Seq<SValue>, i: int, b: Seq<SValue>, j: int, span: Span)
    requires
        a.len() <= usize::MAX,
        b.len() <= usize::MAX,
        i > usize::MAX || j > usize::MAX,
    ensures
        product(a, i, b, j, span) == SOutcome::Stuck,
{
}

proof fn next_place(j: int, k: int, step: int)
    ensures
        j + (k - 1) * step + step == j + k * step,
{
    assert((k - 1) * step + step == k * step) by (nonlinear_arith);
}

proof fn inner_step(
    a: Seq<SValue>,
    i: int,
    b: Seq<SValue>,
    j: int,
    step: int,
    k: nat,
    span: Span,
)
    requires
        k >= 1,
    ensures
        inner(a, i, b, j, step, k + 1, span) == plus(
            inner(a, i, b, j, step, k, span),
            product(a, i + k, b, j + k * step, span),
            span,
        ),
{
}

pub(crate) fn sum_up(sum: Outcome, p: Outcome, span: Span) -> (r: Outcome)
    ensures
        r@ == plus(sum@, p@, span),
{
    match sum {
        Outcome::Val(x) => match p {
            Outcome::Val(y) => scalar_binop(BinOp::Add, &x, &y, span),
            other => other,
        },
        other => other,
    }
}

pub(crate) fn inner_product(
    a: &Vec<Value>,
    i: Option<usize>,
    b: &Vec<Value>,
    j: usize,
    step: usize,
    n: usize,
    Ghost(start): Ghost<int>,
    span: Span,
) -> (r: Outcome)
    requires
        start >= 0,
        is_place(i, start),
    ensures
        r@ == inner(
            values_view(a@),
            start,
            values_view(b@),
            j as int,
            step as int,
            n as nat,
            span,
        ),
{
    if n == 0 {
        return Outcome::Stuck;
    }
    let la: usize = a.len();
    let lb: usize = b.len();
    let ghost av = values_view(a@);
    let ghost bv = values_view(b@);
    proof {
        if i is None {
            off_the_end(av, start, bv, j as int, span);
        }
    }
    let mut acc = multiply(a, i, b, Some(j), span);
    let mut pa = i;
    let mut pb = Some(j);
    let mut k: usize = 1;
    let ghost mut at: int = j as int;
    proof {
        assert(j + 0 * step == j);
    }
    while k < n
        invariant
            1 <= k <= n,
            start >= 0,
            av == values_view(a@),
            bv == values_view(b@),
            av.len() == la,
            bv.len() == lb,
            is_place(pa, start + k - 1),
            at == j + (k - 1) * step,
            at >= 0,
            is_place(pb, at),
            acc@ == inner(av, start, bv, j as int, step as int, k as nat, span),
        decreases n - k,
    {
        proof {
            next_place(j as int, k as int, step as int);
        }
        pa = forward(pa, 1);
        pb = forward(pb, step);
        let ghost x = start + k;
        let ghost y = at + step;
        proof {
            at = y;
            if pa is None || pb is None {
                off_the_end(av, x, bv, y, span);
            }
        }
        let p = multiply(a, pa, b, pb, span);
        acc = sum_up(acc, p, span);
        proof {
            inner_step(av, start, bv, j as int, step as int, k as nat, span);
        }
        k = k + 1;
    }
    acc
}

fn matrix_product(
    a: &Vec<Value>,
    rows: usize,
    ac: usize,
    b: &Vec<Value>,
    bc: usize,
    span: Span,
) -> (r: List)
    ensures
        r@ == product_rows(
            values_view(a@),
            ac as nat,
            values_view(b@),
            bc as nat,
            rows as nat,
            span,
        ),
{
    let ghost av = values_view(a@);
    let ghost bv = values_view(b@);
    let mut done = no_values();
    let mut i: usize = 0;
    let mut at: Option<usize> = Some(0);
    while i < rows
        invariant
            i <= rows,
            av == values_view(a@),
            bv == values_view(b@),
            is_place(at, i * ac),
            done@ == product_rows(av, ac as nat, bv, bc as nat, i as nat, span),
        decreases rows - i,
    {
        let ghost before = done@;
        proof {
            assert(i * ac >= 0) by (nonlinear_arith);
            assert((i + 1) * ac == i * ac + ac) by (nonlinear_arith);
        }
        let mut j: usize = 0;
        while j < bc
            invariant
                j <= bc,
                i < rows,
                i * ac >= 0,
                av == values_view(a@),
                bv == values_view(b@),
                is_place(at, i * ac),
                done@ == product_row(
                    av,
                    ac as nat,
                    bv,
                    bc as nat,
                    i as nat,
                    j as nat,
                    before,
                    span,
                ),
            decreases bc - j,
        {
            let sum = inner_product(a, at, b, j, bc, ac, Ghost((i * ac) as int), span);
            done = list_push(done, sum);
            j = j + 1;
        }
        at = forward(at, ac);
        i = i + 1;
    }
    done
}

fn matrix_times_vector(m: &Vec<Value>, rows: usize, cols: usize, v: &Vec<Value>, span: Span) -> (r:
    List)
    ensures
        r@ == applied(values_view(m@), cols as nat, values_view(v@), rows as nat, span),
{
    let ghost mv = values_view(m@);
    let mut done = no_values();
    let mut i: usize = 0;
    let mut at: Option<usize> = Some(0);
    while i < rows
        invariant
            i <= rows,
            mv == values_view(m@),
            is_place(at, i * cols),
            done@ == applied(mv, cols as nat, values_view(v@), i as nat, span),
        decreases rows - i,
    {
        proof {
            assert(i * cols >= 0) by (nonlinear_arith);
            assert((i + 1) * cols == i * cols + cols) by (nonlinear_arith);
        }
        let sum = inner_product(m, at, v, 0, 1, cols, Ghost((i * cols) as int), span);
        done = list_push(done, sum);
        at = forward(at, cols);
        i = i + 1;
    }
    done
}

pub(crate) fn holds_float(v: &Vec<Value>) -> (r: bool)
    ensures
        r == any_float(values_view(v@)),
{
    let mut i: usize = 0;
    while i < v.len()
        invariant
            i <= v@.len(),
            forall|j: int| 0 <= j < i ==> !((#[trigger] values_view(v@)[j]) is Float),
        decreases v@.len() - i,
    {
        if let Value::Float(_) = &v[i] {
            proof {
                assert(values_view(v@)[i as int] is Float);
            }
            return true;
        }
        i = i + 1;
    }
    false
}

/// Whether a number, a vector or a matrix holds floating-point numbers.
pub(crate) fn floating(v: &Value) -> (r: bool)
    ensures
        r == has_float(v@),
{
    match v {
        Value::Float(_) => true,
        Value::Vector(e) => holds_float(e),
        Value::Matrix(e, _, _) => holds_float(e),
        _ => false,
    }
}

fn into_vector(l: List) -> (r: Outcome)
    ensures
        r@ == as_vector(l@),
{
    match l {
        List::Vals(v) => Outcome::Val(Value::Vector(v)),
        List::Fail(e) => Outcome::Fail(e),
        List::Stuck => Outcome::Stuck,
    }
}

fn into_matrix(l: List, r: usize, c: usize) -> (o: Outcome)
    ensures
        o@ == as_matrix(l@, r, c),
{
    match l {
        List::Vals(v) => Outcome::Val(Value::Matrix(v, r, c)),
        List::Fail(e) => Outcome::Fail(e),
        List::Stuck => Outcome::Stuck,
    }
}

fn float_compare(op: BinOp, x: u64, y: u64) -> (r: Option<bool>)
    ensures
        r == float_test(op, x, y),
{
    match op {
        BinOp::Eq => Some(floats_equal(x, y)),
        BinOp::NotEq => Some(!floats_equal(x, y)),
        BinOp::Lt => Some(float_below(x, y)),
        BinOp::Gt => Some(float_below(y, x)),
        BinOp::LtEq => Some(float_below(x, y) || floats_equal(x, y)),
        BinOp::GtEq => Some(float_below(y, x) || floats_equal(x, y)),
        _ => None,
    }
}

fn is_elementwise(op: BinOp) -> (r: bool)
    ensures
        r == elementwise(op),
{
    matches!(op, BinOp::Add | BinOp::Sub | BinOp::ElemMul | BinOp::ElemDiv)
}

/// `==` and `!=` on values of one kind.
fn equality(op: BinOp, l: &Value, r: &Value) -> (o: Option<Outcome>)
    ensures
        match op {
            BinOp::Eq => o is Some && (o->0)@ == SOutcome::Val(SValue::Bool(equal(l@, r@))),
            BinOp::NotEq => o is Some && (o->0)@ == SOutcome::Val(
                SValue::Bool(!equal(l@, r@)),
            ),
            _ => o is None,
        },
{
    match op {
        BinOp::Eq => Some(Outcome::Val(Value::Bool(l.equals(r)))),
        BinOp::NotEq => Some(Outcome::Val(Value::Bool(!l.equals(r)))),
        _ => None,
    }
}

fn or_stuck(o: Option<Outcome>) -> (r: Outcome)
    ensures
        r@ == match o {
            Some(x) => x@,
            None => SOutcome::Stuck,
        },
{
    match o {
        Some(x) => x,
        None => Outcome::Stuck,
    }
}

/// The result of a binary operator other than `&&` and `||`.
pub fn eval_binary(op: BinOp, l: Value, r: Value, span: Span) -> (a: Act)
    ensures
        a@ == binary(op, l@, r@, span),
{
    let floats = floating(&l) || floating(&r);
    match (&l, &r) {
        (Value::Int(x), Value::Int(y)) => Act::Done(int_binop(op, *x, *y, span)),
        (Value::Float(x), Value::Float(y)) => match float_compare(op, *x, *y) {
            Some(b) => Act::Done(Outcome::Val(Value::Bool(b))),
            None => if matches!(op, BinOp::And | BinOp::Or) {
                Act::Done(Outcome::Stuck)
            } else {
                Act::Ask(Request::Arith(op, l, r))
            },
        },
        (Value::Bool(x), Value::Bool(y)) => match op {
            BinOp::Eq => Act::Done(Outcome::Val(Value::Bool(*x == *y))),
            BinOp::NotEq => Act::Done(Outcome::Val(Value::Bool(*x != *y))),
            _ => Act::Done(mismatched("int", "bool", span)),
        },
        (Value::Str(x), Value::Str(y)) => match op {
            BinOp::Eq => Act::Done(Outcome::Val(Value::Bool(same(x.as_str(), y.as_str())))),
            BinOp::NotEq => Act::Done(Outcome::Val(Value::Bool(!same(x.as_str(), y.as_str())))),
            _ => Act::Done(mismatched("int", "str", span)),
        },
        (Value::Vector(a), Value::Vector(b)) => if is_elementwise(op) {
            if floats {
                Act::Ask(Request::Arith(op, l, r))
            } else {
                Act::Done(into_vector(each_pair(op, a, b, span)))
            }
        } else {
            Act::Done(or_stuck(equality(op, &l, &r)))
        },
        (Value::Matrix(a, ar, ac), Value::Matrix(b, _, bc)) => if is_elementwise(op) {
            if floats {
                Act::Ask(Request::Arith(op, l, r))
            } else {
                Act::Done(into_matrix(each_pair(op, a, b, span), *ar, *ac))
            }
        } else if matches!(op, BinOp::Mul) {
            if floats {
                Act::Ask(Request::Arith(op, l, r))
            } else {
                Act::Done(into_matrix(matrix_product(a, *ar, *ac, b, *bc, span), *ar, *bc))
            }
        } else {
            Act::Done(or_stuck(equality(op, &l, &r)))
        },
        (Value::Matrix(m, rows, cols), Value::Vector(v)) => if floats {
            Act::Ask(Request::Arith(op, l, r))
        } else {
            Act::Done(into_vector(matrix_times_vector(m, *rows, *cols, v, span)))
        },
        (Value::Int(_), Value::Matrix(e, rows, cols)) => if floats {
            Act::Ask(Request::Arith(op, l, r))
        } else {
            Act::Done(into_matrix(scale(e, &l, span), *rows, *cols))
        },
        (Value::Matrix(e, rows, cols), Value::Int(_)) => if floats {
            Act::Ask(Request::Arith(op, l, r))
        } else {
            Act::Done(into_matrix(scale(e, &r, span), *rows, *cols))
        },
        (Value::Float(_), Value::Matrix(..)) | (Value::Matrix(..), Value::Float(_)) => Act::Ask(
            Request::Arith(op, l, r),
        ),
        _ => Act::Done(mismatched(l.ty_name(), r.ty_name(), span)),
    }
}

} // verus!
