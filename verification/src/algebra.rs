//! What the operators and builtin functions on vectors and matrices compute, as
//! mathematics has it: sums, products, transposes and comparisons of numbers.
use crate::arith::{
    any_float, applied, binary, each, float_test, inner, product_row, product_rows, scalar, scaled,
    SList, ONE,
};
use crate::ast::BinOp;
use crate::builtin_eval::{
    builtin_call, diagonal, filled, place_in_rows, row_bound, total, transposed, unit_matrix,
};
use crate::builtins::Builtin;
use crate::native::{integers_are_computed_with, quotient, wrapped};
use crate::request::SAct;
use crate::token::Span;
use crate::value::{all_equal, equal, float_eq, float_lt, float_neg, is_nan, SOutcome, SValue};
use vstd::arithmetic::div_mod::{lemma_fundamental_div_mod, lemma_mod_multiples_vanish};
use vstd::prelude::*;

verus! {

/// Integers, as the elements of a vector or matrix.
pub open spec fn ints(a: Seq<i64>) -> Seq<SValue> {
    Seq::new(a.len(), |i: int| SValue::Int(a[i]))
}

/// `f(0) + f(1) + ..`, `n` terms of it.
pub open spec fn sigma(f: spec_fn(int) -> int, n: nat) -> int
    decreases n,
{
    if n == 0 {
        0
    } else {
        sigma(f, (n - 1) as nat) + f(n - 1)
    }
}

/// What is done and comes out with a value.
pub open spec fn gives(act: SAct, v: SValue) -> bool {
    act == SAct::Done(SOutcome::Val(v))
}

/// A multiple of two to the 64 makes no difference.
proof fn shifted(n: int, k: int)
    ensures
        wrapped(n + 0x1_0000_0000_0000_0000 * k) == wrapped(n),
{
    let m = n + 0x8000_0000_0000_0000;
    lemma_mod_multiples_vanish(k, m, 0x1_0000_0000_0000_0000);
    assert(0x1_0000_0000_0000_0000 * k + m == n + 0x1_0000_0000_0000_0000 * k
        + 0x8000_0000_0000_0000);
}

/// How often two to the 64 is taken away.
proof fn off_by(n: int) -> (k: int)
    ensures
        wrapped(n) == n + 0x1_0000_0000_0000_0000 * k,
{
    let m = n + 0x8000_0000_0000_0000;
    lemma_fundamental_div_mod(m, 0x1_0000_0000_0000_0000);
    -(m / 0x1_0000_0000_0000_0000)
}

proof fn wrapping_once(p: int, q: int)
    ensures
        wrapped(wrapped(p) + wrapped(q)) == wrapped(p + q),
        wrapped(wrapped(p) - wrapped(q)) == wrapped(p - q),
        wrapped(wrapped(p) as int) == wrapped(p),
{
    let a = off_by(p);
    let b = off_by(q);
    shifted(p + q, a + b);
    shifted(p - q, a - b);
    shifted(p, a);
}

proof fn no_floats(a: Seq<i64>)
    ensures
        !any_float(ints(a)),
{
    assert forall|i: int| 0 <= i < ints(a).len() implies !((#[trigger] ints(a)[i]) is Float) by {}
}

proof fn each_is(op: BinOp, a: Seq<SValue>, b: Seq<SValue>, w: Seq<SValue>, n: nat, span: Span)
    requires
        n <= w.len(),
        forall|i: int|
            0 <= i < n ==> scalar(op, a[i], b[i], span) == SOutcome::Val(#[trigger] w[i]),
    ensures
        each(op, a, b, n, span) == SList::Vals(w.take(n as int)),
    decreases n,
{
    if n > 0 {
        each_is(op, a, b, w, (n - 1) as nat, span);
        assert(w.take(n - 1).push(w[n - 1]) =~= w.take(n as int));
        assert(scalar(op, a[n - 1], b[n - 1], span) == SOutcome::Val(w[n - 1]));
    } else {
        assert(w.take(0) =~= Seq::empty());
    }
}

proof fn scaled_is(a: Seq<SValue>, s: SValue, w: Seq<SValue>, n: nat, span: Span)
    requires
        n <= w.len(),
        forall|i: int|
            0 <= i < n ==> scalar(BinOp::Mul, a[i], s, span) == SOutcome::Val(#[trigger] w[i]),
    ensures
        scaled(a, s, n, span) == SList::Vals(w.take(n as int)),
    decreases n,
{
    if n > 0 {
        scaled_is(a, s, w, (n - 1) as nat, span);
        assert(w.take(n - 1).push(w[n - 1]) =~= w.take(n as int));
        assert(scalar(BinOp::Mul, a[n - 1], s, span) == SOutcome::Val(w[n - 1]));
    } else {
        assert(w.take(0) =~= Seq::empty());
    }
}

/// What an operator makes of two integers, where it works element by element.
pub open spec fn elements(op: BinOp, x: i64, y: i64) -> int {
    match op {
        BinOp::Add => wrapped(x + y) as int,
        BinOp::Sub => wrapped(x - y) as int,
        BinOp::ElemMul => wrapped(x * y) as int,
        _ => quotient(x as int, y as int),
    }
}

/// Vectors and matrices are added, subtracted, multiplied and divided element by element.
pub proof fn elements_are_combined(
    op: BinOp,
    a: Seq<i64>,
    b: Seq<i64>,
    r: usize,
    c: usize,
    span: Span,
)
    requires
        op == BinOp::Add || op == BinOp::Sub || op == BinOp::ElemMul || op == BinOp::ElemDiv,
        a.len() == b.len(),
        op == BinOp::ElemDiv ==> forall|i: int|
            0 <= i < a.len() ==> (#[trigger] b[i]) != 0 && !(a[i] == i64::MIN && b[i] == -1),
    ensures
        ({
            let w = Seq::new(a.len(), |i: int| SValue::Int(elements(op, a[i], b[i]) as i64));
            &&& gives(
                binary(op, SValue::Vector(ints(a)), SValue::Vector(ints(b)), span),
                SValue::Vector(w),
            )
            &&& gives(
                binary(op, SValue::Matrix(ints(a), r, c), SValue::Matrix(ints(b), r, c), span),
                SValue::Matrix(w, r, c),
            )
        }),
{
    let w = Seq::new(a.len(), |i: int| SValue::Int(elements(op, a[i], b[i]) as i64));
    no_floats(a);
    no_floats(b);
    assert forall|i: int| 0 <= i < a.len() implies scalar(op, ints(a)[i], ints(b)[i], span)
        == SOutcome::Val(#[trigger] w[i]) by {
        integers_are_computed_with(a[i], b[i], span);
        assert(op == BinOp::ElemDiv ==> b[i] != 0);
    }
    each_is(op, ints(a), ints(b), w, a.len(), span);
    assert(w.take(a.len() as int) =~= w);
}

/// A matrix is scaled element by element, from either side.
pub proof fn matrices_are_scaled(s: i64, a: Seq<i64>, r: usize, c: usize, span: Span)
    ensures
        ({
            let w = Seq::new(a.len(), |i: int| SValue::Int(wrapped(s * a[i])));
            &&& gives(
                binary(BinOp::Mul, SValue::Int(s), SValue::Matrix(ints(a), r, c), span),
                SValue::Matrix(w, r, c),
            )
            &&& gives(
                binary(BinOp::Mul, SValue::Matrix(ints(a), r, c), SValue::Int(s), span),
                SValue::Matrix(w, r, c),
            )
        }),
{
    let w = Seq::new(a.len(), |i: int| SValue::Int(wrapped(s * a[i])));
    no_floats(a);
    assert forall|i: int| 0 <= i < a.len() implies scalar(
        BinOp::Mul,
        ints(a)[i],
        SValue::Int(s),
        span,
    ) == SOutcome::Val(#[trigger] w[i]) by {
        integers_are_computed_with(a[i], s, span);
        assert(a[i] * s == s * a[i]) by (nonlinear_arith);
    }
    scaled_is(ints(a), SValue::Int(s), w, a.len(), span);
    assert(w.take(a.len() as int) =~= w);
}

/// Term `k` of a sum of products.
pub open spec fn term(
    a: Seq<i64>,
    i: int,
    b: Seq<i64>,
    j: int,
    step: int,
    f: spec_fn(int) -> int,
    k: int,
) -> bool {
    0 <= i + k < a.len() && 0 <= j + k * step < b.len() && f(k) == a[i + k] * b[j + k * step]
}

/// A sum of products.
proof fn inner_is(
    a: Seq<i64>,
    i: int,
    b: Seq<i64>,
    j: int,
    step: int,
    n: nat,
    f: spec_fn(int) -> int,
    span: Span,
)
    requires
        n >= 1,
        forall|k: int| 0 <= k < n ==> #[trigger] term(a, i, b, j, step, f, k),
    ensures
        inner(ints(a), i, ints(b), j, step, n, span) == SOutcome::Val(
            SValue::Int(wrapped(sigma(f, n))),
        ),
    decreases n,
{
    let last = n - 1;
    assert(term(a, i, b, j, step, f, last));
    integers_are_computed_with(a[i + last], b[j + last * step], span);
    if n == 1 {
        assert(last * step == 0) by (nonlinear_arith)
            requires
                last == 0,
        ;
        assert(sigma(f, 0) == 0);
        assert(sigma(f, 1) == f(0));
    } else {
        inner_is(a, i, b, j, step, (n - 1) as nat, f, span);
        let s = sigma(f, (n - 1) as nat);
        integers_are_computed_with(wrapped(s), wrapped(f(last)), span);
        wrapping_once(s, f(last));
        assert(i + n - 1 == i + last);
        assert((n - 1) * step == last * step);
    }
}

/// `dot` is the sum of the products of the elements.
pub proof fn dot_is_a_sum_of_products(a: Seq<i64>, b: Seq<i64>, rng: Option<u64>, span: Span)
    requires
        a.len() == b.len(),
        a.len() >= 1,
    ensures
        builtin_call(
            Builtin::Dot,
            seq![SValue::Vector(ints(a)), SValue::Vector(ints(b))],
            rng,
            span,
        ) == (
            SAct::Done(
                SOutcome::Val(SValue::Int(wrapped(sigma(|k: int| a[k] * b[k], a.len())))),
            ),
            rng,
        ),
{
    no_floats(a);
    no_floats(b);
    inner_is(a, 0, b, 0, 1, a.len(), |k: int| a[k] * b[k], span);
}

proof fn total_is(a: Seq<i64>, n: nat, span: Span)
    requires
        1 <= n <= a.len(),
    ensures
        total(ints(a), n, span) == SOutcome::Val(
            SValue::Int(wrapped(sigma(|k: int| a[k] as int, n))),
        ),
    decreases n,
{
    let f = |k: int| a[k] as int;
    let m = (n - 1) as nat;
    wrapping_once(f(n - 1), 0);
    assert(wrapped(f(n - 1)) == a[n - 1]);
    if n == 1 {
        assert(sigma(f, 0) == 0);
        assert(sigma(f, 1) == f(0));
    } else {
        total_is(a, m, span);
        integers_are_computed_with(wrapped(sigma(f, m)), a[n - 1], span);
        wrapping_once(sigma(f, m), f(n - 1));
    }
}

/// `sum` is the sum of the elements of a vector or matrix.
pub proof fn sums_are_sums(a: Seq<i64>, r: usize, c: usize, rng: Option<u64>, span: Span)
    requires
        a.len() >= 1,
    ensures
        ({
            let s = SValue::Int(wrapped(sigma(|k: int| a[k] as int, a.len())));
            &&& builtin_call(Builtin::Sum, seq![SValue::Vector(ints(a))], rng, span) == (
                SAct::Done(SOutcome::Val(s)),
                rng,
            )
            &&& builtin_call(Builtin::Sum, seq![SValue::Matrix(ints(a), r, c)], rng, span) == (
                SAct::Done(SOutcome::Val(s)),
                rng,
            )
        }),
{
    no_floats(a);
    total_is(a, a.len(), span);
}

proof fn diagonal_is(a: Seq<i64>, n: nat, k: nat, span: Span)
    requires
        1 <= k <= n,
        a.len() == n * n,
    ensures
        diagonal(ints(a), n, k, span) == SOutcome::Val(
            SValue::Int(wrapped(sigma(|i: int| a[i * n + i] as int, k))),
        ),
    decreases k,
{
    let f = |i: int| a[i * n + i] as int;
    let last = k - 1;
    assert(0 <= last * n + last < n * n) by (nonlinear_arith)
        requires
            0 <= last < n,
    ;
    assert(wrapped(f(last)) == a[last * n + last]);
    if k == 1 {
        assert(last * n == 0) by (nonlinear_arith)
            requires
                last == 0,
        ;
        assert(sigma(f, 0) == 0);
        assert(sigma(f, 1) == f(0));
    } else {
        let m = (k - 1) as nat;
        diagonal_is(a, n, m, span);
        integers_are_computed_with(wrapped(sigma(f, m)), a[last * n + last], span);
        wrapping_once(sigma(f, m), f(last));
    }
}

/// `trace` is the sum of the elements on the diagonal of a square matrix.
pub proof fn traces_are_sums_of_diagonals(a: Seq<i64>, n: usize, rng: Option<u64>, span: Span)
    requires
        n >= 1,
        a.len() == n * n,
    ensures
        builtin_call(Builtin::Trace, seq![SValue::Matrix(ints(a), n, n)], rng, span) == (
            SAct::Done(
                SOutcome::Val(
                    SValue::Int(wrapped(sigma(|i: int| a[i * n + i] as int, n as nat))),
                ),
            ),
            rng,
        ),
{
    no_floats(a);
    diagonal_is(a, n as nat, n as nat, span);
}

/// The sum of the products of row `i` of one matrix and column `j` of another, where
/// the first has `n` columns and the second `m`.
pub open spec fn row_by_column(a: Seq<i64>, n: nat, b: Seq<i64>, m: nat, i: int, j: int) -> int {
    sigma(|k: int| a[i * n + k] * b[k * m + j], n)
}

proof fn entry_is(a: Seq<i64>, r: nat, n: nat, b: Seq<i64>, m: nat, i: int, j: int, span: Span)
    requires
        0 <= i < r,
        0 <= j < m,
        n >= 1,
        a.len() == r * n,
        b.len() == n * m,
    ensures
        inner(ints(a), i * n, ints(b), j, m as int, n, span) == SOutcome::Val(
            SValue::Int(wrapped(row_by_column(a, n, b, m, i, j))),
        ),
{
    let f = |k: int| a[i * n + k] * b[k * m + j];
    assert forall|k: int| 0 <= k < n implies #[trigger] term(a, i * n, b, j, m as int, f, k) by {
        row_bound(i, r as int, n as int);
        row_bound(k, n as int, m as int);
        assert(j + k * m == k * m + j);
    }
    inner_is(a, i * n, b, j, m as int, n, f, span);
}

/// The elements of a product, row by row.
pub open spec fn product_of(a: Seq<i64>, r: nat, n: nat, b: Seq<i64>, m: nat) -> Seq<SValue> {
    Seq::new(
        r * m,
        |k: int| SValue::Int(wrapped(row_by_column(a, n, b, m, k / m as int, k % m as int))),
    )
}

proof fn row_is(
    a: Seq<i64>,
    r: nat,
    n: nat,
    b: Seq<i64>,
    m: nat,
    i: nat,
    k: nat,
    done: SList,
    span: Span,
)
    requires
        i < r,
        k <= m,
        n >= 1,
        a.len() == r * n,
        b.len() == n * m,
        done == SList::Vals(product_of(a, r, n, b, m).take((i * m) as int)),
    ensures
        product_row(ints(a), n, ints(b), m, i, k, done, span) == SList::Vals(
            product_of(a, r, n, b, m).take((i * m + k) as int),
        ),
    decreases k,
{
    let w = product_of(a, r, n, b, m);
    if k > 0 {
        row_is(a, r, n, b, m, i, (k - 1) as nat, done, span);
        entry_is(a, r, n, b, m, i as int, k - 1, span);
        row_bound(i as int, r as int, m as int);
        place_in_rows(i as int, k - 1, m as int);
        assert(i * m + k <= r * m);
        assert(w[i * m + (k - 1)] == SValue::Int(
            wrapped(row_by_column(a, n, b, m, i as int, k - 1)),
        ));
        assert(w.take(i * m + (k - 1)).push(w[i * m + (k - 1)]) =~= w.take((i * m + k) as int));
    }
}

proof fn rows_are(a: Seq<i64>, r: nat, n: nat, b: Seq<i64>, m: nat, i: nat, span: Span)
    requires
        i <= r,
        n >= 1,
        a.len() == r * n,
        b.len() == n * m,
    ensures
        product_rows(ints(a), n, ints(b), m, i, span) == SList::Vals(
            product_of(a, r, n, b, m).take((i * m) as int),
        ),
    decreases i,
{
    let w = product_of(a, r, n, b, m);
    if i == 0 {
        assert(i * m == 0) by (nonlinear_arith)
            requires
                i == 0,
        ;
        assert(w.take(0) =~= Seq::empty());
    } else {
        let before = (i - 1) as nat;
        rows_are(a, r, n, b, m, before, span);
        row_is(
            a,
            r,
            n,
            b,
            m,
            before,
            m,
            product_rows(ints(a), n, ints(b), m, before, span),
            span,
        );
        assert(before * m + m == i * m) by (nonlinear_arith)
            requires
                before + 1 == i,
        ;
    }
}

/// The product of two matrices holds, in row `i` and column `j`, the sum of the products
/// of row `i` of the first and column `j` of the second.
pub proof fn matrices_are_multiplied(
    a: Seq<i64>,
    r: usize,
    n: usize,
    b: Seq<i64>,
    m: usize,
    span: Span,
)
    requires
        n >= 1,
        a.len() == r * n,
        b.len() == n * m,
    ensures
        ({
            let w = product_of(a, r as nat, n as nat, b, m as nat);
            &&& gives(
                binary(BinOp::Mul, SValue::Matrix(ints(a), r, n), SValue::Matrix(ints(b), n, m), span),
                SValue::Matrix(w, r, m),
            )
            &&& w.len() == r * m
            &&& forall|i: int, j: int|
                0 <= i < r && 0 <= j < m ==> w[i * m + j] == SValue::Int(
                    wrapped(#[trigger] row_by_column(a, n as nat, b, m as nat, i, j)),
                )
        }),
{
    let w = product_of(a, r as nat, n as nat, b, m as nat);
    no_floats(a);
    no_floats(b);
    rows_are(a, r as nat, n as nat, b, m as nat, r as nat, span);
    assert(w.take((r * m) as int) =~= w);
    assert forall|i: int, j: int| 0 <= i < r && 0 <= j < m implies w[i * m + j] == SValue::Int(
        wrapped(#[trigger] row_by_column(a, n as nat, b, m as nat, i, j)),
    ) by {
        row_bound(i, r as int, m as int);
        place_in_rows(i, j, m as int);
    }
}

proof fn applied_is(a: Seq<i64>, r: nat, n: nat, b: Seq<i64>, k: nat, w: Seq<SValue>, span: Span)
    requires
        k <= r,
        n >= 1,
        a.len() == r * n,
        b.len() == n,
        w.len() == r,
        forall|i: int|
            0 <= i < r ==> (#[trigger] w[i]) == SValue::Int(
                wrapped(sigma(|k: int| a[i * n + k] * b[k], n)),
            ),
    ensures
        applied(ints(a), n, ints(b), k, span) == SList::Vals(w.take(k as int)),
    decreases k,
{
    if k == 0 {
        assert(w.take(0) =~= Seq::empty());
    } else {
        applied_is(a, r, n, b, (k - 1) as nat, w, span);
        let i = k - 1;
        let f = |k: int| a[i * n + k] * b[k];
        assert forall|k: int| 0 <= k < n implies #[trigger] term(a, i * n, b, 0, 1, f, k) by {
            row_bound(i, r as int, n as int);
        }
        inner_is(a, i * n, b, 0, 1, n, f, span);
        assert(w[i] == SValue::Int(wrapped(sigma(f, n))));
        assert(w.take(i).push(w[i]) =~= w.take(k as int));
    }
}

/// The product of a matrix and a vector holds, at `i`, the sum of the products of row `i`
/// and the vector.
pub proof fn matrices_are_applied(a: Seq<i64>, r: usize, n: usize, b: Seq<i64>, span: Span)
    requires
        n >= 1,
        a.len() == r * n,
        b.len() == n,
    ensures
        gives(
            binary(BinOp::Mul, SValue::Matrix(ints(a), r, n), SValue::Vector(ints(b)), span),
            SValue::Vector(
                Seq::new(
                    r as nat,
                    |i: int|
                        SValue::Int(wrapped(sigma(|k: int| a[i * n + k] * b[k], n as nat))),
                ),
            ),
        ),
{
    let w = Seq::new(
        r as nat,
        |i: int| SValue::Int(wrapped(sigma(|k: int| a[i * n + k] * b[k], n as nat))),
    );
    no_floats(a);
    no_floats(b);
    applied_is(a, r as nat, n as nat, b, r as nat, w, span);
    assert(w.take(r as int) =~= w);
}

/// What stands in row `i` and column `j` of a matrix stands in row `j` and column `i` of
/// its transpose.
pub proof fn transposes_swap_rows_and_columns(
    e: Seq<SValue>,
    r: usize,
    c: usize,
    i: int,
    j: int,
    rng: Option<u64>,
    span: Span,
)
    requires
        e.len() == r * c,
        0 <= i < r,
        0 <= j < c,
    ensures
        builtin_call(Builtin::Transpose, seq![SValue::Matrix(e, r, c)], rng, span) matches (
            SAct::Done(SOutcome::Val(SValue::Matrix(t, tr, tc))),
            s,
        ) && tr == c && tc == r && s == rng && t.len() == e.len() && t[j * r + i] == e[i * c + j],
{
    row_bound(j, c as int, r as int);
    assert(r * c == c * r) by (nonlinear_arith);
    place_in_rows(j, i, r as int);
}

/// The cross product of two vectors of three integers.
pub proof fn cross_products(a: Seq<i64>, b: Seq<i64>, rng: Option<u64>, span: Span)
    requires
        a.len() == 3,
        b.len() == 3,
    ensures
        builtin_call(
            Builtin::Cross,
            seq![SValue::Vector(ints(a)), SValue::Vector(ints(b))],
            rng,
            span,
        ) == (
            SAct::Done(
                SOutcome::Val(
                    SValue::Vector(
                        ints(
                            seq![
                                wrapped(a[1] * b[2] - a[2] * b[1]),
                                wrapped(a[2] * b[0] - a[0] * b[2]),
                                wrapped(a[0] * b[1] - a[1] * b[0]),
                            ],
                        ),
                    ),
                ),
            ),
            rng,
        ),
{
    no_floats(a);
    no_floats(b);
    cross_term_is(a, b, 1, 2, 2, 1, span);
    cross_term_is(a, b, 2, 0, 0, 2, span);
    cross_term_is(a, b, 0, 1, 1, 0, span);
    let w = seq![
        wrapped(a[1] * b[2] - a[2] * b[1]),
        wrapped(a[2] * b[0] - a[0] * b[2]),
        wrapped(a[0] * b[1] - a[1] * b[0]),
    ];
    assert(ints(w) =~= seq![SValue::Int(w[0]), SValue::Int(w[1]), SValue::Int(w[2])]);
}

proof fn cross_term_is(a: Seq<i64>, b: Seq<i64>, i: int, j: int, k: int, l: int, span: Span)
    requires
        0 <= i < a.len(),
        0 <= j < b.len(),
        0 <= k < a.len(),
        0 <= l < b.len(),
    ensures
        crate::builtin_eval::cross_term(ints(a), ints(b), i, j, k, l, span) == SOutcome::Val(
            SValue::Int(wrapped(a[i] * b[j] - a[k] * b[l])),
        ),
{
    integers_are_computed_with(a[i], b[j], span);
    integers_are_computed_with(a[k], b[l], span);
    integers_are_computed_with(wrapped(a[i] * b[j]), wrapped(a[k] * b[l]), span);
    wrapping_once(a[i] * b[j], a[k] * b[l]);
}

/// `zeros` and `ones` give vectors and matrices of one number.
pub proof fn constant_matrices(r: i64, c: i64, k: int, rng: Option<u64>, span: Span)
    requires
        0 <= r <= usize::MAX,
        0 <= c <= usize::MAX,
        r * c <= usize::MAX,
    ensures
        builtin_call(Builtin::Zeros, seq![SValue::Int(r), SValue::Int(c)], rng, span) matches (
            SAct::Done(SOutcome::Val(SValue::Matrix(e, er, ec))),
            _,
        ) && er == r && ec == c && e.len() == r * c && (0 <= k < e.len() ==> e[k] == SValue::Float(0)),
        builtin_call(Builtin::Ones, seq![SValue::Int(r), SValue::Int(c)], rng, span) matches (
            SAct::Done(SOutcome::Val(SValue::Matrix(e, er, ec))),
            _,
        ) && er == r && ec == c && e.len() == r * c && (0 <= k < e.len() ==> e[k] == SValue::Float(
            ONE,
        )),
        builtin_call(Builtin::Zeros, seq![SValue::Int(r)], rng, span) matches (
            SAct::Done(SOutcome::Val(SValue::Vector(e))),
            _,
        ) && e.len() == r && (0 <= k < e.len() ==> e[k] == SValue::Float(0)),
        builtin_call(Builtin::Ones, seq![SValue::Int(r)], rng, span) matches (
            SAct::Done(SOutcome::Val(SValue::Vector(e))),
            _,
        ) && e.len() == r && (0 <= k < e.len() ==> e[k] == SValue::Float(ONE)),
{
    let v = seq![SValue::Int(r)];
    let m = seq![SValue::Int(r), SValue::Int(c)];
    assert(v[0] == SValue::Int(r) && m[0] == SValue::Int(r) && m[1] == SValue::Int(c));
    assert(0 <= r * c) by (nonlinear_arith)
        requires
            0 <= r,
            0 <= c,
    ;
    assert(builtin_call(Builtin::Zeros, m, rng, span).0 == SAct::Done(filled(0, m)));
    assert(builtin_call(Builtin::Ones, m, rng, span).0 == SAct::Done(filled(ONE, m)));
    assert(builtin_call(Builtin::Zeros, v, rng, span).0 == SAct::Done(filled(0, v)));
    assert(builtin_call(Builtin::Ones, v, rng, span).0 == SAct::Done(filled(ONE, v)));
}

/// `identity` has ones on the diagonal and zeros everywhere else.
pub proof fn identities_have_one_diagonal(n: i64, i: int, j: int, rng: Option<u64>, span: Span)
    requires
        0 <= i < n,
        0 <= j < n,
        n * n <= usize::MAX,
    ensures
        builtin_call(Builtin::Identity, seq![SValue::Int(n)], rng, span) matches (
            SAct::Done(SOutcome::Val(SValue::Matrix(e, er, ec))),
            _,
        ) && er == n && ec == n && e.len() == n * n && e[i * n + j] == SValue::Float(
            if i == j {
                ONE
            } else {
                0
            },
        ),
{
    assert(n <= n * n) by (nonlinear_arith)
        requires
            0 <= i < n,
    ;
    row_bound(i, n as int, n as int);
    place_in_rows(i, j, n as int);
    let v = seq![SValue::Int(n)];
    assert(v[0] == SValue::Int(n));
    let e = unit_matrix(n as nat);
    assert(e.len() == n * n);
    assert(builtin_call(Builtin::Identity, v, rng, span).0 == SAct::Done(
        SOutcome::Val(SValue::Matrix(e, n as usize, n as usize)),
    ));
}

/// `len` counts, `is_square` compares the dimensions, `is_symmetric` compares a matrix with
/// its transpose, and `is_diag` says that nothing but zeros stands off the diagonal.
pub proof fn tests_of_matrices(e: Seq<SValue>, v: Seq<SValue>, r: usize, c: usize, rng: Option<u64>, span: Span)
    requires
        e.len() == r * r,
        v.len() <= i64::MAX,
        forall|i: int| 0 <= i < e.len() ==> (#[trigger] e[i]) is Float,
    ensures
        gives(
            builtin_call(Builtin::Len, seq![SValue::Vector(v)], rng, span).0,
            SValue::Int(v.len() as i64),
        ),
        gives(
            builtin_call(Builtin::IsSquare, seq![SValue::Matrix(v, r, c)], rng, span).0,
            SValue::Bool(r == c),
        ),
        gives(
            builtin_call(Builtin::IsSymmetric, seq![SValue::Matrix(e, r, r)], rng, span).0,
            SValue::Bool(
                equal(
                    SValue::Matrix(e, r, r),
                    SValue::Matrix(transposed(e, r as nat, r as nat), r, r),
                ),
            ),
        ),
        gives(
            builtin_call(Builtin::IsDiag, seq![SValue::Matrix(e, r, r)], rng, span).0,
            SValue::Bool(
                forall|k: int|
                    0 <= k < e.len() && k / r as int != k % r as int ==> equal(
                        #[trigger] e[k],
                        SValue::Float(0),
                    ),
            ),
        ),
{
    let n = r as int;
    let t = transposed(e, r as nat, r as nat);
    assert(crate::builtin_eval::symmetric(e, n) == all_equal(e, t)) by {
        if crate::builtin_eval::symmetric(e, n) {
            assert forall|k: int| 0 <= k < e.len() implies equal(#[trigger] e[k], t[k]) by {
                placed(k, n);
                let (i, j) = (k / n, k % n);
                assert(float_eq(
                    crate::builtin_eval::cell(e, n, i, j),
                    crate::builtin_eval::cell(e, n, j, i),
                ));
                row_bound(j, n, n);
                assert(e[j * n + i] is Float);
            }
        }
        if all_equal(e, t) {
            assert forall|i: int, j: int| 0 <= i < n && 0 <= j < n implies float_eq(
                #[trigger] crate::builtin_eval::cell(e, n, i, j),
                crate::builtin_eval::cell(e, n, j, i),
            ) by {
                row_bound(i, n, n);
                row_bound(j, n, n);
                place_in_rows(i, j, n);
                assert(equal(e[i * n + j], t[i * n + j]));
                assert(e[j * n + i] is Float);
            }
        }
    }
    let off = forall|k: int|
        0 <= k < e.len() && k / n != k % n ==> equal(#[trigger] e[k], SValue::Float(0));
    assert(crate::builtin_eval::is_diagonal(e, n) == off) by {
        if crate::builtin_eval::is_diagonal(e, n) {
            assert forall|k: int| 0 <= k < e.len() && k / n != k % n implies equal(
                #[trigger] e[k],
                SValue::Float(0),
            ) by {
                placed(k, n);
                assert(float_eq(crate::builtin_eval::cell(e, n, k / n, k % n), 0));
            }
        }
        if off {
            assert forall|i: int, j: int| 0 <= i < n && 0 <= j < n && i != j implies float_eq(
                #[trigger] crate::builtin_eval::cell(e, n, i, j),
                0,
            ) by {
                row_bound(i, n, n);
                place_in_rows(i, j, n);
                assert(equal(e[i * n + j], SValue::Float(0)));
            }
        }
    }
}

proof fn placed(k: int, n: int)
    requires
        0 <= k < n * n,
        0 <= n,
    ensures
        n > 0,
        0 <= k / n < n,
        0 <= k % n < n,
        k == (k / n) * n + k % n,
{
    assert(n > 0) by (nonlinear_arith)
        requires
            0 <= k < n * n,
            0 <= n,
    ;
    lemma_fundamental_div_mod(k, n);
    let q = k / n;
    let m = k % n;
    assert(n * q == q * n) by (nonlinear_arith);
    assert(0 <= q < n) by (nonlinear_arith)
        requires
            k == q * n + m,
            0 <= k < n * n,
            0 <= m < n,
    ;
}

/// Comparisons of floating-point numbers: with `NaN` only `!=` holds; of two others
/// exactly one of `<`, `==` and `>` does, `<=` and `>=` are what they say, and a change of
/// both signs turns an order round.
pub proof fn floats_are_ordered(x: u64, y: u64)
    ensures
        float_test(BinOp::NotEq, x, y) == Some(!float_test(BinOp::Eq, x, y)->0),
        float_test(BinOp::Gt, x, y) == float_test(BinOp::Lt, y, x),
        float_test(BinOp::GtEq, x, y) == float_test(BinOp::LtEq, y, x),
        float_test(BinOp::Eq, x, y) == float_test(BinOp::Eq, y, x),
        float_test(BinOp::LtEq, x, y) == Some(
            float_test(BinOp::Lt, x, y)->0 || float_test(BinOp::Eq, x, y)->0,
        ),
        is_nan(x) || is_nan(y) ==> float_test(BinOp::NotEq, x, y) == Some(true) && float_test(
            BinOp::LtEq,
            x,
            y,
        ) == Some(false) && float_test(BinOp::GtEq, x, y) == Some(false),
        !is_nan(x) && !is_nan(y) ==> {
            &&& float_test(BinOp::Lt, x, y)->0 || float_test(BinOp::Eq, x, y)->0 || float_test(
                BinOp::Gt,
                x,
                y,
            )->0
            &&& !(float_test(BinOp::Lt, x, y)->0 && float_test(BinOp::Gt, x, y)->0)
            &&& !(float_test(BinOp::Lt, x, y)->0 && float_test(BinOp::Eq, x, y)->0)
            &&& float_test(BinOp::Eq, x, x) == Some(true)
        },
        float_lt(float_neg(y), float_neg(x)) == float_lt(x, y),
        float_eq(float_neg(y), float_neg(x)) == float_eq(x, y),
        x < 0x7FF0_0000_0000_0000 && y < 0x7FF0_0000_0000_0000 ==> (float_lt(x, y) <==> x < y),
        0 < x < 0x7FF0_0000_0000_0000 ==> float_lt(float_neg(x), x),
        float_eq(0, float_neg(0)),
        float_neg(float_neg(x)) == x,
{
    negated(x);
    negated(y);
    negated(0);
    assert(x < 0x8000_0000_0000_0000u64 ==> x & 0x7FFF_FFFF_FFFF_FFFF == x) by (bit_vector);
    assert(y < 0x8000_0000_0000_0000u64 ==> y & 0x7FFF_FFFF_FFFF_FFFF == y) by (bit_vector);
    assert(0u64 & 0x7FFF_FFFF_FFFF_FFFF == 0) by (bit_vector);
    assert((x ^ 0x8000_0000_0000_0000) ^ 0x8000_0000_0000_0000 == x) by (bit_vector);
}

proof fn negated(x: u64)
    ensures
        float_neg(x) & 0x7FFF_FFFF_FFFF_FFFF == x & 0x7FFF_FFFF_FFFF_FFFF,
        float_neg(x) >= 0x8000_0000_0000_0000 <==> x < 0x8000_0000_0000_0000,
{
    assert((x ^ 0x8000_0000_0000_0000) & 0x7FFF_FFFF_FFFF_FFFF == x & 0x7FFF_FFFF_FFFF_FFFF)
        by (bit_vector);
    assert(x ^ 0x8000_0000_0000_0000 >= 0x8000_0000_0000_0000 <==> x < 0x8000_0000_0000_0000)
        by (bit_vector);
}

/// `==` on whole values: it is the same from both sides, values of different kinds are
/// never equal, and vectors of integers are equal exactly where they are the same.
pub proof fn equality_has_no_direction(a: SValue, b: SValue)
    ensures
        equal(a, b) == equal(b, a),
    decreases a,
{
    match (a, b) {
        (SValue::Vector(x), SValue::Vector(y)) => all_from_both_sides(x, y),
        (SValue::Matrix(x, _, _), SValue::Matrix(y, _, _)) => all_from_both_sides(x, y),
        (SValue::Boxed(x), SValue::Boxed(y)) => equality_has_no_direction(*x, *y),
        (SValue::Ref(x), SValue::Ref(y)) => equality_has_no_direction(*x, *y),
        (SValue::Struct(_, x), SValue::Struct(_, y)) => all_from_both_sides(x, y),
        (SValue::Enum(_, _, x), SValue::Enum(_, _, y)) => all_from_both_sides(x, y),
        _ => {},
    }
}

proof fn all_from_both_sides(a: Seq<SValue>, b: Seq<SValue>)
    ensures
        all_equal(a, b) == all_equal(b, a),
    decreases a,
{
    if a.len() == b.len() {
        assert forall|i: int| 0 <= i < a.len() implies equal(a[i], b[i]) == equal(b[i], a[i]) by {
            equality_has_no_direction(a[i], b[i]);
        }
    }
}

/// Values without floating-point numbers and file handles.
pub open spec fn exact(v: SValue) -> bool
    decreases v,
{
    match v {
        SValue::Float(_) | SValue::File(_) => false,
        SValue::Vector(x) => all_exact(x),
        SValue::Matrix(x, _, _) => all_exact(x),
        SValue::Boxed(x) => exact(*x),
        SValue::Ref(x) => exact(*x),
        SValue::Struct(_, x) => all_exact(x),
        SValue::Enum(_, _, x) => all_exact(x),
        _ => true,
    }
}

pub open spec fn all_exact(v: Seq<SValue>) -> bool
    decreases v,
{
    forall|i: int| 0 <= i < v.len() ==> exact(#[trigger] v[i])
}

/// Without floating-point numbers and file handles, values are equal exactly where they
/// are the same.
pub proof fn equal_values_are_the_same(a: SValue, b: SValue)
    requires
        exact(a),
    ensures
        equal(a, b) <==> a == b,
    decreases a,
{
    match (a, b) {
        (SValue::Vector(x), SValue::Vector(y)) => all_are_the_same(x, y),
        (SValue::Matrix(x, _, _), SValue::Matrix(y, _, _)) => all_are_the_same(x, y),
        (SValue::Boxed(x), SValue::Boxed(y)) => equal_values_are_the_same(*x, *y),
        (SValue::Ref(x), SValue::Ref(y)) => equal_values_are_the_same(*x, *y),
        (SValue::Struct(_, x), SValue::Struct(_, y)) => all_are_the_same(x, y),
        (SValue::Enum(_, _, x), SValue::Enum(_, _, y)) => all_are_the_same(x, y),
        _ => {},
    }
}

proof fn all_are_the_same(a: Seq<SValue>, b: Seq<SValue>)
    requires
        all_exact(a),
    ensures
        all_equal(a, b) <==> a == b,
    decreases a,
{
    if a.len() == b.len() {
        assert forall|i: int| 0 <= i < a.len() implies (equal(#[trigger] a[i], b[i]) <==> a[i] == b[i])
            by {
            assert(exact(a[i]));
            equal_values_are_the_same(a[i], b[i]);
        }
        if all_equal(a, b) {
            assert(a =~= b);
        }
    }
}

/// `==` and `!=` on vectors and matrices are opposites, and say whether the values are
/// equal.
pub proof fn whole_values_are_compared(a: SValue, b: SValue, span: Span)
    requires
        (a is Vector && b is Vector) || (a is Matrix && b is Matrix),
    ensures
        gives(binary(BinOp::Eq, a, b, span), SValue::Bool(equal(a, b))),
        gives(binary(BinOp::NotEq, a, b, span), SValue::Bool(!equal(a, b))),
{
}

} // verus!
