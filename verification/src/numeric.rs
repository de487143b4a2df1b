//! Code for vectors and matrices, unrolled element by element.
use crate::ast::{BinOp, STy, Ty};
use crate::geometry::{ONE_F, ZERO_F};
use crate::ir::{
    call1, call2, compare_floats, compare_ints, define, float_const, float_text, guard_test,
    lines_view, load, minus, plus, store, times, Cx, Module, Text,
};
use crate::text::{cat3, cat4};
use vstd::prelude::*;
use vstd::string::*;

verus! {

/// Aborts on a zero divisor, unless the guard is waived or proved away.
#[verifier::opaque]
pub open spec fn guard_divisor(cx: Cx, d: Text, proven: bool) -> Cx {
    if cx.audited || proven {
        cx
    } else {
        guard_test(cx, "div_zero"@, "icmp eq i64 "@ + d + ", 0"@, "div_trap"@, "div_ok"@)
    }
}

/// The sum of `n` products, at least one: of the elements of `a` from `i` on,
/// each with the element of `b` that stands `step` behind the one before it,
/// from `j` on.
pub open spec fn sum_products(
    cx: Cx,
    a: Text,
    b: Text,
    ty: Text,
    elem: STy,
    float: bool,
    i: nat,
    j: nat,
    step: nat,
    n: nat,
) -> (Cx, Text)
    decreases n,
{
    if n <= 1 {
        let x = load(cx, a, ty, elem, i);
        let y = load(x.0, b, ty, elem, j);
        times(y.0, x.1, y.1, float)
    } else {
        let p = sum_products(cx, a, b, ty, elem, float, i, j, step, (n - 1) as nat);
        let x = load(p.0, a, ty, elem, (i + n - 1) as nat);
        let y = load(x.0, b, ty, elem, (j + (n - 1) * step) as nat);
        let m = times(y.0, x.1, y.1, float);
        plus(m.0, p.1, m.1, float)
    }
}

/// The sum of the first `n` elements, at least one.
pub open spec fn sum_elements(cx: Cx, a: Text, ty: Text, elem: STy, float: bool, n: nat) -> (
    Cx,
    Text,
)
    decreases n,
{
    if n <= 1 {
        load(cx, a, ty, elem, 0)
    } else {
        let p = sum_elements(cx, a, ty, elem, float, (n - 1) as nat);
        let x = load(p.0, a, ty, elem, (n - 1) as nat);
        plus(x.0, p.1, x.1, float)
    }
}

/// The sum of the first `n` squares, at least one.
pub open spec fn sum_squares(cx: Cx, a: Text, n: nat) -> (Cx, Text)
    decreases n,
{
    if n <= 1 {
        let x = load(cx, a, "double"@, STy::F64, 0);
        times(x.0, x.1, x.1, true)
    } else {
        let p = sum_squares(cx, a, (n - 1) as nat);
        let x = load(p.0, a, "double"@, STy::F64, (n - 1) as nat);
        let s = times(x.0, x.1, x.1, true);
        plus(s.0, p.1, s.1, true)
    }
}

/// The sum, or the greatest, of the first `n` magnitudes, at least one.
pub open spec fn magnitudes(cx: Cx, a: Text, greatest: bool, n: nat) -> (Cx, Text)
    decreases n,
{
    if n <= 1 {
        let x = load(cx, a, "double"@, STy::F64, 0);
        call1(x.0, "@llvm.fabs.f64"@, x.1)
    } else {
        let p = magnitudes(cx, a, greatest, (n - 1) as nat);
        let x = load(p.0, a, "double"@, STy::F64, (n - 1) as nat);
        let m = call1(x.0, "@llvm.fabs.f64"@, x.1);
        if greatest {
            call2(m.0, "@llvm.maxnum.f64"@, p.1, m.1)
        } else {
            plus(m.0, p.1, m.1, true)
        }
    }
}

/// The sum of the first `k` elements on the diagonal, at least one.
pub open spec fn sum_diagonal(cx: Cx, a: Text, ty: Text, elem: STy, float: bool, n: nat, k: nat) -> (
    Cx,
    Text,
)
    decreases k,
{
    if k <= 1 {
        load(cx, a, ty, elem, 0)
    } else {
        let p = sum_diagonal(cx, a, ty, elem, float, n, (k - 1) as nat);
        let x = load(p.0, a, ty, elem, ((k - 1) * n + (k - 1)) as nat);
        plus(x.0, p.1, x.1, float)
    }
}

/// The sum of the first `n` squared differences, at least one.
pub open spec fn sum_distances(cx: Cx, a: Text, b: Text, n: nat) -> (Cx, Text)
    decreases n,
{
    if n <= 1 {
        let x = load(cx, a, "double"@, STy::F64, 0);
        let y = load(x.0, b, "double"@, STy::F64, 0);
        let d = minus(y.0, x.1, y.1);
        times(d.0, d.1, d.1, true)
    } else {
        let p = sum_distances(cx, a, b, (n - 1) as nat);
        let x = load(p.0, a, "double"@, STy::F64, (n - 1) as nat);
        let y = load(x.0, b, "double"@, STy::F64, (n - 1) as nat);
        let d = minus(y.0, x.1, y.1);
        let s = times(d.0, d.1, d.1, true);
        plus(s.0, p.1, s.1, true)
    }
}

/// A text that may be missing.
pub open spec fn maybe(o: Option<String>) -> Option<Text> {
    match o {
        Some(t) => Some(t@),
        None => None,
    }
}

/// A test and the tests before it.
pub open spec fn and_also(cx: Cx, acc: Option<Text>, test: Text, prefix: Text) -> (
    Cx,
    Option<Text>,
) {
    match acc {
        None => (cx, Some(test)),
        Some(prev) => {
            let d = define(cx, prefix, "and i1 "@ + prev + ", "@ + test);
            (d.0, Some(d.1))
        },
    }
}

/// Tests on the first `k` entries of row `i` of a square matrix: that each
/// equals the entry across the diagonal, or that each off the diagonal is zero.
pub open spec fn test_row(
    cx: Cx,
    acc: Option<Text>,
    a: Text,
    n: nat,
    diagonal: bool,
    i: nat,
    k: nat,
) -> (Cx, Option<Text>)
    decreases k,
{
    if k == 0 {
        (cx, acc)
    } else {
        let p = test_row(cx, acc, a, n, diagonal, i, (k - 1) as nat);
        if diagonal && i == k - 1 {
            p
        } else {
            let l = load(p.0, a, "double"@, STy::F64, (i * n + (k - 1)) as nat);
            let r = if diagonal {
                (l.0, float_const(ZERO_F))
            } else {
                load(l.0, a, "double"@, STy::F64, ((k - 1) * n + i) as nat)
            };
            let t = compare_floats(r.0, "oeq"@, l.1, r.1);
            and_also(t.0, p.1, t.1, "builtin_and"@)
        }
    }
}

/// Tests on the first `k` rows.
pub open spec fn test_rows(cx: Cx, a: Text, n: nat, diagonal: bool, k: nat) -> (Cx, Option<Text>)
    decreases k,
{
    if k == 0 {
        (cx, None)
    } else {
        let p = test_rows(cx, a, n, diagonal, (k - 1) as nat);
        test_row(p.0, p.1, a, n, diagonal, (k - 1) as nat, n)
    }
}

/// Whether the first `n` elements are equal.
pub open spec fn test_equal(cx: Cx, a: Text, b: Text, ty: Text, elem: STy, float: bool, n: nat) -> (
    Cx,
    Option<Text>,
)
    decreases n,
{
    if n == 0 {
        (cx, None)
    } else {
        let p = test_equal(cx, a, b, ty, elem, float, (n - 1) as nat);
        let l = load(p.0, a, ty, elem, (n - 1) as nat);
        let r = load(l.0, b, ty, elem, (n - 1) as nat);
        let t = if float {
            compare_floats(r.0, "oeq"@, l.1, r.1)
        } else {
            compare_ints(r.0, "eq"@, "i64"@, l.1, r.1)
        };
        and_also(t.0, p.1, t.1, "agg_eq_and"@)
    }
}

/// Stores the first `k` entries of column `j` of a matrix as row `j` of another.
pub open spec fn turn_column(
    cx: Cx,
    m: Text,
    dest: Text,
    ty: Text,
    elem: STy,
    rows: nat,
    cols: nat,
    j: nat,
    k: nat,
) -> Cx
    decreases k,
{
    if k == 0 {
        cx
    } else {
        let c = turn_column(cx, m, dest, ty, elem, rows, cols, j, (k - 1) as nat);
        let v = load(c, m, ty, elem, ((k - 1) * cols + j) as nat);
        store(v.0, dest, ty, elem, (j * rows + (k - 1)) as nat, v.1)
    }
}

/// Stores the first `k` columns of a matrix as the rows of another.
pub open spec fn turn_columns(
    cx: Cx,
    m: Text,
    dest: Text,
    ty: Text,
    elem: STy,
    rows: nat,
    cols: nat,
    k: nat,
) -> Cx
    decreases k,
{
    if k == 0 {
        cx
    } else {
        let c = turn_columns(cx, m, dest, ty, elem, rows, cols, (k - 1) as nat);
        turn_column(c, m, dest, ty, elem, rows, cols, (k - 1) as nat, rows)
    }
}

/// Stores one entry of a cross product: `a[i] * b[j] - a[k] * b[l]`.
#[verifier::opaque]
pub open spec fn cross_entry(
    cx: Cx,
    a: Text,
    b: Text,
    dest: Text,
    ty: Text,
    elem: STy,
    float: bool,
    at: nat,
    ij: (nat, nat),
    kl: (nat, nat),
) -> Cx {
    let ai = load(cx, a, ty, elem, ij.0);
    let bj = load(ai.0, b, ty, elem, ij.1);
    let p1 = times(bj.0, ai.1, bj.1, float);
    let ak = load(p1.0, a, ty, elem, kl.0);
    let bl = load(ak.0, b, ty, elem, kl.1);
    let p2 = times(bl.0, ak.1, bl.1, float);
    let c = if float {
        minus(p2.0, p1.1, p2.1)
    } else {
        define(p2.0, "agg_sub"@, "sub i64 "@ + p1.1 + ", "@ + p2.1)
    };
    store(c.0, dest, ty, elem, at, c.1)
}

/// Stores a cross product.
#[verifier::opaque]
pub open spec fn cross_product(
    cx: Cx,
    a: Text,
    b: Text,
    dest: Text,
    ty: Text,
    elem: STy,
    float: bool,
) -> Cx {
    let c0 = cross_entry(cx, a, b, dest, ty, elem, float, 0, (1, 2), (2, 1));
    let c1 = cross_entry(
            c0,
            a,
            b,
            dest,
            ty,
            elem,
            float,
            1,
            (2, 0),
            (0, 2),
        );
    cross_entry(c1, a, b, dest, ty, elem, float, 2, (0, 1), (1, 0))
}

/// Stores one number in the first `n` places.
pub open spec fn fill(cx: Cx, dest: Text, val: Text, n: nat) -> Cx
    decreases n,
{
    if n == 0 {
        cx
    } else {
        let c = fill(cx, dest, val, (n - 1) as nat);
        store(c, dest, "double"@, STy::F64, (n - 1) as nat, val)
    }
}

/// Stores the first `k` entries of row `i` of the identity.
pub open spec fn unit_row(cx: Cx, dest: Text, n: nat, i: nat, k: nat) -> Cx
    decreases k,
{
    if k == 0 {
        cx
    } else {
        let c = unit_row(cx, dest, n, i, (k - 1) as nat);
        store(
                c,
                dest,
                "double"@,
                STy::F64,
                (i * n + (k - 1)) as nat,
                float_const(if i == k - 1 { ONE_F } else { ZERO_F }),
            )
    }
}

/// Stores the first `k` rows of the identity.
pub open spec fn unit_rows(cx: Cx, dest: Text, n: nat, k: nat) -> Cx
    decreases k,
{
    if k == 0 {
        cx
    } else {
        let c = unit_rows(cx, dest, n, (k - 1) as nat);
        unit_row(c, dest, n, (k - 1) as nat, n)
    }
}

/// One elementwise operation.
#[verifier::opaque]
pub open spec fn combine(cx: Cx, op: BinOp, l: Text, r: Text, float: bool, proven: bool) -> (
    Cx,
    Text,
) {
    match op {
        BinOp::Add => plus(cx, l, r, float),
        BinOp::Sub => define(
            cx,
            "agg_sub"@,
            if float {
                "fsub double "@ + l + ", "@ + r
            } else {
                "sub i64 "@ + l + ", "@ + r
            },
        ),
        BinOp::ElemMul => times(cx, l, r, float),
        _ => if float {
            define(cx, "agg_fdiv"@, "fdiv double "@ + l + ", "@ + r)
        } else {
            define(guard_divisor(cx, r, proven), "agg_sdiv"@, "sdiv i64 "@ + l + ", "@ + r)
        },
    }
}

/// Stores the first `n` results of an elementwise operation.
pub open spec fn combine_all(
    cx: Cx,
    op: BinOp,
    a: Text,
    b: Text,
    dest: Text,
    ty: Text,
    elem: STy,
    float: bool,
    proven: bool,
    n: nat,
) -> Cx
    decreases n,
{
    if n == 0 {
        cx
    } else {
        let c = combine_all(cx, op, a, b, dest, ty, elem, float, proven, (n - 1) as nat);
        let l = load(c, a, ty, elem, (n - 1) as nat);
        let r = load(l.0, b, ty, elem, (n - 1) as nat);
        let o = combine(r.0, op, l.1, r.1, float, proven);
        store(o.0, dest, ty, elem, (n - 1) as nat, o.1)
    }
}

/// Stores the first `n` elements times a number.
pub open spec fn scale(
    cx: Cx,
    scalar: Text,
    m: Text,
    dest: Text,
    ty: Text,
    elem: STy,
    float: bool,
    n: nat,
) -> Cx
    decreases n,
{
    if n == 0 {
        cx
    } else {
        let c = scale(cx, scalar, m, dest, ty, elem, float, (n - 1) as nat);
        let x = load(c, m, ty, elem, (n - 1) as nat);
        let o = times(x.0, x.1, scalar, float);
        store(o.0, dest, ty, elem, (n - 1) as nat, o.1)
    }
}

/// Stores the first `k` entries of the product of a matrix and a vector.
pub open spec fn apply_matrix(
    cx: Cx,
    m: Text,
    v: Text,
    dest: Text,
    ty: Text,
    elem: STy,
    float: bool,
    cols: nat,
    k: nat,
) -> Cx
    decreases k,
{
    if k == 0 {
        cx
    } else {
        let c = apply_matrix(cx, m, v, dest, ty, elem, float, cols, (k - 1) as nat);
        let s = sum_products(
                    c,
                    m,
                    v,
                    ty,
                    elem,
                    float,
                    ((k - 1) * cols) as nat,
                    0,
                    1,
                    cols,
                );
        store(s.0, dest, ty, elem, (k - 1) as nat, s.1)
    }
}

/// Stores the first `k` entries of row `i` of the product of two matrices.
pub open spec fn product_row(
    cx: Cx,
    a: Text,
    b: Text,
    dest: Text,
    ty: Text,
    elem: STy,
    float: bool,
    ac: nat,
    bc: nat,
    i: nat,
    k: nat,
) -> Cx
    decreases k,
{
    if k == 0 {
        cx
    } else {
        let c = product_row(cx, a, b, dest, ty, elem, float, ac, bc, i, (k - 1) as nat);
        let s = sum_products(
                    c,
                    a,
                    b,
                    ty,
                    elem,
                    float,
                    i * ac,
                    (k - 1) as nat,
                    bc,
                    ac,
                );
        store(s.0, dest, ty, elem, (i * bc + (k - 1)) as nat, s.1)
    }
}

/// Stores the first `k` rows of the product of two matrices.
pub open spec fn product_rows(
    cx: Cx,
    a: Text,
    b: Text,
    dest: Text,
    ty: Text,
    elem: STy,
    float: bool,
    ac: nat,
    bc: nat,
    k: nat,
) -> Cx
    decreases k,
{
    if k == 0 {
        cx
    } else {
        let c = product_rows(cx, a, b, dest, ty, elem, float, ac, bc, (k - 1) as nat);
        product_row(
                c,
                a,
                b,
                dest,
                ty,
                elem,
                float,
                ac,
                bc,
                (k - 1) as nat,
                bc,
            )
    }
}

/// The first `k` entries of row `i` of the product of two square matrices,
/// behind the entries made before.
pub open spec fn entries_row(cx: Cx, done: Seq<Text>, a: Text, b: Text, n: nat, i: nat, k: nat) -> (
    Cx,
    Seq<Text>,
)
    decreases k,
{
    if k == 0 {
        (cx, done)
    } else {
        let p = entries_row(cx, done, a, b, n, i, (k - 1) as nat);
        let s = sum_products(p.0, a, b, "double"@, STy::F64, true, i * n, (k - 1) as nat, n, n);
        (s.0, p.1.push(s.1))
    }
}

/// The first `k` rows of entries.
pub open spec fn entries(cx: Cx, a: Text, b: Text, n: nat, k: nat) -> (Cx, Seq<Text>)
    decreases k,
{
    if k == 0 {
        (cx, Seq::empty())
    } else {
        let p = entries(cx, a, b, n, (k - 1) as nat);
        entries_row(p.0, p.1, a, b, n, (k - 1) as nat, n)
    }
}

/// The first `k` entries of the product of a square matrix and a vector.
pub open spec fn image(cx: Cx, m: Text, v: Text, n: nat, k: nat) -> (Cx, Seq<Text>)
    decreases k,
{
    if k == 0 {
        (cx, Seq::empty())
    } else {
        let p = image(cx, m, v, n, (k - 1) as nat);
        let s = sum_products(
            p.0,
            m,
            v,
            "double"@,
            STy::F64,
            true,
            ((k - 1) * n) as nat,
            0,
            1,
            n,
        );
        (s.0, p.1.push(s.1))
    }
}

/// The sum of `n` products, at least one: of the values from `i` on with the
/// elements of `b` from `j` on.
pub open spec fn sum_value_products(cx: Cx, vals: Seq<Text>, i: nat, b: Text, j: nat, n: nat) -> (
    Cx,
    Text,
)
    decreases n,
{
    if n <= 1 {
        let y = load(cx, b, "double"@, STy::F64, j);
        times(y.0, vals[i as int], y.1, true)
    } else {
        let p = sum_value_products(cx, vals, i, b, j, (n - 1) as nat);
        let y = load(p.0, b, "double"@, STy::F64, (j + n - 1) as nat);
        let m = times(y.0, vals[i + n - 1], y.1, true);
        plus(m.0, p.1, m.1, true)
    }
}

/// The first `k` entries of row `i` of the product with a transpose.
pub open spec fn turned_row(
    cx: Cx,
    done: Seq<Text>,
    vals: Seq<Text>,
    b: Text,
    n: nat,
    i: nat,
    k: nat,
) -> (Cx, Seq<Text>)
    decreases k,
{
    if k == 0 {
        (cx, done)
    } else {
        let p = turned_row(cx, done, vals, b, n, i, (k - 1) as nat);
        let s = sum_value_products(p.0, vals, i * n, b, ((k - 1) * n) as nat, n);
        (s.0, p.1.push(s.1))
    }
}

/// The first `k` rows of the product with a transpose.
pub open spec fn turned(cx: Cx, vals: Seq<Text>, b: Text, n: nat, k: nat) -> (Cx, Seq<Text>)
    decreases k,
{
    if k == 0 {
        (cx, Seq::empty())
    } else {
        let p = turned(cx, vals, b, n, (k - 1) as nat);
        turned_row(p.0, p.1, vals, b, n, (k - 1) as nat, n)
    }
}

/// The first `k` elements.
pub open spec fn load_all(cx: Cx, a: Text, k: nat) -> (Cx, Seq<Text>)
    decreases k,
{
    if k == 0 {
        (cx, Seq::empty())
    } else {
        let p = load_all(cx, a, (k - 1) as nat);
        let x = load(p.0, a, "double"@, STy::F64, (k - 1) as nat);
        (x.0, p.1.push(x.1))
    }
}

/// The first `k` sums of two lists.
pub open spec fn add_all(cx: Cx, a: Seq<Text>, b: Seq<Text>, k: nat) -> (Cx, Seq<Text>)
    decreases k,
{
    if k == 0 {
        (cx, Seq::empty())
    } else {
        let p = add_all(cx, a, b, (k - 1) as nat);
        let s = plus(p.0, a[k - 1], b[k - 1], true);
        (s.0, p.1.push(s.1))
    }
}

/// Stores the first `k` of some values.
pub open spec fn store_all(cx: Cx, dest: Text, vals: Seq<Text>, k: nat) -> Cx
    decreases k,
{
    if k == 0 {
        cx
    } else {
        let c = store_all(cx, dest, vals, (k - 1) as nat);
        store(c, dest, "double"@, STy::F64, (k - 1) as nat, vals[k - 1])
    }
}

/// A row lies within its matrix.
proof fn row_fits(i: int, rows: int, cols: int)
    requires
        0 <= i < rows,
        0 <= cols,
    ensures
        0 <= i * cols,
        i * cols + cols <= rows * cols,
        (i + 1) * cols == i * cols + cols,
{
    assert(0 <= i * cols) by (nonlinear_arith)
        requires
            0 <= i,
            0 <= cols,
    ;
    assert(i * cols + cols <= rows * cols) by (nonlinear_arith)
        requires
            0 <= i < rows,
            0 <= cols,
    ;
    assert((i + 1) * cols == i * cols + cols) by (nonlinear_arith);
}

impl Module {
    pub fn guard_divisor(&mut self, d: &str, proven: bool)
        ensures
            final(self)@ == guard_divisor(old(self)@, d@, proven),
    {
        proof {
            reveal(guard_divisor);
        }
        if !(self.audited || proven) {
            self.guard_test("div_zero", cat3("icmp eq i64 ", d, ", 0"), "div_trap", "div_ok");
        }
    }

    pub fn sum_products(
        &mut self,
        a: &str,
        b: &str,
        ty: &str,
        elem: &Ty,
        float: bool,
        i: usize,
        j: usize,
        step: usize,
        n: usize,
    ) -> (r: String)
        requires
            i + n <= usize::MAX,
            n >= 1 ==> j + (n - 1) * step <= usize::MAX,
        ensures
            (final(self)@, r@) == sum_products(
                old(self)@,
                a@,
                b@,
                ty@,
                elem@,
                float,
                i as nat,
                j as nat,
                step as nat,
                n as nat,
            ),
    {
        let ghost cx = self@;
        let x = self.load(a, ty, elem, i);
        let y = self.load(b, ty, elem, j);
        let mut acc = self.times(x.as_str(), y.as_str(), float);
        let mut k: usize = 1;
        let mut at: usize = j;
        proof {
            assert((1 - 1) * step == 0) by (nonlinear_arith);
        }
        while k < n
            invariant
                1 <= k,
                k <= n || n <= 1,
                i + n <= usize::MAX,
                n >= 1 ==> j + (n - 1) * step <= usize::MAX,
                at == j + (k - 1) * step,
                (self@, acc@) == sum_products(
                    cx,
                    a@,
                    b@,
                    ty@,
                    elem@,
                    float,
                    i as nat,
                    j as nat,
                    step as nat,
                    if n <= 1 {
                        n as nat
                    } else {
                        k as nat
                    },
                ),
            decreases n - k,
        {
            proof {
                assert((k - 1) * step + step == k * step) by (nonlinear_arith);
                assert(k * step <= (n - 1) * step) by (nonlinear_arith)
                    requires
                        k <= n - 1,
                        step >= 0,
                ;
            }
            at = at + step;
            let x = self.load(a, ty, elem, i + k);
            let y = self.load(b, ty, elem, at);
            let m = self.times(x.as_str(), y.as_str(), float);
            acc = self.plus(acc.as_str(), m.as_str(), float);
            k = k + 1;
        }
        acc
    }

    pub fn sum_elements(&mut self, a: &str, ty: &str, elem: &Ty, float: bool, n: usize) -> (r: String)
        ensures
            (final(self)@, r@) == sum_elements(old(self)@, a@, ty@, elem@, float, n as nat),
    {
        let ghost cx = self@;
        let mut acc = self.load(a, ty, elem, 0);
        let mut k: usize = 1;
        while k < n
            invariant
                1 <= k,
                k <= n || n <= 1,
                (self@, acc@) == sum_elements(
                    cx,
                    a@,
                    ty@,
                    elem@,
                    float,
                    if n <= 1 {
                        n as nat
                    } else {
                        k as nat
                    },
                ),
            decreases n - k,
        {
            let x = self.load(a, ty, elem, k);
            acc = self.plus(acc.as_str(), x.as_str(), float);
            k = k + 1;
        }
        acc
    }

    pub fn sum_squares(&mut self, a: &str, n: usize) -> (r: String)
        ensures
            (final(self)@, r@) == sum_squares(old(self)@, a@, n as nat),
    {
        let ghost cx = self@;
        let x = self.load(a, "double", &Ty::F64, 0);
        let mut acc = self.times(x.as_str(), x.as_str(), true);
        let mut k: usize = 1;
        while k < n
            invariant
                1 <= k,
                k <= n || n <= 1,
                (self@, acc@) == sum_squares(
                    cx,
                    a@,
                    if n <= 1 {
                        n as nat
                    } else {
                        k as nat
                    },
                ),
            decreases n - k,
        {
            let x = self.load(a, "double", &Ty::F64, k);
            let s = self.times(x.as_str(), x.as_str(), true);
            acc = self.plus(acc.as_str(), s.as_str(), true);
            k = k + 1;
        }
        acc
    }

    pub fn magnitudes(&mut self, a: &str, greatest: bool, n: usize) -> (r: String)
        ensures
            (final(self)@, r@) == magnitudes(old(self)@, a@, greatest, n as nat),
    {
        let ghost cx = self@;
        let x = self.load(a, "double", &Ty::F64, 0);
        let mut acc = self.call1("@llvm.fabs.f64", x.as_str());
        let mut k: usize = 1;
        while k < n
            invariant
                1 <= k,
                k <= n || n <= 1,
                (self@, acc@) == magnitudes(
                    cx,
                    a@,
                    greatest,
                    if n <= 1 {
                        n as nat
                    } else {
                        k as nat
                    },
                ),
            decreases n - k,
        {
            let x = self.load(a, "double", &Ty::F64, k);
            let m = self.call1("@llvm.fabs.f64", x.as_str());
            acc = if greatest {
                self.call2("@llvm.maxnum.f64", acc.as_str(), m.as_str())
            } else {
                self.plus(acc.as_str(), m.as_str(), true)
            };
            k = k + 1;
        }
        acc
    }

    pub fn sum_diagonal(&mut self, a: &str, ty: &str, elem: &Ty, float: bool, n: usize) -> (r: String)
        requires
            n * n <= usize::MAX,
        ensures
            (final(self)@, r@) == sum_diagonal(
                old(self)@,
                a@,
                ty@,
                elem@,
                float,
                n as nat,
                n as nat,
            ),
    {
        let ghost cx = self@;
        let mut acc = self.load(a, ty, elem, 0);
        let mut k: usize = 1;
        while k < n
            invariant
                1 <= k,
                k <= n || n <= 1,
                n * n <= usize::MAX,
                (self@, acc@) == sum_diagonal(
                    cx,
                    a@,
                    ty@,
                    elem@,
                    float,
                    n as nat,
                    if n <= 1 {
                        n as nat
                    } else {
                        k as nat
                    },
                ),
            decreases n - k,
        {
            proof {
                row_fits(k as int, n as int, n as int);
            }
            let x = self.load(a, ty, elem, k * n + k);
            acc = self.plus(acc.as_str(), x.as_str(), float);
            k = k + 1;
        }
        acc
    }

    pub fn sum_distances(&mut self, a: &str, b: &str, n: usize) -> (r: String)
        ensures
            (final(self)@, r@) == sum_distances(old(self)@, a@, b@, n as nat),
    {
        let ghost cx = self@;
        let x = self.load(a, "double", &Ty::F64, 0);
        let y = self.load(b, "double", &Ty::F64, 0);
        let d = self.minus(x.as_str(), y.as_str());
        let mut acc = self.times(d.as_str(), d.as_str(), true);
        let mut k: usize = 1;
        while k < n
            invariant
                1 <= k,
                k <= n || n <= 1,
                (self@, acc@) == sum_distances(
                    cx,
                    a@,
                    b@,
                    if n <= 1 {
                        n as nat
                    } else {
                        k as nat
                    },
                ),
            decreases n - k,
        {
            let x = self.load(a, "double", &Ty::F64, k);
            let y = self.load(b, "double", &Ty::F64, k);
            let d = self.minus(x.as_str(), y.as_str());
            let s = self.times(d.as_str(), d.as_str(), true);
            acc = self.plus(acc.as_str(), s.as_str(), true);
            k = k + 1;
        }
        acc
    }

    fn and_also(&mut self, acc: Option<String>, test: String, prefix: &str) -> (r: Option<String>)
        ensures
            (
                final(self)@,
                maybe(r),
            ) == and_also(
                old(self)@,
                maybe(acc),
                test@,
                prefix@,
            ),
    {
        match acc {
            None => Some(test),
            Some(prev) => Some(
                self.define(prefix, cat4("and i1 ", prev.as_str(), ", ", test.as_str())),
            ),
        }
    }

    pub fn test_rows(&mut self, a: &str, n: usize, diagonal: bool) -> (r: Option<String>)
        requires
            n * n <= usize::MAX,
        ensures
            (
                final(self)@,
                maybe(r),
            ) == test_rows(old(self)@, a@, n as nat, diagonal, n as nat),
    {
        let ghost cx = self@;
        let mut acc: Option<String> = None;
        let mut i: usize = 0;
        while i < n
            invariant
                i <= n,
                n * n <= usize::MAX,
                (
                    self@,
                    maybe(acc),
                ) == test_rows(cx, a@, n as nat, diagonal, i as nat),
            decreases n - i,
        {
            let ghost start = self@;
            let ghost before = maybe(acc);
            let mut j: usize = 0;
            while j < n
                invariant
                    j <= n,
                    i < n,
                    n * n <= usize::MAX,
                    (
                        self@,
                        maybe(acc),
                    ) == test_row(start, before, a@, n as nat, diagonal, i as nat, j as nat),
                decreases n - j,
            {
                if !(diagonal && i == j) {
                    proof {
                        row_fits(i as int, n as int, n as int);
                        row_fits(j as int, n as int, n as int);
                    }
                    let l = self.load(a, "double", &Ty::F64, i * n + j);
                    let r = if diagonal {
                        float_text(ZERO_F)
                    } else {
                        self.load(a, "double", &Ty::F64, j * n + i)
                    };
                    let t = self.compare_floats("oeq", l.as_str(), r.as_str());
                    acc = self.and_also(acc, t, "builtin_and");
                }
                j = j + 1;
            }
            i = i + 1;
        }
        acc
    }

    pub fn test_equal(
        &mut self,
        a: &str,
        b: &str,
        ty: &str,
        elem: &Ty,
        float: bool,
        n: usize,
    ) -> (r: Option<String>)
        ensures
            (
                final(self)@,
                maybe(r),
            ) == test_equal(old(self)@, a@, b@, ty@, elem@, float, n as nat),
    {
        let ghost cx = self@;
        let mut acc: Option<String> = None;
        let mut i: usize = 0;
        while i < n
            invariant
                i <= n,
                (
                    self@,
                    maybe(acc),
                ) == test_equal(cx, a@, b@, ty@, elem@, float, i as nat),
            decreases n - i,
        {
            let l = self.load(a, ty, elem, i);
            let r = self.load(b, ty, elem, i);
            let t = if float {
                self.compare_floats("oeq", l.as_str(), r.as_str())
            } else {
                self.compare_ints("eq", "i64", l.as_str(), r.as_str())
            };
            acc = self.and_also(acc, t, "agg_eq_and");
            i = i + 1;
        }
        acc
    }

    pub fn turn_columns(
        &mut self,
        m: &str,
        dest: &str,
        ty: &str,
        elem: &Ty,
        rows: usize,
        cols: usize,
    )
        requires
            rows * cols <= usize::MAX,
        ensures
            final(self)@ == turn_columns(
                old(self)@,
                m@,
                dest@,
                ty@,
                elem@,
                rows as nat,
                cols as nat,
                cols as nat,
            ),
    {
        let ghost cx = self@;
        let mut j: usize = 0;
        proof {
            assert(rows * cols == cols * rows) by (nonlinear_arith);
        }
        while j < cols
            invariant
                j <= cols,
                rows * cols <= usize::MAX,
                rows * cols == cols * rows,
                self@ == turn_columns(
                    cx,
                    m@,
                    dest@,
                    ty@,
                    elem@,
                    rows as nat,
                    cols as nat,
                    j as nat,
                ),
            decreases cols - j,
        {
            let ghost start = self@;
            let mut i: usize = 0;
            while i < rows
                invariant
                    i <= rows,
                    j < cols,
                    rows * cols <= usize::MAX,
                    rows * cols == cols * rows,
                    self@ == turn_column(
                        start,
                        m@,
                        dest@,
                        ty@,
                        elem@,
                        rows as nat,
                        cols as nat,
                        j as nat,
                        i as nat,
                    ),
                decreases rows - i,
            {
                proof {
                    row_fits(i as int, rows as int, cols as int);
                    row_fits(j as int, cols as int, rows as int);
                }
                let v = self.load(m, ty, elem, i * cols + j);
                self.store(dest, ty, elem, j * rows + i, v.as_str());
                i = i + 1;
            }
            j = j + 1;
        }
    }

    fn cross_entry(
        &mut self,
        a: &str,
        b: &str,
        dest: &str,
        ty: &str,
        elem: &Ty,
        float: bool,
        at: usize,
        ij: (usize, usize),
        kl: (usize, usize),
    )
        ensures
            final(self)@ == cross_entry(
                old(self)@,
                a@,
                b@,
                dest@,
                ty@,
                elem@,
                float,
                at as nat,
                (ij.0 as nat, ij.1 as nat),
                (kl.0 as nat, kl.1 as nat),
            ),
    {
        proof {
            reveal(cross_entry);
        }
        let ai = self.load(a, ty, elem, ij.0);
        let bj = self.load(b, ty, elem, ij.1);
        let p1 = self.times(ai.as_str(), bj.as_str(), float);
        let ak = self.load(a, ty, elem, kl.0);
        let bl = self.load(b, ty, elem, kl.1);
        let p2 = self.times(ak.as_str(), bl.as_str(), float);
        let c = if float {
            self.minus(p1.as_str(), p2.as_str())
        } else {
            self.define("agg_sub", cat4("sub i64 ", p1.as_str(), ", ", p2.as_str()))
        };
        self.store(dest, ty, elem, at, c.as_str());
    }

    pub fn cross_product(
        &mut self,
        a: &str,
        b: &str,
        dest: &str,
        ty: &str,
        elem: &Ty,
        float: bool,
    )
        ensures
            final(self)@ == cross_product(old(self)@, a@, b@, dest@, ty@, elem@, float),
    {
        proof {
            reveal(cross_product);
        }
        self.cross_entry(a, b, dest, ty, elem, float, 0, (1, 2), (2, 1));
        self.cross_entry(a, b, dest, ty, elem, float, 1, (2, 0), (0, 2));
        self.cross_entry(a, b, dest, ty, elem, float, 2, (0, 1), (1, 0));
    }

    pub fn fill(&mut self, dest: &str, val: &str, n: usize)
        ensures
            final(self)@ == fill(old(self)@, dest@, val@, n as nat),
    {
        let ghost cx = self@;
        let mut i: usize = 0;
        while i < n
            invariant
                i <= n,
                self@ == fill(cx, dest@, val@, i as nat),
            decreases n - i,
        {
            self.store(dest, "double", &Ty::F64, i, val);
            i = i + 1;
        }
    }

    pub fn unit_rows(&mut self, dest: &str, n: usize)
        requires
            n * n <= usize::MAX,
        ensures
            final(self)@ == unit_rows(old(self)@, dest@, n as nat, n as nat),
    {
        let ghost cx = self@;
        let zero = float_text(ZERO_F);
        let one = float_text(ONE_F);
        let mut i: usize = 0;
        while i < n
            invariant
                i <= n,
                n * n <= usize::MAX,
                zero@ == float_const(ZERO_F),
                one@ == float_const(ONE_F),
                self@ == unit_rows(cx, dest@, n as nat, i as nat),
            decreases n - i,
        {
            let ghost start = self@;
            let mut j: usize = 0;
            while j < n
                invariant
                    i < n,
                    j <= n,
                    n * n <= usize::MAX,
                    zero@ == float_const(ZERO_F),
                    one@ == float_const(ONE_F),
                    self@ == unit_row(start, dest@, n as nat, i as nat, j as nat),
                decreases n - j,
            {
                proof {
                    row_fits(i as int, n as int, n as int);
                }
                let val = if i == j {
                    one.as_str()
                } else {
                    zero.as_str()
                };
                self.store(dest, "double", &Ty::F64, i * n + j, val);
                j = j + 1;
            }
            i = i + 1;
        }
    }

    fn combine(&mut self, op: BinOp, l: &str, r: &str, float: bool, proven: bool) -> (out: String)
        ensures
            (final(self)@, out@) == combine(old(self)@, op, l@, r@, float, proven),
    {
        proof {
            reveal(combine);
        }
        match op {
            BinOp::Add => self.plus(l, r, float),
            BinOp::Sub => {
                let rhs = if float {
                    cat4("fsub double ", l, ", ", r)
                } else {
                    cat4("sub i64 ", l, ", ", r)
                };
                self.define("agg_sub", rhs)
            }
            BinOp::ElemMul => self.times(l, r, float),
            _ => if float {
                self.define("agg_fdiv", cat4("fdiv double ", l, ", ", r))
            } else {
                self.guard_divisor(r, proven);
                self.define("agg_sdiv", cat4("sdiv i64 ", l, ", ", r))
            },
        }
    }

    pub fn combine_all(
        &mut self,
        op: BinOp,
        a: &str,
        b: &str,
        dest: &str,
        ty: &str,
        elem: &Ty,
        float: bool,
        proven: bool,
        n: usize,
    )
        ensures
            final(self)@ == combine_all(
                old(self)@,
                op,
                a@,
                b@,
                dest@,
                ty@,
                elem@,
                float,
                proven,
                n as nat,
            ),
    {
        let ghost cx = self@;
        let mut i: usize = 0;
        while i < n
            invariant
                i <= n,
                self@ == combine_all(
                    cx,
                    op,
                    a@,
                    b@,
                    dest@,
                    ty@,
                    elem@,
                    float,
                    proven,
                    i as nat,
                ),
            decreases n - i,
        {
            let l = self.load(a, ty, elem, i);
            let r = self.load(b, ty, elem, i);
            let o = self.combine(op, l.as_str(), r.as_str(), float, proven);
            self.store(dest, ty, elem, i, o.as_str());
            i = i + 1;
        }
    }

    pub fn scale(
        &mut self,
        scalar: &str,
        m: &str,
        dest: &str,
        ty: &str,
        elem: &Ty,
        float: bool,
        n: usize,
    )
        ensures
            final(self)@ == scale(
                old(self)@,
                scalar@,
                m@,
                dest@,
                ty@,
                elem@,
                float,
                n as nat,
            ),
    {
        let ghost cx = self@;
        let mut i: usize = 0;
        while i < n
            invariant
                i <= n,
                self@ == scale(cx, scalar@, m@, dest@, ty@, elem@, float, i as nat),
            decreases n - i,
        {
            let x = self.load(m, ty, elem, i);
            let o = self.times(x.as_str(), scalar, float);
            self.store(dest, ty, elem, i, o.as_str());
            i = i + 1;
        }
    }

    pub fn apply_matrix(
        &mut self,
        m: &str,
        v: &str,
        dest: &str,
        ty: &str,
        elem: &Ty,
        float: bool,
        rows: usize,
        cols: usize,
    )
        requires
            rows * cols <= usize::MAX,
        ensures
            final(self)@ == apply_matrix(
                old(self)@,
                m@,
                v@,
                dest@,
                ty@,
                elem@,
                float,
                cols as nat,
                rows as nat,
            ),
    {
        let ghost cx = self@;
        let mut i: usize = 0;
        while i < rows
            invariant
                i <= rows,
                rows * cols <= usize::MAX,
                self@ == apply_matrix(
                    cx,
                    m@,
                    v@,
                    dest@,
                    ty@,
                    elem@,
                    float,
                    cols as nat,
                    i as nat,
                ),
            decreases rows - i,
        {
            proof {
                row_fits(i as int, rows as int, cols as int);
            }
            let s = self.sum_products(m, v, ty, elem, float, i * cols, 0, 1, cols);
            self.store(dest, ty, elem, i, s.as_str());
            i = i + 1;
        }
    }

    pub fn product_rows(
        &mut self,
        a: &str,
        b: &str,
        dest: &str,
        ty: &str,
        elem: &Ty,
        float: bool,
        rows: usize,
        ac: usize,
        bc: usize,
    )
        requires
            rows * ac <= usize::MAX,
            rows * bc <= usize::MAX,
            ac * bc <= usize::MAX,
        ensures
            final(self)@ == product_rows(
                old(self)@,
                a@,
                b@,
                dest@,
                ty@,
                elem@,
                float,
                ac as nat,
                bc as nat,
                rows as nat,
            ),
    {
        let ghost cx = self@;
        let mut i: usize = 0;
        while i < rows
            invariant
                i <= rows,
                rows * ac <= usize::MAX,
                rows * bc <= usize::MAX,
                ac * bc <= usize::MAX,
                self@ == product_rows(
                    cx,
                    a@,
                    b@,
                    dest@,
                    ty@,
                    elem@,
                    float,
                    ac as nat,
                    bc as nat,
                    i as nat,
                ),
            decreases rows - i,
        {
            let ghost start = self@;
            let mut j: usize = 0;
            while j < bc
                invariant
                    i < rows,
                    j <= bc,
                    rows * ac <= usize::MAX,
                    rows * bc <= usize::MAX,
                    ac * bc <= usize::MAX,
                    self@ == product_row(
                        start,
                        a@,
                        b@,
                        dest@,
                        ty@,
                        elem@,
                        float,
                        ac as nat,
                        bc as nat,
                        i as nat,
                        j as nat,
                    ),
                decreases bc - j,
            {
                proof {
                    row_fits(i as int, rows as int, ac as int);
                    row_fits(i as int, rows as int, bc as int);
                    if ac >= 1 {
                        row_fits(ac - 1, ac as int, bc as int);
                    }
                }
                let s = self.sum_products(a, b, ty, elem, float, i * ac, j, bc, ac);
                self.store(dest, ty, elem, i * bc + j, s.as_str());
                j = j + 1;
            }
            i = i + 1;
        }
    }

    pub fn entries(&mut self, a: &str, b: &str, n: usize) -> (r: Vec<String>)
        requires
            n * n <= usize::MAX,
        ensures
            (final(self)@, lines_view(r@)) == entries(old(self)@, a@, b@, n as nat, n as nat),
            r@.len() == n * n,
    {
        let ghost cx = self@;
        let mut out: Vec<String> = Vec::new();
        let mut i: usize = 0;
        proof {
            assert(lines_view(out@) =~= Seq::<Text>::empty());
            assert(0 * n == 0) by (nonlinear_arith);
        }
        while i < n
            invariant
                i <= n,
                n * n <= usize::MAX,
                out@.len() == i * n,
                (self@, lines_view(out@)) == entries(cx, a@, b@, n as nat, i as nat),
            decreases n - i,
        {
            let ghost start = self@;
            let ghost before = lines_view(out@);
            let mut j: usize = 0;
            proof {
                row_fits(i as int, n as int, n as int);
            }
            while j < n
                invariant
                    i < n,
                    j <= n,
                    n * n <= usize::MAX,
                    i * n + n <= n * n,
                    out@.len() == i * n + j,
                    (self@, lines_view(out@)) == entries_row(
                        start,
                        before,
                        a@,
                        b@,
                        n as nat,
                        i as nat,
                        j as nat,
                    ),
                decreases n - j,
            {
                let ghost so_far = out@;
                proof {
                    row_fits(n - 1, n as int, n as int);
                    assert(0 <= i * n) by (nonlinear_arith);
                }
                let s = self.sum_products(a, b, "double", &Ty::F64, true, i * n, j, n, n);
                let ghost sv = s@;
                out.push(s);
                proof {
                    assert(lines_view(out@) =~= lines_view(so_far).push(sv));
                }
                j = j + 1;
            }
            proof {
                row_fits(i as int, n as int, n as int);
            }
            i = i + 1;
        }
        out
    }

    pub fn image(&mut self, m: &str, v: &str, n: usize) -> (r: Vec<String>)
        requires
            n * n <= usize::MAX,
        ensures
            (final(self)@, lines_view(r@)) == image(old(self)@, m@, v@, n as nat, n as nat),
    {
        let ghost cx = self@;
        let mut out: Vec<String> = Vec::new();
        let mut i: usize = 0;
        proof {
            assert(lines_view(out@) =~= Seq::<Text>::empty());
        }
        while i < n
            invariant
                i <= n,
                n * n <= usize::MAX,
                (self@, lines_view(out@)) == image(cx, m@, v@, n as nat, i as nat),
            decreases n - i,
        {
            proof {
                row_fits(i as int, n as int, n as int);
            }
            let ghost before = out@;
            let s = self.sum_products(m, v, "double", &Ty::F64, true, i * n, 0, 1, n);
            let ghost sv = s@;
            out.push(s);
            proof {
                assert(lines_view(out@) =~= lines_view(before).push(sv));
            }
            i = i + 1;
        }
        out
    }

    fn sum_value_products(&mut self, vals: &Vec<String>, i: usize, b: &str, j: usize, n: usize) -> (r:
        String)
        requires
            n >= 1,
            i + n <= vals@.len(),
            j + n <= usize::MAX,
        ensures
            (final(self)@, r@) == sum_value_products(
                old(self)@,
                lines_view(vals@),
                i as nat,
                b@,
                j as nat,
                n as nat,
            ),
    {
        let ghost cx = self@;
        let ghost all = lines_view(vals@);
        let len: usize = vals.len();
        let y = self.load(b, "double", &Ty::F64, j);
        let mut acc = self.times(vals[i].as_str(), y.as_str(), true);
        let mut k: usize = 1;
        while k < n
            invariant
                1 <= k <= n,
                i + n <= len,
                vals@.len() == len,
                j + n <= usize::MAX,
                all == lines_view(vals@),
                (self@, acc@) == sum_value_products(
                    cx,
                    all,
                    i as nat,
                    b@,
                    j as nat,
                    k as nat,
                ),
            decreases n - k,
        {
            let y = self.load(b, "double", &Ty::F64, j + k);
            let at: usize = i + k;
            let m = self.times(vals[at].as_str(), y.as_str(), true);
            acc = self.plus(acc.as_str(), m.as_str(), true);
            k = k + 1;
        }
        acc
    }

    pub fn turned(&mut self, vals: &Vec<String>, b: &str, n: usize) -> (r: Vec<String>)
        requires
            n * n <= usize::MAX,
            vals@.len() == n * n,
        ensures
            (final(self)@, lines_view(r@)) == turned(
                old(self)@,
                lines_view(vals@),
                b@,
                n as nat,
                n as nat,
            ),
            r@.len() == n * n,
    {
        let ghost cx = self@;
        let ghost all = lines_view(vals@);
        let mut out: Vec<String> = Vec::new();
        let mut i: usize = 0;
        proof {
            assert(lines_view(out@) =~= Seq::<Text>::empty());
            assert(0 * n == 0) by (nonlinear_arith);
        }
        while i < n
            invariant
                i <= n,
                n * n <= usize::MAX,
                vals@.len() == n * n,
                all == lines_view(vals@),
                out@.len() == i * n,
                (self@, lines_view(out@)) == turned(cx, all, b@, n as nat, i as nat),
            decreases n - i,
        {
            let ghost start = self@;
            let ghost before = lines_view(out@);
            let mut j: usize = 0;
            proof {
                row_fits(i as int, n as int, n as int);
            }
            while j < n
                invariant
                    i < n,
                    j <= n,
                    n * n <= usize::MAX,
                    vals@.len() == n * n,
                    0 <= i * n,
                    i * n + n <= n * n,
                    all == lines_view(vals@),
                    out@.len() == i * n + j,
                    (self@, lines_view(out@)) == turned_row(
                        start,
                        before,
                        all,
                        b@,
                        n as nat,
                        i as nat,
                        j as nat,
                    ),
                decreases n - j,
            {
                let ghost so_far = out@;
                proof {
                    row_fits(j as int, n as int, n as int);
                }
                let s = self.sum_value_products(vals, i * n, b, j * n, n);
                let ghost sv = s@;
                out.push(s);
                proof {
                    assert(lines_view(out@) =~= lines_view(so_far).push(sv));
                }
                j = j + 1;
            }
            proof {
                row_fits(i as int, n as int, n as int);
            }
            i = i + 1;
        }
        out
    }

    pub fn load_all(&mut self, a: &str, n: usize) -> (r: Vec<String>)
        ensures
            (final(self)@, lines_view(r@)) == load_all(old(self)@, a@, n as nat),
            r@.len() == n,
    {
        let ghost cx = self@;
        let mut out: Vec<String> = Vec::new();
        let mut i: usize = 0;
        proof {
            assert(lines_view(out@) =~= Seq::<Text>::empty());
        }
        while i < n
            invariant
                i <= n,
                out@.len() == i,
                (self@, lines_view(out@)) == load_all(cx, a@, i as nat),
            decreases n - i,
        {
            let ghost before = out@;
            let s = self.load(a, "double", &Ty::F64, i);
            let ghost sv = s@;
            out.push(s);
            proof {
                assert(lines_view(out@) =~= lines_view(before).push(sv));
            }
            i = i + 1;
        }
        out
    }

    pub fn add_all(&mut self, a: &Vec<String>, b: &Vec<String>) -> (r: Vec<String>)
        requires
            a@.len() == b@.len(),
        ensures
            (final(self)@, lines_view(r@)) == add_all(
                old(self)@,
                lines_view(a@),
                lines_view(b@),
                a@.len(),
            ),
            r@.len() == a@.len(),
    {
        let ghost cx = self@;
        let mut out: Vec<String> = Vec::new();
        let mut i: usize = 0;
        proof {
            assert(lines_view(out@) =~= Seq::<Text>::empty());
        }
        while i < a.len()
            invariant
                i <= a@.len(),
                a@.len() == b@.len(),
                out@.len() == i,
                (self@, lines_view(out@)) == add_all(
                    cx,
                    lines_view(a@),
                    lines_view(b@),
                    i as nat,
                ),
            decreases a@.len() - i,
        {
            let ghost before = out@;
            let s = self.plus(a[i].as_str(), b[i].as_str(), true);
            let ghost sv = s@;
            out.push(s);
            proof {
                assert(lines_view(out@) =~= lines_view(before).push(sv));
            }
            i = i + 1;
        }
        out
    }

    pub fn store_all(&mut self, dest: &str, vals: &Vec<String>)
        ensures
            final(self)@ == store_all(old(self)@, dest@, lines_view(vals@), vals@.len()),
    {
        let ghost cx = self@;
        let mut i: usize = 0;
        while i < vals.len()
            invariant
                i <= vals@.len(),
                self@ == store_all(cx, dest@, lines_view(vals@), i as nat),
            decreases vals@.len() - i,
        {
            self.store(dest, "double", &Ty::F64, i, vals[i].as_str());
            i = i + 1;
        }
    }
}

} // verus!
