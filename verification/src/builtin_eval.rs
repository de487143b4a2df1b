//! Evaluation of the builtin functions.
use crate::arith::{
    any_float, failed, inner, inner_product, plus, scalar, scalar_binop, sum_up, holds_float, ONE,
};
use crate::ast::BinOp;
use crate::builtins::Builtin;
use crate::request::{Act, Request, SAct, SRequest};
use crate::token::Span;
use crate::value::{
    copy_value, float_eq, floats_equal, pieces_view, show_all, shown_all, values_view, ErrorKind,
    Outcome, Piece, RuntimeError, SErrorKind, SOutcome, SPiece, SValue, Value,
};
use vstd::arithmetic::div_mod::lemma_fundamental_div_mod_converse;
use vstd::prelude::*;

verus! {

/// The state of the generator after one draw.
pub open spec fn advanced(state: u64) -> u64 {
    state.wrapping_add(0x9E37_79B9_7F4A_7C15)
}

/// The number that a state of the generator gives.
pub open spec fn mixed(state: u64) -> u64 {
    let a = (state ^ (state >> 30)).wrapping_mul(0xBF58_476D_1CE4_E5B9);
    let b = (a ^ (a >> 27)).wrapping_mul(0x94D0_49BB_1331_11EB);
    b ^ (b >> 31)
}

/// The 53 bits that a draw from `state` gives.
pub open spec fn drawn(state: u64) -> u64 {
    mixed(advanced(state)) >> 11
}

/// Draws 53 bits and advances the generator.
pub fn draw(state: &mut u64) -> (r: u64)
    ensures
        *final(state) == advanced(*old(state)),
        r == drawn(*old(state)),
{
    *state = state.wrapping_add(0x9E37_79B9_7F4A_7C15);
    let z: u64 = *state;
    let a: u64 = (z ^ (z >> 30)).wrapping_mul(0xBF58_476D_1CE4_E5B9);
    let b: u64 = (a ^ (a >> 27)).wrapping_mul(0x94D0_49BB_1331_11EB);
    (b ^ (b >> 31)) >> 11
}

/// Every draw lies below 2^53.
pub proof fn draws_are_bounded(state: u64)
    ensures
        drawn(state) < 0x20_0000_0000_0000,
{
    let z = mixed(advanced(state));
    assert(z >> 11 < 0x20_0000_0000_0000) by (bit_vector);
}

/// The first `n` draws from a state.
pub open spec fn draws(state: u64, n: nat) -> Seq<u64>
    decreases n,
{
    if n == 0 {
        Seq::empty()
    } else {
        seq![drawn(state)] + draws(advanced(state), (n - 1) as nat)
    }
}

/// The state behind `n` draws.
pub open spec fn after_draws(state: u64, n: nat) -> u64
    decreases n,
{
    if n == 0 {
        state
    } else {
        after_draws(advanced(state), (n - 1) as nat)
    }
}

/// Two generators in one state draw the same, as often as they are asked, and stay in
/// one state. Every draw lies below 2^53.
pub proof fn equal_states_draw_alike(a: u64, b: u64, n: nat)
    requires
        a == b,
    ensures
        draws(a, n) == draws(b, n),
        after_draws(a, n) == after_draws(b, n),
        draws(a, n).len() == n,
        forall|i: int| 0 <= i < n ==> #[trigger] draws(a, n)[i] < 0x20_0000_0000_0000,
    decreases n,
{
    if n > 0 {
        draws_are_bounded(a);
        equal_states_draw_alike(advanced(a), advanced(b), (n - 1) as nat);
        let rest = draws(advanced(a), (n - 1) as nat);
        assert forall|i: int| 0 <= i < n implies #[trigger] draws(a, n)[i] < 0x20_0000_0000_0000 by {
            if i > 0 {
                assert(draws(a, n)[i] == rest[i - 1]);
            }
        }
    }
}

/// The 64 bits of an integer, as an unsigned number.
pub open spec fn unsigned(n: i64) -> u64 {
    if n < 0 {
        (n + 0x1_0000_0000_0000_0000) as u64
    } else {
        n as u64
    }
}

/// The 64 bits of an integer, as an unsigned number.
pub fn to_unsigned(n: i64) -> (r: u64)
    ensures
        r == unsigned(n),
{
    if n < 0 {
        ((n + i64::MAX) + 1) as u64 + 0x8000_0000_0000_0000
    } else {
        n as u64
    }
}

/// The sum of the first `n` elements.
pub open spec fn total(v: Seq<SValue>, n: nat, span: Span) -> SOutcome
    decreases n,
{
    if n == 0 || n > v.len() {
        SOutcome::Stuck
    } else if n == 1 {
        SOutcome::Val(v[0])
    } else {
        plus(total(v, (n - 1) as nat, span), SOutcome::Val(v[n - 1]), span)
    }
}

/// The element of a matrix at a place.
pub open spec fn entry(v: Seq<SValue>, i: int) -> SOutcome {
    if 0 <= i < v.len() {
        SOutcome::Val(v[i])
    } else {
        SOutcome::Stuck
    }
}

/// The sum of the first `k` elements on the diagonal of a square matrix.
pub open spec fn diagonal(v: Seq<SValue>, n: nat, k: nat, span: Span) -> SOutcome
    decreases k,
{
    if k <= 1 {
        entry(v, 0)
    } else {
        plus(
            diagonal(v, n, (k - 1) as nat, span),
            entry(v, (k - 1) * n + (k - 1)),
            span,
        )
    }
}

/// The difference of two results, where both are there.
pub open spec fn minus(x: SOutcome, y: SOutcome, span: Span) -> SOutcome {
    match x {
        SOutcome::Val(a) => match y {
            SOutcome::Val(b) => scalar(BinOp::Sub, a, b, span),
            other => other,
        },
        other => other,
    }
}

/// `a[i] * b[j] - a[k] * b[l]`
pub open spec fn cross_term(
    a: Seq<SValue>,
    b: Seq<SValue>,
    i: int,
    j: int,
    k: int,
    l: int,
    span: Span,
) -> SOutcome {
    minus(scalar(BinOp::Mul, a[i], b[j], span), scalar(BinOp::Mul, a[k], b[l], span), span)
}

/// The cross product of two vectors of three elements.
pub open spec fn cross(a: Seq<SValue>, b: Seq<SValue>, span: Span) -> SOutcome {
    if a.len() < 3 || b.len() < 3 {
        SOutcome::Stuck
    } else {
        match cross_term(a, b, 1, 2, 2, 1, span) {
            SOutcome::Val(x) => match cross_term(a, b, 2, 0, 0, 2, span) {
                SOutcome::Val(y) => match cross_term(a, b, 0, 1, 1, 0, span) {
                    SOutcome::Val(z) => SOutcome::Val(SValue::Vector(seq![x, y, z])),
                    other => other,
                },
                other => other,
            },
            other => other,
        }
    }
}

/// The elements of the transpose of a matrix of `r` rows and `c` columns.
pub open spec fn transposed(e: Seq<SValue>, r: nat, c: nat) -> Seq<SValue> {
    Seq::new(r * c, |k: int| e[(k % r as int) * c + k / r as int])
}

/// `n` copies of a floating-point number.
pub open spec fn copies(b: u64, n: nat) -> Seq<SValue> {
    Seq::new(n, |i: int| SValue::Float(b))
}

/// The elements of the identity matrix.
pub open spec fn unit_matrix(n: nat) -> Seq<SValue> {
    Seq::new(
        n * n,
        |k: int| SValue::Float(if k / n as int == k % n as int { ONE } else { 0 }),
    )
}

/// Whether the first `k` values are floating-point numbers.
pub open spec fn all_floats(v: Seq<SValue>, k: int) -> bool {
    k <= v.len() && forall|i: int| 0 <= i < k ==> (#[trigger] v[i]) is Float
}

/// The number in row `i` and column `j` of a matrix with `n` columns.
pub open spec fn cell(v: Seq<SValue>, n: int, i: int, j: int) -> u64 {
    v[i * n + j]->Float_0
}

/// Whether a matrix equals its transpose.
pub open spec fn symmetric(v: Seq<SValue>, n: int) -> bool {
    forall|i: int, j: int|
        0 <= i < n && 0 <= j < n ==> float_eq(#[trigger] cell(v, n, i, j), cell(v, n, j, i))
}

/// Whether every number off the diagonal is zero.
pub open spec fn is_diagonal(v: Seq<SValue>, n: int) -> bool {
    forall|i: int, j: int|
        0 <= i < n && 0 <= j < n && i != j ==> float_eq(#[trigger] cell(v, n, i, j), 0)
}

/// A vector or a matrix of `n` or `r * c` copies of a number.
pub open spec fn filled(b: u64, args: Seq<SValue>) -> SOutcome {
    if args.len() == 1 {
        match args[0] {
            SValue::Int(n) => if 0 <= n <= usize::MAX {
                SOutcome::Val(SValue::Vector(copies(b, n as nat)))
            } else {
                SOutcome::Stuck
            },
            _ => SOutcome::Stuck,
        }
    } else if args.len() == 2 {
        match (args[0], args[1]) {
            (SValue::Int(r), SValue::Int(c)) => if 0 <= r <= usize::MAX && 0 <= c <= usize::MAX
                && r * c <= usize::MAX {
                SOutcome::Val(
                    SValue::Matrix(copies(b, (r * c) as nat), r as usize, c as usize),
                )
            } else {
                SOutcome::Stuck
            },
            _ => SOutcome::Stuck,
        }
    } else {
        SOutcome::Stuck
    }
}

/// What a builtin on one vector does.
pub open spec fn of_vector(b: Builtin, e: Seq<SValue>, args: Seq<SValue>, span: Span) -> SAct {
    match b {
        Builtin::Sum => if any_float(e) {
            SAct::Ask(SRequest::Builtin(b, args))
        } else {
            SAct::Done(total(e, e.len(), span))
        },
        Builtin::Len => if e.len() <= i64::MAX {
            SAct::Done(SOutcome::Val(SValue::Int(e.len() as i64)))
        } else {
            SAct::Done(SOutcome::Stuck)
        },
        _ => SAct::Done(SOutcome::Stuck),
    }
}

/// What a builtin on one matrix does.
pub open spec fn of_matrix(
    b: Builtin,
    e: Seq<SValue>,
    r: usize,
    c: usize,
    args: Seq<SValue>,
    span: Span,
) -> SAct {
    match b {
        Builtin::Sum => if any_float(e) {
            SAct::Ask(SRequest::Builtin(b, args))
        } else {
            SAct::Done(total(e, e.len(), span))
        },
        Builtin::Trace => if any_float(e) {
            SAct::Ask(SRequest::Builtin(b, args))
        } else {
            SAct::Done(diagonal(e, r as nat, r as nat, span))
        },
        Builtin::IsSymmetric => if all_floats(e, r * r) {
            SAct::Done(SOutcome::Val(SValue::Bool(symmetric(e, r as int))))
        } else {
            SAct::Done(SOutcome::Stuck)
        },
        Builtin::IsDiag => if all_floats(e, r * r) {
            SAct::Done(SOutcome::Val(SValue::Bool(is_diagonal(e, r as int))))
        } else {
            SAct::Done(SOutcome::Stuck)
        },
        Builtin::IsSquare => SAct::Done(SOutcome::Val(SValue::Bool(r == c))),
        _ => SAct::Done(SOutcome::Stuck),
    }
}

/// What a builtin on its first argument does.
pub open spec fn of_single(b: Builtin, args: Seq<SValue>, span: Span) -> SAct {
    if args.len() == 0 {
        SAct::Done(SOutcome::Stuck)
    } else {
        match args[0] {
            SValue::Vector(e) => of_vector(b, e, args, span),
            SValue::Matrix(e, r, c) => of_matrix(b, e, r, c, args, span),
            _ => SAct::Done(SOutcome::Stuck),
        }
    }
}

/// What calling a builtin does, and the state of the generator behind it.
pub open spec fn builtin_call(
    b: Builtin,
    args: Seq<SValue>,
    rng: Option<u64>,
    span: Span,
) -> (SAct, Option<u64>) {
    let stuck = (SAct::Done(SOutcome::Stuck), rng);
    let ask = (SAct::Ask(SRequest::Builtin(b, args)), rng);
    match b {
        Builtin::RandSeed => if args.len() > 0 && args[0] is Int {
            (SAct::Done(SOutcome::Val(SValue::Unit)), Some(unsigned(args[0]->Int_0)))
        } else {
            stuck
        },
        Builtin::RandF64 => match rng {
            Some(s) => (SAct::Ask(SRequest::Uniform(drawn(s))), Some(advanced(s))),
            None => (SAct::Done(failed(SErrorKind::RngNotSeeded, span)), rng),
        },
        Builtin::RandGaussian => if args.len() >= 2 && args[0] is Float && args[1] is Float {
            match rng {
                Some(s) => (
                    SAct::Ask(
                        SRequest::Gaussian {
                            mean: args[0]->Float_0,
                            stddev: args[1]->Float_0,
                            first: drawn(s),
                            second: drawn(advanced(s)),
                        },
                    ),
                    Some(advanced(advanced(s))),
                ),
                None => (SAct::Done(failed(SErrorKind::RngNotSeeded, span)), rng),
            }
        } else {
            stuck
        },
        Builtin::Print => (SAct::Ask(SRequest::Print(shown_all(args, " "@))), rng),
        Builtin::Transpose => if args.len() == 0 {
            stuck
        } else {
            match args[0] {
                SValue::Matrix(e, r, c) => if r * c <= e.len() {
                    (
                        SAct::Done(
                            SOutcome::Val(
                                SValue::Matrix(transposed(e, r as nat, c as nat), c, r),
                            ),
                        ),
                        rng,
                    )
                } else {
                    stuck
                },
                _ => stuck,
            }
        },
        Builtin::Dot => if args.len() < 2 {
            stuck
        } else {
            match (args[0], args[1]) {
                (SValue::Vector(x), SValue::Vector(y)) => if any_float(x) || any_float(y) {
                    ask
                } else {
                    (SAct::Done(inner(x, 0, y, 0, 1, x.len(), span)), rng)
                },
                _ => stuck,
            }
        },
        Builtin::Cross => if args.len() < 2 {
            stuck
        } else {
            match (args[0], args[1]) {
                (SValue::Vector(x), SValue::Vector(y)) => if any_float(x) || any_float(y) {
                    ask
                } else {
                    (SAct::Done(cross(x, y, span)), rng)
                },
                _ => stuck,
            }
        },
        Builtin::Zeros => (SAct::Done(filled(0, args)), rng),
        Builtin::Ones => (SAct::Done(filled(ONE, args)), rng),
        Builtin::Identity => if args.len() == 1 {
            match args[0] {
                SValue::Int(n) => if 0 <= n && n * n <= usize::MAX {
                    (
                        SAct::Done(
                            SOutcome::Val(
                                SValue::Matrix(unit_matrix(n as nat), n as usize, n as usize),
                            ),
                        ),
                        rng,
                    )
                } else {
                    stuck
                },
                _ => stuck,
            }
        } else {
            stuck
        },
        Builtin::Sum
        | Builtin::Len
        | Builtin::Trace
        | Builtin::IsSymmetric
        | Builtin::IsDiag
        | Builtin::IsSquare => (of_single(b, args, span), rng),
        _ => ask,
    }
}

fn stuck() -> (r: Act)
    ensures
        r@ == SAct::Done(SOutcome::Stuck),
{
    Act::Done(Outcome::Stuck)
}

fn done(v: Value) -> (r: Act)
    ensures
        r@ == SAct::Done(SOutcome::Val(v@)),
{
    Act::Done(Outcome::Val(v))
}

fn sum_elements(v: &Vec<Value>, span: Span) -> (r: Outcome)
    ensures
        r@ == total(values_view(v@), values_view(v@).len(), span),
{
    let ghost all = values_view(v@);
    if v.len() == 0 {
        return Outcome::Stuck;
    }
    let mut acc = Outcome::Val(copy_value(&v[0]));
    let mut i: usize = 1;
    while i < v.len()
        invariant
            1 <= i <= v@.len(),
            all == values_view(v@),
            acc@ == total(all, i as nat, span),
        decreases v@.len() - i,
    {
        acc = sum_up(acc, Outcome::Val(copy_value(&v[i])), span);
        i = i + 1;
    }
    acc
}

fn trace(v: &Vec<Value>, n: usize, span: Span) -> (r: Outcome)
    ensures
        r@ == diagonal(values_view(v@), n as nat, n as nat, span),
{
    let ghost all = values_view(v@);
    let len: usize = v.len();
    if len == 0 {
        proof {
            empty_diagonal(all, n as nat, n as nat, span);
        }
        return Outcome::Stuck;
    }
    let mut acc = Outcome::Val(copy_value(&v[0]));
    let mut i: usize = 1;
    let mut at: Option<usize> = Some(0);
    proof {
        assert((i - 1) * n + (i - 1) == 0) by (nonlinear_arith)
            requires
                i == 1,
        ;
    }
    while i < n
        invariant
            1 <= i,
            i <= n || i == 1,
            all == values_view(v@),
            all.len() == len,
            match at {
                Some(x) => x == (i - 1) * n + (i - 1),
                None => (i - 1) * n + (i - 1) > usize::MAX,
            },
            acc@ == diagonal(all, n as nat, i as nat, span),
        decreases n - i,
    {
        proof {
            assert(i * n + i == (i - 1) * n + (i - 1) + n + 1) by (nonlinear_arith);
        }
        at = match at {
            Some(x) => match x.checked_add(n) {
                Some(y) => y.checked_add(1),
                None => None,
            },
            None => None,
        };
        let next = match at {
            Some(x) => if x < len {
                Outcome::Val(copy_value(&v[x]))
            } else {
                Outcome::Stuck
            },
            None => Outcome::Stuck,
        };
        acc = sum_up(acc, next, span);
        i = i + 1;
    }
    acc
}

proof fn empty_diagonal(v: Seq<SValue>, n: nat, k: nat, span: Span)
    requires
        v.len() == 0,
    ensures
        diagonal(v, n, k, span) == SOutcome::Stuck,
    decreases k,
{
    if k > 1 {
        empty_diagonal(v, n, (k - 1) as nat, span);
    }
}

fn difference(x: Outcome, y: Outcome, span: Span) -> (r: Outcome)
    ensures
        r@ == minus(x@, y@, span),
{
    match x {
        Outcome::Val(a) => match y {
            Outcome::Val(b) => scalar_binop(BinOp::Sub, &a, &b, span),
            other => other,
        },
        other => other,
    }
}

fn term(
    a: &Vec<Value>,
    b: &Vec<Value>,
    i: usize,
    j: usize,
    k: usize,
    l: usize,
    span: Span,
) -> (r: Outcome)
    requires
        i < a@.len(),
        k < a@.len(),
        j < b@.len(),
        l < b@.len(),
    ensures
        r@ == cross_term(
            values_view(a@),
            values_view(b@),
            i as int,
            j as int,
            k as int,
            l as int,
            span,
        ),
{
    let x = scalar_binop(BinOp::Mul, &a[i], &b[j], span);
    let y = scalar_binop(BinOp::Mul, &a[k], &b[l], span);
    difference(x, y, span)
}

fn cross_product(a: &Vec<Value>, b: &Vec<Value>, span: Span) -> (r: Outcome)
    ensures
        r@ == cross(values_view(a@), values_view(b@), span),
{
    if a.len() < 3 || b.len() < 3 {
        return Outcome::Stuck;
    }
    match term(a, b, 1, 2, 2, 1, span) {
        Outcome::Val(x) => match term(a, b, 2, 0, 0, 2, span) {
            Outcome::Val(y) => match term(a, b, 0, 1, 1, 0, span) {
                Outcome::Val(z) => {
                    let ghost s = seq![x@, y@, z@];
                    let mut v: Vec<Value> = Vec::new();
                    v.push(x);
                    v.push(y);
                    v.push(z);
                    proof {
                        assert(values_view(v@) =~= s);
                    }
                    Outcome::Val(Value::Vector(v))
                }
                other => other,
            },
            other => other,
        },
        other => other,
    }
}

/// The place `j` rows down and `i` across in rows of `n`.
pub(crate) proof fn place_in_rows(j: int, i: int, n: int)
    requires
        0 <= i < n,
        0 <= j,
    ensures
        (j * n + i) / n == j,
        (j * n + i) % n == i,
{
    lemma_fundamental_div_mod_converse(j * n + i, n, j, i);
}

pub(crate) proof fn row_bound(j: int, rows: int, n: int)
    requires
        0 <= j < rows,
        0 <= n,
    ensures
        j * n + n <= rows * n,
        0 <= j * n,
{
    assert(j * n + n <= rows * n) by (nonlinear_arith)
        requires
            0 <= j < rows,
            0 <= n,
    ;
    assert(0 <= j * n) by (nonlinear_arith)
        requires
            0 <= j,
            0 <= n,
    ;
}

fn transpose(e: &Vec<Value>, rows: usize, cols: usize) -> (r: Vec<Value>)
    requires
        rows * cols <= e@.len(),
    ensures
        values_view(r@) == transposed(values_view(e@), rows as nat, cols as nat),
{
    let ghost all = values_view(e@);
    let mut out: Vec<Value> = Vec::new();
    let mut j: usize = 0;
    let len: usize = e.len();
    proof {
        assert(0 * rows == 0);
        assert(rows * cols == cols * rows) by (nonlinear_arith);
    }
    while j < cols
        invariant
            j <= cols,
            rows * cols <= len,
            rows * cols == cols * rows,
            e@.len() == len,
            all == values_view(e@),
            out@.len() == j * rows,
            forall|k: int|
                0 <= k < out@.len() ==> (#[trigger] out@[k])@ == all[(k % rows as int) * cols + k
                    / rows as int],
        decreases cols - j,
    {
        let mut i: usize = 0;
        let mut at: usize = j;
        proof {
            row_bound(j as int, cols as int, rows as int);
            assert(0 * cols + j == j);
        }
        while i < rows
            invariant
                i <= rows,
                j < cols,
                rows * cols <= len,
                e@.len() == len,
                all == values_view(e@),
                out@.len() == j * rows + i,
                i < rows ==> at == i * cols + j,
                forall|k: int|
                    0 <= k < out@.len() ==> (#[trigger] out@[k])@ == all[(k % rows as int) * cols
                        + k / rows as int],
            decreases rows - i,
        {
            proof {
                row_bound(i as int, rows as int, cols as int);
                place_in_rows(j as int, i as int, rows as int);
            }
            let ghost k = out@.len() as int;
            out.push(copy_value(&e[at]));
            proof {
                assert(out@[k]@ == all[(k % rows as int) * cols + k / rows as int]);
            }
            i = i + 1;
            if i < rows {
                proof {
                    row_bound(i as int, rows as int, cols as int);
                    assert((i - 1) * cols + cols == i * cols) by (nonlinear_arith);
                }
                at = at + cols;
            }
        }
        proof {
            assert((j + 1) * rows == j * rows + rows) by (nonlinear_arith);
        }
        j = j + 1;
    }
    proof {
        assert(values_view(out@) =~= transposed(all, rows as nat, cols as nat));
    }
    out
}

fn copies_of(b: u64, n: usize) -> (r: Vec<Value>)
    ensures
        values_view(r@) == copies(b, n as nat),
{
    let mut out: Vec<Value> = Vec::new();
    let mut i: usize = 0;
    while i < n
        invariant
            i <= n,
            out@.len() == i,
            forall|k: int| 0 <= k < i ==> (#[trigger] out@[k])@ == SValue::Float(b),
        decreases n - i,
    {
        out.push(Value::Float(b));
        i = i + 1;
    }
    proof {
        assert(values_view(out@) =~= copies(b, n as nat));
    }
    out
}

fn fill(b: u64, args: &Vec<Value>) -> (r: Outcome)
    ensures
        r@ == filled(b, values_view(args@)),
{
    if args.len() == 1 {
        match &args[0] {
            Value::Int(n) => if *n >= 0 && *n as u64 <= usize::MAX as u64 {
                Outcome::Val(Value::Vector(copies_of(b, *n as usize)))
            } else {
                Outcome::Stuck
            },
            _ => Outcome::Stuck,
        }
    } else if args.len() == 2 {
        match (&args[0], &args[1]) {
            (Value::Int(r), Value::Int(c)) => if *r >= 0 && *c >= 0 && *r as u64
                <= usize::MAX as u64 && *c as u64 <= usize::MAX as u64 {
                let rows: usize = *r as usize;
                let cols: usize = *c as usize;
                match rows.checked_mul(cols) {
                    Some(n) => Outcome::Val(Value::Matrix(copies_of(b, n), rows, cols)),
                    None => Outcome::Stuck,
                }
            } else {
                Outcome::Stuck
            },
            _ => Outcome::Stuck,
        }
    } else {
        Outcome::Stuck
    }
}

fn identity(n: usize) -> (r: Vec<Value>)
    requires
        n * n <= usize::MAX,
    ensures
        values_view(r@) == unit_matrix(n as nat),
{
    let mut out: Vec<Value> = Vec::new();
    let mut i: usize = 0;
    proof {
        assert(0 * n == 0);
    }
    while i < n
        invariant
            i <= n,
            out@.len() == i * n,
            forall|k: int|
                0 <= k < out@.len() ==> (#[trigger] out@[k])@ == SValue::Float(
                    if k / n as int == k % n as int {
                        ONE
                    } else {
                        0
                    },
                ),
        decreases n - i,
    {
        let mut j: usize = 0;
        while j < n
            invariant
                i < n,
                j <= n,
                out@.len() == i * n + j,
                forall|k: int|
                    0 <= k < out@.len() ==> (#[trigger] out@[k])@ == SValue::Float(
                        if k / n as int == k % n as int {
                            ONE
                        } else {
                            0
                        },
                    ),
            decreases n - j,
        {
            proof {
                place_in_rows(i as int, j as int, n as int);
            }
            out.push(
                Value::Float(
                    if i == j {
                        ONE
                    } else {
                        0
                    },
                ),
            );
            j = j + 1;
        }
        proof {
            assert((i + 1) * n == i * n + n) by (nonlinear_arith);
        }
        i = i + 1;
    }
    proof {
        assert(values_view(out@) =~= unit_matrix(n as nat));
    }
    out
}

fn floats_only(v: &Vec<Value>, n: usize) -> (r: bool)
    ensures
        r == all_floats(values_view(v@), n * n),
{
    let ghost all = values_view(v@);
    let len: usize = v.len();
    let k: usize = match n.checked_mul(n) {
        Some(k) => k,
        None => {
            return false;
        }
    };
    if k > len {
        return false;
    }
    let mut i: usize = 0;
    while i < k
        invariant
            i <= k <= v@.len(),
            k == n * n,
            all == values_view(v@),
            forall|j: int| 0 <= j < i ==> (#[trigger] all[j]) is Float,
        decreases k - i,
    {
        match &v[i] {
            Value::Float(_) => {}
            _ => {
                proof {
                    assert(!(all[i as int] is Float));
                }
                return false;
            }
        }
        i = i + 1;
    }
    true
}

fn float_at(v: &Vec<Value>, i: usize) -> (r: u64)
    requires
        i < v@.len(),
        values_view(v@)[i as int] is Float,
    ensures
        r == values_view(v@)[i as int]->Float_0,
{
    match &v[i] {
        Value::Float(b) => *b,
        _ => 0,
    }
}

/// The place of an element in a square matrix.
fn square_place(i: usize, j: usize, n: usize, Ghost(len): Ghost<int>) -> (r: usize)
    requires
        i < n,
        j < n,
        n * n <= len <= usize::MAX,
    ensures
        r == i * n + j,
        r < n * n,
{
    proof {
        row_bound(i as int, n as int, n as int);
    }
    i * n + j
}

fn check_symmetric(v: &Vec<Value>, n: usize) -> (r: bool)
    requires
        all_floats(values_view(v@), n * n),
    ensures
        r == symmetric(values_view(v@), n as int),
{
    let ghost all = values_view(v@);
    let len: usize = v.len();
    let mut i: usize = 0;
    while i < n
        invariant
            i <= n,
            all == values_view(v@),
            all.len() == len,
            all_floats(all, n * n),
            forall|a: int, b: int|
                0 <= a < i && 0 <= b < n ==> float_eq(
                    #[trigger] cell(all, n as int, a, b),
                    cell(all, n as int, b, a),
                ),
        decreases n - i,
    {
        let mut j: usize = 0;
        while j < n
            invariant
                i < n,
                j <= n,
                all == values_view(v@),
                all.len() == len,
                all_floats(all, n * n),
                forall|b: int|
                    0 <= b < j ==> float_eq(
                        #[trigger] cell(all, n as int, i as int, b),
                        cell(all, n as int, b, i as int),
                    ),
            decreases n - j,
        {
            let p: usize = square_place(i, j, n, Ghost(len as int));
            let q: usize = square_place(j, i, n, Ghost(len as int));
            if !floats_equal(float_at(v, p), float_at(v, q)) {
                proof {
                    assert(!float_eq(
                        cell(all, n as int, i as int, j as int),
                        cell(all, n as int, j as int, i as int),
                    ));
                }
                return false;
            }
            j = j + 1;
        }
        i = i + 1;
    }
    true
}

fn check_diagonal(v: &Vec<Value>, n: usize) -> (r: bool)
    requires
        all_floats(values_view(v@), n * n),
    ensures
        r == is_diagonal(values_view(v@), n as int),
{
    let ghost all = values_view(v@);
    let len: usize = v.len();
    let mut i: usize = 0;
    while i < n
        invariant
            i <= n,
            all == values_view(v@),
            all.len() == len,
            all_floats(all, n * n),
            forall|a: int, b: int|
                0 <= a < i && 0 <= b < n && a != b ==> float_eq(
                    #[trigger] cell(all, n as int, a, b),
                    0,
                ),
        decreases n - i,
    {
        let mut j: usize = 0;
        while j < n
            invariant
                i < n,
                j <= n,
                all == values_view(v@),
                all.len() == len,
                all_floats(all, n * n),
                forall|b: int|
                    0 <= b < j && b != i ==> float_eq(
                        #[trigger] cell(all, n as int, i as int, b),
                        0,
                    ),
            decreases n - j,
        {
            let p: usize = square_place(i, j, n, Ghost(len as int));
            if i != j && !floats_equal(float_at(v, p), 0) {
                proof {
                    assert(!float_eq(cell(all, n as int, i as int, j as int), 0));
                }
                return false;
            }
            j = j + 1;
        }
        i = i + 1;
    }
    true
}

fn eval_transpose(args: &Vec<Value>) -> (r: Act)
    ensures
        forall|rng: Option<u64>, span: Span|
            r@ == (#[trigger] builtin_call(
                Builtin::Transpose,
                values_view(args@),
                rng,
                span,
            )).0,
{
    if args.len() == 0 {
        return stuck();
    }
    match &args[0] {
        Value::Matrix(e, r, c) => {
            let len: usize = e.len();
            match r.checked_mul(*c) {
                Some(n) => if n <= len {
                    let out = transpose(e, *r, *c);
                    done(Value::Matrix(out, *c, *r))
                } else {
                    stuck()
                },
                None => stuck(),
            }
        }
        _ => stuck(),
    }
}

/// What a builtin on the first two vectors of its arguments does.
fn eval_pair(b: Builtin, args: Vec<Value>, span: Span) -> (r: Act)
    requires
        b == Builtin::Dot || b == Builtin::Cross,
    ensures
        forall|rng: Option<u64>|
            r@ == (#[trigger] builtin_call(b, values_view(args@), rng, span)).0,
{
    if args.len() < 2 {
        return stuck();
    }
    match (&args[0], &args[1]) {
        (Value::Vector(x), Value::Vector(y)) => if holds_float(x) || holds_float(y) {
            Act::Ask(Request::Builtin(b, args))
        } else if matches!(b, Builtin::Dot) {
            Act::Done(inner_product(x, Some(0), y, 0, 1, x.len(), Ghost(0), span))
        } else {
            Act::Done(cross_product(x, y, span))
        },
        _ => stuck(),
    }
}

/// What a builtin on one vector does.
fn eval_vector(b: Builtin, e: &Vec<Value>, span: Span) -> (r: Option<Act>)
    ensures
        forall|args: Seq<SValue>|
            #[trigger] of_vector(b, values_view(e@), args, span) == match r {
                Some(a) => a@,
                None => SAct::Ask(SRequest::Builtin(b, args)),
            },
{
    match b {
        Builtin::Sum => if holds_float(e) {
            None
        } else {
            Some(Act::Done(sum_elements(e, span)))
        },
        Builtin::Len => if e.len() as u64 <= i64::MAX as u64 {
            Some(done(Value::Int(e.len() as i64)))
        } else {
            Some(stuck())
        },
        _ => Some(stuck()),
    }
}

/// What a builtin on one matrix does.
fn eval_matrix(b: Builtin, e: &Vec<Value>, rows: usize, cols: usize, span: Span) -> (r: Option<
    Act,
>)
    ensures
        forall|args: Seq<SValue>|
            #[trigger] of_matrix(b, values_view(e@), rows, cols, args, span) == match r {
                Some(a) => a@,
                None => SAct::Ask(SRequest::Builtin(b, args)),
            },
{
    match b {
        Builtin::Sum => if holds_float(e) {
            None
        } else {
            Some(Act::Done(sum_elements(e, span)))
        },
        Builtin::Trace => if holds_float(e) {
            None
        } else {
            Some(Act::Done(trace(e, rows, span)))
        },
        Builtin::IsSymmetric => if floats_only(e, rows) {
            Some(done(Value::Bool(check_symmetric(e, rows))))
        } else {
            Some(stuck())
        },
        Builtin::IsDiag => if floats_only(e, rows) {
            Some(done(Value::Bool(check_diagonal(e, rows))))
        } else {
            Some(stuck())
        },
        Builtin::IsSquare => Some(done(Value::Bool(rows == cols))),
        _ => Some(stuck()),
    }
}

/// What a builtin on its first argument does.
fn eval_single(b: Builtin, args: Vec<Value>, span: Span) -> (r: Act)
    ensures
        r@ == of_single(b, values_view(args@), span),
{
    if args.len() == 0 {
        return stuck();
    }
    let ghost all = values_view(args@);
    proof {
        assert(all[0] == args@[0]@);
    }
    let act = match &args[0] {
        Value::Vector(e) => eval_vector(b, e, span),
        Value::Matrix(e, rows, cols) => eval_matrix(b, e, *rows, *cols, span),
        _ => Some(stuck()),
    };
    match act {
        Some(a) => a,
        None => Act::Ask(Request::Builtin(b, args)),
    }
}

fn eval_identity(args: &Vec<Value>) -> (r: Act)
    ensures
        forall|rng: Option<u64>, span: Span|
            r@ == (#[trigger] builtin_call(
                Builtin::Identity,
                values_view(args@),
                rng,
                span,
            )).0,
{
    if args.len() != 1 {
        return stuck();
    }
    match &args[0] {
        Value::Int(n) => {
            if *n < 0 {
                return stuck();
            }
            if *n as u64 > usize::MAX as u64 {
                proof {
                    assert(*n * *n > usize::MAX) by (nonlinear_arith)
                        requires
                            *n > usize::MAX,
                    ;
                }
                return stuck();
            }
            let m: usize = *n as usize;
            match m.checked_mul(m) {
                Some(_) => {
                    let out = identity(m);
                    done(Value::Matrix(out, m, m))
                }
                None => stuck(),
            }
        }
        _ => stuck(),
    }
}

/// Draws random numbers, or seeds the generator.
fn eval_random(b: Builtin, args: &Vec<Value>, rng: &mut Option<u64>, span: Span) -> (r: Act)
    requires
        b == Builtin::RandSeed || b == Builtin::RandF64 || b == Builtin::RandGaussian,
    ensures
        (r@, *final(rng)) == builtin_call(b, values_view(args@), *old(rng), span),
{
    match b {
        Builtin::RandSeed => {
            if args.len() > 0 {
                if let Value::Int(seed) = &args[0] {
                    *rng = Some(to_unsigned(*seed));
                    return done(Value::Unit);
                }
            }
            stuck()
        }
        Builtin::RandF64 => match *rng {
            Some(s) => {
                let mut state: u64 = s;
                let bits: u64 = draw(&mut state);
                *rng = Some(state);
                Act::Ask(Request::Uniform(bits))
            }
            None => Act::Done(
                Outcome::Fail(RuntimeError { kind: ErrorKind::RngNotSeeded, span }),
            ),
        },
        _ => {
            if args.len() < 2 {
                return stuck();
            }
            match (&args[0], &args[1]) {
                (Value::Float(mean), Value::Float(stddev)) => match *rng {
                    Some(s) => {
                        let mut state: u64 = s;
                        let first: u64 = draw(&mut state);
                        let second: u64 = draw(&mut state);
                        *rng = Some(state);
                        Act::Ask(
                            Request::Gaussian { mean: *mean, stddev: *stddev, first, second },
                        )
                    }
                    None => Act::Done(
                        Outcome::Fail(RuntimeError { kind: ErrorKind::RngNotSeeded, span }),
                    ),
                },
                _ => stuck(),
            }
        }
    }
}

/// Calls a builtin.
pub fn eval_builtin(b: Builtin, args: Vec<Value>, rng: &mut Option<u64>, span: Span) -> (r: Act)
    ensures
        (r@, *final(rng)) == builtin_call(b, values_view(args@), *old(rng), span),
{
    match b {
        Builtin::RandSeed | Builtin::RandF64 | Builtin::RandGaussian => {
            eval_random(b, &args, rng, span)
        }
        Builtin::Print => {
            let mut out: Vec<Piece> = Vec::new();
            proof {
                assert(pieces_view(out@) =~= Seq::<SPiece>::empty());
            }
            show_all(&args, " ", &mut out);
            proof {
                let s = shown_all(values_view(args@), " "@);
                assert(Seq::<SPiece>::empty() + s =~= s);
            }
            Act::Ask(Request::Print(out))
        }
        Builtin::Transpose => eval_transpose(&args),
        Builtin::Dot | Builtin::Cross => eval_pair(b, args, span),
        Builtin::Zeros => Act::Done(fill(0, &args)),
        Builtin::Ones => Act::Done(fill(ONE, &args)),
        Builtin::Identity => eval_identity(&args),
        Builtin::Sum
        | Builtin::Len
        | Builtin::Trace
        | Builtin::IsSymmetric
        | Builtin::IsDiag
        | Builtin::IsSquare => eval_single(b, args, span),
        _ => Act::Ask(Request::Builtin(b, args)),
    }
}

/// The transpose of the transpose of a matrix is the matrix.
pub proof fn transpose_twice(e: Seq<SValue>, r: nat, c: nat)
    requires
        e.len() == r * c,
    ensures
        transposed(transposed(e, r, c), c, r) == e,
{
    let t = transposed(e, r, c);
    let u = transposed(t, c, r);
    assert(r * c == c * r) by (nonlinear_arith);
    assert forall|k: int| 0 <= k < u.len() implies u[k] == e[k] by {
        let ci = c as int;
        let ri = r as int;
        assert(c > 0) by {
            if c == 0 {
                assert(c * r == 0) by (nonlinear_arith)
                    requires
                        c == 0,
                ;
            }
        }
        let i = k / ci;
        let j = k % ci;
        vstd::arithmetic::div_mod::lemma_fundamental_div_mod(k, ci);
        assert(k == i * ci + j) by (nonlinear_arith)
            requires
                k == ci * (k / ci) + (k % ci),
                i == k / ci,
                j == k % ci,
        ;
        assert(0 <= i < ri) by (nonlinear_arith)
            requires
                k == i * ci + j,
                0 <= k < ci * ri,
                0 <= j < ci,
        ;
        row_bound(j, ci, ri);
        let m = j * ri + i;
        assert(u[k] == t[m]);
        place_in_rows(j, i, ri);
        assert(t[m] == e[i * ci + j]);
    }
    assert(u =~= e);
}

/// A call of a builtin.
pub ghost struct BuiltinCall {
    pub builtin: Builtin,
    pub args: Seq<SValue>,
    pub span: Span,
}

/// What calls come to one after the other, and the generator behind them.
pub open spec fn outcomes(calls: Seq<BuiltinCall>, rng: Option<u64>) -> (Seq<SAct>, Option<u64>)
    decreases calls.len(),
{
    if calls.len() == 0 {
        (Seq::empty(), rng)
    } else {
        let before = outcomes(calls.drop_last(), rng);
        let c = calls.last();
        let last = builtin_call(c.builtin, c.args, before.1, c.span);
        (before.0.push(last.0), last.1)
    }
}

/// A seed fixes everything that is drawn: whatever two generators did before, once both
/// get the same seed, the same calls come to the same on both, and leave them in one
/// state.
pub proof fn seeds_fix_draws(
    a: Option<u64>,
    b: Option<u64>,
    seed: i64,
    calls: Seq<BuiltinCall>,
    span: Span,
)
    ensures
        ({
            let x = builtin_call(Builtin::RandSeed, seq![SValue::Int(seed)], a, span);
            let y = builtin_call(Builtin::RandSeed, seq![SValue::Int(seed)], b, span);
            &&& x == y
            &&& x == (SAct::Done(SOutcome::Val(SValue::Unit)), Some(unsigned(seed)))
            &&& outcomes(calls, x.1) == outcomes(calls, y.1)
        }),
{
}

/// Without a seed nothing is drawn, and the generator stays without one. With one, a
/// uniform draw asks for a number of 53 bits.
pub proof fn draws_need_a_seed(args: Seq<SValue>, mean: u64, stddev: u64, state: u64, span: Span)
    ensures
        builtin_call(Builtin::RandF64, args, None, span) == (
            SAct::Done(failed(SErrorKind::RngNotSeeded, span)),
            None::<u64>,
        ),
        builtin_call(
            Builtin::RandGaussian,
            seq![SValue::Float(mean), SValue::Float(stddev)],
            None,
            span,
        ) == (SAct::Done(failed(SErrorKind::RngNotSeeded, span)), None::<u64>),
        builtin_call(Builtin::RandF64, args, Some(state), span) == (
            SAct::Ask(SRequest::Uniform(drawn(state))),
            Some(advanced(state)),
        ),
        drawn(state) < 0x20_0000_0000_0000,
{
    draws_are_bounded(state);
}

} // verus!
