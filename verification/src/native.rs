//! What generated code does: the meaning of its instructions, line by line, and
//! that the code of an operator computes what the operator computes.
use crate::arith::{float_test, int_op};
use crate::ast::{BinOp, STy};
use crate::emit::{arith, invert, negate};
use crate::guards::{dec_is_digits, decimals_differ, numbered, numbered_names_differ};
use crate::ir::{
    compare_floats, compare_ints, define, emit, fresh, fresh_label, guard_index, guard_range,
    guard_test, trap, Cx, Gen, Text,
};
use crate::numeric::guard_divisor;
use crate::text::{dec, dec_nat};
use crate::token::Span;
use crate::value::{float_neg, float_place, is_nan, SErrorKind, SOutcome, SValue};
use vstd::prelude::*;
use vstd::string::*;

verus! {

/// What a register or a slot holds.
pub ghost enum Word {
    I64(i64),
    I1(bool),
    /// An integer of fewer bits, with how its type is written.
    Short(Text, int),
    /// A floating-point number, by its bits.
    Double(u64),
}

pub ghost enum IntInstr {
    Plus,
    Minus,
    Times,
    Over,
}

pub ghost enum Cond {
    Same,
    Different,
    Less,
    Greater,
    AtMost,
    AtLeast,
}

/// What a register is computed by.
pub ghost enum Rhs {
    Int(IntInstr, Text, Text),
    Test(Cond, Text, Text, Text),
    Both(Text, Text),
    Either(Text, Text),
    Load(Text, Text),
    /// An integer of fewer bits, made as wide as the others.
    Widen(Text, Text),
    /// An integer, cut to fewer bits.
    Cut(Text, Text),
    /// A comparison of two floating-point numbers.
    FloatTest(Cond, Text, Text),
    /// A floating-point number with its sign turned round.
    FloatNeg(Text),
}

/// One line of a function's body.
pub ghost enum Instr {
    Def(Text, Rhs),
    Store(Text, Text, Text),
    Label(Text),
    Jump(Text),
    Branch(Text, Text, Text),
    Abort,
    Unreachable,
}

/// How a condition is written.
pub open spec fn cond_text(c: Cond) -> Text {
    match c {
        Cond::Same => "eq"@,
        Cond::Different => "ne"@,
        Cond::Less => "slt"@,
        Cond::Greater => "sgt"@,
        Cond::AtMost => "sle"@,
        Cond::AtLeast => "sge"@,
    }
}

/// How a condition on floating-point numbers is written. All of them are false of `NaN`.
pub open spec fn float_cond_text(c: Cond) -> Text {
    match c {
        Cond::Same => "oeq"@,
        Cond::Different => "one"@,
        Cond::Less => "olt"@,
        Cond::Greater => "ogt"@,
        Cond::AtMost => "ole"@,
        Cond::AtLeast => "oge"@,
    }
}

pub open spec fn float_holds(c: Cond, x: u64, y: u64) -> bool {
    !is_nan(x) && !is_nan(y) && holds_of(c, float_place(x), float_place(y))
}

pub open spec fn rhs_text(r: Rhs) -> Text {
    match r {
        Rhs::Int(IntInstr::Plus, a, b) => "add i64 "@ + a + ", "@ + b,
        Rhs::Int(IntInstr::Minus, a, b) => "sub i64 "@ + a + ", "@ + b,
        Rhs::Int(IntInstr::Times, a, b) => "mul i64 "@ + a + ", "@ + b,
        Rhs::Int(IntInstr::Over, a, b) => "sdiv i64 "@ + a + ", "@ + b,
        Rhs::Test(c, ty, a, b) => "icmp "@ + cond_text(c) + " "@ + ty + " "@ + a + ", "@ + b,
        Rhs::Both(a, b) => "and i1 "@ + a + ", "@ + b,
        Rhs::Either(a, b) => "xor i1 "@ + a + ", "@ + b,
        Rhs::Load(ty, p) => "load "@ + ty + ", ptr "@ + p,
        Rhs::Widen(ty, a) => "sext "@ + ty + " "@ + a + " to i64"@,
        Rhs::Cut(a, ty) => "trunc i64 "@ + a + " to "@ + ty,
        Rhs::FloatTest(c, a, b) => "fcmp "@ + float_cond_text(c) + " double "@ + a + ", "@ + b,
        Rhs::FloatNeg(a) => "fneg double "@ + a,
    }
}

/// How an instruction is written.
pub open spec fn line(i: Instr) -> Text {
    match i {
        Instr::Def(d, r) => "  "@ + d + " = "@ + rhs_text(r),
        Instr::Store(ty, a, p) => "  store "@ + ty + " "@ + a + ", ptr "@ + p,
        Instr::Label(l) => l + ":"@,
        Instr::Jump(l) => "  br label %"@ + l,
        Instr::Branch(c, a, b) => "  br i1 "@ + c + ", label %"@ + a + ", label %"@ + b,
        Instr::Abort => "  call void @abort()"@,
        Instr::Unreachable => "  unreachable"@,
    }
}

pub open spec fn lines(code: Seq<Instr>) -> Seq<Text> {
    Seq::new(code.len(), |i: int| line(code[i]))
}

/// The code of `b` is that of `a` with `code` behind it.
pub open spec fn adds(a: Cx, b: Cx, code: Seq<Instr>) -> bool {
    b.body == a.body + lines(code)
}

/// What the registers and the slots hold.
pub ghost struct State {
    pub regs: Map<Text, Word>,
    pub mem: Map<Text, Word>,
}

/// What an operand stands for: a register or a constant.
pub open spec fn operand(m: State, a: Text) -> Option<Word> {
    if a.len() > 0 && a[0] == '%' {
        if m.regs.dom().contains(a) {
            Some(m.regs[a])
        } else {
            None
        }
    } else if a == "true"@ {
        Some(Word::I1(true))
    } else if a == "false"@ {
        Some(Word::I1(false))
    } else if exists|n: i64| a == dec(n as int) {
        Some(Word::I64(choose|n: i64| a == dec(n as int)))
    } else {
        None
    }
}

/// The integer of 64 bits that is `n` but for a multiple of two to the 64.
pub open spec fn wrapped(n: int) -> i64 {
    ((n + 0x8000_0000_0000_0000) % 0x1_0000_0000_0000_0000 - 0x8000_0000_0000_0000) as i64
}

/// The quotient of two integers, cut off towards zero.
pub open spec fn quotient(x: int, y: int) -> int {
    let q = (if x < 0 {
        -x
    } else {
        x
    }) / (if y < 0 {
        -y
    } else {
        y
    });
    if (x < 0) == (y < 0) {
        q
    } else {
        -q
    }
}

pub open spec fn int_instr(i: IntInstr, x: i64, y: i64) -> Option<Word> {
    match i {
        IntInstr::Plus => Some(Word::I64(wrapped(x + y))),
        IntInstr::Minus => Some(Word::I64(wrapped(x - y))),
        IntInstr::Times => Some(Word::I64(wrapped(x * y))),
        IntInstr::Over => if y == 0 || quotient(x as int, y as int) > i64::MAX {
            None
        } else {
            Some(Word::I64(quotient(x as int, y as int) as i64))
        },
    }
}

pub open spec fn holds_of(c: Cond, x: int, y: int) -> bool {
    match c {
        Cond::Same => x == y,
        Cond::Different => x != y,
        Cond::Less => x < y,
        Cond::Greater => x > y,
        Cond::AtMost => x <= y,
        Cond::AtLeast => x >= y,
    }
}

pub open spec fn test(c: Cond, ty: Text, a: Word, b: Word) -> Option<Word> {
    match (a, b) {
        (Word::I64(x), Word::I64(y)) => if ty == "i64"@ {
            Some(Word::I1(holds_of(c, x as int, y as int)))
        } else {
            None
        },
        (Word::I1(x), Word::I1(y)) => if ty != "i1"@ {
            None
        } else if c is Same {
            Some(Word::I1(x == y))
        } else if c is Different {
            Some(Word::I1(x != y))
        } else {
            None
        },
        _ => None,
    }
}

/// What a right side computes, where that is defined.
pub open spec fn compute(r: Rhs, m: State) -> Option<Word> {
    match r {
        Rhs::Int(i, a, b) => match (operand(m, a), operand(m, b)) {
            (Some(Word::I64(x)), Some(Word::I64(y))) => int_instr(i, x, y),
            _ => None,
        },
        Rhs::Test(c, ty, a, b) => match (operand(m, a), operand(m, b)) {
            (Some(x), Some(y)) => test(c, ty, x, y),
            _ => None,
        },
        Rhs::Both(a, b) => match (operand(m, a), operand(m, b)) {
            (Some(Word::I1(x)), Some(Word::I1(y))) => Some(Word::I1(x && y)),
            _ => None,
        },
        Rhs::Either(a, b) => match (operand(m, a), operand(m, b)) {
            (Some(Word::I1(x)), Some(Word::I1(y))) => Some(Word::I1(x != y)),
            _ => None,
        },
        Rhs::Load(ty, p) => if m.mem.dom().contains(p) && sized(m.mem[p], ty) {
            Some(m.mem[p])
        } else {
            None
        },
        Rhs::Widen(ty, a) => match operand(m, a) {
            Some(Word::Short(t, n)) => if t == ty {
                Some(Word::I64(n as i64))
            } else {
                None
            },
            _ => None,
        },
        Rhs::Cut(a, ty) => match (operand(m, a), half(ty)) {
            (Some(Word::I64(x)), Some(h)) => Some(Word::Short(ty, (x + h) % (2 * h) - h)),
            _ => None,
        },
        Rhs::FloatTest(c, a, b) => match (operand(m, a), operand(m, b)) {
            (Some(Word::Double(x)), Some(Word::Double(y))) => Some(Word::I1(float_holds(c, x, y))),
            _ => None,
        },
        Rhs::FloatNeg(a) => match operand(m, a) {
            Some(Word::Double(x)) => Some(Word::Double(float_neg(x))),
            _ => None,
        },
    }
}

/// Half of how many integers there are of a type of fewer bits.
pub open spec fn half(ty: Text) -> Option<int> {
    if ty == "i8"@ {
        Some(0x80)
    } else if ty == "i16"@ {
        Some(0x8000)
    } else if ty == "i32"@ {
        Some(0x8000_0000)
    } else {
        None
    }
}

/// Whether a word is one of the type.
pub open spec fn sized(w: Word, ty: Text) -> bool {
    match w {
        Word::I64(_) => ty == "i64"@,
        Word::I1(_) => ty == "i1"@,
        Word::Short(t, _) => ty == t,
        Word::Double(_) => ty == "double"@,
    }
}

/// How a run of code ends: it comes out at its end, it leads to a label that is not
/// ahead, the program aborts, or nothing is promised.
pub ghost enum End {
    Through(State),
    Out(Text, State),
    Aborted,
    Undefined,
}

/// Where the label stands, at `at` or behind it.
pub open spec fn place(code: Seq<Instr>, l: Text, at: int) -> int
    decreases code.len() - at,
{
    if !(0 <= at < code.len()) || code[at] == Instr::Label(l) {
        at
    } else {
        place(code, l, at + 1)
    }
}

proof fn place_is_ahead(code: Seq<Instr>, l: Text, at: int)
    requires
        0 <= at <= code.len(),
    ensures
        at <= place(code, l, at) <= code.len(),
    decreases code.len() - at,
{
    if at < code.len() && code[at] != Instr::Label(l) {
        place_is_ahead(code, l, at + 1);
    }
}

/// A run of code from the line `at` on.
pub open spec fn run(code: Seq<Instr>, at: int, m: State) -> End
    decreases code.len() - at, 1nat,
{
    if !(0 <= at < code.len()) {
        End::Through(m)
    } else {
        match code[at] {
            Instr::Label(_) => run(code, at + 1, m),
            Instr::Def(d, r) => match compute(r, m) {
                Some(w) => run(code, at + 1, State { regs: m.regs.insert(d, w), ..m }),
                None => End::Undefined,
            },
            Instr::Store(ty, a, p) => match operand(m, a) {
                Some(w) => if sized(w, ty) {
                    run(code, at + 1, State { mem: m.mem.insert(p, w), ..m })
                } else {
                    End::Undefined
                },
                None => End::Undefined,
            },
            Instr::Jump(l) => jump(code, at, l, m),
            Instr::Branch(c, a, b) => match operand(m, c) {
                Some(Word::I1(true)) => jump(code, at, a, m),
                Some(Word::I1(false)) => jump(code, at, b, m),
                _ => End::Undefined,
            },
            Instr::Abort => End::Aborted,
            Instr::Unreachable => End::Undefined,
        }
    }
}

pub open spec fn jump(code: Seq<Instr>, at: int, l: Text, m: State) -> End
    decreases code.len() - at, 0nat,
{
    let p = place(code, l, at + 1);
    if at < p < code.len() {
        run(code, p, m)
    } else {
        End::Out(l, m)
    }
}

/// The operand is a constant or a register that was named before.
pub open spec fn settled(cx: Cx, a: Text) -> bool {
    forall|p: Text, k: nat| k > cx.tmp ==> a != #[trigger] numbered(p, k)
}

/// There is room for `n` more names.
pub open spec fn roomy(cx: Cx, n: nat) -> bool {
    cx.tmp + n < u64::MAX && cx.label + n < u64::MAX
}

pub proof fn constants_are_operands(m: State, n: i64)
    ensures
        operand(m, dec(n as int)) == Some(Word::I64(n)),
        operand(m, "true"@) == Some(Word::I1(true)),
        operand(m, "false"@) == Some(Word::I1(false)),
{
    reveal_strlit("true");
    reveal_strlit("false");
    let a = dec(n as int);
    dec_is_digits(n as nat);
    dec_is_digits((-n) as nat);
    assert(a.len() > 0 && (a[0] == '-' || '0' <= a[0] <= '9')) by {
        if n < 0 {
            assert(a[0] == '-');
        } else {
            assert(a == dec_nat(n as nat));
        }
    }
    assert("true"@[0] == 't');
    assert("false"@[0] == 'f');
    let k = choose|k: i64| a == dec(k as int);
    assert(a == dec(n as int));
    assert(a == dec(k as int));
    integers_differ(n as int, k as int);
}

/// Integers with the same decimal are equal.
pub proof fn integers_differ(a: int, b: int)
    requires
        dec(a) == dec(b),
    ensures
        a == b,
{
    let (x, y) = (dec(a), dec(b));
    dec_is_digits((if a < 0 { -a } else { a }) as nat);
    dec_is_digits((if b < 0 { -b } else { b }) as nat);
    if a < 0 {
        assert(x[0] == '-');
        if b < 0 {
            assert(x.skip(1) =~= dec_nat((-a) as nat));
            assert(y.skip(1) =~= dec_nat((-b) as nat));
            decimals_differ((-a) as nat, (-b) as nat);
        } else {
            assert(y == dec_nat(b as nat));
        }
    } else if b < 0 {
        assert(y[0] == '-');
        assert(x == dec_nat(a as nat));
    } else {
        decimals_differ(a as nat, b as nat);
    }
}

/// One more register: its line, its name, and that no operand of before has it.
pub(crate) proof fn one_more(cx: Cx, prefix: Text, rhs: Rhs) -> (code: Seq<Instr>)
    requires
        roomy(cx, 1),
    ensures
        ({
            let d = define(cx, prefix, rhs_text(rhs));
            &&& adds(cx, d.0, code)
            &&& code == seq![Instr::Def(d.1, rhs)]
            &&& d.1.len() > 0
            &&& d.1[0] == '%'
            &&& d.1 == numbered("%"@ + prefix, (cx.tmp + 1) as nat)
            &&& d.0.tmp == cx.tmp + 1
            &&& d.0.label == cx.label
            &&& d.0.audited == cx.audited
            &&& d.0.terminated == cx.terminated
            &&& settled(d.0, d.1)
            &&& forall|a: Text| settled(cx, a) ==> #[trigger] settled(d.0, a) && a != d.1
        }),
{
    reveal(define);
    reveal(fresh);
    reveal(emit);
    reveal_strlit("%");
    let d = define(cx, prefix, rhs_text(rhs));
    let code = seq![Instr::Def(d.1, rhs)];
    assert(lines(code) =~= seq![line(code[0])]);
    assert(d.0.body =~= cx.body + lines(code));
    let n = (cx.tmp + 1) as nat;
    assert(d.1 =~= numbered("%"@ + prefix, n));
    assert forall|p: Text, k: nat| k > d.0.tmp implies d.1 != #[trigger] numbered(p, k) by {
        numbered_names_differ("%"@ + prefix, n, p, k);
    }
    assert forall|a: Text| settled(cx, a) implies #[trigger] settled(d.0, a) && a != d.1 by {
        assert(a != numbered("%"@ + prefix, n));
    }
    code
}

/// Adding, taking away and multiplying wrap round; dividing cuts off towards zero.
pub proof fn integers_are_computed_with(x: i64, y: i64, span: Span)
    ensures
        int_op(BinOp::Add, x, y, span) == SOutcome::Val(SValue::Int(wrapped(x + y))),
        int_op(BinOp::Sub, x, y, span) == SOutcome::Val(SValue::Int(wrapped(x - y))),
        int_op(BinOp::Mul, x, y, span) == SOutcome::Val(SValue::Int(wrapped(x * y))),
        int_op(BinOp::ElemMul, x, y, span) == SOutcome::Val(SValue::Int(wrapped(x * y))),
        y != 0 && !(x == i64::MIN && y == -1) ==> {
            &&& int_op(BinOp::Div, x, y, span) == SOutcome::Val(
                SValue::Int(quotient(x as int, y as int) as i64),
            )
            &&& i64::MIN <= quotient(x as int, y as int) <= i64::MAX
        },
        int_op(BinOp::ElemDiv, x, y, span) == int_op(BinOp::Div, x, y, span),
        y == 0 ==> (int_op(BinOp::Div, x, y, span) matches SOutcome::Fail(e) && e.kind
            == SErrorKind::DivByZero && e.span == span),
        int_op(BinOp::Eq, x, y, span) == SOutcome::Val(SValue::Bool(x == y)),
        int_op(BinOp::NotEq, x, y, span) == SOutcome::Val(SValue::Bool(x != y)),
        int_op(BinOp::Lt, x, y, span) == SOutcome::Val(SValue::Bool(x < y)),
        int_op(BinOp::Gt, x, y, span) == SOutcome::Val(SValue::Bool(x > y)),
        int_op(BinOp::LtEq, x, y, span) == SOutcome::Val(SValue::Bool(x <= y)),
        int_op(BinOp::GtEq, x, y, span) == SOutcome::Val(SValue::Bool(x >= y)),
{
    wrapped_is_cropped(x * y);
    wrapped_is_cropped(x + y);
    wrapped_is_cropped(x - y);
    let a = if x < 0 {
        -x
    } else {
        x as int
    };
    let d = if y < 0 {
        -y
    } else {
        y as int
    };
    if y != 0 {
        assert(0 <= a / d <= a) by (nonlinear_arith)
            requires
                a >= 0,
                d >= 1,
        ;
        if d >= 2 && a >= 1 {
            assert(a / d < a) by (nonlinear_arith)
                requires
                    a >= 1,
                    d >= 2,
            ;
        }
        if d == 1 {
            assert(a / 1 == a);
        }
        if x == 0 {
            assert(a / d == 0);
        }
        assert(x * -1 == -x && y * -1 == -y);
    }
}

proof fn wrapped_is_cropped(n: int)
    ensures
        wrapped(n) == vstd::wrapping::i64_specs::signed_crop(n),
        i64::MIN <= n <= i64::MAX ==> wrapped(n) == n,
        i64::MAX < n <= i64::MAX + 0x1_0000_0000_0000_0000 ==> wrapped(n) == n
            - 0x1_0000_0000_0000_0000,
        i64::MIN - 0x1_0000_0000_0000_0000 <= n < i64::MIN ==> wrapped(n) == n
            + 0x1_0000_0000_0000_0000,
{
}

proof fn place_in_front(a: Seq<Instr>, b: Seq<Instr>, l: Text, at: int)
    requires
        0 <= at <= a.len(),
    ensures
        place(a, l, at) < a.len() ==> place(a + b, l, at) == place(a, l, at),
        place(a, l, at) >= a.len() ==> place(a + b, l, at) == a.len() + place(b, l, 0),
    decreases a.len() - at,
{
    if at < a.len() {
        assert((a + b)[at] == a[at]);
        if a[at] != Instr::Label(l) {
            place_in_front(a, b, l, at + 1);
        }
    } else {
        place_behind(a, b, l, 0);
    }
}

proof fn place_behind(a: Seq<Instr>, b: Seq<Instr>, l: Text, at: int)
    requires
        0 <= at <= b.len(),
    ensures
        place(a + b, l, a.len() + at) == a.len() + place(b, l, at),
    decreases b.len() - at,
{
    let s = a + b;
    if at < b.len() {
        assert(s[a.len() + at] == b[at]);
        if b[at] != Instr::Label(l) {
            place_behind(a, b, l, at + 1);
        }
    }
}

proof fn jump_behind(a: Seq<Instr>, b: Seq<Instr>, l: Text, at: int, m: State)
    requires
        0 <= at < b.len(),
    ensures
        jump(a + b, a.len() + at, l, m) == jump(b, at, l, m),
    decreases b.len() - at, 0nat,
{
    place_behind(a, b, l, at + 1);
    place_is_ahead(b, l, at + 1);
    let p = place(b, l, at + 1);
    if at < p < b.len() {
        run_behind(a, b, p, m);
    }
}

/// What stands in front of the code makes no difference to it.
proof fn run_behind(a: Seq<Instr>, b: Seq<Instr>, at: int, m: State)
    requires
        0 <= at <= b.len(),
    ensures
        run(a + b, a.len() + at, m) == run(b, at, m),
    decreases b.len() - at, 1nat,
{
    let s = a + b;
    if at < b.len() {
        assert(s[a.len() + at] == b[at]);
        match b[at] {
            Instr::Label(_) => run_behind(a, b, at + 1, m),
            Instr::Def(d, r) => if let Some(w) = compute(r, m) {
                run_behind(a, b, at + 1, State { regs: m.regs.insert(d, w), ..m });
            },
            Instr::Store(_, x, p) => if let Some(w) = operand(m, x) {
                run_behind(a, b, at + 1, State { mem: m.mem.insert(p, w), ..m });
            },
            Instr::Jump(l) => jump_behind(a, b, l, at, m),
            Instr::Branch(_, x, y) => {
                jump_behind(a, b, x, at, m);
                jump_behind(a, b, y, at, m);
            },
            _ => {},
        }
    }
}

/// A run that has come to a label, where the label stands in the code.
pub open spec fn land(code: Seq<Instr>, l: Text, m: State) -> End {
    let p = place(code, l, 0);
    if p < code.len() {
        run(code, p, m)
    } else {
        End::Out(l, m)
    }
}

/// How a run ends that goes on into `b`.
pub open spec fn on(first: End, b: Seq<Instr>) -> End {
    match first {
        End::Through(n) => run(b, 0, n),
        End::Out(l, n) => land(b, l, n),
        other => other,
    }
}

proof fn jump_on(a: Seq<Instr>, b: Seq<Instr>, l: Text, at: int, m: State)
    requires
        0 <= at < a.len(),
    ensures
        jump(a + b, at, l, m) == on(jump(a, at, l, m), b),
    decreases a.len() - at, 0nat,
{
    place_in_front(a, b, l, at + 1);
    place_is_ahead(a, l, at + 1);
    place_is_ahead(b, l, 0);
    let p = place(a, l, at + 1);
    if at < p < a.len() {
        run_on(a, b, p, m);
    } else if place(b, l, 0) < b.len() {
        run_behind(a, b, place(b, l, 0), m);
    }
}

/// Code runs on into what stands behind it.
pub proof fn run_on(a: Seq<Instr>, b: Seq<Instr>, at: int, m: State)
    requires
        0 <= at <= a.len(),
    ensures
        run(a + b, at, m) == on(run(a, at, m), b),
    decreases a.len() - at, 1nat,
{
    let s = a + b;
    if at < a.len() {
        assert(s[at] == a[at]);
        match a[at] {
            Instr::Label(_) => run_on(a, b, at + 1, m),
            Instr::Def(d, r) => if let Some(w) = compute(r, m) {
                run_on(a, b, at + 1, State { regs: m.regs.insert(d, w), ..m });
            },
            Instr::Store(_, x, p) => if let Some(w) = operand(m, x) {
                run_on(a, b, at + 1, State { mem: m.mem.insert(p, w), ..m });
            },
            Instr::Jump(l) => jump_on(a, b, l, at, m),
            Instr::Branch(_, x, y) => {
                jump_on(a, b, x, at, m);
                jump_on(a, b, y, at, m);
            },
            _ => {},
        }
    } else {
        run_behind(a, b, 0, m);
    }
}

pub(crate) proof fn adds_on(a: Cx, b: Cx, c: Cx, x: Seq<Instr>, y: Seq<Instr>)
    requires
        adds(a, b, x),
        adds(b, c, y),
    ensures
        adds(a, c, x + y),
{
    assert(lines(x + y) =~= lines(x) + lines(y));
    assert(c.body =~= a.body + lines(x + y));
}

/// The word that a value of the interpreter is kept in.
pub open spec fn word(v: SValue) -> Option<Word> {
    match v {
        SValue::Int(n) => Some(Word::I64(n)),
        SValue::Bool(b) => Some(Word::I1(b)),
        _ => None,
    }
}

/// What was there before is as it was.
pub open spec fn leaves(cx: Cx, m: State, n: State) -> bool {
    &&& n.mem == m.mem
    &&& forall|a: Text| settled(cx, a) ==> #[trigger] operand(n, a) == operand(m, a)
}

/// The run comes out with `w` in `v`, and what was there before is as it was.
pub open spec fn yields(cx: Cx, m: State, end: End, v: Text, w: Word) -> bool {
    end matches End::Through(n) && operand(n, v) == Some(w) && leaves(cx, m, n)
}

/// The code of one register.
pub(crate) proof fn one_line(cx: Cx, prefix: Text, rhs: Rhs, m: State, w: Word) -> (code: Seq<Instr>)
    requires
        roomy(cx, 1),
        compute(rhs, m) == Some(w),
    ensures
        ({
            let d = define(cx, prefix, rhs_text(rhs));
            &&& adds(cx, d.0, code)
            &&& yields(cx, m, run(code, 0, m), d.1, w)
            &&& settled(d.0, d.1)
            &&& forall|a: Text| settled(cx, a) ==> #[trigger] settled(d.0, a)
        }),
{
    let code = one_more(cx, prefix, rhs);
    let d = define(cx, prefix, rhs_text(rhs));
    let n = State { regs: m.regs.insert(d.1, w), ..m };
    assert(run(code, 1, n) == End::Through(n));
    assert(run(code, 0, m) == End::Through(n));
    assert forall|a: Text| settled(cx, a) implies #[trigger] operand(n, a) == operand(m, a) by {
        assert(settled(d.0, a) && a != d.1);
    }
    code
}

/// A guard aborts exactly where its test holds, and changes nothing else.
pub proof fn guards_abort(
    cx: Cx,
    reg: Text,
    rhs: Rhs,
    trap_label: Text,
    ok_label: Text,
    m: State,
    b: bool,
) -> (code: Seq<Instr>)
    requires
        roomy(cx, 2),
        compute(rhs, m) == Some(Word::I1(b)),
    ensures
        adds(cx, guard_test(cx, reg, rhs_text(rhs), trap_label, ok_label), code),
        b ==> run(code, 0, m) is Aborted,
        !b ==> (run(code, 0, m) matches End::Through(n) && leaves(cx, m, n)),
        guard_test(cx, reg, rhs_text(rhs), trap_label, ok_label).tmp == cx.tmp + 1,
        guard_test(cx, reg, rhs_text(rhs), trap_label, ok_label).label == cx.label + 2,
        forall|a: Text|
            settled(cx, a) ==> #[trigger] settled(
                guard_test(cx, reg, rhs_text(rhs), trap_label, ok_label),
                a,
            ),
{
    let first = one_more(cx, reg, rhs);
    let d = define(cx, reg, rhs_text(rhs));
    reveal(guard_test);
    reveal(fresh_label);
    reveal(trap);
    reveal(emit);
    let fail = fresh_label(d.0, trap_label);
    let pass = fresh_label(fail.0, ok_label);
    let end = guard_test(cx, reg, rhs_text(rhs), trap_label, ok_label);
    let rest = seq![
        Instr::Branch(d.1, fail.1, pass.1),
        Instr::Label(fail.1),
        Instr::Abort,
        Instr::Unreachable,
        Instr::Label(pass.1),
    ];
    assert(end.body =~= d.0.body + lines(rest));
    adds_on(cx, d.0, end, first, rest);
    assert(fail.1 == numbered(trap_label, (cx.label + 1) as nat));
    assert(pass.1 == numbered(ok_label, (cx.label + 2) as nat));
    numbered_names_differ(
        trap_label,
        (cx.label + 1) as nat,
        ok_label,
        (cx.label + 2) as nat,
    );
    let n = State { regs: m.regs.insert(d.1, Word::I1(b)), ..m };
    assert(run(first, 1, n) == End::Through(n));
    assert(run(first, 0, m) == End::Through(n));
    run_on(first, rest, 0, m);
    assert(operand(n, d.1) == Some(Word::I1(b)));
    assert(place(rest, fail.1, 1) == 1);
    assert(place(rest, pass.1, 4) == 4);
    assert(place(rest, pass.1, 3) == 4);
    assert(place(rest, pass.1, 2) == 4);
    assert(place(rest, pass.1, 1) == 4);
    assert(run(rest, 2, n) is Aborted);
    assert(run(rest, 1, n) is Aborted);
    assert(run(rest, 5, n) == End::Through(n));
    assert(run(rest, 4, n) == End::Through(n));
    assert(rest[0] == Instr::Branch(d.1, fail.1, pass.1));
    assert(jump(rest, 0, fail.1, n) is Aborted);
    assert(jump(rest, 0, pass.1, n) == End::Through(n));
    assert(b ==> run(rest, 0, n) == jump(rest, 0, fail.1, n));
    assert(!b ==> run(rest, 0, n) == jump(rest, 0, pass.1, n));
    assert forall|a: Text| settled(cx, a) implies #[trigger] operand(n, a) == operand(m, a) by {
        assert(settled(d.0, a) && a != d.1);
    }
    assert forall|a: Text| settled(cx, a) implies #[trigger] settled(end, a) by {
        assert(settled(d.0, a));
    }
    first + rest
}

/// The code of an operator on two integers leaves in its register what the
/// interpreter computes, and aborts where the interpreter fails on a divisor of
/// zero, unless the check was waived or proved away.
pub proof fn integer_code_computes(
    cx: Cx,
    op: BinOp,
    l: Text,
    r: Text,
    t: STy,
    proven: bool,
    m: State,
    x: i64,
    y: i64,
    span: Span,
) -> (code: Seq<Instr>)
    requires
        op != BinOp::And,
        op != BinOp::Or,
        t != STy::F64,
        t != STy::Bool,
        roomy(cx, 3),
        settled(cx, l),
        settled(cx, r),
        operand(m, l) == Some(Word::I64(x)),
        operand(m, r) == Some(Word::I64(y)),
    ensures
        arith(cx, op, l, r, t, proven) matches Gen::Made(c, v) && {
            &&& adds(cx, c, code)
            &&& settled(c, v)
            &&& forall|a: Text| settled(cx, a) ==> #[trigger] settled(c, a)
            &&& int_op(op, x, y, span) matches SOutcome::Val(w) ==> (word(w) matches Some(k) && yields(
                cx,
                m,
                run(code, 0, m),
                v,
                k,
            ))
            &&& int_op(op, x, y, span) is Fail && !cx.audited && !proven ==> run(
                code,
                0,
                m,
            ) is Aborted
        },
{
    integers_are_computed_with(x, y, span);
    reveal(arith);
    reveal(compare_ints);
    match op {
        BinOp::Add => one_line(
            cx,
            "add"@,
            Rhs::Int(IntInstr::Plus, l, r),
            m,
            Word::I64(wrapped(x + y)),
        ),
        BinOp::Sub => one_line(
            cx,
            "sub"@,
            Rhs::Int(IntInstr::Minus, l, r),
            m,
            Word::I64(wrapped(x - y)),
        ),
        BinOp::Mul | BinOp::ElemMul => one_line(
            cx,
            "mul"@,
            Rhs::Int(IntInstr::Times, l, r),
            m,
            Word::I64(wrapped(x * y)),
        ),
        BinOp::Eq => one_line(
            cx,
            "cmp"@,
            Rhs::Test(Cond::Same, "i64"@, l, r),
            m,
            Word::I1(x == y),
        ),
        BinOp::NotEq => one_line(
            cx,
            "cmp"@,
            Rhs::Test(Cond::Different, "i64"@, l, r),
            m,
            Word::I1(x != y),
        ),
        BinOp::Lt => one_line(
            cx,
            "cmp"@,
            Rhs::Test(Cond::Less, "i64"@, l, r),
            m,
            Word::I1(x < y),
        ),
        BinOp::Gt => one_line(
            cx,
            "cmp"@,
            Rhs::Test(Cond::Greater, "i64"@, l, r),
            m,
            Word::I1(x > y),
        ),
        BinOp::LtEq => one_line(
            cx,
            "cmp"@,
            Rhs::Test(Cond::AtMost, "i64"@, l, r),
            m,
            Word::I1(x <= y),
        ),
        BinOp::GtEq => one_line(
            cx,
            "cmp"@,
            Rhs::Test(Cond::AtLeast, "i64"@, l, r),
            m,
            Word::I1(x >= y),
        ),
        _ => divided(cx, l, r, proven, m, x, y),
    }
}

proof fn zero_test(r: Text)
    ensures
        rhs_text(Rhs::Test(Cond::Same, "i64"@, r, "0"@)) == "icmp eq i64 "@ + r + ", 0"@,
        dec(0) == "0"@,
{
    reveal_strlit("icmp ");
    reveal_strlit("eq");
    reveal_strlit(" ");
    reveal_strlit("i64");
    reveal_strlit(", ");
    reveal_strlit("0");
    reveal_strlit(", 0");
    reveal_strlit("icmp eq i64 ");
    assert(rhs_text(Rhs::Test(Cond::Same, "i64"@, r, "0"@)) =~= "icmp eq i64 "@ + r + ", 0"@);
    assert(dec(0) =~= "0"@);
}

proof fn divided(cx: Cx, l: Text, r: Text, proven: bool, m: State, x: i64, y: i64) -> (code: Seq<
    Instr,
>)
    requires
        roomy(cx, 3),
        settled(cx, l),
        settled(cx, r),
        operand(m, l) == Some(Word::I64(x)),
        operand(m, r) == Some(Word::I64(y)),
    ensures
        ({
            let d = define(guard_divisor(cx, r, proven), "sdiv"@, "sdiv i64 "@ + l + ", "@ + r);
            let q = quotient(x as int, y as int);
            &&& adds(cx, d.0, code)
            &&& settled(d.0, d.1)
            &&& forall|a: Text| settled(cx, a) ==> #[trigger] settled(d.0, a)
            &&& y != 0 && q <= i64::MAX ==> yields(cx, m, run(code, 0, m), d.1, Word::I64(q as i64))
            &&& y == 0 && !cx.audited && !proven ==> run(code, 0, m) is Aborted
        }),
{
    reveal(guard_divisor);
    zero_test(r);
    constants_are_operands(m, 0);
    let g = guard_divisor(cx, r, proven);
    let rhs = Rhs::Int(IntInstr::Over, l, r);
    let d = define(g, "sdiv"@, rhs_text(rhs));
    let q = quotient(x as int, y as int);
    let test = Rhs::Test(Cond::Same, "i64"@, r, "0"@);
    let first = if cx.audited || proven {
        assert(cx.body + lines(Seq::<Instr>::empty()) =~= cx.body);
        assert(run(Seq::<Instr>::empty(), 0, m) == End::Through(m));
        Seq::<Instr>::empty()
    } else {
        guards_abort(cx, "div_zero"@, test, "div_trap"@, "div_ok"@, m, y == 0)
    };
    let second = one_more(g, "sdiv"@, rhs);
    adds_on(cx, g, d.0, first, second);
    run_on(first, second, 0, m);
    if y != 0 && q <= i64::MAX {
        let n = run(first, 0, m)->Through_0;
        let w = Word::I64(q as i64);
        assert(operand(n, l) == operand(m, l));
        assert(operand(n, r) == operand(m, r));
        let e = State { regs: n.regs.insert(d.1, w), ..n };
        assert(run(second, 1, e) == End::Through(e));
        assert(run(second, 0, n) == End::Through(e));
        assert forall|a: Text| settled(cx, a) implies #[trigger] operand(e, a) == operand(m, a) by {
            assert(settled(g, a));
            assert(settled(d.0, a) && a != d.1);
            assert(operand(n, a) == operand(m, a));
        }
    }
    assert forall|a: Text| settled(cx, a) implies #[trigger] settled(d.0, a) by {
        assert(settled(g, a));
    }
    first + second
}

/// The code of `==` and `!=` on two truth values says whether they are the same.
pub proof fn truths_are_compared(
    cx: Cx,
    l: Text,
    r: Text,
    proven: bool,
    m: State,
    x: bool,
    y: bool,
) -> (code: (Seq<Instr>, Seq<Instr>))
    requires
        roomy(cx, 1),
        operand(m, l) == Some(Word::I1(x)),
        operand(m, r) == Some(Word::I1(y)),
    ensures
        arith(cx, BinOp::Eq, l, r, STy::Bool, proven) matches Gen::Made(c, v) && adds(cx, c, code.0)
            && yields(cx, m, run(code.0, 0, m), v, Word::I1(x == y)),
        arith(cx, BinOp::NotEq, l, r, STy::Bool, proven) matches Gen::Made(c, v) && adds(
            cx,
            c,
            code.1,
        ) && yields(cx, m, run(code.1, 0, m), v, Word::I1(x != y)),
{
    reveal(arith);
    reveal(compare_ints);
    reveal_strlit("i1");
    reveal_strlit("i64");
    (
        one_line(cx, "cmp"@, Rhs::Test(Cond::Same, "i1"@, l, r), m, Word::I1(x == y)),
        one_line(cx, "cmp"@, Rhs::Test(Cond::Different, "i1"@, l, r), m, Word::I1(x != y)),
    )
}

/// The code of `-` on one integer takes it from zero, and that of `!` turns a truth
/// value round.
pub proof fn one_operand_is_computed_with(cx: Cx, v: Text, m: State) -> (code: Seq<Instr>)
    requires
        roomy(cx, 1),
    ensures
        operand(m, v) matches Some(Word::I64(x)) ==> adds(cx, negate(cx, v, false).0, code) && yields(
            cx,
            m,
            run(code, 0, m),
            negate(cx, v, false).1,
            Word::I64(wrapped(-x)),
        ),
        operand(m, v) matches Some(Word::I1(b)) ==> adds(cx, invert(cx, v).0, code) && yields(
            cx,
            m,
            run(code, 0, m),
            invert(cx, v).1,
            Word::I1(!b),
        ),
{
    reveal(negate);
    reveal(invert);
    zero_test(v);
    constants_are_operands(m, 0);
    match operand(m, v) {
        Some(Word::I64(x)) => {
            reveal_strlit("sub i64 0, ");
            reveal_strlit("sub i64 ");
            reveal_strlit(", ");
            reveal_strlit("0");
            let rhs = Rhs::Int(IntInstr::Minus, "0"@, v);
            assert(rhs_text(rhs) =~= "sub i64 0, "@ + v);
            one_line(cx, "neg"@, rhs, m, Word::I64(wrapped(-x)))
        },
        Some(Word::I1(b)) => {
            reveal_strlit(", true");
            reveal_strlit(", ");
            reveal_strlit("true");
            let rhs = Rhs::Either(v, "true"@);
            assert(rhs_text(rhs) =~= "xor i1 "@ + v + ", true"@);
            one_line(cx, "not"@, rhs, m, Word::I1(!b))
        },
        _ => Seq::empty(),
    }
}

/// Two tests of one integer, and whether both hold.
proof fn two_tests(
    cx: Cx,
    p: Text,
    q: Text,
    s: Text,
    v: Text,
    low: Cond,
    lo: i64,
    high: Cond,
    hi: i64,
    m: State,
    x: i64,
) -> (code: Seq<Instr>)
    requires
        roomy(cx, 3),
        settled(cx, v),
        operand(m, v) == Some(Word::I64(x)),
    ensures
        ({
            let a = define(cx, p, rhs_text(Rhs::Test(low, "i64"@, v, dec(lo as int))));
            let b = define(a.0, q, rhs_text(Rhs::Test(high, "i64"@, v, dec(hi as int))));
            let c = define(b.0, s, rhs_text(Rhs::Both(a.1, b.1)));
            &&& adds(cx, c.0, code)
            &&& yields(
                cx,
                m,
                run(code, 0, m),
                c.1,
                Word::I1(holds_of(low, x as int, lo as int) && holds_of(high, x as int, hi as int)),
            )
            &&& c.0.tmp == cx.tmp + 3
            &&& c.0.label == cx.label
        }),
{
    let r1 = Rhs::Test(low, "i64"@, v, dec(lo as int));
    let r2 = Rhs::Test(high, "i64"@, v, dec(hi as int));
    let a = define(cx, p, rhs_text(r1));
    let b = define(a.0, q, rhs_text(r2));
    let r3 = Rhs::Both(a.1, b.1);
    let c = define(b.0, s, rhs_text(r3));
    let w1 = holds_of(low, x as int, lo as int);
    let w2 = holds_of(high, x as int, hi as int);
    constants_are_operands(m, lo);
    one_more(cx, p, r1);
    let c1 = one_line(cx, p, r1, m, Word::I1(w1));
    let m1 = run(c1, 0, m)->Through_0;
    constants_are_operands(m1, hi);
    assert(operand(m1, v) == operand(m, v));
    assert(settled(a.0, v));
    one_more(a.0, q, r2);
    let c2 = one_line(a.0, q, r2, m1, Word::I1(w2));
    let m2 = run(c2, 0, m1)->Through_0;
    assert(operand(m2, a.1) == operand(m1, a.1));
    one_more(b.0, s, r3);
    let c3 = one_line(b.0, s, r3, m2, Word::I1(w1 && w2));
    let m3 = run(c3, 0, m2)->Through_0;
    adds_on(cx, a.0, b.0, c1, c2);
    adds_on(cx, b.0, c.0, c1 + c2, c3);
    run_on(c1, c2, 0, m);
    run_on(c1 + c2, c3, 0, m);
    assert forall|t: Text| settled(cx, t) implies #[trigger] operand(m3, t) == operand(m, t) by {
        assert(settled(a.0, t));
        assert(settled(b.0, t));
        assert(operand(m1, t) == operand(m, t));
        assert(operand(m2, t) == operand(m1, t));
    }
    c1 + c2 + c3
}

/// The rest of a check: past it where the test held, and else the program aborts.
proof fn passes(cx: Cx, c: Text, ok: Text, no: Text, m: State, b: bool) -> (code: Seq<Instr>)
    requires
        roomy(cx, 2),
        operand(m, c) == Some(Word::I1(b)),
    ensures
        ({
            let pass = fresh_label(cx, ok);
            let fail = fresh_label(pass.0, no);
            adds(
                cx,
                trap(
                    emit(
                        fail.0,
                        "  br i1 "@ + c + ", label %"@ + pass.1 + ", label %"@ + fail.1,
                    ),
                    fail.1,
                    pass.1,
                ),
                code,
            )
        }),
        b ==> run(code, 0, m) == End::Through(m),
        !b ==> run(code, 0, m) is Aborted,
        ({
            let pass = fresh_label(cx, ok);
            let fail = fresh_label(pass.0, no);
            let end = trap(
                emit(
                    fail.0,
                    "  br i1 "@ + c + ", label %"@ + pass.1 + ", label %"@ + fail.1,
                ),
                fail.1,
                pass.1,
            );
            end.tmp == cx.tmp && end.label == cx.label + 2
        }),
{
    reveal(fresh_label);
    reveal(trap);
    reveal(emit);
    let pass = fresh_label(cx, ok);
    let fail = fresh_label(pass.0, no);
    let end = trap(
        emit(fail.0, "  br i1 "@ + c + ", label %"@ + pass.1 + ", label %"@ + fail.1),
        fail.1,
        pass.1,
    );
    let code = seq![
        Instr::Branch(c, pass.1, fail.1),
        Instr::Label(fail.1),
        Instr::Abort,
        Instr::Unreachable,
        Instr::Label(pass.1),
    ];
    assert(end.body =~= cx.body + lines(code));
    assert(pass.1 == numbered(ok, (cx.label + 1) as nat));
    assert(fail.1 == numbered(no, (cx.label + 2) as nat));
    numbered_names_differ(no, (cx.label + 2) as nat, ok, (cx.label + 1) as nat);
    assert(place(code, fail.1, 1) == 1);
    assert(place(code, pass.1, 4) == 4);
    assert(place(code, pass.1, 3) == 4);
    assert(place(code, pass.1, 2) == 4);
    assert(place(code, pass.1, 1) == 4);
    assert(run(code, 2, m) is Aborted);
    assert(run(code, 1, m) is Aborted);
    assert(run(code, 5, m) == End::Through(m));
    assert(run(code, 4, m) == End::Through(m));
    assert(code[0] == Instr::Branch(c, pass.1, fail.1));
    assert(jump(code, 0, fail.1, m) is Aborted);
    assert(jump(code, 0, pass.1, m) == End::Through(m));
    code
}

/// A check of the range lets an integer through exactly where it is in the range.
pub proof fn ranges_are_guarded(cx: Cx, v: Text, lo: i64, hi: i64, m: State, x: i64) -> (code: Seq<
    Instr,
>)
    requires
        roomy(cx, 6),
        settled(cx, v),
        operand(m, v) == Some(Word::I64(x)),
    ensures
        adds(cx, guard_range(cx, v, lo as int, hi as int), code),
        lo <= x <= hi ==> (run(code, 0, m) matches End::Through(n) && leaves(cx, m, n)),
        !(lo <= x <= hi) ==> run(code, 0, m) is Aborted,
        guard_range(cx, v, lo as int, hi as int).tmp == cx.tmp + 3,
        guard_range(cx, v, lo as int, hi as int).label == cx.label + 2,
{
    reveal(guard_range);
    reveal_strlit("icmp sge i64 ");
    reveal_strlit("icmp sle i64 ");
    reveal_strlit("icmp ");
    reveal_strlit("sge");
    reveal_strlit("sle");
    reveal_strlit(" ");
    reveal_strlit("i64");
    let r1 = Rhs::Test(Cond::AtLeast, "i64"@, v, dec(lo as int));
    let r2 = Rhs::Test(Cond::AtMost, "i64"@, v, dec(hi as int));
    assert(rhs_text(r1) =~= "icmp sge i64 "@ + v + ", "@ + dec(lo as int));
    assert(rhs_text(r2) =~= "icmp sle i64 "@ + v + ", "@ + dec(hi as int));
    let first = two_tests(
        cx,
        "ge_lo"@,
        "le_hi"@,
        "in_range"@,
        v,
        Cond::AtLeast,
        lo,
        Cond::AtMost,
        hi,
        m,
        x,
    );
    let a = define(cx, "ge_lo"@, rhs_text(r1));
    let b = define(a.0, "le_hi"@, rhs_text(r2));
    let c = define(b.0, "in_range"@, rhs_text(Rhs::Both(a.1, b.1)));
    let n = run(first, 0, m)->Through_0;
    let second = passes(c.0, c.1, "range_ok"@, "range_trap"@, n, lo <= x <= hi);
    adds_on(cx, c.0, guard_range(cx, v, lo as int, hi as int), first, second);
    run_on(first, second, 0, m);
    first + second
}

/// A check of an index lets an integer through exactly where it is an index of a
/// dimension.
pub proof fn indices_are_guarded(cx: Cx, v: Text, dim: nat, m: State, x: i64) -> (code: Seq<Instr>)
    requires
        roomy(cx, 6),
        settled(cx, v),
        dim <= i64::MAX,
        operand(m, v) == Some(Word::I64(x)),
    ensures
        adds(cx, guard_index(cx, v, dim), code),
        0 <= x < dim ==> (run(code, 0, m) matches End::Through(n) && leaves(cx, m, n)),
        !(0 <= x < dim) ==> run(code, 0, m) is Aborted,
{
    reveal(guard_index);
    zero_test(v);
    reveal_strlit("icmp sge i64 ");
    reveal_strlit("icmp slt i64 ");
    reveal_strlit("icmp ");
    reveal_strlit("sge");
    reveal_strlit("slt");
    reveal_strlit(" ");
    reveal_strlit("i64");
    reveal_strlit(", 0");
    reveal_strlit(", ");
    reveal_strlit("0");
    let r1 = Rhs::Test(Cond::AtLeast, "i64"@, v, dec(0));
    let r2 = Rhs::Test(Cond::Less, "i64"@, v, dec(dim as int));
    assert(rhs_text(r1) =~= "icmp sge i64 "@ + v + ", 0"@);
    assert(rhs_text(r2) =~= "icmp slt i64 "@ + v + ", "@ + dec(dim as int));
    let first = two_tests(
        cx,
        "idx_ge_lo"@,
        "idx_lt_dim"@,
        "idx_in_bounds"@,
        v,
        Cond::AtLeast,
        0,
        Cond::Less,
        dim as i64,
        m,
        x,
    );
    let a = define(cx, "idx_ge_lo"@, rhs_text(r1));
    let b = define(a.0, "idx_lt_dim"@, rhs_text(r2));
    let c = define(b.0, "idx_in_bounds"@, rhs_text(Rhs::Both(a.1, b.1)));
    let n = run(first, 0, m)->Through_0;
    let second = passes(c.0, c.1, "idx_ok"@, "idx_trap"@, n, 0 <= x < dim);
    adds_on(cx, c.0, guard_index(cx, v, dim), first, second);
    run_on(first, second, 0, m);
    first + second
}

/// The condition that an operator asks for.
pub open spec fn cond_of(op: BinOp) -> Option<Cond> {
    match op {
        BinOp::Eq => Some(Cond::Same),
        BinOp::NotEq => Some(Cond::Different),
        BinOp::Lt => Some(Cond::Less),
        BinOp::Gt => Some(Cond::Greater),
        BinOp::LtEq => Some(Cond::AtMost),
        BinOp::GtEq => Some(Cond::AtLeast),
        _ => None,
    }
}

/// The code of a comparison of two floating-point numbers leaves what the interpreter says of
/// them, save that `!=` is false of `NaN`.
pub proof fn floats_are_compared(
    cx: Cx,
    op: BinOp,
    l: Text,
    r: Text,
    proven: bool,
    m: State,
    x: u64,
    y: u64,
) -> (code: Seq<Instr>)
    requires
        cond_of(op) is Some,
        roomy(cx, 1),
        operand(m, l) == Some(Word::Double(x)),
        operand(m, r) == Some(Word::Double(y)),
    ensures
        arith(cx, op, l, r, STy::F64, proven) matches Gen::Made(c, v) && adds(cx, c, code) && yields(
            cx,
            m,
            run(code, 0, m),
            v,
            Word::I1(
                if op == BinOp::NotEq && (is_nan(x) || is_nan(y)) {
                    false
                } else {
                    float_test(op, x, y)->0
                },
            ),
        ),
{
    reveal(arith);
    reveal(compare_floats);
    let c = cond_of(op)->0;
    one_line(cx, "fcmp"@, Rhs::FloatTest(c, l, r), m, Word::I1(float_holds(c, x, y)))
}

/// The code of `-` on a floating-point number turns its sign round.
pub proof fn floats_are_negated(cx: Cx, v: Text, m: State, x: u64) -> (code: Seq<Instr>)
    requires
        roomy(cx, 1),
        operand(m, v) == Some(Word::Double(x)),
    ensures
        adds(cx, negate(cx, v, true).0, code),
        yields(cx, m, run(code, 0, m), negate(cx, v, true).1, Word::Double(float_neg(x))),
{
    reveal(negate);
    one_line(cx, "fneg"@, Rhs::FloatNeg(v), m, Word::Double(float_neg(x)))
}

/// The code of an operator on two floating-point numbers is one instruction, the operator's
/// own, on the left side and the right side in this order.
pub proof fn floats_are_computed_in_order(cx: Cx, op: BinOp, l: Text, r: Text, proven: bool)
    requires
        roomy(cx, 1),
        cond_of(op) is None,
        op != BinOp::And,
        op != BinOp::Or,
    ensures
        arith(cx, op, l, r, STy::F64, proven) matches Gen::Made(c, v) && v.len() > 0 && v[0] == '%'
            && c.body == cx.body.push(
            "  "@ + v + " = "@ + (match op {
                BinOp::Add => "fadd double "@,
                BinOp::Sub => "fsub double "@,
                BinOp::Mul | BinOp::ElemMul => "fmul double "@,
                _ => "fdiv double "@,
            } + l + ", "@ + r),
        ),
{
    reveal(arith);
    reveal(define);
    reveal(fresh);
    reveal(emit);
    reveal_strlit("%");
}

} // verus!
