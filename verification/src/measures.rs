//! How large things are, and how numbers are laid out in code and in bytes.
use crate::ast::{integer, width, STy};
use crate::builtin_eval::unsigned;
use crate::ir::{byte_size, float_const, llvm, plus, scalar_bytes, times, Cx, SLlvm, Text};
use crate::native::{
    adds, one_line, operand, roomy, run, wrapped, yields, Instr, IntInstr, Rhs, State, Word,
};
use crate::text::{dec, dec_nat, digit, hex, hex_digit};
use crate::value::SValue;
use crate::wire::{frame, low_bytes};
use vstd::arithmetic::power::pow;
use vstd::prelude::*;
use vstd::string::*;

verus! {

/// An integer takes as many bytes as its bits fill, and elements of a vector or matrix stand
/// close together.
pub proof fn sizes_come_from_bits(t: STy, n: usize, m: usize)
    ensures
        integer(t) ==> scalar_bytes(t) == Some((width(t) / 8) as nat),
        integer(t) && n * (width(t) / 8) <= u64::MAX ==> byte_size(STy::Vector(Box::new(t), n))
            == Some((n * (width(t) / 8)) as nat),
        integer(t) && n * m <= usize::MAX && (n * m) * (width(t) / 8) <= u64::MAX ==> byte_size(
            STy::Matrix(Box::new(t), n, m),
        ) == Some(((n * m) * (width(t) / 8)) as nat),
        byte_size(STy::F64) == Some(8nat),
        byte_size(STy::Bool) == Some(1nat),
        byte_size(STy::Unit) == Some(0nat),
        byte_size(STy::Box(Box::new(t))) == Some(8nat),
        byte_size(STy::Ref(Box::new(t))) == Some(8nat),
{
}

/// A signed integer type is written by its bits.
pub proof fn signed_types_are_written_by_their_bits(t: STy)
    requires
        t is I8 || t is I16 || t is I32 || t is I64,
    ensures
        llvm(t) == SLlvm::Is("i"@ + dec(width(t) as int)),
{
    reveal(llvm);
    reveal_with_fuel(dec_nat, 3);
    reveal_strlit("i");
    reveal_strlit("i8");
    reveal_strlit("i16");
    reveal_strlit("i32");
    reveal_strlit("i64");
    assert(digit(8) == '8' && digit(1) == '1' && digit(6) == '6' && digit(3) == '3' && digit(2) == '2'
        && digit(4) == '4');
    assert("i"@ + dec(8) =~= "i8"@);
    assert("i"@ + dec(16) =~= "i16"@);
    assert("i"@ + dec(32) =~= "i32"@);
    assert("i"@ + dec(64) =~= "i64"@);
}

/// The number that a digit of sixteen stands for.
pub open spec fn digit_value(c: char) -> nat {
    if '0' <= c <= '9' {
        (c as nat - '0' as nat) as nat
    } else {
        (c as nat - 'A' as nat + 10) as nat
    }
}

/// The number that digits of sixteen stand for, the highest first.
pub open spec fn hex_value(s: Seq<char>) -> nat
    decreases s.len(),
{
    if s.len() == 0 {
        0
    } else {
        hex_value(s.drop_last()) * 16 + digit_value(s.last())
    }
}

/// Digits of sixteen stand for the number that they were made of.
pub proof fn hex_is_read_back(n: nat, w: nat)
    requires
        n < pow(16, w),
    ensures
        hex(n, w).len() == w,
        hex_value(hex(n, w)) == n,
    decreases w,
{
    vstd::arithmetic::power::lemma_pow0(16);
    if w > 0 {
        let k = (w - 1) as nat;
        reveal(pow);
        assert(pow(16, w) == 16 * pow(16, k));
        assert(n / 16 < pow(16, k)) by (nonlinear_arith)
            requires
                n < 16 * pow(16, k),
        ;
        hex_is_read_back(n / 16, k);
        let s = hex(n, w);
        assert(s.drop_last() =~= hex(n / 16, k));
        assert(digit_value(hex_digit(n % 16)) == n % 16);
    }
}

/// A floating-point number stands in code by its 64 bits, sixteen digits of them.
pub proof fn floats_stand_by_their_bits(b: u64)
    ensures
        float_const(b).len() == 18,
        float_const(b).subrange(0, 2) == "0x"@,
        hex_value(float_const(b).skip(2)) == b,
{
    reveal(pow);
    reveal_with_fuel(pow, 17);
    assert(pow(16, 16) == 0x1_0000_0000_0000_0000);
    hex_is_read_back(b as nat, 16);
    reveal_strlit("0x");
    assert(float_const(b).subrange(0, 2) =~= "0x"@);
    assert(float_const(b).skip(2) =~= hex(b as nat, 16));
}

/// Elements of integers are added and multiplied as integers are.
pub proof fn elements_are_computed_with(cx: Cx, l: Text, r: Text, m: State, x: i64, y: i64) -> (code: (
    Seq<Instr>,
    Seq<Instr>,
))
    requires
        roomy(cx, 1),
        operand(m, l) == Some(Word::I64(x)),
        operand(m, r) == Some(Word::I64(y)),
    ensures
        adds(cx, plus(cx, l, r, false).0, code.0),
        yields(cx, m, run(code.0, 0, m), plus(cx, l, r, false).1, Word::I64(wrapped(x + y))),
        adds(cx, times(cx, l, r, false).0, code.1),
        yields(cx, m, run(code.1, 0, m), times(cx, l, r, false).1, Word::I64(wrapped(x * y))),
{
    reveal(plus);
    reveal(times);
    (
        one_line(
            cx,
            "agg_add_elem"@,
            Rhs::Int(IntInstr::Plus, l, r),
            m,
            Word::I64(wrapped(x + y)),
        ),
        one_line(
            cx,
            "agg_mul_elem"@,
            Rhs::Int(IntInstr::Times, l, r),
            m,
            Word::I64(wrapped(x * y)),
        ),
    )
}

proof fn low_byte(v: nat, n: nat, i: nat)
    requires
        i < n,
    ensures
        low_bytes(v, n).len() == n,
        low_bytes(v, n)[i as int] == (v as int / pow(256, i)) % 256,
    decreases n,
{
    vstd::arithmetic::power::lemma_pow0(256);
    let rest = low_bytes(v / 256, (n - 1) as nat);
    if n > 1 {
        low_byte(v / 256, (n - 1) as nat, if i > 0 { (i - 1) as nat } else { 0 });
    } else {
        assert(low_bytes(v / 256, 0).len() == 0);
    }
    if i > 0 {
        let k = (i - 1) as nat;
        reveal(pow);
        assert(pow(256, i) == 256 * pow(256, k));
        vstd::arithmetic::power::lemma_pow_positive(256, k);
        vstd::arithmetic::div_mod::lemma_div_denominator(v as int, 256, pow(256, k));
        assert(low_bytes(v, n)[i as int] == rest[i - 1]);
    } else {
        assert(v as int / 1 == v);
    }
}

/// An integer travels as a zero and eight bytes of its 64 bits, the lowest first; a truth value
/// as a one and one byte.
pub proof fn values_are_framed(n: i64, b: bool, i: nat)
    requires
        i < 8,
    ensures
        frame(SValue::Int(n)) matches Some(s) && s.len() == 9 && s[0] == 0 && s[(i + 1) as int] == ((n as int
            % 0x1_0000_0000_0000_0000) / pow(256, i)) % 256,
        frame(SValue::Bool(b)) == Some(
            seq![
                1u8,
                if b {
                    1u8
                } else {
                    0u8
                },
            ],
        ),
{
    low_byte(unsigned(n) as nat, 8, i);
    assert(n as int % 0x1_0000_0000_0000_0000 == unsigned(n));
}

} // verus!
