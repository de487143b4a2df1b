//! Text building blocks: equality, concatenation and number rendering, each
//! stated over the sequence of characters that a string holds.
use vstd::prelude::*;
use vstd::string::*;
use vstd::utf8::encode_utf8_decode_utf8;

verus! {

/// `String::push` appends one character at the end.
pub assume_specification[ String::push ](s: &mut String, c: char)
    ensures
        final(s)@ == old(s)@.push(c),
;

/// Whether two strings hold the same characters.
pub fn same(a: &str, b: &str) -> (r: bool)
    ensures
        r == (a@ == b@),
{
    let x = a.as_bytes();
    let y = b.as_bytes();
    proof {
        encode_utf8_decode_utf8(a@);
        encode_utf8_decode_utf8(b@);
    }
    if x.len() != y.len() {
        return false;
    }
    let mut i: usize = 0;
    while i < x.len()
        invariant
            i <= x.len(),
            x.len() == y.len(),
            x@ == a.spec_bytes(),
            y@ == b.spec_bytes(),
            forall|j: int| 0 <= j < i ==> x@[j] == y@[j],
        decreases x.len() - i,
    {
        if x[i] != y[i] {
            return false;
        }
        i = i + 1;
    }
    proof {
        assert(x@ =~= y@);
    }
    true
}

pub fn cat2(a: &str, b: &str) -> (r: String)
    ensures
        r@ == a@ + b@,
{
    let mut s = String::new();
    s.append(a);
    s.append(b);
    proof {
        assert(s@ =~= a@ + b@);
    }
    s
}

pub fn cat3(a: &str, b: &str, c: &str) -> (r: String)
    ensures
        r@ == a@ + b@ + c@,
{
    let mut s = cat2(a, b);
    s.append(c);
    s
}

pub fn cat4(a: &str, b: &str, c: &str, d: &str) -> (r: String)
    ensures
        r@ == a@ + b@ + c@ + d@,
{
    let mut s = cat3(a, b, c);
    s.append(d);
    s
}

pub fn cat5(a: &str, b: &str, c: &str, d: &str, e: &str) -> (r: String)
    ensures
        r@ == a@ + b@ + c@ + d@ + e@,
{
    let mut s = cat4(a, b, c, d);
    s.append(e);
    s
}

pub fn cat6(a: &str, b: &str, c: &str, d: &str, e: &str, f: &str) -> (r: String)
    ensures
        r@ == a@ + b@ + c@ + d@ + e@ + f@,
{
    let mut s = cat5(a, b, c, d, e);
    s.append(f);
    s
}

pub fn cat7(a: &str, b: &str, c: &str, d: &str, e: &str, f: &str, g: &str) -> (r: String)
    ensures
        r@ == a@ + b@ + c@ + d@ + e@ + f@ + g@,
{
    let mut s = cat6(a, b, c, d, e, f);
    s.append(g);
    s
}

pub fn cat8(
    p1: &str,
    p2: &str,
    p3: &str,
    p4: &str,
    p5: &str,
    p6: &str,
    p7: &str,
    p8: &str,
) -> (r: String)
    ensures
        r@ == p1@ + p2@ + p3@ + p4@ + p5@ + p6@ + p7@ + p8@,
{
    let mut s = cat7(p1, p2, p3, p4, p5, p6, p7);
    s.append(p8);
    s
}

pub fn cat9(
    p1: &str,
    p2: &str,
    p3: &str,
    p4: &str,
    p5: &str,
    p6: &str,
    p7: &str,
    p8: &str,
    p9: &str,
) -> (r: String)
    ensures
        r@ == p1@ + p2@ + p3@ + p4@ + p5@ + p6@ + p7@ + p8@ + p9@,
{
    let mut s = cat8(p1, p2, p3, p4, p5, p6, p7, p8);
    s.append(p9);
    s
}

pub fn cat10(
    p1: &str,
    p2: &str,
    p3: &str,
    p4: &str,
    p5: &str,
    p6: &str,
    p7: &str,
    p8: &str,
    p9: &str,
    p10: &str,
) -> (r: String)
    ensures
        r@ == p1@ + p2@ + p3@ + p4@ + p5@ + p6@ + p7@ + p8@ + p9@ + p10@,
{
    let mut s = cat9(p1, p2, p3, p4, p5, p6, p7, p8, p9);
    s.append(p10);
    s
}

pub fn cat11(
    p1: &str,
    p2: &str,
    p3: &str,
    p4: &str,
    p5: &str,
    p6: &str,
    p7: &str,
    p8: &str,
    p9: &str,
    p10: &str,
    p11: &str,
) -> (r: String)
    ensures
        r@ == p1@ + p2@ + p3@ + p4@ + p5@ + p6@ + p7@ + p8@ + p9@ + p10@ + p11@,
{
    let mut s = cat10(p1, p2, p3, p4, p5, p6, p7, p8, p9, p10);
    s.append(p11);
    s
}

pub fn cat12(
    p1: &str,
    p2: &str,
    p3: &str,
    p4: &str,
    p5: &str,
    p6: &str,
    p7: &str,
    p8: &str,
    p9: &str,
    p10: &str,
    p11: &str,
    p12: &str,
) -> (r: String)
    ensures
        r@ == p1@ + p2@ + p3@ + p4@ + p5@ + p6@ + p7@ + p8@ + p9@ + p10@ + p11@ + p12@,
{
    let mut s = cat11(p1, p2, p3, p4, p5, p6, p7, p8, p9, p10, p11);
    s.append(p12);
    s
}

pub fn cat13(
    p1: &str,
    p2: &str,
    p3: &str,
    p4: &str,
    p5: &str,
    p6: &str,
    p7: &str,
    p8: &str,
    p9: &str,
    p10: &str,
    p11: &str,
    p12: &str,
    p13: &str,
) -> (r: String)
    ensures
        r@ == p1@ + p2@ + p3@ + p4@ + p5@ + p6@ + p7@ + p8@ + p9@ + p10@ + p11@ + p12@ + p13@,
{
    let mut s = cat12(p1, p2, p3, p4, p5, p6, p7, p8, p9, p10, p11, p12);
    s.append(p13);
    s
}

pub fn cat14(
    p1: &str,
    p2: &str,
    p3: &str,
    p4: &str,
    p5: &str,
    p6: &str,
    p7: &str,
    p8: &str,
    p9: &str,
    p10: &str,
    p11: &str,
    p12: &str,
    p13: &str,
    p14: &str,
) -> (r: String)
    ensures
        r@ == p1@ + p2@ + p3@ + p4@ + p5@ + p6@ + p7@ + p8@ + p9@ + p10@ + p11@ + p12@ + p13@ + p14@,
{
    let mut s = cat13(p1, p2, p3, p4, p5, p6, p7, p8, p9, p10, p11, p12, p13);
    s.append(p14);
    s
}

pub fn cat15(
    p1: &str,
    p2: &str,
    p3: &str,
    p4: &str,
    p5: &str,
    p6: &str,
    p7: &str,
    p8: &str,
    p9: &str,
    p10: &str,
    p11: &str,
    p12: &str,
    p13: &str,
    p14: &str,
    p15: &str,
) -> (r: String)
    ensures
        r@ == p1@ + p2@ + p3@ + p4@ + p5@ + p6@ + p7@ + p8@ + p9@ + p10@ + p11@ + p12@ + p13@ + p14@ + p15@,
{
    let mut s = cat14(p1, p2, p3, p4, p5, p6, p7, p8, p9, p10, p11, p12, p13, p14);
    s.append(p15);
    s
}

pub fn cat16(
    p1: &str,
    p2: &str,
    p3: &str,
    p4: &str,
    p5: &str,
    p6: &str,
    p7: &str,
    p8: &str,
    p9: &str,
    p10: &str,
    p11: &str,
    p12: &str,
    p13: &str,
    p14: &str,
    p15: &str,
    p16: &str,
) -> (r: String)
    ensures
        r@ == p1@ + p2@ + p3@ + p4@ + p5@ + p6@ + p7@ + p8@ + p9@ + p10@ + p11@ + p12@ + p13@ + p14@ + p15@ + p16@,
{
    let mut s = cat15(p1, p2, p3, p4, p5, p6, p7, p8, p9, p10, p11, p12, p13, p14, p15);
    s.append(p16);
    s
}

pub fn cat17(
    p1: &str,
    p2: &str,
    p3: &str,
    p4: &str,
    p5: &str,
    p6: &str,
    p7: &str,
    p8: &str,
    p9: &str,
    p10: &str,
    p11: &str,
    p12: &str,
    p13: &str,
    p14: &str,
    p15: &str,
    p16: &str,
    p17: &str,
) -> (r: String)
    ensures
        r@ == p1@ + p2@ + p3@ + p4@ + p5@ + p6@ + p7@ + p8@ + p9@ + p10@ + p11@ + p12@ + p13@ + p14@ + p15@ + p16@ + p17@,
{
    let mut s = cat16(p1, p2, p3, p4, p5, p6, p7, p8, p9, p10, p11, p12, p13, p14, p15, p16);
    s.append(p17);
    s
}

pub fn cat18(
    p1: &str,
    p2: &str,
    p3: &str,
    p4: &str,
    p5: &str,
    p6: &str,
    p7: &str,
    p8: &str,
    p9: &str,
    p10: &str,
    p11: &str,
    p12: &str,
    p13: &str,
    p14: &str,
    p15: &str,
    p16: &str,
    p17: &str,
    p18: &str,
) -> (r: String)
    ensures
        r@ == p1@ + p2@ + p3@ + p4@ + p5@ + p6@ + p7@ + p8@ + p9@ + p10@ + p11@ + p12@ + p13@ + p14@ + p15@ + p16@ + p17@ + p18@,
{
    let mut s = cat17(p1, p2, p3, p4, p5, p6, p7, p8, p9, p10, p11, p12, p13, p14, p15, p16, p17);
    s.append(p18);
    s
}

pub fn cat19(
    p1: &str,
    p2: &str,
    p3: &str,
    p4: &str,
    p5: &str,
    p6: &str,
    p7: &str,
    p8: &str,
    p9: &str,
    p10: &str,
    p11: &str,
    p12: &str,
    p13: &str,
    p14: &str,
    p15: &str,
    p16: &str,
    p17: &str,
    p18: &str,
    p19: &str,
) -> (r: String)
    ensures
        r@ == p1@ + p2@ + p3@ + p4@ + p5@ + p6@ + p7@ + p8@ + p9@ + p10@ + p11@ + p12@ + p13@ + p14@ + p15@ + p16@ + p17@ + p18@ + p19@,
{
    let mut s = cat18(p1, p2, p3, p4, p5, p6, p7, p8, p9, p10, p11, p12, p13, p14, p15, p16, p17, p18);
    s.append(p19);
    s
}

/// The decimal digit for `d`.
pub open spec fn digit(d: nat) -> char {
    ('0' as u8 + d) as char
}

/// A natural number in decimal, without leading zeros.
pub open spec fn dec_nat(n: nat) -> Seq<char>
    decreases n,
{
    if n < 10 {
        seq![digit(n)]
    } else {
        dec_nat(n / 10).push(digit(n % 10))
    }
}

/// An integer in decimal, with a leading minus sign where it is negative.
pub open spec fn dec(n: int) -> Seq<char> {
    if n < 0 {
        seq!['-'] + dec_nat((-n) as nat)
    } else {
        dec_nat(n as nat)
    }
}

pub fn dec_u64(n: u64) -> (r: String)
    ensures
        r@ == dec(n as int),
    decreases n,
{
    let d: u8 = (n % 10) as u8;
    let c: char = (48u8 + d) as char;
    if n < 10 {
        let mut s = String::new();
        s.push(c);
        proof {
            assert(s@ =~= seq![digit(n as nat)]);
        }
        s
    } else {
        let mut s = dec_u64(n / 10);
        s.push(c);
        s
    }
}

pub fn dec_usize(n: usize) -> (r: String)
    ensures
        r@ == dec(n as int),
{
    dec_u64(n as u64)
}

pub fn dec_i64(n: i64) -> (r: String)
    ensures
        r@ == dec(n as int),
{
    if n >= 0 {
        dec_u64(n as u64)
    } else {
        let m: u64 = if n == i64::MIN {
            9_223_372_036_854_775_808u64
        } else {
            (-n) as u64
        };
        let t = dec_u64(m);
        let mut s = String::new();
        s.push('-');
        s.append(t.as_str());
        proof {
            assert(s@ =~= seq!['-'] + dec_nat((-n) as nat));
        }
        s
    }
}

/// The upper-case hexadecimal digit for `d`.
pub open spec fn hex_digit(d: nat) -> char {
    if d < 10 {
        ('0' as u8 + d) as char
    } else {
        ('A' as u8 + (d - 10)) as char
    }
}

/// The low `width` hexadecimal digits of `n`, most significant first.
pub open spec fn hex(n: nat, width: nat) -> Seq<char>
    decreases width,
{
    if width == 0 {
        Seq::empty()
    } else {
        hex(n / 16, (width - 1) as nat).push(hex_digit(n % 16))
    }
}

pub fn hex_u64(n: u64, width: usize) -> (r: String)
    ensures
        r@ == hex(n as nat, width as nat),
    decreases width,
{
    if width == 0 {
        String::new()
    } else {
        let d: u8 = (n % 16) as u8;
        let c: char = if d < 10 {
            (48u8 + d) as char
        } else {
            (65u8 + (d - 10)) as char
        };
        let mut s = hex_u64(n / 16, width - 1);
        s.push(c);
        s
    }
}

/// The characters of an ASCII byte sequence.
pub open spec fn ascii_text(bytes: Seq<u8>) -> Seq<char> {
    Seq::new(bytes.len(), |i: int| bytes[i] as char)
}

/// The text that `src[from..to]` spells, one character for each byte.
pub fn text_of(src: &[u8], from: usize, to: usize) -> (r: String)
    requires
        from <= to <= src@.len(),
    ensures
        r@ == ascii_text(src@.subrange(from as int, to as int)),
{
    let mut s = String::new();
    let mut i: usize = from;
    while i < to
        invariant
            from <= i <= to <= src@.len(),
            s@ == ascii_text(src@.subrange(from as int, i as int)),
        decreases to - i,
    {
        s.push(src[i] as char);
        i = i + 1;
        proof {
            assert(s@ =~= ascii_text(src@.subrange(from as int, i as int)));
        }
    }
    s
}

} // verus!
