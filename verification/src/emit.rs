//! Code for single operations on values that are already in registers.
use crate::ast::{BinOp, STy, Ty};
use crate::builtins::Builtin;
use crate::geometry::{
    bearing, ecef_to_enu, ecef_to_lla, enu_to_ecef, lla_to_ecef, load3, ONE_F, ZERO_F,
};
use crate::ir::{
    byte_size, call1, compare_floats, compare_ints, copy_bytes, define, elements, emit,
    float_const, float_text, fresh_global, fresh_slot, global, guard_test, lines_view, llvm,
    llvm_ty, load, made, makes, store, stored, string_parts, string_value, ty_byte_size, widen,
    Cx, Gen, Halt, Module, SHalt, SLlvm, Text,
};
use crate::numeric::{
    add_all, apply_matrix, combine_all, cross_product, entries, fill, guard_divisor, image,
    load_all, magnitudes, product_rows, scale, store_all, sum_diagonal, sum_distances,
    sum_elements, sum_products, sum_squares, test_equal, test_rows, turn_columns, turned,
    unit_rows,
};
use crate::text::{cat2, cat3, cat4, cat5, cat6, cat7, cat9, cat19, dec, dec_usize, hex, hex_u64, same};
use vstd::prelude::*;
use vstd::string::*;
use vstd::utf8::encode_utf8;

verus! {

pub open spec fn ill<T>() -> Gen<T> {
    Gen::Halt(SHalt::IllTyped)
}

/// How a byte stands in a string constant.
pub open spec fn escaped_byte(b: u8) -> Text {
    if b == 0x22 {
        "\\22"@
    } else if b == 0x5C {
        "\\5C"@
    } else if 0x20 <= b <= 0x7E {
        seq![b as char]
    } else {
        "\\"@ + hex(b as nat, 2)
    }
}

/// How bytes stand in a string constant.
pub open spec fn escaped(s: Seq<u8>) -> Text
    decreases s.len(),
{
    if s.len() == 0 {
        Seq::empty()
    } else {
        escaped(s.drop_last()) + escaped_byte(s.last())
    }
}

pub fn llvm_escape_bytes(s: &[u8]) -> (r: String)
    ensures
        r@ == escaped(s@),
{
    let mut out = String::new();
    let mut i: usize = 0;
    proof {
        assert(s@.take(0) =~= Seq::<u8>::empty());
    }
    while i < s.len()
        invariant
            i <= s@.len(),
            out@ == escaped(s@.take(i as int)),
        decreases s@.len() - i,
    {
        let b: u8 = s[i];
        proof {
            assert(s@.take(i + 1).drop_last() =~= s@.take(i as int));
        }
        let ghost before = out@;
        if b == 0x22 {
            out.append("\\22");
        } else if b == 0x5C {
            out.append("\\5C");
        } else if b >= 0x20 && b <= 0x7E {
            out.push(b as char);
            proof {
                assert(out@ =~= before + seq![b as char]);
            }
        } else {
            let h = hex_u64(b as u64, 2);
            let t = cat2("\\", h.as_str());
            out.append(t.as_str());
        }
        i = i + 1;
    }
    proof {
        assert(s@.take(i as int) =~= s@);
    }
    out
}

/// Every character of an escaped constant is printable ASCII, and none of them
/// is a double quote.
pub proof fn escaped_is_printable(s: Seq<u8>)
    ensures
        forall|i: int|
            0 <= i < escaped(s).len() ==> ' ' <= #[trigger] escaped(s)[i] && escaped(s)[i] <= '~'
                && escaped(s)[i] != '"',
    decreases s.len(),
{
    if s.len() > 0 {
        escaped_is_printable(s.drop_last());
        let b = s.last();
        let t = escaped_byte(b);
        reveal_strlit("\\22");
        reveal_strlit("\\5C");
        reveal_strlit("\\");
        reveal_with_fuel(hex, 3);
        assert forall|i: int| 0 <= i < t.len() implies ' ' <= #[trigger] t[i] && t[i] <= '~' && t[i]
            != '"' by {}
        assert forall|i: int| 0 <= i < escaped(s).len() implies ' ' <= #[trigger] escaped(s)[i]
            && escaped(s)[i] <= '~' && escaped(s)[i] != '"' by {
            let n = escaped(s.drop_last()).len();
            if i < n {
                assert(escaped(s)[i] == escaped(s.drop_last())[i]);
            } else {
                assert(escaped(s)[i] == t[i - n]);
            }
        }
    }
}

/// A string literal: a global constant and the value that points to it.
#[verifier::opaque]
pub open spec fn str_literal(cx: Cx, s: Text) -> Gen<Text> {
    let bytes = encode_utf8(s);
    if bytes.len() + 1 > usize::MAX {
        ill()
    } else {
        let g = fresh_global(cx, "str"@);
        let c = global(
            g.0,
            g.1 + " = private unnamed_addr constant ["@ + dec((bytes.len() + 1) as int) + " x i8] c\""@ + escaped(bytes) + "\\00\""@,
        );
        made(string_value(c, "str_val"@, g.1, dec(bytes.len() as int)))
    }
}

/// Reads a slot, widened.
#[verifier::opaque]
pub open spec fn read_slot(cx: Cx, prefix: Text, t: STy, ptr: Text) -> Gen<Text> {
    match llvm(t) {
        SLlvm::Not(h) => Gen::Halt(h),
        SLlvm::Is(ty) => {
            let v = define(cx, prefix, "load "@ + ty + ", ptr "@ + ptr);
            made(widen(v.0, v.1, t))
        },
    }
}

/// Writes a value to a slot.
#[verifier::opaque]
pub open spec fn write_slot(cx: Cx, val: Text, t: STy, ptr: Text) -> Gen<()> {
    match stored(cx, val, t) {
        Gen::Halt(h) => Gen::Halt(h),
        Gen::Made(c, v) => match llvm(t) {
            SLlvm::Not(h) => Gen::Halt(h),
            SLlvm::Is(ty) => Gen::Made(emit(c, "  store "@ + ty + " "@ + v + ", ptr "@ + ptr), ()),
        },
    }
}

/// A new slot with a value in it.
#[verifier::opaque]
pub open spec fn new_slot(cx: Cx, prefix: Text, val: Text, t: STy) -> Gen<Text> {
    match stored(cx, val, t) {
        Gen::Halt(h) => Gen::Halt(h),
        Gen::Made(c, v) => match llvm(t) {
            SLlvm::Not(h) => Gen::Halt(h),
            SLlvm::Is(ty) => {
                let p = fresh_slot(c, prefix, ty);
                Gen::Made(emit(p.0, "  store "@ + ty + " "@ + v + ", ptr "@ + p.1), p.1)
            },
        },
    }
}

/// A new slot with a copy of a vector or matrix.
#[verifier::opaque]
pub open spec fn copy_slot(cx: Cx, prefix: Text, t: STy, src: Text) -> Gen<Text> {
    match llvm(t) {
        SLlvm::Not(h) => Gen::Halt(h),
        SLlvm::Is(ty) => {
            let p = fresh_slot(cx, prefix, ty);
            match byte_size(t) {
                Some(n) => Gen::Made(copy_bytes(p.0, p.1, src, n), p.1),
                None => ill(),
            }
        },
    }
}

#[verifier::opaque]
pub open spec fn negate(cx: Cx, v: Text, float: bool) -> (Cx, Text) {
    if float {
        define(cx, "fneg"@, "fneg double "@ + v)
    } else {
        define(cx, "neg"@, "sub i64 0, "@ + v)
    }
}

#[verifier::opaque]
pub open spec fn invert(cx: Cx, v: Text) -> (Cx, Text) {
    define(cx, "not"@, "xor i1 "@ + v + ", true"@)
}

/// A binary operator on two scalars.
#[verifier::opaque]
pub open spec fn arith(cx: Cx, op: BinOp, l: Text, r: Text, t: STy, proven: bool) -> Gen<Text> {
    let float = t == STy::F64;
    match op {
        BinOp::Add => made(
            define(
                cx,
                "add"@,
                if float {
                    "fadd double "@ + l + ", "@ + r
                } else {
                    "add i64 "@ + l + ", "@ + r
                },
            ),
        ),
        BinOp::Sub => made(
            define(
                cx,
                "sub"@,
                if float {
                    "fsub double "@ + l + ", "@ + r
                } else {
                    "sub i64 "@ + l + ", "@ + r
                },
            ),
        ),
        BinOp::Mul | BinOp::ElemMul => made(
            define(
                cx,
                "mul"@,
                if float {
                    "fmul double "@ + l + ", "@ + r
                } else {
                    "mul i64 "@ + l + ", "@ + r
                },
            ),
        ),
        BinOp::Div | BinOp::ElemDiv => if float {
            made(define(cx, "fdiv"@, "fdiv double "@ + l + ", "@ + r))
        } else {
            made(define(guard_divisor(cx, r, proven), "sdiv"@, "sdiv i64 "@ + l + ", "@ + r))
        },
        BinOp::Eq => if float {
            made(compare_floats(cx, "oeq"@, l, r))
        } else {
            made(compare_ints(cx, "eq"@, compare_width(t), l, r))
        },
        BinOp::NotEq => if float {
            made(compare_floats(cx, "one"@, l, r))
        } else {
            made(compare_ints(cx, "ne"@, compare_width(t), l, r))
        },
        BinOp::Lt => if float {
            made(compare_floats(cx, "olt"@, l, r))
        } else {
            made(compare_ints(cx, "slt"@, "i64"@, l, r))
        },
        BinOp::Gt => if float {
            made(compare_floats(cx, "ogt"@, l, r))
        } else {
            made(compare_ints(cx, "sgt"@, "i64"@, l, r))
        },
        BinOp::LtEq => if float {
            made(compare_floats(cx, "ole"@, l, r))
        } else {
            made(compare_ints(cx, "sle"@, "i64"@, l, r))
        },
        BinOp::GtEq => if float {
            made(compare_floats(cx, "oge"@, l, r))
        } else {
            made(compare_ints(cx, "sge"@, "i64"@, l, r))
        },
        BinOp::And | BinOp::Or => ill(),
    }
}

pub open spec fn compare_width(t: STy) -> Text {
    if t == STy::Bool {
        "i1"@
    } else {
        "i64"@
    }
}

/// Aborts where a call of the runtime says that it failed.
#[verifier::opaque]
pub open spec fn guard_failed(cx: Cx, reg: Text, test: Text, trap: Text, ok: Text) -> Cx {
    if cx.audited {
        cx
    } else {
        guard_test(cx, reg, test, trap, ok)
    }
}

pub open spec fn guard_io(cx: Cx, v: Text) -> Cx {
    guard_failed(cx, "io_failed"@, "icmp slt i64 "@ + v + ", 0"@, "io_trap"@, "io_ok"@)
}

pub open spec fn guard_singular(cx: Cx, v: Text) -> Cx {
    guard_failed(cx, "call_failed"@, "icmp eq i32 "@ + v + ", 0"@, "singular_trap"@, "singular_ok"@)
}

#[verifier::opaque]
pub open spec fn connect(cx: Cx, host: Text, len: Text, port: Text) -> (Cx, Text) {
    let fd = define(
        cx,
        "tcp_connect_fd"@,
        "call i64 @nir_tcp_connect(ptr "@ + host + ", i64 "@ + len + ", i64 "@ + port + ")"@,
    );
    (guard_io(fd.0, fd.1), fd.1)
}

#[verifier::opaque]
pub open spec fn listen(cx: Cx, port: Text) -> (Cx, Text) {
    let fd = define(cx, "tcp_listen_fd"@, "call i64 @nir_tcp_listen(i64 "@ + port + ")"@);
    (guard_io(fd.0, fd.1), fd.1)
}

#[verifier::opaque]
pub open spec fn accept(cx: Cx, listener: Text) -> (Cx, Text) {
    let fd = define(cx, "tcp_accept_fd"@, "call i64 @nir_tcp_accept(i64 "@ + listener + ")"@);
    (guard_io(fd.0, fd.1), fd.1)
}

#[verifier::opaque]
pub open spec fn send(cx: Cx, fd: Text, ptr: Text, len: Text) -> (Cx, Text) {
    let n = define(
        cx,
        "tcp_send_n"@,
        "call i64 @nir_tcp_send(i64 "@ + fd + ", ptr "@ + ptr + ", i64 "@ + len + ")"@,
    );
    (guard_io(n.0, n.1), "0"@)
}

#[verifier::opaque]
pub open spec fn recv(cx: Cx, fd: Text) -> (Cx, Text) {
    let buf = fresh_slot(cx, "tcp_recv_buf"@, "[65536 x i8]"@);
    let ptr = define(
        buf.0,
        "tcp_recv_ptr"@,
        "getelementptr [65536 x i8], ptr "@ + buf.1 + ", i64 0, i64 0"@,
    );
    let n = define(
        ptr.0,
        "tcp_recv_n"@,
        "call i64 @nir_tcp_recv(i64 "@ + fd + ", ptr "@ + ptr.1 + ", i64 65536)"@,
    );
    let c = guard_failed(
        n.0,
        "recv_failed"@,
        "icmp sle i64 "@ + n.1 + ", 0"@,
        "recv_trap"@,
        "recv_ok"@,
    );
    string_value(c, "tcp_recv_str"@, ptr.1, n.1)
}

#[verifier::opaque]
pub open spec fn stop(cx: Cx, fd: Text) -> (Cx, Text) {
    (emit(cx, "  call i32 @nir_tcp_stop(i64 "@ + fd + ")"@), "0"@)
}

/// Prints a value.
#[verifier::opaque]
pub open spec fn print_value(cx: Cx, v: Text, t: STy) -> Cx {
    match t {
        STy::F64 => emit(
            cx,
            "  call i32 (ptr, ...) @printf(ptr @.float_fmt, double "@ + v + ")"@,
        ),
        STy::Str => {
            let p = string_parts(cx, v, "str_print_ptr"@, "str_print_len"@);
            let n = define(p.0, "str_print_len_i32"@, "trunc i64 "@ + p.1.1 + " to i32"@);
            emit(
                n.0,
                "  call i32 (ptr, ...) @printf(ptr @.str_fmt, i32 "@ + n.1 + ", ptr "@ + p.1.0 + ")"@,
            )
        },
        STy::Bool => {
            let w = define(cx, "bool_as_i64"@, "zext i1 "@ + v + " to i64"@);
            emit(w.0, "  call i32 (ptr, ...) @printf(ptr @.int_fmt, i64 "@ + w.1 + ")"@)
        },
        _ => emit(cx, "  call i32 (ptr, ...) @printf(ptr @.int_fmt, i64 "@ + v + ")"@),
    }
}

/// Texts with a comma between them.
pub open spec fn joined(v: Seq<Text>) -> Text
    decreases v.len(),
{
    if v.len() == 0 {
        Seq::empty()
    } else if v.len() == 1 {
        v[0]
    } else {
        joined(v.drop_last()) + ", "@ + v.last()
    }
}

/// Calls a function that returns a scalar.
#[verifier::opaque]
pub open spec fn call_fn(cx: Cx, name: Text, ret: STy, args: Seq<Text>) -> Gen<Text> {
    match llvm(ret) {
        SLlvm::Not(h) => Gen::Halt(h),
        SLlvm::Is(ty) => if ty == "void"@ {
            Gen::Made(emit(cx, "  call void @"@ + name + "("@ + joined(args) + ")"@), "0"@)
        } else {
            let r = define(cx, "call_result"@, "call "@ + ty + " @"@ + name + "("@ + joined(args) + ")"@);
            made(widen(r.0, r.1, ret))
        },
    }
}

/// Calls a function that returns a vector or matrix.
#[verifier::opaque]
pub open spec fn call_into(cx: Cx, name: Text, ret: STy, args: Seq<Text>) -> Gen<Text> {
    match llvm(ret) {
        SLlvm::Not(h) => Gen::Halt(h),
        SLlvm::Is(ty) => {
            let d = fresh_slot(cx, "call_result.addr"@, ty);
            let all = seq!["ptr "@ + d.1] + args;
            Gen::Made(emit(d.0, "  call void @"@ + name + "("@ + joined(all) + ")"@), d.1)
        },
    }
}

/// The place of an element in a matrix.
#[verifier::opaque]
pub open spec fn flat_index(cx: Cx, i: Text, j: Text, cols: nat) -> (Cx, Text) {
    let s = define(cx, "idx_row_scaled"@, "mul i64 "@ + i + ", "@ + dec(cols as int));
    define(s.0, "idx_flat"@, "add i64 "@ + s.1 + ", "@ + j)
}

/// Reads an element, widened.
#[verifier::opaque]
pub open spec fn read_elem(cx: Cx, base: Text, offset: Text, elem: STy) -> Gen<Text> {
    match llvm(elem) {
        SLlvm::Not(h) => Gen::Halt(h),
        SLlvm::Is(ty) => {
            let g = define(cx, "idx_gep"@, "getelementptr "@ + ty + ", ptr "@ + base + ", i64 "@ + offset);
            let v = define(g.0, "idx_val"@, "load "@ + ty + ", ptr "@ + g.1);
            made(widen(v.0, v.1, elem))
        },
    }
}

/// Compares two strings.
#[verifier::opaque]
pub open spec fn compare_strings(cx: Cx, op: BinOp, l: Text, r: Text) -> (Cx, Text) {
    let a = string_parts(cx, l, "str_eq_lptr"@, "str_eq_llen"@);
    let b = string_parts(a.0, r, "str_eq_rptr"@, "str_eq_rlen"@);
    let raw = define(
        b.0,
        "str_eq_raw"@,
        "call i32 @nir_str_eq(ptr "@ + a.1.0 + ", i64 "@ + a.1.1 + ", ptr "@ + b.1.0 + ", i64 "@ + b.1.1 + ")"@,
    );
    compare_ints(
        raw.0,
        if op == BinOp::Eq {
            "ne"@
        } else {
            "eq"@
        },
        "i32"@,
        raw.1,
        "0"@,
    )
}

/// Compares two vectors or matrices.
#[verifier::opaque]
pub open spec fn compare_all(cx: Cx, op: BinOp, l: Text, r: Text, t: STy) -> Gen<Text> {
    match elements(t) {
        None => ill(),
        Some(en) => match llvm(en.0) {
            SLlvm::Not(h) => Gen::Halt(h),
            SLlvm::Is(ty) => if en.1 > usize::MAX {
                ill()
            } else {
                let e = test_equal(cx, l, r, ty, en.0, en.0 == STy::F64, en.1);
                match e.1 {
                    None => ill(),
                    Some(all) => if op == BinOp::Eq {
                        Gen::Made(e.0, all)
                    } else {
                        made(define(e.0, "agg_neq"@, "xor i1 "@ + all + ", true"@))
                    },
                }
            },
        },
    }
}

/// An elementwise operation into `dest`.
#[verifier::opaque]
pub open spec fn elementwise(
    cx: Cx,
    op: BinOp,
    l: Text,
    r: Text,
    dest: Text,
    t: STy,
    proven: bool,
) -> Gen<Text> {
    match elements(t) {
        None => ill(),
        Some(en) => match llvm(en.0) {
            SLlvm::Not(h) => Gen::Halt(h),
            SLlvm::Is(ty) => if en.1 > usize::MAX {
                ill()
            } else {
                Gen::Made(
                    combine_all(
                        cx,
                        op,
                        l,
                        r,
                        dest,
                        ty,
                        en.0,
                        en.0 == STy::F64,
                        proven,
                        en.1,
                    ),
                    dest,
                )
            },
        },
    }
}

/// A product of a matrix and a number, a vector or a matrix into `dest`. `a` and
/// `b` are the operands; a number comes as its value, the others by address.
#[verifier::opaque]
pub open spec fn multiply(cx: Cx, l: STy, r: STy, a: Text, b: Text, dest: Text) -> Gen<Text> {
    match (l, r) {
        (STy::Matrix(e, rows, cols), STy::Vector(..)) => match llvm(*e) {
            SLlvm::Not(h) => Gen::Halt(h),
            SLlvm::Is(ty) => if rows as nat * cols as nat > usize::MAX {
                ill()
            } else {
                Gen::Made(
                    apply_matrix(
                        cx,
                        a,
                        b,
                        dest,
                        ty,
                        *e,
                        *e == STy::F64,
                        cols as nat,
                        rows as nat,
                    ),
                    dest,
                )
            },
        },
        (STy::Matrix(e, rows, ac), STy::Matrix(_, _, bc)) => match llvm(*e) {
            SLlvm::Not(h) => Gen::Halt(h),
            SLlvm::Is(ty) => if rows as nat * ac as nat > usize::MAX || rows as nat * bc as nat
                > usize::MAX || ac as nat * bc as nat > usize::MAX {
                ill()
            } else {
                Gen::Made(
                    product_rows(
                        cx,
                        a,
                        b,
                        dest,
                        ty,
                        *e,
                        *e == STy::F64,
                        ac as nat,
                        bc as nat,
                        rows as nat,
                    ),
                    dest,
                )
            },
        },
        (STy::Matrix(e, rows, cols), _) => scale_matrix(cx, b, a, *e, rows, cols, dest),
        (STy::Vector(..), _) => ill(),
        (_, STy::Matrix(e, rows, cols)) => scale_matrix(cx, a, b, *e, rows, cols, dest),
        _ => ill(),
    }
}

pub open spec fn scale_matrix(
    cx: Cx,
    scalar: Text,
    m: Text,
    e: STy,
    rows: usize,
    cols: usize,
    dest: Text,
) -> Gen<Text> {
    match llvm(e) {
        SLlvm::Not(h) => Gen::Halt(h),
        SLlvm::Is(ty) => if rows as nat * cols as nat > usize::MAX {
            ill()
        } else {
            Gen::Made(
                scale(
                    cx,
                    scalar,
                    m,
                    dest,
                    ty,
                    e,
                    e == STy::F64,
                    rows as nat * cols as nat,
                ),
                dest,
            )
        },
    }
}

/// How many arguments of a builtin are vectors or matrices.
pub open spec fn ptr_count(b: Builtin) -> nat {
    match b {
        Builtin::Len | Builtin::IsSquare | Builtin::Zeros | Builtin::Ones | Builtin::Identity => 0,
        Builtin::Dot
        | Builtin::Distance
        | Builtin::Bearing
        | Builtin::Cross
        | Builtin::EcefToEnu
        | Builtin::EnuToEcef
        | Builtin::Solve => 2,
        Builtin::KfPredictState | Builtin::KfPredictCov => 4,
        Builtin::KfUpdateState | Builtin::KfUpdateCov => 5,
        _ => 1,
    }
}

/// Why a builtin has no code for an argument of this type, before its arguments
/// are evaluated.
pub open spec fn elem_halt(b: Builtin, t: STy) -> Option<SHalt> {
    match b {
        Builtin::Dot | Builtin::Sum | Builtin::Cross => match elements(t) {
            None => Some(SHalt::IllTyped),
            Some(en) => match llvm(en.0) {
                SLlvm::Not(h) => Some(h),
                SLlvm::Is(_) => None,
            },
        },
        Builtin::Trace | Builtin::Transpose => match t {
            STy::Matrix(e, _, _) => match llvm(*e) {
                SLlvm::Not(h) => Some(h),
                SLlvm::Is(_) => None,
            },
            _ => Some(SHalt::IllTyped),
        },
        _ => None,
    }
}

/// Code for a builtin that gives a scalar, on an argument of type `t`.
#[verifier::opaque]
pub open spec fn scalar_builtin(cx: Cx, b: Builtin, t: STy, p: Seq<Text>) -> Gen<Text> {
    match b {
        Builtin::Dot => match elements(t) {
            None => ill(),
            Some(en) => match llvm(en.0) {
                SLlvm::Not(h) => Gen::Halt(h),
                SLlvm::Is(ty) => if en.1 > usize::MAX {
                    ill()
                } else {
                    made(
                        sum_products(
                            cx,
                            p[0],
                            p[1],
                            ty,
                            en.0,
                            en.0 == STy::F64,
                            0,
                            0,
                            1,
                            en.1,
                        ),
                    )
                },
            },
        },
        Builtin::Sum => match elements(t) {
            None => ill(),
            Some(en) => match llvm(en.0) {
                SLlvm::Not(h) => Gen::Halt(h),
                SLlvm::Is(ty) => if en.1 > usize::MAX {
                    ill()
                } else {
                    made(sum_elements(cx, p[0], ty, en.0, en.0 == STy::F64, en.1))
                },
            },
        },
        Builtin::Len => match t {
            STy::Vector(_, n) => Gen::Made(cx, dec(n as int)),
            _ => ill(),
        },
        Builtin::Norm | Builtin::FrobeniusNorm => match elements(t) {
            None => ill(),
            Some(en) => if en.1 > usize::MAX {
                ill()
            } else {
                let s = sum_squares(cx, p[0], en.1);
                made(call1(s.0, "@llvm.sqrt.f64"@, s.1))
            },
        },
        Builtin::Norm1 => match elements(t) {
            None => ill(),
            Some(en) => if en.1 > usize::MAX {
                ill()
            } else {
                made(magnitudes(cx, p[0], false, en.1))
            },
        },
        Builtin::NormInf => match elements(t) {
            None => ill(),
            Some(en) => if en.1 > usize::MAX {
                ill()
            } else {
                made(magnitudes(cx, p[0], true, en.1))
            },
        },
        Builtin::Trace => match t {
            STy::Matrix(e, n, _) => match llvm(*e) {
                SLlvm::Not(h) => Gen::Halt(h),
                SLlvm::Is(ty) => if n as nat * n as nat > usize::MAX {
                    ill()
                } else {
                    made(sum_diagonal(cx, p[0], ty, *e, *e == STy::F64, n as nat, n as nat))
                },
            },
            _ => ill(),
        },
        Builtin::Distance => match elements(t) {
            None => ill(),
            Some(en) => if en.1 > usize::MAX {
                ill()
            } else {
                let s = sum_distances(cx, p[0], p[1], en.1);
                made(call1(s.0, "@llvm.sqrt.f64"@, s.1))
            },
        },
        Builtin::Bearing => made(bearing(cx, p[0], p[1])),
        Builtin::IsSymmetric | Builtin::IsDiag => match t {
            STy::Matrix(_, n, _) => if n as nat * n as nat > usize::MAX {
                ill()
            } else {
                let r = test_rows(cx, p[0], n as nat, b == Builtin::IsDiag, n as nat);
                Gen::Made(
                    r.0,
                    match r.1 {
                        Some(x) => x,
                        None => "true"@,
                    },
                )
            },
            _ => ill(),
        },
        Builtin::IsSquare => match t {
            STy::Matrix(_, r, c) => Gen::Made(
                cx,
                if r == c {
                    "true"@
                } else {
                    "false"@
                },
            ),
            _ => ill(),
        },
        Builtin::Det => match t {
            STy::Matrix(_, n, _) => made(
                define(
                    cx,
                    "det_result"@,
                    "call double @nir_det(ptr "@ + p[0] + ", i64 "@ + dec(n as int) + ")"@,
                ),
            ),
            _ => ill(),
        },
        Builtin::Rank => match t {
            STy::Matrix(_, r, c) => made(
                define(
                    cx,
                    "rank_result"@,
                    "call i64 @nir_rank(ptr "@ + p[0] + ", i64 "@ + dec(r as int) + ", i64 "@ + dec(c as int) + ")"@,
                ),
            ),
            _ => ill(),
        },
        _ => ill(),
    }
}

/// Stores three numbers.
pub open spec fn store3(cx: Cx, dest: Text, x: Text, y: Text, z: Text) -> Cx {
    let a = store(cx, dest, "double"@, STy::F64, 0, x);
    let b = store(a, dest, "double"@, STy::F64, 1, y);
    store(b, dest, "double"@, STy::F64, 2, z)
}

/// Code for a builtin that gives a vector or matrix of type `result`, on
/// arguments of which the first and the third have types `t` and `u`.
#[verifier::opaque]
pub open spec fn agg_builtin(
    cx: Cx,
    b: Builtin,
    result: STy,
    t: STy,
    u: STy,
    p: Seq<Text>,
    dest: Text,
) -> Gen<Text> {
    match b {
        Builtin::Transpose => match t {
            STy::Matrix(e, r, c) => match llvm(*e) {
                SLlvm::Not(h) => Gen::Halt(h),
                SLlvm::Is(ty) => if r as nat * c as nat > usize::MAX {
                    ill()
                } else {
                    Gen::Made(
                        turn_columns(cx, p[0], dest, ty, *e, r as nat, c as nat, c as nat),
                        dest,
                    )
                },
            },
            _ => ill(),
        },
        Builtin::Cross => match elements(t) {
            None => ill(),
            Some(en) => match llvm(en.0) {
                SLlvm::Not(h) => Gen::Halt(h),
                SLlvm::Is(ty) => Gen::Made(
                    cross_product(cx, p[0], p[1], dest, ty, en.0, en.0 == STy::F64),
                    dest,
                ),
            },
        },
        Builtin::Zeros | Builtin::Ones => match elements(result) {
            None => ill(),
            Some(en) => if en.1 > usize::MAX {
                ill()
            } else {
                Gen::Made(
                    fill(
                        cx,
                        dest,
                        float_const(if b == Builtin::Zeros { ZERO_F } else { ONE_F }),
                        en.1,
                    ),
                    dest,
                )
            },
        },
        Builtin::Identity => match result {
            STy::Matrix(_, n, _) => if n as nat * n as nat > usize::MAX {
                ill()
            } else {
                Gen::Made(unit_rows(cx, dest, n as nat, n as nat), dest)
            },
            _ => ill(),
        },
        Builtin::LlaToEcef => {
            let v = load3(cx, p[0]);
            let o = lla_to_ecef(v.0, v.1.0, v.1.1, v.1.2);
            Gen::Made(store3(o.0, dest, o.1.0, o.1.1, o.1.2), dest)
        },
        Builtin::EcefToLla => {
            let v = load3(cx, p[0]);
            let o = ecef_to_lla(v.0, v.1.0, v.1.1, v.1.2);
            Gen::Made(store3(o.0, dest, o.1.0, o.1.1, o.1.2), dest)
        },
        Builtin::EcefToEnu => {
            let o = ecef_to_enu(cx, p[0], p[1]);
            Gen::Made(store3(o.0, dest, o.1.0, o.1.1, o.1.2), dest)
        },
        Builtin::EnuToEcef => {
            let o = enu_to_ecef(cx, p[0], p[1]);
            Gen::Made(store3(o.0, dest, o.1.0, o.1.1, o.1.2), dest)
        },
        Builtin::KfPredictState => match t {
            STy::Vector(_, n) => if n as nat * n as nat > usize::MAX {
                ill()
            } else {
                let v = image(cx, p[2], p[0], n as nat, n as nat);
                Gen::Made(store_all(v.0, dest, v.1, v.1.len()), dest)
            },
            _ => ill(),
        },
        Builtin::KfPredictCov => match t {
            STy::Vector(_, n) => if n as nat * n as nat > usize::MAX {
                ill()
            } else {
                let fp = entries(cx, p[2], p[1], n as nat, n as nat);
                let fpft = turned(fp.0, fp.1, p[2], n as nat, n as nat);
                let q = load_all(fpft.0, p[3], n as nat * n as nat);
                let s = add_all(q.0, fpft.1, q.1, fpft.1.len());
                Gen::Made(store_all(s.0, dest, s.1, s.1.len()), dest)
            },
            _ => ill(),
        },
        Builtin::Inv => match t {
            STy::Matrix(_, n, _) => {
                let ok = define(
                    cx,
                    "inv_ok"@,
                    "call i32 @nir_inv(ptr "@ + p[0] + ", i64 "@ + dec(n as int) + ", ptr "@ + dest + ")"@,
                );
                Gen::Made(guard_singular(ok.0, ok.1), dest)
            },
            _ => ill(),
        },
        Builtin::Solve => match t {
            STy::Matrix(_, n, _) => {
                let ok = define(
                    cx,
                    "solve_ok"@,
                    "call i32 @nir_solve(ptr "@ + p[0] + ", i64 "@ + dec(n as int) + ", ptr "@ + p[1] + ", ptr "@ + dest + ")"@,
                );
                Gen::Made(guard_singular(ok.0, ok.1), dest)
            },
            _ => ill(),
        },
        Builtin::KfUpdateState | Builtin::KfUpdateCov => match (t, u) {
            (STy::Vector(_, n), STy::Vector(_, m)) => {
                let func = if b == Builtin::KfUpdateState {
                    "@nir_kf_update_state"@
                } else {
                    "@nir_kf_update_cov"@
                };
                let ok = define(
                    cx,
                    "kf_update_ok"@,
                    "call i32 "@ + func + "(ptr "@ + p[0] + ", ptr "@ + p[1] + ", ptr "@ + p[2] + ", ptr "@ + p[3] + ", ptr "@ + p[4] + ", i64 "@ + dec(n as int) + ", i64 "@ + dec(m as int) + ", ptr "@ + dest + ")"@,
                );
                Gen::Made(guard_singular(ok.0, ok.1), dest)
            },
            _ => ill(),
        },
        _ => ill(),
    }
}

/// Texts with a comma between them.
pub fn join(v: &Vec<String>) -> (r: String)
    ensures
        r@ == joined(lines_view(v@)),
{
    if v.len() == 0 {
        return String::new();
    }
    let ghost all = lines_view(v@);
    let mut out = v[0].clone();
    let mut i: usize = 1;
    proof {
        assert(all.take(1).len() == 1);
        assert(all.take(1)[0] == all[0]);
    }
    while i < v.len()
        invariant
            1 <= i <= v@.len(),
            all == lines_view(v@),
            out@ == joined(all.take(i as int)),
        decreases v@.len() - i,
    {
        out.append(", ");
        out.append(v[i].as_str());
        proof {
            assert(all.take(i + 1).drop_last() =~= all.take(i as int));
        }
        i = i + 1;
    }
    proof {
        assert(all.take(i as int) =~= all);
    }
    out
}

pub fn pointer_count(b: Builtin) -> (r: usize)
    ensures
        r == ptr_count(b),
{
    match b {
        Builtin::Len | Builtin::IsSquare | Builtin::Zeros | Builtin::Ones | Builtin::Identity => 0,
        Builtin::Dot
        | Builtin::Distance
        | Builtin::Bearing
        | Builtin::Cross
        | Builtin::EcefToEnu
        | Builtin::EnuToEcef
        | Builtin::Solve => 2,
        Builtin::KfPredictState | Builtin::KfPredictCov => 4,
        Builtin::KfUpdateState | Builtin::KfUpdateCov => 5,
        _ => 1,
    }
}

/// The element type and the dimensions of a vector or matrix.
fn shape_of(t: &Ty) -> (r: Option<(&Ty, usize, usize)>)
    ensures
        match r {
            Some(x) => elements(t@) == Some((x.0@, x.1 as nat * x.2 as nat)),
            None => elements(t@) is None,
        },
{
    match t {
        Ty::Vector(e, n) => {
            proof {
                assert(*n as nat * 1 == *n as nat);
            }
            Some((e, *n, 1))
        }
        Ty::Matrix(e, r, c) => Some((e, *r, *c)),
        _ => None,
    }
}

/// The element type, its LLVM type and the number of elements.
fn elements_of(t: &Ty) -> (r: Result<(&Ty, String, usize), Halt>)
    ensures
        match r {
            Ok(x) => elements(t@) == Some((x.0@, x.2 as nat)) && llvm(x.0@) == SLlvm::Is(x.1@),
            Err(h) => match elements(t@) {
                None => h@ == SHalt::IllTyped,
                Some(en) => match llvm(en.0) {
                    SLlvm::Not(g) => h@ == g,
                    SLlvm::Is(_) => en.1 > usize::MAX && h@ == SHalt::IllTyped,
                },
            },
        },
{
    match shape_of(t) {
        None => Err(Halt::IllTyped),
        Some((e, rows, cols)) => {
            let ty = llvm_ty(e)?;
            match rows.checked_mul(cols) {
                Some(n) => Ok((e, ty, n)),
                None => Err(Halt::IllTyped),
            }
        }
    }
}

/// The number of elements.
fn count_of(t: &Ty) -> (r: Option<usize>)
    ensures
        match r {
            Some(n) => elements(t@) matches Some(en) && en.1 == n,
            None => elements(t@) matches Some(en) ==> en.1 > usize::MAX,
        },
{
    match shape_of(t) {
        None => None,
        Some((_, rows, cols)) => rows.checked_mul(cols),
    }
}

pub fn check_elem(b: Builtin, t: &Ty) -> (r: Result<(), Halt>)
    ensures
        crate::support::reports(r, elem_halt(b, t@)),
{
    match b {
        Builtin::Dot | Builtin::Sum | Builtin::Cross => match shape_of(t) {
            None => Err(Halt::IllTyped),
            Some((e, _, _)) => match llvm_ty(e) {
                Ok(_) => Ok(()),
                Err(h) => Err(h),
            },
        },
        Builtin::Trace | Builtin::Transpose => match t {
            Ty::Matrix(e, _, _) => match llvm_ty(e) {
                Ok(_) => Ok(()),
                Err(h) => Err(h),
            },
            _ => Err(Halt::IllTyped),
        },
        _ => Ok(()),
    }
}

impl Module {
    pub fn str_literal(&mut self, s: &str) -> (r: Result<String, Halt>)
        ensures
            makes(r, final(self)@, str_literal(old(self)@, s@)),
    {
        proof {
            reveal(str_literal);
        }
        let bytes = s.as_bytes();
        let len: usize = bytes.len();
        match len.checked_add(1) {
            None => Err(Halt::IllTyped),
            Some(size) => {
                let g = self.fresh_global("str");
                let e = llvm_escape_bytes(bytes);
                let n = dec_usize(size);
                self.global(
                    cat6(g.as_str(), " = private unnamed_addr constant [", n.as_str(), " x i8] c\"", e.as_str(), "\\00\""),
                );
                let l = dec_usize(len);
                Ok(self.string_value("str_val", g.as_str(), l.as_str()))
            }
        }
    }

    pub fn read_slot(&mut self, prefix: &str, t: &Ty, ptr: &str) -> (r: Result<String, Halt>)
        ensures
            makes(r, final(self)@, read_slot(old(self)@, prefix@, t@, ptr@)),
    {
        proof {
            reveal(read_slot);
        }
        let ty = llvm_ty(t)?;
        let v = self.define(prefix, cat4("load ", ty.as_str(), ", ptr ", ptr));
        Ok(self.widen(v.as_str(), t))
    }

    pub fn write_slot(&mut self, val: &str, t: &Ty, ptr: &str) -> (r: Result<(), Halt>)
        ensures
            makes(r, final(self)@, write_slot(old(self)@, val@, t@, ptr@)),
    {
        proof {
            reveal(write_slot);
        }
        let v = self.stored(val, t)?;
        let ty = llvm_ty(t)?;
        self.emit(cat6("  store ", ty.as_str(), " ", v.as_str(), ", ptr ", ptr));
        Ok(())
    }

    pub fn new_slot(&mut self, prefix: &str, val: &str, t: &Ty) -> (r: Result<String, Halt>)
        ensures
            makes(r, final(self)@, new_slot(old(self)@, prefix@, val@, t@)),
    {
        proof {
            reveal(new_slot);
        }
        let v = self.stored(val, t)?;
        let ty = llvm_ty(t)?;
        let p = self.fresh_slot(prefix, ty.as_str());
        self.emit(cat6("  store ", ty.as_str(), " ", v.as_str(), ", ptr ", p.as_str()));
        Ok(p)
    }

    pub fn copy_slot(&mut self, prefix: &str, t: &Ty, src: &str) -> (r: Result<String, Halt>)
        ensures
            makes(r, final(self)@, copy_slot(old(self)@, prefix@, t@, src@)),
    {
        proof {
            reveal(copy_slot);
        }
        let ty = llvm_ty(t)?;
        let p = self.fresh_slot(prefix, ty.as_str());
        match ty_byte_size(t) {
            Some(n) => {
                self.copy_bytes(p.as_str(), src, n);
                Ok(p)
            }
            None => Err(Halt::IllTyped),
        }
    }

    pub fn negate(&mut self, v: &str, float: bool) -> (r: String)
        ensures
            (final(self)@, r@) == negate(old(self)@, v@, float),
    {
        proof {
            reveal(negate);
        }
        if float {
            self.define("fneg", cat2("fneg double ", v))
        } else {
            self.define("neg", cat2("sub i64 0, ", v))
        }
    }

    pub fn invert(&mut self, v: &str) -> (r: String)
        ensures
            (final(self)@, r@) == invert(old(self)@, v@),
    {
        proof {
            reveal(invert);
        }
        self.define("not", cat3("xor i1 ", v, ", true"))
    }

    fn arith_op(&mut self, op: BinOp, l: &str, r: &str, t: &Ty, proven: bool) -> (out: String)
        requires
            op == BinOp::Add || op == BinOp::Sub || op == BinOp::Mul || op == BinOp::ElemMul || op
                == BinOp::Div || op == BinOp::ElemDiv,
        ensures
            arith(old(self)@, op, l@, r@, t@, proven) == Gen::Made(final(self)@, out@),
    {
        proof {
            reveal(arith);
        }
        let float = matches!(t, Ty::F64);
        match op {
            BinOp::Add => {
                let rhs = if float {
                    cat4("fadd double ", l, ", ", r)
                } else {
                    cat4("add i64 ", l, ", ", r)
                };
                self.define("add", rhs)
            }
            BinOp::Sub => {
                let rhs = if float {
                    cat4("fsub double ", l, ", ", r)
                } else {
                    cat4("sub i64 ", l, ", ", r)
                };
                self.define("sub", rhs)
            }
            BinOp::Mul | BinOp::ElemMul => {
                let rhs = if float {
                    cat4("fmul double ", l, ", ", r)
                } else {
                    cat4("mul i64 ", l, ", ", r)
                };
                self.define("mul", rhs)
            }
            _ => if float {
                self.define("fdiv", cat4("fdiv double ", l, ", ", r))
            } else {
                self.guard_divisor(r, proven);
                self.define("sdiv", cat4("sdiv i64 ", l, ", ", r))
            },
        }
    }

    pub fn arith(&mut self, op: BinOp, l: &str, r: &str, t: &Ty, proven: bool) -> (out: Result<
        String,
        Halt,
    >)
        ensures
            makes(out, final(self)@, arith(old(self)@, op, l@, r@, t@, proven)),
    {
        proof {
            reveal(arith);
        }
        let float = matches!(t, Ty::F64);
        match op {
            BinOp::Add
            | BinOp::Sub
            | BinOp::Mul
            | BinOp::ElemMul
            | BinOp::Div
            | BinOp::ElemDiv => Ok(self.arith_op(op, l, r, t, proven)),
            BinOp::Eq | BinOp::NotEq => {
                let equal = matches!(op, BinOp::Eq);
                if float {
                    Ok(
                        self.compare_floats(
                            if equal {
                                "oeq"
                            } else {
                                "one"
                            },
                            l,
                            r,
                        ),
                    )
                } else {
                    let width = if matches!(t, Ty::Bool) {
                        "i1"
                    } else {
                        "i64"
                    };
                    Ok(
                        self.compare_ints(
                            if equal {
                                "eq"
                            } else {
                                "ne"
                            },
                            width,
                            l,
                            r,
                        ),
                    )
                }
            }
            BinOp::Lt => Ok(
                if float {
                    self.compare_floats("olt", l, r)
                } else {
                    self.compare_ints("slt", "i64", l, r)
                },
            ),
            BinOp::Gt => Ok(
                if float {
                    self.compare_floats("ogt", l, r)
                } else {
                    self.compare_ints("sgt", "i64", l, r)
                },
            ),
            BinOp::LtEq => Ok(
                if float {
                    self.compare_floats("ole", l, r)
                } else {
                    self.compare_ints("sle", "i64", l, r)
                },
            ),
            BinOp::GtEq => Ok(
                if float {
                    self.compare_floats("oge", l, r)
                } else {
                    self.compare_ints("sge", "i64", l, r)
                },
            ),
            BinOp::And | BinOp::Or => Err(Halt::IllTyped),
        }
    }

    fn guard_failed(&mut self, reg: &str, test: String, trap: &str, ok: &str)
        ensures
            final(self)@ == guard_failed(old(self)@, reg@, test@, trap@, ok@),
    {
        proof {
            reveal(guard_failed);
        }
        if !self.audited {
            self.guard_test(reg, test, trap, ok);
        }
    }

    fn guard_io(&mut self, v: &str)
        ensures
            final(self)@ == guard_io(old(self)@, v@),
    {
        self.guard_failed("io_failed", cat3("icmp slt i64 ", v, ", 0"), "io_trap", "io_ok");
    }

    fn guard_singular(&mut self, v: &str)
        ensures
            final(self)@ == guard_singular(old(self)@, v@),
    {
        self.guard_failed(
            "call_failed",
            cat3("icmp eq i32 ", v, ", 0"),
            "singular_trap",
            "singular_ok",
        );
    }

    pub fn connect(&mut self, host: &str, len: &str, port: &str) -> (r: String)
        ensures
            (final(self)@, r@) == connect(old(self)@, host@, len@, port@),
    {
        proof {
            reveal(connect);
        }
        let fd = self.define(
            "tcp_connect_fd",
            cat7("call i64 @nir_tcp_connect(ptr ", host, ", i64 ", len, ", i64 ", port, ")"),
        );
        self.guard_io(fd.as_str());
        fd
    }

    pub fn listen(&mut self, port: &str) -> (r: String)
        ensures
            (final(self)@, r@) == listen(old(self)@, port@),
    {
        proof {
            reveal(listen);
        }
        let fd = self.define("tcp_listen_fd", cat3("call i64 @nir_tcp_listen(i64 ", port, ")"));
        self.guard_io(fd.as_str());
        fd
    }

    pub fn accept(&mut self, listener: &str) -> (r: String)
        ensures
            (final(self)@, r@) == accept(old(self)@, listener@),
    {
        proof {
            reveal(accept);
        }
        let fd = self.define("tcp_accept_fd", cat3("call i64 @nir_tcp_accept(i64 ", listener, ")"));
        self.guard_io(fd.as_str());
        fd
    }

    pub fn send(&mut self, fd: &str, ptr: &str, len: &str) -> (r: String)
        ensures
            (final(self)@, r@) == send(old(self)@, fd@, ptr@, len@),
    {
        proof {
            reveal(send);
        }
        let n = self.define(
            "tcp_send_n",
            cat7("call i64 @nir_tcp_send(i64 ", fd, ", ptr ", ptr, ", i64 ", len, ")"),
        );
        self.guard_io(n.as_str());
        "0".to_owned()
    }

    pub fn recv(&mut self, fd: &str) -> (r: String)
        ensures
            (final(self)@, r@) == recv(old(self)@, fd@),
    {
        proof {
            reveal(recv);
        }
        let buf = self.fresh_slot("tcp_recv_buf", "[65536 x i8]");
        let ptr = self.define(
            "tcp_recv_ptr",
            cat3("getelementptr [65536 x i8], ptr ", buf.as_str(), ", i64 0, i64 0"),
        );
        let n = self.define(
            "tcp_recv_n",
            cat5("call i64 @nir_tcp_recv(i64 ", fd, ", ptr ", ptr.as_str(), ", i64 65536)"),
        );
        self.guard_failed(
            "recv_failed",
            cat3("icmp sle i64 ", n.as_str(), ", 0"),
            "recv_trap",
            "recv_ok",
        );
        self.string_value("tcp_recv_str", ptr.as_str(), n.as_str())
    }

    pub fn stop(&mut self, fd: &str) -> (r: String)
        ensures
            (final(self)@, r@) == stop(old(self)@, fd@),
    {
        proof {
            reveal(stop);
        }
        self.emit(cat3("  call i32 @nir_tcp_stop(i64 ", fd, ")"));
        "0".to_owned()
    }

    pub fn print_value(&mut self, v: &str, t: &Ty)
        ensures
            final(self)@ == print_value(old(self)@, v@, t@),
    {
        proof {
            reveal(print_value);
        }
        match t {
            Ty::F64 => {
                self.emit(cat3("  call i32 (ptr, ...) @printf(ptr @.float_fmt, double ", v, ")"));
            }
            Ty::Str => {
                let (p, l) = self.string_parts(v, "str_print_ptr", "str_print_len");
                let n = self.define("str_print_len_i32", cat3("trunc i64 ", l.as_str(), " to i32"));
                self.emit(
                    cat5("  call i32 (ptr, ...) @printf(ptr @.str_fmt, i32 ", n.as_str(), ", ptr ", p.as_str(), ")"),
                );
            }
            Ty::Bool => {
                let w = self.define("bool_as_i64", cat3("zext i1 ", v, " to i64"));
                self.emit(cat3("  call i32 (ptr, ...) @printf(ptr @.int_fmt, i64 ", w.as_str(), ")"));
            }
            _ => {
                self.emit(cat3("  call i32 (ptr, ...) @printf(ptr @.int_fmt, i64 ", v, ")"));
            }
        }
    }

    pub fn call_fn(&mut self, name: &str, ret: &Ty, args: &Vec<String>) -> (r: Result<String, Halt>)
        ensures
            makes(r, final(self)@, call_fn(old(self)@, name@, ret@, lines_view(args@))),
    {
        proof {
            reveal(call_fn);
        }
        let ty = llvm_ty(ret)?;
        let list = join(args);
        if same(ty.as_str(), "void") {
            self.emit(cat5("  call void @", name, "(", list.as_str(), ")"));
            Ok("0".to_owned())
        } else {
            let r = self.define(
                "call_result",
                cat7("call ", ty.as_str(), " @", name, "(", list.as_str(), ")"),
            );
            Ok(self.widen(r.as_str(), ret))
        }
    }

    pub fn call_into(&mut self, name: &str, ret: &Ty, args: Vec<String>) -> (r: Result<
        String,
        Halt,
    >)
        ensures
            makes(r, final(self)@, call_into(old(self)@, name@, ret@, lines_view(args@))),
    {
        proof {
            reveal(call_into);
        }
        let ty = llvm_ty(ret)?;
        let d = self.fresh_slot("call_result.addr", ty.as_str());
        let mut all: Vec<String> = Vec::new();
        let first = cat2("ptr ", d.as_str());
        let ghost fv = first@;
        let ghost av = lines_view(args@);
        all.push(first);
        let mut args = args;
        all.append(&mut args);
        proof {
            assert(lines_view(all@) =~= seq![fv] + av);
        }
        let list = join(&all);
        self.emit(cat5("  call void @", name, "(", list.as_str(), ")"));
        Ok(d)
    }

    pub fn flat_index(&mut self, i: &str, j: &str, cols: usize) -> (r: String)
        ensures
            (final(self)@, r@) == flat_index(old(self)@, i@, j@, cols as nat),
    {
        proof {
            reveal(flat_index);
        }
        let c = dec_usize(cols);
        let s = self.define("idx_row_scaled", cat4("mul i64 ", i, ", ", c.as_str()));
        self.define("idx_flat", cat4("add i64 ", s.as_str(), ", ", j))
    }

    pub fn read_elem(&mut self, base: &str, offset: &str, elem: &Ty) -> (r: Result<String, Halt>)
        ensures
            makes(r, final(self)@, read_elem(old(self)@, base@, offset@, elem@)),
    {
        proof {
            reveal(read_elem);
        }
        let ty = llvm_ty(elem)?;
        let g = self.define(
            "idx_gep",
            cat6("getelementptr ", ty.as_str(), ", ptr ", base, ", i64 ", offset),
        );
        let v = self.define("idx_val", cat4("load ", ty.as_str(), ", ptr ", g.as_str()));
        Ok(self.widen(v.as_str(), elem))
    }

    pub fn compare_strings(&mut self, op: BinOp, l: &str, r: &str) -> (out: String)
        ensures
            (final(self)@, out@) == compare_strings(old(self)@, op, l@, r@),
    {
        proof {
            reveal(compare_strings);
        }
        let (lp, ll) = self.string_parts(l, "str_eq_lptr", "str_eq_llen");
        let (rp, rl) = self.string_parts(r, "str_eq_rptr", "str_eq_rlen");
        let raw = self.define(
            "str_eq_raw",
            cat9("call i32 @nir_str_eq(ptr ", lp.as_str(), ", i64 ", ll.as_str(), ", ptr ", rp.as_str(), ", i64 ", rl.as_str(), ")"),
        );
        self.compare_ints(
            if matches!(op, BinOp::Eq) {
                "ne"
            } else {
                "eq"
            },
            "i32",
            raw.as_str(),
            "0",
        )
    }

    pub fn compare_all(&mut self, op: BinOp, l: &str, r: &str, t: &Ty) -> (out: Result<String, Halt>)
        ensures
            makes(out, final(self)@, compare_all(old(self)@, op, l@, r@, t@)),
    {
        proof {
            reveal(compare_all);
        }
        let (e, ty, n) = elements_of(t)?;
        let float = matches!(e, Ty::F64);
        match self.test_equal(l, r, ty.as_str(), e, float, n) {
            None => Err(Halt::IllTyped),
            Some(all) => if matches!(op, BinOp::Eq) {
                Ok(all)
            } else {
                Ok(self.define("agg_neq", cat3("xor i1 ", all.as_str(), ", true")))
            },
        }
    }

    pub fn elementwise(
        &mut self,
        op: BinOp,
        l: &str,
        r: &str,
        dest: String,
        t: &Ty,
        proven: bool,
    ) -> (out: Result<String, Halt>)
        ensures
            makes(
                out,
                final(self)@,
                elementwise(old(self)@, op, l@, r@, dest@, t@, proven),
            ),
    {
        proof {
            reveal(elementwise);
        }
        let (e, ty, n) = elements_of(t)?;
        let float = matches!(e, Ty::F64);
        self.combine_all(op, l, r, dest.as_str(), ty.as_str(), e, float, proven, n);
        Ok(dest)
    }

    fn scale_matrix(
        &mut self,
        scalar: &str,
        m: &str,
        e: &Ty,
        rows: usize,
        cols: usize,
        dest: String,
    ) -> (out: Result<String, Halt>)
        ensures
            makes(
                out,
                final(self)@,
                scale_matrix(old(self)@, scalar@, m@, e@, rows, cols, dest@),
            ),
    {
        let ty = llvm_ty(e)?;
        match rows.checked_mul(cols) {
            None => Err(Halt::IllTyped),
            Some(n) => {
                let float = matches!(e, Ty::F64);
                self.scale(scalar, m, dest.as_str(), ty.as_str(), e, float, n);
                Ok(dest)
            }
        }
    }

    pub fn multiply(&mut self, l: &Ty, r: &Ty, a: &str, b: &str, dest: String) -> (out: Result<
        String,
        Halt,
    >)
        ensures
            makes(out, final(self)@, multiply(old(self)@, l@, r@, a@, b@, dest@)),
    {
        proof {
            reveal(multiply);
        }
        match (l, r) {
            (Ty::Matrix(e, rows, cols), Ty::Vector(..)) => {
                let ty = llvm_ty(e)?;
                match rows.checked_mul(*cols) {
                    None => Err(Halt::IllTyped),
                    Some(_) => {
                        let float = matches!(**e, Ty::F64);
                        self.apply_matrix(
                            a,
                            b,
                            dest.as_str(),
                            ty.as_str(),
                            e,
                            float,
                            *rows,
                            *cols,
                        );
                        Ok(dest)
                    }
                }
            }
            (Ty::Matrix(e, rows, ac), Ty::Matrix(_, _, bc)) => {
                let ty = llvm_ty(e)?;
                if rows.checked_mul(*ac).is_none() || rows.checked_mul(*bc).is_none()
                    || ac.checked_mul(*bc).is_none() {
                    return Err(Halt::IllTyped);
                }
                let float = matches!(**e, Ty::F64);
                self.product_rows(
                    a,
                    b,
                    dest.as_str(),
                    ty.as_str(),
                    e,
                    float,
                    *rows,
                    *ac,
                    *bc,
                );
                Ok(dest)
            }
            (Ty::Matrix(e, rows, cols), _) => self.scale_matrix(b, a, e, *rows, *cols, dest),
            (Ty::Vector(..), _) => Err(Halt::IllTyped),
            (_, Ty::Matrix(e, rows, cols)) => self.scale_matrix(a, b, e, *rows, *cols, dest),
            _ => Err(Halt::IllTyped),
        }
    }

    /// Code for a builtin on all elements of one or two vectors or matrices.
    fn reduce(&mut self, b: Builtin, t: &Ty, p: &Vec<String>) -> (r: Result<String, Halt>)
        requires
            p@.len() >= ptr_count(b),
            b == Builtin::Dot || b == Builtin::Sum || b == Builtin::Norm || b
                == Builtin::FrobeniusNorm || b == Builtin::Norm1 || b == Builtin::NormInf || b
                == Builtin::Distance,
        ensures
            makes(r, final(self)@, scalar_builtin(old(self)@, b, t@, lines_view(p@))),
    {
        proof {
            reveal(scalar_builtin);
        }
        match b {
            Builtin::Dot => {
                let (e, ty, n) = elements_of(t)?;
                let float = matches!(e, Ty::F64);
                proof {
                    assert(n >= 1 ==> 0 + (n - 1) * 1 <= usize::MAX);
                }
                Ok(
                    self.sum_products(
                        p[0].as_str(),
                        p[1].as_str(),
                        ty.as_str(),
                        e,
                        float,
                        0,
                        0,
                        1,
                        n,
                    ),
                )
            }
            Builtin::Sum => {
                let (e, ty, n) = elements_of(t)?;
                let float = matches!(e, Ty::F64);
                Ok(self.sum_elements(p[0].as_str(), ty.as_str(), e, float, n))
            }
            _ => match count_of(t) {
                None => Err(Halt::IllTyped),
                Some(n) => match b {
                    Builtin::Norm1 => Ok(self.magnitudes(p[0].as_str(), false, n)),
                    Builtin::NormInf => Ok(self.magnitudes(p[0].as_str(), true, n)),
                    Builtin::Distance => {
                        let s = self.sum_distances(p[0].as_str(), p[1].as_str(), n);
                        Ok(self.call1("@llvm.sqrt.f64", s.as_str()))
                    }
                    _ => {
                        let s = self.sum_squares(p[0].as_str(), n);
                        Ok(self.call1("@llvm.sqrt.f64", s.as_str()))
                    }
                },
            },
        }
    }

    /// Code for a builtin that gives a scalar.
    pub fn scalar_builtin(&mut self, b: Builtin, t: &Ty, p: &Vec<String>) -> (r: Result<
        String,
        Halt,
    >)
        requires
            p@.len() >= ptr_count(b),
        ensures
            makes(r, final(self)@, scalar_builtin(old(self)@, b, t@, lines_view(p@))),
    {
        proof {
            reveal(scalar_builtin);
        }
        match b {
            Builtin::Dot
            | Builtin::Sum
            | Builtin::Norm
            | Builtin::FrobeniusNorm
            | Builtin::Norm1
            | Builtin::NormInf
            | Builtin::Distance => self.reduce(b, t, p),
            Builtin::Len => match t {
                Ty::Vector(_, n) => Ok(dec_usize(*n)),
                _ => Err(Halt::IllTyped),
            },
            Builtin::Bearing => Ok(self.bearing(p[0].as_str(), p[1].as_str())),
            Builtin::Trace => match t {
                Ty::Matrix(e, n, _) => {
                    let ty = llvm_ty(e)?;
                    match n.checked_mul(*n) {
                        None => Err(Halt::IllTyped),
                        Some(_) => {
                            let float = matches!(**e, Ty::F64);
                            Ok(self.sum_diagonal(p[0].as_str(), ty.as_str(), e, float, *n))
                        }
                    }
                }
                _ => Err(Halt::IllTyped),
            },
            Builtin::IsSymmetric | Builtin::IsDiag => match t {
                Ty::Matrix(_, n, _) => match n.checked_mul(*n) {
                    None => Err(Halt::IllTyped),
                    Some(_) => match self.test_rows(
                        p[0].as_str(),
                        *n,
                        matches!(b, Builtin::IsDiag),
                    ) {
                        Some(x) => Ok(x),
                        None => Ok("true".to_owned()),
                    },
                },
                _ => Err(Halt::IllTyped),
            },
            Builtin::IsSquare => match t {
                Ty::Matrix(_, r, c) => if *r == *c {
                    Ok("true".to_owned())
                } else {
                    Ok("false".to_owned())
                },
                _ => Err(Halt::IllTyped),
            },
            Builtin::Det => match t {
                Ty::Matrix(_, n, _) => {
                    let d = dec_usize(*n);
                    Ok(
                        self.define(
                            "det_result",
                            cat5("call double @nir_det(ptr ", p[0].as_str(), ", i64 ", d.as_str(), ")"),
                        ),
                    )
                }
                _ => Err(Halt::IllTyped),
            },
            Builtin::Rank => match t {
                Ty::Matrix(_, r, c) => {
                    let rows = dec_usize(*r);
                    let cols = dec_usize(*c);
                    Ok(
                        self.define(
                            "rank_result",
                            cat7("call i64 @nir_rank(ptr ", p[0].as_str(), ", i64 ", rows.as_str(), ", i64 ", cols.as_str(), ")"),
                        ),
                    )
                }
                _ => Err(Halt::IllTyped),
            },
            _ => Err(Halt::IllTyped),
        }
    }

    fn store3(&mut self, dest: &str, v: (String, String, String))
        ensures
            final(self)@ == store3(old(self)@, dest@, v.0@, v.1@, v.2@),
    {
        self.store(dest, "double", &Ty::F64, 0, v.0.as_str());
        self.store(dest, "double", &Ty::F64, 1, v.1.as_str());
        self.store(dest, "double", &Ty::F64, 2, v.2.as_str());
    }

    /// Code for a builtin that converts coordinates.
    fn convert(&mut self, b: Builtin, p: &Vec<String>, dest: &str)
        requires
            p@.len() >= ptr_count(b),
            b == Builtin::LlaToEcef || b == Builtin::EcefToLla || b == Builtin::EcefToEnu || b
                == Builtin::EnuToEcef,
        ensures
            forall|result: STy, t: STy, u: STy| #[trigger]
                agg_builtin(old(self)@, b, result, t, u, lines_view(p@), dest@) == Gen::Made(
                    final(self)@,
                    dest@,
                ),
    {
        proof {
            reveal(agg_builtin);
        }
        let v = match b {
            Builtin::LlaToEcef => {
                let (x, y, z) = self.load3(p[0].as_str());
                self.lla_to_ecef(x.as_str(), y.as_str(), z.as_str())
            }
            Builtin::EcefToLla => {
                let (x, y, z) = self.load3(p[0].as_str());
                self.ecef_to_lla(x.as_str(), y.as_str(), z.as_str())
            }
            Builtin::EcefToEnu => self.ecef_to_enu(p[0].as_str(), p[1].as_str()),
            _ => self.enu_to_ecef(p[0].as_str(), p[1].as_str()),
        };
        self.store3(dest, v);
    }

    /// Code for a builtin that is a call of the runtime.
    fn runtime_call(&mut self, b: Builtin, t: &Ty, u: &Ty, p: &Vec<String>, dest: String) -> (r:
        Result<String, Halt>)
        requires
            p@.len() >= ptr_count(b),
            b == Builtin::Inv || b == Builtin::Solve || b == Builtin::KfUpdateState || b
                == Builtin::KfUpdateCov,
        ensures
            forall|result: STy|
                makes(
                    r,
                    final(self)@,
                    #[trigger] agg_builtin(
                        old(self)@,
                        b,
                        result,
                        t@,
                        u@,
                        lines_view(p@),
                        dest@,
                    ),
                ),
    {
        proof {
            reveal(agg_builtin);
        }
        match b {
            Builtin::Inv => match t {
                Ty::Matrix(_, n, _) => {
                    let d = dec_usize(*n);
                    let ok = self.define(
                        "inv_ok",
                        cat7("call i32 @nir_inv(ptr ", p[0].as_str(), ", i64 ", d.as_str(), ", ptr ", dest.as_str(), ")"),
                    );
                    self.guard_singular(ok.as_str());
                    Ok(dest)
                }
                _ => Err(Halt::IllTyped),
            },
            Builtin::Solve => match t {
                Ty::Matrix(_, n, _) => {
                    let d = dec_usize(*n);
                    let ok = self.define(
                        "solve_ok",
                        cat9("call i32 @nir_solve(ptr ", p[0].as_str(), ", i64 ", d.as_str(), ", ptr ", p[1].as_str(), ", ptr ", dest.as_str(), ")"),
                    );
                    self.guard_singular(ok.as_str());
                    Ok(dest)
                }
                _ => Err(Halt::IllTyped),
            },
            _ => match (t, u) {
                (Ty::Vector(_, n), Ty::Vector(_, m)) => {
                    let func = if matches!(b, Builtin::KfUpdateState) {
                        "@nir_kf_update_state"
                    } else {
                        "@nir_kf_update_cov"
                    };
                    let dn = dec_usize(*n);
                    let dm = dec_usize(*m);
                    let ok = self.define(
                        "kf_update_ok",
                        cat19("call i32 ", func, "(ptr ", p[0].as_str(), ", ptr ", p[1].as_str(), ", ptr ", p[2].as_str(), ", ptr ", p[3].as_str(), ", ptr ", p[4].as_str(), ", i64 ", dn.as_str(), ", i64 ", dm.as_str(), ", ptr ", dest.as_str(), ")"),
                    );
                    self.guard_singular(ok.as_str());
                    Ok(dest)
                }
                _ => Err(Halt::IllTyped),
            },
        }
    }

    /// Code for the prediction step of a Kalman filter.
    fn predict(&mut self, b: Builtin, t: &Ty, p: &Vec<String>, dest: String) -> (r: Result<
        String,
        Halt,
    >)
        requires
            p@.len() >= ptr_count(b),
            b == Builtin::KfPredictState || b == Builtin::KfPredictCov,
        ensures
            forall|result: STy, u: STy|
                makes(
                    r,
                    final(self)@,
                    #[trigger] agg_builtin(
                        old(self)@,
                        b,
                        result,
                        t@,
                        u,
                        lines_view(p@),
                        dest@,
                    ),
                ),
    {
        proof {
            reveal(agg_builtin);
        }
        match t {
            Ty::Vector(_, n) => match n.checked_mul(*n) {
                None => Err(Halt::IllTyped),
                Some(nn) => {
                    if matches!(b, Builtin::KfPredictState) {
                        let v = self.image(p[2].as_str(), p[0].as_str(), *n);
                        self.store_all(dest.as_str(), &v);
                    } else {
                        let fp = self.entries(p[2].as_str(), p[1].as_str(), *n);
                        let fpft = self.turned(&fp, p[2].as_str(), *n);
                        let q = self.load_all(p[3].as_str(), nn);
                        let s = self.add_all(&fpft, &q);
                        self.store_all(dest.as_str(), &s);
                    }
                    Ok(dest)
                }
            },
            _ => Err(Halt::IllTyped),
        }
    }

    /// Code for a builtin that gives a vector or matrix.
    pub fn agg_builtin(
        &mut self,
        b: Builtin,
        result: &Ty,
        t: &Ty,
        u: &Ty,
        p: &Vec<String>,
        dest: String,
    ) -> (r: Result<String, Halt>)
        requires
            p@.len() >= ptr_count(b),
        ensures
            makes(
                r,
                final(self)@,
                agg_builtin(old(self)@, b, result@, t@, u@, lines_view(p@), dest@),
            ),
    {
        proof {
            reveal(agg_builtin);
        }
        match b {
            Builtin::Transpose => match t {
                Ty::Matrix(e, r, c) => {
                    let ty = llvm_ty(e)?;
                    match r.checked_mul(*c) {
                        None => Err(Halt::IllTyped),
                        Some(_) => {
                            self.turn_columns(
                                p[0].as_str(),
                                dest.as_str(),
                                ty.as_str(),
                                e,
                                *r,
                                *c,
                            );
                            Ok(dest)
                        }
                    }
                }
                _ => Err(Halt::IllTyped),
            },
            Builtin::Cross => match shape_of(t) {
                None => Err(Halt::IllTyped),
                Some((e, _, _)) => {
                    let ty = llvm_ty(e)?;
                    let float = matches!(e, Ty::F64);
                    self.cross_product(
                        p[0].as_str(),
                        p[1].as_str(),
                        dest.as_str(),
                        ty.as_str(),
                        e,
                        float,
                    );
                    Ok(dest)
                }
            },
            Builtin::Zeros | Builtin::Ones => match count_of(result) {
                None => Err(Halt::IllTyped),
                Some(n) => {
                    let val = float_text(
                        if matches!(b, Builtin::Zeros) {
                            ZERO_F
                        } else {
                            ONE_F
                        },
                    );
                    self.fill(dest.as_str(), val.as_str(), n);
                    Ok(dest)
                }
            },
            Builtin::Identity => match result {
                Ty::Matrix(_, n, _) => match n.checked_mul(*n) {
                    None => Err(Halt::IllTyped),
                    Some(_) => {
                        self.unit_rows(dest.as_str(), *n);
                        Ok(dest)
                    }
                },
                _ => Err(Halt::IllTyped),
            },
            Builtin::LlaToEcef
            | Builtin::EcefToLla
            | Builtin::EcefToEnu
            | Builtin::EnuToEcef => {
                self.convert(b, p, dest.as_str());
                Ok(dest)
            }
            Builtin::KfPredictState | Builtin::KfPredictCov => self.predict(b, t, p, dest),
            Builtin::Inv
            | Builtin::Solve
            | Builtin::KfUpdateState
            | Builtin::KfUpdateCov => self.runtime_call(b, t, u, p, dest),
            _ => Err(Halt::IllTyped),
        }
    }
}

} // verus!
