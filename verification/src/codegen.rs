//! Code generation: a program as LLVM IR.
use crate::ast::{
    literal, literal_value, BinOp, Block, ElseBranch, Expr, FnDecl, Program, STy, Stmt, Ty, UnOp,
};
use crate::builtins::{builtin_named, Builtin};
use crate::emit::{
    accept, agg_builtin, arith, call_fn, call_into, check_elem, compare_all, compare_strings,
    connect, copy_slot, elem_halt, elementwise, flat_index, ill, invert, listen, multiply, negate,
    new_slot, pointer_count, print_value, ptr_count, read_elem, read_slot, recv, scalar_builtin,
    send, stop, str_literal, write_slot,
};
use crate::ir::{
    Cx, Gen, Halt, Module, SHalt, SLlvm, Text, aggregate, block_bytes, byte_size, bytes_of,
    copy_bytes, define, emit, float_const, float_text, fresh_label, fresh_slot, is_aggregate,
    lines_view, llvm, llvm_ty, made, makes, slot, stored, string_parts, ty_byte_size, unsupported,
};
use crate::layout::{
    FreeMap, Plan, Slot, Slots, SmtReport, array_ty, array_type, check_index, check_range,
    free_all, holds, local_ty_of, names_at, names_on, product_ty, product_type, trailing_ty,
    ty_of,
};
use crate::registry::{
    find_fn, fn_named,
};
use crate::scopes::{
    Scopes, closed, defined, lookup, opened,
};
use crate::shown::{show_span, span_shown};
use crate::support::{
    is_unrolled, unrolled,
};
use crate::text::{cat2, cat3, cat4, cat6, dec, dec_i64, dec_u64, dec_usize};
use crate::token::Span;
use vstd::prelude::*;
use vstd::string::*;

verus! {

/// What stays the same while one function is made.
pub ghost struct G {
    pub p: Program,
    pub report: SmtReport,
    pub free: FreeMap,
    pub ret: STy,
}

/// The labels of an `if` and the slot of its value, with the slot's type.
pub ghost struct IfHead {
    pub other: Text,
    pub merge: Text,
    pub slot: Option<(Text, Text)>,
}

/// Starts an `if` on a condition.
#[verifier::opaque]
pub open spec fn if_open(cx: Cx, cond: Text, t: STy) -> Gen<IfHead> {
    let a = fresh_label(cx, "if_then"@);
    let b = fresh_label(a.0, "if_else"@);
    let m = fresh_label(b.0, "if_merge"@);
    let head = if t == STy::Unit {
        Gen::Made(m.0, IfHead { other: b.1, merge: m.1, slot: None })
    } else {
        match llvm(t) {
            SLlvm::Not(h) => Gen::Halt(h),
            SLlvm::Is(ty) => {
                let p = fresh_slot(m.0, "if_result.addr"@, ty);
                Gen::Made(p.0, IfHead { other: b.1, merge: m.1, slot: Some((p.1, ty)) })
            },
        }
    };
    match head {
        Gen::Halt(h) => Gen::Halt(h),
        Gen::Made(c, h) => {
            let d = emit(c, "  br i1 "@ + cond + ", label %"@ + a.1 + ", label %"@ + b.1);
            Gen::Made(Cx { terminated: false, ..emit(d, a.1 + ":"@) }, h)
        },
    }
}

/// Ends a branch of an `if`, unless it has ended already.
#[verifier::opaque]
pub open spec fn if_join(cx: Cx, h: IfHead, val: Text) -> Cx {
    if cx.terminated {
        cx
    } else {
        let c = match h.slot {
            Some(s) => emit(cx, "  store "@ + s.1 + " "@ + val + ", ptr "@ + s.0),
            None => cx,
        };
        emit(c, "  br label %"@ + h.merge)
    }
}

/// Starts the other branch of an `if`.
#[verifier::opaque]
pub open spec fn if_other(cx: Cx, h: IfHead) -> Cx {
    Cx { terminated: false, ..emit(cx, h.other + ":"@) }
}

/// Ends an `if`; `ended` says whether both branches have ended.
#[verifier::opaque]
pub open spec fn if_close(cx: Cx, h: IfHead, ended: bool) -> (Cx, Text) {
    let c = Cx { terminated: ended, ..emit(cx, h.merge + ":"@) };
    if ended {
        (emit(c, "  unreachable"@), "0"@)
    } else {
        match h.slot {
            Some(s) => define(c, "if_val"@, "load "@ + s.1 + ", ptr "@ + s.0),
            None => (c, "0"@),
        }
    }
}

/// The middle of `&&` or `||`: where the left side decides, it is the value.
#[verifier::opaque]
pub open spec fn logic_left(cx: Cx, op: BinOp, l: Text, ptr: Text) -> (Cx, Text) {
    let r = fresh_label(cx, "logic_rhs"@);
    let s = fresh_label(r.0, "logic_short"@);
    let m = fresh_label(s.0, "logic_merge"@);
    let b = if op == BinOp::And {
        emit(m.0, "  br i1 "@ + l + ", label %"@ + r.1 + ", label %"@ + s.1)
    } else {
        emit(m.0, "  br i1 "@ + l + ", label %"@ + s.1 + ", label %"@ + r.1)
    };
    let c = emit(b, s.1 + ":"@);
    let d = emit(c, "  store i1 "@ + l + ", ptr "@ + ptr);
    let e = emit(d, "  br label %"@ + m.1);
    (emit(e, r.1 + ":"@), m.1)
}

#[verifier::opaque]
pub open spec fn logic_right(cx: Cx, r: Text, ptr: Text, merge: Text) -> (Cx, Text) {
    let c = emit(cx, "  store i1 "@ + r + ", ptr "@ + ptr);
    let d = emit(c, "  br label %"@ + merge);
    let e = emit(d, merge + ":"@);
    define(e, "logic_val"@, "load i1, ptr "@ + ptr)
}

/// Starts a loop: the labels of its condition, its body and what follows it.
#[verifier::opaque]
pub open spec fn while_open(cx: Cx) -> (Cx, (Text, Text, Text)) {
    let a = fresh_label(cx, "while_cond"@);
    let b = fresh_label(a.0, "while_body"@);
    let c = fresh_label(b.0, "while_after"@);
    let d = emit(c.0, "  br label %"@ + a.1);
    (Cx { terminated: false, ..emit(d, a.1 + ":"@) }, (a.1, b.1, c.1))
}

/// Starts the body of a loop.
#[verifier::opaque]
pub open spec fn while_body(cx: Cx, cond: Text, l: (Text, Text, Text)) -> Cx {
    let c = emit(cx, "  br i1 "@ + cond + ", label %"@ + l.1 + ", label %"@ + l.2);
    Cx { terminated: false, ..emit(c, l.1 + ":"@) }
}

/// Ends a loop.
#[verifier::opaque]
pub open spec fn while_close(cx: Cx, l: (Text, Text, Text)) -> Cx {
    let c = if cx.terminated {
        cx
    } else {
        emit(cx, "  br label %"@ + l.0)
    };
    Cx { terminated: false, ..emit(c, l.2 + ":"@) }
}

/// Frees boxes at the end of a block, unless it has ended already.
#[verifier::opaque]
pub open spec fn free_open(cx: Cx, names: Seq<String>, sc: Slots) -> Cx {
    if cx.terminated {
        cx
    } else {
        free_all(cx, names, sc)
    }
}

/// How a position is shown.
pub open spec fn no<T>(message: Text) -> Gen<T> {
    Gen::Halt(SHalt::Unsupported(message))
}

/// The types of a function's parameters.
pub open spec fn param_tys(f: FnDecl) -> Seq<STy> {
    Seq::new(f.params@.len(), |i: int| f.params@[i].ty@)
}

pub open spec fn fewer(a: nat, b: nat) -> nat {
    if a <= b {
        a
    } else {
        b
    }
}

/// Whether a builtin's code is made where a scalar is wanted.
pub open spec fn makes_scalar(b: Builtin) -> bool {
    unrolled(b) || b == Builtin::Det || b == Builtin::Rank
}

/// Whether a builtin's code is made where a vector or matrix is wanted.
pub open spec fn makes_aggregate(b: Builtin) -> bool {
    unrolled(b) || b == Builtin::Inv || b == Builtin::Solve || b == Builtin::KfUpdateState || b
        == Builtin::KfUpdateCov
}

/// The type of argument `i`.
pub open spec fn arg_ty(p: Program, v: Seq<Expr>, i: int, sc: Slots) -> STy {
    if i < v.len() {
        ty_of(p, v[i], sc)
    } else {
        STy::Error
    }
}

/// Code for a scalar expression: the register or constant that holds it.
pub open spec fn expr(g: G, cx: Cx, sc: Slots, e: Expr) -> Gen<Text>
    decreases e, 0nat,
{
    match e {
        Expr::Int(n, _) => Gen::Made(cx, dec(n as int)),
        Expr::Bool(b, _) => Gen::Made(
            cx,
            if b {
                "true"@
            } else {
                "false"@
            },
        ),
        Expr::Float(f, _) => Gen::Made(cx, float_const(f.bits)),
        Expr::Str(s, _) => str_literal(cx, s@),
        Expr::Ident(name, _) => match lookup(sc, name@) {
            None => ill(),
            Some(s) => if aggregate(s.0) {
                no(
                    "codegen doesn't support using `"@ + name@ + "` (a Vector/Matrix) in this expression position yet — bind it via `let`, or pass/return it through a function call"@,
                )
            } else {
                read_slot(cx, name@ + ".val"@, s.0, s.1)
            },
        },
        Expr::Unary(op, a, _) => match expr(g, cx, sc, *a) {
            Gen::Halt(h) => Gen::Halt(h),
            Gen::Made(c, v) => match op {
                UnOp::Neg => made(negate(c, v, ty_of(g.p, *a, sc) == STy::F64)),
                UnOp::Not => made(invert(c, v)),
            },
        },
        Expr::Binary(op, l, r, span) => if op == BinOp::And || op == BinOp::Or {
            let s = fresh_slot(cx, "logic_result.addr"@, "i1"@);
            match expr(g, s.0, sc, *l) {
                Gen::Halt(h) => Gen::Halt(h),
                Gen::Made(c, a) => {
                    let m = logic_left(c, op, a, s.1);
                    match expr(g, m.0, sc, *r) {
                        Gen::Halt(h) => Gen::Halt(h),
                        Gen::Made(d, b) => made(logic_right(d, b, s.1, m.1)),
                    }
                },
            }
        } else {
            let t = ty_of(g.p, *l, sc);
            let equality = op == BinOp::Eq || op == BinOp::NotEq;
            if equality && aggregate(t) {
                match ptr(g, cx, sc, *l) {
                    Gen::Halt(h) => Gen::Halt(h),
                    Gen::Made(c, a) => match ptr(g, c, sc, *r) {
                        Gen::Halt(h) => Gen::Halt(h),
                        Gen::Made(d, b) => compare_all(d, op, a, b, t),
                    },
                }
            } else {
                match expr(g, cx, sc, *l) {
                    Gen::Halt(h) => Gen::Halt(h),
                    Gen::Made(c, a) => match expr(g, c, sc, *r) {
                        Gen::Halt(h) => Gen::Halt(h),
                        Gen::Made(d, b) => if equality && t == STy::Str {
                            made(compare_strings(d, op, a, b))
                        } else {
                            arith(
                                d,
                                op,
                                a,
                                b,
                                t,
                                g.report.proven_nonzero_divisor@.contains(span),
                            )
                        },
                    },
                }
            }
        },
        Expr::Call(name, args, _) => match builtin_named(name@) {
            Some(Builtin::Print) => match prints(g, cx, sc, args@, args@.len()) {
                Gen::Halt(h) => Gen::Halt(h),
                Gen::Made(c, _) => Gen::Made(c, "0"@),
            },
            Some(b) => if makes_scalar(b) {
                let t = arg_ty(g.p, args@, 0, sc);
                match elem_halt(b, t) {
                    Some(h) => Gen::Halt(h),
                    None => match ptrs(g, cx, sc, args@, ptr_count(b)) {
                        Gen::Halt(h) => Gen::Halt(h),
                        Gen::Made(c, p) => scalar_builtin(c, b, t, p),
                    },
                }
            } else {
                match fn_named(g.p, name@) {
                    None => ill(),
                    Some(i) => plain_call(g, cx, sc, name@, i, args@),
                }
            },
            None => match fn_named(g.p, name@) {
                None => ill(),
                Some(i) => plain_call(g, cx, sc, name@, i, args@),
            },
        },
        Expr::If { cond, then_block, else_block, span } => match expr(g, cx, sc, *cond) {
            Gen::Halt(h) => Gen::Halt(h),
            Gen::Made(c0, v) => match if_open(c0, v, trailing_ty(g.p, then_block.stmts@, sc)) {
                Gen::Halt(h) => Gen::Halt(h),
                Gen::Made(c1, head) => match branch(
                    g,
                    c1,
                    sc,
                    then_block.stmts@,
                    names_on(g.free.at_if_branch_end@, span, true, 0),
                ) {
                    Gen::Halt(h) => Gen::Halt(h),
                    Gen::Made(c2, a) => {
                        let c3 = if_join(c2, head, a);
                        let c4 = if_other(c3, head);
                        let other = match else_block {
                            Some(b) => match *b {
                                ElseBranch::Block(x) => branch(
                                    g,
                                    c4,
                                    sc,
                                    x.stmts@,
                                    names_on(g.free.at_if_branch_end@, span, false, 0),
                                ),
                                ElseBranch::If(x) => expr(g, c4, sc, x),
                            },
                            None => Gen::Made(c4, "0"@),
                        };
                        match other {
                            Gen::Halt(h) => Gen::Halt(h),
                            Gen::Made(c5, b) => {
                                let c6 = if_join(c5, head, b);
                                made(if_close(c6, head, c2.terminated && c5.terminated))
                            },
                        }
                    },
                },
            },
        },
        Expr::Assign(name, a, span) => match lookup(sc, name@) {
            None => ill(),
            Some(s) => if aggregate(s.0) {
                no(
                    "codegen doesn't support assigning to `"@ + name@ + "` (a Vector/Matrix) in this expression position yet"@,
                )
            } else {
                match expr(g, cx, sc, *a) {
                    Gen::Halt(h) => Gen::Halt(h),
                    Gen::Made(c, v) => match write_slot(
                        check_range(g.report, c, v, s.0, span),
                        v,
                        s.0,
                        s.1,
                    ) {
                        Gen::Halt(h) => Gen::Halt(h),
                        Gen::Made(d, _) => Gen::Made(d, v),
                    },
                }
            },
        },
        Expr::Box(a, _) => {
            let t = ty_of(g.p, *a, sc);
            match byte_size(t) {
                None => ill(),
                Some(n) => {
                    let heap = define(
                        cx,
                        "box_heap"@,
                        "call ptr @nir_alloc(i64 "@ + dec(n as int) + ")"@,
                    );
                    if aggregate(t) {
                        match ptr(g, heap.0, sc, *a) {
                            Gen::Halt(h) => Gen::Halt(h),
                            Gen::Made(c, src) => Gen::Made(
                                copy_bytes(c, heap.1, src, n),
                                heap.1,
                            ),
                        }
                    } else {
                        match expr(g, heap.0, sc, *a) {
                            Gen::Halt(h) => Gen::Halt(h),
                            Gen::Made(c, v) => match write_slot(c, v, t, heap.1) {
                                Gen::Halt(h) => Gen::Halt(h),
                                Gen::Made(d, _) => Gen::Made(d, heap.1),
                            },
                        }
                    }
                },
            }
        },
        Expr::Ref(a, _) => match *a {
            Expr::Ident(name, _) => match lookup(sc, name@) {
                None => ill(),
                Some(s) => Gen::Made(cx, s.1),
            },
            _ => ill(),
        },
        Expr::Deref(a, span) => match expr(g, cx, sc, *a) {
            Gen::Halt(h) => Gen::Halt(h),
            Gen::Made(c, v) => {
                let t = ty_of(g.p, e, sc);
                if aggregate(t) {
                    no(
                        "an aggregate-typed `*` result at "@ + span_shown(span) + " needs `expr_ptr()`'s pointer-returning path, not `expr()` — this indicates a caller bug, not a language-level limitation"@,
                    )
                } else {
                    read_slot(c, "deref_val"@, t, v)
                }
            },
        },
        Expr::Connect(a, b, _) => match expr(g, cx, sc, *a) {
            Gen::Halt(h) => Gen::Halt(h),
            Gen::Made(c, v) => {
                let s = string_parts(c, v, "str_ptr"@, "str_len"@);
                match expr(g, s.0, sc, *b) {
                    Gen::Halt(h) => Gen::Halt(h),
                    Gen::Made(d, port) => made(connect(d, s.1.0, s.1.1, port)),
                }
            },
        },
        Expr::Listen(a, _) => match expr(g, cx, sc, *a) {
            Gen::Halt(h) => Gen::Halt(h),
            Gen::Made(c, v) => made(listen(c, v)),
        },
        Expr::Accept(a, _) => match expr(g, cx, sc, *a) {
            Gen::Halt(h) => Gen::Halt(h),
            Gen::Made(c, v) => made(accept(c, v)),
        },
        Expr::Send(a, b, _) => match ty_of(g.p, *a, sc) {
            STy::Tcp => match expr(g, cx, sc, *a) {
                Gen::Halt(h) => Gen::Halt(h),
                Gen::Made(c, fd) => match expr(g, c, sc, *b) {
                    Gen::Halt(h) => Gen::Halt(h),
                    Gen::Made(d, v) => {
                        let s = string_parts(d, v, "str_ptr"@, "str_len"@);
                        made(send(s.0, fd, s.1.0, s.1.1))
                    },
                },
            },
            STy::Channel(_) => no(
                "codegen doesn't support `chan` yet — interpreter-only for now"@,
            ),
            _ => ill(),
        },
        Expr::Recv(a, _) => match ty_of(g.p, *a, sc) {
            STy::Tcp => match expr(g, cx, sc, *a) {
                Gen::Halt(h) => Gen::Halt(h),
                Gen::Made(c, fd) => made(recv(c, fd)),
            },
            STy::Channel(_) => no(
                "codegen doesn't support `chan` yet — interpreter-only for now"@,
            ),
            _ => ill(),
        },
        Expr::StopSandbox(a, _) => match ty_of(g.p, *a, sc) {
            STy::Tcp | STy::TcpListener => match expr(g, cx, sc, *a) {
                Gen::Halt(h) => Gen::Halt(h),
                Gen::Made(c, fd) => made(stop(c, fd)),
            },
            STy::Sandbox => no(
                "codegen doesn't support `sandbox` yet — interpreter-only for now"@,
            ),
            _ => ill(),
        },
        Expr::Index(a, ix, span) => match ptr(g, cx, sc, *a) {
            Gen::Halt(h) => Gen::Halt(h),
            Gen::Made(c, base) => match ty_of(g.p, *a, sc) {
                STy::Vector(elem, n) => if ix@.len() < 1 {
                    ill()
                } else {
                    match expr(g, c, sc, ix@[0]) {
                        Gen::Halt(h) => Gen::Halt(h),
                        Gen::Made(d, i) => read_elem(
                            check_index(g.report, d, i, n as nat, span),
                            base,
                            i,
                            *elem,
                        ),
                    }
                },
                STy::Matrix(elem, rows, cols) => if ix@.len() < 2 {
                    ill()
                } else {
                    match expr(g, c, sc, ix@[0]) {
                        Gen::Halt(h) => Gen::Halt(h),
                        Gen::Made(d, i) => match expr(
                            g,
                            check_index(g.report, d, i, rows as nat, span),
                            sc,
                            ix@[1],
                        ) {
                            Gen::Halt(h) => Gen::Halt(h),
                            Gen::Made(f, j) => {
                                let flat = flat_index(
                                    check_index(g.report, f, j, cols as nat, span),
                                    i,
                                    j,
                                    cols as nat,
                                );
                                read_elem(flat.0, base, flat.1, *elem)
                            },
                        },
                    }
                },
                _ => ill(),
            },
        },
        Expr::ArrayLit(..) => no(
            "codegen doesn't support a Vector/Matrix literal in this expression position yet — bind it via `let`, or pass/return it through a function call"@,
        ),
        _ => ill(),
    }
}

/// A call of a function that returns a scalar.
pub open spec fn plain_call(g: G, cx: Cx, sc: Slots, name: Text, i: int, v: Seq<Expr>) -> Gen<Text>
    decreases v, v.len() + 1,
{
    let f = g.p.fns@[i];
    if aggregate(f.ret@) {
        no(
            "codegen doesn't support calling `"@ + name + "` (which returns a Vector/Matrix) in this expression position yet"@,
        )
    } else {
        match args(g, cx, sc, v, param_tys(f), fewer(v.len(), f.params@.len())) {
            Gen::Halt(h) => Gen::Halt(h),
            Gen::Made(c, a) => call_fn(c, name, f.ret@, a),
        }
    }
}

/// Prints the first `n` arguments.
pub open spec fn prints(g: G, cx: Cx, sc: Slots, v: Seq<Expr>, n: nat) -> Gen<()>
    decreases v, n,
{
    if n == 0 || n > v.len() {
        Gen::Made(cx, ())
    } else {
        match prints(g, cx, sc, v, (n - 1) as nat) {
            Gen::Halt(h) => Gen::Halt(h),
            Gen::Made(c, _) => {
                let t = ty_of(g.p, v[n - 1], sc);
                if aggregate(t) {
                    no(
                        "codegen doesn't support `print` on a Vector/Matrix argument yet — only integer/f64-typed arguments are supported so far"@,
                    )
                } else {
                    match expr(g, c, sc, v[n - 1]) {
                        Gen::Halt(h) => Gen::Halt(h),
                        Gen::Made(d, x) => Gen::Made(print_value(d, x, t), ()),
                    }
                }
            },
        }
    }
}

/// The addresses of the first `n` arguments.
pub open spec fn ptrs(g: G, cx: Cx, sc: Slots, v: Seq<Expr>, n: nat) -> Gen<Seq<Text>>
    decreases v, n,
{
    if n == 0 {
        Gen::Made(cx, Seq::empty())
    } else if n > v.len() {
        ill()
    } else {
        match ptrs(g, cx, sc, v, (n - 1) as nat) {
            Gen::Halt(h) => Gen::Halt(h),
            Gen::Made(c, done) => match ptr(g, c, sc, v[n - 1]) {
                Gen::Halt(h) => Gen::Halt(h),
                Gen::Made(d, p) => Gen::Made(d, done.push(p)),
            },
        }
    }
}

/// One argument of a call, with its type.
pub open spec fn one_arg(g: G, cx: Cx, sc: Slots, a: Expr, t: STy) -> Gen<Text>
    decreases a, 1nat,
{
    if aggregate(t) {
        match ptr(g, cx, sc, a) {
            Gen::Halt(h) => Gen::Halt(h),
            Gen::Made(d, p) => Gen::Made(d, "ptr "@ + p),
        }
    } else {
        match llvm(t) {
            SLlvm::Not(h) => Gen::Halt(h),
            SLlvm::Is(ty) => match literal(a) {
                Some(k) => Gen::Made(cx, ty + " "@ + dec(k as int)),
                None => match expr(g, cx, sc, a) {
                    Gen::Halt(h) => Gen::Halt(h),
                    Gen::Made(d, x) => match stored(d, x, t) {
                        Gen::Halt(h) => Gen::Halt(h),
                        Gen::Made(f, y) => Gen::Made(f, ty + " "@ + y),
                    },
                },
            },
        }
    }
}

/// The first `n` arguments of a call, each with its type.
pub open spec fn args(g: G, cx: Cx, sc: Slots, v: Seq<Expr>, tys: Seq<STy>, n: nat) -> Gen<Seq<Text>>
    decreases v, n,
{
    if n == 0 || n > v.len() {
        Gen::Made(cx, Seq::empty())
    } else {
        match args(g, cx, sc, v, tys, (n - 1) as nat) {
            Gen::Halt(h) => Gen::Halt(h),
            Gen::Made(c, done) => match one_arg(g, c, sc, v[n - 1], tys[n - 1]) {
                Gen::Halt(h) => Gen::Halt(h),
                Gen::Made(d, x) => Gen::Made(d, done.push(x)),
            },
        }
    }
}

/// Code for a vector or matrix: the address of where it is.
pub open spec fn ptr(g: G, cx: Cx, sc: Slots, e: Expr) -> Gen<Text>
    decreases e, 0nat,
{
    match e {
        Expr::Ident(name, _) => match lookup(sc, name@) {
            None => ill(),
            Some(s) => Gen::Made(cx, s.1),
        },
        Expr::ArrayLit(v, _) => array(g, cx, sc, v@),
        Expr::Call(name, v, _) => match builtin_named(name@) {
            Some(b) => if makes_aggregate(b) {
                let result = ty_of(g.p, e, sc);
                let t = arg_ty(g.p, v@, 0, sc);
                let u = arg_ty(g.p, v@, 2, sc);
                match llvm(result) {
                    SLlvm::Not(h) => Gen::Halt(h),
                    SLlvm::Is(ty) => {
                        let d = fresh_slot(cx, "builtin_result.addr"@, ty);
                        match elem_halt(b, t) {
                            Some(h) => Gen::Halt(h),
                            None => match ptrs(g, d.0, sc, v@, ptr_count(b)) {
                                Gen::Halt(h) => Gen::Halt(h),
                                Gen::Made(c, p) => agg_builtin(c, b, result, t, u, p, d.1),
                            },
                        }
                    },
                }
            } else {
                match fn_named(g.p, name@) {
                    None => ill(),
                    Some(i) => into_call(g, cx, sc, name@, i, v@),
                }
            },
            None => match fn_named(g.p, name@) {
                None => ill(),
                Some(i) => into_call(g, cx, sc, name@, i, v@),
            },
        },
        Expr::Assign(name, a, _) => match ptr(g, cx, sc, *a) {
            Gen::Halt(h) => Gen::Halt(h),
            Gen::Made(c, src) => match lookup(sc, name@) {
                None => ill(),
                Some(s) => match byte_size(s.0) {
                    None => ill(),
                    Some(n) => Gen::Made(copy_bytes(c, s.1, src, n), s.1),
                },
            },
        },
        Expr::Binary(op, l, r, span) => match op {
            BinOp::Add | BinOp::Sub | BinOp::ElemMul | BinOp::ElemDiv => {
                let t = ty_of(g.p, *l, sc);
                match llvm(t) {
                    SLlvm::Not(h) => Gen::Halt(h),
                    SLlvm::Is(ty) => {
                        let d = fresh_slot(cx, "agg_elemwise.addr"@, ty);
                        match ptr(g, d.0, sc, *l) {
                            Gen::Halt(h) => Gen::Halt(h),
                            Gen::Made(c, a) => match ptr(g, c, sc, *r) {
                                Gen::Halt(h) => Gen::Halt(h),
                                Gen::Made(f, b) => elementwise(
                                    f,
                                    op,
                                    a,
                                    b,
                                    d.1,
                                    t,
                                    g.report.proven_nonzero_divisor@.contains(span),
                                ),
                            },
                        }
                    },
                }
            },
            BinOp::Mul => {
                let lt = ty_of(g.p, *l, sc);
                let rt = ty_of(g.p, *r, sc);
                match llvm(product_ty(lt, rt)) {
                    SLlvm::Not(h) => Gen::Halt(h),
                    SLlvm::Is(ty) => {
                        let d = fresh_slot(cx, "agg_mul.addr"@, ty);
                        let first = if aggregate(lt) {
                            ptr(g, d.0, sc, *l)
                        } else {
                            expr(g, d.0, sc, *l)
                        };
                        match first {
                            Gen::Halt(h) => Gen::Halt(h),
                            Gen::Made(c, a) => {
                                let second = if aggregate(rt) {
                                    ptr(g, c, sc, *r)
                                } else {
                                    expr(g, c, sc, *r)
                                };
                                match second {
                                    Gen::Halt(h) => Gen::Halt(h),
                                    Gen::Made(f, b) => multiply(f, lt, rt, a, b, d.1),
                                }
                            },
                        }
                    },
                }
            },
            _ => ill(),
        },
        Expr::Deref(a, _) => expr(g, cx, sc, *a),
        _ => no(
            "codegen doesn't support this Vector/Matrix expression form yet — only identifiers, literals, assignment, binary operators, dereferencing a boxed/borrowed aggregate, and function calls/returns are supported so far (indexing reads a scalar element via `expr()`, and builtins land in a later phase)"@,
        ),
    }
}

/// A call of a function that returns a vector or matrix.
pub open spec fn into_call(g: G, cx: Cx, sc: Slots, name: Text, i: int, v: Seq<Expr>) -> Gen<Text>
    decreases v, v.len() + 1,
{
    let f = g.p.fns@[i];
    match args(g, cx, sc, v, param_tys(f), fewer(v.len(), f.params@.len())) {
        Gen::Halt(h) => Gen::Halt(h),
        Gen::Made(c, a) => call_into(c, name, f.ret@, a),
    }
}

/// An array literal in a new slot.
pub open spec fn array(g: G, cx: Cx, sc: Slots, v: Seq<Expr>) -> Gen<Text>
    decreases v, v.len() + 1,
{
    if v.len() == 0 {
        ill()
    } else {
        let t = array_ty(ty_of(g.p, v[0], sc), v.len());
        match llvm(t) {
            SLlvm::Not(h) => Gen::Halt(h),
            SLlvm::Is(ty) => {
                let d = fresh_slot(cx, "arraylit.addr"@, ty);
                match t {
                    STy::Vector(elem, _) => match llvm(*elem) {
                        SLlvm::Not(h) => Gen::Halt(h),
                        SLlvm::Is(ety) => match elems(g, d.0, sc, v, *elem, ty, ety, d.1, v.len()) {
                            Gen::Halt(h) => Gen::Halt(h),
                            Gen::Made(c, _) => Gen::Made(c, d.1),
                        },
                    },
                    STy::Matrix(elem, _, cols) => match bytes_of(cols as nat, *elem) {
                        None => ill(),
                        Some(n) => match rows(g, d.0, sc, v, ty, d.1, cols as nat, n, v.len()) {
                            Gen::Halt(h) => Gen::Halt(h),
                            Gen::Made(c, _) => Gen::Made(c, d.1),
                        },
                    },
                    _ => ill(),
                }
            },
        }
    }
}

/// The address of an element of a literal.
#[verifier::opaque]
pub open spec fn literal_place(cx: Cx, prefix: Text, ty: Text, dest: Text, i: nat) -> (Cx, Text) {
    define(cx, prefix, "getelementptr "@ + ty + ", ptr "@ + dest + ", i64 0, i64 "@ + dec(i as int))
}

#[verifier::opaque]
pub open spec fn literal_store(cx: Cx, ty: Text, ety: Text, dest: Text, i: nat, v: Text) -> Cx {
    let p = literal_place(cx, "arraylit.elem"@, ty, dest, i);
    emit(p.0, "  store "@ + ety + " "@ + v + ", ptr "@ + p.1)
}

/// Stores the first `n` elements of a literal.
pub open spec fn elems(
    g: G,
    cx: Cx,
    sc: Slots,
    v: Seq<Expr>,
    elem: STy,
    ty: Text,
    ety: Text,
    dest: Text,
    n: nat,
) -> Gen<()>
    decreases v, n,
{
    if n == 0 || n > v.len() {
        Gen::Made(cx, ())
    } else {
        match elems(g, cx, sc, v, elem, ty, ety, dest, (n - 1) as nat) {
            Gen::Halt(h) => Gen::Halt(h),
            Gen::Made(c, _) => match expr(g, c, sc, v[n - 1]) {
                Gen::Halt(h) => Gen::Halt(h),
                Gen::Made(d, x) => match stored(d, x, elem) {
                    Gen::Halt(h) => Gen::Halt(h),
                    Gen::Made(f, y) => Gen::Made(
                        literal_store(f, ty, ety, dest, (n - 1) as nat, y),
                        (),
                    ),
                },
            },
        }
    }
}

/// Copies the first `n` rows of a literal.
pub open spec fn rows(
    g: G,
    cx: Cx,
    sc: Slots,
    v: Seq<Expr>,
    ty: Text,
    dest: Text,
    cols: nat,
    bytes: nat,
    n: nat,
) -> Gen<()>
    decreases v, n,
{
    if n == 0 || n > v.len() {
        Gen::Made(cx, ())
    } else {
        match rows(g, cx, sc, v, ty, dest, cols, bytes, (n - 1) as nat) {
            Gen::Halt(h) => Gen::Halt(h),
            Gen::Made(c, _) => match ptr(g, c, sc, v[n - 1]) {
                Gen::Halt(h) => Gen::Halt(h),
                Gen::Made(d, src) => {
                    let p = literal_place(d, "arraylit.row"@, ty, dest, ((n - 1) * cols) as nat);
                    Gen::Made(copy_bytes(p.0, p.1, src, bytes), ())
                },
            },
        }
    }
}

/// Code for the first `n` statements: the slots behind them. What follows the
/// end of the block has no code.
pub open spec fn stmts(g: G, cx: Cx, sc: Slots, v: Seq<Stmt>, n: nat) -> Gen<Slots>
    decreases v, n,
{
    if n == 0 || n > v.len() {
        Gen::Made(cx, sc)
    } else {
        match stmts(g, cx, sc, v, (n - 1) as nat) {
            Gen::Halt(h) => Gen::Halt(h),
            Gen::Made(c, s) => if c.terminated {
                Gen::Made(c, s)
            } else {
                stmt(g, c, s, v[n - 1])
            },
        }
    }
}

/// Code for a statement: the slots behind it.
pub open spec fn stmt(g: G, cx: Cx, sc: Slots, s: Stmt) -> Gen<Slots>
    decreases s, 0nat,
{
    match s {
        Stmt::Let { name, ty, value, span } => if aggregate(ty@) {
            match ptr(g, cx, sc, value) {
                Gen::Halt(h) => Gen::Halt(h),
                Gen::Made(c, src) => match copy_slot(c, name@ + ".addr"@, ty@, src) {
                    Gen::Halt(h) => Gen::Halt(h),
                    Gen::Made(d, p) => Gen::Made(d, defined(sc, name@, (ty@, p))),
                },
            }
        } else {
            match expr(g, cx, sc, value) {
                Gen::Halt(h) => Gen::Halt(h),
                Gen::Made(c, v) => match new_slot(
                    check_range(g.report, c, v, ty@, span),
                    name@ + ".addr"@,
                    v,
                    ty@,
                ) {
                    Gen::Halt(h) => Gen::Halt(h),
                    Gen::Made(d, p) => Gen::Made(d, defined(sc, name@, (ty@, p))),
                },
            }
        },
        Stmt::Return { value, span } => {
            let names = names_at(g.free.at_return@, span, 0);
            match value {
                Some(e) => if aggregate(g.ret) {
                    match ptr(g, cx, sc, e) {
                        Gen::Halt(h) => Gen::Halt(h),
                        Gen::Made(c, src) => match byte_size(g.ret) {
                            None => ill(),
                            Some(n) => {
                                let d = copy_bytes(c, "%sret.ret"@, src, n);
                                let f = emit(free_all(d, names, sc), "  ret void"@);
                                Gen::Made(Cx { terminated: true, ..f }, sc)
                            },
                        },
                    }
                } else {
                    match expr(g, cx, sc, e) {
                        Gen::Halt(h) => Gen::Halt(h),
                        Gen::Made(c, v) => match stored(
                            check_range(g.report, c, v, g.ret, span),
                            v,
                            g.ret,
                        ) {
                            Gen::Halt(h) => Gen::Halt(h),
                            Gen::Made(d, x) => match llvm(g.ret) {
                                SLlvm::Not(h) => Gen::Halt(h),
                                SLlvm::Is(ty) => {
                                    let f = emit(free_all(d, names, sc), "  ret "@ + ty + " "@ + x);
                                    Gen::Made(Cx { terminated: true, ..f }, sc)
                                },
                            },
                        },
                    }
                },
                None => {
                    let f = emit(free_all(cx, names, sc), "  ret void"@);
                    Gen::Made(Cx { terminated: true, ..f }, sc)
                },
            }
        },
        Stmt::While { cond, body, span } => {
            let w = while_open(cx);
            match expr(g, w.0, sc, cond) {
                Gen::Halt(h) => Gen::Halt(h),
                Gen::Made(c, v) => match stmts(
                    g,
                    while_body(c, v, w.1),
                    opened(sc),
                    body.stmts@,
                    body.stmts@.len(),
                ) {
                    Gen::Halt(h) => Gen::Halt(h),
                    Gen::Made(d, inner) => {
                        let names = names_at(g.free.at_while_end@, span, 0);
                        Gen::Made(while_close(free_open(d, names, inner), w.1), sc)
                    },
                },
            }
        },
        Stmt::Expr(e) => {
            let r = if aggregate(ty_of(g.p, e, sc)) {
                ptr(g, cx, sc, e)
            } else {
                expr(g, cx, sc, e)
            };
            match r {
                Gen::Halt(h) => Gen::Halt(h),
                Gen::Made(c, _) => Gen::Made(c, sc),
            }
        },
        Stmt::Audited { body, span, .. } => match stmts(
            g,
            Cx { audited: true, ..cx },
            opened(sc),
            body@,
            body@.len(),
        ) {
            Gen::Halt(h) => Gen::Halt(h),
            Gen::Made(c, inner) => {
                let names = names_at(g.free.at_audited_end@, span, 0);
                Gen::Made(Cx { audited: cx.audited, ..free_open(c, names, inner) }, sc)
            },
        },
    }
}

/// Code for a block in a scope of its own: the value of its last expression.
pub open spec fn branch(g: G, cx: Cx, sc: Slots, v: Seq<Stmt>, names: Seq<String>) -> Gen<Text>
    decreases v, v.len() + 1,
{
    if v.len() == 0 {
        Gen::Made(free_open(cx, names, opened(sc)), "0"@)
    } else {
        match stmts(g, cx, opened(sc), v, (v.len() - 1) as nat) {
            Gen::Halt(h) => Gen::Halt(h),
            Gen::Made(c, s) => if c.terminated {
                Gen::Made(c, "0"@)
            } else {
                match v[v.len() - 1] {
                    Stmt::Expr(e) => match expr(g, c, s, e) {
                        Gen::Halt(h) => Gen::Halt(h),
                        Gen::Made(d, x) => Gen::Made(free_open(d, names, s), x),
                    },
                    last => match stmt(g, c, s, last) {
                        Gen::Halt(h) => Gen::Halt(h),
                        Gen::Made(d, t) => Gen::Made(free_open(d, names, t), "0"@),
                    },
                }
            },
        }
    }
}

/// Makes the code of one function after another.
pub struct Codegen<'a> {
    pub plan: Plan<'a>,
    pub m: Module,
}

/// `r` is what `g` says, and `m` is the module behind it, with lists by view.
pub open spec fn makes_list(r: Result<Vec<String>, Halt>, m: Cx, g: Gen<Seq<Text>>) -> bool {
    match r {
        Ok(v) => g == Gen::Made(m, lines_view(v@)),
        Err(h) => g == Gen::<Seq<Text>>::Halt(h@),
    }
}

/// `r` is what `g` says, with the module and the slots behind it.
pub open spec fn makes_slots(r: Result<(), Halt>, m: Cx, sc: Slots, g: Gen<Slots>) -> bool {
    match r {
        Ok(_) => g == Gen::Made(m, sc),
        Err(h) => g == Gen::<Slots>::Halt(h@),
    }
}

/// The labels of an `if` and the slot of its value, with the slot's type.
struct IfParts {
    other: String,
    merge: String,
    slot: Option<(String, String)>,
}

impl View for IfParts {
    type V = IfHead;

    closed spec fn view(&self) -> IfHead {
        IfHead {
            other: self.other@,
            merge: self.merge@,
            slot: match self.slot {
                Some(s) => Some((s.0@, s.1@)),
                None => None,
            },
        }
    }
}

impl Module {
    fn if_open(&mut self, cond: &str, t: &Ty) -> (r: Result<IfParts, Halt>)
        ensures
            makes(r, final(self)@, if_open(old(self)@, cond@, t@)),
    {
        proof {
            reveal(if_open);
        }
        let a = self.fresh_label("if_then");
        let b = self.fresh_label("if_else");
        let m = self.fresh_label("if_merge");
        let slot = if matches!(t, Ty::Unit) {
            None
        } else {
            let ty = llvm_ty(t)?;
            let p = self.fresh_slot("if_result.addr", ty.as_str());
            Some((p, ty))
        };
        self.emit(cat6("  br i1 ", cond, ", label %", a.as_str(), ", label %", b.as_str()));
        self.emit(cat2(a.as_str(), ":"));
        self.terminated = false;
        Ok(IfParts { other: b, merge: m, slot })
    }

    fn if_join(&mut self, h: &IfParts, val: &str)
        ensures
            final(self)@ == if_join(old(self)@, h@, val@),
    {
        proof {
            reveal(if_join);
        }
        if !self.terminated {
            match &h.slot {
                Some((p, ty)) => {
                    self.emit(cat6("  store ", ty.as_str(), " ", val, ", ptr ", p.as_str()));
                }
                None => {}
            }
            self.emit(cat2("  br label %", h.merge.as_str()));
        }
    }

    fn if_other(&mut self, h: &IfParts)
        ensures
            final(self)@ == if_other(old(self)@, h@),
    {
        proof {
            reveal(if_other);
        }
        self.emit(cat2(h.other.as_str(), ":"));
        self.terminated = false;
    }

    fn if_close(&mut self, h: &IfParts, ended: bool) -> (r: String)
        ensures
            (final(self)@, r@) == if_close(old(self)@, h@, ended),
    {
        proof {
            reveal(if_close);
        }
        self.emit(cat2(h.merge.as_str(), ":"));
        self.terminated = ended;
        if ended {
            self.emit("  unreachable".to_owned());
            return "0".to_owned();
        }
        match &h.slot {
            Some((p, ty)) => self.define("if_val", cat4("load ", ty.as_str(), ", ptr ", p.as_str())),
            None => "0".to_owned(),
        }
    }

    fn logic_left(&mut self, op: BinOp, l: &str, ptr: &str) -> (r: String)
        ensures
            (final(self)@, r@) == logic_left(old(self)@, op, l@, ptr@),
    {
        proof {
            reveal(logic_left);
        }
        let r = self.fresh_label("logic_rhs");
        let s = self.fresh_label("logic_short");
        let m = self.fresh_label("logic_merge");
        if matches!(op, BinOp::And) {
            self.emit(cat6("  br i1 ", l, ", label %", r.as_str(), ", label %", s.as_str()));
        } else {
            self.emit(cat6("  br i1 ", l, ", label %", s.as_str(), ", label %", r.as_str()));
        }
        self.emit(cat2(s.as_str(), ":"));
        self.emit(cat4("  store i1 ", l, ", ptr ", ptr));
        self.emit(cat2("  br label %", m.as_str()));
        self.emit(cat2(r.as_str(), ":"));
        m
    }

    fn logic_right(&mut self, r: &str, ptr: &str, merge: &str) -> (out: String)
        ensures
            (final(self)@, out@) == logic_right(old(self)@, r@, ptr@, merge@),
    {
        proof {
            reveal(logic_right);
        }
        self.emit(cat4("  store i1 ", r, ", ptr ", ptr));
        self.emit(cat2("  br label %", merge));
        self.emit(cat2(merge, ":"));
        self.define("logic_val", cat2("load i1, ptr ", ptr))
    }

    fn while_open(&mut self) -> (r: (String, String, String))
        ensures
            (final(self)@, (r.0@, r.1@, r.2@)) == while_open(old(self)@),
    {
        proof {
            reveal(while_open);
        }
        let a = self.fresh_label("while_cond");
        let b = self.fresh_label("while_body");
        let c = self.fresh_label("while_after");
        self.emit(cat2("  br label %", a.as_str()));
        self.emit(cat2(a.as_str(), ":"));
        self.terminated = false;
        (a, b, c)
    }

    fn while_body(&mut self, cond: &str, l: &(String, String, String))
        ensures
            final(self)@ == while_body(old(self)@, cond@, (l.0@, l.1@, l.2@)),
    {
        proof {
            reveal(while_body);
        }
        self.emit(cat6("  br i1 ", cond, ", label %", l.1.as_str(), ", label %", l.2.as_str()));
        self.emit(cat2(l.1.as_str(), ":"));
        self.terminated = false;
    }

    fn while_close(&mut self, l: &(String, String, String))
        ensures
            final(self)@ == while_close(old(self)@, (l.0@, l.1@, l.2@)),
    {
        proof {
            reveal(while_close);
        }
        if !self.terminated {
            self.emit(cat2("  br label %", l.0.as_str()));
        }
        self.emit(cat2(l.2.as_str(), ":"));
        self.terminated = false;
    }

    /// Frees what a block leaves, where its end is reached.
    fn close_at(&mut self, v: &Vec<(Span, Vec<String>)>, span: Span, sc: &Scopes<Slot>)
        ensures
            final(self)@ == free_open(old(self)@, names_at(v@, span, 0), sc@),
    {
        proof {
            reveal(free_open);
        }
        if !self.terminated {
            self.free_at(v, span, sc);
        }
    }

    /// Frees what a branch leaves, where its end is reached.
    fn close_on(
        &mut self,
        v: &Vec<(Span, bool, Vec<String>)>,
        span: Span,
        first: bool,
        sc: &Scopes<Slot>,
    )
        ensures
            final(self)@ == free_open(old(self)@, names_on(v@, span, first, 0), sc@),
    {
        proof {
            reveal(free_open);
        }
        if !self.terminated {
            self.free_on(v, span, first, sc);
        }
    }

    /// Waives guards or sets them up again; says whether they were waived.
    fn waive(&mut self, audited: bool) -> (r: bool)
        ensures
            final(self)@ == (Cx { audited, ..old(self)@ }),
            r == old(self)@.audited,
    {
        let r = self.audited;
        self.audited = audited;
        r
    }

    fn literal_place(&mut self, prefix: &str, ty: &str, dest: &str, i: usize) -> (r: String)
        ensures
            (final(self)@, r@) == literal_place(old(self)@, prefix@, ty@, dest@, i as nat),
    {
        proof {
            reveal(literal_place);
        }
        let n = dec_usize(i);
        self.define(prefix, cat6("getelementptr ", ty, ", ptr ", dest, ", i64 0, i64 ", n.as_str()))
    }

    fn literal_store(&mut self, ty: &str, ety: &str, dest: &str, i: usize, v: &str)
        ensures
            final(self)@ == literal_store(old(self)@, ty@, ety@, dest@, i as nat, v@),
    {
        proof {
            reveal(literal_store);
        }
        let p = self.literal_place("arraylit.elem", ty, dest, i);
        self.emit(cat6("  store ", ety, " ", v, ", ptr ", p.as_str()));
    }
}

fn no_code(message: String) -> (r: Halt)
    ensures
        r@ == SHalt::Unsupported(message@),
{
    unsupported(message)
}

fn param_types(f: &FnDecl) -> (r: Vec<Ty>)
    ensures
        r@.len() == f.params@.len(),
        forall|i: int| 0 <= i < r@.len() ==> (#[trigger] r@[i])@ == param_tys(*f)[i],
{
    let mut out: Vec<Ty> = Vec::new();
    let mut i: usize = 0;
    while i < f.params.len()
        invariant
            i <= f.params@.len(),
            out@.len() == i,
            forall|j: int| 0 <= j < i ==> (#[trigger] out@[j])@ == param_tys(*f)[j],
        decreases f.params@.len() - i,
    {
        out.push(f.params[i].ty.duplicate());
        i = i + 1;
    }
    out
}

/// A halt decides whatever follows it.
proof fn prints_halts(g: G, cx: Cx, sc: Slots, v: Seq<Expr>, a: nat, b: nat)
    requires
        a <= b <= v.len(),
        prints(g, cx, sc, v, a) is Halt,
    ensures
        prints(g, cx, sc, v, b) == prints(g, cx, sc, v, a),
    decreases b,
{
    if a < b {
        prints_halts(g, cx, sc, v, a, (b - 1) as nat);
    }
}

proof fn ptrs_halts(g: G, cx: Cx, sc: Slots, v: Seq<Expr>, a: nat, b: nat)
    requires
        a <= b <= v.len(),
        ptrs(g, cx, sc, v, a) is Halt,
    ensures
        ptrs(g, cx, sc, v, b) == ptrs(g, cx, sc, v, a),
    decreases b,
{
    if a < b {
        ptrs_halts(g, cx, sc, v, a, (b - 1) as nat);
    }
}

proof fn args_halts(g: G, cx: Cx, sc: Slots, v: Seq<Expr>, tys: Seq<STy>, a: nat, b: nat)
    requires
        a <= b <= v.len(),
        args(g, cx, sc, v, tys, a) is Halt,
    ensures
        args(g, cx, sc, v, tys, b) == args(g, cx, sc, v, tys, a),
    decreases b,
{
    if a < b {
        args_halts(g, cx, sc, v, tys, a, (b - 1) as nat);
    }
}

proof fn elems_halts(
    g: G,
    cx: Cx,
    sc: Slots,
    v: Seq<Expr>,
    elem: STy,
    ty: Text,
    ety: Text,
    dest: Text,
    a: nat,
    b: nat,
)
    requires
        a <= b <= v.len(),
        elems(g, cx, sc, v, elem, ty, ety, dest, a) is Halt,
    ensures
        elems(g, cx, sc, v, elem, ty, ety, dest, b) == elems(
            g,
            cx,
            sc,
            v,
            elem,
            ty,
            ety,
            dest,
            a,
        ),
    decreases b,
{
    if a < b {
        elems_halts(g, cx, sc, v, elem, ty, ety, dest, a, (b - 1) as nat);
    }
}

proof fn rows_halts(
    g: G,
    cx: Cx,
    sc: Slots,
    v: Seq<Expr>,
    ty: Text,
    dest: Text,
    cols: nat,
    bytes: nat,
    a: nat,
    b: nat,
)
    requires
        a <= b <= v.len(),
        rows(g, cx, sc, v, ty, dest, cols, bytes, a) is Halt,
    ensures
        rows(g, cx, sc, v, ty, dest, cols, bytes, b) == rows(
            g,
            cx,
            sc,
            v,
            ty,
            dest,
            cols,
            bytes,
            a,
        ),
    decreases b,
{
    if a < b {
        rows_halts(g, cx, sc, v, ty, dest, cols, bytes, a, (b - 1) as nat);
    }
}

proof fn stmts_halts(g: G, cx: Cx, sc: Slots, v: Seq<Stmt>, a: nat, b: nat)
    requires
        a <= b <= v.len(),
        stmts(g, cx, sc, v, a) is Halt,
    ensures
        stmts(g, cx, sc, v, b) == stmts(g, cx, sc, v, a),
    decreases b,
{
    if a < b {
        stmts_halts(g, cx, sc, v, a, (b - 1) as nat);
    }
}

/// What ends a block decides whatever follows it.
proof fn stmts_end(g: G, cx: Cx, sc: Slots, v: Seq<Stmt>, a: nat, b: nat)
    requires
        a <= b <= v.len(),
        stmts(g, cx, sc, v, a) matches Gen::Made(c, _) && c.terminated,
    ensures
        stmts(g, cx, sc, v, b) == stmts(g, cx, sc, v, a),
    decreases b,
{
    if a < b {
        stmts_end(g, cx, sc, v, a, (b - 1) as nat);
    }
}

impl<'a> Codegen<'a> {
    pub open spec fn g(&self) -> G {
        G {
            p: *self.plan.program,
            report: *self.plan.report,
            free: *self.plan.free,
            ret: self.plan.ret@,
        }
    }

    fn ty(&self, e: &Expr, sc: &Scopes<Slot>) -> (r: Ty)
        ensures
            r@ == ty_of(self.g().p, *e, sc@),
    {
        local_ty_of(self.plan.program, e, sc)
    }

    fn arg_ty(&self, v: &Vec<Expr>, i: usize, sc: &Scopes<Slot>) -> (r: Ty)
        ensures
            r@ == arg_ty(self.g().p, v@, i as int, sc@),
    {
        if i < v.len() {
            self.ty(&v[i], sc)
        } else {
            Ty::Error
        }
    }

    fn prints(&mut self, v: &Vec<Expr>, sc: &mut Scopes<Slot>) -> (r: Result<(), Halt>)
        ensures
            final(self).g() == old(self).g(),
            makes(
                r,
                final(self).m@,
                prints(old(self).g(), old(self).m@, old(sc)@, v@, v@.len()),
            ),
            r is Ok ==> final(sc)@ == old(sc)@,
        decreases v, 1nat,
    {
        let ghost g = self.g();
        let ghost cx = self.m@;
        let ghost s = sc@;
        let mut i: usize = 0;
        while i < v.len()
            invariant
                i <= v@.len(),
                g == old(self).g(),
                cx == old(self).m@,
                s == old(sc)@,
                self.g() == g,
                sc@ == s,
                prints(g, cx, s, v@, i as nat) == Gen::Made(self.m@, ()),
            decreases v@.len() - i,
        {
            let t = self.ty(&v[i], sc);
            if is_aggregate(&t) {
                proof {
                    prints_halts(g, cx, s, v@, (i + 1) as nat, v@.len());
                }
                return Err(
                    no_code(
                        "codegen doesn't support `print` on a Vector/Matrix argument yet — only integer/f64-typed arguments are supported so far".to_owned(),
                    ),
                );
            }
            match self.expr(&v[i], sc) {
                Ok(x) => {
                    self.m.print_value(x.as_str(), &t);
                }
                Err(h) => {
                    proof {
                        prints_halts(g, cx, s, v@, (i + 1) as nat, v@.len());
                    }
                    return Err(h);
                }
            }
            i = i + 1;
        }
        Ok(())
    }

    fn ptrs(&mut self, v: &Vec<Expr>, n: usize, sc: &mut Scopes<Slot>) -> (r: Result<
        Vec<String>,
        Halt,
    >)
        ensures
            final(self).g() == old(self).g(),
            makes_list(
                r,
                final(self).m@,
                ptrs(old(self).g(), old(self).m@, old(sc)@, v@, n as nat),
            ),
            r is Ok ==> final(sc)@ == old(sc)@,
            r matches Ok(p) ==> p@.len() == n,
        decreases v, 1nat,
    {
        let ghost g = self.g();
        let ghost cx = self.m@;
        let ghost s = sc@;
        if n > v.len() {
            return Err(Halt::IllTyped);
        }
        let mut out: Vec<String> = Vec::new();
        let mut i: usize = 0;
        proof {
            assert(lines_view(out@) =~= Seq::<Text>::empty());
        }
        while i < n
            invariant
                i <= n <= v@.len(),
                g == old(self).g(),
                cx == old(self).m@,
                s == old(sc)@,
                self.g() == g,
                sc@ == s,
                out@.len() == i,
                ptrs(g, cx, s, v@, i as nat) == Gen::Made(self.m@, lines_view(out@)),
            decreases n - i,
        {
            match self.expr_ptr(&v[i], sc) {
                Ok(p) => {
                    let ghost before = out@;
                    let ghost pv = p@;
                    out.push(p);
                    proof {
                        assert(lines_view(out@) =~= lines_view(before).push(pv));
                    }
                }
                Err(h) => {
                    proof {
                        ptrs_halts(g, cx, s, v@, (i + 1) as nat, n as nat);
                    }
                    return Err(h);
                }
            }
            i = i + 1;
        }
        Ok(out)
    }

    /// One argument of a call, with its type.
    fn call_arg(&mut self, a: &Expr, t: &Ty, sc: &mut Scopes<Slot>) -> (r: Result<String, Halt>)
        ensures
            final(self).g() == old(self).g(),
            makes(
                r,
                final(self).m@,
                one_arg(old(self).g(), old(self).m@, old(sc)@, *a, t@),
            ),
            r is Ok ==> final(sc)@ == old(sc)@,
        decreases a, 2nat,
    {
        if is_aggregate(t) {
            let p = self.expr_ptr(a, sc)?;
            return Ok(cat2("ptr ", p.as_str()));
        }
        let ty = llvm_ty(t)?;
        match literal_value(a) {
            Some(k) => {
                let n = dec_i64(k);
                Ok(cat3(ty.as_str(), " ", n.as_str()))
            }
            None => {
                let x = self.expr(a, sc)?;
                let y = self.m.stored(x.as_str(), t)?;
                Ok(cat3(ty.as_str(), " ", y.as_str()))
            }
        }
    }

    fn call_args(&mut self, v: &Vec<Expr>, tys: &Vec<Ty>, Ghost(ts): Ghost<Seq<STy>>, sc: &mut Scopes<Slot>) -> (r:
        Result<Vec<String>, Halt>)
        requires
            ts.len() == tys@.len(),
            forall|i: int| 0 <= i < tys@.len() ==> (#[trigger] tys@[i])@ == ts[i],
        ensures
            final(self).g() == old(self).g(),
            makes_list(
                r,
                final(self).m@,
                args(
                    old(self).g(),
                    old(self).m@,
                    old(sc)@,
                    v@,
                    ts,
                    fewer(v@.len(), tys@.len()),
                ),
            ),
            r is Ok ==> final(sc)@ == old(sc)@,
        decreases v, 1nat,
    {
        let ghost g = self.g();
        let ghost cx = self.m@;
        let ghost s = sc@;
        let mut out: Vec<String> = Vec::new();
        let mut i: usize = 0;
        let n: usize = if v.len() <= tys.len() {
            v.len()
        } else {
            tys.len()
        };
        proof {
            assert(lines_view(out@) =~= Seq::<Text>::empty());
        }
        while i < n
            invariant
                i <= n <= v@.len(),
                n <= tys@.len(),
                n == fewer(v@.len(), tys@.len()),
                ts.len() == tys@.len(),
                forall|i: int| 0 <= i < tys@.len() ==> (#[trigger] tys@[i])@ == ts[i],
                g == old(self).g(),
                cx == old(self).m@,
                s == old(sc)@,
                self.g() == g,
                sc@ == s,
                args(g, cx, s, v@, ts, i as nat) == Gen::Made(self.m@, lines_view(out@)),
            decreases n - i,
        {
            match self.call_arg(&v[i], &tys[i], sc) {
                Ok(p) => {
                    let ghost before = out@;
                    let ghost pv = p@;
                    out.push(p);
                    proof {
                        assert(lines_view(out@) =~= lines_view(before).push(pv));
                    }
                }
                Err(h) => {
                    proof {
                        args_halts(g, cx, s, v@, ts, (i + 1) as nat, n as nat);
                    }
                    return Err(h);
                }
            }
            i = i + 1;
        }
        Ok(out)
    }

    fn plain_call(&mut self, name: &str, i: usize, v: &Vec<Expr>, sc: &mut Scopes<Slot>) -> (r:
        Result<String, Halt>)
        requires
            i < old(self).g().p.fns@.len(),
        ensures
            final(self).g() == old(self).g(),
            makes(
                r,
                final(self).m@,
                plain_call(old(self).g(), old(self).m@, old(sc)@, name@, i as int, v@),
            ),
            r is Ok ==> final(sc)@ == old(sc)@,
        decreases v, 2nat,
    {
        let f = &self.plan.program.fns[i];
        if is_aggregate(&f.ret) {
            return Err(
                no_code(
                    cat3("codegen doesn't support calling `", name, "` (which returns a Vector/Matrix) in this expression position yet"),
                ),
            );
        }
        let tys = param_types(f);
        let a = self.call_args(v, &tys, Ghost(param_tys(*f)), sc)?;
        self.m.call_fn(name, &f.ret, &a)
    }

    fn into_call(&mut self, name: &str, i: usize, v: &Vec<Expr>, sc: &mut Scopes<Slot>) -> (r:
        Result<String, Halt>)
        requires
            i < old(self).g().p.fns@.len(),
        ensures
            final(self).g() == old(self).g(),
            makes(
                r,
                final(self).m@,
                into_call(old(self).g(), old(self).m@, old(sc)@, name@, i as int, v@),
            ),
            r is Ok ==> final(sc)@ == old(sc)@,
        decreases v, 2nat,
    {
        let f = &self.plan.program.fns[i];
        let tys = param_types(f);
        let a = self.call_args(v, &tys, Ghost(param_tys(*f)), sc)?;
        self.m.call_into(name, &f.ret, a)
    }

    fn elems(
        &mut self,
        v: &Vec<Expr>,
        elem: &Ty,
        ty: &str,
        ety: &str,
        dest: &str,
        sc: &mut Scopes<Slot>,
    ) -> (r: Result<(), Halt>)
        ensures
            final(self).g() == old(self).g(),
            makes(
                r,
                final(self).m@,
                elems(
                    old(self).g(),
                    old(self).m@,
                    old(sc)@,
                    v@,
                    elem@,
                    ty@,
                    ety@,
                    dest@,
                    v@.len(),
                ),
            ),
            r is Ok ==> final(sc)@ == old(sc)@,
        decreases v, 1nat,
    {
        let ghost g = self.g();
        let ghost cx = self.m@;
        let ghost s = sc@;
        let mut i: usize = 0;
        while i < v.len()
            invariant
                i <= v@.len(),
                g == old(self).g(),
                cx == old(self).m@,
                s == old(sc)@,
                self.g() == g,
                sc@ == s,
                elems(g, cx, s, v@, elem@, ty@, ety@, dest@, i as nat) == Gen::Made(self.m@, ()),
            decreases v@.len() - i,
        {
            let x = match self.expr(&v[i], sc) {
                Ok(x) => x,
                Err(h) => {
                    proof {
                        elems_halts(
                            g,
                            cx,
                            s,
                            v@,
                            elem@,
                            ty@,
                            ety@,
                            dest@,
                            (i + 1) as nat,
                            v@.len(),
                        );
                    }
                    return Err(h);
                }
            };
            match self.m.stored(x.as_str(), elem) {
                Ok(y) => {
                    self.m.literal_store(ty, ety, dest, i, y.as_str());
                }
                Err(h) => {
                    proof {
                        elems_halts(
                            g,
                            cx,
                            s,
                            v@,
                            elem@,
                            ty@,
                            ety@,
                            dest@,
                            (i + 1) as nat,
                            v@.len(),
                        );
                    }
                    return Err(h);
                }
            }
            i = i + 1;
        }
        Ok(())
    }

    fn rows(
        &mut self,
        v: &Vec<Expr>,
        ty: &str,
        dest: &str,
        cols: usize,
        bytes: u64,
        sc: &mut Scopes<Slot>,
    ) -> (r: Result<(), Halt>)
        requires
            v@.len() * cols <= usize::MAX,
        ensures
            final(self).g() == old(self).g(),
            makes(
                r,
                final(self).m@,
                rows(
                    old(self).g(),
                    old(self).m@,
                    old(sc)@,
                    v@,
                    ty@,
                    dest@,
                    cols as nat,
                    bytes as nat,
                    v@.len(),
                ),
            ),
            r is Ok ==> final(sc)@ == old(sc)@,
        decreases v, 1nat,
    {
        let ghost g = self.g();
        let ghost cx = self.m@;
        let ghost s = sc@;
        let mut i: usize = 0;
        let len: usize = v.len();
        while i < len
            invariant
                i <= len,
                len == v@.len(),
                len * cols <= usize::MAX,
                g == old(self).g(),
                cx == old(self).m@,
                s == old(sc)@,
                self.g() == g,
                sc@ == s,
                rows(g, cx, s, v@, ty@, dest@, cols as nat, bytes as nat, i as nat) == Gen::Made(
                    self.m@,
                    (),
                ),
            decreases len - i,
        {
            match self.expr_ptr(&v[i], sc) {
                Ok(src) => {
                    proof {
                        assert(0 <= i * cols <= len * cols) by (nonlinear_arith)
                            requires
                                0 <= i <= len,
                                0 <= cols,
                        ;
                    }
                    let p = self.m.literal_place("arraylit.row", ty, dest, i * cols);
                    self.m.copy_bytes(p.as_str(), src.as_str(), bytes);
                }
                Err(h) => {
                    proof {
                        rows_halts(
                            g,
                            cx,
                            s,
                            v@,
                            ty@,
                            dest@,
                            cols as nat,
                            bytes as nat,
                            (i + 1) as nat,
                            v@.len(),
                        );
                    }
                    return Err(h);
                }
            }
            i = i + 1;
        }
        Ok(())
    }

    fn array_lit(&mut self, v: &Vec<Expr>, sc: &mut Scopes<Slot>) -> (r: Result<String, Halt>)
        ensures
            final(self).g() == old(self).g(),
            makes(
                r,
                final(self).m@,
                array(old(self).g(), old(self).m@, old(sc)@, v@),
            ),
            r is Ok ==> final(sc)@ == old(sc)@,
        decreases v, 2nat,
    {
        if v.len() == 0 {
            return Err(Halt::IllTyped);
        }
        let t0 = self.ty(&v[0], sc);
        let t = array_type(t0, v.len());
        let ty = llvm_ty(&t)?;
        let d = self.m.fresh_slot("arraylit.addr", ty.as_str());
        match &t {
            Ty::Vector(elem, _) => {
                let ety = llvm_ty(elem)?;
                self.elems(v, elem, ty.as_str(), ety.as_str(), d.as_str(), sc)?;
                Ok(d)
            }
            Ty::Matrix(elem, n, cols) => {
                proof {
                    assert(*cols as nat * 1 == *cols as nat);
                    assert(*n == v@.len());
                }
                match block_bytes(*cols, 1, elem) {
                    None => Err(Halt::IllTyped),
                    Some(bytes) => {
                        self.rows(v, ty.as_str(), d.as_str(), *cols, bytes, sc)?;
                        Ok(d)
                    }
                }
            }
            _ => Err(Halt::IllTyped),
        }
    }

    #[verifier::rlimit(40)]
    fn binary(&mut self, e: &Expr, sc: &mut Scopes<Slot>) -> (r: Result<String, Halt>)
        requires
            e is Binary,
        ensures
            final(self).g() == old(self).g(),
            makes(
                r,
                final(self).m@,
                expr(old(self).g(), old(self).m@, old(sc)@, *e),
            ),
            r is Ok ==> final(sc)@ == old(sc)@,
        decreases e, 0nat,
    {
        match e {
            Expr::Binary(op, l, r, span) => {
                if matches!(op, BinOp::And | BinOp::Or) {
                    let s = self.m.fresh_slot("logic_result.addr", "i1");
                    let a = self.expr(l, sc)?;
                    let m = self.m.logic_left(*op, a.as_str(), s.as_str());
                    let b = self.expr(r, sc)?;
                    return Ok(self.m.logic_right(b.as_str(), s.as_str(), m.as_str()));
                }
                let t = self.ty(l, sc);
                let equality = matches!(op, BinOp::Eq | BinOp::NotEq);
                if equality && is_aggregate(&t) {
                    let a = self.expr_ptr(l, sc)?;
                    let b = self.expr_ptr(r, sc)?;
                    return self.m.compare_all(*op, a.as_str(), b.as_str(), &t);
                }
                let a = self.expr(l, sc)?;
                let b = self.expr(r, sc)?;
                if equality && matches!(t, Ty::Str) {
                    Ok(self.m.compare_strings(*op, a.as_str(), b.as_str()))
                } else {
                    let proven = holds(&self.plan.report.proven_nonzero_divisor, *span);
                    self.m.arith(*op, a.as_str(), b.as_str(), &t, proven)
                }
            }
            _ => Err(Halt::IllTyped),
        }
    }

    fn call(&mut self, e: &Expr, sc: &mut Scopes<Slot>) -> (r: Result<String, Halt>)
        requires
            e is Call,
        ensures
            final(self).g() == old(self).g(),
            makes(
                r,
                final(self).m@,
                expr(old(self).g(), old(self).m@, old(sc)@, *e),
            ),
            r is Ok ==> final(sc)@ == old(sc)@,
        decreases e, 0nat,
    {
        match e {
            Expr::Call(name, args, _) => {
                match Builtin::from_name(name.as_str()) {
                    Some(b) => {
                        if matches!(b, Builtin::Print) {
                            self.prints(args, sc)?;
                            return Ok("0".to_owned());
                        }
                        if is_unrolled(b) || matches!(b, Builtin::Det | Builtin::Rank) {
                            let t = self.arg_ty(args, 0, sc);
                            check_elem(b, &t)?;
                            let p = self.ptrs(args, pointer_count(b), sc)?;
                            return self.m.scalar_builtin(b, &t, &p);
                        }
                    }
                    None => {}
                }
                match find_fn(self.plan.program, name.as_str()) {
                    None => Err(Halt::IllTyped),
                    Some(i) => self.plain_call(name.as_str(), i, args, sc),
                }
            }
            _ => Err(Halt::IllTyped),
        }
    }

    #[verifier::rlimit(40)]
    fn if_expr(&mut self, e: &Expr, sc: &mut Scopes<Slot>) -> (r: Result<String, Halt>)
        requires
            e is If,
        ensures
            final(self).g() == old(self).g(),
            makes(
                r,
                final(self).m@,
                expr(old(self).g(), old(self).m@, old(sc)@, *e),
            ),
            r is Ok ==> final(sc)@ == old(sc)@,
        decreases e, 0nat,
    {
        match e {
            Expr::If { cond, then_block, else_block, span } => {
                let v = self.expr(cond, sc)?;
                let t = self.trailing(then_block, sc);
                let head = self.m.if_open(v.as_str(), &t)?;
                let a = self.branch(&then_block.stmts, *span, true, sc)?;
                let first_ended = self.m.terminated;
                self.m.if_join(&head, a.as_str());
                self.m.if_other(&head);
                let b = match else_block {
                    Some(x) => match &**x {
                        ElseBranch::Block(y) => self.branch(&y.stmts, *span, false, sc)?,
                        ElseBranch::If(y) => self.expr(y, sc)?,
                    },
                    None => "0".to_owned(),
                };
                let other_ended = self.m.terminated;
                self.m.if_join(&head, b.as_str());
                Ok(self.m.if_close(&head, first_ended && other_ended))
            }
            _ => Err(Halt::IllTyped),
        }
    }

    /// The type of a block's last expression.
    fn trailing(&self, b: &Block, sc: &Scopes<Slot>) -> (r: Ty)
        ensures
            r@ == trailing_ty(self.g().p, b.stmts@, sc@),
    {
        let n: usize = b.stmts.len();
        if n == 0 {
            return Ty::Unit;
        }
        match &b.stmts[n - 1] {
            Stmt::Expr(e) => self.ty(e, sc),
            _ => Ty::Unit,
        }
    }

    #[verifier::rlimit(40)]
    fn boxed(&mut self, e: &Expr, sc: &mut Scopes<Slot>) -> (r: Result<String, Halt>)
        requires
            e is Box,
        ensures
            final(self).g() == old(self).g(),
            makes(
                r,
                final(self).m@,
                expr(old(self).g(), old(self).m@, old(sc)@, *e),
            ),
            r is Ok ==> final(sc)@ == old(sc)@,
        decreases e, 0nat,
    {
        match e {
            Expr::Box(a, _) => {
                let t = self.ty(a, sc);
                match ty_byte_size(&t) {
                    None => Err(Halt::IllTyped),
                    Some(n) => {
                        let d = dec_u64(n);
                        let heap = self.m.define(
                            "box_heap",
                            cat3("call ptr @nir_alloc(i64 ", d.as_str(), ")"),
                        );
                        if is_aggregate(&t) {
                            let src = self.expr_ptr(a, sc)?;
                            self.m.copy_bytes(heap.as_str(), src.as_str(), n);
                        } else {
                            let v = self.expr(a, sc)?;
                            self.m.write_slot(v.as_str(), &t, heap.as_str())?;
                        }
                        Ok(heap)
                    }
                }
            }
            _ => Err(Halt::IllTyped),
        }
    }

    #[verifier::rlimit(40)]
    fn network(&mut self, e: &Expr, sc: &mut Scopes<Slot>) -> (r: Result<String, Halt>)
        requires
            e is Connect || e is Listen || e is Accept || e is Send || e is Recv || e is StopSandbox,
        ensures
            final(self).g() == old(self).g(),
            makes(
                r,
                final(self).m@,
                expr(old(self).g(), old(self).m@, old(sc)@, *e),
            ),
            r is Ok ==> final(sc)@ == old(sc)@,
        decreases e, 0nat,
    {
        match e {
            Expr::Connect(a, b, _) => {
                let v = self.expr(a, sc)?;
                let (p, l) = self.m.string_parts(v.as_str(), "str_ptr", "str_len");
                let port = self.expr(b, sc)?;
                Ok(self.m.connect(p.as_str(), l.as_str(), port.as_str()))
            }
            Expr::Listen(a, _) => {
                let v = self.expr(a, sc)?;
                Ok(self.m.listen(v.as_str()))
            }
            Expr::Accept(a, _) => {
                let v = self.expr(a, sc)?;
                Ok(self.m.accept(v.as_str()))
            }
            Expr::Send(a, b, _) => match self.ty(a, sc) {
                Ty::Tcp => {
                    let fd = self.expr(a, sc)?;
                    let v = self.expr(b, sc)?;
                    let (p, l) = self.m.string_parts(v.as_str(), "str_ptr", "str_len");
                    Ok(self.m.send(fd.as_str(), p.as_str(), l.as_str()))
                }
                Ty::Channel(_) => Err(
                    no_code("codegen doesn't support `chan` yet — interpreter-only for now".to_owned()),
                ),
                _ => Err(Halt::IllTyped),
            },
            Expr::Recv(a, _) => match self.ty(a, sc) {
                Ty::Tcp => {
                    let fd = self.expr(a, sc)?;
                    Ok(self.m.recv(fd.as_str()))
                }
                Ty::Channel(_) => Err(
                    no_code("codegen doesn't support `chan` yet — interpreter-only for now".to_owned()),
                ),
                _ => Err(Halt::IllTyped),
            },
            Expr::StopSandbox(a, _) => match self.ty(a, sc) {
                Ty::Tcp | Ty::TcpListener => {
                    let fd = self.expr(a, sc)?;
                    Ok(self.m.stop(fd.as_str()))
                }
                Ty::Sandbox => Err(
                    no_code(
                        "codegen doesn't support `sandbox` yet — interpreter-only for now".to_owned(),
                    ),
                ),
                _ => Err(Halt::IllTyped),
            },
            _ => Err(Halt::IllTyped),
        }
    }

    #[verifier::rlimit(40)]
    fn index(&mut self, e: &Expr, sc: &mut Scopes<Slot>) -> (r: Result<String, Halt>)
        requires
            e is Index,
        ensures
            final(self).g() == old(self).g(),
            makes(
                r,
                final(self).m@,
                expr(old(self).g(), old(self).m@, old(sc)@, *e),
            ),
            r is Ok ==> final(sc)@ == old(sc)@,
        decreases e, 0nat,
    {
        match e {
            Expr::Index(a, ix, span) => {
                let t = self.ty(a, sc);
                let base = self.expr_ptr(a, sc)?;
                match &t {
                    Ty::Vector(elem, n) => {
                        if ix.len() < 1 {
                            return Err(Halt::IllTyped);
                        }
                        let i = self.expr(&ix[0], sc)?;
                        self.m.check_index(self.plan.report, i.as_str(), *n, *span);
                        self.m.read_elem(base.as_str(), i.as_str(), elem)
                    }
                    Ty::Matrix(elem, rows, cols) => {
                        if ix.len() < 2 {
                            return Err(Halt::IllTyped);
                        }
                        let i = self.expr(&ix[0], sc)?;
                        self.m.check_index(self.plan.report, i.as_str(), *rows, *span);
                        let j = self.expr(&ix[1], sc)?;
                        self.m.check_index(self.plan.report, j.as_str(), *cols, *span);
                        let flat = self.m.flat_index(i.as_str(), j.as_str(), *cols);
                        self.m.read_elem(base.as_str(), flat.as_str(), elem)
                    }
                    _ => Err(Halt::IllTyped),
                }
            }
            _ => Err(Halt::IllTyped),
        }
    }

    /// A name by its value, a borrow, a dereference or an assignment.
    #[verifier::rlimit(40)]
    fn access(&mut self, e: &Expr, sc: &mut Scopes<Slot>) -> (r: Result<String, Halt>)
        requires
            e is Ident || e is Ref || e is Deref || e is Assign,
        ensures
            final(self).g() == old(self).g(),
            makes(
                r,
                final(self).m@,
                expr(old(self).g(), old(self).m@, old(sc)@, *e),
            ),
            r is Ok ==> final(sc)@ == old(sc)@,
        decreases e, 0nat,
    {
        match e {
            Expr::Ident(name, _) => match sc.get(name.as_str()) {
                None => Err(Halt::IllTyped),
                Some(s) => {
                    if is_aggregate(&s.ty) {
                        return Err(
                            no_code(
                                cat3("codegen doesn't support using `", name.as_str(), "` (a Vector/Matrix) in this expression position yet — bind it via `let`, or pass/return it through a function call"),
                            ),
                        );
                    }
                    let prefix = cat2(name.as_str(), ".val");
                    self.m.read_slot(prefix.as_str(), &s.ty, s.ptr.as_str())
                }
            },
            Expr::Ref(a, _) => match &**a {
                Expr::Ident(name, _) => match sc.get(name.as_str()) {
                    None => Err(Halt::IllTyped),
                    Some(s) => Ok(s.ptr.clone()),
                },
                _ => Err(Halt::IllTyped),
            },
            Expr::Deref(a, span) => {
                let v = self.expr(a, sc)?;
                let t = self.ty(e, sc);
                if is_aggregate(&t) {
                    let at = show_span(*span);
                    return Err(
                        no_code(
                            cat3("an aggregate-typed `*` result at ", at.as_str(), " needs `expr_ptr()`'s pointer-returning path, not `expr()` — this indicates a caller bug, not a language-level limitation"),
                        ),
                    );
                }
                self.m.read_slot("deref_val", &t, v.as_str())
            }
            Expr::Assign(name, a, span) => {
                let (t, ptr) = match sc.get(name.as_str()) {
                    None => {
                        return Err(Halt::IllTyped);
                    }
                    Some(s) => (s.ty.duplicate(), s.ptr.clone()),
                };
                if is_aggregate(&t) {
                    return Err(
                        no_code(
                            cat3("codegen doesn't support assigning to `", name.as_str(), "` (a Vector/Matrix) in this expression position yet"),
                        ),
                    );
                }
                let v = self.expr(a, sc)?;
                self.m.check_range(self.plan.report, v.as_str(), &t, *span);
                self.m.write_slot(v.as_str(), &t, ptr.as_str())?;
                Ok(v)
            }
            _ => Err(Halt::IllTyped),
        }
    }

    /// Code for a scalar expression.
    #[verifier::rlimit(40)]
    fn expr(&mut self, e: &Expr, sc: &mut Scopes<Slot>) -> (r: Result<String, Halt>)
        ensures
            final(self).g() == old(self).g(),
            makes(
                r,
                final(self).m@,
                expr(old(self).g(), old(self).m@, old(sc)@, *e),
            ),
            r is Ok ==> final(sc)@ == old(sc)@,
        decreases e, 1nat,
    {
        match e {
            Expr::Int(n, _) => Ok(dec_i64(*n)),
            Expr::Bool(b, _) => if *b {
                Ok("true".to_owned())
            } else {
                Ok("false".to_owned())
            },
            Expr::Float(f, _) => Ok(float_text(f.bits)),
            Expr::Str(s, _) => self.m.str_literal(s.as_str()),
            Expr::Unary(op, a, _) => {
                let v = self.expr(a, sc)?;
                match op {
                    UnOp::Neg => {
                        let float = matches!(self.ty(a, sc), Ty::F64);
                        Ok(self.m.negate(v.as_str(), float))
                    }
                    UnOp::Not => Ok(self.m.invert(v.as_str())),
                }
            }
            Expr::Binary(..) => self.binary(e, sc),
            Expr::Call(..) => self.call(e, sc),
            Expr::If { .. } => self.if_expr(e, sc),
            Expr::Ident(..) | Expr::Ref(..) | Expr::Deref(..) | Expr::Assign(..) => {
                self.access(e, sc)
            }
            Expr::Box(..) => self.boxed(e, sc),
            Expr::Connect(..)
            | Expr::Listen(..)
            | Expr::Accept(..)
            | Expr::Send(..)
            | Expr::Recv(..)
            | Expr::StopSandbox(..) => self.network(e, sc),
            Expr::Index(..) => self.index(e, sc),
            Expr::ArrayLit(..) => Err(
                no_code(
                    "codegen doesn't support a Vector/Matrix literal in this expression position yet — bind it via `let`, or pass/return it through a function call".to_owned(),
                ),
            ),
            _ => Err(Halt::IllTyped),
        }
    }

    /// A call that gives a vector or matrix.
    #[verifier::rlimit(40)]
    fn call_ptr(&mut self, e: &Expr, sc: &mut Scopes<Slot>) -> (r: Result<String, Halt>)
        requires
            e is Call,
        ensures
            final(self).g() == old(self).g(),
            makes(
                r,
                final(self).m@,
                ptr(old(self).g(), old(self).m@, old(sc)@, *e),
            ),
            r is Ok ==> final(sc)@ == old(sc)@,
        decreases e, 0nat,
    {
        match e {
            Expr::Call(name, v, _) => {
                match Builtin::from_name(name.as_str()) {
                    Some(b) => {
                        if is_unrolled(b) || matches!(
                            b,
                            Builtin::Inv
                            | Builtin::Solve
                            | Builtin::KfUpdateState
                            | Builtin::KfUpdateCov
                        ) {
                            let result = self.ty(e, sc);
                            let t = self.arg_ty(v, 0, sc);
                            let u = self.arg_ty(v, 2, sc);
                            let ty = llvm_ty(&result)?;
                            let d = self.m.fresh_slot("builtin_result.addr", ty.as_str());
                            check_elem(b, &t)?;
                            let p = self.ptrs(v, pointer_count(b), sc)?;
                            return self.m.agg_builtin(b, &result, &t, &u, &p, d);
                        }
                    }
                    None => {}
                }
                match find_fn(self.plan.program, name.as_str()) {
                    None => Err(Halt::IllTyped),
                    Some(i) => self.into_call(name.as_str(), i, v, sc),
                }
            }
            _ => Err(Halt::IllTyped),
        }
    }

    /// An operator that gives a vector or matrix.
    #[verifier::rlimit(40)]
    fn agg_binary(&mut self, e: &Expr, sc: &mut Scopes<Slot>) -> (r: Result<String, Halt>)
        requires
            e is Binary,
        ensures
            final(self).g() == old(self).g(),
            makes(
                r,
                final(self).m@,
                ptr(old(self).g(), old(self).m@, old(sc)@, *e),
            ),
            r is Ok ==> final(sc)@ == old(sc)@,
        decreases e, 0nat,
    {
        match e {
            Expr::Binary(op, l, r, span) => match op {
                BinOp::Add | BinOp::Sub | BinOp::ElemMul | BinOp::ElemDiv => {
                    let t = self.ty(l, sc);
                    let ty = llvm_ty(&t)?;
                    let d = self.m.fresh_slot("agg_elemwise.addr", ty.as_str());
                    let a = self.expr_ptr(l, sc)?;
                    let b = self.expr_ptr(r, sc)?;
                    let proven = holds(&self.plan.report.proven_nonzero_divisor, *span);
                    self.m.elementwise(*op, a.as_str(), b.as_str(), d, &t, proven)
                }
                BinOp::Mul => {
                    let lt = self.ty(l, sc);
                    let rt = self.ty(r, sc);
                    let pt = product_type(lt.duplicate(), rt.duplicate());
                    let ty = llvm_ty(&pt)?;
                    let d = self.m.fresh_slot("agg_mul.addr", ty.as_str());
                    let a = if is_aggregate(&lt) {
                        self.expr_ptr(l, sc)?
                    } else {
                        self.expr(l, sc)?
                    };
                    let b = if is_aggregate(&rt) {
                        self.expr_ptr(r, sc)?
                    } else {
                        self.expr(r, sc)?
                    };
                    self.m.multiply(&lt, &rt, a.as_str(), b.as_str(), d)
                }
                _ => Err(Halt::IllTyped),
            },
            _ => Err(Halt::IllTyped),
        }
    }

    /// Code for a vector or matrix.
    #[verifier::rlimit(40)]
    fn expr_ptr(&mut self, e: &Expr, sc: &mut Scopes<Slot>) -> (r: Result<String, Halt>)
        ensures
            final(self).g() == old(self).g(),
            makes(
                r,
                final(self).m@,
                ptr(old(self).g(), old(self).m@, old(sc)@, *e),
            ),
            r is Ok ==> final(sc)@ == old(sc)@,
        decreases e, 1nat,
    {
        match e {
            Expr::Ident(name, _) => match sc.get(name.as_str()) {
                None => Err(Halt::IllTyped),
                Some(s) => Ok(s.ptr.clone()),
            },
            Expr::ArrayLit(v, _) => self.array_lit(v, sc),
            Expr::Call(..) => self.call_ptr(e, sc),
            Expr::Assign(name, a, _) => {
                let src = self.expr_ptr(a, sc)?;
                match sc.get(name.as_str()) {
                    None => Err(Halt::IllTyped),
                    Some(s) => match ty_byte_size(&s.ty) {
                        None => Err(Halt::IllTyped),
                        Some(n) => {
                            self.m.copy_bytes(s.ptr.as_str(), src.as_str(), n);
                            Ok(s.ptr.clone())
                        }
                    },
                }
            }
            Expr::Binary(..) => self.agg_binary(e, sc),
            Expr::Deref(a, _) => self.expr(a, sc),
            _ => Err(
                no_code(
                    "codegen doesn't support this Vector/Matrix expression form yet — only identifiers, literals, assignment, binary operators, dereferencing a boxed/borrowed aggregate, and function calls/returns are supported so far (indexing reads a scalar element via `expr()`, and builtins land in a later phase)".to_owned(),
                ),
            ),
        }
    }

    /// Code for the first `n` statements.
    pub fn stmts(&mut self, v: &Vec<Stmt>, n: usize, sc: &mut Scopes<Slot>) -> (r: Result<(), Halt>)
        requires
            n <= v@.len(),
        ensures
            final(self).g() == old(self).g(),
            makes_slots(
                r,
                final(self).m@,
                final(sc)@,
                stmts(old(self).g(), old(self).m@, old(sc)@, v@, n as nat),
            ),
        decreases v, 1nat,
    {
        let ghost g = self.g();
        let ghost cx = self.m@;
        let ghost s = sc@;
        let mut i: usize = 0;
        while i < n
            invariant
                i <= n <= v@.len(),
                g == old(self).g(),
                cx == old(self).m@,
                s == old(sc)@,
                self.g() == g,
                stmts(g, cx, s, v@, i as nat) == Gen::Made(self.m@, sc@),
            decreases n - i,
        {
            if self.m.terminated {
                proof {
                    stmts_end(g, cx, s, v@, i as nat, n as nat);
                }
                return Ok(());
            }
            match self.stmt(&v[i], sc) {
                Ok(_) => {}
                Err(h) => {
                    proof {
                        stmts_halts(g, cx, s, v@, (i + 1) as nat, n as nat);
                    }
                    return Err(h);
                }
            }
            i = i + 1;
        }
        Ok(())
    }

    #[verifier::rlimit(40)]
    fn let_stmt(&mut self, s: &Stmt, sc: &mut Scopes<Slot>) -> (r: Result<(), Halt>)
        requires
            s is Let,
        ensures
            final(self).g() == old(self).g(),
            makes_slots(
                r,
                final(self).m@,
                final(sc)@,
                stmt(old(self).g(), old(self).m@, old(sc)@, *s),
            ),
        decreases s, 0nat,
    {
        match s {
            Stmt::Let { name, ty, value, span } => {
                let prefix = cat2(name.as_str(), ".addr");
                let ptr = if is_aggregate(ty) {
                    let src = self.expr_ptr(value, sc)?;
                    self.m.copy_slot(prefix.as_str(), ty, src.as_str())?
                } else {
                    let v = self.expr(value, sc)?;
                    self.m.check_range(self.plan.report, v.as_str(), ty, *span);
                    self.m.new_slot(prefix.as_str(), v.as_str(), ty)?
                };
                sc.define(name.as_str(), Slot { ty: ty.duplicate(), ptr });
                Ok(())
            }
            _ => Err(Halt::IllTyped),
        }
    }

    #[verifier::rlimit(40)]
    fn return_stmt(&mut self, s: &Stmt, sc: &mut Scopes<Slot>) -> (r: Result<(), Halt>)
        requires
            s is Return,
        ensures
            final(self).g() == old(self).g(),
            makes_slots(
                r,
                final(self).m@,
                final(sc)@,
                stmt(old(self).g(), old(self).m@, old(sc)@, *s),
            ),
        decreases s, 0nat,
    {
        match s {
            Stmt::Return { value, span } => {
                match value {
                    Some(e) => if is_aggregate(&self.plan.ret) {
                        let src = self.expr_ptr(e, sc)?;
                        match ty_byte_size(&self.plan.ret) {
                            None => {
                                return Err(Halt::IllTyped);
                            }
                            Some(n) => {
                                self.m.copy_bytes("%sret.ret", src.as_str(), n);
                                self.m.free_at(&self.plan.free.at_return, *span, sc);
                                self.m.emit("  ret void".to_owned());
                            }
                        }
                    } else {
                        let v = self.expr(e, sc)?;
                        self.m.check_range(
                            self.plan.report,
                            v.as_str(),
                            &self.plan.ret,
                            *span,
                        );
                        let x = self.m.stored(v.as_str(), &self.plan.ret)?;
                        let ty = llvm_ty(&self.plan.ret)?;
                        self.m.free_at(&self.plan.free.at_return, *span, sc);
                        self.m.emit(cat4("  ret ", ty.as_str(), " ", x.as_str()));
                    },
                    None => {
                        self.m.free_at(&self.plan.free.at_return, *span, sc);
                        self.m.emit("  ret void".to_owned());
                    }
                }
                self.m.terminated = true;
                Ok(())
            }
            _ => Err(Halt::IllTyped),
        }
    }

    #[verifier::rlimit(40)]
    fn while_loop(&mut self, s: &Stmt, sc: &mut Scopes<Slot>) -> (r: Result<(), Halt>)
        requires
            s is While,
        ensures
            final(self).g() == old(self).g(),
            makes_slots(
                r,
                final(self).m@,
                final(sc)@,
                stmt(old(self).g(), old(self).m@, old(sc)@, *s),
            ),
        decreases s, 0nat,
    {
        let ghost g = self.g();
        let ghost outer = sc@;
        match s {
            Stmt::While { cond, body, span } => {
                let l = self.m.while_open();
                let v = self.expr(cond, sc)?;
                self.m.while_body(v.as_str(), &l);
                sc.push();
                let ghost c = self.m@;
                self.stmts(&body.stmts, body.stmts.len(), sc)?;
                proof {
                    stmts_keep(g, c, opened(outer), body.stmts@, body.stmts@.len());
                    assert(opened(outer).drop_last() =~= outer);
                }
                self.m.close_at(&self.plan.free.at_while_end, *span, sc);
                sc.pop();
                self.m.while_close(&l);
                Ok(())
            }
            _ => Err(Halt::IllTyped),
        }
    }

    #[verifier::rlimit(40)]
    fn audited(&mut self, s: &Stmt, sc: &mut Scopes<Slot>) -> (r: Result<(), Halt>)
        requires
            s is Audited,
        ensures
            final(self).g() == old(self).g(),
            makes_slots(
                r,
                final(self).m@,
                final(sc)@,
                stmt(old(self).g(), old(self).m@, old(sc)@, *s),
            ),
        decreases s, 0nat,
    {
        let ghost g = self.g();
        let ghost outer = sc@;
        match s {
            Stmt::Audited { body, span, .. } => {
                let before = self.m.waive(true);
                sc.push();
                let ghost c = self.m@;
                self.stmts(body, body.len(), sc)?;
                proof {
                    stmts_keep(g, c, opened(outer), body@, body@.len());
                    assert(opened(outer).drop_last() =~= outer);
                }
                self.m.close_at(&self.plan.free.at_audited_end, *span, sc);
                sc.pop();
                self.m.waive(before);
                Ok(())
            }
            _ => Err(Halt::IllTyped),
        }
    }

    /// Code for a statement.
    #[verifier::rlimit(40)]
    fn stmt(&mut self, s: &Stmt, sc: &mut Scopes<Slot>) -> (r: Result<(), Halt>)
        ensures
            final(self).g() == old(self).g(),
            makes_slots(
                r,
                final(self).m@,
                final(sc)@,
                stmt(old(self).g(), old(self).m@, old(sc)@, *s),
            ),
        decreases s, 1nat,
    {
        match s {
            Stmt::Let { .. } => self.let_stmt(s, sc),
            Stmt::Return { .. } => self.return_stmt(s, sc),
            Stmt::While { .. } => self.while_loop(s, sc),
            Stmt::Audited { .. } => self.audited(s, sc),
            Stmt::Expr(e) => {
                if is_aggregate(&self.ty(e, sc)) {
                    self.expr_ptr(e, sc)?;
                } else {
                    self.expr(e, sc)?;
                }
                Ok(())
            }
        }
    }

    /// Code for a block in a scope of its own.
    #[verifier::rlimit(40)]
    fn branch(&mut self, v: &Vec<Stmt>, span: Span, first: bool, sc: &mut Scopes<Slot>) -> (r:
        Result<String, Halt>)
        ensures
            final(self).g() == old(self).g(),
            makes(
                r,
                final(self).m@,
                branch(
                    old(self).g(),
                    old(self).m@,
                    old(sc)@,
                    v@,
                    names_on(old(self).g().free.at_if_branch_end@, span, first, 0),
                ),
            ),
            r is Ok ==> final(sc)@ == old(sc)@,
        decreases v, 2nat,
    {
        let ghost g = self.g();
        let ghost cx = self.m@;
        let ghost outer = sc@;
        let n: usize = v.len();
        sc.push();
        proof {
            assert(opened(outer).drop_last() =~= outer);
        }
        let mut val = "0".to_owned();
        if n > 0 {
            self.stmts(v, n - 1, sc)?;
            proof {
                stmts_keep(g, cx, opened(outer), v@, (n - 1) as nat);
            }
            if self.m.terminated {
                sc.pop();
                return Ok(val);
            }
            match &v[n - 1] {
                Stmt::Expr(e) => {
                    val = self.expr(e, sc)?;
                }
                last => {
                    proof {
                        stmt_keeps(g, self.m@, sc@, *last);
                    }
                    self.stmt(last, sc)?;
                }
            }
        }
        self.m.close_on(&self.plan.free.at_if_branch_end, span, first, sc);
        sc.pop();
        Ok(val)
    }
}

/// A statement leaves the outer scopes as they are.
proof fn stmt_keeps(g: G, cx: Cx, sc: Slots, s: Stmt)
    requires
        sc.len() > 0,
    ensures
        stmt(g, cx, sc, s) matches Gen::Made(_, t) ==> t.len() == sc.len() && t.drop_last()
            == sc.drop_last(),
{
    match s {
        Stmt::Let { name, ty, .. } => {
            assert forall|p: Text| #[trigger]
                defined(sc, name@, (ty@, p)).drop_last() == sc.drop_last() by {
                assert(defined(sc, name@, (ty@, p)).drop_last() =~= sc.drop_last());
            }
        }
        _ => {}
    }
}

proof fn stmts_keep(g: G, cx: Cx, sc: Slots, v: Seq<Stmt>, n: nat)
    requires
        sc.len() > 0,
        n <= v.len(),
    ensures
        stmts(g, cx, sc, v, n) matches Gen::Made(_, t) ==> t.len() == sc.len() && t.drop_last()
            == sc.drop_last(),
    decreases n,
{
    if n > 0 {
        stmts_keep(g, cx, sc, v, (n - 1) as nat);
        match stmts(g, cx, sc, v, (n - 1) as nat) {
            Gen::Made(c, t) => {
                stmt_keeps(g, c, t, v[n - 1]);
            }
            Gen::Halt(_) => {}
        }
    }
}

} // verus!
