//! LLVM IR text: the lines of a module and the instructions that make them.
use crate::ast::{integer, name_of, STy, Ty};
use crate::text::{cat2, cat3, cat4, cat5, cat6, cat7, cat8, dec, dec_i64, dec_u64, dec_usize, hex, hex_u64, same};
use vstd::prelude::*;
use vstd::string::*;

verus! {

/// Why no code is made for a program.
#[derive(Debug, Clone)]
pub struct CodegenError {
    pub message: String,
}

impl CodegenError {
    /// The error as it is shown to the user.
    pub fn to_text(&self) -> (r: String)
        ensures
            r@ == self.message@,
    {
        self.message.clone()
    }
}

/// What ends code generation early.
#[derive(Debug)]
pub enum Halt {
    /// The program uses something that has no code yet.
    Unsupported(CodegenError),
    /// The program is not well typed.
    IllTyped,
}

pub ghost enum SHalt {
    Unsupported(Seq<char>),
    IllTyped,
}

impl View for Halt {
    type V = SHalt;

    open spec fn view(&self) -> SHalt {
        match *self {
            Halt::Unsupported(e) => SHalt::Unsupported(e.message@),
            Halt::IllTyped => SHalt::IllTyped,
        }
    }
}

pub fn unsupported(message: String) -> (r: Halt)
    ensures
        r@ == SHalt::Unsupported(message@),
{
    Halt::Unsupported(CodegenError { message })
}

/// Lines by their characters.
pub open spec fn lines_view(v: Seq<String>) -> Seq<Seq<char>> {
    Seq::new(v.len(), |i: int| v[i]@)
}

/// The module made so far. The slots of the function that is being made are
/// collected apart from its body, and stand before it when it is done.
pub struct Module {
    pub head: Vec<String>,
    pub slots: Vec<String>,
    pub body: Vec<String>,
    pub globals: Vec<String>,
    /// How many registers and globals have been named.
    pub tmp: u64,
    /// How many labels have been named.
    pub label: u64,
    /// Whether the current block has ended.
    pub terminated: bool,
    /// Whether guards are waived.
    pub audited: bool,
}

pub ghost struct Cx {
    pub head: Seq<Seq<char>>,
    pub slots: Seq<Seq<char>>,
    pub body: Seq<Seq<char>>,
    pub globals: Seq<Seq<char>>,
    pub tmp: u64,
    pub label: u64,
    pub terminated: bool,
    pub audited: bool,
}

impl View for Module {
    type V = Cx;

    open spec fn view(&self) -> Cx {
        Cx {
            head: lines_view(self.head@),
            slots: lines_view(self.slots@),
            body: lines_view(self.body@),
            globals: lines_view(self.globals@),
            tmp: self.tmp,
            label: self.label,
            terminated: self.terminated,
            audited: self.audited,
        }
    }
}

pub type Text = Seq<char>;

/// One more line of the function's body.
#[verifier::opaque]
pub open spec fn emit(cx: Cx, line: Text) -> Cx {
    Cx { body: cx.body.push(line), ..cx }
}

/// One more slot of the function.
#[verifier::opaque]
pub open spec fn slot(cx: Cx, dest: Text, ty: Text) -> Cx {
    Cx { slots: cx.slots.push("  "@ + dest + " = alloca "@ + ty), ..cx }
}

/// A fresh register.
#[verifier::opaque]
pub open spec fn fresh(cx: Cx, prefix: Text) -> (Cx, Text) {
    (Cx { tmp: cx.tmp.wrapping_add(1), ..cx }, "%"@ + prefix + "."@ + dec(cx.tmp.wrapping_add(1) as int))
}

/// A fresh global.
#[verifier::opaque]
pub open spec fn fresh_global(cx: Cx, prefix: Text) -> (Cx, Text) {
    (Cx { tmp: cx.tmp.wrapping_add(1), ..cx }, "@."@ + prefix + "."@ + dec(cx.tmp.wrapping_add(1) as int))
}

/// A fresh label.
#[verifier::opaque]
pub open spec fn fresh_label(cx: Cx, prefix: Text) -> (Cx, Text) {
    (Cx { label: cx.label.wrapping_add(1), ..cx }, prefix + "."@ + dec(cx.label.wrapping_add(1) as int))
}

/// A fresh register with what it is computed by.
#[verifier::opaque]
pub open spec fn define(cx: Cx, prefix: Text, rhs: Text) -> (Cx, Text) {
    let f = fresh(cx, prefix);
    (emit(f.0, "  "@ + f.1 + " = "@ + rhs), f.1)
}

/// A fresh slot.
#[verifier::opaque]
pub open spec fn fresh_slot(cx: Cx, prefix: Text, ty: Text) -> (Cx, Text) {
    let f = fresh(cx, prefix);
    (slot(f.0, f.1, ty), f.1)
}

/// One more global line.
#[verifier::opaque]
pub open spec fn global(cx: Cx, line: Text) -> Cx {
    Cx { globals: cx.globals.push(line), ..cx }
}

impl Module {
    pub fn emit(&mut self, line: String)
        ensures
            final(self)@ == emit(old(self)@, line@),
    {
        proof {
            reveal(emit);
        }
        let ghost before = self.body@;
        self.body.push(line);
        proof {
            assert(lines_view(self.body@) =~= lines_view(before).push(line@));
        }
    }

    pub fn slot(&mut self, dest: &str, ty: &str)
        ensures
            final(self)@ == slot(old(self)@, dest@, ty@),
    {
        proof {
            reveal(slot);
        }
        let ghost before = self.slots@;
        let line = cat4("  ", dest, " = alloca ", ty);
        self.slots.push(line);
        proof {
            assert(lines_view(self.slots@) =~= lines_view(before).push(line@));
        }
    }

    pub fn global(&mut self, line: String)
        ensures
            final(self)@ == global(old(self)@, line@),
    {
        proof {
            reveal(global);
        }
        let ghost before = self.globals@;
        self.globals.push(line);
        proof {
            assert(lines_view(self.globals@) =~= lines_view(before).push(line@));
        }
    }

    pub fn fresh(&mut self, prefix: &str) -> (r: String)
        ensures
            (final(self)@, r@) == fresh(old(self)@, prefix@),
    {
        proof {
            reveal(fresh);
        }
        self.tmp = self.tmp.wrapping_add(1);
        let n = dec_u64(self.tmp);
        cat4("%", prefix, ".", n.as_str())
    }

    pub fn fresh_global(&mut self, prefix: &str) -> (r: String)
        ensures
            (final(self)@, r@) == fresh_global(old(self)@, prefix@),
    {
        proof {
            reveal(fresh_global);
        }
        self.tmp = self.tmp.wrapping_add(1);
        let n = dec_u64(self.tmp);
        cat4("@.", prefix, ".", n.as_str())
    }

    pub fn fresh_label(&mut self, prefix: &str) -> (r: String)
        ensures
            (final(self)@, r@) == fresh_label(old(self)@, prefix@),
    {
        proof {
            reveal(fresh_label);
        }
        self.label = self.label.wrapping_add(1);
        let n = dec_u64(self.label);
        cat3(prefix, ".", n.as_str())
    }

    pub fn define(&mut self, prefix: &str, rhs: String) -> (r: String)
        ensures
            (final(self)@, r@) == define(old(self)@, prefix@, rhs@),
    {
        proof {
            reveal(define);
        }
        let r = self.fresh(prefix);
        self.emit(cat4("  ", r.as_str(), " = ", rhs.as_str()));
        r
    }

    pub fn fresh_slot(&mut self, prefix: &str, ty: &str) -> (r: String)
        ensures
            (final(self)@, r@) == fresh_slot(old(self)@, prefix@, ty@),
    {
        proof {
            reveal(fresh_slot);
        }
        let r = self.fresh(prefix);
        self.slot(r.as_str(), ty);
        r
    }
}

/// The LLVM type of a type, or why it has none.
pub ghost enum SLlvm {
    Is(Text),
    Not(SHalt),
}

pub open spec fn refused(message: Text) -> SLlvm {
    SLlvm::Not(SHalt::Unsupported(message))
}

/// The element type and the number of elements of a vector or matrix.
pub open spec fn elements(t: STy) -> Option<(STy, nat)> {
    match t {
        STy::Vector(e, n) => Some((*e, n as nat)),
        STy::Matrix(e, r, c) => Some((*e, r as nat * c as nat)),
        _ => None,
    }
}

pub open spec fn aggregate(t: STy) -> bool {
    t is Vector || t is Matrix
}

pub open spec fn array_of(len: nat, elem: SLlvm) -> SLlvm {
    match elem {
        SLlvm::Is(s) => if len <= usize::MAX {
            SLlvm::Is("["@ + dec(len as int) + " x "@ + s + "]"@)
        } else {
            SLlvm::Not(SHalt::IllTyped)
        },
        SLlvm::Not(h) => SLlvm::Not(h),
    }
}

pub open spec fn llvm(t: STy) -> SLlvm
    decreases t,
{
    match t {
        STy::I8 => SLlvm::Is("i8"@),
        STy::I16 => SLlvm::Is("i16"@),
        STy::I32 => SLlvm::Is("i32"@),
        STy::I64 => SLlvm::Is("i64"@),
        STy::Bool => SLlvm::Is("i1"@),
        STy::Unit => SLlvm::Is("void"@),
        STy::U8 | STy::U16 | STy::U32 | STy::U64 | STy::Usize => refused(
            "codegen doesn't support unsigned types yet (`"@ + name_of(t) + "`) — LLVM needs a signed-vs-unsigned instruction choice (icmp/div) this pass doesn't make"@,
        ),
        STy::Box(_) | STy::Ref(_) => SLlvm::Is("ptr"@),
        STy::Thread(_) => refused(
            "codegen doesn't support `"@ + name_of(t) + "` yet — spawn/join are interpreter-only for now (real OS threads, not yet compiled to native code)"@,
        ),
        STy::Channel(_) => refused(
            "codegen doesn't support `"@ + name_of(t) + "` yet — chan/send/recv are interpreter-only for now"@,
        ),
        STy::Sandbox => refused(
            "codegen doesn't support `sandbox` yet — sandbox/stop are interpreter-only for now"@,
        ),
        STy::File => refused(
            "codegen doesn't support `file` yet — open/send/recv/stop on file are interpreter-only for now"@,
        ),
        STy::Str => SLlvm::Is("{ptr, i64}"@),
        STy::F64 => SLlvm::Is("double"@),
        STy::Vector(e, n) => array_of(n as nat, llvm(*e)),
        STy::Matrix(e, r, c) => array_of(r as nat * c as nat, llvm(*e)),
        STy::Tcp | STy::TcpListener => SLlvm::Is("i64"@),
        STy::Named(name, _) => refused(
            "codegen doesn't support `"@ + name + "` yet — struct/enum/match (Row 11) are interpreter-only for now, see nirdosha_row11_amendment.md"@,
        ),
        STy::Error => SLlvm::Not(SHalt::IllTyped),
    }
}

fn array_ty(rows: usize, cols: usize, elem: Result<String, Halt>) -> (r: Result<String, Halt>)
    ensures
        match (r, elem) {
            (Ok(s), Ok(e)) => array_of(rows as nat * cols as nat, SLlvm::Is(e@)) == SLlvm::Is(s@),
            (Err(h), Ok(e)) => array_of(rows as nat * cols as nat, SLlvm::Is(e@)) == SLlvm::Not(
                h@,
            ),
            (Err(h), Err(g)) => h@ == g@,
            (Ok(_), Err(_)) => false,
        },
{
    match elem {
        Ok(e) => match rows.checked_mul(cols) {
            Some(n) => {
                let len = dec_usize(n);
                Ok(cat5("[", len.as_str(), " x ", e.as_str(), "]"))
            }
            None => Err(Halt::IllTyped),
        },
        Err(h) => Err(h),
    }
}

/// Whether `r` is what `s` says.
pub open spec fn is_llvm(r: Result<String, Halt>, s: SLlvm) -> bool {
    match r {
        Ok(t) => s == SLlvm::Is(t@),
        Err(h) => s == SLlvm::Not(h@),
    }
}

/// The LLVM type of a type.
pub fn llvm_ty(t: &Ty) -> (r: Result<String, Halt>)
    ensures
        is_llvm(r, llvm(t@)),
    decreases t,
{
    match t {
        Ty::I8 => Ok("i8".to_owned()),
        Ty::I16 => Ok("i16".to_owned()),
        Ty::I32 => Ok("i32".to_owned()),
        Ty::I64 => Ok("i64".to_owned()),
        Ty::Bool => Ok("i1".to_owned()),
        Ty::Unit => Ok("void".to_owned()),
        Ty::U8 | Ty::U16 | Ty::U32 | Ty::U64 | Ty::Usize => {
            let n = t.name();
            Err(
                unsupported(
                    cat3("codegen doesn't support unsigned types yet (`", n.as_str(), "`) — LLVM needs a signed-vs-unsigned instruction choice (icmp/div) this pass doesn't make"),
                ),
            )
        }
        Ty::Box(_) | Ty::Ref(_) => Ok("ptr".to_owned()),
        Ty::Thread(_) => {
            let n = t.name();
            Err(
                unsupported(
                    cat3("codegen doesn't support `", n.as_str(), "` yet — spawn/join are interpreter-only for now (real OS threads, not yet compiled to native code)"),
                ),
            )
        }
        Ty::Channel(_) => {
            let n = t.name();
            Err(
                unsupported(
                    cat3("codegen doesn't support `", n.as_str(), "` yet — chan/send/recv are interpreter-only for now"),
                ),
            )
        }
        Ty::Sandbox => Err(
            unsupported(
                "codegen doesn't support `sandbox` yet — sandbox/stop are interpreter-only for now".to_owned(),
            ),
        ),
        Ty::File => Err(
            unsupported(
                "codegen doesn't support `file` yet — open/send/recv/stop on file are interpreter-only for now".to_owned(),
            ),
        ),
        Ty::Str => Ok("{ptr, i64}".to_owned()),
        Ty::F64 => Ok("double".to_owned()),
        Ty::Vector(e, n) => {
            let inner = llvm_ty(e);
            proof {
                assert(*n as nat * 1 == *n as nat);
            }
            array_ty(*n, 1, inner)
        }
        Ty::Matrix(e, r, c) => {
            let inner = llvm_ty(e);
            array_ty(*r, *c, inner)
        }
        Ty::Tcp | Ty::TcpListener => Ok("i64".to_owned()),
        Ty::Named(name, _) => Err(
            unsupported(
                cat3("codegen doesn't support `", name.as_str(), "` yet — struct/enum/match (Row 11) are interpreter-only for now, see nirdosha_row11_amendment.md"),
            ),
        ),
        Ty::Error => Err(Halt::IllTyped),
    }
}

/// How many bytes a plain scalar takes.
pub open spec fn scalar_bytes(t: STy) -> Option<nat> {
    match t {
        STy::I8 | STy::U8 | STy::Bool => Some(1),
        STy::I16 | STy::U16 => Some(2),
        STy::I32 | STy::U32 => Some(4),
        STy::I64 | STy::U64 | STy::Usize | STy::F64 => Some(8),
        _ => None,
    }
}

/// How many bytes `n` elements of a type take.
pub open spec fn bytes_of(n: nat, elem: STy) -> Option<nat> {
    match scalar_bytes(elem) {
        Some(s) => if n <= usize::MAX && n * s <= u64::MAX {
            Some(n * s)
        } else {
            None
        },
        None => None,
    }
}

/// How many bytes a value of a type takes.
pub open spec fn byte_size(t: STy) -> Option<nat> {
    match t {
        STy::Vector(e, n) => bytes_of(n as nat, *e),
        STy::Matrix(e, r, c) => bytes_of(r as nat * c as nat, *e),
        STy::Str => Some(16),
        STy::Box(_)
        | STy::Ref(_)
        | STy::Thread(_)
        | STy::Channel(_)
        | STy::Sandbox
        | STy::Tcp
        | STy::TcpListener
        | STy::File => Some(8),
        STy::Unit => Some(0),
        _ => scalar_bytes(t),
    }
}

/// `r` is the number that `s` gives.
pub open spec fn same_size(r: Option<u64>, s: Option<nat>) -> bool {
    match r {
        Some(n) => s == Some(n as nat),
        None => s is None,
    }
}

pub fn elem_byte_size(t: &Ty) -> (r: Option<u64>)
    ensures
        same_size(r, scalar_bytes(t@)),
        r matches Some(n) ==> 1 <= n <= 8,
{
    match t {
        Ty::I8 | Ty::U8 | Ty::Bool => Some(1),
        Ty::I16 | Ty::U16 => Some(2),
        Ty::I32 | Ty::U32 => Some(4),
        Ty::I64 | Ty::U64 | Ty::Usize | Ty::F64 => Some(8),
        _ => None,
    }
}

/// How many bytes `rows * cols` elements of a type take.
pub fn block_bytes(rows: usize, cols: usize, elem: &Ty) -> (r: Option<u64>)
    ensures
        same_size(r, bytes_of(rows as nat * cols as nat, elem@)),
{
    match elem_byte_size(elem) {
        Some(s) => match rows.checked_mul(cols) {
            Some(n) => (n as u64).checked_mul(s),
            None => None,
        },
        None => None,
    }
}

pub fn ty_byte_size(t: &Ty) -> (r: Option<u64>)
    ensures
        same_size(r, byte_size(t@)),
{
    match t {
        Ty::Vector(e, n) => {
            proof {
                assert(*n as nat * 1 == *n as nat);
            }
            block_bytes(*n, 1, e)
        }
        Ty::Matrix(e, r, c) => block_bytes(*r, *c, e),
        Ty::Str => Some(16),
        Ty::Box(_)
        | Ty::Ref(_)
        | Ty::Thread(_)
        | Ty::Channel(_)
        | Ty::Sandbox
        | Ty::Tcp
        | Ty::TcpListener
        | Ty::File => Some(8),
        Ty::Unit => Some(0),
        _ => elem_byte_size(t),
    }
}

pub fn is_aggregate(t: &Ty) -> (r: bool)
    ensures
        r == aggregate(t@),
{
    matches!(t, Ty::Vector(..) | Ty::Matrix(..))
}

/// A value widened to 64 bits where it is a narrower integer.
#[verifier::opaque]
pub open spec fn widen(cx: Cx, val: Text, t: STy) -> (Cx, Text) {
    if !integer(t) || t == STy::I64 {
        (cx, val)
    } else {
        match llvm(t) {
            SLlvm::Is(ty) => define(cx, "widen"@, "sext "@ + ty + " "@ + val + " to i64"@),
            SLlvm::Not(_) => (cx, val),
        }
    }
}

/// The result of making code: the module and what was made, or why not.
pub ghost enum Gen<T> {
    Made(Cx, T),
    Halt(SHalt),
}

pub open spec fn made<T>(x: (Cx, T)) -> Gen<T> {
    Gen::Made(x.0, x.1)
}

/// A value cut to the width of an integer type.
#[verifier::opaque]
pub open spec fn narrow(cx: Cx, val: Text, t: STy) -> Gen<Text> {
    match llvm(t) {
        SLlvm::Is(ty) => if ty == "i64"@ {
            Gen::Made(cx, val)
        } else {
            made(define(cx, "narrow"@, "trunc i64 "@ + val + " to "@ + ty))
        },
        SLlvm::Not(h) => Gen::Halt(h),
    }
}

/// A value as it is stored: an integer is cut to its width.
#[verifier::opaque]
pub open spec fn stored(cx: Cx, val: Text, t: STy) -> Gen<Text> {
    if integer(t) {
        narrow(cx, val, t)
    } else {
        Gen::Made(cx, val)
    }
}

/// The rest of a guard: on `fail` the program aborts.
#[verifier::opaque]
pub open spec fn trap(cx: Cx, fail: Text, pass: Text) -> Cx {
    emit(
        emit(emit(emit(cx, fail + ":"@), "  call void @abort()"@), "  unreachable"@),
        pass + ":"@,
    )
}

/// Aborts unless the value is one of the integer type.
#[verifier::opaque]
pub open spec fn guard_range(cx: Cx, val: Text, lo: int, hi: int) -> Cx {
    let a = define(cx, "ge_lo"@, "icmp sge i64 "@ + val + ", "@ + dec(lo));
    let b = define(a.0, "le_hi"@, "icmp sle i64 "@ + val + ", "@ + dec(hi));
    let c = define(b.0, "in_range"@, "and i1 "@ + a.1 + ", "@ + b.1);
    let pass = fresh_label(c.0, "range_ok"@);
    let fail = fresh_label(pass.0, "range_trap"@);
    trap(
        emit(fail.0, "  br i1 "@ + c.1 + ", label %"@ + pass.1 + ", label %"@ + fail.1),
        fail.1,
        pass.1,
    )
}

/// Aborts unless the index is below the dimension.
#[verifier::opaque]
pub open spec fn guard_index(cx: Cx, idx: Text, dim: nat) -> Cx {
    let a = define(cx, "idx_ge_lo"@, "icmp sge i64 "@ + idx + ", 0"@);
    let b = define(a.0, "idx_lt_dim"@, "icmp slt i64 "@ + idx + ", "@ + dec(dim as int));
    let c = define(b.0, "idx_in_bounds"@, "and i1 "@ + a.1 + ", "@ + b.1);
    let pass = fresh_label(c.0, "idx_ok"@);
    let fail = fresh_label(pass.0, "idx_trap"@);
    trap(
        emit(fail.0, "  br i1 "@ + c.1 + ", label %"@ + pass.1 + ", label %"@ + fail.1),
        fail.1,
        pass.1,
    )
}

/// Aborts where a test holds.
#[verifier::opaque]
pub open spec fn guard_test(
    cx: Cx,
    reg: Text,
    test: Text,
    trap_label: Text,
    ok_label: Text,
) -> Cx {
    let a = define(cx, reg, test);
    let fail = fresh_label(a.0, trap_label);
    let pass = fresh_label(fail.0, ok_label);
    trap(
        emit(pass.0, "  br i1 "@ + a.1 + ", label %"@ + fail.1 + ", label %"@ + pass.1),
        fail.1,
        pass.1,
    )
}

/// Frees a box, the innermost first.
pub open spec fn free_box(cx: Cx, ptr: Text, t: STy) -> Cx
    decreases t,
{
    match t {
        STy::Box(inner) => {
            let c = match *inner {
                STy::Box(_) => {
                    let i = define(cx, "nested_box_inner"@, "load ptr, ptr "@ + ptr);
                    free_box(i.0, i.1, *inner)
                },
                _ => cx,
            };
            emit(c, "  call void @nir_free(ptr "@ + ptr + ")"@)
        },
        _ => cx,
    }
}

/// The parts of a string value: its address and its length.
#[verifier::opaque]
pub open spec fn string_parts(cx: Cx, val: Text, p: Text, l: Text) -> (Cx, (Text, Text)) {
    let a = define(cx, p, "extractvalue {ptr, i64} "@ + val + ", 0"@);
    let b = define(a.0, l, "extractvalue {ptr, i64} "@ + val + ", 1"@);
    (b.0, (a.1, b.1))
}

/// A string value from its address and its length.
#[verifier::opaque]
pub open spec fn string_value(cx: Cx, prefix: Text, ptr: Text, len: Text) -> (Cx, Text) {
    let a = define(cx, prefix, "insertvalue {ptr, i64} undef, ptr "@ + ptr + ", 0"@);
    define(a.0, prefix, "insertvalue {ptr, i64} "@ + a.1 + ", i64 "@ + len + ", 1"@)
}

/// The address of an element.
#[verifier::opaque]
pub open spec fn place(cx: Cx, base: Text, ty: Text, i: nat) -> (Cx, Text) {
    define(cx, "agg_elem.addr"@, "getelementptr "@ + ty + ", ptr "@ + base + ", i64 "@ + dec(i as int))
}

/// Loads an element, widened.
#[verifier::opaque]
pub open spec fn load(cx: Cx, base: Text, ty: Text, elem: STy, i: nat) -> (Cx, Text) {
    let g = place(cx, base, ty, i);
    let v = define(g.0, "agg_elem.val"@, "load "@ + ty + ", ptr "@ + g.1);
    widen(v.0, v.1, elem)
}

/// A value of an element type as it is stored: a narrower integer is cut.
#[verifier::opaque]
pub open spec fn cut(cx: Cx, val: Text, t: STy) -> (Cx, Text) {
    match stored(cx, val, t) {
        Gen::Made(c, v) => (c, v),
        Gen::Halt(_) => (cx, val),
    }
}

/// Stores an element.
#[verifier::opaque]
pub open spec fn store(cx: Cx, base: Text, ty: Text, elem: STy, i: nat, val: Text) -> Cx {
    let v = cut(cx, val, elem);
    let g = place(v.0, base, ty, i);
    emit(g.0, "  store "@ + ty + " "@ + v.1 + ", ptr "@ + g.1)
}

#[verifier::opaque]
pub open spec fn times(cx: Cx, l: Text, r: Text, float: bool) -> (Cx, Text) {
    define(
        cx,
        "agg_mul_elem"@,
        if float {
            "fmul double "@ + l + ", "@ + r
        } else {
            "mul i64 "@ + l + ", "@ + r
        },
    )
}

#[verifier::opaque]
pub open spec fn plus(cx: Cx, l: Text, r: Text, float: bool) -> (Cx, Text) {
    define(
        cx,
        "agg_add_elem"@,
        if float {
            "fadd double "@ + l + ", "@ + r
        } else {
            "add i64 "@ + l + ", "@ + r
        },
    )
}

/// The difference of two floating-point numbers.
#[verifier::opaque]
pub open spec fn minus(cx: Cx, l: Text, r: Text) -> (Cx, Text) {
    define(cx, "agg_sub_elem"@, "fsub double "@ + l + ", "@ + r)
}

#[verifier::opaque]
pub open spec fn call1(cx: Cx, func: Text, a: Text) -> (Cx, Text) {
    define(cx, "libm"@, "call double "@ + func + "(double "@ + a + ")"@)
}

#[verifier::opaque]
pub open spec fn call2(cx: Cx, func: Text, a: Text, b: Text) -> (Cx, Text) {
    define(cx, "libm"@, "call double "@ + func + "(double "@ + a + ", double "@ + b + ")"@)
}

#[verifier::opaque]
pub open spec fn compare_ints(cx: Cx, cond: Text, ty: Text, l: Text, r: Text) -> (Cx, Text) {
    define(cx, "cmp"@, "icmp "@ + cond + " "@ + ty + " "@ + l + ", "@ + r)
}

#[verifier::opaque]
pub open spec fn compare_floats(cx: Cx, cond: Text, l: Text, r: Text) -> (Cx, Text) {
    define(cx, "fcmp"@, "fcmp "@ + cond + " double "@ + l + ", "@ + r)
}

/// A floating-point constant, by its bits.
pub open spec fn float_const(bits: u64) -> Text {
    "0x"@ + hex(bits as nat, 16)
}

/// Copies the bytes of a vector or matrix.
#[verifier::opaque]
pub open spec fn copy_bytes(cx: Cx, dest: Text, src: Text, bytes: nat) -> Cx {
    emit(
        cx,
        "  call void @llvm.memcpy.p0.p0.i64(ptr "@ + dest + ", ptr "@ + src + ", i64 "@ + dec(bytes as int) + ", i1 false)"@,
    )
}

pub fn float_text(bits: u64) -> (r: String)
    ensures
        r@ == float_const(bits),
{
    let h = hex_u64(bits, 16);
    cat2("0x", h.as_str())
}

/// `r` is what `g` says, and `m` is the module behind it.
pub open spec fn makes<T: View>(r: Result<T, Halt>, m: Cx, g: Gen<T::V>) -> bool {
    match r {
        Ok(v) => g == Gen::Made(m, v@),
        Err(h) => g == Gen::<T::V>::Halt(h@),
    }
}

impl Module {
    pub fn widen(&mut self, val: &str, t: &Ty) -> (r: String)
        ensures
            (final(self)@, r@) == widen(old(self)@, val@, t@),
    {
        proof {
            reveal(widen);
        }
        if !t.is_integer() || matches!(t, Ty::I64) {
            return val.to_owned();
        }
        match llvm_ty(t) {
            Ok(ty) => self.define("widen", cat5("sext ", ty.as_str(), " ", val, " to i64")),
            Err(_) => val.to_owned(),
        }
    }

    pub fn narrow(&mut self, val: &str, t: &Ty) -> (r: Result<String, Halt>)
        ensures
            makes(r, final(self)@, narrow(old(self)@, val@, t@)),
    {
        proof {
            reveal(narrow);
        }
        let ty = llvm_ty(t)?;
        if same(ty.as_str(), "i64") {
            return Ok(val.to_owned());
        }
        Ok(self.define("narrow", cat4("trunc i64 ", val, " to ", ty.as_str())))
    }

    pub fn stored(&mut self, val: &str, t: &Ty) -> (r: Result<String, Halt>)
        ensures
            makes(r, final(self)@, stored(old(self)@, val@, t@)),
    {
        proof {
            reveal(stored);
        }
        if t.is_integer() {
            self.narrow(val, t)
        } else {
            Ok(val.to_owned())
        }
    }

    fn trap(&mut self, fail: &str, pass: &str)
        ensures
            final(self)@ == trap(old(self)@, fail@, pass@),
    {
        proof {
            reveal(trap);
        }
        self.emit(cat2(fail, ":"));
        self.emit("  call void @abort()".to_owned());
        self.emit("  unreachable".to_owned());
        self.emit(cat2(pass, ":"));
    }

    pub fn guard_range(&mut self, val: &str, lo: i64, hi: i64)
        ensures
            final(self)@ == guard_range(old(self)@, val@, lo as int, hi as int),
    {
        proof {
            reveal(guard_range);
        }
        let l = dec_i64(lo);
        let a = self.define("ge_lo", cat4("icmp sge i64 ", val, ", ", l.as_str()));
        let h = dec_i64(hi);
        let b = self.define("le_hi", cat4("icmp sle i64 ", val, ", ", h.as_str()));
        let c = self.define("in_range", cat4("and i1 ", a.as_str(), ", ", b.as_str()));
        let pass = self.fresh_label("range_ok");
        let fail = self.fresh_label("range_trap");
        self.emit(cat6("  br i1 ", c.as_str(), ", label %", pass.as_str(), ", label %", fail.as_str()));
        self.trap(fail.as_str(), pass.as_str());
    }

    pub fn guard_index(&mut self, idx: &str, dim: usize)
        ensures
            final(self)@ == guard_index(old(self)@, idx@, dim as nat),
    {
        proof {
            reveal(guard_index);
        }
        let a = self.define("idx_ge_lo", cat3("icmp sge i64 ", idx, ", 0"));
        let d = dec_usize(dim);
        let b = self.define("idx_lt_dim", cat4("icmp slt i64 ", idx, ", ", d.as_str()));
        let c = self.define("idx_in_bounds", cat4("and i1 ", a.as_str(), ", ", b.as_str()));
        let pass = self.fresh_label("idx_ok");
        let fail = self.fresh_label("idx_trap");
        self.emit(cat6("  br i1 ", c.as_str(), ", label %", pass.as_str(), ", label %", fail.as_str()));
        self.trap(fail.as_str(), pass.as_str());
    }

    pub fn guard_test(&mut self, reg: &str, test: String, trap_label: &str, ok_label: &str)
        ensures
            final(self)@ == guard_test(old(self)@, reg@, test@, trap_label@, ok_label@),
    {
        proof {
            reveal(guard_test);
        }
        let a = self.define(reg, test);
        let fail = self.fresh_label(trap_label);
        let pass = self.fresh_label(ok_label);
        self.emit(cat6("  br i1 ", a.as_str(), ", label %", fail.as_str(), ", label %", pass.as_str()));
        self.trap(fail.as_str(), pass.as_str());
    }

    pub fn free_box(&mut self, ptr: &str, t: &Ty)
        ensures
            final(self)@ == free_box(old(self)@, ptr@, t@),
        decreases t,
    {
        match t {
            Ty::Box(inner) => {
                proof {
                    reveal_with_fuel(crate::ast::ty_view, 3);
                }
                match &**inner {
                    Ty::Box(_) => {
                        let i = self.define("nested_box_inner", cat2("load ptr, ptr ", ptr));
                        self.free_box(i.as_str(), inner);
                    }
                    _ => {}
                }
                self.emit(cat3("  call void @nir_free(ptr ", ptr, ")"));
            }
            _ => {}
        }
    }

    pub fn string_parts(&mut self, val: &str, p: &str, l: &str) -> (r: (String, String))
        ensures
            (final(self)@, (r.0@, r.1@)) == string_parts(old(self)@, val@, p@, l@),
    {
        proof {
            reveal(string_parts);
        }
        let a = self.define(p, cat3("extractvalue {ptr, i64} ", val, ", 0"));
        let b = self.define(l, cat3("extractvalue {ptr, i64} ", val, ", 1"));
        (a, b)
    }

    pub fn string_value(&mut self, prefix: &str, ptr: &str, len: &str) -> (r: String)
        ensures
            (final(self)@, r@) == string_value(old(self)@, prefix@, ptr@, len@),
    {
        proof {
            reveal(string_value);
        }
        let a = self.define(prefix, cat3("insertvalue {ptr, i64} undef, ptr ", ptr, ", 0"));
        self.define(prefix, cat5("insertvalue {ptr, i64} ", a.as_str(), ", i64 ", len, ", 1"))
    }

    fn place(&mut self, base: &str, ty: &str, i: usize) -> (r: String)
        ensures
            (final(self)@, r@) == place(old(self)@, base@, ty@, i as nat),
    {
        proof {
            reveal(place);
        }
        let n = dec_usize(i);
        self.define("agg_elem.addr", cat6("getelementptr ", ty, ", ptr ", base, ", i64 ", n.as_str()))
    }

    pub fn load(&mut self, base: &str, ty: &str, elem: &Ty, i: usize) -> (r: String)
        ensures
            (final(self)@, r@) == load(old(self)@, base@, ty@, elem@, i as nat),
    {
        proof {
            reveal(load);
        }
        let g = self.place(base, ty, i);
        let v = self.define("agg_elem.val", cat4("load ", ty, ", ptr ", g.as_str()));
        self.widen(v.as_str(), elem)
    }

    fn cut(&mut self, val: &str, t: &Ty) -> (r: String)
        ensures
            (final(self)@, r@) == cut(old(self)@, val@, t@),
    {
        proof {
            reveal(cut);
            reveal(stored);
            reveal(narrow);
        }
        if !t.is_integer() {
            return val.to_owned();
        }
        match llvm_ty(t) {
            Ok(ty) => if same(ty.as_str(), "i64") {
                val.to_owned()
            } else {
                self.define("narrow", cat4("trunc i64 ", val, " to ", ty.as_str()))
            },
            Err(_) => val.to_owned(),
        }
    }

    pub fn store(&mut self, base: &str, ty: &str, elem: &Ty, i: usize, val: &str)
        ensures
            final(self)@ == store(old(self)@, base@, ty@, elem@, i as nat, val@),
    {
        proof {
            reveal(store);
        }
        let v = self.cut(val, elem);
        let g = self.place(base, ty, i);
        self.emit(cat6("  store ", ty, " ", v.as_str(), ", ptr ", g.as_str()));
    }

    pub fn times(&mut self, l: &str, r: &str, float: bool) -> (out: String)
        ensures
            (final(self)@, out@) == times(old(self)@, l@, r@, float),
    {
        proof {
            reveal(times);
        }
        let rhs = if float {
            cat4("fmul double ", l, ", ", r)
        } else {
            cat4("mul i64 ", l, ", ", r)
        };
        self.define("agg_mul_elem", rhs)
    }

    pub fn plus(&mut self, l: &str, r: &str, float: bool) -> (out: String)
        ensures
            (final(self)@, out@) == plus(old(self)@, l@, r@, float),
    {
        proof {
            reveal(plus);
        }
        let rhs = if float {
            cat4("fadd double ", l, ", ", r)
        } else {
            cat4("add i64 ", l, ", ", r)
        };
        self.define("agg_add_elem", rhs)
    }

    pub fn minus(&mut self, l: &str, r: &str) -> (out: String)
        ensures
            (final(self)@, out@) == minus(old(self)@, l@, r@),
    {
        proof {
            reveal(minus);
        }
        self.define("agg_sub_elem", cat4("fsub double ", l, ", ", r))
    }

    pub fn call1(&mut self, func: &str, a: &str) -> (out: String)
        ensures
            (final(self)@, out@) == call1(old(self)@, func@, a@),
    {
        proof {
            reveal(call1);
        }
        self.define("libm", cat5("call double ", func, "(double ", a, ")"))
    }

    pub fn call2(&mut self, func: &str, a: &str, b: &str) -> (out: String)
        ensures
            (final(self)@, out@) == call2(old(self)@, func@, a@, b@),
    {
        proof {
            reveal(call2);
        }
        self.define("libm", cat7("call double ", func, "(double ", a, ", double ", b, ")"))
    }

    pub fn compare_ints(&mut self, cond: &str, ty: &str, l: &str, r: &str) -> (out: String)
        ensures
            (final(self)@, out@) == compare_ints(old(self)@, cond@, ty@, l@, r@),
    {
        proof {
            reveal(compare_ints);
        }
        self.define("cmp", cat8("icmp ", cond, " ", ty, " ", l, ", ", r))
    }

    pub fn compare_floats(&mut self, cond: &str, l: &str, r: &str) -> (out: String)
        ensures
            (final(self)@, out@) == compare_floats(old(self)@, cond@, l@, r@),
    {
        proof {
            reveal(compare_floats);
        }
        self.define("fcmp", cat6("fcmp ", cond, " double ", l, ", ", r))
    }

    pub fn copy_bytes(&mut self, dest: &str, src: &str, bytes: u64)
        ensures
            final(self)@ == copy_bytes(old(self)@, dest@, src@, bytes as nat),
    {
        proof {
            reveal(copy_bytes);
        }
        let n = dec_u64(bytes);
        self.emit(
            cat7("  call void @llvm.memcpy.p0.p0.i64(ptr ", dest, ", ptr ", src, ", i64 ", n.as_str(), ", i1 false)"),
        );
    }
}

} // verus!
