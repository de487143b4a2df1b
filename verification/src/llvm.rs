//! A whole LLVM IR module: its declarations, its functions, its entry point.
use crate::ast::{FnDecl, Param, Program, STy, Ty};
use crate::codegen::{
    Codegen, G, makes_slots, ptr, stmts,
};
use crate::emit::{join, joined};
use crate::ir::{
    Cx, Gen, Halt, Module, SHalt, SLlvm, Text, aggregate, byte_size, copy_bytes, define, emit,
    is_aggregate, is_llvm, lines_view, llvm, llvm_ty, makes, place, slot, ty_byte_size,
    unsupported,
};
use crate::layout::{
    FreeMap, Plan, Slot, Slots, SmtReport, free_all, names_in,
};
use crate::registry::{find_first_fn, first_fn};
use crate::scopes::{
    Scopes, defined,
};
use crate::support::{check_supported, fns_fault};
use crate::text::{cat2, cat3, cat5, cat6, cat7, same};
use vstd::prelude::*;
use vstd::string::*;

verus! {

/// How far clang optimises.
#[derive(Debug, Clone, Copy, PartialEq, Eq, Structural)]
pub enum OptLevel {
    O0,
    O2,
}

impl OptLevel {
    pub open spec fn flag(self) -> Text {
        match self {
            OptLevel::O0 => "-O0"@,
            OptLevel::O2 => "-O2"@,
        }
    }

    /// The argument that asks clang for this level.
    pub fn clang_flag(self) -> (r: &'static str)
        ensures
            r@ == self.flag(),
    {
        match self {
            OptLevel::O0 => "-O0",
            OptLevel::O2 => "-O2",
        }
    }
}

/// What a list of parameters is written as, or why it cannot be.
pub ghost enum Listed {
    Is(Seq<Text>),
    Not(SHalt),
}

/// One parameter in a function's header.
pub open spec fn header_param(p: Param) -> SLlvm {
    if aggregate(p.ty@) {
        SLlvm::Is("ptr %arg."@ + p.name@)
    } else {
        match llvm(p.ty@) {
            SLlvm::Not(h) => SLlvm::Not(h),
            SLlvm::Is(ty) => SLlvm::Is(ty + " %arg."@ + p.name@),
        }
    }
}

/// The first `n` parameters of a header, behind `first`.
pub open spec fn header_params(first: Seq<Text>, ps: Seq<Param>, n: nat) -> Listed
    decreases n,
{
    if n == 0 || n > ps.len() {
        Listed::Is(first)
    } else {
        match header_params(first, ps, (n - 1) as nat) {
            Listed::Not(h) => Listed::Not(h),
            Listed::Is(v) => match header_param(ps[n - 1]) {
                SLlvm::Not(h) => Listed::Not(h),
                SLlvm::Is(t) => Listed::Is(v.push(t)),
            },
        }
    }
}

/// The address of the slot of a parameter.
pub open spec fn param_address(p: Param) -> Text {
    "%"@ + p.name@ + ".addr"@
}

/// Copies an argument to its slot.
#[verifier::opaque]
pub open spec fn param_slot(cx: Cx, p: Param) -> Gen<()> {
    match llvm(p.ty@) {
        SLlvm::Not(h) => Gen::Halt(h),
        SLlvm::Is(ty) => {
            let c = slot(cx, param_address(p), ty);
            if aggregate(p.ty@) {
                match byte_size(p.ty@) {
                    None => Gen::Halt(SHalt::IllTyped),
                    Some(n) => Gen::Made(
                        copy_bytes(c, param_address(p), "%arg."@ + p.name@, n),
                        (),
                    ),
                }
            } else {
                Gen::Made(
                    emit(c, "  store "@ + ty + " %arg."@ + p.name@ + ", ptr "@ + param_address(p)),
                    (),
                )
            }
        }
    }
}

/// Copies the first `n` arguments to their slots.
pub open spec fn param_slots(cx: Cx, sc: Slots, ps: Seq<Param>, n: nat) -> Gen<Slots>
    decreases n,
{
    if n == 0 || n > ps.len() {
        Gen::Made(cx, sc)
    } else {
        match param_slots(cx, sc, ps, (n - 1) as nat) {
            Gen::Halt(h) => Gen::Halt(h),
            Gen::Made(c, s) => match param_slot(c, ps[n - 1]) {
                Gen::Halt(h) => Gen::Halt(h),
                Gen::Made(d, _) => Gen::Made(
                    d,
                    defined(s, ps[n - 1].name@, (ps[n - 1].ty@, param_address(ps[n - 1]))),
                ),
            },
        }
    }
}

/// The name of a function in the module: `main` is kept for the entry point.
pub open spec fn module_name(name: Text) -> Text {
    if name == "main"@ {
        "nir_main"@
    } else {
        name
    }
}

/// What a function is declared to return.
pub open spec fn header_ret(t: STy) -> SLlvm {
    if aggregate(t) {
        SLlvm::Is("void"@)
    } else {
        llvm(t)
    }
}

/// A function that returns a vector or matrix gets the address of its result.
pub open spec fn header_first(t: STy) -> Seq<Text> {
    if aggregate(t) {
        seq!["ptr %sret.ret"@]
    } else {
        Seq::empty()
    }
}

/// What stands at the end of a function whose last block has not ended.
#[verifier::opaque]
pub open spec fn function_end(g: G, cx: Cx, sc: Slots, f: FnDecl) -> Cx {
    if cx.terminated {
        cx
    } else {
        emit(
            free_all(cx, names_in(g.free.at_fn_end@, f.name@, 0), sc),
            if f.ret@ is Unit {
                "  ret void"@
            } else {
                "  unreachable"@
            },
        )
    }
}

/// Puts the finished function behind those before it: its slots stand at the
/// top of its first block.
#[verifier::opaque]
pub open spec fn sealed(cx: Cx, header: Text) -> Cx {
    Cx {
        head: (cx.head.push(header).push("entry:"@) + cx.slots + cx.body).push("}"@).push(""@),
        ..cx
    }
}

/// A module where a function is about to be made.
#[verifier::opaque]
pub open spec fn function_start(cx: Cx) -> Cx {
    Cx { slots: Seq::empty(), body: Seq::empty(), terminated: false, ..cx }
}

/// Makes one function.
pub open spec fn function(g: G, cx: Cx, f: FnDecl) -> Gen<()> {
    let h = G { ret: f.ret@, ..g };
    match header_ret(f.ret@) {
        SLlvm::Not(x) => Gen::Halt(x),
        SLlvm::Is(ret) => match header_params(header_first(f.ret@), f.params@, f.params@.len()) {
            Listed::Not(x) => Gen::Halt(x),
            Listed::Is(ps) => match param_slots(
                function_start(cx),
                seq![Map::empty()],
                f.params@,
                f.params@.len(),
            ) {
                Gen::Halt(x) => Gen::Halt(x),
                Gen::Made(c, sc) => match stmts(h, c, sc, f.body.stmts@, f.body.stmts@.len()) {
                    Gen::Halt(x) => Gen::Halt(x),
                    Gen::Made(d, s) => Gen::Made(
                        sealed(
                            function_end(h, d, s, f),
                            "define "@ + ret + " @"@ + module_name(f.name@) + "("@ + joined(ps) + ") {"@,
                        ),
                        (),
                    ),
                },
            },
        },
    }
}

/// Makes the first `n` functions of the program.
pub open spec fn functions(g: G, cx: Cx, n: nat) -> Gen<()>
    decreases n,
{
    if n == 0 || n > g.p.fns@.len() {
        Gen::Made(cx, ())
    } else {
        match functions(g, cx, (n - 1) as nat) {
            Gen::Halt(h) => Gen::Halt(h),
            Gen::Made(c, _) => function(g, c, g.p.fns@[n - 1]),
        }
    }
}

/// The result of `main` as an exit code.
pub open spec fn exit_code(cx: Cx, ty: Text, r: Text) -> (Cx, Text) {
    if ty == "i64"@ {
        define(cx, "exit_code"@, "trunc i64 "@ + r + " to i32"@)
    } else if ty == "i32"@ {
        (cx, r)
    } else if ty == "double"@ {
        define(cx, "exit_code"@, "fptosi double "@ + r + " to i32"@)
    } else {
        define(cx, "exit_code"@, "sext "@ + ty + " "@ + r + " to i32"@)
    }
}

/// The entry point: calls the program's `main` and gives its result as the exit
/// code, 0 where it has none.
pub open spec fn entry_point(cx: Cx, ret: STy) -> Gen<()> {
    if aggregate(ret) {
        Gen::Halt(
            SHalt::Unsupported(
                "codegen doesn't support `main` returning a Vector/Matrix directly yet — print its elements instead of returning the aggregate itself"@,
            ),
        )
    } else if ret is Unit {
        let a = emit(emit(cx, "define i32 @main() {"@), "entry:"@);
        let b = emit(emit(a, "  call void @nir_main()"@), "  ret i32 0"@);
        Gen::Made(emit(b, "}"@), ())
    } else if ret is Str {
        Gen::Halt(
            SHalt::Unsupported(
                "codegen doesn't support `main` returning `str` directly yet — print it instead of returning it"@,
            ),
        )
    } else {
        match llvm(ret) {
            SLlvm::Not(h) => Gen::Halt(h),
            SLlvm::Is(ty) => {
                let a = emit(emit(cx, "define i32 @main() {"@), "entry:"@);
                let r = define(a, "main_result"@, "call "@ + ty + " @nir_main()"@);
                let e = exit_code(r.0, ty, r.1);
                Gen::Made(emit(emit(e.0, "  ret i32 "@ + e.1), "}"@), ())
            }
        }
    }
}

/// What every module declares.
pub open spec fn declarations() -> Seq<Text> {
    seq![
        "declare i32 @printf(ptr, ...)"@,
        "declare void @abort() noreturn"@,
        "declare void @llvm.memcpy.p0.p0.i64(ptr noalias writeonly, ptr noalias readonly, i64, i1 immarg)"@,
        "declare double @llvm.sqrt.f64(double)"@,
        "declare double @llvm.sin.f64(double)"@,
        "declare double @llvm.cos.f64(double)"@,
        "declare double @llvm.fabs.f64(double)"@,
        "declare double @llvm.maxnum.f64(double, double)"@,
        "declare double @atan2(double, double)"@,
        "declare double @nir_det(ptr, i64)"@,
        "declare i32 @nir_inv(ptr, i64, ptr)"@,
        "declare i32 @nir_solve(ptr, i64, ptr, ptr)"@,
        "declare i64 @nir_rank(ptr, i64, i64)"@,
        "declare i32 @nir_kf_update_state(ptr, ptr, ptr, ptr, ptr, i64, i64, ptr)"@,
        "declare i32 @nir_kf_update_cov(ptr, ptr, ptr, ptr, ptr, i64, i64, ptr)"@,
        "declare i32 @nir_str_eq(ptr, i64, ptr, i64)"@,
        "declare i64 @nir_tcp_connect(ptr, i64, i64)"@,
        "declare i64 @nir_tcp_listen(i64)"@,
        "declare i64 @nir_tcp_accept(i64)"@,
        "declare i64 @nir_tcp_send(i64, ptr, i64)"@,
        "declare i64 @nir_tcp_recv(i64, ptr, i64)"@,
        "declare i32 @nir_tcp_stop(i64)"@,
        "declare ptr @nir_alloc(i64)"@,
        "declare void @nir_free(ptr)"@,
        "@.int_fmt = private unnamed_addr constant [6 x i8] c\"%lld\\0A\\00\""@,
        "@.float_fmt = private unnamed_addr constant [4 x i8] c\"%f\\0A\\00\""@,
        "@.str_fmt = private unnamed_addr constant [6 x i8] c\"%.*s\\0A\\00\""@,
        ""@,
    ]
}

/// Lines as one text, each with its line break.
pub open spec fn text(lines: Seq<Text>) -> Text
    decreases lines.len(),
{
    if lines.len() == 0 {
        Seq::empty()
    } else {
        text(lines.drop_last()) + lines.last() + "\n"@
    }
}

/// A module in which nothing has been made.
pub open spec fn fresh_module() -> Cx {
    Cx {
        head: declarations(),
        slots: Seq::empty(),
        body: Seq::empty(),
        globals: Seq::empty(),
        tmp: 0,
        label: 0,
        terminated: false,
        audited: false,
    }
}

/// The text of a program's module, or why it has none: what is not supported is
/// found before any code is made.
pub open spec fn module_text(p: Program, report: SmtReport, free: FreeMap) -> Result<Text, SHalt> {
    let g = G { p, report, free, ret: STy::Unit };
    match fns_fault(p, p.fns@.len()) {
        Some(h) => Err(h),
        None => match functions(g, fresh_module(), p.fns@.len()) {
            Gen::Halt(h) => Err(h),
            Gen::Made(c, _) => match first_fn(p.fns@, "main"@, 0) {
                None => Err(SHalt::IllTyped),
                Some(i) => match entry_point(Cx { body: Seq::empty(), ..c }, p.fns@[i].ret@) {
                    Gen::Halt(h) => Err(h),
                    Gen::Made(d, _) => Ok(text(d.head + d.body + d.globals)),
                },
            },
        },
    }
}

/// `r` is what `s` says.
pub open spec fn is_text(r: Result<String, Halt>, s: Result<Text, SHalt>) -> bool {
    match r {
        Ok(t) => s == Ok::<Text, SHalt>(t@),
        Err(h) => s == Err::<Text, SHalt>(h@),
    }
}

/// `r` is what `s` says.
pub open spec fn is_listed(r: Result<Vec<String>, Halt>, s: Listed) -> bool {
    match r {
        Ok(v) => s == Listed::Is(lines_view(v@)),
        Err(h) => s == Listed::Not(h@),
    }
}

fn write_param(p: &Param) -> (r: Result<String, Halt>)
    ensures
        is_llvm(r, header_param(*p)),
{
    if is_aggregate(&p.ty) {
        return Ok(cat2("ptr %arg.", p.name.as_str()));
    }
    let ty = llvm_ty(&p.ty)?;
    Ok(cat3(ty.as_str(), " %arg.", p.name.as_str()))
}

proof fn header_params_stop(first: Seq<Text>, ps: Seq<Param>, a: nat, b: nat)
    requires
        a <= b <= ps.len(),
        header_params(first, ps, a) is Not,
    ensures
        header_params(first, ps, b) == header_params(first, ps, a),
    decreases b,
{
    if a < b {
        header_params_stop(first, ps, a, (b - 1) as nat);
    }
}

proof fn param_slots_stop(cx: Cx, sc: Slots, ps: Seq<Param>, a: nat, b: nat)
    requires
        a <= b <= ps.len(),
        param_slots(cx, sc, ps, a) is Halt,
    ensures
        param_slots(cx, sc, ps, b) == param_slots(cx, sc, ps, a),
    decreases b,
{
    if a < b {
        param_slots_stop(cx, sc, ps, a, (b - 1) as nat);
    }
}

proof fn functions_stop(g: G, cx: Cx, a: nat, b: nat)
    requires
        a <= b <= g.p.fns@.len(),
        functions(g, cx, a) is Halt,
    ensures
        functions(g, cx, b) == functions(g, cx, a),
    decreases b,
{
    if a < b {
        functions_stop(g, cx, a, (b - 1) as nat);
    }
}

fn write_params(f: &FnDecl) -> (r: Result<Vec<String>, Halt>)
    ensures
        is_listed(r, header_params(header_first(f.ret@), f.params@, f.params@.len())),
{
    let mut out: Vec<String> = Vec::new();
    if is_aggregate(&f.ret) {
        out.push("ptr %sret.ret".to_owned());
    }
    let ghost first = header_first(f.ret@);
    proof {
        assert(lines_view(out@) =~= first);
    }
    let mut i: usize = 0;
    while i < f.params.len()
        invariant
            i <= f.params@.len(),
            header_params(first, f.params@, i as nat) == Listed::Is(lines_view(out@)),
            first == header_first(f.ret@),
        decreases f.params@.len() - i,
    {
        match write_param(&f.params[i]) {
            Ok(s) => {
                let ghost before = out@;
                let ghost t = s@;
                out.push(s);
                proof {
                    assert(lines_view(out@) =~= lines_view(before).push(t));
                }
            }
            Err(h) => {
                proof {
                    header_params_stop(first, f.params@, (i + 1) as nat, f.params@.len());
                }
                return Err(h);
            }
        }
        i = i + 1;
    }
    Ok(out)
}

fn write_ret(t: &Ty) -> (r: Result<String, Halt>)
    ensures
        is_llvm(r, header_ret(t@)),
{
    if is_aggregate(t) {
        Ok("void".to_owned())
    } else {
        llvm_ty(t)
    }
}

/// Puts `more` behind `lines`.
fn extend(lines: &mut Vec<String>, more: &Vec<String>)
    ensures
        lines_view(final(lines)@) == lines_view(old(lines)@) + lines_view(more@),
{
    let mut i: usize = 0;
    proof {
        assert(lines_view(lines@) =~= lines_view(old(lines)@) + lines_view(more@).take(0));
    }
    while i < more.len()
        invariant
            i <= more@.len(),
            lines_view(lines@) == lines_view(old(lines)@) + lines_view(more@).take(i as int),
        decreases more@.len() - i,
    {
        let ghost before = lines@;
        let s = more[i].clone();
        let ghost t = s@;
        lines.push(s);
        proof {
            assert(lines_view(lines@) =~= lines_view(before).push(t));
            assert(lines_view(more@).take(i + 1) =~= lines_view(more@).take(i as int).push(t));
        }
        i = i + 1;
    }
    proof {
        assert(lines_view(more@).take(i as int) =~= lines_view(more@));
    }
}

fn append_line(lines: &mut Vec<String>, line: String)
    ensures
        lines_view(final(lines)@) == lines_view(old(lines)@).push(line@),
{
    let ghost before = lines@;
    lines.push(line);
    proof {
        assert(lines_view(lines@) =~= lines_view(before).push(line@));
    }
}

impl Module {
    fn param_slot(&mut self, p: &Param) -> (r: Result<(), Halt>)
        ensures
            makes(r, final(self)@, param_slot(old(self)@, *p)),
    {
        proof {
            reveal(param_slot);
        }
        let ty = llvm_ty(&p.ty)?;
        let place = cat3("%", p.name.as_str(), ".addr");
        let arg = cat2("%arg.", p.name.as_str());
        self.slot(place.as_str(), ty.as_str());
        if is_aggregate(&p.ty) {
            match ty_byte_size(&p.ty) {
                None => {
                    return Err(Halt::IllTyped);
                }
                Some(n) => {
                    self.copy_bytes(place.as_str(), arg.as_str(), n);
                }
            }
        } else {
            self.emit(cat6("  store ", ty.as_str(), " %arg.", p.name.as_str(), ", ptr ", place.as_str()));
        }
        Ok(())
    }

    fn function_start(&mut self)
        ensures
            final(self)@ == function_start(old(self)@),
    {
        proof {
            reveal(function_start);
        }
        self.slots = Vec::new();
        self.body = Vec::new();
        self.terminated = false;
        proof {
            assert(self@.slots =~= Seq::empty());
            assert(self@.body =~= Seq::empty());
        }
    }

    fn seal(&mut self, header: String)
        ensures
            final(self)@ == sealed(old(self)@, header@),
    {
        proof {
            reveal(sealed);
        }
        append_line(&mut self.head, header);
        append_line(&mut self.head, "entry:".to_owned());
        extend(&mut self.head, &self.slots);
        extend(&mut self.head, &self.body);
        append_line(&mut self.head, "}".to_owned());
        append_line(&mut self.head, "".to_owned());
    }

    fn exit_code(&mut self, ty: &str, r: &str) -> (out: String)
        ensures
            (final(self)@, out@) == exit_code(old(self)@, ty@, r@),
    {
        if same(ty, "i64") {
            self.define("exit_code", cat3("trunc i64 ", r, " to i32"))
        } else if same(ty, "i32") {
            r.to_owned()
        } else if same(ty, "double") {
            self.define("exit_code", cat3("fptosi double ", r, " to i32"))
        } else {
            self.define("exit_code", cat5("sext ", ty, " ", r, " to i32"))
        }
    }

    fn entry_point(&mut self, ret: &Ty) -> (r: Result<(), Halt>)
        ensures
            makes(r, final(self)@, entry_point(old(self)@, ret@)),
    {
        if is_aggregate(ret) {
            return Err(
                unsupported(
                    "codegen doesn't support `main` returning a Vector/Matrix directly yet — print its elements instead of returning the aggregate itself".to_owned(),
                ),
            );
        }
        if matches!(ret, Ty::Str) {
            return Err(
                unsupported(
                    "codegen doesn't support `main` returning `str` directly yet — print it instead of returning it".to_owned(),
                ),
            );
        }
        let ty = llvm_ty(ret)?;
        self.emit("define i32 @main() {".to_owned());
        self.emit("entry:".to_owned());
        if matches!(ret, Ty::Unit) {
            self.emit("  call void @nir_main()".to_owned());
            self.emit("  ret i32 0".to_owned());
        } else {
            let r = self.define("main_result", cat3("call ", ty.as_str(), " @nir_main()"));
            let code = self.exit_code(ty.as_str(), r.as_str());
            self.emit(cat2("  ret i32 ", code.as_str()));
        }
        self.emit("}".to_owned());
        Ok(())
    }
}

impl<'a> Codegen<'a> {
    fn param_slots(&mut self, f: &FnDecl, sc: &mut Scopes<Slot>) -> (r: Result<(), Halt>)
        ensures
            final(self).g() == old(self).g(),
            makes_slots(
                r,
                final(self).m@,
                final(sc)@,
                param_slots(old(self).m@, old(sc)@, f.params@, f.params@.len()),
            ),
    {
        let ghost cx = self.m@;
        let ghost s = sc@;
        let mut i: usize = 0;
        while i < f.params.len()
            invariant
                i <= f.params@.len(),
                self.g() == old(self).g(),
                cx == old(self).m@,
                s == old(sc)@,
                param_slots(cx, s, f.params@, i as nat) == Gen::Made(self.m@, sc@),
            decreases f.params@.len() - i,
        {
            let p = &f.params[i];
            match self.m.param_slot(p) {
                Ok(_) => {}
                Err(h) => {
                    proof {
                        param_slots_stop(cx, s, f.params@, (i + 1) as nat, f.params@.len());
                    }
                    return Err(h);
                }
            }
            let ptr = cat3("%", p.name.as_str(), ".addr");
            sc.define(p.name.as_str(), Slot { ty: p.ty.duplicate(), ptr });
            i = i + 1;
        }
        Ok(())
    }

    fn function_end(&mut self, f: &FnDecl, sc: &Scopes<Slot>)
        ensures
            final(self).g() == old(self).g(),
            final(self).m@ == function_end(old(self).g(), old(self).m@, sc@, *f),
    {
        proof {
            reveal(function_end);
        }
        if !self.m.terminated {
            self.m.free_in(&self.plan.free.at_fn_end, f.name.as_str(), sc);
            if matches!(f.ret, Ty::Unit) {
                self.m.emit("  ret void".to_owned());
            } else {
                self.m.emit("  unreachable".to_owned());
            }
        }
    }

    /// Makes one function.
    pub fn function(&mut self, f: &FnDecl) -> (r: Result<(), Halt>)
        ensures
            makes(r, final(self).m@, function(old(self).g(), old(self).m@, *f)),
            final(self).g() == (G { ret: final(self).g().ret, ..old(self).g() }),
    {
        let ghost g = self.g();
        self.plan.ret = f.ret.duplicate();
        proof {
            assert(self.g() == (G { ret: f.ret@, ..g }));
        }
        let ret = write_ret(&f.ret)?;
        let params = write_params(f)?;
        self.m.function_start();
        let mut sc: Scopes<Slot> = Scopes::new();
        sc.push();
        proof {
            assert(sc@ =~= seq![Map::<Seq<char>, (STy, Text)>::empty()]);
        }
        self.param_slots(f, &mut sc)?;
        self.stmts(&f.body.stmts, f.body.stmts.len(), &mut sc)?;
        self.function_end(f, &sc);
        let name = if same(f.name.as_str(), "main") {
            "nir_main"
        } else {
            f.name.as_str()
        };
        let list = join(&params);
        self.m.seal(cat7("define ", ret.as_str(), " @", name, "(", list.as_str(), ") {"));
        Ok(())
    }
}

fn declared() -> (r: Vec<String>)
    ensures
        lines_view(r@) == declarations(),
{
    let mut out: Vec<String> = Vec::new();
    proof {
        assert(lines_view(out@) =~= Seq::<Text>::empty());
    }
    append_line(&mut out, "declare i32 @printf(ptr, ...)".to_owned());
    append_line(&mut out, "declare void @abort() noreturn".to_owned());
    append_line(&mut out, "declare void @llvm.memcpy.p0.p0.i64(ptr noalias writeonly, ptr noalias readonly, i64, i1 immarg)".to_owned());
    append_line(&mut out, "declare double @llvm.sqrt.f64(double)".to_owned());
    append_line(&mut out, "declare double @llvm.sin.f64(double)".to_owned());
    append_line(&mut out, "declare double @llvm.cos.f64(double)".to_owned());
    append_line(&mut out, "declare double @llvm.fabs.f64(double)".to_owned());
    append_line(&mut out, "declare double @llvm.maxnum.f64(double, double)".to_owned());
    append_line(&mut out, "declare double @atan2(double, double)".to_owned());
    append_line(&mut out, "declare double @nir_det(ptr, i64)".to_owned());
    append_line(&mut out, "declare i32 @nir_inv(ptr, i64, ptr)".to_owned());
    append_line(&mut out, "declare i32 @nir_solve(ptr, i64, ptr, ptr)".to_owned());
    append_line(&mut out, "declare i64 @nir_rank(ptr, i64, i64)".to_owned());
    append_line(&mut out, "declare i32 @nir_kf_update_state(ptr, ptr, ptr, ptr, ptr, i64, i64, ptr)".to_owned());
    append_line(&mut out, "declare i32 @nir_kf_update_cov(ptr, ptr, ptr, ptr, ptr, i64, i64, ptr)".to_owned());
    append_line(&mut out, "declare i32 @nir_str_eq(ptr, i64, ptr, i64)".to_owned());
    append_line(&mut out, "declare i64 @nir_tcp_connect(ptr, i64, i64)".to_owned());
    append_line(&mut out, "declare i64 @nir_tcp_listen(i64)".to_owned());
    append_line(&mut out, "declare i64 @nir_tcp_accept(i64)".to_owned());
    append_line(&mut out, "declare i64 @nir_tcp_send(i64, ptr, i64)".to_owned());
    append_line(&mut out, "declare i64 @nir_tcp_recv(i64, ptr, i64)".to_owned());
    append_line(&mut out, "declare i32 @nir_tcp_stop(i64)".to_owned());
    append_line(&mut out, "declare ptr @nir_alloc(i64)".to_owned());
    append_line(&mut out, "declare void @nir_free(ptr)".to_owned());
    append_line(&mut out, "@.int_fmt = private unnamed_addr constant [6 x i8] c\"%lld\\0A\\00\"".to_owned());
    append_line(&mut out, "@.float_fmt = private unnamed_addr constant [4 x i8] c\"%f\\0A\\00\"".to_owned());
    append_line(&mut out, "@.str_fmt = private unnamed_addr constant [6 x i8] c\"%.*s\\0A\\00\"".to_owned());
    append_line(&mut out, "".to_owned());
    proof {
        assert(lines_view(out@) =~= declarations());
    }
    out
}

fn as_text(lines: &Vec<String>) -> (r: String)
    ensures
        r@ == text(lines_view(lines@)),
{
    let ghost all = lines_view(lines@);
    let mut out = String::new();
    let mut i: usize = 0;
    proof {
        assert(out@ =~= text(all.take(0)));
    }
    while i < lines.len()
        invariant
            i <= lines@.len(),
            all == lines_view(lines@),
            out@ == text(all.take(i as int)),
        decreases lines@.len() - i,
    {
        out.append(lines[i].as_str());
        out.append("\n");
        proof {
            assert(all.take(i + 1).drop_last() =~= all.take(i as int));
        }
        i = i + 1;
    }
    proof {
        assert(all.take(i as int) =~= all);
    }
    out
}

/// The LLVM IR of a program, given what was proved of its guards and where its
/// boxes are to be freed.
pub fn emit_llvm_ir(program: &Program, smt_report: &SmtReport, free_map: &FreeMap) -> (r: Result<
    String,
    Halt,
>)
    ensures
        is_text(r, module_text(*program, *smt_report, *free_map)),
{
    check_supported(program)?;
    let m = Module {
        head: declared(),
        slots: Vec::new(),
        body: Vec::new(),
        globals: Vec::new(),
        tmp: 0,
        label: 0,
        terminated: false,
        audited: false,
    };
    let ghost g = G { p: *program, report: *smt_report, free: *free_map, ret: STy::Unit };
    let ghost cx = fresh_module();
    let mut cg = Codegen {
        plan: Plan { program, report: smt_report, free: free_map, ret: Ty::Unit },
        m,
    };
    proof {
        assert(cg.m@.slots =~= Seq::empty());
        assert(cg.m@.body =~= Seq::empty());
        assert(cg.m@.globals =~= Seq::empty());
    }
    let mut i: usize = 0;
    while i < program.fns.len()
        invariant
            i <= program.fns@.len(),
            g.p == *program,
            cg.g() == (G { ret: cg.g().ret, ..g }),
            functions(g, cx, i as nat) == Gen::Made(cg.m@, ()),
            fns_fault(*program, program.fns@.len()) is None,
            g == (G { p: *program, report: *smt_report, free: *free_map, ret: STy::Unit }),
            cx == fresh_module(),
        decreases program.fns@.len() - i,
    {
        match cg.function(&program.fns[i]) {
            Ok(_) => {}
            Err(h) => {
                proof {
                    functions_stop(g, cx, (i + 1) as nat, program.fns@.len());
                }
                return Err(h);
            }
        }
        i = i + 1;
    }
    match find_first_fn(program, "main") {
        None => Err(Halt::IllTyped),
        Some(k) => {
            cg.m.body = Vec::new();
            proof {
                assert(cg.m@.body =~= Seq::empty());
            }
            cg.m.entry_point(&program.fns[k].ret)?;
            let mut lines = cg.m.head;
            extend(&mut lines, &cg.m.body);
            extend(&mut lines, &cg.m.globals);
            Ok(as_text(&lines))
        }
    }
}

} // verus!
