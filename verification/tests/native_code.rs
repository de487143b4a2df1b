use nirdosha::ast::{Program, Stmt};
use nirdosha::ir::Halt;
use nirdosha::layout::{FreeMap, SmtReport};
use nirdosha::llvm::{emit_llvm_ir, OptLevel};
use nirdosha::source::parse_source;
use nirdosha::support::check_supported;
use nirdosha::token::Span;

fn program(src: &str) -> Program {
    match parse_source(src) {
        Ok(p) => p,
        Err(e) => panic!("{}", e.to_text()),
    }
}

fn nothing_proved() -> SmtReport {
    SmtReport {
        proven_in_range: Vec::new(),
        proven_nonzero_divisor: Vec::new(),
        proven_index_bounds: Vec::new(),
    }
}

fn nothing_freed() -> FreeMap {
    FreeMap {
        at_fn_end: Vec::new(),
        at_return: Vec::new(),
        at_audited_end: Vec::new(),
        at_while_end: Vec::new(),
        at_if_branch_end: Vec::new(),
    }
}

fn code(src: &str) -> String {
    match emit_llvm_ir(&program(src), &nothing_proved(), &nothing_freed()) {
        Ok(s) => s,
        Err(Halt::Unsupported(e)) => panic!("{}", e.to_text()),
        Err(Halt::IllTyped) => panic!("ill typed"),
    }
}

fn refusal(src: &str) -> String {
    match emit_llvm_ir(&program(src), &nothing_proved(), &nothing_freed()) {
        Ok(_) => panic!("accepted"),
        Err(Halt::Unsupported(e)) => e.to_text(),
        Err(Halt::IllTyped) => panic!("ill typed"),
    }
}

#[test]
fn module_of_an_empty_main() {
    let ir = code("fn main() { }");
    assert!(ir.starts_with("declare i32 @printf(ptr, ...)\ndeclare void @abort() noreturn\n"));
    assert!(ir.contains("@.int_fmt = private unnamed_addr constant [6 x i8] c\"%lld\\0A\\00\"\n"));
    assert!(ir.ends_with(
        "define void @nir_main() {\nentry:\n  ret void\n}\n\n\
         define i32 @main() {\nentry:\n  call void @nir_main()\n  ret i32 0\n}\n"
    ));
}

#[test]
fn result_of_main_is_the_exit_code() {
    let ir = code("fn main() -> i64 { return 7 }");
    assert!(ir.contains("define i64 @nir_main() {\nentry:\n"));
    assert!(ir.contains("  ret i64 7\n"));
    assert!(ir.contains(" = call i64 @nir_main()\n"));
    assert!(ir.contains(" = trunc i64 %main_result."));
    let ir = code("fn main() -> i32 { return 7 }");
    assert!(!ir.contains("exit_code"));
    let ir = code("fn main() -> i8 { return 7 }");
    assert!(ir.contains(" = sext i8 %main_result."));
}

#[test]
fn slots_stand_at_the_top_of_a_function() {
    let ir = code("fn f(a: i64) -> i64 { let b: i64 = a if true { let c: i64 = b } return b } fn main() { }");
    let start = ir.find("define i64 @f(i64 %arg.a) {\nentry:\n").unwrap_or(0);
    let body = &ir[start..];
    let last_slot = body[..body.find("}\n").unwrap_or(0)].rfind(" = alloca ").unwrap_or(usize::MAX);
    let first_store = body.find("  store ").unwrap_or(0);
    assert!(last_slot < first_store);
    assert!(body.contains("  %a.addr = alloca i64\n"));
    assert!(body.contains("  store i64 %arg.a, ptr %a.addr\n"));
}

#[test]
fn registers_are_not_named_twice() {
    let ir = code("fn main() -> i64 { let a: i64 = 1 let b: i64 = a + a let c: i64 = b + b while c < 9 { c = c + 1 } return c }");
    let mut names: Vec<&str> = Vec::new();
    for line in ir.lines() {
        if let Some(i) = line.find(" = ") {
            if line.starts_with("  %") {
                names.push(&line[2..i]);
            }
        }
    }
    let all = names.len();
    names.sort();
    names.dedup();
    assert!(all > 8);
    assert_eq!(names.len(), all);
}

#[test]
fn labels_are_not_used_twice() {
    let ir = code(
        "fn main() -> i64 { let c: i64 = 0 while c < 9 { if c > 3 { c = c + 2 } else { c = c + 1 } \
         if c > 3 && c < 5 { c = c + 1 } } return c }",
    );
    let start = ir.find("define i64 @nir_main()").unwrap_or(0);
    let mut labels: Vec<&str> = ir[start..]
        .lines()
        .take_while(|l| *l != "}")
        .filter(|l| l.ends_with(':'))
        .collect();
    let all = labels.len();
    labels.sort();
    labels.dedup();
    assert!(all > 8);
    assert_eq!(labels.len(), all);
}

#[test]
fn check_stands_unless_it_was_proved() {
    let src = "fn main() { let x: i64 = 300 let y: u8 = x }";
    assert!(refusal(src).contains("unsigned"));
    let src = "fn main() { let x: i64 = 300 let y: i8 = x }";
    let guarded = code(src);
    assert!(guarded.contains("@abort()\n  unreachable"));
    let mut report = nothing_proved();
    report.proven_in_range.push(Span { line: 1, col: 13 });
    report.proven_in_range.push(Span { line: 1, col: 30 });
    let bare = match emit_llvm_ir(&program(src), &report, &nothing_freed()) {
        Ok(s) => s,
        Err(_) => panic!("refused"),
    };
    assert!(!bare.contains("call void @abort()"));
    assert!(bare.len() < guarded.len());
}

#[test]
fn waiver_ends_with_its_block() {
    let src = "fn main() { let x: i64 = 100 let y: i8 = x let z: i8 = x }";
    let traps = |p: &Program| match emit_llvm_ir(p, &nothing_proved(), &nothing_freed()) {
        Ok(s) => s.matches("call void @abort()").count(),
        Err(_) => panic!("refused"),
    };
    let mut p = program(src);
    let all = traps(&p);
    let waived = p.fns[0].body.stmts.remove(1);
    let block = Stmt::Audited {
        justification: "checked by hand".to_string(),
        body: vec![waived],
        span: Span { line: 1, col: 30 },
    };
    p.fns[0].body.stmts.insert(1, block);
    let behind = traps(&p);
    p.fns[0].body.stmts.remove(2);
    let none = traps(&p);
    p.fns[0].body.stmts.remove(1);
    assert_eq!(none, traps(&p));
    assert!(behind > none);
    assert_eq!(all - behind, behind - none);
}

#[test]
fn divisor_is_checked() {
    let ir = code("fn f(a: i64) -> i64 { return 10 / a } fn main() { }");
    assert!(ir.contains("sdiv i64 10, "));
    assert!(ir.contains("call void @abort()"));
}

#[test]
fn boxes_are_freed_where_the_map_says() {
    let mut free = nothing_freed();
    free.at_fn_end.push(("main".to_string(), vec!["b".to_string()]));
    let p = program("fn main() { let b: box i64 = box 5 }");
    let ir = match emit_llvm_ir(&p, &nothing_proved(), &free) {
        Ok(s) => s,
        Err(_) => panic!("refused"),
    };
    assert!(ir.contains(" = call ptr @nir_alloc(i64 8)\n"));
    assert!(ir.contains("  call void @nir_free(ptr %b.heap_ptr."));
}

#[test]
fn threads_have_no_code() {
    assert!(refusal("fn f() { } fn main() { spawn f() }").contains("spawn"));
    let p = program("fn f() { } fn main() { let t: thread unit = spawn f() }");
    assert!(check_supported(&p).is_err());
    assert!(check_supported(&program("fn main() { print(1) }")).is_ok());
}

#[test]
fn main_has_to_be_there() {
    let p = program("fn f() { }");
    assert!(matches!(
        emit_llvm_ir(&p, &nothing_proved(), &nothing_freed()),
        Err(Halt::IllTyped)
    ));
}

#[test]
fn levels_have_flags() {
    assert_eq!(OptLevel::O0.clang_flag(), "-O0");
    assert_eq!(OptLevel::O2.clang_flag(), "-O2");
}
