use nirdosha::ast::Program;
use nirdosha::builtin_eval::draw;
use nirdosha::effects::infer_effects;
use nirdosha::interpreter::{Ctrl, Interpreter, Run};
use nirdosha::observability::error_kind_name;
use nirdosha::request::{Request, Response};
use nirdosha::source::parse_source;
use nirdosha::value::{ErrorKind, Piece, RuntimeError, Value};

fn program(src: &str) -> Program {
    match parse_source(src) {
        Ok(p) => p,
        Err(e) => panic!("{}", e.to_text()),
    }
}

enum End {
    Value(Value),
    Error(RuntimeError),
    Stuck,
}

fn finish(mut run: Run, printed: &mut Vec<String>) -> End {
    loop {
        let response = match &run.ctrl {
            Ctrl::Done(_) | Ctrl::Failed(_) | Ctrl::Stuck => break,
            Ctrl::Ask(request, _) => Some(respond(request, printed)),
            _ => None,
        };
        run = match response {
            Some(r) => run.resume(r),
            None => run.advance(16),
        };
    }
    match run.ctrl {
        Ctrl::Done(v) => End::Value(v),
        Ctrl::Failed(e) => End::Error(e),
        _ => End::Stuck,
    }
}

fn respond(request: &Request, printed: &mut Vec<String>) -> Response {
    match request {
        Request::Print(pieces) => {
            let mut line = String::new();
            for p in pieces {
                match p {
                    Piece::Text(t) => line.push_str(t),
                    Piece::Float(b) => line.push_str(&f64::from_bits(*b).to_string()),
                }
            }
            printed.push(line);
            Response::Value(Value::Unit)
        }
        Request::Uniform(bits) => {
            let x = *bits as f64 / 9007199254740992.0;
            Response::Value(Value::Float(x.to_bits()))
        }
        Request::Channel => Response::Value(Value::Channel(7)),
        Request::Spawn { .. } => Response::Value(Value::Thread(3)),
        Request::Join(h) => {
            assert_eq!(*h, 3);
            Response::Panicked("boom".to_string())
        }
        _ => Response::IoError("not here".to_string()),
    }
}

fn value(src: &str) -> Value {
    let p = program(src);
    let mut printed = Vec::new();
    match finish(Interpreter::new(&p).run_main(), &mut printed) {
        End::Value(v) => v,
        End::Error(e) => panic!("{}", e.to_text()),
        End::Stuck => panic!("stuck"),
    }
}

fn error(src: &str) -> RuntimeError {
    let p = program(src);
    let mut printed = Vec::new();
    match finish(Interpreter::new(&p).run_main(), &mut printed) {
        End::Value(_) => panic!("no error"),
        End::Error(e) => e,
        End::Stuck => panic!("stuck"),
    }
}

fn number(v: Value) -> i64 {
    match v {
        Value::Int(n) => n,
        _ => panic!("no integer"),
    }
}

#[test]
fn factorial_by_recursion() {
    let src = "fn fact(n: i64) -> i64 { if n <= 1 { return 1 } return n * fact(n - 1) } \
               fn main() -> i64 { return fact(10) }";
    assert_eq!(number(value(src)), 3628800);
}

#[test]
fn sum_by_a_loop() {
    let src = "fn main() -> i64 { let i: i64 = 0 let s: i64 = 0 \
               while i < 5 { i = i + 1 s = s + i } return s }";
    assert_eq!(number(value(src)), 15);
}

#[test]
fn if_has_a_value() {
    let src = "fn main() -> i64 { let x: i64 = if 1 < 2 { 10 } else { 20 } return x }";
    assert_eq!(number(value(src)), 10);
    let src = "fn main() -> i64 { let x: i64 = if 2 < 1 { 10 } else if true { 20 } else { 30 } return x }";
    assert_eq!(number(value(src)), 20);
}

#[test]
fn scopes_end_with_their_block() {
    let src = "fn main() -> i64 { let x: i64 = 1 if true { let x: i64 = 2 x = 3 } return x }";
    assert_eq!(number(value(src)), 1);
    let src = "fn main() -> i64 { let x: i64 = 1 if true { x = 3 } return x }";
    assert_eq!(number(value(src)), 3);
}

#[test]
fn right_operand_is_skipped() {
    let src = "fn f() -> bool { print(1) return true } \
               fn main() -> bool { return false && f() }";
    let p = program(src);
    let mut printed = Vec::new();
    let end = finish(Interpreter::new(&p).run_main(), &mut printed);
    assert!(matches!(end, End::Value(Value::Bool(false))));
    assert!(printed.is_empty());
    let p = program("fn f() -> bool { print(1) return true } fn main() -> bool { return true && f() }");
    let end = finish(Interpreter::new(&p).run_main(), &mut printed);
    assert!(matches!(end, End::Value(Value::Bool(true))));
    assert_eq!(printed, vec!["1".to_string()]);
}

#[test]
fn print_takes_several_values() {
    let p = program("fn main() { print(1, true) print(-2) }");
    let mut printed = Vec::new();
    finish(Interpreter::new(&p).run_main(), &mut printed);
    assert_eq!(printed.len(), 2);
    assert_eq!(printed[0], "1 true");
    assert_eq!(printed[1], "-2");
}

#[test]
fn division_truncates() {
    assert_eq!(number(value("fn main() -> i64 { return -7 / 2 }")), -3);
    assert_eq!(number(value("fn main() -> i64 { return 7 / 2 }")), 3);
}

#[test]
fn division_by_zero_fails() {
    let e = error("fn main() -> i64 { return 1 / 0 }");
    assert!(matches!(e.kind, ErrorKind::DivByZero));
    assert!(e.to_text().ends_with(": division by zero"));
    assert_eq!(error_kind_name(&e.kind), "DivByZero");
}

#[test]
fn value_out_of_range_fails() {
    let e = error("fn main() { let x: u8 = 256 }");
    assert!(matches!(e.kind, ErrorKind::OutOfRange { value: 256, .. }));
    assert_eq!(
        e.to_text(),
        "1:13: value 256 does not fit in `u8` (Tier-2 checked op — see goal.md §4; not yet proved absent at compile time)"
    );
}

#[test]
fn assignment_keeps_the_declared_type() {
    let e = error("fn main() { let x: u8 = 1 x = 300 }");
    assert!(matches!(e.kind, ErrorKind::OutOfRange { value: 300, .. }));
}

#[test]
fn unknown_names_fail() {
    let e = error("fn main() -> i64 { return y }");
    assert!(matches!(&e.kind, ErrorKind::UnknownVar(n) if n == "y"));
    let e = error("fn main() { g() }");
    assert!(matches!(&e.kind, ErrorKind::UnknownFn(n) if n == "g"));
    let e = error("fn f() { }");
    assert!(matches!(&e.kind, ErrorKind::UnknownFn(n) if n == "main"));
}

#[test]
fn wrong_number_of_arguments_fails() {
    let e = error("fn f(a: i64) { } fn main() { f() }");
    assert!(matches!(e.kind, ErrorKind::ArityMismatch { want: 1, got: 0, .. }));
    assert!(e.to_text().contains("`f` expects 1 argument(s), got 0"));
}

#[test]
fn wrong_type_fails() {
    let e = error("fn main() { let x: bool = 1 }");
    assert!(matches!(&e.kind, ErrorKind::TypeMismatch { expected, .. } if expected == "bool"));
    let e = error("fn main() { if 1 { } }");
    assert!(matches!(&e.kind, ErrorKind::TypeMismatch { expected, .. } if expected == "bool"));
}

#[test]
fn missing_return_fails() {
    let e = error("fn f() -> i64 { } fn main() -> i64 { return f() }");
    assert!(matches!(&e.kind, ErrorKind::MissingReturn { fn_name } if fn_name == "f"));
    assert!(e.to_text().ends_with("`f` did not return a value"));
}

#[test]
fn boxes_hold_their_value() {
    assert_eq!(number(value("fn main() -> i64 { let b: box i64 = box 41 return *b + 1 }")), 42);
}

#[test]
fn references_see_the_value() {
    let src = "fn f(r: & i64) -> i64 { return *r * 2 } fn main() -> i64 { let x: i64 = 21 return f(&x) }";
    assert_eq!(number(value(src)), 42);
}

#[test]
fn thread_that_ends_badly_is_reported() {
    let e = error("fn f() { } fn main() { let t: thread unit = spawn f() join t }");
    assert!(matches!(&e.kind, ErrorKind::ThreadPanicked { message } if message == "boom"));
    assert!(e.to_text().ends_with("spawned thread panicked: boom"));
}

#[test]
fn random_numbers_need_a_seed() {
    let e = error("fn main() { rand_f64() }");
    assert!(matches!(e.kind, ErrorKind::RngNotSeeded));
}

#[test]
fn random_numbers_repeat_with_their_seed() {
    let p = program("fn main() { rand_seed(42) print(rand_f64()) print(rand_f64()) }");
    let mut a = Vec::new();
    let mut b = Vec::new();
    finish(Interpreter::new(&p).run_main(), &mut a);
    finish(Interpreter::new(&p).run_main(), &mut b);
    assert_eq!(a, b);
    assert_ne!(a[0], a[1]);
}

#[test]
fn draws_stay_below_two_to_the_53() {
    let mut state: u64 = 42;
    for _ in 0..100 {
        assert!(draw(&mut state) < 9007199254740992);
    }
}

#[test]
fn calls_by_name() {
    let p = program("fn add(a: i64, b: i64) -> i64 { return a + b } fn main() { }");
    let mut printed = Vec::new();
    let run = Interpreter::new(&p).call_named("add", vec![Value::Int(2), Value::Int(3)]);
    assert!(matches!(finish(run, &mut printed), End::Value(Value::Int(5))));
}

#[test]
fn later_function_of_a_name_counts() {
    let src = "fn f() -> i64 { return 1 } fn f() -> i64 { return 2 } fn main() -> i64 { return f() }";
    assert_eq!(number(value(src)), 2);
}

#[test]
fn part_of_a_run_does_not_depend_on_what_waits() {
    let alone = "fn f() -> i64 { return 3 * 4 } fn main() -> i64 { return f() }";
    let waited = "fn f() -> i64 { return 3 * 4 } fn main() -> i64 { return 100 + (f() + (f() + 0)) }";
    assert_eq!(number(value(alone)), 12);
    assert_eq!(number(value(waited)), 124);
}

#[test]
fn refused_input_or_output_is_an_error() {
    let p = program("fn main() { let t: thread unit = spawn main() }");
    let mut printed = Vec::new();
    assert!(matches!(finish(Interpreter::new(&p).run_main(), &mut printed), End::Value(_)));
    let r = Response::IoError("x".to_string());
    assert!(matches!(r, Response::IoError(_)));
}

#[test]
fn effects_bound_what_is_asked() {
    let p = program(
        "fn quiet(n: i64) -> i64 { if n > 0 { return n + quiet(n - 1) } return 0 } \
         fn loud(n: i64) -> i64 { print(n) return quiet(n) } fn main() { }",
    );
    let e = infer_effects(&p);
    assert!(!e[0].inferred.io);
    assert!(e[1].inferred.io);
    let mut printed = Vec::new();
    let run = Interpreter::new(&p).call_named("quiet", vec![Value::Int(4)]);
    assert!(matches!(finish(run, &mut printed), End::Value(Value::Int(10))));
    assert!(printed.is_empty());
    let run = Interpreter::new(&p).call_named("loud", vec![Value::Int(4)]);
    assert!(matches!(finish(run, &mut printed), End::Value(Value::Int(10))));
    assert_eq!(printed, vec!["4".to_string()]);
}
