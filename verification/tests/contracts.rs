use nirdosha::ast::Program;
use nirdosha::contract_check::{check_fn_contract, ContractCheckResult};
use nirdosha::interpreter::{Ctrl, Interpreter};
use nirdosha::scopes::Table;
use nirdosha::source::parse_source;
use nirdosha::terms::{model_value, script_text, solve, Answer, BoolTerm, IntTerm};
use nirdosha::value::Value;

fn program(src: &str) -> Program {
    match parse_source(src) {
        Ok(p) => p,
        Err(e) => panic!("{}", e.to_text()),
    }
}

fn texts(v: &[&str]) -> Vec<String> {
    v.iter().map(|s| s.to_string()).collect()
}

fn check(src: &str, name: &str, pre: &[&str], post: &[&str], extra: &[(&str, i64)]) -> ContractCheckResult {
    let mut t: Table<i64> = Table::new();
    for (n, v) in extra {
        t.insert(n, *v);
    }
    check_fn_contract(&program(src), name, &texts(pre), &texts(post), &t)
}

const EYES: &str = "fn required_eyes_for_amount(amount_cents: i64) -> i64 { \
                    if amount_cents >= 1000000 { return 2 } else { return 1 } }";

#[test]
fn threshold_contract_is_proved() {
    let r = check(
        EYES,
        "required_eyes_for_amount",
        &[],
        &["(result == 2) == (amount_cents >= high_value_threshold)"],
        &[("high_value_threshold", 1000000)],
    );
    assert!(matches!(r, ContractCheckResult::Proved));
}

#[test]
fn threshold_that_is_off_is_refuted() {
    let r = check(
        EYES,
        "required_eyes_for_amount",
        &[],
        &["(result == 2) == (amount_cents >= high_value_threshold)"],
        &[("high_value_threshold", 1000001)],
    );
    let ContractCheckResult::Counterexample { violated_predicate, bindings, result } = r else {
        panic!("not refuted")
    };
    assert_eq!(violated_predicate, "(result == 2) == (amount_cents >= high_value_threshold)");
    assert!(bindings.iter().any(|b| b.0 == "amount_cents" && b.1 == 1000000));
    assert!(bindings.iter().any(|b| b.0 == "high_value_threshold" && b.1 == 1000001));
    assert_eq!(result, Some(2));
}

#[test]
fn name_without_a_value_is_reported() {
    let r = check(
        EYES,
        "required_eyes_for_amount",
        &[],
        &["result == high_value_threshold"],
        &[],
    );
    assert!(matches!(r, ContractCheckResult::UnboundIdentifier(n) if n == "high_value_threshold"));
}

#[test]
fn missing_function_is_reported() {
    let r = check(EYES, "f", &[], &["true"], &[]);
    assert!(matches!(r, ContractCheckResult::NoSuchFunction(n) if n == "f"));
}

#[test]
fn predicate_that_is_no_expression_is_reported() {
    let r = check(EYES, "required_eyes_for_amount", &["1 +"], &["true"], &[]);
    assert!(matches!(r, ContractCheckResult::PredicateParseError(m) if m.starts_with("parse error at ")));
    let r = check(EYES, "required_eyes_for_amount", &[], &["$"], &[]);
    assert!(matches!(r, ContractCheckResult::PredicateParseError(m) if m.starts_with("lex error at ")));
}

#[test]
fn precondition_narrows_the_inputs() {
    let src = "fn f(a: i64) -> i64 { return a }";
    assert!(matches!(check(src, "f", &["a > 0"], &["result >= 1"], &[]), ContractCheckResult::Proved));
    let r = check(src, "f", &[], &["result >= 1"], &[]);
    assert!(matches!(r, ContractCheckResult::Counterexample { .. }));
}

#[test]
fn types_bound_the_inputs() {
    let src = "fn f(a: u8) -> i64 { return a + 1 }";
    assert!(matches!(check(src, "f", &[], &["result >= 1 && result <= 256"], &[]), ContractCheckResult::Proved));
    let r = check(src, "f", &[], &["result <= 255"], &[]);
    let ContractCheckResult::Counterexample { bindings, result, .. } = r else { panic!("not refuted") };
    assert!(bindings.iter().any(|b| b.0 == "a" && b.1 == 255));
    assert_eq!(result, Some(256));
}

#[test]
fn path_behind_an_early_return_is_exact() {
    let src = "fn f(a: i64) -> i64 { if a > 0 { return 1 } return 0 }";
    let r = check(src, "f", &[], &["(result == 1) == (a > 0)"], &[]);
    assert!(matches!(r, ContractCheckResult::Proved));
}

#[test]
fn locals_and_values_of_if_are_followed() {
    let src = "fn f(a: i32) -> i64 { let b: i64 = if a < 0 { -a } else { a } let c: i64 = b * 2 return c }";
    assert!(matches!(check(src, "f", &[], &["result >= 0"], &[]), ContractCheckResult::Proved));
    let r = check(src, "f", &[], &["result < 10"], &[]);
    let ContractCheckResult::Counterexample { bindings, result, .. } = r else { panic!("not refuted") };
    let of = |n: &str| bindings.iter().find(|b| b.0 == n).map(|b| b.1);
    let (Some(a), Some(c)) = (of("a"), of("c")) else { panic!("no bindings") };
    assert_eq!(c, a.abs() * 2);
    assert_eq!(result, Some(c));
    assert!(c >= 10);
}

#[test]
fn first_violated_predicate_is_named() {
    let src = "fn f(a: i64) -> i64 { return 5 }";
    let r = check(src, "f", &[], &["result == 5", "result == 6", "result == 7"], &[]);
    let ContractCheckResult::Counterexample { violated_predicate, result, .. } = r else {
        panic!("not refuted")
    };
    assert_eq!(violated_predicate, "result == 6");
    assert_eq!(result, Some(5));
}

#[test]
fn what_is_not_modelled_is_unsupported() {
    let r = check("fn f(a: bool) -> i64 { return 1 }", "f", &[], &["true"], &[]);
    assert!(matches!(r, ContractCheckResult::Unsupported(m)
        if m == "parameter `a` has type `bool` — Tier 1 only models integer parameters today"));
    let r = check("fn f(a: i64) -> bool { return true }", "f", &[], &["true"], &[]);
    assert!(matches!(r, ContractCheckResult::Unsupported(m)
        if m == "`f` returns `bool` — Tier 1 only models an integer-returning function today"));
    let r = check("fn f(a: i64) -> i64 { while a > 0 { } return 1 }", "f", &[], &["true"], &[]);
    assert!(matches!(r, ContractCheckResult::Unsupported(m) if m.starts_with("Tier 1 doesn't model loops")));
    let r = check("fn f(a: i64) -> i64 { return a / 2 }", "f", &[], &["true"], &[]);
    assert!(matches!(r, ContractCheckResult::Unsupported(m) if m.starts_with("Tier 1 doesn't model division's result")));
    let r = check("fn f(a: i64) -> i64 { return f(a) }", "f", &[], &["true"], &[]);
    assert!(matches!(r, ContractCheckResult::Unsupported(m) if m == "Tier 1 doesn't model `Call(\"f\", [Ident(\"a\", Span { line: 1, col: 32 })], \
                 Span { line: 1, col: 30 })` — only integer literals/identifiers, +-*, and if/else are supported"));
    let r = check("fn f(a: i64) -> i64 { return a }", "f", &["a"], &["true"], &[]);
    assert!(matches!(r, ContractCheckResult::Unsupported(m) if m == "pre_logic `a`: Tier 1 doesn't model `Ident(\"a\", Span { line: 1, col: 1 })` as a boolean expression — \
                 only comparisons, `&&`/`||`/`!`, and a boolean-shaped `==`/`!=` are supported"));
}

#[test]
fn counterexample_before_the_unsupported_part_counts() {
    let src = "fn f(a: i64) -> i64 { if a == 3 { return 4 } while true { } return 1 }";
    let r = check(src, "f", &[], &["result == 1"], &[]);
    let ContractCheckResult::Counterexample { bindings, result, .. } = r else { panic!("not refuted") };
    assert!(bindings.iter().any(|b| b.0 == "a" && b.1 == 3));
    assert_eq!(result, Some(4));
}

#[test]
fn parameter_wins_over_an_extra_binding() {
    let src = "fn f(a: u8) -> i64 { return a }";
    assert!(matches!(check(src, "f", &[], &["result == a"], &[("a", 7)]), ContractCheckResult::Proved));
    assert!(matches!(check(src, "f", &[], &["result == 7"], &[("a", 7)]), ContractCheckResult::Counterexample { .. }));
}

#[test]
fn result_that_does_not_fit_is_left_out() {
    let src = "fn f(a: i64) -> i64 { return a * a }";
    let r = check(src, "f", &["a == 9223372036854775807"], &["result == 0"], &[]);
    assert!(matches!(r, ContractCheckResult::Counterexample { result: None, .. }));
}

fn var(k: u64) -> Box<IntTerm> {
    Box::new(IntTerm::Var(k))
}

fn lit(n: i64) -> Box<IntTerm> {
    Box::new(IntTerm::Lit(n))
}

#[test]
fn terms_are_written_for_the_solver() {
    let claims = vec![
        BoolTerm::Lt(var(0), lit(-5)),
        BoolTerm::Eq(Box::new(IntTerm::Add(var(0), var(1))), lit(3)),
    ];
    assert_eq!(
        script_text(2, &claims),
        "(declare-const v0 Int)\n(declare-const v1 Int)\n(assert (< v0 (- 5)))\n(assert (= (+ v0 v1) 3))\n"
    );
    assert_eq!(IntTerm::Lit(i64::MIN).to_text(), "(- 9223372036854775808)");
}

#[test]
fn solver_finds_values() {
    let claims = vec![
        BoolTerm::Eq(Box::new(IntTerm::Mul(var(0), lit(2))), lit(14)),
        BoolTerm::Eq(var(1), Box::new(IntTerm::Sub(var(0), lit(10)))),
    ];
    let Answer::Sat(m) = solve(2, &claims) else { panic!("no model") };
    assert_eq!(model_value(&m, 0), Some(7));
    assert_eq!(model_value(&m, 1), Some(-3));
}

#[test]
fn solver_finds_contradictions() {
    let claims = vec![
        BoolTerm::Gt(var(0), lit(3)),
        BoolTerm::Not(Box::new(BoolTerm::Ge(var(0), lit(4)))),
    ];
    assert!(matches!(solve(1, &claims), Answer::Unsat));
}

#[test]
fn value_that_does_not_fit_has_no_number() {
    let claims = vec![BoolTerm::Eq(
        var(0),
        Box::new(IntTerm::Mul(lit(i64::MAX), lit(4))),
    )];
    let Answer::Sat(m) = solve(1, &claims) else { panic!("no model") };
    assert_eq!(model_value(&m, 0), None);
}

fn outcome(p: &Program, name: &str, arg: i64) -> i64 {
    let mut run = Interpreter::new(p).call_named(name, vec![Value::Int(arg)]);
    while !matches!(run.ctrl, Ctrl::Done(_) | Ctrl::Failed(_) | Ctrl::Stuck | Ctrl::Ask(..)) {
        run = run.advance(16);
    }
    match run.ctrl {
        Ctrl::Done(Value::Int(n)) => n,
        _ => panic!("no integer"),
    }
}

#[test]
fn counterexample_is_a_run() {
    let src = "fn f(a: i32) -> i64 { let b: i64 = a * 3 if b > 50 { return b - 1 } return b + 7 }";
    let r = check(src, "f", &["a > 10"], &["result < 60"], &[]);
    let ContractCheckResult::Counterexample { bindings, result, .. } = r else { panic!("not refuted") };
    let Some(a) = bindings.iter().find(|b| b.0 == "a").map(|b| b.1) else { panic!("no input") };
    assert!(a > 10);
    assert_eq!(result, Some(outcome(&program(src), "f", a)));
}

#[test]
fn proved_contract_is_kept_by_runs() {
    let src = "fn f(a: i32) -> i64 { let b: i64 = a * 3 if b > 50 { return b - 1 } return b + 7 }";
    assert!(matches!(check(src, "f", &["a > 10"], &["result > 39"], &[]), ContractCheckResult::Proved));
    let p = program(src);
    for a in 11..30 {
        assert!(outcome(&p, "f", a) > 39);
    }
}

#[test]
fn proved_contract_with_given_names_is_kept_by_runs() {
    let post = "(result == 2) == (amount_cents >= high_value_threshold)";
    let given = [("high_value_threshold", 1000000), ("amount_cents", 5)];
    let r = check(EYES, "required_eyes_for_amount", &[], &[post], &given);
    assert!(matches!(r, ContractCheckResult::Proved));
    let p = program(EYES);
    for a in [0, 999999, 1000000, 1000001] {
        assert_eq!(outcome(&p, "required_eyes_for_amount", a) == 2, a >= 1000000);
    }
}
