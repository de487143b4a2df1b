use nirdosha::ast::{BinOp, Expr, Program, Stmt, Ty};
use nirdosha::ast::literal_value;
use nirdosha::builtins::Builtin;
use nirdosha::effects::infer_effects;
use nirdosha::ownership::{check_ownership, merge_moved, set_moved, Own, OwnershipErrorKind};
use nirdosha::parser::Parser;
use nirdosha::pipeline::{check_program, read, start, start_diagnostic, Diagnostic, RunFailure, TypeError};
use nirdosha::scopes::{Duplicate, Scopes};
use nirdosha::shown::show_expr;
use nirdosha::source::{parse_source, parse_standalone_expr, SourceError};
use nirdosha::token::{FloatLit, Lexer, Span, Tok, Token};

fn program(src: &str) -> Program {
    match parse_source(src) {
        Ok(p) => p,
        Err(e) => panic!("{}", e.to_text()),
    }
}

fn kinds(src: &str) -> Vec<Tok> {
    match Lexer::new(src).tokenize() {
        Ok(v) => v.into_iter().map(|t| t.tok).collect(),
        Err(e) => panic!("{}", e.message),
    }
}

#[test]
fn tokens_of_a_function_header() {
    let t = kinds("fn f(a: i64) -> bool");
    assert_eq!(t.len(), 10);
    assert!(matches!(&t[0], Tok::Fn));
    assert!(matches!(&t[1], Tok::Ident(n) if n == "f"));
    assert!(matches!(&t[2], Tok::LParen));
    assert!(matches!(&t[5], Tok::TypeName(n) if n == "i64"));
    assert!(matches!(&t[7], Tok::Arrow));
    assert!(matches!(&t[8], Tok::TypeName(n) if n == "bool"));
    assert!(matches!(&t[9], Tok::Eof));
}

#[test]
fn longest_symbol_is_taken() {
    let t = kinds("<= < = == ! != && &");
    assert!(matches!(&t[0], Tok::LtEq));
    assert!(matches!(&t[1], Tok::Lt));
    assert!(matches!(&t[2], Tok::Assign));
    assert!(matches!(&t[3], Tok::EqEq));
    assert!(matches!(&t[4], Tok::Bang));
    assert!(matches!(&t[5], Tok::NotEq));
    assert!(matches!(&t[6], Tok::AndAnd));
    assert!(matches!(&t[7], Tok::Amp));
}

#[test]
fn comments_and_lines_are_counted() {
    let v = match Lexer::new("// one\n  x // two\n y").tokenize() {
        Ok(v) => v,
        Err(_) => panic!("no tokens"),
    };
    assert_eq!(v[0].span, Span { line: 2, col: 3 });
    assert_eq!(v[1].span, Span { line: 3, col: 2 });
    assert_eq!(v[2].span, Span { line: 3, col: 3 });
}

#[test]
fn integer_literal_out_of_range() {
    let e = match Lexer::new("let x: i64 = 9223372036854775808").tokenize() {
        Ok(_) => panic!("accepted"),
        Err(e) => e,
    };
    assert_eq!(e.message, "integer literal `9223372036854775808` out of range");
    assert_eq!(e.span, Span { line: 1, col: 14 });
    assert!(Lexer::new("9223372036854775807").tokenize().is_ok());
}

#[test]
fn unknown_character_is_an_error() {
    let e = match Lexer::new("a # b").tokenize() {
        Ok(_) => panic!("accepted"),
        Err(e) => e,
    };
    assert_eq!(e.span, Span { line: 1, col: 3 });
    assert!(e.message.contains('#'));
}

#[test]
fn precedence_of_operators() {
    let e = match parse_standalone_expr("1 + 2 * 3 == 7 && true") {
        Ok(e) => e,
        Err(e) => panic!("{}", e.to_text()),
    };
    let Expr::Binary(BinOp::And, l, _, _) = e else { panic!("not `&&`") };
    let Expr::Binary(BinOp::Eq, sum, _, _) = *l else { panic!("not `==`") };
    let Expr::Binary(BinOp::Add, _, product, _) = *sum else { panic!("not `+`") };
    assert!(matches!(*product, Expr::Binary(BinOp::Mul, _, _, _)));
}

#[test]
fn subtraction_groups_to_the_left() {
    let e = match parse_standalone_expr("1 - 2 - 3") {
        Ok(e) => e,
        Err(e) => panic!("{}", e.to_text()),
    };
    let Expr::Binary(BinOp::Sub, l, r, _) = e else { panic!("not `-`") };
    assert!(matches!(*l, Expr::Binary(BinOp::Sub, _, _, _)));
    assert!(matches!(*r, Expr::Int(3, _)));
}

#[test]
fn standalone_expression_ends_the_text() {
    let e = match parse_standalone_expr("a b") {
        Ok(_) => panic!("accepted"),
        Err(e) => e,
    };
    assert!(matches!(&e, SourceError::Parse(_)));
    assert!(e.to_text().starts_with("parse error at 1:3: expected end of input, found "));
}

#[test]
fn parse_error_names_the_place() {
    let e = match parse_source("fn main( {") {
        Ok(_) => panic!("accepted"),
        Err(e) => e,
    };
    assert!(e.to_text().starts_with("parse error at 1:10: expected identifier, found "));
}

#[test]
fn lex_error_names_the_place() {
    let e = match parse_source("fn main() {\n  $ }") {
        Ok(_) => panic!("accepted"),
        Err(e) => e,
    };
    assert!(matches!(&e, SourceError::Lex(_)));
    assert!(e.to_text().starts_with("lex error at 2:3: "));
}

#[test]
fn declarations_of_a_program() {
    let p = program("fn main() -> i64 { let x: i64 = 1 return x } fn g(a: u8, b: bool) { }");
    assert_eq!(p.fns.len(), 2);
    assert_eq!(p.fns[0].name, "main");
    assert!(matches!(p.fns[0].ret, Ty::I64));
    assert_eq!(p.fns[0].body.stmts.len(), 2);
    assert!(matches!(&p.fns[0].body.stmts[0], Stmt::Let { name, .. } if name == "x"));
    assert_eq!(p.fns[1].params.len(), 2);
    assert!(matches!(p.fns[1].ret, Ty::Unit));
}

#[test]
fn parser_reads_tokens() {
    let toks = match Lexer::new("fn f() { }").tokenize() {
        Ok(t) => t,
        Err(_) => panic!("no tokens"),
    };
    let p = match Parser::new(toks).parse_program() {
        Ok(p) => p,
        Err(e) => panic!("{}", e.message),
    };
    assert_eq!(p.fns.len(), 1);
}

#[test]
fn literals_may_be_negative() {
    let Ok(e) = parse_standalone_expr("-5") else { panic!("no expression") };
    assert_eq!(literal_value(&e), Some(-5));
    let Ok(e) = parse_standalone_expr("a") else { panic!("no expression") };
    assert_eq!(literal_value(&e), None);
    assert_eq!(e.span(), Span { line: 1, col: 1 });
}

#[test]
fn names_of_types() {
    assert!(matches!(Ty::from_name("u16"), Some(Ty::U16)));
    assert!(Ty::from_name("u7").is_none());
    assert_eq!(Ty::Box(Box::new(Ty::I64)).name(), "box i64");
    assert!(Ty::U8.is_integer());
    assert!(!Ty::Bool.is_integer());
    assert!(Ty::Box(Box::new(Ty::I64)).is_affine());
    assert!(!Ty::I64.is_affine());
}

#[test]
fn ranges_of_types() {
    assert_eq!(Ty::U8.bounds(), (0, 255));
    assert_eq!(Ty::I8.bounds(), (-128, 127));
    assert_eq!(Ty::U64.bounds(), (0, i64::MAX));
    assert!(Ty::U8.in_range(255));
    assert!(!Ty::U8.in_range(256));
    assert!(!Ty::U8.in_range(-1));
}

#[test]
fn builtins_by_name() {
    assert!(matches!(Builtin::from_name("print"), Some(Builtin::Print)));
    assert!(Builtin::from_name("no_such").is_none());
    assert_eq!(Builtin::Transpose.name(), "transpose");
}

#[test]
fn moved_value_is_not_used_again() {
    let p = program("fn f(b: box i64) { } fn main() { let b: box i64 = box 1 f(b) f(b) }");
    let errors = match check_ownership(&p) {
        Ok(_) => panic!("accepted"),
        Err(v) => v,
    };
    assert_eq!(errors.len(), 1);
    let OwnershipErrorKind::UseAfterMove { name } = &errors[0].kind;
    assert_eq!(name, "b");
    assert_eq!(errors[0].to_text(), "1:64: use of `b` after it was moved");
}

#[test]
fn move_in_one_branch_counts_behind_both() {
    let src = "fn f(b: box i64) { } fn main() { let b: box i64 = box 1 if true { f(b) } else { } f(b) }";
    let errors = match check_ownership(&program(src)) {
        Ok(_) => panic!("accepted"),
        Err(v) => v,
    };
    assert_eq!(errors.len(), 1);
}

#[test]
fn move_in_a_loop_is_seen_by_the_next_pass() {
    let src = "fn f(b: box i64) { } fn main() { let b: box i64 = box 1 while true { f(b) } }";
    let errors = match check_ownership(&program(src)) {
        Ok(_) => panic!("accepted"),
        Err(v) => v,
    };
    assert_eq!(errors.len(), 1);
}

#[test]
fn borrowed_and_copied_values_stay() {
    let src = "fn g(b: & i64) { } fn main() { let x: i64 = 1 g(&x) g(&x) let y: i64 = x + x }";
    assert!(check_ownership(&program(src)).is_ok());
    let again = "fn f(b: box i64) { } fn main() { let b: box i64 = box 1 f(b) b = box 2 f(b) }";
    assert!(check_ownership(&program(again)).is_ok());
}

#[test]
fn effects_reach_through_calls() {
    let p = program("fn a() { print(1) } fn b() { a() } fn c() -> i64 { return 1 }");
    let e = infer_effects(&p);
    assert_eq!(e.len(), 3);
    assert!(e[0].inferred.io && !e[0].inferred.rng);
    assert!(e[1].inferred.io);
    assert!(!e[2].inferred.io && !e[2].inferred.concurrent);
}

#[test]
fn effects_of_a_cycle_are_shared() {
    let p = program("fn a() { b() rand_seed(1) } fn b() { a() spawn c() } fn c() { }");
    let e = infer_effects(&p);
    assert!(e[0].inferred.rng && e[0].inferred.concurrent);
    assert!(e[1].inferred.rng && e[1].inferred.concurrent);
    assert!(!e[2].inferred.rng && !e[2].inferred.concurrent);
}

#[test]
fn stages_fail_one_after_another() {
    assert!(matches!(read("fn $"), Err(RunFailure::Lex(_))));
    assert!(matches!(read("fn fn"), Err(RunFailure::Parse(_))));
    let p = program("fn f(b: box i64) { } fn main() { let b: box i64 = box 1 f(b) f(b) }");
    let types = vec![TypeError { message: "no".to_string(), span: Span { line: 3, col: 4 } }];
    let e = match check_program(&p, &types) {
        Ok(_) => panic!("accepted"),
        Err(e) => e,
    };
    assert_eq!(e.to_text(), "type error: 3:4: no");
    let e = match check_program(&p, &Vec::new()) {
        Ok(_) => panic!("accepted"),
        Err(e) => e,
    };
    assert_eq!(e.to_text(), "ownership error: 1:64: use of `b` after it was moved");
    let RunFailure::Diagnostics(d) = e else { panic!("no diagnostics") };
    assert!(matches!(&d[0], Diagnostic::Ownership(_)));
    assert_eq!(d[0].span(), Span { line: 1, col: 64 });
}

#[test]
fn diagnostics_are_joined_by_lines() {
    let src = "fn f(b: box i64) { } fn main() { let b: box i64 = box 1 f(b) f(b) f(b) }";
    let e = match check_program(&program(src), &Vec::new()) {
        Ok(_) => panic!("accepted"),
        Err(e) => e,
    };
    let t = e.to_text();
    let lines: Vec<&str> = t.split('\n').collect();
    assert_eq!(lines.len(), 2);
    assert_eq!(lines[1], "ownership error: 1:69: use of `b` after it was moved");
}

#[test]
fn more_effects_below_mean_more_above() {
    let quiet = program("fn a() { b() } fn b() { }");
    let loud = program("fn a() { b() } fn b() { print(1) }");
    assert!(!infer_effects(&quiet)[0].inferred.io);
    assert!(infer_effects(&loud)[0].inferred.io);
}

fn move_errors(src: &str) -> Vec<String> {
    match check_ownership(&program(src)) {
        Ok(_) => Vec::new(),
        Err(v) => v.iter().map(|e| e.to_text()).collect(),
    }
}

#[test]
fn condition_of_a_loop_is_evaluated_again() {
    let moved = "fn g(b: box i64) -> bool { return true } fn f(b: box i64) { while g(b) { } }";
    assert_eq!(move_errors(moved), vec!["1:69: use of `b` after it was moved".to_string()]);
    let taken = "fn h(b: box i64) { } fn f(b: box i64) { while *b > 0 { h(b) b = box 0 } }";
    assert!(move_errors(taken).is_empty());
    let used = "fn h(b: box i64) { } fn f(b: box i64, c: bool) { while *b > 0 { if c { h(b) } else { } c = false } }";
    assert_eq!(move_errors(used).len(), 2);
}

#[test]
fn errors_of_programs_add_up() {
    let a = "fn f(b: box i64) { } fn g() { let b: box i64 = box 1 f(b) f(b) }";
    let c = "fn h(b: box i64) { } fn k(x: box i64) { h(x) h(x) }";
    let both = format!("{a}\n{c}");
    let mut all: Vec<String> = move_errors(a);
    all.extend(move_errors(c).into_iter().map(|e| e.replacen("1:", "2:", 1)));
    assert_eq!(all.len(), 2);
    assert_eq!(move_errors(&both), all);
}

#[test]
fn joined_sources_lex_in_turn() {
    let lexed = |s: &str| match Lexer::new(s).tokenize() {
        Ok(t) => t,
        Err(_) => panic!("no tokens"),
    };
    let a = "fn f() // end\n  { 12";
    let b = "  x >= // y\n }";
    let (ta, tb) = (lexed(a), lexed(b));
    let t = lexed(&format!("{a}\n{b}"));
    assert_eq!(t.len(), ta.len() - 1 + tb.len());
    for (i, x) in ta.iter().take(ta.len() - 1).enumerate() {
        assert!(t[i].tok.is_tok(&x.tok));
        assert_eq!(t[i].span, x.span);
    }
    for (i, y) in tb.iter().enumerate() {
        let z = &t[ta.len() - 1 + i];
        assert!(z.tok.is_tok(&y.tok));
        assert_eq!(z.span, Span { line: y.span.line + 2, col: y.span.col });
    }
}

#[test]
fn space_and_comments_are_nothing() {
    assert!(matches!(kinds(" \t\r\n// a // b\n  //\n").as_slice(), [Tok::Eof]));
    assert!(matches!(kinds("// a").as_slice(), [Tok::Eof]));
}

#[test]
fn names_of_types_are_read_back() {
    for name in ["i8", "usize", "unit", "box i64", "box box bool", "&u16", "box &u8", "&box i32", "thread box i64"] {
        let p = program(&format!("fn f(x: {name}) {{ }}"));
        assert_eq!(p.fns[0].params[0].ty.name(), name);
    }
    let t = Ty::Vector(Box::new(Ty::F64), 3);
    let u = Ty::Matrix(Box::new(Ty::F64), 3, 3);
    assert_eq!(t.name(), "Vector(f64, 3)");
    assert_ne!(t.name(), u.name());
}

#[test]
fn only_names_are_borrowed() {
    let Ok(e) = parse_standalone_expr("&x") else { panic!("no expression") };
    assert!(matches!(&e, Expr::Ref(a, _) if matches!(&**a, Expr::Ident(n, _) if n == "x")));
    let Err(e) = parse_standalone_expr("1 + &(2)") else { panic!("accepted") };
    assert_eq!(e.to_text(), "parse error at 1:5: `&` can only borrow a plain variable name");
}

fn struct_with_commas(n: usize) -> Result<Program, String> {
    let mut toks = vec![
        Tok::Struct,
        Tok::Ident("N".to_string()),
        Tok::LBrace,
        Tok::Ident("a".to_string()),
        Tok::Colon,
        Tok::TypeName("i64".to_string()),
        Tok::Comma,
        Tok::Ident("b".to_string()),
        Tok::Colon,
        Tok::TypeName("bool".to_string()),
    ];
    for _ in 0..n {
        toks.push(Tok::Comma);
    }
    toks.push(Tok::RBrace);
    toks.push(Tok::Eof);
    let toks = toks.into_iter().map(|tok| Token { tok, span: Span { line: 1, col: 1 } }).collect();
    Parser::new(toks).parse_program().map_err(|e| e.message)
}

#[test]
fn one_trailing_comma_is_fine() {
    for n in [0, 1] {
        let Ok(p) = struct_with_commas(n) else { panic!("refused") };
        assert_eq!(p.structs[0].name, "N");
        let names: Vec<&str> = p.structs[0].fields.iter().map(|f| f.name.as_str()).collect();
        assert_eq!(names, vec!["a", "b"]);
    }
    assert!(struct_with_commas(2).is_err());
}

#[test]
fn programs_with_faults_do_not_start() {
    let good = program("fn main() { }");
    assert!(start(&good, &Vec::new()).is_ok());
    assert!(start_diagnostic(&good, &Vec::new()).is_ok());
    let types = vec![TypeError { message: "no".to_string(), span: Span { line: 3, col: 4 } }];
    assert!(matches!(start(&good, &types), Err(m) if m == "type error: 3:4: no"));
    let bad = program("fn f(b: box i64) { } fn main() { let b: box i64 = box 1 f(b) f(b) f(b) }");
    let Err(e) = start_diagnostic(&bad, &Vec::new()) else { panic!("started") };
    let Err(m) = start(&bad, &Vec::new()) else { panic!("started") };
    assert_eq!(e.to_text(), m);
    assert_eq!(m.lines().count(), 2);
    assert!(m.starts_with("ownership error: 1:64: use of `b` after it was moved\n"));
}

#[test]
fn floating_point_token_is_shown_as_a_number() {
    let float = |x: f64| FloatLit { bits: x.to_bits(), shown: format!("{x:?}") };
    let at = |tok: Tok| Token { tok, span: Span { line: 1, col: 1 } };
    let Err(e) = Parser::new(vec![at(Tok::Float(float(1.5))), at(Tok::Eof)]).parse_program() else {
        panic!("accepted")
    };
    assert_eq!(e.message, "expected `fn`, found Float(1.5)");
    let Ok(e) = Parser::new(vec![at(Tok::Float(float(-0.25))), at(Tok::Eof)]).parse_unary() else {
        panic!("refused")
    };
    assert!(matches!(&e, Expr::Float(f, _) if f.bits == (-0.25f64).to_bits()));
    assert_eq!(show_expr(&e), "Float(-0.25, Span { line: 1, col: 1 })");
}

#[test]
fn trees_are_shown_in_messages() {
    let p = program(
        "fn f(b: box i64) -> i64 { let x: box i64 = b while !true { f(x) } return if 1 <= 2 { -3 } else { 4 } }",
    );
    let Stmt::Return { value: Some(e), .. } = &p.fns[0].body.stmts[2] else { panic!("no return") };
    assert_eq!(
        show_expr(e),
        "If { cond: Binary(LtEq, Int(1, Span { line: 1, col: 77 }), Int(2, Span { line: 1, col: 82 }), \
         Span { line: 1, col: 79 }), then_block: Block { stmts: [Expr(Unary(Neg, Int(3, Span { line: 1, col: 87 }), \
         Span { line: 1, col: 86 }))] }, else_block: Some(Block(Block { stmts: [Expr(Int(4, Span { line: 1, col: 98 }))] })), \
         span: Span { line: 1, col: 74 } }"
    );
    // What it holds is shown as the derived form shows it, wherever no float is in it.
    assert_eq!(show_expr(e), format!("{e:?}"));
    let Stmt::While { cond, body, .. } = &p.fns[0].body.stmts[1] else { panic!("no loop") };
    assert_eq!(show_expr(cond), format!("{cond:?}"));
    let Stmt::Expr(e) = &body.stmts[0] else { panic!("no call") };
    assert_eq!(show_expr(e), format!("{e:?}"));
}

#[test]
fn copied_values_are_never_moved() {
    let src = "fn g(x: i64) -> i64 { return x } fn f(a: i64, r: &box i64) { let b: i64 = a \
               while g(a) > 0 { g(b) g(b) if true { g(a) } else { b = a } } g(a) g(b) let s: &box i64 = r g(*r) g(*s) }";
    assert!(move_errors(src).is_empty());
}

#[test]
fn marks_and_merges() {
    let mut a: Scopes<Own> = Scopes::new();
    a.push();
    a.define("x", Own { ty: Ty::I64, moved: false });
    a.push();
    a.define("x", Own { ty: Ty::Box(Box::new(Ty::I64)), moved: false });
    let b = a.duplicate();
    set_moved(&mut a, "x", true);
    set_moved(&mut a, "y", true);
    assert!(matches!(a.get("x"), Some(o) if o.moved && o.ty.is_affine()));
    assert!(a.get("y").is_none());
    for m in [merge_moved(&a, &b), merge_moved(&b, &a), merge_moved(&a, &a)] {
        assert!(matches!(m.get("x"), Some(o) if o.moved));
    }
    assert!(matches!(merge_moved(&b, &b).get("x"), Some(o) if !o.moved));
    a.pop();
    assert!(matches!(a.get("x"), Some(o) if !o.moved && o.ty.is_integer()));
}

#[test]
fn skipping_again_changes_nothing() {
    let mut l = Lexer::new(" // a\n\t x // b");
    l.skip_ws_and_comments();
    l.skip_ws_and_comments();
    let Ok(t) = l.tokenize() else { panic!("no tokens") };
    assert!(matches!(&t[0].tok, Tok::Ident(n) if n == "x"));
    assert_eq!(t[0].span, Span { line: 2, col: 3 });
    assert_eq!(t.len(), 2);
}

#[test]
fn parser_hands_tokens_back() {
    let Ok(t) = Lexer::new("box &u8 x").tokenize() else { panic!("no tokens") };
    let mut p = Parser::new(t);
    let Ok(ty) = p.expect_type() else { panic!("no type") };
    assert_eq!(ty.name(), "box &u8");
    let Err(e) = p.expect(Tok::Comma, "`,`") else { panic!("accepted") };
    assert_eq!(e.message, "expected `,`, found Ident(\"x\")");
    let Ok(x) = p.expect(Tok::Ident("x".to_string()), "`x`") else { panic!("refused") };
    assert_eq!(x.span, Span { line: 1, col: 9 });
    for _ in 0..2 {
        assert!(p.expect(Tok::Eof, "the end").is_ok());
    }
}
