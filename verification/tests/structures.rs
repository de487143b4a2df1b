use nirdosha::arith::eval_binary;
use nirdosha::ast::{
    BinOp, Block, ElseBranch, EnumDecl, Expr, Field, FnDecl, MatchArm, Param, Program, Stmt, StructDecl, TransactSlot,
    Ty, UnOp, Variant,
};
use nirdosha::builtin_eval::eval_builtin;
use nirdosha::builtins::Builtin;
use nirdosha::effects::infer_effects;
use nirdosha::idents::collect_idents;
use nirdosha::emit::llvm_escape_bytes;
use nirdosha::interpreter::{Ctrl, Interpreter, Run};
use nirdosha::shown::show_expr;
use nirdosha::request::{Act, Request, Response};
use nirdosha::token::Span;
use nirdosha::value::{copy_value, ErrorKind, Outcome, Piece, Value};

fn at() -> Span {
    Span { line: 1, col: 1 }
}

fn ints(v: &[i64]) -> Vec<Value> {
    v.iter().map(|n| Value::Int(*n)).collect()
}

fn builtin(b: Builtin, args: Vec<Value>) -> Value {
    let mut rng = None;
    match eval_builtin(b, args, &mut rng, at()) {
        Act::Done(Outcome::Val(v)) => v,
        _ => panic!("no value"),
    }
}

fn plain(v: &Value) -> Vec<i64> {
    match v {
        Value::Vector(e) | Value::Matrix(e, _, _) => e
            .iter()
            .map(|x| match x {
                Value::Int(n) => *n,
                _ => panic!("no integer"),
            })
            .collect(),
        _ => panic!("no vector"),
    }
}

fn name(n: &str) -> Expr {
    Expr::Ident(n.to_string(), at())
}

fn lit(n: i64) -> Expr {
    Expr::Int(n, at())
}

fn call(n: &str, args: Vec<Expr>) -> Expr {
    Expr::Call(n.to_string(), args, at())
}

fn ret(e: Expr) -> Stmt {
    Stmt::Return { value: Some(e), span: at() }
}

fn function(n: &str, params: Vec<(&str, Ty)>, ret: Ty, stmts: Vec<Stmt>) -> FnDecl {
    FnDecl {
        name: n.to_string(),
        params: params.into_iter().map(|(n, ty)| Param { name: n.to_string(), ty }).collect(),
        ret,
        body: Block { stmts },
        span: at(),
        declared_effects: None,
        requirement: None,
    }
}

fn finish(mut run: Run, printed: &mut Vec<String>) -> Result<Value, ErrorKind> {
    loop {
        let response = match &run.ctrl {
            Ctrl::Done(_) | Ctrl::Failed(_) | Ctrl::Stuck => break,
            Ctrl::Ask(Request::Print(pieces), _) => {
                let mut line = String::new();
                for p in pieces {
                    match p {
                        Piece::Text(t) => line.push_str(t),
                        Piece::Float(_) => line.push('f'),
                    }
                }
                printed.push(line);
                Some(Response::Value(Value::Unit))
            }
            Ctrl::Ask(..) => Some(Response::Stopped),
            _ => None,
        };
        run = match response {
            Some(r) => run.resume(r),
            None => run.step(),
        };
    }
    match run.ctrl {
        Ctrl::Done(v) => Ok(v),
        Ctrl::Failed(e) => Err(e.kind),
        _ => panic!("stuck"),
    }
}

#[test]
fn transposing_twice_changes_nothing() {
    let m = Value::Matrix(ints(&[1, 2, 3, 4, 5, 6]), 2, 3);
    let t = builtin(Builtin::Transpose, vec![m]);
    assert_eq!(plain(&t), [1, 4, 2, 5, 3, 6]);
    assert!(matches!(t, Value::Matrix(_, 3, 2)));
    let back = builtin(Builtin::Transpose, vec![t]);
    assert_eq!(plain(&back), [1, 2, 3, 4, 5, 6]);
    assert!(matches!(back, Value::Matrix(_, 2, 3)));
}

#[test]
fn products_of_integers() {
    let dot = builtin(Builtin::Dot, vec![Value::Vector(ints(&[1, 2, 3])), Value::Vector(ints(&[4, 5, 6]))]);
    assert!(matches!(dot, Value::Int(32)));
    let cross = builtin(
        Builtin::Cross,
        vec![Value::Vector(ints(&[1, 0, 0])), Value::Vector(ints(&[0, 1, 0]))],
    );
    assert_eq!(plain(&cross), [0, 0, 1]);
    let trace = builtin(Builtin::Trace, vec![Value::Matrix(ints(&[1, 2, 3, 4]), 2, 2)]);
    assert!(matches!(trace, Value::Int(5)));
    let sum = builtin(Builtin::Sum, vec![Value::Vector(ints(&[1, 2, 3]))]);
    assert!(matches!(sum, Value::Int(6)));
    let len = builtin(Builtin::Len, vec![Value::Vector(ints(&[1, 2, 3]))]);
    assert!(matches!(len, Value::Int(3)));
}

#[test]
fn matrices_of_integers() {
    let a = Value::Matrix(ints(&[1, 2, 3, 4]), 2, 2);
    let b = Value::Matrix(ints(&[5, 6, 7, 8]), 2, 2);
    let Act::Done(Outcome::Val(v)) = eval_binary(BinOp::Mul, a, b, at()) else { panic!("no value") };
    assert_eq!(plain(&v), [19, 22, 43, 50]);
    let a = Value::Vector(ints(&[8, 6]));
    let b = Value::Vector(ints(&[2, 0]));
    let Act::Done(Outcome::Fail(e)) = eval_binary(BinOp::ElemDiv, a, b, at()) else { panic!("no error") };
    assert!(matches!(e.kind, ErrorKind::DivByZero));
}

#[test]
fn floats_are_compared_by_their_bits() {
    let f = |x: f64| Value::Float(x.to_bits());
    let test = |op, x: f64, y: f64| match eval_binary(op, f(x), f(y), at()) {
        Act::Done(Outcome::Val(Value::Bool(b))) => b,
        _ => panic!("no answer"),
    };
    for (x, y) in [(1.0, 2.0), (-1.0, 1.0), (-2.0, -1.0), (0.0, -0.0), (1.5, 1.5)] {
        assert_eq!(test(BinOp::Lt, x, y), x < y);
        assert_eq!(test(BinOp::GtEq, x, y), x >= y);
        assert_eq!(test(BinOp::Eq, x, y), x == y);
        assert_eq!(test(BinOp::NotEq, x, y), x != y);
    }
    assert!(!test(BinOp::Eq, f64::NAN, f64::NAN));
    assert!(!test(BinOp::LtEq, f64::NAN, 1.0));
    assert!(matches!(eval_binary(BinOp::Add, f(1.0), f(2.0), at()), Act::Ask(Request::Arith(..))));
}

fn shapes() -> Program {
    let arms = vec![
        MatchArm {
            variant: "Circle".to_string(),
            bindings: vec!["r".to_string()],
            body: Box::new(Expr::Binary(BinOp::Mul, Box::new(name("r")), Box::new(lit(3)), at())),
            span: at(),
        },
        MatchArm {
            variant: "Dot".to_string(),
            bindings: Vec::new(),
            body: Box::new(lit(0)),
            span: at(),
        },
    ];
    let area = Expr::Match { scrutinee: Box::new(name("s")), arms, span: at() };
    let shape = || Ty::Named("Shape".to_string(), Vec::new());
    let get = Expr::FieldAccess(Box::new(call("Point", vec![lit(7), lit(9)])), "y".to_string(), at());
    Program {
        fns: vec![
            function("area", vec![("s", shape())], Ty::I64, vec![ret(area)]),
            function("circle", Vec::new(), Ty::I64, vec![ret(call("area", vec![call("Circle", vec![lit(5)])]))]),
            function("dot", Vec::new(), Ty::I64, vec![ret(call("area", vec![call("Dot", Vec::new())]))]),
            function("get", Vec::new(), Ty::I64, vec![ret(get)]),
            function(
                "element",
                vec![("i", Ty::I64)],
                Ty::I64,
                vec![ret(Expr::Index(
                    Box::new(Expr::ArrayLit(vec![lit(10), lit(20)], at())),
                    vec![name("i")],
                    at(),
                ))],
            ),
        ],
        structs: vec![StructDecl {
            name: "Point".to_string(),
            fields: vec![
                Field { name: "x".to_string(), ty: Ty::I64 },
                Field { name: "y".to_string(), ty: Ty::I64 },
            ],
            span: at(),
        }],
        enums: vec![EnumDecl {
            name: "Shape".to_string(),
            variants: vec![
                Variant { name: "Circle".to_string(), payload: vec![Ty::I64], span: at() },
                Variant { name: "Dot".to_string(), payload: Vec::new(), span: at() },
            ],
            span: at(),
        }],
    }
}

#[test]
fn variants_are_told_apart() {
    let p = shapes();
    let mut printed = Vec::new();
    let run = |n: &str, a: Vec<Value>, out: &mut Vec<String>| finish(Interpreter::new(&p).call_named(n, a), out);
    assert!(matches!(run("circle", Vec::new(), &mut printed), Ok(Value::Int(15))));
    assert!(matches!(run("dot", Vec::new(), &mut printed), Ok(Value::Int(0))));
    assert!(matches!(run("get", Vec::new(), &mut printed), Ok(Value::Int(9))));
}

#[test]
fn indices_are_checked() {
    let p = shapes();
    let mut printed = Vec::new();
    let r = finish(Interpreter::new(&p).call_named("element", ints(&[1])), &mut printed);
    assert!(matches!(r, Ok(Value::Int(20))));
    for i in [2, -1] {
        let r = finish(Interpreter::new(&p).call_named("element", ints(&[i])), &mut printed);
        assert!(matches!(r, Err(ErrorKind::IndexOutOfBounds { index, len: 2 }) if index == i));
    }
}

fn step(n: &str, args: Vec<Expr>) -> TransactSlot {
    TransactSlot { name: n.to_string(), args, span: at() }
}

fn transaction(amount: i64, compensated: bool) -> Program {
    let note = |n: &str, v: Ty, e: Expr| {
        function(n, vec![("v", v)], Ty::I64, vec![Stmt::Expr(call("print", vec![Expr::Str(n.to_string(), at())])), ret(e)])
    };
    let compensate = if compensated { Some(step("undo", vec![name("network")])) } else { None };
    let t = Expr::Transact {
        network: step("pay", vec![lit(amount)]),
        verify: step("large", vec![name("network")]),
        commit: step("keep", vec![name("network")]),
        compensate,
        log: Some(step("log", vec![lit(0)])),
        span: at(),
    };
    let large = function(
        "large",
        vec![("v", Ty::I64)],
        Ty::Bool,
        vec![
            Stmt::Expr(call("print", vec![Expr::Str("large".to_string(), at())])),
            ret(Expr::Binary(BinOp::Gt, Box::new(name("v")), Box::new(lit(10)), at())),
        ],
    );
    Program {
        fns: vec![
            note("pay", Ty::I64, name("v")),
            large,
            note("keep", Ty::I64, lit(0)),
            note("undo", Ty::I64, lit(0)),
            note("log", Ty::I64, lit(0)),
            function("main", Vec::new(), Ty::Bool, vec![ret(t)]),
        ],
        structs: Vec::new(),
        enums: Vec::new(),
    }
}

#[test]
fn transaction_is_committed() {
    let p = transaction(11, true);
    let mut printed = Vec::new();
    let r = finish(Interpreter::new(&p).run_main(), &mut printed);
    assert!(matches!(r, Ok(Value::Bool(true))));
    assert_eq!(printed, ["pay", "large", "keep", "log"]);
}

#[test]
fn transaction_is_compensated() {
    let p = transaction(10, true);
    let mut printed = Vec::new();
    let r = finish(Interpreter::new(&p).run_main(), &mut printed);
    assert!(matches!(r, Ok(Value::Bool(false))));
    assert_eq!(printed, ["pay", "large", "undo", "log"]);
    let p = transaction(10, false);
    let mut printed = Vec::new();
    let r = finish(Interpreter::new(&p).run_main(), &mut printed);
    assert!(matches!(r, Ok(Value::Bool(false))));
    assert_eq!(printed, ["pay", "large", "log"]);
}

#[test]
fn strings_are_escaped_for_llvm() {
    assert_eq!(llvm_escape_bytes("ab".as_bytes()), "ab");
    assert_eq!(llvm_escape_bytes("a\"\\\n".as_bytes()), "a\\22\\5C\\0A");
    assert_eq!(llvm_escape_bytes("é".as_bytes()), "\\C3\\A9");
}

#[test]
fn wrong_mode_of_a_file_is_quoted() {
    let open = Expr::Open(
        Box::new(Expr::Str("f".to_string(), at())),
        Box::new(Expr::Str("a\"b".to_string(), at())),
        at(),
    );
    let p = Program {
        fns: vec![function("main", Vec::new(), Ty::File, vec![ret(open)])],
        structs: Vec::new(),
        enums: Vec::new(),
    };
    let mut printed = Vec::new();
    let r = finish(Interpreter::new(&p).run_main(), &mut printed);
    assert!(matches!(r, Err(ErrorKind::ChannelIoError { message })
        if message == "invalid file mode \"a\\\"b\" — expected \"r\", \"w\", or \"a\""));
}

#[test]
fn closed_handles_are_reported() {
    let send = Expr::Send(Box::new(name("c")), Box::new(Expr::Str("x".to_string(), at())), at());
    let p = Program {
        fns: vec![function("main", vec![("c", Ty::Tcp)], Ty::Unit, vec![Stmt::Expr(send)])],
        structs: Vec::new(),
        enums: Vec::new(),
    };
    let mut printed = Vec::new();
    let r = finish(Interpreter::new(&p).call_named("main", vec![Value::Tcp(1)]), &mut printed);
    assert!(matches!(r, Err(ErrorKind::ChannelIoError { message })
        if message == "this tcp connection was already stopped"));
    let connect = Expr::Connect(Box::new(Expr::Str("h".to_string(), at())), Box::new(lit(70000)), at());
    let p = Program {
        fns: vec![function("main", Vec::new(), Ty::Tcp, vec![ret(connect)])],
        structs: Vec::new(),
        enums: Vec::new(),
    };
    let r = finish(Interpreter::new(&p).run_main(), &mut printed);
    assert!(matches!(r, Err(ErrorKind::ChannelIoError { message })
        if message == "port 70000 is not a valid 0-65535 TCP port"));
}

#[test]
fn handles_have_the_effects_of_their_types() {
    for (ty, v, network, io, concurrent) in [
        (Ty::Tcp, Value::Tcp(4), true, false, false),
        (Ty::File, Value::File(4), false, true, false),
        (Ty::Channel(Box::new(Ty::Str)), Value::Channel(4), false, false, true),
    ] {
        let recv = Expr::Recv(Box::new(name("h")), at());
        let p = Program {
            fns: vec![function("f", vec![("h", ty)], Ty::Str, vec![ret(recv)])],
            structs: Vec::new(),
            enums: Vec::new(),
        };
        let e = infer_effects(&p);
        assert_eq!(e[0].inferred.network, network);
        assert_eq!(e[0].inferred.io, io);
        assert_eq!(e[0].inferred.concurrent, concurrent);
        let run = Interpreter::new(&p).call_named("f", vec![v]).advance(100);
        assert!(matches!(run.ctrl, Ctrl::Ask(Request::Recv(_), _)));
        // A handle of another kind is refused where the function is called.
        let run = Interpreter::new(&p).call_named("f", vec![Value::Sandbox(4)]).advance(100);
        assert!(matches!(run.ctrl, Ctrl::Failed(_)));
    }
}

#[test]
fn variables_keep_to_their_range() {
    let assign = Stmt::Expr(Expr::Assign("x".to_string(), Box::new(name("n")), at()));
    let p = Program {
        fns: vec![function(
            "f",
            vec![("n", Ty::I64)],
            Ty::U8,
            vec![Stmt::Let { name: "x".to_string(), ty: Ty::U8, value: lit(1), span: at() }, assign, ret(name("x"))],
        )],
        structs: Vec::new(),
        enums: Vec::new(),
    };
    let mut printed = Vec::new();
    let r = finish(Interpreter::new(&p).call_named("f", vec![Value::Int(255)]), &mut printed);
    assert!(matches!(r, Ok(Value::Int(255))));
    let r = finish(Interpreter::new(&p).call_named("f", vec![Value::Int(256)]), &mut printed);
    assert!(matches!(r, Err(ErrorKind::OutOfRange { value: 256, .. })));
}

#[test]
fn closing_gives_nothing() {
    for (ty, v) in [
        (Ty::Tcp, Value::Tcp(1)),
        (Ty::TcpListener, Value::TcpListener(1)),
        (Ty::File, Value::File(1)),
    ] {
        let p = Program {
            fns: vec![function("f", vec![("h", ty)], Ty::Unit, vec![ret(Expr::StopSandbox(Box::new(name("h")), at()))])],
            structs: Vec::new(),
            enums: Vec::new(),
        };
        for answer in [Response::Value(Value::Int(0)), Response::Stopped] {
            let run = Interpreter::new(&p).call_named("f", vec![copy_value(&v)]).advance(100);
            assert!(matches!(run.ctrl, Ctrl::Ask(Request::Stop(_), _)));
            let run = run.resume(answer).advance(100);
            assert!(matches!(run.ctrl, Ctrl::Done(Value::Unit)));
        }
    }
    let p = Program {
        fns: vec![function(
            "f",
            vec![("h", Ty::Sandbox)],
            Ty::I64,
            vec![ret(Expr::StopSandbox(Box::new(name("h")), at()))],
        )],
        structs: Vec::new(),
        enums: Vec::new(),
    };
    let run = Interpreter::new(&p).call_named("f", vec![Value::Sandbox(1)]).advance(100);
    let run = run.resume(Response::Value(Value::Int(3))).advance(100);
    assert!(matches!(run.ctrl, Ctrl::Done(Value::Int(3))));
    let run = Interpreter::new(&p).call_named("f", vec![Value::Sandbox(1)]).advance(100);
    let run = run.resume(Response::Stopped).advance(100);
    assert!(matches!(run.ctrl, Ctrl::Failed(e) if matches!(e.kind, ErrorKind::AlreadySandboxStopped)));
}

#[test]
fn handles_are_typed_wherever_they_come_from() {
    let send = |h: Expr| Stmt::Expr(Expr::Send(Box::new(h), Box::new(lit(1)), at()));
    let chan = || Ty::Channel(Box::new(Ty::I64));
    let f = |h: Expr| function("f", vec![("b", Ty::Box(Box::new(chan()))), ("s", Ty::Named("S".to_string(), Vec::new()))], Ty::Unit, vec![send(h)]);
    let field = |e: Expr| Expr::FieldAccess(Box::new(e), "c".to_string(), at());
    let block = |e: Expr| Block { stmts: vec![Stmt::Expr(e)] };
    let made = || call("mk", Vec::new());
    for h in [
        made(),
        Expr::Deref(Box::new(name("b")), at()),
        field(name("s")),
        Expr::Index(Box::new(call("many", Vec::new())), vec![lit(0)], at()),
        Expr::Index(Box::new(Expr::ArrayLit(vec![made()], at())), vec![lit(0)], at()),
        Expr::Recv(Box::new(call("chans", Vec::new())), at()),
        Expr::Join(Box::new(Expr::Spawn("mk".to_string(), Vec::new(), at())), at()),
        Expr::If {
            cond: Box::new(Expr::Bool(true, at())),
            then_block: block(made()),
            else_block: Some(Box::new(ElseBranch::Block(block(field(name("s")))))),
            span: at(),
        },
    ] {
        let p = Program {
            fns: vec![
                function("mk", Vec::new(), chan(), vec![ret(Expr::Chan(at()))]),
                function("many", Vec::new(), Ty::Vector(Box::new(chan()), 1), Vec::new()),
                function("chans", Vec::new(), Ty::Channel(Box::new(chan())), Vec::new()),
                f(h),
            ],
            structs: vec![StructDecl {
                name: "S".to_string(),
                fields: vec![Field { name: "c".to_string(), ty: chan() }],
                span: at(),
            }],
            enums: Vec::new(),
        };
        let e = infer_effects(&p);
        assert!(!e[0].inferred.concurrent);
        assert!(e[3].inferred.concurrent);
        assert!(!e[3].inferred.network && !e[3].inferred.io && !e[3].inferred.rng);
    }
}

#[test]
fn steps_of_a_transact_are_handles_too() {
    let recv = |n: &str| Expr::Recv(Box::new(name(n)), at());
    let t = Expr::Transact {
        network: step("dial", Vec::new()),
        verify: step("check", vec![recv("network")]),
        commit: step("keep", Vec::new()),
        compensate: None,
        log: None,
        span: at(),
    };
    let p = Program {
        fns: vec![
            function("dial", Vec::new(), Ty::File, Vec::new()),
            function("check", vec![("s", Ty::Str)], Ty::Bool, Vec::new()),
            function("keep", Vec::new(), Ty::Unit, Vec::new()),
            function("main", vec![("network", Ty::Tcp)], Ty::Bool, vec![ret(t)]),
        ],
        structs: Vec::new(),
        enums: Vec::new(),
    };
    let e = infer_effects(&p);
    assert!(e[3].inferred.io);
    assert!(!e[3].inferred.network);
}

#[test]
fn both_operands_of_open_are_looked_at() {
    let e = Expr::Open(Box::new(name("path")), Box::new(name("mode")), at());
    let mut out = Vec::new();
    collect_idents(&e, &mut out);
    assert_eq!(out, vec!["path".to_string(), "mode".to_string()]);
}

#[test]
fn transpose_is_laid_out_as_in_native_code() {
    let m = Value::Matrix(ints(&[1, 2, 3, 4, 5, 6]), 2, 3);
    let t = builtin(Builtin::Transpose, vec![m]);
    assert!(matches!(&t, Value::Matrix(_, 3, 2)));
    for (k, x) in plain(&t).iter().enumerate() {
        assert_eq!(*x, ((k % 2) * 3 + k / 2 + 1) as i64);
    }
}

#[test]
fn seeds_fix_what_is_drawn() {
    let run = |first: Option<u64>| {
        let mut rng = first;
        let mut bits = Vec::new();
        assert!(matches!(
            eval_builtin(Builtin::RandSeed, ints(&[-7]), &mut rng, at()),
            Act::Done(Outcome::Val(Value::Unit))
        ));
        for _ in 0..5 {
            match eval_builtin(Builtin::RandF64, Vec::new(), &mut rng, at()) {
                Act::Ask(Request::Uniform(b)) => bits.push(b),
                _ => panic!("nothing drawn"),
            }
            let args = vec![Value::Float(0), Value::Float(1f64.to_bits())];
            match eval_builtin(Builtin::RandGaussian, args, &mut rng, at()) {
                Act::Ask(Request::Gaussian { first, second, .. }) => bits.extend([first, second]),
                _ => panic!("nothing drawn"),
            }
        }
        (bits, rng)
    };
    assert_eq!(run(None), run(Some(99)));
    assert!(run(None).0.iter().all(|b| *b < 9007199254740992));
    let mut rng = None;
    assert!(matches!(
        eval_builtin(Builtin::RandF64, Vec::new(), &mut rng, at()),
        Act::Done(Outcome::Fail(e)) if matches!(e.kind, ErrorKind::RngNotSeeded)
    ));
    assert_eq!(rng, None);
}

#[test]
fn every_form_is_shown() {
    let one = || Box::new(lit(1));
    let args = || vec![name("a"), lit(-2)];
    let block = |s: Vec<Stmt>| Block { stmts: s };
    let types = vec![
        Ty::I8, Ty::I16, Ty::I32, Ty::I64, Ty::U8, Ty::U16, Ty::U32, Ty::U64, Ty::Usize, Ty::Bool, Ty::Unit,
        Ty::F64, Ty::Str, Ty::Sandbox, Ty::Tcp, Ty::TcpListener, Ty::File, Ty::Error,
        Ty::Box(Box::new(Ty::Ref(Box::new(Ty::I8)))),
        Ty::Thread(Box::new(Ty::Channel(Box::new(Ty::Bool)))),
        Ty::Vector(Box::new(Ty::F64), 3),
        Ty::Matrix(Box::new(Ty::F64), 2, 3),
        Ty::Named("S".to_string(), vec![Ty::I8, Ty::Str]),
        Ty::Named("T".to_string(), Vec::new()),
    ];
    let mut stmts: Vec<Stmt> = types
        .into_iter()
        .map(|ty| Stmt::Let { name: "x\n".to_string(), ty, value: lit(0), span: at() })
        .collect();
    stmts.push(Stmt::Return { value: None, span: at() });
    stmts.push(ret(lit(1)));
    stmts.push(Stmt::While { cond: lit(1), body: block(Vec::new()), span: at() });
    stmts.push(Stmt::Audited { justification: "\"j\"".to_string(), body: vec![ret(lit(2))], span: at() });
    let ops = [
        BinOp::Add, BinOp::Sub, BinOp::Mul, BinOp::Div, BinOp::ElemMul, BinOp::ElemDiv, BinOp::Eq, BinOp::NotEq,
        BinOp::Lt, BinOp::Gt, BinOp::LtEq, BinOp::GtEq, BinOp::And, BinOp::Or,
    ];
    let mut all: Vec<Expr> = ops.into_iter().map(|op| Expr::Binary(op, one(), one(), at())).collect();
    let n = || "n".to_string();
    all.extend([
        Expr::Bool(true, at()),
        Expr::Bool(false, at()),
        Expr::Str("q\"\t".to_string(), at()),
        Expr::Unary(UnOp::Not, one(), at()),
        Expr::Unary(UnOp::Neg, one(), at()),
        Expr::Call(n(), args(), at()),
        Expr::Call(n(), Vec::new(), at()),
        Expr::Assign(n(), one(), at()),
        Expr::Box(one(), at()),
        Expr::Deref(one(), at()),
        Expr::Ref(one(), at()),
        Expr::Spawn(n(), args(), at()),
        Expr::Join(one(), at()),
        Expr::Chan(at()),
        Expr::Send(one(), one(), at()),
        Expr::Recv(one(), at()),
        Expr::SpawnSandbox(n(), args(), at()),
        Expr::StopSandbox(one(), at()),
        Expr::Connect(one(), one(), at()),
        Expr::Listen(one(), at()),
        Expr::Accept(one(), at()),
        Expr::Open(one(), one(), at()),
        Expr::Index(one(), args(), at()),
        Expr::ArrayLit(args(), at()),
        Expr::FieldAccess(one(), n(), at()),
    ]);
    let inner = Expr::If { cond: one(), then_block: block(stmts), else_block: None, span: at() };
    all.push(Expr::If {
        cond: one(),
        then_block: block(Vec::new()),
        else_block: Some(Box::new(ElseBranch::If(inner))),
        span: at(),
    });
    all.push(Expr::If {
        cond: one(),
        then_block: block(Vec::new()),
        else_block: Some(Box::new(ElseBranch::Block(block(vec![ret(lit(3))])))),
        span: at(),
    });
    let arm = |b: Vec<String>| MatchArm { variant: "V".to_string(), bindings: b, body: one(), span: at() };
    all.push(Expr::Match { scrutinee: one(), arms: vec![arm(Vec::new()), arm(vec![n(), n()])], span: at() });
    for (c, l) in [(None, Some(step("l", args()))), (Some(step("c", Vec::new())), None)] {
        all.push(Expr::Transact {
            network: step("n", args()),
            verify: step("v", Vec::new()),
            commit: step("k", Vec::new()),
            compensate: c,
            log: l,
            span: at(),
        });
    }
    for e in &all {
        assert_eq!(show_expr(e), format!("{e:?}"));
    }
}
