use nirdosha::ast::{Effect, Param, Ty};
use nirdosha::cli::{auth_parts, parse_args, parse_i64, parse_port, read_worker_arg, Command, ServeOptions, WorkerArg};
use nirdosha::handles::Handles;
use nirdosha::json::Json;
use nirdosha::llvm::OptLevel;
use nirdosha::observability::{
    error_kind_name, render_span_json, traced_builtin, traced_request, Destination, Event, Outcome,
    SpanRecord, Tracer, CHANNEL_CAPACITY,
};
use nirdosha::request::Request;
use nirdosha::token::Span;
use nirdosha::value::{ErrorKind, Value};
use nirdosha::wire::{
    closed_early, read_file, read_tcp, read_value, write_value, Arrival, ChannelInner, RecvStep, SendStep,
    TransportState,
};

fn args(v: &[&str]) -> Command {
    let raw: Vec<String> = v.iter().map(|s| s.to_string()).collect();
    parse_args(&raw)
}

#[test]
fn command_line_interprets() {
    assert!(matches!(args(&[]), Command::Usage));
    assert!(matches!(args(&["--format=json"]), Command::Usage));
    assert!(matches!(
        args(&["--otel-console", "a.nir", "--format=json"]),
        Command::Interpret { path, format_json: true, otel_console: true } if path == "a.nir"
    ));
    assert!(matches!(
        args(&["a.nir"]),
        Command::Interpret { path, format_json: false, otel_console: false } if path == "a.nir"
    ));
    assert!(matches!(args(&["a.nir", "--otel"]), Command::Refuse(m) if m.starts_with("--otel/--otel-endpoint: ")));
    assert!(matches!(args(&["--otel-endpoint=x", "a.nir"]), Command::Refuse(_)));
}

#[test]
fn command_line_builds() {
    assert!(matches!(
        args(&["build", "a.nir", "-o", "a"]),
        Command::Build { input, output, opt: OptLevel::O2 } if input == "a.nir" && output == "a"
    ));
    assert!(matches!(
        args(&["build", "-o", "a", "--opt0", "x.nir", "y.nir"]),
        Command::Build { input, opt: OptLevel::O0, .. } if input == "y.nir"
    ));
    assert!(matches!(args(&["build", "a.nir"]), Command::Refuse(m) if m == "usage: nirdosha build <file.nir> -o <out> [--opt0]"));
    assert!(matches!(args(&["build", "a.nir", "-o"]), Command::Refuse(_)));
    assert!(matches!(args(&["emit-llvm", "a.nir"]), Command::EmitLlvm(p) if p == "a.nir"));
    assert!(matches!(args(&["emit-llvm"]), Command::Refuse(_)));
    assert!(matches!(args(&["emit-ast", "a.nir"]), Command::EmitAst(_)));
    assert!(matches!(args(&["emit-ast"]), Command::Refuse(_)));
    assert!(matches!(args(&["emit-ui", "a.nir"]), Command::EmitUi { output: None, .. }));
    assert!(matches!(args(&["emit-ui", "-o", "b", "a.nir"]), Command::EmitUi { output: Some(o), .. } if o == "b"));
    assert!(matches!(args(&["emit-ui", "-o", "b"]), Command::Refuse(_)));
}

#[test]
fn command_line_serves() {
    let Command::Serve(input, o) = args(&["serve", "a.nir", "--port", "99", "--issuer", "i"]) else {
        panic!("not served")
    };
    assert_eq!(input, "a.nir");
    assert_eq!(o.port, 99);
    assert_eq!(o.issuer.as_deref(), Some("i"));
    assert!(auth_parts(&o).is_err());
    let Command::Serve(_, o) = args(&["serve", "--port", "70000", "a.nir"]) else { panic!("not served") };
    assert_eq!(o.port, 8080);
    assert!(matches!(auth_parts(&o), Ok(None)));
    assert!(matches!(args(&["serve", "--port", "1"]), Command::Refuse(_)));
    let all = ServeOptions {
        port: 1,
        jwks_file: Some("j".to_string()),
        issuer: Some("i".to_string()),
        audience: Some("a".to_string()),
        identity_base: None,
    };
    assert!(matches!(auth_parts(&all), Ok(Some((j, _, _))) if j == "j"));
    let Command::Serve(_, o) =
        args(&["serve", "a.nir", "--jwks-file", "j", "--audience", "u", "--identity-base", "b"])
    else {
        panic!("not served")
    };
    assert_eq!(o.jwks_file.as_deref(), Some("j"));
    assert_eq!(o.audience.as_deref(), Some("u"));
    assert_eq!(o.identity_base.as_deref(), Some("b"));
}

#[test]
fn command_line_starts_a_worker() {
    assert!(matches!(
        args(&["--sandbox-worker", "a.nir", "f", "1", "true"]),
        Command::SandboxWorker { path, fn_name, args } if path == "a.nir" && fn_name == "f" && args == ["1", "true"]
    ));
    assert!(matches!(args(&["--sandbox-worker", "a.nir"]), Command::Refuse(_)));
}

#[test]
fn numbers_are_read() {
    assert_eq!(parse_i64("-9223372036854775808"), Some(i64::MIN));
    assert_eq!(parse_i64("+7"), Some(7));
    assert_eq!(parse_i64("9223372036854775808"), None);
    assert_eq!(parse_i64(""), None);
    assert_eq!(parse_i64("-"), None);
    assert_eq!(parse_i64("1a"), None);
    assert_eq!(parse_i64("99999999999999999999999999"), None);
    assert_eq!(parse_port("65535"), Some(65535));
    assert_eq!(parse_port("65536"), None);
    assert_eq!(parse_port("-0"), None);
}

fn param(ty: Ty) -> Param {
    Param { name: "p".to_string(), ty }
}

#[test]
fn worker_reads_its_arguments() {
    assert!(matches!(read_worker_arg(&param(Ty::Bool), "true"), Ok(WorkerArg::Value(Value::Bool(true)))));
    assert!(matches!(read_worker_arg(&param(Ty::Bool), "1"), Err(m) if m == "sandbox worker: bad bool argument `1` for `p`"));
    assert!(matches!(read_worker_arg(&param(Ty::I64), "-5"), Ok(WorkerArg::Value(Value::Int(-5)))));
    assert!(matches!(read_worker_arg(&param(Ty::I64), "x"), Err(m) if m == "sandbox worker: bad integer argument `x` for `p`"));
    assert!(matches!(
        read_worker_arg(&param(Ty::Channel(Box::new(Ty::I64))), "/tmp/s"),
        Ok(WorkerArg::Connect(p)) if p == "/tmp/s"
    ));
}

#[test]
fn worker_arguments_come_back() {
    for n in [0, -1, 42, i64::MIN, i64::MAX] {
        assert!(matches!(
            read_worker_arg(&param(Ty::I64), &n.to_string()),
            Ok(WorkerArg::Value(Value::Int(m))) if m == n
        ));
    }
}

#[test]
fn values_have_frames() {
    assert_eq!(write_value(&Value::Int(258)), Some(vec![0, 2, 1, 0, 0, 0, 0, 0, 0]));
    assert_eq!(write_value(&Value::Int(-1)), Some(vec![0, 255, 255, 255, 255, 255, 255, 255, 255]));
    assert_eq!(write_value(&Value::Bool(true)), Some(vec![1, 1]));
    assert_eq!(write_value(&Value::Unit), None);
}

#[test]
fn frames_come_back() {
    for n in [0, 1, -1, 1234567890123, i64::MIN, i64::MAX] {
        let Some(mut b) = write_value(&Value::Int(n)) else { panic!("no frame") };
        b.push(77);
        assert!(matches!(read_value(&b), Arrival::Value(Value::Int(m), 9) if m == n));
        assert!(matches!(read_value(&b[..4]), Arrival::More(5)));
    }
    assert!(matches!(read_value(&[]), Arrival::More(1)));
    assert!(matches!(read_value(&[1]), Arrival::More(1)));
    assert!(matches!(read_value(&[1, 0]), Arrival::Value(Value::Bool(false), 2)));
    assert!(matches!(read_value(&[9, 0]), Arrival::Corrupt(m) if m == "corrupt sandbox channel wire tag 9"));
    assert!(closed_early().starts_with("the sandboxed process closed this channel"));
}

#[test]
fn chunks_are_texts() {
    assert_eq!(read_tcp("hé".as_bytes().to_vec()), Ok("hé".to_string()));
    assert_eq!(read_tcp(Vec::new()), Err("the tcp connection was closed by the peer".to_string()));
    assert_eq!(
        read_tcp(vec![255]),
        Err("tcp connection received bytes that were not valid UTF-8".to_string())
    );
    assert_eq!(read_file(Vec::new()), Ok(String::new()));
    assert_eq!(read_file(vec![0xC3]), Err("file contained bytes that were not valid UTF-8".to_string()));
}

#[test]
fn messages_keep_their_order() {
    let mut c = ChannelInner::new();
    assert!(matches!(c.recv(), RecvStep::Wait));
    for n in 0..3 {
        assert!(matches!(c.send(Value::Int(n)), SendStep::Queued));
    }
    for n in 0..3 {
        assert!(matches!(c.recv(), RecvStep::Got(Value::Int(m)) if m == n));
    }
    assert!(matches!(c.recv(), RecvStep::Wait));
}

#[test]
fn channel_crosses_once() {
    let mut c = ChannelInner::new();
    assert!(c.can_prepare().is_ok());
    assert!(c.prepare_for_sandbox("/tmp/s".to_string()).is_ok());
    assert_eq!(c.leftover().as_deref(), Some("/tmp/s"));
    assert!(matches!(c.send(Value::Int(1)), SendStep::Connect(Value::Int(1))));
    assert!(matches!(c.recv(), RecvStep::Connect));
    let e = match c.prepare_for_sandbox("/tmp/t".to_string()) {
        Ok(_) => panic!("accepted"),
        Err(e) => e,
    };
    assert!(e.starts_with("this `chan` was already passed to a `sandbox` once"));
    assert_eq!(c.connected().as_deref(), Some("/tmp/s"));
    assert!(matches!(c.state, TransportState::Socket));
    assert!(c.leftover().is_none());
    assert!(matches!(c.send(Value::Bool(true)), SendStep::Write(b) if b == [1, 1]));
    assert!(matches!(c.send(Value::Unit), SendStep::Stuck));
    assert!(matches!(c.recv(), RecvStep::Read));
    let mut used = ChannelInner::new();
    used.send(Value::Int(1));
    let e = match used.can_prepare() {
        Ok(_) => panic!("accepted"),
        Err(e) => e,
    };
    assert!(e.starts_with("a `chan` with already-queued messages can't be passed"));
    assert!(matches!(ChannelInner::from_socket().state, TransportState::Socket));
}

fn record(t: &mut Tracer) {
    t.record_span(
        Some(Effect::Io),
        Span { line: 1, col: 2 },
        "print",
        None,
        5,
        Outcome::Success,
    );
}

#[test]
fn tracer_is_bounded() {
    let mut t = Tracer::new_console();
    assert!(matches!(t.destination, Destination::Stdout));
    for _ in 0..CHANNEL_CAPACITY + 3 {
        record(&mut t);
    }
    assert_eq!(t.dropped_count(), 3);
    assert_eq!(t.emitted_count(), 0);
    assert!(matches!(t.next_event(), Some(Event::Span(_))));
    assert_eq!(t.emitted_count(), 0);
    t.wrote(false);
    assert_eq!(t.emitted_count(), 0);
    t.wrote(true);
    assert_eq!(t.emitted_count(), 1);
    record(&mut t);
    assert_eq!(t.dropped_count(), 3);
    let mut rest = 0;
    while t.next_event().is_some() {
        rest += 1;
    }
    assert_eq!(rest, CHANNEL_CAPACITY);
    assert!(matches!(Tracer::new_file("f".to_string()).destination, Destination::File(p) if p == "f"));
}

#[test]
fn tracer_without_exporter_gives_up() {
    let mut t = Tracer::new_console();
    record(&mut t);
    t.exporter_exited();
    record(&mut t);
    assert_eq!(t.dropped_count(), 1);
    assert!(t.next_event().is_some());
    assert!(t.next_event().is_none());
}

#[test]
fn spans_are_written() {
    let s = SpanRecord {
        effect: None,
        site: Span { line: 3, col: 4 },
        name: "call",
        fn_name: Some("f".to_string()),
        duration_us: 17,
        outcome: Outcome::Failure("DivByZero"),
    };
    let Json::Obj(o) = render_span_json(&s) else { panic!("no object") };
    let names: Vec<&str> = o.iter().map(|e| e.0.as_str()).collect();
    assert_eq!(
        names,
        ["type", "name", "fn_name", "effect", "site", "duration_us", "outcome", "error_kind"]
    );
    assert_eq!(
        Json::Obj(o).to_text().as_deref(),
        Some(
            "{\"duration_us\":17,\"effect\":null,\"error_kind\":\"DivByZero\",\"fn_name\":\"f\",\"name\":\"call\",\
             \"outcome\":\"err\",\"site\":{\"col\":4,\"line\":3},\"type\":\"span\"}"
        )
    );
}

#[test]
fn builtins_with_effects_are_traced() {
    assert!(matches!(traced_builtin("print"), Some((Effect::Io, "print"))));
    assert!(matches!(traced_builtin("rand_f64"), Some((Effect::Rng, "rand_f64"))));
    assert!(traced_builtin("det").is_none());
    assert!(traced_builtin("nothing").is_none());
}

#[test]
fn requests_with_effects_are_traced() {
    let send = Request::Send(Value::Tcp(1), Value::Str("x".to_string()));
    assert_eq!(traced_request(&send), Some((Effect::Network, "tcp.send")));
    let recv = Request::Recv(Value::Channel(1));
    assert_eq!(traced_request(&recv), Some((Effect::Concurrent, "chan.recv")));
    assert_eq!(traced_request(&Request::Stop(Value::File(1))), Some((Effect::Io, "stop")));
    assert_eq!(traced_request(&Request::Uniform(1)), Some((Effect::Rng, "rand_f64")));
    assert_eq!(traced_request(&Request::Channel), None);
}

#[test]
fn handles_end_once() {
    let mut h: Handles<&str> = Handles::new();
    let a = h.keep("a");
    let b = h.keep("b");
    assert_ne!(a, b);
    assert_eq!(h.get(a), Some(&"a"));
    assert_eq!(h.take(a), Some("a"));
    assert_eq!(h.take(a), None);
    assert_eq!(h.get(a), None);
    assert_eq!(h.get(b), Some(&"b"));
    let c = h.keep("c");
    assert!(c != a && c != b);
    assert_eq!(h.take(99), None);
}

#[test]
fn kinds_hide_messages() {
    let a = ErrorKind::ChannelIoError { message: "/secret".to_string() };
    let b = ErrorKind::ChannelIoError { message: "other".to_string() };
    assert_eq!(error_kind_name(&a), "ChannelIoError");
    assert_eq!(error_kind_name(&a), error_kind_name(&b));
    assert_eq!(error_kind_name(&ErrorKind::SingularMatrix), "SingularMatrix");
    assert_eq!(error_kind_name(&ErrorKind::IndexOutOfBounds { index: 3, len: 2 }), "IndexOutOfBounds");
}
