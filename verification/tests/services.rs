use nirdosha::ast::{Block, Field, FnDecl, Param, Program, Requirement, StructDecl, Ty};
use nirdosha::dbconn;
use nirdosha::dbconn::{
    choose_backend, column_kind, rewrite_placeholders, row_document, sqlite_bind, Backend, Cell, PgKind,
    SqliteValue,
};
use nirdosha::json::{parse_json, Json};
use nirdosha::serve::{
    accept_token, answer, decode_value, dispatch, dispatch_as, encode_value, not_found, panicked, prepare_call,
    prepare_call_with, read_bearer, route, AuthConfig, Bearer, Dispatch, Identity, Method, Reply,
    Route,
};
use nirdosha::token::Span;
use nirdosha::value::Value;

fn here() -> Span {
    Span { line: 1, col: 1 }
}

fn function(name: &str, params: Vec<(&str, Ty)>, requirement: Option<Requirement>) -> FnDecl {
    FnDecl {
        name: name.to_string(),
        params: params.into_iter().map(|(n, ty)| Param { name: n.to_string(), ty }).collect(),
        ret: Ty::Unit,
        body: Block { stmts: Vec::new() },
        span: here(),
        declared_effects: None,
        requirement,
    }
}

fn named(n: &str) -> Ty {
    Ty::Named(n.to_string(), Vec::new())
}

fn service() -> Program {
    Program {
        fns: vec![
            function("add", vec![("a", Ty::I64), ("b", Ty::F64)], None),
            function("admin", vec![("x", Ty::Bool)], Some(Requirement::Role("boss".to_string()))),
            function(
                "dept",
                Vec::new(),
                Some(Requirement::Claim("dept".to_string(), "finance".to_string())),
            ),
            function("me", vec![("who", named("VerifiedIdentity")), ("p", named("Point"))], None),
            function("maybe", vec![("o", Ty::Named("Option".to_string(), vec![Ty::Str]))], None),
        ],
        structs: vec![
            StructDecl {
                name: "Point".to_string(),
                fields: vec![
                    Field { name: "x".to_string(), ty: Ty::I64 },
                    Field { name: "y".to_string(), ty: Ty::I64 },
                ],
                span: here(),
            },
            StructDecl {
                name: "Deep".to_string(),
                fields: vec![Field { name: "d".to_string(), ty: named("Deep") }],
                span: here(),
            },
        ],
        enums: Vec::new(),
    }
}

fn boss() -> Identity {
    Identity {
        value: Value::Str("boss".to_string()),
        roles: vec!["clerk".to_string(), "boss".to_string()],
        claims: vec![("dept".to_string(), "finance".to_string())],
        expires_at: Some(100),
    }
}

fn stranger() -> Identity {
    Identity { value: Value::Unit, roles: Vec::new(), claims: Vec::new(), expires_at: None }
}

fn text(r: &Reply) -> String {
    match r.body.to_text() {
        Some(t) => t,
        None => panic!("holds a float"),
    }
}

fn refused(program: &Program, name: &str, body: &str, id: Option<&Identity>) -> (u16, String) {
    match prepare_call(program, name, body, id) {
        Ok(_) => panic!("accepted"),
        Err(r) => (r.status, text(&r)),
    }
}

#[test]
fn requests_are_routed() {
    assert_eq!(route(Method::Options, "/anything"), Route::Preflight);
    assert_eq!(route(Method::Get, "/"), Route::Page);
    assert_eq!(route(Method::Get, "/x"), Route::NotFound);
    assert_eq!(route(Method::Post, "/api/add"), Route::Call("add".to_string()));
    assert_eq!(route(Method::Post, "/add"), Route::NotFound);
    assert_eq!(route(Method::Get, "/api/add"), Route::NotFound);
    assert_eq!(route(Method::Other, "/"), Route::NotFound);
    assert_eq!(not_found().status, 404);
    assert_eq!(text(&not_found()), "{\"err\":\"not found\"}");
    assert_eq!(panicked("f").status, 500);
}

#[test]
fn bearer_header_is_read() {
    let p = service();
    assert!(matches!(read_bearer(&p, "add", None, false), Bearer::Anonymous));
    assert!(matches!(read_bearer(&p, "add", Some("Bearer abc"), true), Bearer::Token(t) if t == "abc"));
    assert!(matches!(read_bearer(&p, "add", Some("bearer abc"), true), Bearer::Token(t) if t == "abc"));
    assert!(matches!(read_bearer(&p, "add", Some("Basic abc"), true), Bearer::Answered(r) if r.status == 401));
    assert!(matches!(read_bearer(&p, "add", Some("Bearer abc"), false), Bearer::Answered(r) if r.status == 500));
    assert!(matches!(read_bearer(&p, "none", Some("Bearer abc"), true), Bearer::Answered(r) if r.status == 404));
    let auth = AuthConfig {
        jwks_json: "{}".to_string(),
        issuer: "i".to_string(),
        audience: "a".to_string(),
    };
    assert_eq!(auth.clone().issuer, "i");
}

#[test]
fn tokens_run_out() {
    assert!(accept_token(Ok(boss()), 100).is_ok());
    assert!(accept_token(Ok(stranger()), i64::MAX).is_ok());
    match accept_token(Ok(boss()), 101) {
        Ok(_) => panic!("accepted"),
        Err(r) => {
            assert_eq!(r.status, 401);
            assert_eq!(text(&r), "{\"err\":\"invalid token: token has expired\"}");
        }
    }
    match accept_token(Err("bad signature".to_string()), 0) {
        Ok(_) => panic!("accepted"),
        Err(r) => assert_eq!(text(&r), "{\"err\":\"invalid token: bad signature\"}"),
    }
}

#[test]
fn arguments_come_from_the_body() {
    let p = service();
    let args = match prepare_call(&p, "add", "{\"b\": 1.5, \"a\": 2}", None) {
        Ok(v) => v,
        Err(r) => panic!("{}", text(&r)),
    };
    assert_eq!(args.len(), 2);
    assert!(matches!(args[0], Value::Int(2)));
    assert!(matches!(args[1], Value::Float(b) if b == 1.5f64.to_bits()));
}

#[test]
fn integers_are_numbers_too() {
    let p = service();
    let args = match prepare_call(&p, "add", "{\"a\": -3, \"b\": 4}", None) {
        Ok(v) => v,
        Err(r) => panic!("{}", text(&r)),
    };
    assert!(matches!(args[1], Value::Float(b) if b == 4.0f64.to_bits()));
}

#[test]
fn bad_requests_are_answered() {
    let p = service();
    assert_eq!(refused(&p, "none", "", None), (404, "{\"err\":\"no such function `none`\"}".to_string()));
    assert_eq!(
        refused(&p, "add", "{\"a\": 1}", None),
        (400, "{\"err\":\"missing field `b` in request body\"}".to_string())
    );
    assert_eq!(
        refused(&p, "add", "{\"a\": true, \"b\": 1}", None),
        (400, "{\"err\":\"field `a`: expected an integer\"}".to_string())
    );
    assert_eq!(
        refused(&p, "add", "{\"a\": 9223372036854775808, \"b\": 1}", None),
        (400, "{\"err\":\"field `a`: expected an integer\"}".to_string())
    );
    let (status, body) = refused(&p, "add", "{oops", None);
    assert_eq!(status, 400);
    assert!(body.starts_with("{\"err\":\"malformed JSON body: "));
    let (status, body) = refused(&p, "add", " \n\t ", None);
    assert_eq!((status, body.as_str()), (400, "{\"err\":\"missing field `a` in request body\"}"));
    let (status, _) = refused(&p, "add", "[1, 2]", None);
    assert_eq!(status, 400);
}

#[test]
fn gates_are_kept() {
    let p = service();
    assert_eq!(
        refused(&p, "admin", "{\"x\": true}", None),
        (401, "{\"err\":\"sign in required: requires role `boss`\"}".to_string())
    );
    assert_eq!(
        refused(&p, "admin", "not even json", Some(&stranger())),
        (403, "{\"err\":\"insufficient privilege: requires role `boss`\"}".to_string())
    );
    assert!(prepare_call(&p, "admin", "{\"x\": true}", Some(&boss())).is_ok());
    assert_eq!(
        refused(&p, "dept", "", Some(&stranger())),
        (403, "{\"err\":\"insufficient privilege: requires claim `dept` = `finance`\"}".to_string())
    );
    assert!(prepare_call(&p, "dept", "", Some(&boss())).is_ok());
}

#[test]
fn requests_are_dispatched() {
    let p = service();
    let d = dispatch(&p, "add", "{\"a\":1,\"b\":2}", None, false);
    assert!(matches!(d, Dispatch::Call(v) if v.len() == 2));
    let d = dispatch(&p, "admin", "{\"x\":true}", None, true);
    assert!(matches!(d, Dispatch::Answer(r) if r.status == 401));
    let d = dispatch(&p, "admin", "{\"x\":true}", Some("Bearer abc"), true);
    assert!(matches!(d, Dispatch::Validate(t) if t == "abc"));
    let d = dispatch_as(&p, "admin", "{\"x\":true}", Ok(boss()), 100);
    assert!(matches!(d, Dispatch::Call(v) if v.len() == 1));
    let d = dispatch_as(&p, "admin", "{\"x\":true}", Ok(boss()), 101);
    assert!(matches!(d, Dispatch::Answer(r) if r.status == 401));
    let d = dispatch_as(&p, "admin", "{\"x\":true}", Ok(stranger()), 0);
    assert!(matches!(d, Dispatch::Answer(r) if r.status == 403));
    let d = dispatch_as(&p, "add", "{\"a\":1,\"b\":2}", Err("bad".to_string()), 0);
    assert!(matches!(d, Dispatch::Answer(r) if r.status == 401));
}

#[test]
fn identity_comes_from_the_token() {
    let p = service();
    let body = "{\"who\": \"me\", \"p\": {\"x\": 1, \"y\": 2}}";
    assert_eq!(
        refused(&p, "me", body, None),
        (401, "{\"err\":\"sign in required: `me` takes a VerifiedIdentity\"}".to_string())
    );
    let args = match prepare_call(&p, "me", body, Some(&boss())) {
        Ok(v) => v,
        Err(r) => panic!("{}", text(&r)),
    };
    assert!(matches!(&args[0], Value::Str(s) if s == "boss"));
    assert!(matches!(&args[1], Value::Struct(n, f) if n == "Point" && f.len() == 2));
    assert_eq!(
        refused(&p, "me", "{\"p\": {\"x\": 1}}", Some(&boss())),
        (400, "{\"err\":\"field `p`: missing field `y` for `Point`\"}".to_string())
    );
    assert_eq!(
        refused(&p, "me", "{\"p\": 1}", Some(&boss())),
        (400, "{\"err\":\"field `p`: expected an object for `Point`\"}".to_string())
    );
}

#[test]
fn document_is_handed_over() {
    let p = service();
    let doc: Result<Json, String> = Ok(Json::Obj(vec![("o".to_string(), Json::Null)]));
    let args = match prepare_call_with(&p, &p.fns[4], &doc, None) {
        Ok(v) => v,
        Err(r) => panic!("{}", text(&r)),
    };
    assert!(matches!(&args[0], Value::Enum(e, v, p) if e == "Option" && v == "None" && p.is_empty()));
    let doc: Result<Json, String> = Err("broken".to_string());
    match prepare_call_with(&p, &p.fns[4], &doc, None) {
        Ok(_) => panic!("accepted"),
        Err(r) => assert_eq!(text(&r), "{\"err\":\"malformed JSON body: broken\"}"),
    }
}

#[test]
fn structs_are_read_two_levels_deep() {
    let p = service();
    let mut j = Json::Null;
    for _ in 0..4 {
        j = Json::Obj(vec![("d".to_string(), j)]);
    }
    let e = match decode_value(&j, &named("Deep"), &p, 0) {
        Ok(_) => panic!("accepted"),
        Err(e) => e,
    };
    assert_eq!(e, "cannot decode a `Deep` from a JSON request body");
    let e = match decode_value(&Json::Null, &Ty::Tcp, &p, 0) {
        Ok(_) => panic!("accepted"),
        Err(e) => e,
    };
    assert_eq!(e, "cannot decode a `tcp` from a JSON request body");
    assert!(decode_value(&Json::Str("a".to_string()), &Ty::Str, &p, 0).is_ok());
    assert_eq!(decode_value(&Json::Null, &Ty::Str, &p, 0).err(), Some("expected a string".to_string()));
    assert_eq!(decode_value(&Json::Null, &Ty::Bool, &p, 0).err(), Some("expected a boolean".to_string()));
    assert_eq!(decode_value(&Json::Null, &Ty::F64, &p, 0).err(), Some("expected a number".to_string()));
    assert_eq!(
        decode_value(&Json::Null, &named("Nope"), &p, 0).err(),
        Some("cannot decode a `Nope` from a JSON request body".to_string())
    );
}

fn sent(v: Value) -> String {
    let p = service();
    match encode_value(&v, &p) {
        Ok(j) => match j.to_text() {
            Some(t) => t,
            None => panic!("holds a float"),
        },
        Err(e) => e,
    }
}

fn variant(e: &str, v: &str, p: Vec<Value>) -> Value {
    Value::Enum(e.to_string(), v.to_string(), p)
}

#[test]
fn values_are_sent() {
    assert_eq!(sent(Value::Int(-7)), "-7");
    assert_eq!(sent(Value::Unit), "null");
    assert_eq!(sent(Value::Str("a\"b\n".to_string())), "\"a\\\"b\\n\"");
    assert_eq!(sent(Value::Float(f64::NAN.to_bits())), "null");
    assert_eq!(sent(Value::Float(f64::INFINITY.to_bits())), "null");
    assert_eq!(sent(Value::Vector(vec![Value::Int(1), Value::Int(2)])), "[1,2]");
    let m = Value::Matrix(vec![Value::Int(1), Value::Int(2), Value::Int(3), Value::Int(4)], 2, 2);
    assert_eq!(sent(m), "[[1,2],[3,4]]");
    assert_eq!(sent(variant("Result", "Ok", vec![Value::Int(1)])), "{\"ok\":1}");
    assert_eq!(sent(variant("Result", "Err", Vec::new())), "{\"err\":null}");
    assert_eq!(sent(variant("Option", "None", Vec::new())), "null");
    assert_eq!(sent(variant("Option", "Some", vec![Value::Bool(true)])), "true");
    assert_eq!(
        sent(variant("Color", "Red", vec![Value::Int(1)])),
        "{\"payload\":[1],\"variant\":\"Red\"}"
    );
    let s = Value::Struct("Point".to_string(), vec![Value::Int(1), Value::Int(2)]);
    assert_eq!(sent(s), "{\"x\":1,\"y\":2}");
    assert_eq!(sent(Value::Struct("Nope".to_string(), Vec::new())), "unknown struct `Nope`");
    assert_eq!(
        sent(Value::Tcp(1)),
        "this value type can't be sent over HTTP (an affine handle or function value)"
    );
    assert!(matches!(encode_value(&Value::Float(1.5f64.to_bits()), &service()), Ok(Json::Float(_))));
    let ragged = Value::Matrix(vec![Value::Int(1)], 2, 2);
    assert_eq!(sent(ragged), "this value does not fit its type");
}

#[test]
fn calls_are_answered() {
    let p = service();
    let r = answer(&p, "add", &Ok(Value::Int(3)));
    assert_eq!((r.status, text(&r).as_str()), (200, "3"));
    let r = answer(&p, "add", &Err("1:2: division by zero".to_string()));
    assert_eq!((r.status, text(&r).as_str()), (500, "{\"err\":\"1:2: division by zero\"}"));
    let r = answer(&p, "add", &Ok(Value::File(1)));
    assert_eq!(r.status, 500);
    assert!(text(&r).starts_with("{\"err\":\"`add` returned a value this server can't encode as JSON: "));
}

#[test]
fn decoded_values_come_back() {
    let p = service();
    let option = |t: Ty| Ty::Named("Option".to_string(), vec![t]);
    for (text, t) in [
        ("{\"y\": 2, \"x\": 1, \"z\": 3}", named("Point")),
        ("null", option(Ty::I64)),
        ("7", option(option(Ty::I64))),
        ("{\"x\": 5, \"y\": -6}", option(named("Point"))),
        ("1.5", Ty::F64),
    ] {
        let decoded = |j: &Json| match decode_value(j, &t, &p, 0) {
            Ok(v) => v,
            Err(e) => panic!("{e}"),
        };
        let v = match parse_json(text) {
            Ok(j) => decoded(&j),
            Err(_) => panic!("no document"),
        };
        let k = match encode_value(&v, &p) {
            Ok(k) => k,
            Err(e) => panic!("{e}"),
        };
        assert!(v.equals(&decoded(&k)));
    }
}

#[test]
fn scalars_come_back() {
    let p = service();
    for (v, t) in [
        (Value::Int(i64::MIN), Ty::I64),
        (Value::Bool(false), Ty::Bool),
        (Value::Str("ü".to_string()), Ty::Str),
        (Value::Float(0.1f64.to_bits()), Ty::F64),
    ] {
        let j = match encode_value(&v, &p) {
            Ok(j) => j,
            Err(e) => panic!("{e}"),
        };
        let w = match decode_value(&j, &t, &p, 0) {
            Ok(w) => w,
            Err(e) => panic!("{e}"),
        };
        assert!(v.equals(&w));
    }
}

#[test]
fn documents_are_read_and_written() {
    let j = match parse_json("{\"b\":[1,-2,true,null],\"a\":\"x\"}") {
        Ok(j) => j,
        Err(e) => panic!("{e}"),
    };
    assert_eq!(j.to_text().as_deref(), Some("{\"a\":\"x\",\"b\":[1,-2,true,null]}"));
    let Json::Obj(o) = &j else { panic!("no object") };
    assert_eq!(o[0].0, "a");
    assert!(matches!(parse_json("18446744073709551615"), Ok(Json::Int(18446744073709551615))));
    assert!(matches!(parse_json("2.5"), Ok(Json::Float(b)) if b == 2.5f64.to_bits()));
    assert!(parse_json("[1,").is_err());
    assert!(Json::Float(1.0f64.to_bits()).to_text().is_none());
    assert!(Json::Int(i128::MAX).to_text().is_none());
    let twice = Json::Obj(vec![("k".to_string(), Json::Int(1)), ("k".to_string(), Json::Int(2))]);
    assert_eq!(twice.to_text().as_deref(), Some("{\"k\":2}"));
}

#[test]
fn scheme_names_the_backend() {
    assert_eq!(choose_backend(":memory:"), Backend::Sqlite);
    assert_eq!(choose_backend("data/postgres://x"), Backend::Sqlite);
    assert_eq!(choose_backend("postgres://h/db"), Backend::Postgres { tls: false });
    assert_eq!(choose_backend("postgresql://h/db?sslmode=disable"), Backend::Postgres { tls: false });
    assert_eq!(choose_backend("postgresql://h/db?sslmode=require"), Backend::Postgres { tls: true });
    assert_eq!(choose_backend("postgres://h/db?sslmode=verify-ca"), Backend::Postgres { tls: true });
    assert_eq!(choose_backend("postgres://h/db?x=1&sslmode=verify-full"), Backend::Postgres { tls: true });
}

#[test]
fn placeholders_get_numbers() {
    assert_eq!(rewrite_placeholders("SELECT ?, ? WHERE a = ?"), "SELECT $1, $2 WHERE a = $3");
    assert_eq!(rewrite_placeholders("SELECT '?', ?"), "SELECT '?', $1");
    assert_eq!(rewrite_placeholders("SELECT 'it''s ?', ?"), "SELECT 'it''s ?', $1");
    assert_eq!(rewrite_placeholders("SELECT 1"), "SELECT 1");
    assert_eq!(rewrite_placeholders(""), "");
}

#[test]
fn parameters_are_bound() {
    let v = sqlite_bind(&vec![
        dbconn::Param::Int(3),
        dbconn::Param::Bool(true),
        dbconn::Param::Text("t".to_string()),
        dbconn::Param::Float(7),
    ]);
    assert_eq!(v.len(), 4);
    assert!(matches!(v[0], SqliteValue::Integer(3)));
    assert!(matches!(v[1], SqliteValue::Integer(1)));
    assert!(matches!(&v[2], SqliteValue::Text(t) if t == "t"));
    assert!(matches!(v[3], SqliteValue::Real(7)));
}

#[test]
fn rows_become_documents() {
    assert_eq!(column_kind("int4"), Ok(PgKind::Int4));
    assert_eq!(column_kind("citext"), Ok(PgKind::Text));
    assert_eq!(column_kind("uuid"), Err("unsupported postgres column type: uuid".to_string()));
    let row = vec![
        ("id".to_string(), Cell::Int(1)),
        ("name".to_string(), Cell::Text("n".to_string())),
        ("gone".to_string(), Cell::Null),
        ("ok".to_string(), Cell::Bool(true)),
        ("nan".to_string(), Cell::Float(f64::NAN.to_bits())),
        ("raw".to_string(), Cell::Blob(vec![0, 255, 26])),
    ];
    assert_eq!(
        row_document(&row).to_text().as_deref(),
        Some("{\"gone\":null,\"id\":1,\"name\":\"n\",\"nan\":null,\"ok\":true,\"raw\":\"00ff1a\"}")
    );
}
