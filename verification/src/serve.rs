//! Programs as HTTP services: which request calls which function, who may call
//! it, and how values travel as JSON.
use crate::ast::{
    Field, FnDecl, Param, Program, Requirement, STy, Ty, integer, name_of, tys_view,
};
use crate::json::{
    Json, SJson, entries_view, entry_from, find_entry, float_of, int_as_float, json_read,
    json_view, jsons_view, parse_json,
};
use crate::registry::{find_first_fn, find_struct, first_fn, struct_from, struct_named};
use crate::text::{cat2, cat3, cat4, cat5, same};
use crate::value::{
    SValue, Value, copy_value, magnitude, values_view,
};
use vstd::prelude::*;
use vstd::string::*;

verus! {

/// What bearer tokens are validated against.
#[derive(Debug, Clone)]
pub struct AuthConfig {
    pub jwks_json: String,
    pub issuer: String,
    pub audience: String,
}

/// Whom a valid token speaks for.
#[derive(Debug)]
pub struct Identity {
    /// The value that a parameter of type `VerifiedIdentity` is given.
    pub value: Value,
    pub roles: Vec<String>,
    pub claims: Vec<(String, String)>,
    /// In seconds since 1970, where it is known.
    pub expires_at: Option<i64>,
}

/// An answer to a request.
#[derive(Debug)]
pub struct Reply {
    pub status: u16,
    pub body: Json,
}

pub ghost struct SReply {
    pub status: u16,
    pub body: SJson,
}

impl View for Reply {
    type V = SReply;

    open spec fn view(&self) -> SReply {
        SReply { status: self.status, body: self.body@ }
    }
}

/// What a request is for.
#[derive(Debug, PartialEq, Eq, Clone)]
pub enum Route {
    /// The browser asks which requests it may make.
    Preflight,
    /// The page of the program.
    Page,
    /// A call of a function.
    Call(String),
    NotFound,
}

/// The methods that are told apart.
#[derive(Debug, PartialEq, Eq, Clone, Copy, Structural)]
pub enum Method {
    Options,
    Get,
    Post,
    Other,
}

pub ghost enum SRoute {
    Preflight,
    Page,
    Call(Seq<char>),
    NotFound,
}

impl View for Route {
    type V = SRoute;

    open spec fn view(&self) -> SRoute {
        match *self {
            Route::Preflight => SRoute::Preflight,
            Route::Page => SRoute::Page,
            Route::Call(n) => SRoute::Call(n@),
            Route::NotFound => SRoute::NotFound,
        }
    }
}

/// Whether `s` starts with `p`.
pub open spec fn starts_with(s: Seq<char>, p: Seq<char>) -> bool {
    p.len() <= s.len() && s.subrange(0, p.len() as int) == p
}

/// `s` without `p` at its start.
pub open spec fn stripped(s: Seq<char>, p: Seq<char>) -> Option<Seq<char>> {
    if starts_with(s, p) {
        Some(s.subrange(p.len() as int, s.len() as int))
    } else {
        None
    }
}

fn strip(s: &str, p: &str) -> (r: Option<String>)
    ensures
        match r {
            Some(t) => stripped(s@, p@) == Some(t@),
            None => stripped(s@, p@) is None,
        },
{
    let n: usize = p.unicode_len();
    let m: usize = s.unicode_len();
    if n > m || !same(s.substring_char(0, n), p) {
        return None;
    }
    Some(s.substring_char(n, m).to_owned())
}

pub open spec fn routed(method: Method, url: Seq<char>) -> SRoute {
    if method is Options {
        SRoute::Preflight
    } else if method is Get && url == "/"@ {
        SRoute::Page
    } else {
        match stripped(url, "/api/"@) {
            Some(name) => if method is Post {
                SRoute::Call(name)
            } else {
                SRoute::NotFound
            },
            None => SRoute::NotFound,
        }
    }
}

/// What a request is for.
pub fn route(method: Method, url: &str) -> (r: Route)
    ensures
        r@ == routed(method, url@),
{
    if matches!(method, Method::Options) {
        return Route::Preflight;
    }
    if matches!(method, Method::Get) && same(url, "/") {
        return Route::Page;
    }
    if matches!(method, Method::Post) {
        match strip(url, "/api/") {
            Some(name) => {
                return Route::Call(name);
            }
            None => {}
        }
    }
    Route::NotFound
}

/// The document that reports an error.
pub open spec fn err_json(message: Seq<char>) -> SJson {
    SJson::Obj(seq![("err"@, SJson::Str(message))])
}

pub open spec fn err_reply(status: u16, message: Seq<char>) -> SReply {
    SReply { status, body: err_json(message) }
}

fn json_err(message: String) -> (r: Json)
    ensures
        r@ == err_json(message@),
{
    let ghost m = message@;
    let mut v: Vec<(String, Json)> = Vec::new();
    v.push(("err".to_owned(), Json::Str(message)));
    let r = Json::Obj(v);
    proof {
        assert(v@[0].1 == Json::Str(message));
        assert(json_view(v@[0].1) == SJson::Str(m));
        assert(entries_view(v@) =~= seq![("err"@, SJson::Str(m))]);
    }
    r
}

fn fail(status: u16, message: String) -> (r: Reply)
    ensures
        r@ == err_reply(status, message@),
{
    Reply { status, body: json_err(message) }
}

/// The answer to a request that has no route.
pub fn not_found() -> (r: Reply)
    ensures
        r@ == err_reply(404, "not found"@),
{
    fail(404, "not found".to_owned())
}

/// The answer where handling a call came to a sudden end.
pub fn panicked(fn_name: &str) -> (r: Reply)
    ensures
        r@ == err_reply(500, "`"@ + fn_name@ + "` panicked while handling this request"@),
{
    fail(500, cat3("`", fn_name, "` panicked while handling this request"))
}

/// What is known of the caller before a token is looked at.
pub enum Bearer {
    /// The request is answered already.
    Answered(Reply),
    /// A token that is to be validated.
    Token(String),
    Anonymous,
}

pub ghost enum SBearer {
    Answered(SReply),
    Token(Seq<char>),
    Anonymous,
}

impl View for Bearer {
    type V = SBearer;

    open spec fn view(&self) -> SBearer {
        match *self {
            Bearer::Answered(r) => SBearer::Answered(r@),
            Bearer::Token(t) => SBearer::Token(t@),
            Bearer::Anonymous => SBearer::Anonymous,
        }
    }
}

pub open spec fn no_such(name: Seq<char>) -> SReply {
    err_reply(404, "no such function `"@ + name + "`"@)
}

pub open spec fn bearer(
    p: Program,
    name: Seq<char>,
    header: Option<Seq<char>>,
    configured: bool,
) -> SBearer {
    if first_fn(p.fns@, name, 0) is None {
        SBearer::Answered(no_such(name))
    } else {
        match header {
            None => SBearer::Anonymous,
            Some(h) => if !configured {
                SBearer::Answered(
                    err_reply(
                        500,
                        "this server has no --jwks-file/--issuer/--audience configured to validate a bearer token against"@,
                    ),
                )
            } else {
                match stripped(h, "Bearer "@) {
                    Some(t) => SBearer::Token(t),
                    None => match stripped(h, "bearer "@) {
                        Some(t) => SBearer::Token(t),
                        None => SBearer::Answered(
                            err_reply(401, "Authorization header must be `Bearer <token>`"@),
                        ),
                    },
                }
            },
        }
    }
}

/// What is known of the caller of a function from the `Authorization` header;
/// `configured` says whether tokens can be validated at all.
pub fn read_bearer(program: &Program, fn_name: &str, header: Option<&str>, configured: bool) -> (r:
    Bearer)
    ensures
        r@ == bearer(
            *program,
            fn_name@,
            match header {
                Some(h) => Some(h@),
                None => None,
            },
            configured,
        ),
{
    match find_first_fn(program, fn_name) {
        None => {
            return Bearer::Answered(fail(404, cat3("no such function `", fn_name, "`")));
        }
        Some(_) => {}
    }
    match header {
        None => Bearer::Anonymous,
        Some(h) => {
            if !configured {
                return Bearer::Answered(
                    fail(
                        500,
                        "this server has no --jwks-file/--issuer/--audience configured to validate a bearer token against".to_owned(),
                    ),
                );
            }
            match strip(h, "Bearer ") {
                Some(t) => Bearer::Token(t),
                None => match strip(h, "bearer ") {
                    Some(t) => Bearer::Token(t),
                    None => Bearer::Answered(
                        fail(401, "Authorization header must be `Bearer <token>`".to_owned()),
                    ),
                },
            }
        }
    }
}

/// Whether an identity has run out at `now`.
pub open spec fn expired(id: Identity, now: i64) -> bool {
    id.expires_at matches Some(t) && now > t
}

/// Takes what validating a token gave. A token that is not valid, or has run out,
/// ends the request: its caller is not treated as anonymous.
pub fn accept_token(verdict: Result<Identity, String>, now: i64) -> (r: Result<Identity, Reply>)
    ensures
        match verdict {
            Err(m) => r matches Err(x) && x@ == err_reply(401, "invalid token: "@ + m@),
            Ok(id) => if expired(id, now) {
                r matches Err(x) && x@ == err_reply(401, "invalid token: token has expired"@)
            } else {
                r == Ok::<Identity, Reply>(id)
            },
        },
{
    match verdict {
        Err(m) => Err(fail(401, cat2("invalid token: ", m.as_str()))),
        Ok(id) => {
            match id.expires_at {
                Some(t) => {
                    if now > t {
                        return Err(fail(401, "invalid token: token has expired".to_owned()));
                    }
                }
                None => {}
            }
            Ok(id)
        }
    }
}

pub open spec fn has_role(id: Identity, role: Seq<char>) -> bool {
    exists|i: int| 0 <= i < id.roles@.len() && (#[trigger] id.roles@[i])@ == role
}

/// The value of the first claim of that name, from `i` on.
pub open spec fn claim_from(v: Seq<(String, String)>, key: Seq<char>, i: int) -> Option<Seq<char>>
    decreases v.len() - i,
{
    if i < 0 || i >= v.len() {
        None
    } else if v[i].0@ == key {
        Some(v[i].1@)
    } else {
        claim_from(v, key, i + 1)
    }
}

/// Whether an identity meets a requirement.
pub open spec fn meets_requirement(id: Identity, r: Requirement) -> bool {
    match r {
        Requirement::Role(role) => has_role(id, role@),
        Requirement::Claim(key, value) => claim_from(id.claims@, key@, 0) == Some(value@),
    }
}

fn identity_has_role(id: &Identity, role: &str) -> (r: bool)
    ensures
        r == has_role(*id, role@),
{
    let mut i: usize = 0;
    while i < id.roles.len()
        invariant
            i <= id.roles@.len(),
            forall|j: int| 0 <= j < i ==> (#[trigger] id.roles@[j])@ != role@,
        decreases id.roles@.len() - i,
    {
        if same(id.roles[i].as_str(), role) {
            return true;
        }
        i = i + 1;
    }
    false
}

fn identity_claims(id: &Identity, key: &str, value: &str) -> (r: bool)
    ensures
        r == (claim_from(id.claims@, key@, 0) == Some(value@)),
{
    let mut i: usize = 0;
    while i < id.claims.len()
        invariant
            i <= id.claims@.len(),
            claim_from(id.claims@, key@, 0) == claim_from(id.claims@, key@, i as int),
        decreases id.claims@.len() - i,
    {
        if same(id.claims[i].0.as_str(), key) {
            return same(id.claims[i].1.as_str(), value);
        }
        i = i + 1;
    }
    false
}

pub open spec fn described(r: Requirement) -> Seq<char> {
    match r {
        Requirement::Role(role) => "requires role `"@ + role@ + "`"@,
        Requirement::Claim(key, value) => "requires claim `"@ + key@ + "` = `"@ + value@ + "`"@,
    }
}

fn describe_requirement(r: &Requirement) -> (s: String)
    ensures
        s@ == described(*r),
{
    match r {
        Requirement::Role(role) => cat3("requires role `", role.as_str(), "`"),
        Requirement::Claim(key, value) => cat5("requires claim `", key.as_str(), "` = `", value.as_str(), "`"),
    }
}

/// Whether the caller may call the function, or the answer that says why not.
pub open spec fn gate(f: FnDecl, identity: Option<Identity>) -> Option<SReply> {
    match f.requirement {
        None => None,
        Some(q) => match identity {
            None => Some(err_reply(401, "sign in required: "@ + described(q))),
            Some(id) => if meets_requirement(id, q) {
                None
            } else {
                Some(err_reply(403, "insufficient privilege: "@ + described(q)))
            },
        },
    }
}

pub open spec fn given(identity: Option<&Identity>) -> Option<Identity> {
    match identity {
        Some(id) => Some(*id),
        None => None,
    }
}

fn check_gate(f: &FnDecl, identity: Option<&Identity>) -> (r: Result<(), Reply>)
    ensures
        match r {
            Ok(_) => gate(*f, given(identity)) is None,
            Err(x) => gate(*f, given(identity)) == Some(x@),
        },
{
    match &f.requirement {
        None => Ok(()),
        Some(q) => match identity {
            None => {
                let d = describe_requirement(q);
                Err(fail(401, cat2("sign in required: ", d.as_str())))
            }
            Some(id) => {
                let met = match q {
                    Requirement::Role(role) => identity_has_role(id, role.as_str()),
                    Requirement::Claim(key, value) => identity_claims(
                        id,
                        key.as_str(),
                        value.as_str(),
                    ),
                };
                if met {
                    Ok(())
                } else {
                    let d = describe_requirement(q);
                    Err(fail(403, cat2("insufficient privilege: ", d.as_str())))
                }
            }
        },
    }
}

pub open spec fn verified_identity(t: STy) -> bool {
    t matches STy::Named(n, args) && n == "VerifiedIdentity"@ && args.len() == 0
}

fn is_verified_identity(t: &Ty) -> (r: bool)
    ensures
        r == verified_identity(t@),
{
    match t {
        Ty::Named(n, args) => {
            proof {
                assert(tys_view(args@).len() == args@.len());
            }
            same(n.as_str(), "VerifiedIdentity") && args.len() == 0
        }
        _ => false,
    }
}

/// What a value is read from: a value, or why there is none.
pub ghost enum Read<T> {
    Is(T),
    Not(Seq<char>),
}

pub open spec fn undecodable(t: STy) -> Seq<char> {
    "cannot decode a `"@ + name_of(t) + "` from a JSON request body"@
}

/// How far there is still to look.
pub open spec fn rank(depth: nat) -> nat {
    if depth < 2 {
        (2 * (2 - depth)) as nat
    } else {
        0
    }
}

/// The value of a type that a document spells. A struct is looked into two levels
/// deep.
pub open spec fn decode(p: Program, j: SJson, t: STy, depth: nat) -> Read<SValue>
    decreases rank(depth), t, 0nat,
{
    match t {
        STy::Str => match j {
            SJson::Str(s) => Read::Is(SValue::Str(s)),
            _ => Read::Not("expected a string"@),
        },
        STy::F64 => match j {
            SJson::Int(n) => Read::Is(SValue::Float(float_of(n))),
            SJson::Float(b) => Read::Is(SValue::Float(b)),
            _ => Read::Not("expected a number"@),
        },
        STy::Bool => match j {
            SJson::Bool(b) => Read::Is(SValue::Bool(b)),
            _ => Read::Not("expected a boolean"@),
        },
        STy::Named(n, args) => if n == "Option"@ && args.len() == 1 {
            if j is Null {
                Read::Is(SValue::Enum("Option"@, "None"@, Seq::empty()))
            } else {
                match decode(p, j, args[0], depth) {
                    Read::Is(v) => Read::Is(SValue::Enum("Option"@, "Some"@, seq![v])),
                    Read::Not(m) => Read::Not(m),
                }
            }
        } else if args.len() == 0 && depth < 2 {
            match struct_named(p, n) {
                None => Read::Not("cannot decode a `"@ + n + "` from a JSON request body"@),
                Some(k) => match j {
                    SJson::Obj(o) => {
                        let fields = p.structs@[k].fields@;
                        match decode_fields(p, o, n, fields, fields.len(), depth + 1) {
                            Read::Is(v) => Read::Is(SValue::Struct(n, v)),
                            Read::Not(m) => Read::Not(m),
                        }
                    },
                    _ => Read::Not("expected an object for `"@ + n + "`"@),
                },
            }
        } else {
            Read::Not(undecodable(t))
        },
        _ => if integer(t) {
            match j {
                SJson::Int(n) => if i64::MIN <= n <= i64::MAX {
                    Read::Is(SValue::Int(n as i64))
                } else {
                    Read::Not("expected an integer"@)
                },
                _ => Read::Not("expected an integer"@),
            }
        } else {
            Read::Not(undecodable(t))
        },
    }
}

/// The values of the first `n` fields of a struct.
pub open spec fn decode_fields(
    p: Program,
    o: Seq<(Seq<char>, SJson)>,
    name: Seq<char>,
    fields: Seq<Field>,
    n: nat,
    depth: nat,
) -> Read<Seq<SValue>>
    decreases rank(depth) + 1, STy::Unit, n,
{
    if n == 0 || n > fields.len() {
        Read::Is(Seq::empty())
    } else {
        match decode_fields(p, o, name, fields, (n - 1) as nat, depth) {
            Read::Not(m) => Read::Not(m),
            Read::Is(v) => match entry_from(o, fields[n - 1].name@, 0) {
                None => Read::Not("missing field `"@ + fields[n - 1].name@ + "` for `"@ + name + "`"@),
                Some(i) => match decode(p, o[i].1, fields[n - 1].ty@, depth) {
                    Read::Not(m) => Read::Not(m),
                    Read::Is(x) => Read::Is(v.push(x)),
                },
            },
        }
    }
}

fn fits(n: i128) -> (r: Option<i64>)
    ensures
        match r {
            Some(k) => n == k,
            None => !(i64::MIN <= n <= i64::MAX),
        },
{
    if n >= i64::MIN as i128 && n <= i64::MAX as i128 {
        Some(n as i64)
    } else {
        None
    }
}

/// `r` is what `s` says.
pub open spec fn reads(r: Result<Value, String>, s: Read<SValue>) -> bool {
    match r {
        Ok(v) => s == Read::Is(v@),
        Err(m) => s == Read::<SValue>::Not(m@),
    }
}

/// `r` is what `s` says.
pub open spec fn reads_all(r: Result<Vec<Value>, String>, s: Read<Seq<SValue>>) -> bool {
    match r {
        Ok(v) => s == Read::Is(values_view(v@)),
        Err(m) => s == Read::<Seq<SValue>>::Not(m@),
    }
}

fn decode_int(j: &Json) -> (r: Result<Value, String>)
    ensures
        reads(
            r,
            match j@ {
                SJson::Int(n) => if i64::MIN <= n <= i64::MAX {
                    Read::Is(SValue::Int(n as i64))
                } else {
                    Read::Not("expected an integer"@)
                },
                _ => Read::Not("expected an integer"@),
            },
        ),
{
    match j {
        Json::Int(n) => match fits(*n) {
            Some(k) => Ok(Value::Int(k)),
            None => Err("expected an integer".to_owned()),
        },
        _ => Err("expected an integer".to_owned()),
    }
}

/// Reads a value of a type from a document.
pub fn decode_value(j: &Json, t: &Ty, program: &Program, depth: u8) -> (r: Result<Value, String>)
    ensures
        reads(r, decode(*program, j@, t@, depth as nat)),
    decreases rank(depth as nat), *t, 0nat,
{
    match t {
        Ty::Str => match j {
            Json::Str(s) => Ok(Value::Str(s.clone())),
            _ => Err("expected a string".to_owned()),
        },
        Ty::F64 => match j {
            Json::Int(n) => Ok(Value::Float(int_as_float(*n))),
            Json::Float(b) => Ok(Value::Float(*b)),
            _ => Err("expected a number".to_owned()),
        },
        Ty::Bool => match j {
            Json::Bool(b) => Ok(Value::Bool(*b)),
            _ => Err("expected a boolean".to_owned()),
        },
        Ty::Named(n, args) => {
            proof {
                assert(tys_view(args@).len() == args@.len());
            }
            if same(n.as_str(), "Option") && args.len() == 1 {
                return decode_option(j, &args[0], program, depth);
            }
            if args.len() == 0 && depth < 2 {
                return match find_struct(program, n.as_str()) {
                    None => Err(cat3("cannot decode a `", n.as_str(), "` from a JSON request body")),
                    Some(k) => match j {
                        Json::Obj(o) => match decode_struct(
                            o,
                            n.as_str(),
                            &program.structs[k].fields,
                            program,
                            depth + 1,
                        ) {
                            Ok(v) => Ok(Value::Struct(n.clone(), v)),
                            Err(m) => Err(m),
                        },
                        _ => Err(cat3("expected an object for `", n.as_str(), "`")),
                    },
                };
            }
            let name = t.name();
            Err(cat3("cannot decode a `", name.as_str(), "` from a JSON request body"))
        }
        _ => {
            if t.is_integer() {
                return decode_int(j);
            }
            let name = t.name();
            Err(cat3("cannot decode a `", name.as_str(), "` from a JSON request body"))
        }
    }
}

fn decode_option(j: &Json, t: &Ty, program: &Program, depth: u8) -> (r: Result<Value, String>)
    ensures
        reads(
            r,
            if j@ is Null {
                Read::Is(SValue::Enum("Option"@, "None"@, Seq::empty()))
            } else {
                match decode(*program, j@, t@, depth as nat) {
                    Read::Is(v) => Read::Is(SValue::Enum("Option"@, "Some"@, seq![v])),
                    Read::Not(m) => Read::Not(m),
                }
            },
        ),
    decreases rank(depth as nat), *t, 1nat,
{
    if matches!(j, Json::Null) {
        let none: Vec<Value> = Vec::new();
        proof {
            assert(values_view(none@) =~= Seq::<SValue>::empty());
        }
        return Ok(Value::Enum("Option".to_owned(), "None".to_owned(), none));
    }
    let x = decode_value(j, t, program, depth)?;
    let ghost xv = x@;
    let mut one: Vec<Value> = Vec::new();
    one.push(x);
    proof {
        assert(values_view(one@) =~= seq![xv]);
    }
    Ok(Value::Enum("Option".to_owned(), "Some".to_owned(), one))
}

proof fn decode_fields_stop(
    p: Program,
    o: Seq<(Seq<char>, SJson)>,
    name: Seq<char>,
    fields: Seq<Field>,
    a: nat,
    b: nat,
    depth: nat,
)
    requires
        a <= b <= fields.len(),
        decode_fields(p, o, name, fields, a, depth) is Not,
    ensures
        decode_fields(p, o, name, fields, b, depth) == decode_fields(
            p,
            o,
            name,
            fields,
            a,
            depth,
        ),
    decreases b,
{
    if a < b {
        decode_fields_stop(p, o, name, fields, a, (b - 1) as nat, depth);
    }
}

fn decode_struct(
    o: &Vec<(String, Json)>,
    name: &str,
    fields: &Vec<Field>,
    program: &Program,
    depth: u8,
) -> (r: Result<Vec<Value>, String>)
    ensures
        reads_all(
            r,
            decode_fields(
                *program,
                entries_view(o@),
                name@,
                fields@,
                fields@.len(),
                depth as nat,
            ),
        ),
    decreases rank(depth as nat) + 1, Ty::Unit, 0nat,
{
    let ghost p = *program;
    let ghost ov = entries_view(o@);
    let mut out: Vec<Value> = Vec::new();
    let mut i: usize = 0;
    proof {
        assert(values_view(out@) =~= Seq::<SValue>::empty());
    }
    while i < fields.len()
        invariant
            i <= fields@.len(),
            p == *program,
            ov == entries_view(o@),
            decode_fields(p, ov, name@, fields@, i as nat, depth as nat) == Read::Is(
                values_view(out@),
            ),
        decreases fields@.len() - i,
    {
        let field = &fields[i];
        match find_entry(o, field.name.as_str()) {
            None => {
                proof {
                    decode_fields_stop(
                        p,
                        ov,
                        name@,
                        fields@,
                        (i + 1) as nat,
                        fields@.len(),
                        depth as nat,
                    );
                }
                return Err(cat5("missing field `", field.name.as_str(), "` for `", name, "`"));
            }
            Some(k) => match decode_value(&o[k].1, &field.ty, program, depth) {
                Ok(x) => {
                    let ghost was = out@;
                    let ghost xv = x@;
                    out.push(x);
                    proof {
                        assert(values_view(out@) =~= values_view(was).push(xv));
                    }
                }
                Err(m) => {
                    proof {
                        decode_fields_stop(
                            p,
                            ov,
                            name@,
                            fields@,
                            (i + 1) as nat,
                            fields@.len(),
                            depth as nat,
                        );
                    }
                    return Err(m);
                }
            },
        }
        i = i + 1;
    }
    Ok(out)
}

/// White space, as Unicode has it.
pub open spec fn white(c: char) -> bool {
    let n = c as u32;
    9 <= n <= 13 || n == 0x20 || n == 0x85 || n == 0xA0 || n == 0x1680 || 0x2000 <= n <= 0x200A || n
        == 0x2028 || n == 0x2029 || n == 0x202F || n == 0x205F || n == 0x3000
}

/// Nothing but white space.
pub open spec fn blank(s: Seq<char>) -> bool {
    forall|i: int| 0 <= i < s.len() ==> white(#[trigger] s[i])
}

fn is_white(c: char) -> (r: bool)
    ensures
        r == white(c),
{
    let n: u32 = c as u32;
    (9 <= n && n <= 13) || n == 0x20 || n == 0x85 || n == 0xA0 || n == 0x1680 || (0x2000 <= n && n
        <= 0x200A) || n == 0x2028 || n == 0x2029 || n == 0x202F || n == 0x205F || n == 0x3000
}

fn is_blank(s: &str) -> (r: bool)
    ensures
        r == blank(s@),
{
    let n: usize = s.unicode_len();
    let mut i: usize = 0;
    while i < n
        invariant
            n == s@.len(),
            i <= n,
            forall|j: int| 0 <= j < i ==> white(#[trigger] s@[j]),
        decreases n - i,
    {
        if !is_white(s.get_char(i)) {
            return false;
        }
        i = i + 1;
    }
    true
}

/// The document of a request's body; no body is an empty object.
pub open spec fn body_document(body: Seq<char>) -> Result<SJson, Seq<char>> {
    if blank(body) {
        Ok(SJson::Obj(Seq::empty()))
    } else {
        json_read(body)
    }
}

/// What a call is made with, or the answer that takes its place.
pub ghost enum Prepared {
    With(Seq<SValue>),
    Answered(SReply),
}

pub open spec fn fields_of(j: SJson) -> Seq<(Seq<char>, SJson)> {
    match j {
        SJson::Obj(o) => o,
        _ => Seq::empty(),
    }
}

/// The value of one parameter. An identity comes from the token, never from the
/// body.
pub open spec fn argument(
    p: Program,
    name: Seq<char>,
    q: Param,
    o: Seq<(Seq<char>, SJson)>,
    identity: Option<Identity>,
) -> Result<SValue, SReply> {
    if verified_identity(q.ty@) {
        match identity {
            Some(id) => Ok(id.value@),
            None => Err(
                err_reply(401, "sign in required: `"@ + name + "` takes a VerifiedIdentity"@),
            ),
        }
    } else {
        match entry_from(o, q.name@, 0) {
            None => Err(err_reply(400, "missing field `"@ + q.name@ + "` in request body"@)),
            Some(i) => match decode(p, o[i].1, q.ty@, 0) {
                Read::Is(v) => Ok(v),
                Read::Not(m) => Err(err_reply(400, "field `"@ + q.name@ + "`: "@ + m)),
            },
        }
    }
}

/// The values of the first `n` parameters.
pub open spec fn arguments(
    p: Program,
    f: FnDecl,
    o: Seq<(Seq<char>, SJson)>,
    identity: Option<Identity>,
    n: nat,
) -> Prepared
    decreases n,
{
    if n == 0 || n > f.params@.len() {
        Prepared::With(Seq::empty())
    } else {
        match arguments(p, f, o, identity, (n - 1) as nat) {
            Prepared::Answered(r) => Prepared::Answered(r),
            Prepared::With(v) => match argument(p, f.name@, f.params@[n - 1], o, identity) {
                Err(r) => Prepared::Answered(r),
                Ok(x) => Prepared::With(v.push(x)),
            },
        }
    }
}

/// What a call is made with, once the document of the body is known.
pub open spec fn prepared_with(
    p: Program,
    f: FnDecl,
    document: Result<SJson, Seq<char>>,
    identity: Option<Identity>,
) -> Prepared {
    match gate(f, identity) {
        Some(r) => Prepared::Answered(r),
        None => match document {
            Err(m) => Prepared::Answered(err_reply(400, "malformed JSON body: "@ + m)),
            Ok(j) => arguments(p, f, fields_of(j), identity, f.params@.len()),
        },
    }
}

/// What a call is made with: the function has to be there, the caller has to be
/// let in, and the body has to spell the arguments, in that order.
pub open spec fn prepared(
    p: Program,
    name: Seq<char>,
    body: Seq<char>,
    identity: Option<Identity>,
) -> Prepared {
    match first_fn(p.fns@, name, 0) {
        None => Prepared::Answered(no_such(name)),
        Some(k) => prepared_with(p, p.fns@[k], body_document(body), identity),
    }
}

/// `r` is what `s` says.
pub open spec fn prepares(r: Result<Vec<Value>, Reply>, s: Prepared) -> bool {
    match r {
        Ok(v) => s == Prepared::With(values_view(v@)),
        Err(x) => s == Prepared::Answered(x@),
    }
}

proof fn arguments_stop(
    p: Program,
    f: FnDecl,
    o: Seq<(Seq<char>, SJson)>,
    identity: Option<Identity>,
    a: nat,
    b: nat,
)
    requires
        a <= b <= f.params@.len(),
        arguments(p, f, o, identity, a) is Answered,
    ensures
        arguments(p, f, o, identity, b) == arguments(p, f, o, identity, a),
    decreases b,
{
    if a < b {
        arguments_stop(p, f, o, identity, a, (b - 1) as nat);
    }
}

fn read_argument(
    program: &Program,
    name: &str,
    q: &Param,
    o: &Vec<(String, Json)>,
    identity: Option<&Identity>,
) -> (r: Result<Value, Reply>)
    ensures
        match r {
            Ok(v) => argument(*program, name@, *q, entries_view(o@), given(identity)) == Ok::<
                SValue,
                SReply,
            >(v@),
            Err(x) => argument(*program, name@, *q, entries_view(o@), given(identity)) == Err::<
                SValue,
                SReply,
            >(x@),
        },
{
    if is_verified_identity(&q.ty) {
        return match identity {
            Some(id) => Ok(copy_value(&id.value)),
            None => Err(fail(401, cat3("sign in required: `", name, "` takes a VerifiedIdentity"))),
        };
    }
    match find_entry(o, q.name.as_str()) {
        None => Err(fail(400, cat3("missing field `", q.name.as_str(), "` in request body"))),
        Some(i) => match decode_value(&o[i].1, &q.ty, program, 0) {
            Ok(v) => Ok(v),
            Err(m) => Err(fail(400, cat4("field `", q.name.as_str(), "`: ", m.as_str()))),
        },
    }
}

fn read_arguments(
    program: &Program,
    f: &FnDecl,
    o: &Vec<(String, Json)>,
    identity: Option<&Identity>,
) -> (r: Result<Vec<Value>, Reply>)
    ensures
        prepares(
            r,
            arguments(*program, *f, entries_view(o@), given(identity), f.params@.len()),
        ),
{
    let ghost ov = entries_view(o@);
    let ghost id = given(identity);
    let mut out: Vec<Value> = Vec::new();
    let mut i: usize = 0;
    proof {
        assert(values_view(out@) =~= Seq::<SValue>::empty());
    }
    while i < f.params.len()
        invariant
            i <= f.params@.len(),
            ov == entries_view(o@),
            id == given(identity),
            arguments(*program, *f, ov, id, i as nat) == Prepared::With(values_view(out@)),
        decreases f.params@.len() - i,
    {
        match read_argument(program, f.name.as_str(), &f.params[i], o, identity) {
            Ok(x) => {
                let ghost was = out@;
                let ghost xv = x@;
                out.push(x);
                proof {
                    assert(values_view(out@) =~= values_view(was).push(xv));
                }
            }
            Err(x) => {
                proof {
                    arguments_stop(*program, *f, ov, id, (i + 1) as nat, f.params@.len());
                }
                return Err(x);
            }
        }
        i = i + 1;
    }
    Ok(out)
}

/// What a call of `f` is made with, given what its body was read as.
pub fn prepare_call_with(
    program: &Program,
    f: &FnDecl,
    document: &Result<Json, String>,
    identity: Option<&Identity>,
) -> (r: Result<Vec<Value>, Reply>)
    ensures
        prepares(
            r,
            prepared_with(
                *program,
                *f,
                match *document {
                    Ok(j) => Ok(j@),
                    Err(m) => Err(m@),
                },
                given(identity),
            ),
        ),
{
    check_gate(f, identity)?;
    match document {
        Err(m) => Err(fail(400, cat2("malformed JSON body: ", m.as_str()))),
        Ok(Json::Obj(o)) => read_arguments(program, f, o, identity),
        Ok(_) => {
            let none: Vec<(String, Json)> = Vec::new();
            proof {
                assert(entries_view(none@) =~= Seq::empty());
            }
            read_arguments(program, f, &none, identity)
        }
    }
}

/// Reads the body of a request.
fn read_body(body: &str) -> (r: Result<Json, String>)
    ensures
        match r {
            Ok(j) => body_document(body@) == Ok::<SJson, Seq<char>>(j@),
            Err(m) => body_document(body@) == Err::<SJson, Seq<char>>(m@),
        },
{
    if is_blank(body) {
        let none: Vec<(String, Json)> = Vec::new();
        proof {
            assert(entries_view(none@) =~= Seq::empty());
        }
        return Ok(Json::Obj(none));
    }
    parse_json(body)
}

/// What a call of the function `fn_name` is made with, or the answer that takes
/// its place.
pub fn prepare_call(program: &Program, fn_name: &str, body: &str, identity: Option<&Identity>) -> (r:
    Result<Vec<Value>, Reply>)
    ensures
        prepares(r, prepared(*program, fn_name@, body@, given(identity))),
{
    match find_first_fn(program, fn_name) {
        None => Err(fail(404, cat3("no such function `", fn_name, "`"))),
        Some(k) => {
            let document = read_body(body);
            prepare_call_with(program, &program.fns[k], &document, identity)
        }
    }
}

/// Whether a floating-point number is neither infinite nor `NaN`.
pub open spec fn finite(b: u64) -> bool {
    magnitude(b) < 0x7FF0_0000_0000_0000
}

pub open spec fn unsendable() -> Seq<char> {
    "this value type can't be sent over HTTP (an affine handle or function value)"@
}

pub open spec fn malformed() -> Seq<char> {
    "this value does not fit its type"@
}

/// The document of a value.
pub open spec fn encode(p: Program, v: SValue) -> Read<SJson>
    decreases v, 0nat,
{
    match v {
        SValue::Int(n) => Read::Is(SJson::Int(n as i128)),
        SValue::Float(b) => Read::Is(
            if finite(b) {
                SJson::Float(b)
            } else {
                SJson::Null
            },
        ),
        SValue::Bool(b) => Read::Is(SJson::Bool(b)),
        SValue::Unit => Read::Is(SJson::Null),
        SValue::Str(s) => Read::Is(SJson::Str(s)),
        SValue::Vector(e) => match encode_all(p, e, 0, e.len() as int) {
            Read::Is(a) => Read::Is(SJson::Arr(a)),
            Read::Not(m) => Read::Not(m),
        },
        SValue::Matrix(e, r, c) => match encode_rows(p, e, c as nat, r as nat) {
            Read::Is(a) => Read::Is(SJson::Arr(a)),
            Read::Not(m) => Read::Not(m),
        },
        SValue::Enum(name, variant, payload) => if name == "Result"@ && (variant == "Ok"@ || variant
            == "Err"@) {
            let key = if variant == "Ok"@ {
                "ok"@
            } else {
                "err"@
            };
            if payload.len() == 0 {
                Read::Is(SJson::Obj(seq![(key, SJson::Null)]))
            } else {
                match encode(p, payload[0]) {
                    Read::Is(j) => Read::Is(SJson::Obj(seq![(key, j)])),
                    Read::Not(m) => Read::Not(m),
                }
            }
        } else if name == "Option"@ {
            if variant != "Some"@ {
                Read::Is(SJson::Null)
            } else if payload.len() == 0 {
                Read::Not(malformed())
            } else {
                encode(p, payload[0])
            }
        } else {
            match encode_all(p, payload, 0, payload.len() as int) {
                Read::Is(a) => Read::Is(
                    SJson::Obj(
                        seq![("variant"@, SJson::Str(variant)), ("payload"@, SJson::Arr(a))],
                    ),
                ),
                Read::Not(m) => Read::Not(m),
            }
        },
        SValue::Struct(name, fields) => match struct_named(p, name) {
            None => Read::Not("unknown struct `"@ + name + "`"@),
            Some(k) => match encode_fields(
                p,
                p.structs@[k].fields@,
                fields,
                if fields.len() <= p.structs@[k].fields@.len() {
                    fields.len()
                } else {
                    p.structs@[k].fields@.len()
                },
            ) {
                Read::Is(o) => Read::Is(SJson::Obj(o)),
                Read::Not(m) => Read::Not(m),
            },
        },
        _ => Read::Not(unsendable()),
    }
}

/// The documents of the values from `a` up to `b`.
pub open spec fn encode_all(p: Program, v: Seq<SValue>, a: int, b: int) -> Read<Seq<SJson>>
    decreases v, b,
{
    if a >= b || a < 0 || b > v.len() {
        Read::Is(Seq::empty())
    } else {
        match encode_all(p, v, a, b - 1) {
            Read::Not(m) => Read::Not(m),
            Read::Is(done) => match encode(p, v[b - 1]) {
                Read::Not(m) => Read::Not(m),
                Read::Is(j) => Read::Is(done.push(j)),
            },
        }
    }
}

/// The first `n` rows of a matrix.
pub open spec fn encode_rows(p: Program, v: Seq<SValue>, cols: nat, n: nat) -> Read<Seq<SJson>>
    decreases v, v.len() + n + 1,
{
    if n == 0 {
        Read::Is(Seq::empty())
    } else {
        match encode_rows(p, v, cols, (n - 1) as nat) {
            Read::Not(m) => Read::Not(m),
            Read::Is(done) => if n * cols > v.len() {
                Read::Not(malformed())
            } else {
                match encode_all(p, v, (n - 1) * cols, (n * cols) as int) {
                    Read::Not(m) => Read::Not(m),
                    Read::Is(row) => Read::Is(done.push(SJson::Arr(row))),
                }
            },
        }
    }
}

/// The first `n` fields of a struct.
pub open spec fn encode_fields(p: Program, fields: Seq<Field>, v: Seq<SValue>, n: nat) -> Read<
    Seq<(Seq<char>, SJson)>,
>
    decreases v, n,
{
    if n == 0 || n > v.len() {
        Read::Is(Seq::empty())
    } else {
        match encode_fields(p, fields, v, (n - 1) as nat) {
            Read::Not(m) => Read::Not(m),
            Read::Is(done) => match encode(p, v[n - 1]) {
                Read::Not(m) => Read::Not(m),
                Read::Is(j) => Read::Is(done.push((fields[n - 1].name@, j))),
            },
        }
    }
}

/// `r` is what `s` says.
pub open spec fn writes(r: Result<Json, String>, s: Read<SJson>) -> bool {
    match r {
        Ok(j) => s == Read::Is(j@),
        Err(m) => s == Read::<SJson>::Not(m@),
    }
}

pub open spec fn writes_all(r: Result<Vec<Json>, String>, s: Read<Seq<SJson>>) -> bool {
    match r {
        Ok(j) => s == Read::Is(jsons_view(j@)),
        Err(m) => s == Read::<Seq<SJson>>::Not(m@),
    }
}

proof fn encode_all_stops(p: Program, v: Seq<SValue>, a: int, b: int, c: int)
    requires
        0 <= a <= b <= c <= v.len(),
        encode_all(p, v, a, b) is Not,
    ensures
        encode_all(p, v, a, c) == encode_all(p, v, a, b),
    decreases c - b,
{
    if b < c {
        encode_all_stops(p, v, a, b, c - 1);
    }
}

proof fn encode_rows_stop(p: Program, v: Seq<SValue>, cols: nat, a: nat, b: nat)
    requires
        a <= b,
        encode_rows(p, v, cols, a) is Not,
    ensures
        encode_rows(p, v, cols, b) == encode_rows(p, v, cols, a),
    decreases b,
{
    if a < b {
        encode_rows_stop(p, v, cols, a, (b - 1) as nat);
    }
}

proof fn encode_fields_stop(p: Program, fields: Seq<Field>, v: Seq<SValue>, a: nat, b: nat)
    requires
        a <= b <= v.len(),
        encode_fields(p, fields, v, a) is Not,
    ensures
        encode_fields(p, fields, v, b) == encode_fields(p, fields, v, a),
    decreases b,
{
    if a < b {
        encode_fields_stop(p, fields, v, a, (b - 1) as nat);
    }
}

fn encode_float(b: u64) -> (r: Json)
    ensures
        r@ == if finite(b) {
            SJson::Float(b)
        } else {
            SJson::Null
        },
{
    if b & 0x7FFF_FFFF_FFFF_FFFF < 0x7FF0_0000_0000_0000 {
        Json::Float(b)
    } else {
        Json::Null
    }
}

/// An object with one entry.
fn single(key: &str, j: Json) -> (r: Json)
    ensures
        r@ == SJson::Obj(seq![(key@, j@)]),
{
    let ghost jv = j@;
    let mut v: Vec<(String, Json)> = Vec::new();
    v.push((key.to_owned(), j));
    proof {
        assert(entries_view(v@) =~= seq![(key@, jv)]);
    }
    Json::Obj(v)
}

/// An object with two entries.
fn double(first: &str, a: Json, second: &str, b: Json) -> (r: Json)
    ensures
        r@ == SJson::Obj(seq![(first@, a@), (second@, b@)]),
{
    let ghost av = a@;
    let ghost bv = b@;
    let mut v: Vec<(String, Json)> = Vec::new();
    v.push((first.to_owned(), a));
    v.push((second.to_owned(), b));
    proof {
        assert(entries_view(v@) =~= seq![(first@, av), (second@, bv)]);
    }
    Json::Obj(v)
}

/// Writes a value as a document.
pub fn encode_value(v: &Value, program: &Program) -> (r: Result<Json, String>)
    ensures
        writes(r, encode(*program, v@)),
    decreases v, 1nat,
{
    match v {
        Value::Int(n) => Ok(Json::Int(*n as i128)),
        Value::Float(b) => Ok(encode_float(*b)),
        Value::Bool(b) => Ok(Json::Bool(*b)),
        Value::Unit => Ok(Json::Null),
        Value::Str(s) => Ok(Json::Str(s.clone())),
        Value::Vector(e) => {
            proof {
                assert(values_view(e@).len() == e@.len());
            }
            match encode_values(e, 0, e.len(), program) {
                Ok(a) => Ok(Json::Arr(a)),
                Err(m) => Err(m),
            }
        }
        Value::Matrix(e, r, c) => match encode_matrix(e, *r, *c, program) {
            Ok(a) => Ok(Json::Arr(a)),
            Err(m) => Err(m),
        },
        Value::Enum(..) => encode_enum(v, program),
        Value::Struct(name, fields) => match find_struct(program, name.as_str()) {
            None => Err(cat3("unknown struct `", name.as_str(), "`")),
            Some(k) => encode_struct(&program.structs[k].fields, fields, program),
        },
        _ => Err("this value type can't be sent over HTTP (an affine handle or function value)".to_owned()),
    }
}

fn encode_enum(v: &Value, program: &Program) -> (r: Result<Json, String>)
    requires
        v is Enum,
    ensures
        writes(r, encode(*program, v@)),
    decreases v, 0nat,
{
    match v {
        Value::Enum(name, variant, payload) => {
            proof {
                assert(values_view(payload@).len() == payload@.len());
            }
            let ok = same(variant.as_str(), "Ok");
            if same(name.as_str(), "Result") && (ok || same(variant.as_str(), "Err")) {
                let key = if ok {
                    "ok"
                } else {
                    "err"
                };
                if payload.len() == 0 {
                    return Ok(single(key, Json::Null));
                }
                return match encode_value(&payload[0], program) {
                    Ok(j) => Ok(single(key, j)),
                    Err(m) => Err(m),
                };
            }
            if same(name.as_str(), "Option") {
                if !same(variant.as_str(), "Some") {
                    return Ok(Json::Null);
                }
                if payload.len() == 0 {
                    return Err("this value does not fit its type".to_owned());
                }
                return encode_value(&payload[0], program);
            }
            match encode_values(payload, 0, payload.len(), program) {
                Ok(a) => Ok(
                    double("variant", Json::Str(variant.clone()), "payload", Json::Arr(a)),
                ),
                Err(m) => Err(m),
            }
        }
        _ => Err("this value does not fit its type".to_owned()),
    }
}

fn encode_values(v: &Vec<Value>, a: usize, b: usize, program: &Program) -> (r: Result<
    Vec<Json>,
    String,
>)
    requires
        a <= b <= v@.len(),
    ensures
        writes_all(r, encode_all(*program, values_view(v@), a as int, b as int)),
    decreases v, 1nat,
{
    let ghost all = values_view(v@);
    let mut out: Vec<Json> = Vec::new();
    let mut i: usize = a;
    proof {
        assert(all.len() == v@.len());
        assert(jsons_view(out@) =~= Seq::<SJson>::empty());
    }
    while i < b
        invariant
            a <= i <= b <= v@.len(),
            all == values_view(v@),
            all.len() == v@.len(),
            encode_all(*program, all, a as int, i as int) == Read::Is(jsons_view(out@)),
        decreases b - i,
    {
        proof {
            assert(all[i as int] == v@[i as int]@);
        }
        match encode_value(&v[i], program) {
            Ok(j) => {
                let ghost was = out@;
                let ghost jv = j@;
                out.push(j);
                proof {
                    assert(jsons_view(out@) =~= jsons_view(was).push(jv));
                }
            }
            Err(m) => {
                proof {
                    encode_all_stops(*program, all, a as int, i + 1, b as int);
                }
                return Err(m);
            }
        }
        i = i + 1;
    }
    Ok(out)
}

fn encode_matrix(v: &Vec<Value>, rows: usize, cols: usize, program: &Program) -> (r: Result<
    Vec<Json>,
    String,
>)
    ensures
        writes_all(r, encode_rows(*program, values_view(v@), cols as nat, rows as nat)),
    decreases v, 2nat,
{
    let ghost all = values_view(v@);
    let mut out: Vec<Json> = Vec::new();
    let mut i: usize = 0;
    let mut done: usize = 0;
    proof {
        assert(all.len() == v@.len());
        assert(jsons_view(out@) =~= Seq::<SJson>::empty());
    }
    while i < rows
        invariant
            i <= rows,
            all == values_view(v@),
            all.len() == v@.len(),
            done == i * cols,
            done <= v@.len(),
            encode_rows(*program, all, cols as nat, i as nat) == Read::Is(jsons_view(out@)),
        decreases rows - i,
    {
        proof {
            assert((i + 1) * cols == i * cols + cols) by (nonlinear_arith);
        }
        if cols > v.len() - done {
            proof {
                encode_rows_stop(*program, all, cols as nat, (i + 1) as nat, rows as nat);
            }
            return Err("this value does not fit its type".to_owned());
        }
        match encode_values(v, done, done + cols, program) {
            Ok(row) => {
                let ghost was = out@;
                let j = Json::Arr(row);
                let ghost jv = j@;
                out.push(j);
                proof {
                    assert(jsons_view(out@) =~= jsons_view(was).push(jv));
                }
            }
            Err(m) => {
                proof {
                    encode_rows_stop(*program, all, cols as nat, (i + 1) as nat, rows as nat);
                }
                return Err(m);
            }
        }
        done = done + cols;
        i = i + 1;
    }
    Ok(out)
}

fn encode_struct(fields: &Vec<Field>, v: &Vec<Value>, program: &Program) -> (r: Result<
    Json,
    String,
>)
    ensures
        writes(
            r,
            match encode_fields(
                *program,
                fields@,
                values_view(v@),
                if values_view(v@).len() <= fields@.len() {
                    values_view(v@).len()
                } else {
                    fields@.len()
                },
            ) {
                Read::Is(o) => Read::Is(SJson::Obj(o)),
                Read::Not(m) => Read::Not(m),
            },
        ),
    decreases v, 2nat,
{
    let ghost all = values_view(v@);
    let n: usize = if v.len() <= fields.len() {
        v.len()
    } else {
        fields.len()
    };
    let mut out: Vec<(String, Json)> = Vec::new();
    let mut i: usize = 0;
    proof {
        assert(all.len() == v@.len());
        assert(entries_view(out@) =~= Seq::<(Seq<char>, SJson)>::empty());
    }
    while i < n
        invariant
            i <= n,
            n <= v@.len(),
            n <= fields@.len(),
            all == values_view(v@),
            all.len() == v@.len(),
            n == if all.len() <= fields@.len() {
                all.len()
            } else {
                fields@.len()
            },
            encode_fields(*program, fields@, all, i as nat) == Read::Is(entries_view(out@)),
        decreases n - i,
    {
        proof {
            assert(all[i as int] == v@[i as int]@);
        }
        match encode_value(&v[i], program) {
            Ok(j) => {
                let ghost was = out@;
                let name = fields[i].name.clone();
                let ghost e = (name@, j@);
                out.push((name, j));
                proof {
                    assert(entries_view(out@) =~= entries_view(was).push(e));
                }
            }
            Err(m) => {
                proof {
                    encode_fields_stop(*program, fields@, all, (i + 1) as nat, n as nat);
                }
                return Err(m);
            }
        }
        i = i + 1;
    }
    Ok(Json::Obj(out))
}

/// The answer to a call, given what it came to.
pub open spec fn answered(
    p: Program,
    name: Seq<char>,
    outcome: Result<SValue, Seq<char>>,
) -> SReply {
    match outcome {
        Err(m) => err_reply(500, m),
        Ok(v) => match encode(p, v) {
            Read::Is(j) => SReply { status: 200, body: j },
            Read::Not(m) => err_reply(
                500,
                "`"@ + name + "` returned a value this server can't encode as JSON: "@ + m,
            ),
        },
    }
}

/// The answer to a call of `fn_name`, given its value or the text of its error.
pub fn answer(program: &Program, fn_name: &str, outcome: &Result<Value, String>) -> (r: Reply)
    ensures
        r@ == answered(
            *program,
            fn_name@,
            match *outcome {
                Ok(v) => Ok(v@),
                Err(m) => Err(m@),
            },
        ),
{
    match outcome {
        Err(m) => fail(500, m.clone()),
        Ok(v) => match encode_value(v, program) {
            Ok(j) => Reply { status: 200, body: j },
            Err(m) => fail(
                500,
                cat4("`", fn_name, "` returned a value this server can't encode as JSON: ", m.as_str()),
            ),
        },
    }
}

/// What is to be done next about a request for a call.
#[derive(Debug)]
pub enum Dispatch {
    /// Validate a token, then go on with what that gave.
    Validate(String),
    /// Call the function, then answer with what it came to.
    Call(Vec<Value>),
    Answer(Reply),
}

pub ghost enum SDispatch {
    Validate(Seq<char>),
    Call(Seq<SValue>),
    Answer(SReply),
}

impl View for Dispatch {
    type V = SDispatch;

    open spec fn view(&self) -> SDispatch {
        match *self {
            Dispatch::Validate(t) => SDispatch::Validate(t@),
            Dispatch::Call(v) => SDispatch::Call(values_view(v@)),
            Dispatch::Answer(r) => SDispatch::Answer(r@),
        }
    }
}

pub open spec fn on_prepared(r: Prepared) -> SDispatch {
    match r {
        Prepared::With(v) => SDispatch::Call(v),
        Prepared::Answered(x) => SDispatch::Answer(x),
    }
}

/// What a request comes to, as far as it can be told without validating a token.
pub open spec fn dispatched(
    p: Program,
    name: Seq<char>,
    body: Seq<char>,
    header: Option<Seq<char>>,
    configured: bool,
) -> SDispatch {
    match bearer(p, name, header, configured) {
        SBearer::Answered(r) => SDispatch::Answer(r),
        SBearer::Token(t) => SDispatch::Validate(t),
        SBearer::Anonymous => on_prepared(prepared(p, name, body, None)),
    }
}

/// What a request comes to, once its token was validated.
pub open spec fn dispatched_as(
    p: Program,
    name: Seq<char>,
    body: Seq<char>,
    verdict: Result<Identity, String>,
    now: i64,
) -> SDispatch {
    match verdict {
        Err(m) => SDispatch::Answer(err_reply(401, "invalid token: "@ + m@)),
        Ok(id) => if expired(id, now) {
            SDispatch::Answer(err_reply(401, "invalid token: token has expired"@))
        } else {
            on_prepared(prepared(p, name, body, Some(id)))
        },
    }
}

/// Begins with a request for a call.
pub fn dispatch(
    program: &Program,
    fn_name: &str,
    body: &str,
    header: Option<&str>,
    configured: bool,
) -> (r: Dispatch)
    ensures
        r@ == dispatched(
            *program,
            fn_name@,
            body@,
            match header {
                Some(h) => Some(h@),
                None => None,
            },
            configured,
        ),
{
    match read_bearer(program, fn_name, header, configured) {
        Bearer::Answered(reply) => Dispatch::Answer(reply),
        Bearer::Token(t) => Dispatch::Validate(t),
        Bearer::Anonymous => match prepare_call(program, fn_name, body, None) {
            Ok(args) => Dispatch::Call(args),
            Err(reply) => Dispatch::Answer(reply),
        },
    }
}

/// Goes on with a request whose token was validated.
pub fn dispatch_as(
    program: &Program,
    fn_name: &str,
    body: &str,
    verdict: Result<Identity, String>,
    now: i64,
) -> (r: Dispatch)
    ensures
        r@ == dispatched_as(*program, fn_name@, body@, verdict, now),
{
    match accept_token(verdict, now) {
        Err(reply) => Dispatch::Answer(reply),
        Ok(id) => match prepare_call(program, fn_name, body, Some(&id)) {
            Ok(args) => Dispatch::Call(args),
            Err(reply) => Dispatch::Answer(reply),
        },
    }
}

/// A function that has a requirement is called only with a token that is valid, has
/// not run out, and meets the requirement.
pub proof fn gated_requests_carry_tokens(
    p: Program,
    name: Seq<char>,
    body: Seq<char>,
    header: Option<Seq<char>>,
    configured: bool,
    verdict: Result<Identity, String>,
    now: i64,
)
    requires
        first_fn(p.fns@, name, 0) matches Some(k) && p.fns@[k].requirement is Some,
    ensures
        !(dispatched(p, name, body, header, configured) is Call),
        dispatched_as(p, name, body, verdict, now) is Call ==> (verdict matches Ok(id) && !expired(
            id,
            now,
        ) && (first_fn(p.fns@, name, 0) matches Some(k) && (p.fns@[k].requirement matches Some(q)
            && meets_requirement(id, q)))),
{
    gated_calls_are_authorised(p, name, body, None);
    if let Ok(id) = verdict {
        gated_calls_are_authorised(p, name, body, Some(id));
    }
}

/// A function that has a requirement is called only for a caller who meets it.
pub proof fn gated_calls_are_authorised(
    p: Program,
    name: Seq<char>,
    body: Seq<char>,
    identity: Option<Identity>,
)
    ensures
        prepared(p, name, body, identity) is With ==> (first_fn(p.fns@, name, 0) matches Some(k) && (
        p.fns@[k].requirement matches Some(q) ==> (identity matches Some(id) && meets_requirement(
            id,
            q,
        )))),
{
}

/// A caller who may not call a function learns nothing of its arguments: the answer
/// does not depend on the body.
pub proof fn refusal_ignores_body(
    p: Program,
    name: Seq<char>,
    a: Seq<char>,
    b: Seq<char>,
    identity: Option<Identity>,
)
    requires
        first_fn(p.fns@, name, 0) matches Some(k) && gate(p.fns@[k], identity) is Some,
    ensures
        prepared(p, name, a, identity) == prepared(p, name, b, identity),
        prepared(p, name, a, identity) matches Prepared::Answered(r) && (r.status == 401 || r.status
            == 403),
{
}

/// A call gets one argument for each parameter.
pub proof fn calls_are_complete(
    p: Program,
    f: FnDecl,
    o: Seq<(Seq<char>, SJson)>,
    identity: Option<Identity>,
    n: nat,
)
    requires
        n <= f.params@.len(),
    ensures
        arguments(p, f, o, identity, n) matches Prepared::With(v) ==> v.len() == n,
    decreases n,
{
    if n > 0 {
        calls_are_complete(p, f, o, identity, (n - 1) as nat);
    }
}

/// An identity comes from the token: a parameter that takes one is given the
/// caller's, whatever the body says.
pub proof fn identities_come_from_tokens(
    p: Program,
    f: FnDecl,
    o: Seq<(Seq<char>, SJson)>,
    identity: Option<Identity>,
    n: nat,
    i: int,
)
    requires
        0 <= i < n <= f.params@.len(),
        verified_identity(f.params@[i].ty@),
    ensures
        arguments(p, f, o, identity, n) matches Prepared::With(v) ==> (identity matches Some(id)
            && v[i] == id.value@),
    decreases n,
{
    calls_are_complete(p, f, o, identity, (n - 1) as nat);
    if i < n - 1 {
        identities_come_from_tokens(p, f, o, identity, (n - 1) as nat, i);
    }
}

/// No number in the value is infinite or not a number.
pub open spec fn finite_floats(v: SValue) -> bool
    decreases v,
{
    match v {
        SValue::Float(b) => finite(b),
        SValue::Struct(_, w) => forall|i: int| 0 <= i < w.len() ==> finite_floats(#[trigger] w[i]),
        SValue::Enum(_, _, w) => forall|i: int| 0 <= i < w.len() ==> finite_floats(#[trigger] w[i]),
        _ => true,
    }
}

/// No two fields have one name.
pub open spec fn fields_differ(v: Seq<Field>) -> bool {
    forall|i: int, j: int| 0 <= i < j < v.len() ==> #[trigger] v[i].name@ != #[trigger] v[j].name@
}

/// No struct has two fields of one name.
pub open spec fn structs_differ(p: Program) -> bool {
    forall|k: int| 0 <= k < p.structs@.len() ==> fields_differ((#[trigger] p.structs@[k]).fields@)
}

/// The entries are those of the fields, each with a document of its value.
pub open spec fn spelled(
    p: Program,
    out: Seq<(Seq<char>, SJson)>,
    fields: Seq<Field>,
    w: Seq<SValue>,
    n: nat,
    depth: nat,
) -> bool {
    &&& out.len() == n
    &&& forall|i: int|
        0 <= i < n ==> (#[trigger] out[i]).0 == fields[i].name@ && decode(
            p,
            out[i].1,
            fields[i].ty@,
            depth,
        ) == Read::Is(w[i])
}

proof fn struct_is_there(p: Program, n: Seq<char>, i: int)
    requires
        0 <= i,
    ensures
        struct_from(p.structs@, n, i) matches Some(k) ==> 0 <= k < p.structs@.len(),
    decreases p.structs@.len() - i,
{
    if i < p.structs@.len() {
        struct_is_there(p, n, i + 1);
    }
}

proof fn entry_is_at(out: Seq<(Seq<char>, SJson)>, k: int, i: int)
    requires
        0 <= i <= k < out.len(),
        forall|j: int| 0 <= j < k ==> (#[trigger] out[j]).0 != out[k].0,
    ensures
        entry_from(out, out[k].0, i) == Some(k),
    decreases k - i,
{
    if i < k {
        entry_is_at(out, k, i + 1);
    }
}

proof fn fields_are_written(
    p: Program,
    o: Seq<(Seq<char>, SJson)>,
    name: Seq<char>,
    fields: Seq<Field>,
    n: nat,
    depth: nat,
    w: Seq<SValue>,
)
    requires
        structs_differ(p),
        n <= fields.len(),
        n <= w.len(),
        decode_fields(p, o, name, fields, n, depth) == Read::Is(w.take(n as int)),
        forall|i: int| 0 <= i < n ==> finite_floats(#[trigger] w[i]),
    ensures
        encode_fields(p, fields, w, n) matches Read::Is(out) && spelled(p, out, fields, w, n, depth),
    decreases rank(depth) + 1, STy::Unit, n,
{
    if n > 0 {
        let before = decode_fields(p, o, name, fields, (n - 1) as nat, depth);
        assert(before is Is);
        let v = before->Is_0;
        let i = entry_from(o, fields[n - 1].name@, 0)->0;
        let x = decode(p, o[i].1, fields[n - 1].ty@, depth)->Is_0;
        assert(v.push(x) == w.take(n as int));
        assert(v =~= w.take(n as int).drop_last());
        assert(v =~= w.take(n - 1));
        assert(x == w.take(n as int)[v.len() as int]);
        assert(x == w[n - 1]);
        fields_are_written(p, o, name, fields, (n - 1) as nat, depth, w);
        decoded_values_travel(p, o[i].1, fields[n - 1].ty@, depth);
    }
}

proof fn fields_are_read(
    p: Program,
    out: Seq<(Seq<char>, SJson)>,
    name: Seq<char>,
    fields: Seq<Field>,
    n: nat,
    depth: nat,
    w: Seq<SValue>,
)
    requires
        fields_differ(fields),
        n <= fields.len(),
        fields.len() == w.len(),
        spelled(p, out, fields, w, fields.len(), depth),
    ensures
        decode_fields(p, out, name, fields, n, depth) == Read::Is(w.take(n as int)),
    decreases n,
{
    if n > 0 {
        fields_are_read(p, out, name, fields, (n - 1) as nat, depth, w);
        assert(out[n - 1].0 == fields[n - 1].name@);
        entry_is_at(out, n - 1, 0);
        assert(w.take(n - 1).push(w[n - 1]) =~= w.take(n as int));
    } else {
        assert(w.take(0) =~= Seq::empty());
    }
}

proof fn fields_are_counted(
    p: Program,
    o: Seq<(Seq<char>, SJson)>,
    name: Seq<char>,
    fields: Seq<Field>,
    n: nat,
    depth: nat,
)
    requires
        n <= fields.len(),
    ensures
        decode_fields(p, o, name, fields, n, depth) matches Read::Is(v) ==> v.len() == n,
    decreases n,
{
    if n > 0 {
        fields_are_counted(p, o, name, fields, (n - 1) as nat, depth);
    }
}

/// Encoding undoes decoding: a value that was read from a document is written as a
/// document from which the same value is read. A number that is infinite or not a
/// number has no document, and of two fields of one name only the first is read.
pub proof fn decoded_values_travel(p: Program, j: SJson, t: STy, depth: nat)
    requires
        structs_differ(p),
        decode(p, j, t, depth) matches Read::Is(v) ==> finite_floats(v),
    ensures
        decode(p, j, t, depth) matches Read::Is(v) ==> (encode(p, v) matches Read::Is(k) && decode(
            p,
            k,
            t,
            depth,
        ) == Read::Is(v) && (k is Null ==> j is Null)),
    decreases rank(depth), t, 0nat,
{
    reveal_strlit("Option");
    reveal_strlit("Result");
    reveal_strlit("Some");
    reveal_strlit("None");
    assert("Option"@ != "Result"@ && "Some"@ != "None"@) by {
        assert("Option"@[0] != "Result"@[0]);
        assert("Some"@[0] != "None"@[0]);
    }
    if let STy::Named(n, args) = t {
        if n == "Option"@ && args.len() == 1 {
            if !(j is Null) {
                if let Read::Is(v) = decode(p, j, args[0], depth) {
                    let whole = SValue::Enum("Option"@, "Some"@, seq![v]);
                    assert(decode(p, j, t, depth) == Read::Is(whole));
                    assert(finite_floats(whole));
                    assert(seq![v][0] == v);
                    assert(finite_floats(v));
                    decoded_values_travel(p, j, args[0], depth);
                    assert(encode(p, whole) == encode(p, v));
                }
            }
        } else if args.len() == 0 && depth < 2 {
            struct_is_there(p, n, 0);
            if let Some(k) = struct_named(p, n) {
                if let SJson::Obj(o) = j {
                    let fields = p.structs@[k].fields@;
                    if let Read::Is(w) = decode_fields(p, o, n, fields, fields.len(), depth + 1) {
                        let whole = SValue::Struct(n, w);
                        assert(decode(p, j, t, depth) == Read::Is(whole));
                        assert(finite_floats(whole));
                        fields_are_counted(p, o, n, fields, fields.len(), depth + 1);
                        assert(w.take(w.len() as int) =~= w);
                        fields_are_written(p, o, n, fields, fields.len(), depth + 1, w);
                        let out = encode_fields(p, fields, w, fields.len())->Is_0;
                        assert(encode(p, whole) == Read::Is(SJson::Obj(out)));
                        fields_are_read(p, out, n, fields, fields.len(), depth + 1, w);
                        assert(decode(p, SJson::Obj(out), t, depth) == Read::Is(whole));
                    }
                }
            }
        }
    }
}

/// A plain value travels: what is encoded is decoded to the same value.
pub proof fn scalars_travel(p: Program, v: SValue, t: STy)
    requires
        match t {
            STy::Str => v is Str,
            STy::Bool => v is Bool,
            STy::F64 => v matches SValue::Float(b) && finite(b),
            _ => integer(t) && v is Int,
        },
    ensures
        encode(p, v) matches Read::Is(j) && decode(p, j, t, 0) == Read::Is(v),
{
}

} // verus!
