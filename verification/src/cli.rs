//! The command line.
use crate::ast::{FnDecl, Param, STy, Ty};
use crate::ir::lines_view;
use crate::llvm::OptLevel;
use crate::text::{dec, dec_nat, same, cat5};
use crate::value::{SValue, Value};
use vstd::prelude::*;
use vstd::string::*;

verus! {

pub type Text = Seq<char>;

/// What the command line asks for.
#[derive(Debug)]
#[allow(inconsistent_fields)]
pub enum Command {
    /// The command line makes no sense; this says why.
    Refuse(String),
    Usage,
    Build { input: String, output: String, opt: OptLevel },
    EmitLlvm(String),
    EmitAst(String),
    EmitUi { input: String, output: Option<String> },
    Serve(String, ServeOptions),
    SandboxWorker { path: String, fn_name: String, args: Vec<String> },
    Interpret { path: String, format_json: bool, otel_console: bool },
}

/// How a program is served.
#[derive(Debug)]
pub struct ServeOptions {
    pub port: u16,
    pub jwks_file: Option<String>,
    pub issuer: Option<String>,
    pub audience: Option<String>,
    pub identity_base: Option<String>,
}

pub ghost struct SServe {
    pub input: Option<Text>,
    pub port: u16,
    pub jwks_file: Option<Text>,
    pub issuer: Option<Text>,
    pub audience: Option<Text>,
    pub identity_base: Option<Text>,
}

pub ghost enum SCommand {
    Refuse(Text),
    Usage,
    Build(Text, Text, OptLevel),
    EmitLlvm(Text),
    EmitAst(Text),
    EmitUi(Text, Option<Text>),
    Serve(SServe),
    SandboxWorker(Text, Text, Seq<Text>),
    Interpret(Text, bool, bool),
}

pub open spec fn text_view(s: Option<String>) -> Option<Text> {
    match s {
        Some(t) => Some(t@),
        None => None,
    }
}

impl View for Command {
    type V = SCommand;

    open spec fn view(&self) -> SCommand {
        match *self {
            Command::Refuse(m) => SCommand::Refuse(m@),
            Command::Usage => SCommand::Usage,
            Command::Build { input, output, opt } => SCommand::Build(input@, output@, opt),
            Command::EmitLlvm(p) => SCommand::EmitLlvm(p@),
            Command::EmitAst(p) => SCommand::EmitAst(p@),
            Command::EmitUi { input, output } => SCommand::EmitUi(input@, text_view(output)),
            Command::Serve(input, o) => SCommand::Serve(
                SServe {
                    input: Some(input@),
                    port: o.port,
                    jwks_file: text_view(o.jwks_file),
                    issuer: text_view(o.issuer),
                    audience: text_view(o.audience),
                    identity_base: text_view(o.identity_base),
                },
            ),
            Command::SandboxWorker { path, fn_name, args } => SCommand::SandboxWorker(
                path@,
                fn_name@,
                lines_view(args@),
            ),
            Command::Interpret { path, format_json, otel_console } => SCommand::Interpret(
                path@,
                format_json,
                otel_console,
            ),
        }
    }
}

pub open spec fn is_digit(c: char) -> bool {
    '0' <= c && c <= '9'
}

pub open spec fn all_digits(s: Text) -> bool {
    forall|i: int| 0 <= i < s.len() ==> is_digit(#[trigger] s[i])
}

/// The number that digits stand for.
pub open spec fn digits(s: Text) -> nat
    decreases s.len(),
{
    if s.len() == 0 {
        0
    } else {
        10 * digits(s.drop_last()) + (s.last() as u32 - '0' as u32) as nat
    }
}

/// The number that a text spells: digits, with a sign before them or none.
pub open spec fn number(s: Text) -> Option<int> {
    let rest = if s.len() > 0 && (s[0] == '+' || s[0] == '-') {
        s.skip(1)
    } else {
        s
    };
    if rest.len() == 0 || !all_digits(rest) {
        None
    } else if s[0] == '-' {
        Some(-(digits(rest) as int))
    } else {
        Some(digits(rest) as int)
    }
}

proof fn digits_grow(s: Text, n: int)
    requires
        0 <= n <= s.len(),
    ensures
        digits(s.take(n)) <= digits(s),
    decreases s.len() - n,
{
    if n < s.len() {
        assert(s.take(n + 1).drop_last() =~= s.take(n));
        digits_grow(s, n + 1);
    } else {
        assert(s.take(n) =~= s);
    }
}

/// The number that the digits of `s` from `from` on stand for.
fn read_digits(s: &str, from: usize, n: usize) -> (r: Option<u64>)
    requires
        n == s@.len(),
        from < n,
    ensures
        match r {
            Some(v) => all_digits(s@.skip(from as int)) && v as nat == digits(s@.skip(from as int)),
            None => !all_digits(s@.skip(from as int)) || digits(s@.skip(from as int)) > u64::MAX,
        },
{
    let ghost t = s@.skip(from as int);
    let mut v: u64 = 0;
    let mut i: usize = from;
    let mut over = false;
    proof {
        assert(t.take(0).len() == 0);
    }
    while i < n
        invariant
            n == s@.len(),
            from <= i <= n,
            t == s@.skip(from as int),
            forall|j: int| 0 <= j < i - from ==> is_digit(#[trigger] t[j]),
            !over ==> v as nat == digits(t.take(i - from)),
            over ==> digits(t.take(i - from)) > u64::MAX,
        decreases n - i,
    {
        let c = s.get_char(i);
        proof {
            assert(t[i - from] == c);
            assert(t.take(i - from + 1).drop_last() =~= t.take(i - from));
        }
        if c < '0' || c > '9' {
            proof {
                assert(!is_digit(t[i - from]));
            }
            return None;
        }
        let d: u64 = (c as u32 - '0' as u32) as u64;
        if !over {
            if v > 1844674407370955161 || (v == 1844674407370955161 && d > 5) {
                over = true;
            } else {
                v = v * 10 + d;
            }
        }
        i = i + 1;
    }
    proof {
        assert(t.take(n - from) =~= t);
    }
    if over {
        None
    } else {
        Some(v)
    }
}

/// The sign and the size of the number that a text spells, where the size fits.
fn read_number(s: &str) -> (r: Option<(bool, u64)>)
    ensures
        match r {
            Some(x) => s@.len() > 0 && x.0 == (s@[0] == '-') && number(s@) == Some(
                if x.0 {
                    -(x.1 as int)
                } else {
                    x.1 as int
                },
            ),
            None => number(s@) matches Some(v) ==> v > u64::MAX || v < -(u64::MAX as int),
        },
{
    let n: usize = s.unicode_len();
    if n == 0 {
        return None;
    }
    let c = s.get_char(0);
    let signed = c == '+' || c == '-';
    let from: usize = if signed {
        1
    } else {
        0
    };
    if from == n {
        return None;
    }
    proof {
        assert(s@.skip(0) =~= s@);
    }
    match read_digits(s, from, n) {
        Some(v) => Some((c == '-', v)),
        None => None,
    }
}

/// The integer that a text spells, where it is one of 64 bits.
pub fn parse_i64(s: &str) -> (r: Option<i64>)
    ensures
        match r {
            Some(v) => number(s@) == Some(v as int),
            None => number(s@) matches Some(v) ==> v < i64::MIN || v > i64::MAX,
        },
{
    match read_number(s) {
        Some((neg, v)) => if neg {
            if v <= 0x8000_0000_0000_0000 {
                Some((0 - v as i128) as i64)
            } else {
                None
            }
        } else if v <= 0x7FFF_FFFF_FFFF_FFFF {
            Some(v as i64)
        } else {
            None
        },
        None => None,
    }
}

/// The port that a text spells. A minus sign is not part of one.
pub open spec fn port(s: Text) -> Option<u16> {
    match number(s) {
        Some(v) => if s[0] != '-' && 0 <= v <= u16::MAX {
            Some(v as u16)
        } else {
            None
        },
        None => None,
    }
}

pub fn parse_port(s: &str) -> (r: Option<u16>)
    ensures
        r == port(s@),
{
    match read_number(s) {
        Some((neg, v)) => if !neg && v <= 65535 {
            Some(v as u16)
        } else {
            None
        },
        None => None,
    }
}

pub open spec fn is_otel(s: Text) -> bool {
    s == "--otel"@ || (s.len() >= 15 && s.subrange(0, 15) == "--otel-endpoint"@)
}

pub open spec fn mentions(v: Seq<Text>, s: Text) -> bool {
    exists|i: int| 0 <= i < v.len() && #[trigger] v[i] == s
}

/// The command line without the options that may stand anywhere.
pub open spec fn plain(v: Seq<Text>) -> Seq<Text>
    decreases v.len(),
{
    if v.len() == 0 {
        v
    } else if v.last() == "--format=json"@ || v.last() == "--otel-console"@ {
        plain(v.drop_last())
    } else {
        plain(v.drop_last()).push(v.last())
    }
}

/// The place behind an option and its value.
pub open spec fn behind(v: Seq<Text>, i: int) -> int {
    if i + 2 <= v.len() {
        i + 2
    } else {
        v.len() as int
    }
}

/// What follows place `i`.
pub open spec fn following(v: Seq<Text>, i: int) -> Option<Text> {
    if 0 <= i && i + 1 < v.len() {
        Some(v[i + 1])
    } else {
        None
    }
}

/// The options of `build` from `i` on: input, output and optimisation. A later one
/// counts.
pub open spec fn build_options(
    v: Seq<Text>,
    i: int,
    input: Option<Text>,
    output: Option<Text>,
    opt: OptLevel,
) -> (Option<Text>, Option<Text>, OptLevel)
    decreases v.len() - i,
{
    if i < 0 || i >= v.len() {
        (input, output, opt)
    } else if v[i] == "-o"@ {
        build_options(v, behind(v, i), input, following(v, i), opt)
    } else if v[i] == "--opt0"@ {
        build_options(v, i + 1, input, output, OptLevel::O0)
    } else {
        build_options(v, i + 1, Some(v[i]), output, opt)
    }
}

/// The options of `emit-ui` from `i` on.
pub open spec fn ui_options(v: Seq<Text>, i: int, input: Option<Text>, output: Option<Text>) -> (
    Option<Text>,
    Option<Text>,
)
    decreases v.len() - i,
{
    if i < 0 || i >= v.len() {
        (input, output)
    } else if v[i] == "-o"@ {
        ui_options(v, behind(v, i), input, following(v, i))
    } else {
        ui_options(v, i + 1, Some(v[i]), output)
    }
}

/// The options of `serve` from `i` on.
pub open spec fn serve_options(v: Seq<Text>, i: int, o: SServe) -> SServe
    decreases v.len() - i,
{
    if i < 0 || i >= v.len() {
        o
    } else if v[i] == "--port"@ {
        serve_options(
            v,
            behind(v, i),
            SServe {
                port: match following(v, i) {
                    Some(s) => match port(s) {
                        Some(n) => n,
                        None => o.port,
                    },
                    None => o.port,
                },
                ..o
            },
        )
    } else if v[i] == "--jwks-file"@ {
        serve_options(v, behind(v, i), SServe { jwks_file: following(v, i), ..o })
    } else if v[i] == "--issuer"@ {
        serve_options(v, behind(v, i), SServe { issuer: following(v, i), ..o })
    } else if v[i] == "--audience"@ {
        serve_options(v, behind(v, i), SServe { audience: following(v, i), ..o })
    } else if v[i] == "--identity-base"@ {
        serve_options(v, behind(v, i), SServe { identity_base: following(v, i), ..o })
    } else {
        serve_options(v, i + 1, SServe { input: Some(v[i]), ..o })
    }
}

/// What the command line asks for.
pub open spec fn command(raw: Seq<Text>) -> SCommand {
    let v = plain(raw);
    if exists|i: int| 0 <= i < raw.len() && is_otel(#[trigger] raw[i]) {
        SCommand::Refuse(
            "--otel/--otel-endpoint: real OTLP export isn't implemented yet (observability layer 2). Use --otel-console for layer 1's local stdout tracer."@,
        )
    } else if v.len() == 0 {
        SCommand::Usage
    } else if v[0] == "build"@ {
        match build_options(v, 1, None, None, OptLevel::O2) {
            (Some(input), Some(output), opt) => SCommand::Build(input, output, opt),
            _ => SCommand::Refuse("usage: nirdosha build <file.nir> -o <out> [--opt0]"@),
        }
    } else if v[0] == "emit-llvm"@ {
        match following(v, 0) {
            Some(p) => SCommand::EmitLlvm(p),
            None => SCommand::Refuse("usage: nirdosha emit-llvm <file.nir>"@),
        }
    } else if v[0] == "emit-ast"@ {
        match following(v, 0) {
            Some(p) => SCommand::EmitAst(p),
            None => SCommand::Refuse("usage: nirdosha emit-ast <file.nir>"@),
        }
    } else if v[0] == "emit-ui"@ {
        match ui_options(v, 1, None, None) {
            (Some(input), output) => SCommand::EmitUi(input, output),
            _ => SCommand::Refuse("usage: nirdosha emit-ui <file.nir> [-o out.html]"@),
        }
    } else if v[0] == "serve"@ {
        let o = serve_options(
            v,
            1,
            SServe {
                input: None,
                port: 8080,
                jwks_file: None,
                issuer: None,
                audience: None,
                identity_base: None,
            },
        );
        if o.input is Some {
            SCommand::Serve(o)
        } else {
            SCommand::Refuse(
                "usage: nirdosha serve <file.nir> [--port 8080] [--jwks-file P --issuer S --audience S] [--identity-base URL]"@,
            )
        }
    } else if v[0] == "--sandbox-worker"@ {
        if v.len() < 3 {
            SCommand::Refuse(
                "usage: nirdosha --sandbox-worker <file.nir> <fn-name> [args...]"@,
            )
        } else {
            SCommand::SandboxWorker(v[1], v[2], v.skip(3))
        }
    } else {
        SCommand::Interpret(
            v[0],
            mentions(raw, "--format=json"@),
            mentions(raw, "--otel-console"@),
        )
    }
}

fn names_otel(s: &str) -> (r: bool)
    ensures
        r == is_otel(s@),
{
    if same(s, "--otel") {
        return true;
    }
    s.unicode_len() >= 15 && same(s.substring_char(0, 15), "--otel-endpoint")
}

fn has_arg(v: &Vec<String>, s: &str) -> (r: bool)
    ensures
        r == mentions(lines_view(v@), s@),
{
    let ghost all = lines_view(v@);
    let mut i: usize = 0;
    while i < v.len()
        invariant
            i <= v@.len(),
            all == lines_view(v@),
            forall|j: int| 0 <= j < i ==> #[trigger] all[j] != s@,
        decreases v@.len() - i,
    {
        proof {
            assert(all[i as int] == v@[i as int]@);
        }
        if same(v[i].as_str(), s) {
            return true;
        }
        i = i + 1;
    }
    false
}

fn asks_otel(v: &Vec<String>) -> (r: bool)
    ensures
        r == exists|i: int| 0 <= i < lines_view(v@).len() && is_otel(#[trigger] lines_view(v@)[i]),
{
    let ghost all = lines_view(v@);
    let mut i: usize = 0;
    while i < v.len()
        invariant
            i <= v@.len(),
            all == lines_view(v@),
            forall|j: int| 0 <= j < i ==> !is_otel(#[trigger] all[j]),
        decreases v@.len() - i,
    {
        proof {
            assert(all[i as int] == v@[i as int]@);
        }
        if names_otel(v[i].as_str()) {
            return true;
        }
        i = i + 1;
    }
    false
}

fn plain_args(v: &Vec<String>) -> (r: Vec<String>)
    ensures
        lines_view(r@) == plain(lines_view(v@)),
{
    let ghost all = lines_view(v@);
    let mut out: Vec<String> = Vec::new();
    let mut i: usize = 0;
    proof {
        assert(all.take(0).len() == 0);
        assert(lines_view(out@) =~= plain(all.take(0)));
    }
    while i < v.len()
        invariant
            i <= v@.len(),
            all == lines_view(v@),
            lines_view(out@) == plain(all.take(i as int)),
        decreases v@.len() - i,
    {
        proof {
            assert(all.take(i + 1).drop_last() =~= all.take(i as int));
            assert(all.take(i + 1).last() == v@[i as int]@);
        }
        let s = v[i].as_str();
        if !same(s, "--format=json") && !same(s, "--otel-console") {
            let ghost was = out@;
            let t = v[i].clone();
            let ghost tv = t@;
            out.push(t);
            proof {
                assert(lines_view(out@) =~= lines_view(was).push(tv));
            }
        }
        i = i + 1;
    }
    proof {
        assert(all.take(i as int) =~= all);
    }
    out
}

fn next_arg(v: &Vec<String>, i: usize) -> (r: Option<String>)
    requires
        i < v@.len(),
    ensures
        text_view(r) == following(lines_view(v@), i as int),
{
    if v.len() - i > 1 {
        Some(v[i + 1].clone())
    } else {
        None
    }
}

/// The place behind an option and its value.
fn skip_value(v: &Vec<String>, i: usize) -> (r: usize)
    requires
        i < v@.len(),
    ensures
        i < r <= v@.len(),
        r == behind(lines_view(v@), i as int),
{
    if v.len() - i >= 2 {
        i + 2
    } else {
        v.len()
    }
}

fn parse_build(v: &Vec<String>) -> (r: Command)
    requires
        v@.len() > 0,
    ensures
        r@ == match build_options(lines_view(v@), 1, None, None, OptLevel::O2) {
            (Some(input), Some(output), opt) => SCommand::Build(input, output, opt),
            _ => SCommand::Refuse("usage: nirdosha build <file.nir> -o <out> [--opt0]"@),
        },
{
    let ghost all = lines_view(v@);
    let ghost goal = build_options(all, 1, None, None, OptLevel::O2);
    let mut input: Option<String> = None;
    let mut output: Option<String> = None;
    let mut opt = OptLevel::O2;
    let mut i: usize = 1;
    while i < v.len()
        invariant
            1 <= i <= v@.len(),
            all == lines_view(v@),
            goal == build_options(all, 1, None, None, OptLevel::O2),
            goal == build_options(all, i as int, text_view(input), text_view(output), opt),
        decreases v@.len() - i,
    {
        let a = v[i].as_str();
        proof {
            assert(all[i as int] == a@);
        }
        if same(a, "-o") {
            output = next_arg(v, i);
            i = skip_value(v, i);
        } else if same(a, "--opt0") {
            opt = OptLevel::O0;
            i = i + 1;
        } else {
            input = Some(v[i].clone());
            i = i + 1;
        }
    }
    match (input, output) {
        (Some(input), Some(output)) => Command::Build { input, output, opt },
        _ => Command::Refuse("usage: nirdosha build <file.nir> -o <out> [--opt0]".to_owned()),
    }
}

fn parse_ui(v: &Vec<String>) -> (r: Command)
    requires
        v@.len() > 0,
    ensures
        r@ == match ui_options(lines_view(v@), 1, None, None) {
            (Some(input), output) => SCommand::EmitUi(input, output),
            _ => SCommand::Refuse("usage: nirdosha emit-ui <file.nir> [-o out.html]"@),
        },
{
    let ghost all = lines_view(v@);
    let ghost goal = ui_options(all, 1, None, None);
    let mut input: Option<String> = None;
    let mut output: Option<String> = None;
    let mut i: usize = 1;
    while i < v.len()
        invariant
            1 <= i <= v@.len(),
            all == lines_view(v@),
            goal == ui_options(all, 1, None, None),
            goal == ui_options(all, i as int, text_view(input), text_view(output)),
        decreases v@.len() - i,
    {
        let a = v[i].as_str();
        proof {
            assert(all[i as int] == a@);
        }
        if same(a, "-o") {
            output = next_arg(v, i);
            i = skip_value(v, i);
        } else {
            input = Some(v[i].clone());
            i = i + 1;
        }
    }
    match input {
        Some(input) => Command::EmitUi { input, output },
        None => Command::Refuse("usage: nirdosha emit-ui <file.nir> [-o out.html]".to_owned()),
    }
}

pub open spec fn serve_start() -> SServe {
    SServe {
        input: None,
        port: 8080,
        jwks_file: None,
        issuer: None,
        audience: None,
        identity_base: None,
    }
}

pub open spec fn serve_view(input: Option<String>, o: ServeOptions) -> SServe {
    SServe {
        input: text_view(input),
        port: o.port,
        jwks_file: text_view(o.jwks_file),
        issuer: text_view(o.issuer),
        audience: text_view(o.audience),
        identity_base: text_view(o.identity_base),
    }
}

fn parse_serve(v: &Vec<String>) -> (r: Command)
    requires
        v@.len() > 0,
    ensures
        r@ == {
            let o = serve_options(lines_view(v@), 1, serve_start());
            if o.input is Some {
                SCommand::Serve(o)
            } else {
                SCommand::Refuse(
                    "usage: nirdosha serve <file.nir> [--port 8080] [--jwks-file P --issuer S --audience S] [--identity-base URL]"@,
                )
            }
        },
{
    let ghost all = lines_view(v@);
    let ghost goal = serve_options(all, 1, serve_start());
    let mut input: Option<String> = None;
    let mut o = ServeOptions {
        port: 8080,
        jwks_file: None,
        issuer: None,
        audience: None,
        identity_base: None,
    };
    let mut i: usize = 1;
    while i < v.len()
        invariant
            1 <= i <= v@.len(),
            all == lines_view(v@),
            goal == serve_options(all, 1, serve_start()),
            goal == serve_options(all, i as int, serve_view(input, o)),
        decreases v@.len() - i,
    {
        let a = v[i].as_str();
        proof {
            assert(all[i as int] == a@);
        }
        if same(a, "--port") {
            match next_arg(v, i) {
                Some(s) => match parse_port(s.as_str()) {
                    Some(n) => {
                        o.port = n;
                    }
                    None => {}
                },
                None => {}
            }
            i = skip_value(v, i);
        } else if same(a, "--jwks-file") {
            o.jwks_file = next_arg(v, i);
            i = skip_value(v, i);
        } else if same(a, "--issuer") {
            o.issuer = next_arg(v, i);
            i = skip_value(v, i);
        } else if same(a, "--audience") {
            o.audience = next_arg(v, i);
            i = skip_value(v, i);
        } else if same(a, "--identity-base") {
            o.identity_base = next_arg(v, i);
            i = skip_value(v, i);
        } else {
            input = Some(v[i].clone());
            i = i + 1;
        }
    }
    match input {
        Some(path) => Command::Serve(path, o),
        None => Command::Refuse(
            "usage: nirdosha serve <file.nir> [--port 8080] [--jwks-file P --issuer S --audience S] [--identity-base URL]".to_owned(),
        ),
    }
}

fn args_from(v: &Vec<String>, from: usize) -> (r: Vec<String>)
    requires
        from <= v@.len(),
    ensures
        lines_view(r@) == lines_view(v@).skip(from as int),
{
    let ghost all = lines_view(v@);
    let mut out: Vec<String> = Vec::new();
    let mut i: usize = from;
    while i < v.len()
        invariant
            from <= i <= v@.len(),
            all == lines_view(v@),
            lines_view(out@) =~= all.subrange(from as int, i as int),
        decreases v@.len() - i,
    {
        let ghost was = out@;
        let t = v[i].clone();
        let ghost tv = t@;
        out.push(t);
        proof {
            assert(lines_view(out@) =~= lines_view(was).push(tv));
        }
        i = i + 1;
    }
    proof {
        assert(lines_view(out@) =~= all.skip(from as int));
    }
    out
}

/// What the command line asks for.
pub fn parse_args(raw: &Vec<String>) -> (r: Command)
    ensures
        r@ == command(lines_view(raw@)),
{
    if asks_otel(raw) {
        return Command::Refuse(
            "--otel/--otel-endpoint: real OTLP export isn't implemented yet (observability layer 2). Use --otel-console for layer 1's local stdout tracer.".to_owned(),
        );
    }
    let v = plain_args(raw);
    let ghost all = lines_view(v@);
    if v.len() == 0 {
        return Command::Usage;
    }
    let first = v[0].as_str();
    proof {
        assert(all[0] == first@);
        assert(all.len() == v@.len());
    }
    if same(first, "build") {
        parse_build(&v)
    } else if same(first, "emit-llvm") {
        match next_arg(&v, 0) {
            Some(p) => Command::EmitLlvm(p),
            None => Command::Refuse("usage: nirdosha emit-llvm <file.nir>".to_owned()),
        }
    } else if same(first, "emit-ast") {
        match next_arg(&v, 0) {
            Some(p) => Command::EmitAst(p),
            None => Command::Refuse("usage: nirdosha emit-ast <file.nir>".to_owned()),
        }
    } else if same(first, "emit-ui") {
        parse_ui(&v)
    } else if same(first, "serve") {
        parse_serve(&v)
    } else if same(first, "--sandbox-worker") {
        if v.len() < 3 {
            Command::Refuse("usage: nirdosha --sandbox-worker <file.nir> <fn-name> [args...]".to_owned())
        } else {
            Command::SandboxWorker {
                path: v[1].clone(),
                fn_name: v[2].clone(),
                args: args_from(&v, 3),
            }
        }
    } else {
        Command::Interpret {
            path: v[0].clone(),
            format_json: has_arg(raw, "--format=json"),
            otel_console: has_arg(raw, "--otel-console"),
        }
    }
}

/// How tokens are to be validated: not at all, or by all three of its parts.
pub fn auth_parts(o: &ServeOptions) -> (r: Result<Option<(String, String, String)>, String>)
    ensures
        match r {
            Ok(Some(x)) => o.jwks_file matches Some(a) && o.issuer matches Some(b) && o.audience
                matches Some(c) && (x.0)@ == a@ && (x.1)@ == b@ && (x.2)@ == c@,
            Ok(None) => o.jwks_file is None && o.issuer is None && o.audience is None,
            Err(m) => {
                &&& m@ == "--jwks-file/--issuer/--audience must be given together, or not at all"@
                &&& !(o.jwks_file is Some && o.issuer is Some && o.audience is Some)
                &&& !(o.jwks_file is None && o.issuer is None && o.audience is None)
            },
        },
{
    match (&o.jwks_file, &o.issuer, &o.audience) {
        (Some(a), Some(b), Some(c)) => Ok(Some((a.clone(), b.clone(), c.clone()))),
        (None, None, None) => Ok(None),
        _ => Err(
            "--jwks-file/--issuer/--audience must be given together, or not at all".to_owned(),
        ),
    }
}

/// An argument of a function that runs in a process of its own.
#[derive(Debug)]
pub enum WorkerArg {
    Value(Value),
    /// A channel over the socket at this path.
    Connect(String),
}

pub ghost enum SWorkerArg {
    Value(SValue),
    Connect(Text),
}

impl View for WorkerArg {
    type V = SWorkerArg;

    open spec fn view(&self) -> SWorkerArg {
        match *self {
            WorkerArg::Value(v) => SWorkerArg::Value(v@),
            WorkerArg::Connect(p) => SWorkerArg::Connect(p@),
        }
    }
}

/// The argument that a text on the command line spells, by the parameter's type.
pub open spec fn worker_arg(p: Param, raw: Text) -> Result<SWorkerArg, Text> {
    match p.ty@ {
        STy::Bool => if raw == "true"@ {
            Ok(SWorkerArg::Value(SValue::Bool(true)))
        } else if raw == "false"@ {
            Ok(SWorkerArg::Value(SValue::Bool(false)))
        } else {
            Err("sandbox worker: bad bool argument `"@ + raw + "` for `"@ + p.name@ + "`"@)
        },
        STy::Channel(_) => Ok(SWorkerArg::Connect(raw)),
        _ => match number(raw) {
            Some(n) => if i64::MIN <= n <= i64::MAX {
                Ok(SWorkerArg::Value(SValue::Int(n as i64)))
            } else {
                Err("sandbox worker: bad integer argument `"@ + raw + "` for `"@ + p.name@ + "`"@)
            },
            None => Err("sandbox worker: bad integer argument `"@ + raw + "` for `"@ + p.name@ + "`"@),
        },
    }
}

/// Reads one argument from the command line.
pub fn read_worker_arg(p: &Param, raw: &str) -> (r: Result<WorkerArg, String>)
    ensures
        match r {
            Ok(a) => worker_arg(*p, raw@) == Ok::<SWorkerArg, Text>(a@),
            Err(m) => worker_arg(*p, raw@) == Err::<SWorkerArg, Text>(m@),
        },
{
    match &p.ty {
        Ty::Bool => if same(raw, "true") {
            Ok(WorkerArg::Value(Value::Bool(true)))
        } else if same(raw, "false") {
            Ok(WorkerArg::Value(Value::Bool(false)))
        } else {
            Err(cat5("sandbox worker: bad bool argument `", raw, "` for `", p.name.as_str(), "`"))
        },
        Ty::Channel(_) => Ok(WorkerArg::Connect(raw.to_owned())),
        _ => match parse_i64(raw) {
            Some(n) => Ok(WorkerArg::Value(Value::Int(n))),
            None => Err(cat5("sandbox worker: bad integer argument `", raw, "` for `", p.name.as_str(), "`")),
        },
    }
}

/// The first `n` arguments of a function that runs in a process of its own. Texts
/// and parameters go together one by one; what is left over of either is not looked
/// at.
pub open spec fn worker_args(ps: Seq<Param>, raw: Seq<Text>, n: nat) -> Result<
    Seq<SWorkerArg>,
    Text,
>
    decreases n,
{
    if n == 0 {
        Ok(Seq::empty())
    } else {
        match worker_args(ps, raw, (n - 1) as nat) {
            Err(m) => Err(m),
            Ok(v) => match worker_arg(ps[n - 1], raw[n - 1]) {
                Err(m) => Err(m),
                Ok(a) => Ok(v.push(a)),
            },
        }
    }
}

pub open spec fn worker_args_view(v: Seq<WorkerArg>) -> Seq<SWorkerArg> {
    Seq::new(v.len(), |i: int| v[i]@)
}

pub open spec fn pairs(a: nat, b: nat) -> nat {
    if a <= b {
        a
    } else {
        b
    }
}

proof fn worker_args_stop(ps: Seq<Param>, raw: Seq<Text>, a: nat, b: nat)
    requires
        a <= b,
        worker_args(ps, raw, a) is Err,
    ensures
        worker_args(ps, raw, b) == worker_args(ps, raw, a),
    decreases b,
{
    if a < b {
        worker_args_stop(ps, raw, a, (b - 1) as nat);
    }
}

/// Reads the arguments of a function from the command line.
pub fn read_worker_args(f: &FnDecl, raw: &Vec<String>) -> (r: Result<Vec<WorkerArg>, String>)
    ensures
        match r {
            Ok(v) => worker_args(
                f.params@,
                lines_view(raw@),
                pairs(f.params@.len(), raw@.len()),
            ) == Ok::<Seq<SWorkerArg>, Text>(worker_args_view(v@)),
            Err(m) => worker_args(
                f.params@,
                lines_view(raw@),
                pairs(f.params@.len(), raw@.len()),
            ) == Err::<Seq<SWorkerArg>, Text>(m@),
        },
{
    let ghost all = lines_view(raw@);
    let n: usize = if f.params.len() <= raw.len() {
        f.params.len()
    } else {
        raw.len()
    };
    let mut out: Vec<WorkerArg> = Vec::new();
    let mut i: usize = 0;
    proof {
        assert(worker_args_view(out@) =~= Seq::<SWorkerArg>::empty());
    }
    while i < n
        invariant
            i <= n,
            n <= f.params@.len(),
            n <= raw@.len(),
            n == pairs(f.params@.len(), raw@.len()),
            all == lines_view(raw@),
            worker_args(f.params@, all, i as nat) == Ok::<Seq<SWorkerArg>, Text>(
                worker_args_view(out@),
            ),
        decreases n - i,
    {
        match read_worker_arg(&f.params[i], raw[i].as_str()) {
            Ok(a) => {
                let ghost was = out@;
                let ghost av = a@;
                out.push(a);
                proof {
                    assert(worker_args_view(out@) =~= worker_args_view(was).push(av));
                }
            }
            Err(m) => {
                proof {
                    worker_args_stop(f.params@, all, (i + 1) as nat, n as nat);
                }
                return Err(m);
            }
        }
        i = i + 1;
    }
    Ok(out)
}

pub(crate) proof fn dec_nat_digits(n: nat)
    ensures
        all_digits(dec_nat(n)),
        dec_nat(n).len() > 0,
        digits(dec_nat(n)) == n,
    decreases n,
{
    if n >= 10 {
        dec_nat_digits(n / 10);
        assert(dec_nat(n).drop_last() =~= dec_nat(n / 10));
    } else {
        assert(dec_nat(n).drop_last().len() == 0);
        reveal_with_fuel(digits, 2);
    }
}

/// What a process of its own is handed on its command line is read as it was meant.
pub proof fn worker_arguments_travel(p: Param, n: i64)
    requires
        integer_param(p),
    ensures
        worker_arg(p, dec(n as int)) == Ok::<SWorkerArg, Text>(SWorkerArg::Value(SValue::Int(n))),
{
    let s = dec(n as int);
    if n < 0 {
        dec_nat_digits((-n) as nat);
        assert(s.skip(1) =~= dec_nat((-n) as nat));
    } else {
        dec_nat_digits(n as nat);
        assert(is_digit(s[0]));
    }
}

pub open spec fn integer_param(p: Param) -> bool {
    !(p.ty@ is Bool) && !(p.ty@ is Channel)
}

} // verus!
