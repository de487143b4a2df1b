//! Tokens and the lexer. Every token carries a `Span`, so that every later
//! error can report an exact position.
use crate::text::{ascii_text, cat3, dec, dec_i64, same, text_of};
use vstd::prelude::*;
use vstd::string::*;

verus! {

/// A position in a source text; lines and columns count from 1.
#[derive(Debug, Clone, Copy, PartialEq, Eq, Hash, Structural)]
pub struct Span {
    pub line: usize,
    pub col: usize,
}

/// A floating-point literal: the number by its IEEE 754 bits, and as messages show
/// it.
#[derive(Debug, Clone)]
pub struct FloatLit {
    pub bits: u64,
    pub shown: String,
}

pub ghost struct SFloat {
    pub bits: u64,
    pub shown: Seq<char>,
}

impl View for FloatLit {
    type V = SFloat;

    open spec fn view(&self) -> SFloat {
        SFloat { bits: self.bits, shown: self.shown@ }
    }
}

impl FloatLit {
    /// The same literal once more.
    pub fn duplicate(&self) -> (r: Self)
        ensures
            r@ == self@,
            r.bits == self.bits,
    {
        FloatLit { bits: self.bits, shown: self.shown.clone() }
    }
}

/// The tokens of the language. `Lexer` spells the scalar core of them; the
/// parser accepts the whole set.
#[derive(Debug, Clone)]
pub enum Tok {
    Int(i64),
    Float(FloatLit),
    Str(String),
    Ident(String),
    /// The name of a scalar type.
    TypeName(String),
    True,
    False,
    Fn,
    Let,
    Return,
    If,
    Else,
    While,
    Box,
    Spawn,
    Join,
    Thread,
    Chan,
    Sandbox,
    Send,
    Recv,
    Stop,
    Connect,
    Listen,
    Accept,
    Open,
    VectorKw,
    MatrixKw,
    Struct,
    Enum,
    Match,
    Effect,
    Audited,
    Transact,
    LParen,
    RParen,
    LBrace,
    RBrace,
    LBracket,
    RBracket,
    Colon,
    Comma,
    Dot,
    Arrow,
    FatArrow,
    Assign,
    Plus,
    Minus,
    Star,
    Slash,
    DotStar,
    DotSlash,
    EqEq,
    NotEq,
    Lt,
    Gt,
    LtEq,
    GtEq,
    AndAnd,
    OrOr,
    Bang,
    Amp,
    Eof,
}

/// What a token is, with its text as a sequence of characters.
pub ghost enum STok {
    Float(SFloat),
    Str(Seq<char>),
    Ident(Seq<char>),
    TypeName(Seq<char>),
    /// Any token that holds no text.
    Plain(Tok),
}

impl View for Tok {
    type V = STok;

    open spec fn view(&self) -> STok {
        match *self {
            Tok::Float(f) => STok::Float(f@),
            Tok::Str(s) => STok::Str(s@),
            Tok::Ident(s) => STok::Ident(s@),
            Tok::TypeName(s) => STok::TypeName(s@),
            other => STok::Plain(other),
        }
    }
}

#[derive(Debug, Clone)]
pub struct Token {
    pub tok: Tok,
    pub span: Span,
}

pub ghost struct SToken {
    pub tok: STok,
    pub span: Span,
}

impl View for Token {
    type V = SToken;

    open spec fn view(&self) -> SToken {
        SToken { tok: self.tok@, span: self.span }
    }
}

/// The tokens of a vector, each by its view.
pub open spec fn tokens(v: Seq<Token>) -> Seq<SToken> {
    Seq::new(v.len(), |i: int| v[i]@)
}

/// What `{:?}` prints for a string with these characters.
pub uninterp spec fn quoted(s: Seq<char>) -> Seq<char>;

/// `{:?}` of `str` from std's formatting: the string in double quotes with
/// special characters escaped. Its result is named by `quoted`.
#[verifier::external_body]
pub(crate) fn quote(s: &str) -> (r: String)
    ensures
        r@ == quoted(s@),
{
    format!("{:?}", s)
}

/// How a token is shown in an error message.
#[verifier::opaque]
pub open spec fn shown(t: STok) -> Seq<char> {
    match t {
        STok::Str(s) => "Str("@ + quoted(s) + ")"@,
        STok::Ident(s) => "Ident("@ + quoted(s) + ")"@,
        STok::TypeName(s) => "TypeName("@ + quoted(s) + ")"@,
        STok::Plain(Tok::Int(n)) => "Int("@ + dec(n as int) + ")"@,
        STok::Float(f) => "Float("@ + f.shown + ")"@,
        STok::Plain(Tok::True) => "True"@,
        STok::Plain(Tok::False) => "False"@,
        STok::Plain(Tok::Fn) => "Fn"@,
        STok::Plain(Tok::Let) => "Let"@,
        STok::Plain(Tok::Return) => "Return"@,
        STok::Plain(Tok::If) => "If"@,
        STok::Plain(Tok::Else) => "Else"@,
        STok::Plain(Tok::While) => "While"@,
        STok::Plain(Tok::Box) => "Box"@,
        STok::Plain(Tok::Spawn) => "Spawn"@,
        STok::Plain(Tok::Join) => "Join"@,
        STok::Plain(Tok::Thread) => "Thread"@,
        STok::Plain(Tok::Chan) => "Chan"@,
        STok::Plain(Tok::Sandbox) => "Sandbox"@,
        STok::Plain(Tok::Send) => "Send"@,
        STok::Plain(Tok::Recv) => "Recv"@,
        STok::Plain(Tok::Stop) => "Stop"@,
        STok::Plain(Tok::Connect) => "Connect"@,
        STok::Plain(Tok::Listen) => "Listen"@,
        STok::Plain(Tok::Accept) => "Accept"@,
        STok::Plain(Tok::Open) => "Open"@,
        STok::Plain(Tok::VectorKw) => "VectorKw"@,
        STok::Plain(Tok::MatrixKw) => "MatrixKw"@,
        STok::Plain(Tok::Struct) => "Struct"@,
        STok::Plain(Tok::Enum) => "Enum"@,
        STok::Plain(Tok::Match) => "Match"@,
        STok::Plain(Tok::Effect) => "Effect"@,
        STok::Plain(Tok::Audited) => "Audited"@,
        STok::Plain(Tok::Transact) => "Transact"@,
        STok::Plain(Tok::LParen) => "LParen"@,
        STok::Plain(Tok::RParen) => "RParen"@,
        STok::Plain(Tok::LBrace) => "LBrace"@,
        STok::Plain(Tok::RBrace) => "RBrace"@,
        STok::Plain(Tok::LBracket) => "LBracket"@,
        STok::Plain(Tok::RBracket) => "RBracket"@,
        STok::Plain(Tok::Colon) => "Colon"@,
        STok::Plain(Tok::Comma) => "Comma"@,
        STok::Plain(Tok::Dot) => "Dot"@,
        STok::Plain(Tok::Arrow) => "Arrow"@,
        STok::Plain(Tok::FatArrow) => "FatArrow"@,
        STok::Plain(Tok::Assign) => "Assign"@,
        STok::Plain(Tok::Plus) => "Plus"@,
        STok::Plain(Tok::Minus) => "Minus"@,
        STok::Plain(Tok::Star) => "Star"@,
        STok::Plain(Tok::Slash) => "Slash"@,
        STok::Plain(Tok::DotStar) => "DotStar"@,
        STok::Plain(Tok::DotSlash) => "DotSlash"@,
        STok::Plain(Tok::EqEq) => "EqEq"@,
        STok::Plain(Tok::NotEq) => "NotEq"@,
        STok::Plain(Tok::Lt) => "Lt"@,
        STok::Plain(Tok::Gt) => "Gt"@,
        STok::Plain(Tok::LtEq) => "LtEq"@,
        STok::Plain(Tok::GtEq) => "GtEq"@,
        STok::Plain(Tok::AndAnd) => "AndAnd"@,
        STok::Plain(Tok::OrOr) => "OrOr"@,
        STok::Plain(Tok::Bang) => "Bang"@,
        STok::Plain(Tok::Amp) => "Amp"@,
        STok::Plain(Tok::Eof) => "Eof"@,
        STok::Plain(_) => Seq::empty(),
    }
}

impl Tok {
    /// The token as error messages show it.
    pub fn show(&self) -> (r: String)
        ensures
            r@ == shown(self@),
    {
        proof {
            reveal(shown);
        }
        match self {
            Tok::Str(s) => {
                let q = quote(s.as_str());
                cat3("Str(", q.as_str(), ")")
            }
            Tok::Ident(s) => {
                let q = quote(s.as_str());
                cat3("Ident(", q.as_str(), ")")
            }
            Tok::TypeName(s) => {
                let q = quote(s.as_str());
                cat3("TypeName(", q.as_str(), ")")
            }
            Tok::Int(n) => {
                let q = dec_i64(*n);
                cat3("Int(", q.as_str(), ")")
            }
            Tok::Float(f) => cat3("Float(", f.shown.as_str(), ")"),
            Tok::True => "True".to_owned(),
            Tok::False => "False".to_owned(),
            Tok::Fn => "Fn".to_owned(),
            Tok::Let => "Let".to_owned(),
            Tok::Return => "Return".to_owned(),
            Tok::If => "If".to_owned(),
            Tok::Else => "Else".to_owned(),
            Tok::While => "While".to_owned(),
            Tok::Box => "Box".to_owned(),
            Tok::Spawn => "Spawn".to_owned(),
            Tok::Join => "Join".to_owned(),
            Tok::Thread => "Thread".to_owned(),
            Tok::Chan => "Chan".to_owned(),
            Tok::Sandbox => "Sandbox".to_owned(),
            Tok::Send => "Send".to_owned(),
            Tok::Recv => "Recv".to_owned(),
            Tok::Stop => "Stop".to_owned(),
            Tok::Connect => "Connect".to_owned(),
            Tok::Listen => "Listen".to_owned(),
            Tok::Accept => "Accept".to_owned(),
            Tok::Open => "Open".to_owned(),
            Tok::VectorKw => "VectorKw".to_owned(),
            Tok::MatrixKw => "MatrixKw".to_owned(),
            Tok::Struct => "Struct".to_owned(),
            Tok::Enum => "Enum".to_owned(),
            Tok::Match => "Match".to_owned(),
            Tok::Effect => "Effect".to_owned(),
            Tok::Audited => "Audited".to_owned(),
            Tok::Transact => "Transact".to_owned(),
            Tok::LParen => "LParen".to_owned(),
            Tok::RParen => "RParen".to_owned(),
            Tok::LBrace => "LBrace".to_owned(),
            Tok::RBrace => "RBrace".to_owned(),
            Tok::LBracket => "LBracket".to_owned(),
            Tok::RBracket => "RBracket".to_owned(),
            Tok::Colon => "Colon".to_owned(),
            Tok::Comma => "Comma".to_owned(),
            Tok::Dot => "Dot".to_owned(),
            Tok::Arrow => "Arrow".to_owned(),
            Tok::FatArrow => "FatArrow".to_owned(),
            Tok::Assign => "Assign".to_owned(),
            Tok::Plus => "Plus".to_owned(),
            Tok::Minus => "Minus".to_owned(),
            Tok::Star => "Star".to_owned(),
            Tok::Slash => "Slash".to_owned(),
            Tok::DotStar => "DotStar".to_owned(),
            Tok::DotSlash => "DotSlash".to_owned(),
            Tok::EqEq => "EqEq".to_owned(),
            Tok::NotEq => "NotEq".to_owned(),
            Tok::Lt => "Lt".to_owned(),
            Tok::Gt => "Gt".to_owned(),
            Tok::LtEq => "LtEq".to_owned(),
            Tok::GtEq => "GtEq".to_owned(),
            Tok::AndAnd => "AndAnd".to_owned(),
            Tok::OrOr => "OrOr".to_owned(),
            Tok::Bang => "Bang".to_owned(),
            Tok::Amp => "Amp".to_owned(),
            Tok::Eof => "Eof".to_owned(),
        }
    }

    /// Whether this token is `other`, a token that holds neither text nor a number.
    pub fn is_plain(&self, other: &Tok) -> (r: bool)
        requires
            bare(*other),
        ensures
            r == (self@ == STok::Plain(*other)),
    {
        match self {
            Tok::Int(_) | Tok::Float(_) | Tok::Str(_) | Tok::Ident(_) | Tok::TypeName(_) => false,
            Tok::True => matches!(other, Tok::True),
            Tok::False => matches!(other, Tok::False),
            Tok::Fn => matches!(other, Tok::Fn),
            Tok::Let => matches!(other, Tok::Let),
            Tok::Return => matches!(other, Tok::Return),
            Tok::If => matches!(other, Tok::If),
            Tok::Else => matches!(other, Tok::Else),
            Tok::While => matches!(other, Tok::While),
            Tok::Box => matches!(other, Tok::Box),
            Tok::Spawn => matches!(other, Tok::Spawn),
            Tok::Join => matches!(other, Tok::Join),
            Tok::Thread => matches!(other, Tok::Thread),
            Tok::Chan => matches!(other, Tok::Chan),
            Tok::Sandbox => matches!(other, Tok::Sandbox),
            Tok::Send => matches!(other, Tok::Send),
            Tok::Recv => matches!(other, Tok::Recv),
            Tok::Stop => matches!(other, Tok::Stop),
            Tok::Connect => matches!(other, Tok::Connect),
            Tok::Listen => matches!(other, Tok::Listen),
            Tok::Accept => matches!(other, Tok::Accept),
            Tok::Open => matches!(other, Tok::Open),
            Tok::VectorKw => matches!(other, Tok::VectorKw),
            Tok::MatrixKw => matches!(other, Tok::MatrixKw),
            Tok::Struct => matches!(other, Tok::Struct),
            Tok::Enum => matches!(other, Tok::Enum),
            Tok::Match => matches!(other, Tok::Match),
            Tok::Effect => matches!(other, Tok::Effect),
            Tok::Audited => matches!(other, Tok::Audited),
            Tok::Transact => matches!(other, Tok::Transact),
            Tok::LParen => matches!(other, Tok::LParen),
            Tok::RParen => matches!(other, Tok::RParen),
            Tok::LBrace => matches!(other, Tok::LBrace),
            Tok::RBrace => matches!(other, Tok::RBrace),
            Tok::LBracket => matches!(other, Tok::LBracket),
            Tok::RBracket => matches!(other, Tok::RBracket),
            Tok::Colon => matches!(other, Tok::Colon),
            Tok::Comma => matches!(other, Tok::Comma),
            Tok::Dot => matches!(other, Tok::Dot),
            Tok::Arrow => matches!(other, Tok::Arrow),
            Tok::FatArrow => matches!(other, Tok::FatArrow),
            Tok::Assign => matches!(other, Tok::Assign),
            Tok::Plus => matches!(other, Tok::Plus),
            Tok::Minus => matches!(other, Tok::Minus),
            Tok::Star => matches!(other, Tok::Star),
            Tok::Slash => matches!(other, Tok::Slash),
            Tok::DotStar => matches!(other, Tok::DotStar),
            Tok::DotSlash => matches!(other, Tok::DotSlash),
            Tok::EqEq => matches!(other, Tok::EqEq),
            Tok::NotEq => matches!(other, Tok::NotEq),
            Tok::Lt => matches!(other, Tok::Lt),
            Tok::Gt => matches!(other, Tok::Gt),
            Tok::LtEq => matches!(other, Tok::LtEq),
            Tok::GtEq => matches!(other, Tok::GtEq),
            Tok::AndAnd => matches!(other, Tok::AndAnd),
            Tok::OrOr => matches!(other, Tok::OrOr),
            Tok::Bang => matches!(other, Tok::Bang),
            Tok::Amp => matches!(other, Tok::Amp),
            Tok::Eof => matches!(other, Tok::Eof),
        }
    }
}

impl Tok {
    /// Whether two tokens are the same.
    pub fn is_tok(&self, other: &Tok) -> (r: bool)
        ensures
            r == (self@ == other@),
    {
        match other {
            Tok::Str(b) => match self {
                Tok::Str(a) => same(a.as_str(), b.as_str()),
                _ => false,
            },
            Tok::Ident(b) => match self {
                Tok::Ident(a) => same(a.as_str(), b.as_str()),
                _ => false,
            },
            Tok::TypeName(b) => match self {
                Tok::TypeName(a) => same(a.as_str(), b.as_str()),
                _ => false,
            },
            Tok::Int(b) => match self {
                Tok::Int(a) => *a == *b,
                _ => false,
            },
            Tok::Float(b) => match self {
                Tok::Float(a) => a.bits == b.bits && same(a.shown.as_str(), b.shown.as_str()),
                _ => false,
            },
            _ => self.is_plain(other),
        }
    }
}

/// Whether a token holds neither text nor a number.
pub open spec fn bare(t: Tok) -> bool {
    match t {
        Tok::Int(_) | Tok::Float(_) | Tok::Str(_) | Tok::Ident(_) | Tok::TypeName(_) => false,
        _ => true,
    }
}

#[derive(Debug, Clone)]
pub struct LexError {
    pub message: String,
    pub span: Span,
}

/// A message with the position that it is about.
pub ghost struct SErr {
    pub message: Seq<char>,
    pub span: Span,
}

impl View for LexError {
    type V = SErr;

    open spec fn view(&self) -> SErr {
        SErr { message: self.message@, span: self.span }
    }
}

/// `n`, or the largest `usize` where `n` does not fit.
pub open spec fn clamp(n: int) -> usize {
    if n > usize::MAX {
        usize::MAX
    } else {
        n as usize
    }
}

/// How many line feeds `s[..p]` holds.
pub open spec fn feeds(s: Seq<u8>, p: int) -> int
    decreases p,
{
    if p <= 0 {
        0
    } else {
        feeds(s, p - 1) + if s[p - 1] as char == '\n' { 1int } else { 0int }
    }
}

/// How many bytes stand between the start of its line and position `p`.
pub open spec fn into_line(s: Seq<u8>, p: int) -> int
    decreases p,
{
    if p <= 0 || s[p - 1] as char == '\n' {
        0
    } else {
        into_line(s, p - 1) + 1
    }
}

/// The line and column of byte `p`.
pub open spec fn span_at(s: Seq<u8>, p: int) -> Span {
    Span { line: clamp(feeds(s, p) + 1), col: clamp(into_line(s, p) + 1) }
}

pub open spec fn is_blank(c: char) -> bool {
    c == ' ' || c == '\t' || c == '\r' || c == '\n'
}

pub open spec fn is_digit(c: char) -> bool {
    '0' <= c && c <= '9'
}

pub open spec fn is_word_start(c: char) -> bool {
    ('a' <= c && c <= 'z') || ('A' <= c && c <= 'Z') || c == '_'
}

pub open spec fn is_word_char(c: char) -> bool {
    is_word_start(c) || is_digit(c)
}

/// The first position from `p` on that holds a line feed, or the end.
pub open spec fn line_end(s: Seq<u8>, p: int) -> int
    decreases s.len() - p,
{
    if p >= s.len() || s[p] as char == '\n' {
        p
    } else {
        line_end(s, p + 1)
    }
}

/// Whether a comment starts at `p`.
pub open spec fn is_comment(s: Seq<u8>, p: int) -> bool {
    p + 1 < s.len() && s[p] as char == '/' && s[p + 1] as char == '/'
}

pub(crate) proof fn line_end_bounds(s: Seq<u8>, p: int)
    requires
        0 <= p <= s.len(),
    ensures
        p <= line_end(s, p) <= s.len(),
        is_comment(s, p) ==> p < line_end(s, p),
    decreases s.len() - p,
{
    if p < s.len() && s[p] as char != '\n' {
        line_end_bounds(s, p + 1);
    }
}

/// The first position from `p` on that is neither blank nor inside a comment.
pub open spec fn skip(s: Seq<u8>, p: int) -> int
    decreases s.len() - p,
{
    if p < 0 || p >= s.len() {
        p
    } else if is_blank(s[p] as char) {
        skip(s, p + 1)
    } else if is_comment(s, p) && p < line_end(s, p) <= s.len() {
        skip(s, line_end(s, p))
    } else {
        p
    }
}

/// The end of the run of digits that starts at `p`.
pub open spec fn digits_end(s: Seq<u8>, p: int) -> int
    decreases s.len() - p,
{
    if p >= s.len() || !is_digit(s[p] as char) {
        p
    } else {
        digits_end(s, p + 1)
    }
}

/// The end of the run of word characters that starts at `p`.
pub open spec fn word_end(s: Seq<u8>, p: int) -> int
    decreases s.len() - p,
{
    if p >= s.len() || !is_word_char(s[p] as char) {
        p
    } else {
        word_end(s, p + 1)
    }
}

/// The number that the digits `s[a..b]` spell.
pub open spec fn numeral(s: Seq<u8>, a: int, b: int) -> nat
    decreases b - a,
{
    if b <= a {
        0
    } else {
        numeral(s, a, b - 1) * 10 + (s[b - 1] as nat - 48) as nat
    }
}

/// Whether a word names a scalar type.
pub open spec fn is_type_name(w: Seq<char>) -> bool {
    w == "i8"@ || w == "i16"@ || w == "i32"@ || w == "i64"@ || w == "u8"@ || w == "u16"@ || w
        == "u32"@ || w == "u64"@ || w == "usize"@ || w == "bool"@ || w == "unit"@
}

/// The token for a word.
pub open spec fn word_token(w: Seq<char>) -> STok {
    if w == "fn"@ {
        STok::Plain(Tok::Fn)
    } else if w == "let"@ {
        STok::Plain(Tok::Let)
    } else if w == "return"@ {
        STok::Plain(Tok::Return)
    } else if w == "if"@ {
        STok::Plain(Tok::If)
    } else if w == "else"@ {
        STok::Plain(Tok::Else)
    } else if w == "while"@ {
        STok::Plain(Tok::While)
    } else if w == "box"@ {
        STok::Plain(Tok::Box)
    } else if w == "spawn"@ {
        STok::Plain(Tok::Spawn)
    } else if w == "join"@ {
        STok::Plain(Tok::Join)
    } else if w == "thread"@ {
        STok::Plain(Tok::Thread)
    } else if w == "true"@ {
        STok::Plain(Tok::True)
    } else if w == "false"@ {
        STok::Plain(Tok::False)
    } else if is_type_name(w) {
        STok::TypeName(w)
    } else {
        STok::Ident(w)
    }
}

/// The token that two characters spell together, where they do.
pub open spec fn pair_token(a: char, b: char) -> Option<Tok> {
    if a == '-' && b == '>' {
        Some(Tok::Arrow)
    } else if a == '=' && b == '=' {
        Some(Tok::EqEq)
    } else if a == '!' && b == '=' {
        Some(Tok::NotEq)
    } else if a == '<' && b == '=' {
        Some(Tok::LtEq)
    } else if a == '>' && b == '=' {
        Some(Tok::GtEq)
    } else if a == '&' && b == '&' {
        Some(Tok::AndAnd)
    } else if a == '|' && b == '|' {
        Some(Tok::OrOr)
    } else {
        None
    }
}

/// The token that one character spells alone, where it does.
pub open spec fn single_token(c: char) -> Option<Tok> {
    if c == '(' {
        Some(Tok::LParen)
    } else if c == ')' {
        Some(Tok::RParen)
    } else if c == '{' {
        Some(Tok::LBrace)
    } else if c == '}' {
        Some(Tok::RBrace)
    } else if c == ':' {
        Some(Tok::Colon)
    } else if c == ',' {
        Some(Tok::Comma)
    } else if c == '=' {
        Some(Tok::Assign)
    } else if c == '+' {
        Some(Tok::Plus)
    } else if c == '-' {
        Some(Tok::Minus)
    } else if c == '*' {
        Some(Tok::Star)
    } else if c == '/' {
        Some(Tok::Slash)
    } else if c == '<' {
        Some(Tok::Lt)
    } else if c == '>' {
        Some(Tok::Gt)
    } else if c == '!' {
        Some(Tok::Bang)
    } else if c == '&' {
        Some(Tok::Amp)
    } else {
        None
    }
}

/// One token and where it ends, or the message for a byte that starts none.
pub ghost enum Scan {
    Token(STok, int),
    Fail(Seq<char>),
}

/// The token that starts at `p`, which holds neither a blank nor a comment.
pub open spec fn scan(s: Seq<u8>, p: int) -> Scan {
    let c = s[p] as char;
    if is_digit(c) {
        let e = digits_end(s, p);
        if numeral(s, p, e) <= i64::MAX {
            Scan::Token(STok::Plain(Tok::Int(numeral(s, p, e) as i64)), e)
        } else {
            Scan::Fail(
                "integer literal `"@ + ascii_text(s.subrange(p, e)) + "` out of range"@,
            )
        }
    } else if is_word_start(c) {
        let e = word_end(s, p);
        Scan::Token(word_token(ascii_text(s.subrange(p, e))), e)
    } else if p + 1 < s.len() && pair_token(c, s[p + 1] as char) is Some {
        Scan::Token(STok::Plain(pair_token(c, s[p + 1] as char)->0), p + 2)
    } else {
        match single_token(c) {
            Some(t) => Scan::Token(STok::Plain(t), p + 1),
            None => Scan::Fail("unexpected character `"@ + seq![c] + "`"@),
        }
    }
}

/// The token stream of `s` from `p` on. It ends with `Eof`, unless some byte
/// starts no token: the first such byte is the error.
pub open spec fn lex(s: Seq<u8>, p: int) -> Result<Seq<SToken>, SErr>
    decreases s.len() - p,
{
    let q = skip(s, p);
    if q < p || q >= s.len() {
        Ok(seq![SToken { tok: STok::Plain(Tok::Eof), span: span_at(s, q) }])
    } else {
        match scan(s, q) {
            Scan::Fail(message) => Err(SErr { message, span: span_at(s, q) }),
            Scan::Token(tok, e) => if e <= q || e > s.len() {
                Err(SErr { message: Seq::empty(), span: span_at(s, q) })
            } else {
                match lex(s, e) {
                    Ok(rest) => Ok(seq![SToken { tok, span: span_at(s, q) }] + rest),
                    Err(err) => Err(err),
                }
            },
        }
    }
}

pub(crate) proof fn skip_bounds(s: Seq<u8>, p: int)
    requires
        0 <= p <= s.len(),
    ensures
        p <= skip(s, p) <= s.len(),
    decreases s.len() - p,
{
    if p < s.len() {
        line_end_bounds(s, p);
        if is_blank(s[p] as char) {
            skip_bounds(s, p + 1);
        } else if is_comment(s, p) {
            skip_bounds(s, line_end(s, p));
        }
    }
}

pub(crate) proof fn run_bounds(s: Seq<u8>, p: int)
    requires
        0 <= p <= s.len(),
    ensures
        p <= digits_end(s, p) <= s.len(),
        p <= word_end(s, p) <= s.len(),
    decreases s.len() - p,
{
    if p < s.len() {
        run_bounds(s, p + 1);
    }
}

pub(crate) proof fn scan_advances(s: Seq<u8>, p: int)
    requires
        0 <= p < s.len(),
    ensures
        scan(s, p) matches Scan::Token(_, e) ==> p < e <= s.len(),
{
    run_bounds(s, p + 1);
}

proof fn line_bounds(s: Seq<u8>, p: int)
    requires
        0 <= p <= s.len(),
    ensures
        0 <= feeds(s, p) <= p,
        0 <= into_line(s, p) <= p,
    decreases p,
{
    if p > 0 {
        line_bounds(s, p - 1);
    }
}

pub struct Lexer<'a> {
    src: &'a [u8],
    pos: usize,
    line: usize,
    col: usize,
}

impl<'a> Lexer<'a> {
    /// The position and the span that goes with it.
    pub closed spec fn wf(&self) -> bool {
        self.pos <= self.src@.len() && self.mark() == span_at(self.src@, self.pos as int)
    }

    pub closed spec fn bytes(&self) -> Seq<u8> {
        self.src@
    }

    pub closed spec fn at(&self) -> int {
        self.pos as int
    }

    pub closed spec fn mark(&self) -> Span {
        Span { line: self.line, col: self.col }
    }

    /// A lexer at the start of `src`.
    pub fn new(src: &'a str) -> (r: Self)
        ensures
            r.wf(),
            r.bytes() == src.spec_bytes(),
            r.at() == 0,
            r.mark() == (Span { line: 1, col: 1 }),
    {
        Lexer { src: src.as_bytes(), pos: 0, line: 1, col: 1 }
    }

    fn peek(&self) -> (r: Option<char>)
        requires
            self.wf(),
        ensures
            r == if self.at() < self.bytes().len() {
                Some(self.bytes()[self.at()] as char)
            } else {
                None
            },
    {
        if self.pos < self.src.len() {
            Some(self.src[self.pos] as char)
        } else {
            None
        }
    }

    fn peek2(&self) -> (r: Option<char>)
        requires
            self.wf(),
        ensures
            r == if self.at() + 1 < self.bytes().len() {
                Some(self.bytes()[self.at() + 1] as char)
            } else {
                None
            },
    {
        if self.pos < self.src.len() && self.pos + 1 < self.src.len() {
            Some(self.src[self.pos + 1] as char)
        } else {
            None
        }
    }

    fn bump(&mut self)
        requires
            old(self).wf(),
            old(self).at() < old(self).bytes().len(),
        ensures
            final(self).wf(),
            final(self).bytes() == old(self).bytes(),
            final(self).at() == old(self).at() + 1,
    {
        let c = self.src[self.pos] as char;
        proof {
            line_bounds(self.src@, self.pos as int);
        }
        self.pos = self.pos + 1;
        if c == '\n' {
            if self.line < usize::MAX {
                self.line = self.line + 1;
            }
            self.col = 1;
        } else if self.col < usize::MAX {
            self.col = self.col + 1;
        }
    }

    fn span(&self) -> (r: Span)
        requires
            self.wf(),
        ensures
            r == span_at(self.bytes(), self.at()),
    {
        Span { line: self.line, col: self.col }
    }

    /// Passes over space and comments.
    pub fn skip_ws_and_comments(&mut self)
        requires
            old(self).wf(),
        ensures
            final(self).wf(),
            final(self).bytes() == old(self).bytes(),
            final(self).at() == skip(old(self).bytes(), old(self).at()),
            0 <= old(self).at() <= final(self).at() <= final(self).bytes().len(),
            old(self).mark() == span_at(old(self).bytes(), old(self).at()),
            final(self).mark() == span_at(final(self).bytes(), final(self).at()),
    {
        let ghost s = self.bytes();
        let ghost goal = skip(s, self.at());
        proof {
            skip_bounds(s, self.at());
        }
        loop
            invariant_except_break
                goal == skip(s, self.at()),
            invariant
                self.wf(),
                self.bytes() == s,
            ensures
                self.at() == goal,
            decreases s.len() - self.at(),
        {
            match self.peek() {
                Some(' ') | Some('\t') | Some('\r') | Some('\n') => {
                    self.bump();
                }
                Some('/') => {
                    let next = self.peek2();
                    let comment = match next {
                        Some('/') => true,
                        _ => false,
                    };
                    if !comment {
                        break;
                    }
                    let ghost start = self.at();
                    proof {
                        line_end_bounds(s, start);
                    }
                    self.bump();
                    while self.pos < self.src.len()
                        invariant
                            self.wf(),
                            self.bytes() == s,
                            start < self.at() <= s.len(),
                            line_end(s, self.at()) == line_end(s, start),
                        ensures
                            self.at() == line_end(s, start),
                        decreases s.len() - self.at(),
                    {
                        if self.src[self.pos] as char == '\n' {
                            break;
                        }
                        self.bump();
                    }
                }
                _ => {
                    break;
                }
            }
        }
    }

    /// Reads the run of digits at the position as a number, where it fits.
    fn number(&mut self) -> (r: Option<i64>)
        requires
            old(self).wf(),
        ensures
            final(self).wf(),
            final(self).bytes() == old(self).bytes(),
            final(self).at() == digits_end(old(self).bytes(), old(self).at()),
            ({
                let n = numeral(old(self).bytes(), old(self).at(), final(self).at());
                r == if n <= i64::MAX { Some(n as i64) } else { None }
            }),
    {
        let ghost s = self.bytes();
        let ghost start = self.at();
        let mut value: Option<i64> = Some(0);
        proof {
            run_bounds(s, start);
        }
        while self.pos < self.src.len()
            invariant
                self.wf(),
                self.bytes() == s,
                start <= self.at() <= s.len(),
                digits_end(s, self.at()) == digits_end(s, start),
                ({
                    let n = numeral(s, start, self.at());
                    value == if n <= i64::MAX { Some(n as i64) } else { None }
                }),
            ensures
                self.at() == digits_end(s, start),
            decreases s.len() - self.at(),
        {
            let c = self.src[self.pos] as char;
            if !(c >= '0' && c <= '9') {
                break;
            }
            let d: i64 = (self.src[self.pos] - 48) as i64;
            value = match value {
                None => None,
                Some(v) => if v > 922_337_203_685_477_580i64 || (v == 922_337_203_685_477_580i64
                    && d > 7) {
                    None
                } else {
                    Some(v * 10 + d)
                },
            };
            self.bump();
        }
        value
    }

    /// Passes over the run of word characters at the position.
    fn word(&mut self)
        requires
            old(self).wf(),
        ensures
            final(self).wf(),
            final(self).bytes() == old(self).bytes(),
            final(self).at() == word_end(old(self).bytes(), old(self).at()),
    {
        let ghost s = self.bytes();
        let ghost start = self.at();
        while self.pos < self.src.len()
            invariant
                self.wf(),
                self.bytes() == s,
                word_end(s, self.at()) == word_end(s, start),
            ensures
                self.at() == word_end(s, start),
            decreases s.len() - self.at(),
        {
            let c = self.src[self.pos] as char;
            let more = (c >= 'a' && c <= 'z') || (c >= 'A' && c <= 'Z') || c == '_' || (c >= '0'
                && c <= '9');
            if !more {
                break;
            }
            self.bump();
        }
    }

    /// The whole token stream, or the first error.
    pub fn tokenize(self) -> (r: Result<Vec<Token>, LexError>)
        requires
            self.wf(),
        ensures
            match r {
                Ok(v) => lex(self.bytes(), self.at()) == Ok::<Seq<SToken>, SErr>(tokens(v@)),
                Err(e) => lex(self.bytes(), self.at()) == Err::<Seq<SToken>, SErr>(e@),
            },
    {
        let mut lx = self;
        let mut out: Vec<Token> = Vec::new();
        let ghost s = lx.bytes();
        let ghost start = lx.at();
        proof {
            prepend_nothing(lex(s, start));
            assert(tokens(out@) =~= Seq::<SToken>::empty());
        }
        loop
            invariant
                lx.wf(),
                lx.bytes() == s,
                s == self.bytes(),
                start == self.at(),
                lex(s, start) == prepend(tokens(out@), lex(s, lx.at())),
            decreases s.len() - lx.at(),
        {
            let ghost p = lx.at();
            proof {
                skip_bounds(s, p);
            }
            lx.skip_ws_and_comments();
            let span = lx.span();
            let ghost q = lx.at();
            let ghost before = out@;
            let c = match lx.peek() {
                None => {
                    let t = Token { tok: Tok::Eof, span };
                    out.push(t);
                    proof {
                        assert(tokens(out@) =~= tokens(before) + seq![
                            SToken { tok: STok::Plain(Tok::Eof), span: span_at(s, q) },
                        ]);
                    }
                    return Ok(out);
                }
                Some(c) => c,
            };
            proof {
                scan_advances(s, q);
            }
            let begin: usize = lx.pos;
            let tok: Tok;
            if c >= '0' && c <= '9' {
                let n = lx.number();
                proof {
                    run_bounds(s, q);
                }
                match n {
                    None => {
                        let t = text_of(lx.src, begin, lx.pos);
                        let message = cat3("integer literal `", t.as_str(), "` out of range");
                        return Err(LexError { message, span });
                    }
                    Some(v) => {
                        tok = Tok::Int(v);
                    }
                }
            } else if (c >= 'a' && c <= 'z') || (c >= 'A' && c <= 'Z') || c == '_' {
                proof {
                    run_bounds(s, q);
                }
                lx.word();
                let t = text_of(lx.src, begin, lx.pos);
                tok = keyword(t);
            } else {
                let two = lx.peek2();
                let paired = match two {
                    Some(d) => pair(c, d),
                    None => None,
                };
                match paired {
                    Some(t) => {
                        lx.bump();
                        lx.bump();
                        tok = t;
                    }
                    None => match single(c) {
                        Some(t) => {
                            lx.bump();
                            tok = t;
                        }
                        None => {
                            let mut shown_char = String::new();
                            shown_char.push(c);
                            proof {
                                assert(shown_char@ =~= seq![c]);
                            }
                            let message = cat3("unexpected character `", shown_char.as_str(), "`");
                            return Err(LexError { message, span });
                        }
                    },
                }
            }
            let ghost made = tok@;
            out.push(Token { tok, span });
            proof {
                let one = SToken { tok: made, span: span_at(s, q) };
                assert(tokens(out@) =~= tokens(before) + seq![one]);
                prepend_step(tokens(before), one, lex(s, lx.at()));
            }
        }
    }
}

/// `r` with `head` in front of its tokens.
pub open spec fn prepend(head: Seq<SToken>, r: Result<Seq<SToken>, SErr>) -> Result<
    Seq<SToken>,
    SErr,
> {
    match r {
        Ok(rest) => Ok(head + rest),
        Err(e) => Err(e),
    }
}

proof fn prepend_nothing(r: Result<Seq<SToken>, SErr>)
    ensures
        prepend(Seq::empty(), r) == r,
{
    if let Ok(rest) = r {
        assert(Seq::<SToken>::empty() + rest =~= rest);
    }
}

proof fn prepend_step(head: Seq<SToken>, one: SToken, r: Result<Seq<SToken>, SErr>)
    ensures
        prepend(head, prepend(seq![one], r)) == prepend(head + seq![one], r),
{
    if let Ok(rest) = r {
        assert(head + (seq![one] + rest) =~= (head + seq![one]) + rest);
    }
}

fn pair(a: char, b: char) -> (r: Option<Tok>)
    ensures
        r == pair_token(a, b),
{
    if a == '-' && b == '>' {
        Some(Tok::Arrow)
    } else if a == '=' && b == '=' {
        Some(Tok::EqEq)
    } else if a == '!' && b == '=' {
        Some(Tok::NotEq)
    } else if a == '<' && b == '=' {
        Some(Tok::LtEq)
    } else if a == '>' && b == '=' {
        Some(Tok::GtEq)
    } else if a == '&' && b == '&' {
        Some(Tok::AndAnd)
    } else if a == '|' && b == '|' {
        Some(Tok::OrOr)
    } else {
        None
    }
}

fn single(c: char) -> (r: Option<Tok>)
    ensures
        r == single_token(c),
        r matches Some(t) ==> t@ == STok::Plain(t),
{
    match c {
        '(' => Some(Tok::LParen),
        ')' => Some(Tok::RParen),
        '{' => Some(Tok::LBrace),
        '}' => Some(Tok::RBrace),
        ':' => Some(Tok::Colon),
        ',' => Some(Tok::Comma),
        '=' => Some(Tok::Assign),
        '+' => Some(Tok::Plus),
        '-' => Some(Tok::Minus),
        '*' => Some(Tok::Star),
        '/' => Some(Tok::Slash),
        '<' => Some(Tok::Lt),
        '>' => Some(Tok::Gt),
        '!' => Some(Tok::Bang),
        '&' => Some(Tok::Amp),
        _ => None,
    }
}

/// Whether a word names a scalar type.
fn names_type(w: &str) -> (r: bool)
    ensures
        r == is_type_name(w@),
{
    same(w, "i8") || same(w, "i16") || same(w, "i32") || same(w, "i64") || same(w, "u8") || same(
        w,
        "u16",
    ) || same(w, "u32") || same(w, "u64") || same(w, "usize") || same(w, "bool") || same(w, "unit")
}

fn keyword(t: String) -> (r: Tok)
    ensures
        r@ == word_token(t@),
{
    let w = t.as_str();
    if same(w, "fn") {
        Tok::Fn
    } else if same(w, "let") {
        Tok::Let
    } else if same(w, "return") {
        Tok::Return
    } else if same(w, "if") {
        Tok::If
    } else if same(w, "else") {
        Tok::Else
    } else if same(w, "while") {
        Tok::While
    } else if same(w, "box") {
        Tok::Box
    } else if same(w, "spawn") {
        Tok::Spawn
    } else if same(w, "join") {
        Tok::Join
    } else if same(w, "thread") {
        Tok::Thread
    } else if same(w, "true") {
        Tok::True
    } else if same(w, "false") {
        Tok::False
    } else if names_type(w) {
        Tok::TypeName(t)
    } else {
        Tok::Ident(t)
    }
}

/// A token stream as the lexer produces it: it ends with its only `Eof`, and
/// every type name in it names a scalar type.
#[verifier::opaque]
pub open spec fn stream(ts: Seq<SToken>) -> bool {
    &&& ts.len() > 0
    &&& ts.last().tok == STok::Plain(Tok::Eof)
    &&& forall|i: int| 0 <= i < ts.len() - 1 ==> (#[trigger] ts[i]).tok != STok::Plain(Tok::Eof)
    &&& forall|i: int|
        0 <= i < ts.len() ==> ((#[trigger] ts[i]).tok matches STok::TypeName(n) ==> is_type_name(n))
}

/// Whatever the source text, a token stream that the lexer hands out ends with
/// its only `Eof` and names only scalar types as types.
pub proof fn lex_gives_stream(s: Seq<u8>, p: int)
    requires
        0 <= p <= s.len(),
    ensures
        lex(s, p) matches Ok(ts) ==> stream(ts),
    decreases s.len() - p,
{
    reveal(stream);
    skip_bounds(s, p);
    let q = skip(s, p);
    if q < s.len() {
        scan_advances(s, q);
        if let Scan::Token(tok, e) = scan(s, q) {
            lex_gives_stream(s, e);
            if let Ok(rest) = lex(s, e) {
                let ts = seq![SToken { tok, span: span_at(s, q) }] + rest;
                assert(ts.last() == rest.last());
                assert forall|i: int| 0 <= i < ts.len() implies ((#[trigger] ts[i]).tok matches STok::TypeName(
                    n,
                ) ==> is_type_name(n)) by {
                    if i > 0 {
                        assert(ts[i] == rest[i - 1]);
                    }
                }
                assert forall|i: int| 0 <= i < ts.len() - 1 implies (#[trigger] ts[i]).tok
                    != STok::Plain(Tok::Eof) by {
                    if i > 0 {
                        assert(ts[i] == rest[i - 1]);
                    }
                }
            }
        }
    }
}

} // verus!
