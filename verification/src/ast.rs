//! The syntax tree. The meaning of a compound node is a function of the
//! meanings of its parts alone, so every pass has one case per node kind.
use crate::text::{cat2, cat3, cat5, cat7, dec, dec_nat, dec_usize, same};
use crate::token::{FloatLit, Span};
use vstd::arithmetic::power2::{lemma2_to64, lemma2_to64_rest, pow2};
use vstd::prelude::*;
use vstd::string::*;

verus! {

/// A type. Not `Copy`: `Ty::Box` owns a nested type, and a value of it has one
/// owner at a time.
#[derive(Debug)]
pub enum Ty {
    I8,
    I16,
    I32,
    I64,
    U8,
    U16,
    U32,
    U64,
    Usize,
    Bool,
    Unit,
    F64,
    Str,
    /// A heap-allocated cell with a single owner.
    Box(Box<Ty>),
    /// A shared, read-only borrow. Freely copyable, whatever it points at.
    Ref(Box<Ty>),
    /// The handle of a spawned computation; it can be joined once.
    Thread(Box<Ty>),
    /// A channel handle. It names a queue and is used many times.
    Channel(Box<Ty>),
    Sandbox,
    Tcp,
    TcpListener,
    File,
    Vector(Box<Ty>, usize),
    Matrix(Box<Ty>, usize, usize),
    /// A declared struct or enum, with its type arguments.
    Named(String, Vec<Ty>),
    /// The type of an expression that has already been reported as wrong.
    Error,
}

/// A type, with its name and arguments as sequences.
pub ghost enum STy {
    I8,
    I16,
    I32,
    I64,
    U8,
    U16,
    U32,
    U64,
    Usize,
    Bool,
    Unit,
    F64,
    Str,
    Box(Box<STy>),
    Ref(Box<STy>),
    Thread(Box<STy>),
    Channel(Box<STy>),
    Sandbox,
    Tcp,
    TcpListener,
    File,
    Vector(Box<STy>, usize),
    Matrix(Box<STy>, usize, usize),
    Named(Seq<char>, Seq<STy>),
    Error,
}

pub open spec fn ty_view(t: Ty) -> STy
    decreases t,
{
    match t {
        Ty::I8 => STy::I8,
        Ty::I16 => STy::I16,
        Ty::I32 => STy::I32,
        Ty::I64 => STy::I64,
        Ty::U8 => STy::U8,
        Ty::U16 => STy::U16,
        Ty::U32 => STy::U32,
        Ty::U64 => STy::U64,
        Ty::Usize => STy::Usize,
        Ty::Bool => STy::Bool,
        Ty::Unit => STy::Unit,
        Ty::F64 => STy::F64,
        Ty::Str => STy::Str,
        Ty::Box(x) => STy::Box(Box::new(ty_view(*x))),
        Ty::Ref(x) => STy::Ref(Box::new(ty_view(*x))),
        Ty::Thread(x) => STy::Thread(Box::new(ty_view(*x))),
        Ty::Channel(x) => STy::Channel(Box::new(ty_view(*x))),
        Ty::Sandbox => STy::Sandbox,
        Ty::Tcp => STy::Tcp,
        Ty::TcpListener => STy::TcpListener,
        Ty::File => STy::File,
        Ty::Vector(x, n) => STy::Vector(Box::new(ty_view(*x)), n),
        Ty::Matrix(x, r, c) => STy::Matrix(Box::new(ty_view(*x)), r, c),
        Ty::Named(n, args) => STy::Named(n@, tys_view(args@)),
        Ty::Error => STy::Error,
    }
}

/// Each type of a sequence by its view.
pub open spec fn tys_view(v: Seq<Ty>) -> Seq<STy>
    decreases v,
{
    Seq::new(v.len(), |i: int| if 0 <= i < v.len() { ty_view(v[i]) } else { STy::Error })
}

impl View for Ty {
    type V = STy;

    open spec fn view(&self) -> STy {
        ty_view(*self)
    }
}

/// The type arguments separated by `, `.
pub open spec fn names_of(v: Seq<STy>) -> Seq<char>
    decreases v,
{
    if v.len() == 0 {
        Seq::empty()
    } else if v.len() == 1 {
        name_of(v[0])
    } else {
        names_of(v.drop_last()) + ", "@ + name_of(v.last())
    }
}

/// A type as it is written in a program.
pub open spec fn name_of(t: STy) -> Seq<char>
    decreases t,
{
    match t {
        STy::I8 => "i8"@,
        STy::I16 => "i16"@,
        STy::I32 => "i32"@,
        STy::I64 => "i64"@,
        STy::U8 => "u8"@,
        STy::U16 => "u16"@,
        STy::U32 => "u32"@,
        STy::U64 => "u64"@,
        STy::Usize => "usize"@,
        STy::Bool => "bool"@,
        STy::Unit => "unit"@,
        STy::F64 => "f64"@,
        STy::Str => "str"@,
        STy::Box(x) => "box "@ + name_of(*x),
        STy::Ref(x) => "&"@ + name_of(*x),
        STy::Thread(x) => "thread "@ + name_of(*x),
        STy::Channel(x) => "chan "@ + name_of(*x),
        STy::Sandbox => "sandbox"@,
        STy::Tcp => "tcp"@,
        STy::TcpListener => "tcp_listener"@,
        STy::File => "file"@,
        STy::Vector(x, n) => "Vector("@ + name_of(*x) + ", "@ + dec(n as int) + ")"@,
        STy::Matrix(x, r, c) => "Matrix("@ + name_of(*x) + ", "@ + dec(r as int) + ", "@ + dec(
            c as int,
        ) + ")"@,
        STy::Named(n, args) => if args.len() == 0 {
            n
        } else {
            n + "<"@ + names_of(args) + ">"@
        },
        STy::Error => "<error>"@,
    }
}

/// The scalar type that a name stands for.
pub open spec fn ty_named(name: Seq<char>) -> Option<STy> {
    if name == "i8"@ {
        Some(STy::I8)
    } else if name == "i16"@ {
        Some(STy::I16)
    } else if name == "i32"@ {
        Some(STy::I32)
    } else if name == "i64"@ {
        Some(STy::I64)
    } else if name == "u8"@ {
        Some(STy::U8)
    } else if name == "u16"@ {
        Some(STy::U16)
    } else if name == "u32"@ {
        Some(STy::U32)
    } else if name == "u64"@ {
        Some(STy::U64)
    } else if name == "usize"@ {
        Some(STy::Usize)
    } else if name == "bool"@ {
        Some(STy::Bool)
    } else if name == "unit"@ {
        Some(STy::Unit)
    } else {
        None
    }
}

pub open spec fn integer(t: STy) -> bool {
    match t {
        STy::I8 | STy::I16 | STy::I32 | STy::I64 | STy::U8 | STy::U16 | STy::U32 | STy::U64
        | STy::Usize => true,
        _ => false,
    }
}

/// Whether a value of the type has exactly one owner at a time.
pub open spec fn affine(t: STy) -> bool {
    match t {
        STy::Box(_) | STy::Thread(_) | STy::Sandbox | STy::Tcp | STy::TcpListener | STy::File => true,
        _ => false,
    }
}

/// The least value of a type. The full range where it is not an integer type.
pub open spec fn least(t: STy) -> int {
    match t {
        STy::I8 => i8::MIN as int,
        STy::I16 => i16::MIN as int,
        STy::I32 => i32::MIN as int,
        STy::U8 | STy::U16 | STy::U32 | STy::U64 | STy::Usize => 0,
        _ => i64::MIN as int,
    }
}

/// The greatest value of a type. Every integer is held in an `i64`, so that
/// `u64` and `usize` end where `i64` does.
pub open spec fn greatest(t: STy) -> int {
    match t {
        STy::I8 => i8::MAX as int,
        STy::I16 => i16::MAX as int,
        STy::I32 => i32::MAX as int,
        STy::U8 => u8::MAX as int,
        STy::U16 => u16::MAX as int,
        STy::U32 => u32::MAX as int,
        _ => i64::MAX as int,
    }
}

impl Ty {
    /// The scalar type that `name` stands for.
    pub fn from_name(name: &str) -> (r: Option<Ty>)
        ensures
            match r {
                Some(t) => ty_named(name@) == Some(t@),
                None => ty_named(name@) is None,
            },
    {
        if same(name, "i8") {
            Some(Ty::I8)
        } else if same(name, "i16") {
            Some(Ty::I16)
        } else if same(name, "i32") {
            Some(Ty::I32)
        } else if same(name, "i64") {
            Some(Ty::I64)
        } else if same(name, "u8") {
            Some(Ty::U8)
        } else if same(name, "u16") {
            Some(Ty::U16)
        } else if same(name, "u32") {
            Some(Ty::U32)
        } else if same(name, "u64") {
            Some(Ty::U64)
        } else if same(name, "usize") {
            Some(Ty::Usize)
        } else if same(name, "bool") {
            Some(Ty::Bool)
        } else if same(name, "unit") {
            Some(Ty::Unit)
        } else {
            None
        }
    }

    /// The type as it is written in a program.
    #[verifier::loop_isolation(false)]
    pub fn name(&self) -> (r: String)
        ensures
            r@ == name_of(self@),
        decreases self,
    {
        match self {
            Ty::I8 => "i8".to_owned(),
            Ty::I16 => "i16".to_owned(),
            Ty::I32 => "i32".to_owned(),
            Ty::I64 => "i64".to_owned(),
            Ty::U8 => "u8".to_owned(),
            Ty::U16 => "u16".to_owned(),
            Ty::U32 => "u32".to_owned(),
            Ty::U64 => "u64".to_owned(),
            Ty::Usize => "usize".to_owned(),
            Ty::Bool => "bool".to_owned(),
            Ty::Unit => "unit".to_owned(),
            Ty::F64 => "f64".to_owned(),
            Ty::Str => "str".to_owned(),
            Ty::Box(x) => {
                let n = x.name();
                cat2("box ", n.as_str())
            }
            Ty::Ref(x) => {
                let n = x.name();
                cat2("&", n.as_str())
            }
            Ty::Thread(x) => {
                let n = x.name();
                cat2("thread ", n.as_str())
            }
            Ty::Channel(x) => {
                let n = x.name();
                cat2("chan ", n.as_str())
            }
            Ty::Sandbox => "sandbox".to_owned(),
            Ty::Tcp => "tcp".to_owned(),
            Ty::TcpListener => "tcp_listener".to_owned(),
            Ty::File => "file".to_owned(),
            Ty::Vector(x, n) => {
                let name = x.name();
                let len = dec_usize(*n);
                cat5("Vector(", name.as_str(), ", ", len.as_str(), ")")
            }
            Ty::Matrix(x, r, c) => {
                let name = x.name();
                let rows = dec_usize(*r);
                let cols = dec_usize(*c);
                cat7("Matrix(", name.as_str(), ", ", rows.as_str(), ", ", cols.as_str(), ")")
            }
            Ty::Named(n, args) => {
                proof {
                    assert(tys_view(args@).len() == args@.len());
                }
                if args.len() == 0 {
                    return n.clone();
                }
                let mut inner = args[0].name();
                let mut i: usize = 1;
                proof {
                    assert(tys_view(args@).take(1).len() == 1);
                }
                while i < args.len()
                    invariant
                        1 <= i <= args.len(),
                        *self == Ty::Named(*n, *args),
                        inner@ == names_of(tys_view(args@).take(i as int)),
                    decreases args.len() - i,
                {
                    let next = args[i].name();
                    inner.append(", ");
                    inner.append(next.as_str());
                    proof {
                        let v = tys_view(args@);
                        assert(v.take(i + 1).drop_last() =~= v.take(i as int));
                        assert(v.take(i + 1).last() == v[i as int]);
                    }
                    i = i + 1;
                }
                proof {
                    assert(tys_view(args@).take(i as int) =~= tys_view(args@));
                }
                let mut s = cat3(n.as_str(), "<", inner.as_str());
                s.append(">");
                s
            }
            Ty::Error => "<error>".to_owned(),
        }
    }

    pub fn is_integer(&self) -> (r: bool)
        ensures
            r == integer(self@),
    {
        match self {
            Ty::I8
            | Ty::I16
            | Ty::I32
            | Ty::I64
            | Ty::U8
            | Ty::U16
            | Ty::U32
            | Ty::U64
            | Ty::Usize => true,
            _ => false,
        }
    }

    /// Whether a value of this type has exactly one owner at a time, so that
    /// using it moves it. A shared borrow never does, whatever it points at.
    pub fn is_affine(&self) -> (r: bool)
        ensures
            r == affine(self@),
            self@ is Box ==> r,
            self@ is Ref || self@ is Bool || self@ is Unit || integer(self@) ==> !r,
    {
        match self {
            Ty::Box(_)
            | Ty::Thread(_)
            | Ty::Sandbox
            | Ty::Tcp
            | Ty::TcpListener
            | Ty::File => true,
            _ => false,
        }
    }

    /// Whether `v` is a value of this integer type.
    pub fn in_range(&self, v: i64) -> (r: bool)
        ensures
            r == (integer(self@) && least(self@) <= v <= greatest(self@)),
    {
        if !self.is_integer() {
            return false;
        }
        let (lo, hi) = self.bounds();
        lo <= v && v <= hi
    }

    /// The least and the greatest value of this type.
    pub fn bounds(&self) -> (r: (i64, i64))
        ensures
            r.0 == least(self@),
            r.1 == greatest(self@),
    {
        match self {
            Ty::I8 => (-128, 127),
            Ty::I16 => (-32_768, 32_767),
            Ty::I32 => (-2_147_483_648, 2_147_483_647),
            Ty::U8 => (0, 255),
            Ty::U16 => (0, 65_535),
            Ty::U32 => (0, 4_294_967_295),
            Ty::U64 | Ty::Usize => (0, i64::MAX),
            _ => (i64::MIN, i64::MAX),
        }
    }

    /// Another value of the same type.
    #[verifier::loop_isolation(false)]
    pub fn duplicate(&self) -> (r: Ty)
        ensures
            r@ == self@,
        decreases self,
    {
        match self {
            Ty::I8 => Ty::I8,
            Ty::I16 => Ty::I16,
            Ty::I32 => Ty::I32,
            Ty::I64 => Ty::I64,
            Ty::U8 => Ty::U8,
            Ty::U16 => Ty::U16,
            Ty::U32 => Ty::U32,
            Ty::U64 => Ty::U64,
            Ty::Usize => Ty::Usize,
            Ty::Bool => Ty::Bool,
            Ty::Unit => Ty::Unit,
            Ty::F64 => Ty::F64,
            Ty::Str => Ty::Str,
            Ty::Box(x) => Ty::Box(Box::new(x.duplicate())),
            Ty::Ref(x) => Ty::Ref(Box::new(x.duplicate())),
            Ty::Thread(x) => Ty::Thread(Box::new(x.duplicate())),
            Ty::Channel(x) => Ty::Channel(Box::new(x.duplicate())),
            Ty::Sandbox => Ty::Sandbox,
            Ty::Tcp => Ty::Tcp,
            Ty::TcpListener => Ty::TcpListener,
            Ty::File => Ty::File,
            Ty::Vector(x, n) => Ty::Vector(Box::new(x.duplicate()), *n),
            Ty::Matrix(x, r, c) => Ty::Matrix(Box::new(x.duplicate()), *r, *c),
            Ty::Named(n, args) => {
                let mut v: Vec<Ty> = Vec::new();
                let mut i: usize = 0;
                while i < args.len()
                    invariant
                        i <= args.len(),
                        *self == Ty::Named(*n, *args),
                        tys_view(v@) =~= tys_view(args@).take(i as int),
                    decreases args.len() - i,
                {
                    let t = args[i].duplicate();
                    v.push(t);
                    i = i + 1;
                }
                proof {
                    assert(tys_view(v@) =~= tys_view(args@));
                }
                Ty::Named(n.clone(), v)
            }
            Ty::Error => Ty::Error,
        }
    }
}

impl Clone for Ty {
    fn clone(&self) -> (r: Self)
        ensures
            r@ == self@,
    {
        self.duplicate()
    }
}

/// An effect that running a function can have.
#[derive(Debug, Clone, Copy, PartialEq, Eq, Structural)]
pub enum Effect {
    Rng,
    Io,
    Concurrent,
    Network,
}

/// A set of effects; none of them is `pure`.
#[derive(Debug, Clone, Copy, PartialEq, Eq, Structural)]
pub struct EffectSet {
    pub rng: bool,
    pub io: bool,
    pub concurrent: bool,
    pub network: bool,
}

#[derive(Debug)]
pub struct Param {
    pub name: String,
    pub ty: Ty,
}

#[derive(Debug)]
pub struct Field {
    pub name: String,
    pub ty: Ty,
}

#[derive(Debug)]
pub struct StructDecl {
    pub name: String,
    pub fields: Vec<Field>,
    pub span: Span,
}

#[derive(Debug)]
pub struct Variant {
    pub name: String,
    pub payload: Vec<Ty>,
    pub span: Span,
}

#[derive(Debug)]
pub struct EnumDecl {
    pub name: String,
    pub variants: Vec<Variant>,
    pub span: Span,
}

/// What a caller's verified identity must carry before a function may be
/// called over the network.
#[derive(Debug)]
pub enum Requirement {
    Role(String),
    Claim(String, String),
}

#[derive(Debug)]
pub struct FnDecl {
    pub name: String,
    pub params: Vec<Param>,
    pub ret: Ty,
    pub body: Block,
    pub span: Span,
    /// The `effect(..)` annotation; `None` where there is none.
    pub declared_effects: Option<EffectSet>,
    pub requirement: Option<Requirement>,
}

#[derive(Debug)]
pub struct Block {
    pub stmts: Vec<Stmt>,
}

#[derive(Debug)]
#[allow(inconsistent_fields)]
pub enum Stmt {
    Let { name: String, ty: Ty, value: Expr, span: Span },
    Return { value: Option<Expr>, span: Span },
    While { cond: Expr, body: Block, span: Span },
    /// A block whose run-time guards are waived, for the stated reason.
    Audited { justification: String, body: Vec<Stmt>, span: Span },
    Expr(Expr),
}

#[derive(Debug, Clone, Copy, PartialEq, Eq, Structural)]
pub enum BinOp {
    Add,
    Sub,
    Mul,
    Div,
    ElemMul,
    ElemDiv,
    Eq,
    NotEq,
    Lt,
    Gt,
    LtEq,
    GtEq,
    And,
    Or,
}

#[derive(Debug, Clone, Copy, PartialEq, Eq, Structural)]
pub enum UnOp {
    Neg,
    Not,
}

#[derive(Debug)]
pub enum Expr {
    Int(i64, Span),
    Float(FloatLit, Span),
    Bool(bool, Span),
    Str(String, Span),
    Ident(String, Span),
    Unary(UnOp, Box<Expr>, Span),
    Binary(BinOp, Box<Expr>, Box<Expr>, Span),
    Call(String, Vec<Expr>, Span),
    If { cond: Box<Expr>, then_block: Block, else_block: Option<Box<ElseBranch>>, span: Span },
    /// `x = expr` gives an existing binding a new value.
    Assign(String, Box<Expr>, Span),
    /// `box expr` puts a value on the heap.
    Box(Box<Expr>, Span),
    /// `*expr` reads a value out of a box or through a borrow.
    Deref(Box<Expr>, Span),
    /// `&x` borrows a binding; the operand is a plain name.
    Ref(Box<Expr>, Span),
    Spawn(String, Vec<Expr>, Span),
    Join(Box<Expr>, Span),
    Chan(Span),
    Send(Box<Expr>, Box<Expr>, Span),
    Recv(Box<Expr>, Span),
    SpawnSandbox(String, Vec<Expr>, Span),
    StopSandbox(Box<Expr>, Span),
    Connect(Box<Expr>, Box<Expr>, Span),
    Listen(Box<Expr>, Span),
    Accept(Box<Expr>, Span),
    Open(Box<Expr>, Box<Expr>, Span),
    /// `v[i]` or `m[i, j]`: one bracket group holds all indices.
    Index(Box<Expr>, Vec<Expr>, Span),
    /// `[a, b, ..]`, never empty: a vector, or a matrix where the elements are rows.
    ArrayLit(Vec<Expr>, Span),
    FieldAccess(Box<Expr>, String, Span),
    Match { scrutinee: Box<Expr>, arms: Vec<MatchArm>, span: Span },
    Transact {
        network: TransactSlot,
        verify: TransactSlot,
        commit: TransactSlot,
        compensate: Option<TransactSlot>,
        log: Option<TransactSlot>,
        span: Span,
    },
}

#[derive(Debug)]
pub enum ElseBranch {
    Block(Block),
    If(Expr),
}

#[derive(Debug)]
pub struct MatchArm {
    pub variant: String,
    pub bindings: Vec<String>,
    pub body: Box<Expr>,
    pub span: Span,
}

/// One step of a `transact`: a call of a named function.
#[derive(Debug)]
pub struct TransactSlot {
    pub name: String,
    pub args: Vec<Expr>,
    pub span: Span,
}

#[derive(Debug)]
pub struct Program {
    pub fns: Vec<FnDecl>,
    pub structs: Vec<StructDecl>,
    pub enums: Vec<EnumDecl>,
}

/// The position that a node reports.
pub open spec fn span_of(e: Expr) -> Span {
    match e {
        Expr::Int(_, s)
        | Expr::Float(_, s)
        | Expr::Bool(_, s)
        | Expr::Str(_, s)
        | Expr::Ident(_, s)
        | Expr::Unary(_, _, s)
        | Expr::Binary(_, _, _, s)
        | Expr::Call(_, _, s)
        | Expr::If { span: s, .. }
        | Expr::Assign(_, _, s)
        | Expr::Box(_, s)
        | Expr::Deref(_, s)
        | Expr::Ref(_, s)
        | Expr::Spawn(_, _, s)
        | Expr::Join(_, s)
        | Expr::Chan(s)
        | Expr::Send(_, _, s)
        | Expr::Recv(_, s)
        | Expr::SpawnSandbox(_, _, s)
        | Expr::StopSandbox(_, s)
        | Expr::Connect(_, _, s)
        | Expr::Listen(_, s)
        | Expr::Accept(_, s)
        | Expr::Open(_, _, s)
        | Expr::Index(_, _, s)
        | Expr::ArrayLit(_, s)
        | Expr::FieldAccess(_, _, s)
        | Expr::Match { span: s, .. }
        | Expr::Transact { span: s, .. } => s,
    }
}

impl Expr {
    /// The position that this node reports.
    pub fn span(&self) -> (r: Span)
        ensures
            r == span_of(*self),
    {
        match self {
            Expr::Int(_, s)
            | Expr::Float(_, s)
            | Expr::Bool(_, s)
            | Expr::Str(_, s)
            | Expr::Ident(_, s)
            | Expr::Unary(_, _, s)
            | Expr::Binary(_, _, _, s)
            | Expr::Call(_, _, s)
            | Expr::If { span: s, .. }
            | Expr::Assign(_, _, s)
            | Expr::Box(_, s)
            | Expr::Deref(_, s)
            | Expr::Ref(_, s)
            | Expr::Spawn(_, _, s)
            | Expr::Join(_, s)
            | Expr::Chan(s)
            | Expr::Send(_, _, s)
            | Expr::Recv(_, s)
            | Expr::SpawnSandbox(_, _, s)
            | Expr::StopSandbox(_, s)
            | Expr::Connect(_, _, s)
            | Expr::Listen(_, s)
            | Expr::Accept(_, s)
            | Expr::Open(_, _, s)
            | Expr::Index(_, _, s)
            | Expr::ArrayLit(_, s)
            | Expr::FieldAccess(_, _, s)
            | Expr::Match { span: s, .. }
            | Expr::Transact { span: s, .. } => *s,
        }
    }
}

/// `-n` in 64-bit two's complement.
pub open spec fn negated(n: i64) -> i64 {
    if n == i64::MIN {
        n
    } else {
        (-n) as i64
    }
}

/// The value of an integer literal with any number of minus signs before it.
pub open spec fn literal(e: Expr) -> Option<i64>
    decreases e,
{
    match e {
        Expr::Int(n, _) => Some(n),
        Expr::Unary(UnOp::Neg, inner, _) => match literal(*inner) {
            Some(n) => Some(negated(n)),
            None => None,
        },
        _ => None,
    }
}

/// The value of `e` where it is, as it is written, an integer literal with any
/// number of minus signs before it. A variable that holds a literal is none.
pub fn literal_value(e: &Expr) -> (r: Option<i64>)
    ensures
        r == literal(*e),
    decreases e,
{
    match e {
        Expr::Int(n, _) => Some(*n),
        Expr::Unary(UnOp::Neg, inner, _) => match literal_value(inner) {
            Some(n) => if n == i64::MIN {
                Some(n)
            } else {
                Some(-n)
            },
            None => None,
        },
        _ => None,
    }
}

/// Every scalar type is found again by its name.
pub proof fn scalar_name_round_trip(name: Seq<char>)
    ensures
        ty_named(name) matches Some(t) ==> name_of(t) == name,
{
}

/// Every integer type holds zero and some number above it, and no number that an
/// `i64` does not hold.
pub proof fn bounds_are_tight(t: STy)
    requires
        integer(t),
    ensures
        i64::MIN <= least(t) <= 0 < greatest(t) <= i64::MAX,
{
}

/// A box has one owner, whatever is in it; an integer, a truth value, nothing and a
/// shared borrow are copied, whatever is borrowed. Handles of what runs or is open
/// outside have one owner too; a channel, a text, a number and what is made of them are
/// copied.
pub proof fn boxes_have_one_owner(t: STy, n: usize, m: usize, name: Seq<char>, args: Seq<STy>)
    ensures
        affine(STy::Box(Box::new(t))),
        !affine(STy::Ref(Box::new(t))),
        integer(t) ==> !affine(t),
        !affine(STy::Bool) && !affine(STy::Unit) && !affine(STy::F64) && !affine(STy::Str),
        affine(STy::Thread(Box::new(t))),
        affine(STy::Sandbox) && affine(STy::Tcp) && affine(STy::TcpListener) && affine(STy::File),
        !affine(STy::Channel(Box::new(t))),
        !affine(STy::Vector(Box::new(t), n)) && !affine(STy::Matrix(Box::new(t), n, m)),
        !affine(STy::Named(name, args)),
{
}

/// How many bits an integer type has.
pub open spec fn width(t: STy) -> nat {
    match t {
        STy::I8 | STy::U8 => 8,
        STy::I16 | STy::U16 => 16,
        STy::I32 | STy::U32 => 32,
        _ => 64,
    }
}

/// Whether an integer type has negative numbers.
pub open spec fn signed(t: STy) -> bool {
    t is I8 || t is I16 || t is I32 || t is I64
}

/// The range of an integer type is that of its bits: with a sign, half of the numbers
/// are negative; without one, none is, and of the widest only those that an `i64` holds
/// are there.
pub proof fn ranges_come_from_bits(t: STy)
    requires
        integer(t),
    ensures
        signed(t) ==> least(t) == -pow2((width(t) - 1) as nat) && greatest(t) == pow2(
            (width(t) - 1) as nat,
        ) - 1,
        !signed(t) ==> least(t) == 0,
        !signed(t) && width(t) < 64 ==> greatest(t) == pow2(width(t)) - 1,
        !signed(t) && width(t) == 64 ==> greatest(t) == pow2(63) - 1,
{
    lemma2_to64();
    lemma2_to64_rest();
}

/// The name of a fixed-width integer type is a letter for its sign and the number of
/// its bits.
pub proof fn names_tell_the_width(t: STy)
    requires
        integer(t),
        !(t is Usize),
    ensures
        name_of(t) == (if signed(t) {
            seq!['i']
        } else {
            seq!['u']
        }) + dec(width(t) as int),
{
    reveal_strlit("i8");
    reveal_strlit("i16");
    reveal_strlit("i32");
    reveal_strlit("i64");
    reveal_strlit("u8");
    reveal_strlit("u16");
    reveal_strlit("u32");
    reveal_strlit("u64");
    reveal_with_fuel(dec_nat, 3);
    assert(dec(8) =~= seq!['8']);
    assert(dec(16) =~= seq!['1', '6']);
    assert(dec(32) =~= seq!['3', '2']);
    assert(dec(64) =~= seq!['6', '4']);
    assert(name_of(t) =~= (if signed(t) {
        seq!['i']
    } else {
        seq!['u']
    }) + dec(width(t) as int));
}

/// Every integer type, `bool` and `unit` are found again by their names.
pub proof fn types_are_found_by_their_names(t: STy)
    requires
        integer(t) || t is Bool || t is Unit,
    ensures
        ty_named(name_of(t)) == Some(t),
{
    reveal_strlit("i8");
    reveal_strlit("i16");
    reveal_strlit("i32");
    reveal_strlit("i64");
    reveal_strlit("u8");
    reveal_strlit("u16");
    reveal_strlit("u32");
    reveal_strlit("u64");
    reveal_strlit("usize");
    reveal_strlit("bool");
    reveal_strlit("unit");
    let w = name_of(t);
    if let Some(u) = ty_named(w) {
        assert(name_of(u) == w);
        assert(w.len() == name_of(u).len() && w[0] == name_of(u)[0] && w[1] == name_of(u)[1]);
    }
}

} // verus!
