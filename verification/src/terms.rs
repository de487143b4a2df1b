//! Terms over the integers, what they mean, and how they are put to a solver.
use crate::text::{cat2, cat3, cat5, cat7, dec, dec_i64, dec_u64};
use vstd::prelude::*;
use vstd::string::*;

verus! {

/// An integer term over numbered variables.
pub enum IntTerm {
    Lit(i64),
    Var(u64),
    Neg(Box<IntTerm>),
    Add(Box<IntTerm>, Box<IntTerm>),
    Sub(Box<IntTerm>, Box<IntTerm>),
    Mul(Box<IntTerm>, Box<IntTerm>),
    Ite(Box<BoolTerm>, Box<IntTerm>, Box<IntTerm>),
}

/// A claim over numbered variables.
pub enum BoolTerm {
    Lit(bool),
    Not(Box<BoolTerm>),
    And(Box<BoolTerm>, Box<BoolTerm>),
    Or(Box<BoolTerm>, Box<BoolTerm>),
    Iff(Box<BoolTerm>, Box<BoolTerm>),
    Eq(Box<IntTerm>, Box<IntTerm>),
    Lt(Box<IntTerm>, Box<IntTerm>),
    Gt(Box<IntTerm>, Box<IntTerm>),
    Le(Box<IntTerm>, Box<IntTerm>),
    Ge(Box<IntTerm>, Box<IntTerm>),
}

/// A value for each variable.
pub type Rho = spec_fn(u64) -> int;

pub open spec fn int_val(t: IntTerm, rho: Rho) -> int
    decreases t,
{
    match t {
        IntTerm::Lit(n) => n as int,
        IntTerm::Var(k) => rho(k),
        IntTerm::Neg(a) => -int_val(*a, rho),
        IntTerm::Add(a, b) => int_val(*a, rho) + int_val(*b, rho),
        IntTerm::Sub(a, b) => int_val(*a, rho) - int_val(*b, rho),
        IntTerm::Mul(a, b) => int_val(*a, rho) * int_val(*b, rho),
        IntTerm::Ite(c, a, b) => if bool_val(*c, rho) {
            int_val(*a, rho)
        } else {
            int_val(*b, rho)
        },
    }
}

pub open spec fn bool_val(t: BoolTerm, rho: Rho) -> bool
    decreases t,
{
    match t {
        BoolTerm::Lit(b) => b,
        BoolTerm::Not(a) => !bool_val(*a, rho),
        BoolTerm::And(a, b) => bool_val(*a, rho) && bool_val(*b, rho),
        BoolTerm::Or(a, b) => bool_val(*a, rho) || bool_val(*b, rho),
        BoolTerm::Iff(a, b) => bool_val(*a, rho) == bool_val(*b, rho),
        BoolTerm::Eq(a, b) => int_val(*a, rho) == int_val(*b, rho),
        BoolTerm::Lt(a, b) => int_val(*a, rho) < int_val(*b, rho),
        BoolTerm::Gt(a, b) => int_val(*a, rho) > int_val(*b, rho),
        BoolTerm::Le(a, b) => int_val(*a, rho) <= int_val(*b, rho),
        BoolTerm::Ge(a, b) => int_val(*a, rho) >= int_val(*b, rho),
    }
}

/// The variables of `t` are numbered below `n`.
pub open spec fn int_below(t: IntTerm, n: u64) -> bool
    decreases t,
{
    match t {
        IntTerm::Lit(_) => true,
        IntTerm::Var(k) => k < n,
        IntTerm::Neg(a) => int_below(*a, n),
        IntTerm::Add(a, b) | IntTerm::Sub(a, b) | IntTerm::Mul(a, b) => int_below(*a, n)
            && int_below(*b, n),
        IntTerm::Ite(c, a, b) => bool_below(*c, n) && int_below(*a, n) && int_below(*b, n),
    }
}

pub open spec fn bool_below(t: BoolTerm, n: u64) -> bool
    decreases t,
{
    match t {
        BoolTerm::Lit(_) => true,
        BoolTerm::Not(a) => bool_below(*a, n),
        BoolTerm::And(a, b) | BoolTerm::Or(a, b) | BoolTerm::Iff(a, b) => bool_below(*a, n)
            && bool_below(*b, n),
        BoolTerm::Eq(a, b)
        | BoolTerm::Lt(a, b)
        | BoolTerm::Gt(a, b)
        | BoolTerm::Le(a, b)
        | BoolTerm::Ge(a, b) => int_below(*a, n) && int_below(*b, n),
    }
}

pub open spec fn all_below(s: Seq<BoolTerm>, n: u64) -> bool {
    forall|i: int| 0 <= i < s.len() ==> bool_below(#[trigger] s[i], n)
}

/// Every claim holds.
pub open spec fn satisfied(s: Seq<BoolTerm>, rho: Rho) -> bool {
    forall|i: int| 0 <= i < s.len() ==> bool_val(#[trigger] s[i], rho)
}

/// The values of the variables below `n` are the same.
pub open spec fn agree(a: Rho, b: Rho, n: u64) -> bool {
    forall|k: u64| k < n ==> #[trigger] a(k) == b(k)
}

pub(crate) proof fn int_agree(t: IntTerm, a: Rho, b: Rho, n: u64)
    requires
        int_below(t, n),
        agree(a, b, n),
    ensures
        int_val(t, a) == int_val(t, b),
    decreases t,
{
    match t {
        IntTerm::Lit(_) => {}
        IntTerm::Var(k) => {
            assert(a(k) == b(k));
        }
        IntTerm::Neg(x) => int_agree(*x, a, b, n),
        IntTerm::Add(x, y) | IntTerm::Sub(x, y) | IntTerm::Mul(x, y) => {
            int_agree(*x, a, b, n);
            int_agree(*y, a, b, n);
        }
        IntTerm::Ite(c, x, y) => {
            bool_agree(*c, a, b, n);
            int_agree(*x, a, b, n);
            int_agree(*y, a, b, n);
        }
    }
}

pub(crate) proof fn bool_agree(t: BoolTerm, a: Rho, b: Rho, n: u64)
    requires
        bool_below(t, n),
        agree(a, b, n),
    ensures
        bool_val(t, a) == bool_val(t, b),
    decreases t,
{
    match t {
        BoolTerm::Lit(_) => {}
        BoolTerm::Not(x) => bool_agree(*x, a, b, n),
        BoolTerm::And(x, y) | BoolTerm::Or(x, y) | BoolTerm::Iff(x, y) => {
            bool_agree(*x, a, b, n);
            bool_agree(*y, a, b, n);
        }
        BoolTerm::Eq(x, y)
        | BoolTerm::Lt(x, y)
        | BoolTerm::Gt(x, y)
        | BoolTerm::Le(x, y)
        | BoolTerm::Ge(x, y) => {
            int_agree(*x, a, b, n);
            int_agree(*y, a, b, n);
        }
    }
}

pub(crate) proof fn all_agree(s: Seq<BoolTerm>, a: Rho, b: Rho, n: u64)
    requires
        all_below(s, n),
        agree(a, b, n),
        satisfied(s, a),
    ensures
        satisfied(s, b),
{
    assert forall|i: int| 0 <= i < s.len() implies bool_val(#[trigger] s[i], b) by {
        bool_agree(s[i], a, b, n);
    }
}

pub(crate) proof fn int_wider(t: IntTerm, n: u64, m: u64)
    requires
        int_below(t, n),
        n <= m,
    ensures
        int_below(t, m),
    decreases t,
{
    match t {
        IntTerm::Lit(_) | IntTerm::Var(_) => {}
        IntTerm::Neg(x) => int_wider(*x, n, m),
        IntTerm::Add(x, y) | IntTerm::Sub(x, y) | IntTerm::Mul(x, y) => {
            int_wider(*x, n, m);
            int_wider(*y, n, m);
        }
        IntTerm::Ite(c, x, y) => {
            bool_wider(*c, n, m);
            int_wider(*x, n, m);
            int_wider(*y, n, m);
        }
    }
}

pub(crate) proof fn bool_wider(t: BoolTerm, n: u64, m: u64)
    requires
        bool_below(t, n),
        n <= m,
    ensures
        bool_below(t, m),
    decreases t,
{
    match t {
        BoolTerm::Lit(_) => {}
        BoolTerm::Not(x) => bool_wider(*x, n, m),
        BoolTerm::And(x, y) | BoolTerm::Or(x, y) | BoolTerm::Iff(x, y) => {
            bool_wider(*x, n, m);
            bool_wider(*y, n, m);
        }
        BoolTerm::Eq(x, y)
        | BoolTerm::Lt(x, y)
        | BoolTerm::Gt(x, y)
        | BoolTerm::Le(x, y)
        | BoolTerm::Ge(x, y) => {
            int_wider(*x, n, m);
            int_wider(*y, n, m);
        }
    }
}

pub(crate) proof fn all_wider(s: Seq<BoolTerm>, n: u64, m: u64)
    requires
        all_below(s, n),
        n <= m,
    ensures
        all_below(s, m),
{
    assert forall|i: int| 0 <= i < s.len() implies bool_below(#[trigger] s[i], m) by {
        bool_wider(s[i], n, m);
    }
}

/// The conjunction of all claims.
pub open spec fn all(s: Seq<BoolTerm>) -> BoolTerm
    decreases s.len(),
{
    if s.len() == 0 {
        BoolTerm::Lit(true)
    } else {
        BoolTerm::And(Box::new(all(s.drop_last())), Box::new(s.last()))
    }
}

pub(crate) proof fn all_val(s: Seq<BoolTerm>, rho: Rho)
    ensures
        bool_val(all(s), rho) == satisfied(s, rho),
    decreases s.len(),
{
    if s.len() > 0 {
        let d = s.drop_last();
        all_val(d, rho);
        if bool_val(all(s), rho) {
            assert forall|i: int| 0 <= i < s.len() implies bool_val(#[trigger] s[i], rho) by {
                if i < d.len() {
                    assert(d[i] == s[i]);
                }
            }
        }
        if satisfied(s, rho) {
            assert forall|i: int| 0 <= i < d.len() implies bool_val(#[trigger] d[i], rho) by {
                assert(d[i] == s[i]);
            }
            assert(bool_val(s[s.len() - 1], rho));
        }
    }
}

pub(crate) proof fn all_bounded(s: Seq<BoolTerm>, n: u64)
    requires
        all_below(s, n),
    ensures
        bool_below(all(s), n),
    decreases s.len(),
{
    if s.len() > 0 {
        let d = s.drop_last();
        assert forall|i: int| 0 <= i < d.len() implies bool_below(#[trigger] d[i], n) by {
            assert(d[i] == s[i]);
        }
        all_bounded(d, n);
        assert(bool_below(s[s.len() - 1], n));
    }
}

/// One of two cases, with what holds in each.
pub open spec fn cases(c: BoolTerm, a: Seq<BoolTerm>, b: Seq<BoolTerm>) -> BoolTerm {
    BoolTerm::Or(
        Box::new(BoolTerm::And(Box::new(c), Box::new(all(a)))),
        Box::new(BoolTerm::And(Box::new(BoolTerm::Not(Box::new(c))), Box::new(all(b)))),
    )
}

impl IntTerm {
    pub fn duplicate(&self) -> (r: IntTerm)
        ensures
            r == *self,
        decreases self,
    {
        match self {
            IntTerm::Lit(n) => IntTerm::Lit(*n),
            IntTerm::Var(k) => IntTerm::Var(*k),
            IntTerm::Neg(a) => IntTerm::Neg(Box::new(a.duplicate())),
            IntTerm::Add(a, b) => IntTerm::Add(Box::new(a.duplicate()), Box::new(b.duplicate())),
            IntTerm::Sub(a, b) => IntTerm::Sub(Box::new(a.duplicate()), Box::new(b.duplicate())),
            IntTerm::Mul(a, b) => IntTerm::Mul(Box::new(a.duplicate()), Box::new(b.duplicate())),
            IntTerm::Ite(c, a, b) => IntTerm::Ite(
                Box::new(c.duplicate()),
                Box::new(a.duplicate()),
                Box::new(b.duplicate()),
            ),
        }
    }

    /// The term as the solver reads it.
    pub fn to_text(&self) -> (r: String)
        ensures
            r@ == int_text(*self),
        decreases self,
    {
        match self {
            IntTerm::Lit(n) => literal_text(*n),
            IntTerm::Var(k) => variable(*k),
            IntTerm::Neg(a) => {
                let x = a.to_text();
                cat3("(- ", x.as_str(), ")")
            }
            IntTerm::Add(a, b) => {
                let x = a.to_text();
                let y = b.to_text();
                cat5("(+ ", x.as_str(), " ", y.as_str(), ")")
            }
            IntTerm::Sub(a, b) => {
                let x = a.to_text();
                let y = b.to_text();
                cat5("(- ", x.as_str(), " ", y.as_str(), ")")
            }
            IntTerm::Mul(a, b) => {
                let x = a.to_text();
                let y = b.to_text();
                cat5("(* ", x.as_str(), " ", y.as_str(), ")")
            }
            IntTerm::Ite(c, a, b) => {
                let z = c.to_text();
                let x = a.to_text();
                let y = b.to_text();
                cat7("(ite ", z.as_str(), " ", x.as_str(), " ", y.as_str(), ")")
            }
        }
    }
}

impl BoolTerm {
    pub fn duplicate(&self) -> (r: BoolTerm)
        ensures
            r == *self,
        decreases self,
    {
        match self {
            BoolTerm::Lit(b) => BoolTerm::Lit(*b),
            BoolTerm::Not(a) => BoolTerm::Not(Box::new(a.duplicate())),
            BoolTerm::And(a, b) => BoolTerm::And(Box::new(a.duplicate()), Box::new(b.duplicate())),
            BoolTerm::Or(a, b) => BoolTerm::Or(Box::new(a.duplicate()), Box::new(b.duplicate())),
            BoolTerm::Iff(a, b) => BoolTerm::Iff(Box::new(a.duplicate()), Box::new(b.duplicate())),
            BoolTerm::Eq(a, b) => BoolTerm::Eq(Box::new(a.duplicate()), Box::new(b.duplicate())),
            BoolTerm::Lt(a, b) => BoolTerm::Lt(Box::new(a.duplicate()), Box::new(b.duplicate())),
            BoolTerm::Gt(a, b) => BoolTerm::Gt(Box::new(a.duplicate()), Box::new(b.duplicate())),
            BoolTerm::Le(a, b) => BoolTerm::Le(Box::new(a.duplicate()), Box::new(b.duplicate())),
            BoolTerm::Ge(a, b) => BoolTerm::Ge(Box::new(a.duplicate()), Box::new(b.duplicate())),
        }
    }

    /// The claim as the solver reads it.
    pub fn to_text(&self) -> (r: String)
        ensures
            r@ == bool_text(*self),
        decreases self,
    {
        match self {
            BoolTerm::Lit(b) => if *b {
                "true".to_owned()
            } else {
                "false".to_owned()
            },
            BoolTerm::Not(a) => {
                let x = a.to_text();
                cat3("(not ", x.as_str(), ")")
            }
            BoolTerm::And(a, b) => {
                let x = a.to_text();
                let y = b.to_text();
                cat5("(and ", x.as_str(), " ", y.as_str(), ")")
            }
            BoolTerm::Or(a, b) => {
                let x = a.to_text();
                let y = b.to_text();
                cat5("(or ", x.as_str(), " ", y.as_str(), ")")
            }
            BoolTerm::Iff(a, b) => {
                let x = a.to_text();
                let y = b.to_text();
                cat5("(= ", x.as_str(), " ", y.as_str(), ")")
            }
            BoolTerm::Eq(a, b) => {
                let x = a.to_text();
                let y = b.to_text();
                cat5("(= ", x.as_str(), " ", y.as_str(), ")")
            }
            BoolTerm::Lt(a, b) => {
                let x = a.to_text();
                let y = b.to_text();
                cat5("(< ", x.as_str(), " ", y.as_str(), ")")
            }
            BoolTerm::Gt(a, b) => {
                let x = a.to_text();
                let y = b.to_text();
                cat5("(> ", x.as_str(), " ", y.as_str(), ")")
            }
            BoolTerm::Le(a, b) => {
                let x = a.to_text();
                let y = b.to_text();
                cat5("(<= ", x.as_str(), " ", y.as_str(), ")")
            }
            BoolTerm::Ge(a, b) => {
                let x = a.to_text();
                let y = b.to_text();
                cat5("(>= ", x.as_str(), " ", y.as_str(), ")")
            }
        }
    }
}

/// The conjunction of all claims.
pub fn conjoin(v: &[BoolTerm]) -> (r: BoolTerm)
    ensures
        r == all(v@),
{
    let mut out = BoolTerm::Lit(true);
    let mut i: usize = 0;
    proof {
        assert(v@.take(0).len() == 0);
    }
    while i < v.len()
        invariant
            i <= v@.len(),
            out == all(v@.take(i as int)),
        decreases v@.len() - i,
    {
        out = BoolTerm::And(Box::new(out), Box::new(v[i].duplicate()));
        proof {
            assert(v@.take(i + 1).drop_last() =~= v@.take(i as int));
        }
        i = i + 1;
    }
    proof {
        assert(v@.take(i as int) =~= v@);
    }
    out
}

pub fn copy_terms(v: &Vec<BoolTerm>) -> (r: Vec<BoolTerm>)
    ensures
        r@ == v@,
{
    let mut out: Vec<BoolTerm> = Vec::new();
    let mut i: usize = 0;
    while i < v.len()
        invariant
            i <= v@.len(),
            out@ == v@.take(i as int),
        decreases v@.len() - i,
    {
        out.push(v[i].duplicate());
        proof {
            assert(v@.take(i + 1) =~= v@.take(i as int).push(v@[i as int]));
        }
        i = i + 1;
    }
    proof {
        assert(v@.take(i as int) =~= v@);
    }
    out
}

/// The name of a variable.
pub open spec fn var_name(k: u64) -> Seq<char> {
    "v"@ + dec(k as int)
}

pub fn variable(k: u64) -> (r: String)
    ensures
        r@ == var_name(k),
{
    let n = dec_u64(k);
    cat2("v", n.as_str())
}

/// A number in SMT-LIB, which has no negative literals.
pub open spec fn number_text(n: int) -> Seq<char> {
    if n < 0 {
        "(- "@ + dec(-n) + ")"@
    } else {
        dec(n)
    }
}

fn literal_text(n: i64) -> (r: String)
    ensures
        r@ == number_text(n as int),
{
    if n < 0 {
        let m: u64 = (0 - (n as i128)) as u64;
        let d = dec_u64(m);
        cat3("(- ", d.as_str(), ")")
    } else {
        dec_i64(n)
    }
}

/// A term in SMT-LIB.
pub open spec fn int_text(t: IntTerm) -> Seq<char>
    decreases t,
{
    match t {
        IntTerm::Lit(n) => number_text(n as int),
        IntTerm::Var(k) => var_name(k),
        IntTerm::Neg(a) => "(- "@ + int_text(*a) + ")"@,
        IntTerm::Add(a, b) => "(+ "@ + int_text(*a) + " "@ + int_text(*b) + ")"@,
        IntTerm::Sub(a, b) => "(- "@ + int_text(*a) + " "@ + int_text(*b) + ")"@,
        IntTerm::Mul(a, b) => "(* "@ + int_text(*a) + " "@ + int_text(*b) + ")"@,
        IntTerm::Ite(c, a, b) => "(ite "@ + bool_text(*c) + " "@ + int_text(*a) + " "@ + int_text(*b) + ")"@,
    }
}

/// A claim in SMT-LIB.
pub open spec fn bool_text(t: BoolTerm) -> Seq<char>
    decreases t,
{
    match t {
        BoolTerm::Lit(b) => if b {
            "true"@
        } else {
            "false"@
        },
        BoolTerm::Not(a) => "(not "@ + bool_text(*a) + ")"@,
        BoolTerm::And(a, b) => "(and "@ + bool_text(*a) + " "@ + bool_text(*b) + ")"@,
        BoolTerm::Or(a, b) => "(or "@ + bool_text(*a) + " "@ + bool_text(*b) + ")"@,
        BoolTerm::Iff(a, b) => "(= "@ + bool_text(*a) + " "@ + bool_text(*b) + ")"@,
        BoolTerm::Eq(a, b) => "(= "@ + int_text(*a) + " "@ + int_text(*b) + ")"@,
        BoolTerm::Lt(a, b) => "(< "@ + int_text(*a) + " "@ + int_text(*b) + ")"@,
        BoolTerm::Gt(a, b) => "(> "@ + int_text(*a) + " "@ + int_text(*b) + ")"@,
        BoolTerm::Le(a, b) => "(<= "@ + int_text(*a) + " "@ + int_text(*b) + ")"@,
        BoolTerm::Ge(a, b) => "(>= "@ + int_text(*a) + " "@ + int_text(*b) + ")"@,
    }
}

/// Declares the first `n` variables.
pub open spec fn declares(n: nat) -> Seq<char>
    decreases n,
{
    if n == 0 {
        Seq::empty()
    } else {
        declares((n - 1) as nat) + "(declare-const "@ + var_name((n - 1) as u64) + " Int)\n"@
    }
}

/// Asserts each claim.
pub open spec fn asserts(s: Seq<BoolTerm>) -> Seq<char>
    decreases s.len(),
{
    if s.len() == 0 {
        Seq::empty()
    } else {
        asserts(s.drop_last()) + "(assert "@ + bool_text(s.last()) + ")\n"@
    }
}

/// An SMT-LIB script that asserts claims over the first `n` variables.
pub open spec fn script(n: u64, s: Seq<BoolTerm>) -> Seq<char> {
    declares(n as nat) + asserts(s)
}

/// The SMT-LIB script that asserts `claims` over the first `n` variables.
pub fn script_text(n: u64, claims: &Vec<BoolTerm>) -> (r: String)
    ensures
        r@ == script(n, claims@),
{
    let mut out = String::new();
    let mut k: u64 = 0;
    proof {
        assert(out@ =~= declares(0));
    }
    while k < n
        invariant
            k <= n,
            out@ == declares(k as nat),
        decreases n - k,
    {
        let name = variable(k);
        out.append("(declare-const ");
        out.append(name.as_str());
        out.append(" Int)\n");
        k = k + 1;
    }
    let ghost head = out@;
    let mut i: usize = 0;
    proof {
        assert(claims@.take(0).len() == 0);
        assert(out@ =~= head + asserts(claims@.take(0)));
    }
    while i < claims.len()
        invariant
            i <= claims@.len(),
            head == declares(n as nat),
            out@ == head + asserts(claims@.take(i as int)),
        decreases claims@.len() - i,
    {
        let t = claims[i].to_text();
        out.append("(assert ");
        out.append(t.as_str());
        out.append(")\n");
        proof {
            assert(claims@.take(i + 1).drop_last() =~= claims@.take(i as int));
            assert(out@ =~= head + asserts(claims@.take(i + 1)));
        }
        i = i + 1;
    }
    proof {
        assert(claims@.take(i as int) =~= claims@);
    }
    out
}

/// A model that the solver found.
#[verifier::external_type_specification]
#[verifier::external_body]
pub struct ExModel(z3::Model);

/// The value that a model gives to each integer constant, by the constant's name.
pub uninterp spec fn model_values(m: z3::Model) -> Map<Seq<char>, int>;

/// The values of the numbered variables in a model.
pub open spec fn model_rho(m: z3::Model) -> Rho {
    |k: u64| model_values(m)[var_name(k)]
}

/// What the solver says of a script.
pub enum Answer {
    /// The claims hold together, in this model.
    Sat(z3::Model),
    /// No values make all claims hold.
    Unsat,
    /// The solver gave up.
    Unknown,
}

/// Puts a script to the solver: `z3::Solver::from_string`, then
/// `z3::Solver::check`, then `z3::Solver::get_model`. For a script that asserts
/// claims over declared variables, `Unsat` says that no values satisfy them, and a
/// model satisfies them. When the solver gives up is left open.
#[verifier::external_body]
pub(crate) fn ask_solver(text: &str) -> (r: Answer)
    requires
        exists|n: u64, s: Seq<BoolTerm>| all_below(s, n) && text@ == #[trigger] script(n, s),
    ensures
        forall|n: u64, s: Seq<BoolTerm>|
            all_below(s, n) && text@ == #[trigger] script(n, s) ==> match r {
                Answer::Sat(m) => satisfied(s, model_rho(m)),
                Answer::Unsat => forall|rho: Rho| !#[trigger] satisfied(s, rho),
                Answer::Unknown => true,
            },
{
    let solver = z3::Solver::new();
    solver.from_string(text);
    match solver.check() {
        z3::SatResult::Sat => match solver.get_model() {
            Some(model) => Answer::Sat(model),
            None => Answer::Unknown,
        },
        z3::SatResult::Unsat => Answer::Unsat,
        z3::SatResult::Unknown => Answer::Unknown,
    }
}

/// Reads an integer constant off a model: `z3::Model::eval` with completion, then
/// `z3::ast::Int::as_i64`, which has a result where the value fits.
#[verifier::external_body]
pub(crate) fn read_model(m: &z3::Model, name: &str) -> (r: Option<i64>)
    requires
        exists|k: u64| name@ == #[trigger] var_name(k),
    ensures
        match r {
            Some(v) => model_values(*m)[name@] == v,
            None => !(i64::MIN <= model_values(*m)[name@] <= i64::MAX),
        },
{
    m.eval(&z3::ast::Int::new_const(name), true).and_then(|v| v.as_i64())
}

/// The value of a variable in a model, where it fits.
pub fn model_value(m: &z3::Model, k: u64) -> (r: Option<i64>)
    ensures
        match r {
            Some(v) => model_rho(*m)(k) == v,
            None => !(i64::MIN <= model_rho(*m)(k) <= i64::MAX),
        },
{
    let name = variable(k);
    read_model(m, name.as_str())
}

/// Whether some values make all claims hold.
pub fn solve(n: u64, claims: &Vec<BoolTerm>) -> (r: Answer)
    requires
        all_below(claims@, n),
    ensures
        match r {
            Answer::Sat(m) => satisfied(claims@, model_rho(m)),
            Answer::Unsat => forall|rho: Rho| !#[trigger] satisfied(claims@, rho),
            Answer::Unknown => true,
        },
{
    let text = script_text(n, claims);
    ask_solver(text.as_str())
}

} // verus!
