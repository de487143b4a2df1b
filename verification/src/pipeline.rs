//! From source text to a program that may run: it is read, its types are checked,
//! and its moves are checked. A program that fails a stage never reaches the next.
use crate::ast::Program;
use crate::interpreter::{Interpreter, Run};
use crate::machine::{begun, SState};
use crate::ownership::{OwnershipError, SMoved, check_ownership, errors_view, ownership_errors};
use crate::source::{Fault, SourceError, fault_text, parse_source, read_program};
use crate::text::{cat2, cat6, dec, dec_usize};
use crate::token::Span;
use crate::tree::SProgram;
use crate::value::{RuntimeError, SError, error_text};
use vstd::prelude::*;
use vstd::string::*;

verus! {

/// A fault that a type checker found.
#[derive(Debug, Clone)]
pub struct TypeError {
    pub message: String,
    pub span: Span,
}

/// A fault of a program that was read.
#[derive(Debug, Clone)]
pub enum Diagnostic {
    Type(TypeError),
    Ownership(OwnershipError),
    Runtime(RuntimeError),
}

pub ghost enum SDiagnostic {
    Type(Seq<char>, Span),
    Ownership(SMoved),
    Runtime(SError),
}

impl View for Diagnostic {
    type V = SDiagnostic;

    open spec fn view(&self) -> SDiagnostic {
        match *self {
            Diagnostic::Type(e) => SDiagnostic::Type(e.message@, e.span),
            Diagnostic::Ownership(e) => SDiagnostic::Ownership(e@),
            Diagnostic::Runtime(e) => SDiagnostic::Runtime(e@),
        }
    }
}

pub open spec fn place_of(d: SDiagnostic) -> Span {
    match d {
        SDiagnostic::Type(_, s) => s,
        SDiagnostic::Ownership(e) => e.span,
        SDiagnostic::Runtime(e) => e.span,
    }
}

pub open spec fn at_place(s: Span) -> Seq<char> {
    dec(s.line as int) + ":"@ + dec(s.col as int) + ": "@
}

/// A diagnostic as it is shown to the user.
pub open spec fn diagnostic_text(d: SDiagnostic) -> Seq<char> {
    match d {
        SDiagnostic::Type(m, s) => "type error: "@ + at_place(s) + m,
        SDiagnostic::Ownership(e) => "ownership error: "@ + at_place(e.span) + "use of `"@ + e.name
            + "` after it was moved"@,
        SDiagnostic::Runtime(e) => "runtime error: "@ + at_place(e.span) + error_text(e.kind),
    }
}

impl Diagnostic {
    /// Where the fault is.
    pub fn span(&self) -> (r: Span)
        ensures
            r == place_of(self@),
    {
        match self {
            Diagnostic::Type(e) => e.span,
            Diagnostic::Ownership(e) => e.span,
            Diagnostic::Runtime(e) => e.span,
        }
    }

    /// The diagnostic as it is shown to the user.
    pub fn to_text(&self) -> (r: String)
        ensures
            r@ == diagnostic_text(self@),
    {
        match self {
            Diagnostic::Type(e) => {
                let l = dec_usize(e.span.line);
                let c = dec_usize(e.span.col);
                let r = cat6("type error: ", l.as_str(), ":", c.as_str(), ": ", e.message.as_str());
                proof {
                    assert(r@ =~= diagnostic_text(self@));
                }
                r
            }
            Diagnostic::Ownership(e) => {
                let t = e.to_text();
                let r = cat2("ownership error: ", t.as_str());
                proof {
                    use_of_text();
                    assert(r@ =~= diagnostic_text(self@));
                }
                r
            }
            Diagnostic::Runtime(e) => {
                let t = e.to_text();
                let r = cat2("runtime error: ", t.as_str());
                proof {
                    assert(r@ =~= diagnostic_text(self@));
                }
                r
            }
        }
    }
}

proof fn use_of_text()
    ensures
        ": use of `"@ == ": "@ + "use of `"@,
{
    reveal_strlit(": use of `");
    reveal_strlit(": ");
    reveal_strlit("use of `");
    assert(": use of `"@ =~= ": "@ + "use of `"@);
}

/// Why a program did not run to its end.
#[derive(Debug, Clone)]
pub enum RunFailure {
    Lex(String),
    Parse(String),
    Diagnostics(Vec<Diagnostic>),
}

pub ghost enum SFailure {
    Lex(Seq<char>),
    Parse(Seq<char>),
    Diagnostics(Seq<SDiagnostic>),
}

pub open spec fn diagnostics_view(v: Seq<Diagnostic>) -> Seq<SDiagnostic> {
    Seq::new(v.len(), |i: int| v[i]@)
}

impl View for RunFailure {
    type V = SFailure;

    open spec fn view(&self) -> SFailure {
        match *self {
            RunFailure::Lex(m) => SFailure::Lex(m@),
            RunFailure::Parse(m) => SFailure::Parse(m@),
            RunFailure::Diagnostics(v) => SFailure::Diagnostics(diagnostics_view(v@)),
        }
    }
}

/// Diagnostics, one on each line.
pub open spec fn joined_lines(v: Seq<SDiagnostic>) -> Seq<char>
    decreases v.len(),
{
    if v.len() == 0 {
        Seq::empty()
    } else if v.len() == 1 {
        diagnostic_text(v[0])
    } else {
        joined_lines(v.drop_last()) + "\n"@ + diagnostic_text(v.last())
    }
}

/// A failure as it is shown to the user.
pub open spec fn failure_text(f: SFailure) -> Seq<char> {
    match f {
        SFailure::Lex(m) => m,
        SFailure::Parse(m) => m,
        SFailure::Diagnostics(v) => joined_lines(v),
    }
}

fn join_lines(v: &Vec<Diagnostic>) -> (r: String)
    ensures
        r@ == joined_lines(diagnostics_view(v@)),
{
    let ghost all = diagnostics_view(v@);
    if v.len() == 0 {
        return String::new();
    }
    let mut out = v[0].to_text();
    let mut i: usize = 1;
    proof {
        assert(all.take(1).len() == 1);
        assert(all.take(1)[0] == v@[0]@);
    }
    while i < v.len()
        invariant
            1 <= i <= v@.len(),
            all == diagnostics_view(v@),
            out@ == joined_lines(all.take(i as int)),
        decreases v@.len() - i,
    {
        let t = v[i].to_text();
        out.append("\n");
        out.append(t.as_str());
        proof {
            assert(all.take(i + 1).drop_last() =~= all.take(i as int));
            assert(all.take(i + 1).last() == v@[i as int]@);
        }
        i = i + 1;
    }
    proof {
        assert(all.take(i as int) =~= all);
    }
    out
}

impl RunFailure {
    /// The failure as it is shown to the user.
    pub fn to_text(&self) -> (r: String)
        ensures
            r@ == failure_text(self@),
    {
        match self {
            RunFailure::Lex(m) => m.clone(),
            RunFailure::Parse(m) => m.clone(),
            RunFailure::Diagnostics(v) => join_lines(v),
        }
    }
}

/// Reads a program.
pub fn read(src: &str) -> (r: Result<Program, RunFailure>)
    ensures
        match r {
            Ok(p) => read_program(src.spec_bytes()) == Ok::<SProgram, Fault>(p@),
            Err(e) => match read_program(src.spec_bytes()) {
                Ok(_) => false,
                Err(Fault::Lex(x)) => e@ == SFailure::Lex(fault_text(Fault::Lex(x))),
                Err(Fault::Parse(x)) => e@ == SFailure::Parse(fault_text(Fault::Parse(x))),
            },
        },
{
    match parse_source(src) {
        Ok(p) => Ok(p),
        Err(e) => {
            let t = e.to_text();
            match e {
                SourceError::Lex(_) => Err(RunFailure::Lex(t)),
                SourceError::Parse(_) => Err(RunFailure::Parse(t)),
            }
        }
    }
}

pub open spec fn type_diagnostics(v: Seq<TypeError>) -> Seq<SDiagnostic> {
    Seq::new(v.len(), |i: int| SDiagnostic::Type(v[i].message@, v[i].span))
}

pub open spec fn move_diagnostics(v: Seq<SMoved>) -> Seq<SDiagnostic> {
    Seq::new(v.len(), |i: int| SDiagnostic::Ownership(v[i]))
}

/// The faults of a program that was read, given what its type checker found: moves
/// are looked at where the types are right.
pub open spec fn static_faults(p: Program, types: Seq<TypeError>) -> Seq<SDiagnostic> {
    if types.len() > 0 {
        type_diagnostics(types)
    } else {
        move_diagnostics(ownership_errors(p))
    }
}

/// Whether a program may run.
pub fn check_program(program: &Program, types: &Vec<TypeError>) -> (r: Result<(), RunFailure>)
    ensures
        match r {
            Ok(_) => static_faults(*program, types@).len() == 0,
            Err(e) => static_faults(*program, types@).len() > 0 && e@ == SFailure::Diagnostics(
                static_faults(*program, types@),
            ),
        },
{
    if types.len() > 0 {
        let mut out: Vec<Diagnostic> = Vec::new();
        let mut i: usize = 0;
        while i < types.len()
            invariant
                i <= types@.len(),
                out@.len() == i,
                forall|j: int|
                    0 <= j < i ==> (#[trigger] out@[j])@ == SDiagnostic::Type(
                        types@[j].message@,
                        types@[j].span,
                    ),
            decreases types@.len() - i,
        {
            out.push(
                Diagnostic::Type(
                    TypeError { message: types[i].message.clone(), span: types[i].span },
                ),
            );
            i = i + 1;
        }
        proof {
            assert(diagnostics_view(out@) =~= type_diagnostics(types@));
        }
        return Err(RunFailure::Diagnostics(out));
    }
    match check_ownership(program) {
        Ok(_) => Ok(()),
        Err(errors) => {
            let ghost all = errors_view(errors@);
            let mut rest = errors;
            let mut out: Vec<Diagnostic> = Vec::new();
            while rest.len() > 0
                invariant
                    all == errors_view(errors@),
                    rest@.len() <= errors@.len(),
                    rest@ == errors@.skip(errors@.len() - rest@.len()),
                    out@.len() == errors@.len() - rest@.len(),
                    forall|j: int|
                        0 <= j < out@.len() ==> (#[trigger] out@[j])@ == SDiagnostic::Ownership(
                            all[j],
                        ),
                decreases rest@.len(),
            {
                let e = rest.remove(0);
                let ghost k = out@.len();
                proof {
                    assert(e == errors@[k as int]);
                    assert(all[k as int] == e@);
                    assert(rest@ =~= errors@.skip(errors@.len() - rest@.len()));
                }
                out.push(Diagnostic::Ownership(e));
            }
            proof {
                assert(diagnostics_view(out@) =~= move_diagnostics(ownership_errors(*program)));
            }
            Err(RunFailure::Diagnostics(out))
        }
    }
}

/// How a program starts: with a call of `main`, or not at all where it has a fault.
pub open spec fn started(p: Program, types: Seq<TypeError>) -> Result<SState, SFailure> {
    let faults = static_faults(p, types);
    if faults.len() > 0 {
        Err(SFailure::Diagnostics(faults))
    } else {
        Ok(begun(p, "main"@, Seq::empty(), Span { line: 0, col: 0 }))
    }
}

/// The same, with a failure as it is shown to the user.
pub open spec fn started_plainly(p: Program, types: Seq<TypeError>) -> Result<SState, Seq<char>> {
    match started(p, types) {
        Ok(s) => Ok(s),
        Err(f) => Err(failure_text(f)),
    }
}

/// Starts a program that has no fault. What keeps it from running comes as
/// diagnostics.
pub fn start_diagnostic<'a>(program: &'a Program, types: &Vec<TypeError>) -> (r: Result<
    Run<'a>,
    RunFailure,
>)
    ensures
        match r {
            Ok(run) => run.wf() && *run.program == *program && started(*program, types@) == Ok::<
                SState,
                SFailure,
            >(run@),
            Err(e) => started(*program, types@) == Err::<SState, SFailure>(e@),
        },
{
    match check_program(program, types) {
        Ok(_) => Ok(Interpreter::new(program).run_main()),
        Err(e) => Err(e),
    }
}

/// Starts a program that has no fault. What keeps it from running comes as text.
pub fn start<'a>(program: &'a Program, types: &Vec<TypeError>) -> (r: Result<Run<'a>, String>)
    ensures
        match r {
            Ok(run) => run.wf() && *run.program == *program && started_plainly(*program, types@)
                == Ok::<SState, Seq<char>>(run@),
            Err(m) => started_plainly(*program, types@) == Err::<SState, Seq<char>>(m@),
        },
{
    match start_diagnostic(program, types) {
        Ok(run) => Ok(run),
        Err(e) => Err(e.to_text()),
    }
}

/// A program with a fault does not run, and both forms of starting it say the same:
/// the text is that of the diagnostics, one on each line.
pub proof fn faults_stop_a_program(p: Program, types: Seq<TypeError>)
    ensures
        started(p, types) is Err == (types.len() > 0 || ownership_errors(p).len() > 0),
        started(p, types) is Err == started_plainly(p, types) is Err,
        started(p, types) is Err ==> started(p, types) == Err::<SState, SFailure>(
            SFailure::Diagnostics(static_faults(p, types)),
        ) && started_plainly(p, types) == Err::<SState, Seq<char>>(
            joined_lines(static_faults(p, types)),
        ),
{
}

} // verus!
