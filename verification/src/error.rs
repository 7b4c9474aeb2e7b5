//! Errors of the engine and of specification programs.
//!
//! The Clarity toolchain's own errors (parsing, evaluation, type checking,
//! analysis) reach the library as the text they render to.

use vstd::prelude::*;
use crate::symop::FullName;
use crate::failures::ProofFailures;
use crate::text::{decimal, decimal_text, concat, push_str};
use crate::render::{name_text, name_to_text};
use crate::report::failures_text;
use crate::cli::{CheckOutcome, CheckV};

verus! {

/// Why a specification program could not be read: the line it failed near,
/// the cause, and the chain of expressions it failed in, innermost first.
#[derive(Debug, PartialEq)]
pub struct ProgramError {
    pub line_no: Option<u32>,
    pub cause: String,
    pub stack: Vec<String>,
}

#[derive(Debug, PartialEq)]
pub enum Error {
    /// Clarity AST construction error
    Parse(String),
    /// Clarity eval error
    Eval(String),
    /// Clarity VM execution error
    VM(String),
    /// Clarity type error
    Type(String),
    /// Clarity typecheck error
    Check(String),
    /// Analysis error
    Analysis(String),
    /// Generic error message
    Failed(String),
    /// Something was not found
    NotFound(String),
    /// Arithmetic overflow or underflow
    Arithmetic(String),
    /// Incomparable types
    Comparison(String),
    /// Type conversion
    Conversion(String),
    /// Re-entrancy detected
    Reentrancy(FullName),
    /// Something happened that shouldn't have
    Bug(String),
    /// Invalid input
    Invalid(String),
    /// A specification program failed to parse
    Program(ProgramError),
    /// A specification did not hold
    ProofFailure(ProofFailures),
    /// The run took longer than its time budget, in seconds
    TimedOut(u64),
    /// The run took more evaluation steps than its budget
    Budget(u64),
}

/// The text an error carries: a program error's cause, or what was not
/// found.
pub open spec fn cause_of(e: Error) -> Seq<char> {
    match e {
        Error::Program(pe) => pe.cause@,
        Error::NotFound(s) => s@,
        _ => Seq::empty(),
    }
}

impl Error {
    /// A program error with cause `msg`, no line and an empty stack.
    pub fn new_program_error(msg: String) -> (e: Self)
        ensures
            e matches Error::Program(pe) && pe.line_no is None && pe.cause@ == msg@ && pe.stack@.len() == 0,
    {
        Error::Program(ProgramError { line_no: None, cause: msg, stack: Vec::new() })
    }

    /// Places this error at line `lineno`, inside the expression `msg`: a
    /// program error gets `msg` pushed on its stack and its line set; any
    /// other error becomes a program error caused by it.
    pub fn program_error(self, lineno: u32, msg: String) -> (e: Self)
        ensures
            e matches Error::Program(pe) && pe.line_no == Some(lineno) && match self {
                Error::Program(old_pe) => pe.cause@ == old_pe.cause@ && pe.stack@ == old_pe.stack@.push(msg),
                _ => pe.cause@ == error_debug(self) && pe.stack@ == seq![msg],
            },
    {
        match self {
            Error::Program(pe) => {
                let mut pe = pe;
                pe.stack.push(msg);
                pe.line_no = Some(lineno);
                Error::Program(pe)
            },
            x => {
                let cause = x.debug_text();
                let mut stack: Vec<String> = Vec::new();
                stack.push(msg);
                Error::Program(ProgramError { line_no: Some(lineno), cause, stack })
            },
        }
    }
}

/// What `{:?}` prints for the string `s`: `s` in double quotes, with
/// quotes, backslashes and characters that do not print escaped.
pub uninterp spec fn debug_quoted_of(s: Seq<char>) -> Seq<char>;

/// Trusted: formats `s` with `str`'s `Debug` implementation
/// (`format!("{:?}", s)`). Its text is a function of `s` alone; the escaping
/// rules (those of `char::escape_debug`) are not restated here.
#[verifier::external_body]
fn debug_quoted(s: &str) -> (r: String)
    ensures
        r@ == debug_quoted_of(s@),
{
    format!("{:?}", s)
}

/// `kind(inner)`, as `{:?}` prints a variant with one field.
pub open spec fn wrap(kind: Seq<char>, inner: Seq<char>) -> Seq<char> {
    kind + "("@ + inner + ")"@
}

/// What `{:?}` prints for a line number that may be missing.
pub open spec fn line_debug(l: Option<u32>) -> Seq<char> {
    match l {
        Some(n) => wrap("Some"@, decimal(n as nat)),
        None => "None"@,
    }
}

/// The first `n` strings, each as `{:?}` prints it, separated by `, `.
pub open spec fn quoted_list(items: Seq<Seq<char>>, n: int) -> Seq<char>
    decreases n,
{
    if n <= 0 || n > items.len() {
        Seq::empty()
    } else if n == 1 {
        debug_quoted_of(items[0])
    } else {
        quoted_list(items, n - 1) + ", "@ + debug_quoted_of(items[n - 1])
    }
}

pub open spec fn texts_of(v: Seq<String>) -> Seq<Seq<char>> {
    v.map_values(|s: String| s@)
}

/// What `{:?}` prints for a program error.
pub open spec fn program_error_debug(pe: ProgramError) -> Seq<char> {
    let stack = texts_of(pe.stack@);
    "ProgramError { line_no: "@ + line_debug(pe.line_no) + ", cause: "@ + debug_quoted_of(pe.cause@) + ", stack: ["@
        + quoted_list(stack, stack.len() as int) + "] }"@
}

/// The backtrace lines of the first `n` stack entries, numbered from 0.
pub open spec fn backtrace(stack: Seq<Seq<char>>, n: int) -> Seq<char>
    decreases n,
{
    if n <= 0 || n > stack.len() {
        Seq::empty()
    } else {
        backtrace(stack, n - 1) + decimal((n - 1) as nat) + ": "@ + stack[n - 1] + "\n"@
    }
}

/// How a program error is shown: where and why it failed, then the chain
/// of expressions it failed in.
pub open spec fn program_error_text(pe: ProgramError) -> Seq<char> {
    let stack = texts_of(pe.stack@);
    (match pe.line_no {
        Some(n) => "Clairvoyance program error near line "@ + decimal(n as nat) + ": "@ + pe.cause@ + "\n"@,
        None => "Clairvoyance program error: "@ + pe.cause@ + "\n"@,
    }) + "Backtrace:\n"@ + backtrace(stack, stack.len() as int)
}

/// What `{:?}` prints for an error. An error of the Clarity toolchain
/// carries that text already; a proof failure is followed by its report.
pub open spec fn error_debug(e: Error) -> Seq<char> {
    match e {
        Error::Parse(m) => wrap("Parse"@, m@),
        Error::Eval(m) => wrap("Eval"@, m@),
        Error::VM(m) => wrap("VM"@, m@),
        Error::Type(m) => wrap("Type"@, m@),
        Error::Check(m) => wrap("Check"@, m@),
        Error::Analysis(m) => wrap("Analysis"@, m@),
        Error::Failed(m) => wrap("Failed"@, debug_quoted_of(m@)),
        Error::NotFound(m) => wrap("NotFound"@, debug_quoted_of(m@)),
        Error::Arithmetic(m) => wrap("Arithmetic"@, debug_quoted_of(m@)),
        Error::Comparison(m) => wrap("Comparison"@, debug_quoted_of(m@)),
        Error::Conversion(m) => wrap("Conversion"@, debug_quoted_of(m@)),
        Error::Reentrancy(n) => wrap("Reentrancy"@, name_text(n@)),
        Error::Bug(m) => wrap("Bug"@, debug_quoted_of(m@)),
        Error::Invalid(m) => wrap("Invalid"@, debug_quoted_of(m@)),
        Error::Program(pe) => wrap("Program"@, program_error_debug(pe)),
        Error::ProofFailure(f) => wrap("ProofFailure"@, failures_text(f@)),
        Error::TimedOut(secs) => wrap("TimedOut"@, decimal(secs as nat)),
        Error::Budget(steps) => wrap("Budget"@, decimal(steps as nat)),
    }
}

/// How an error is shown to a user.
pub open spec fn error_display(e: Error) -> Seq<char> {
    match e {
        Error::Program(pe) => "Clairvoynace was unable to parse an expression:\n"@ + program_error_text(pe) + "\n"@,
        Error::ProofFailure(f) => "Clairvoyance encountered one or more errors while checking halting states:\n"@
            + failures_text(f@) + "\n"@,
        _ => error_debug(e),
    }
}

fn wrapped(kind: &str, inner: &str) -> (s: String)
    ensures
        s@ == wrap(kind@, inner@),
{
    let s = concat(kind, "(");
    let s = concat(s.as_str(), inner);
    concat(s.as_str(), ")")
}

fn quoted_list_text(items: &Vec<String>) -> (s: String)
    ensures
        s@ == quoted_list(texts_of(items@), items@.len() as int),
{
    let ghost tv = texts_of(items@);
    let mut out = String::new();
    let mut i: usize = 0;
    while i < items.len()
        invariant
            tv == texts_of(items@),
            0 <= i <= items@.len(),
            out@ == quoted_list(tv, i as int),
        decreases items@.len() - i,
    {
        if i > 0 {
            push_str(&mut out, ", ");
        }
        push_str(&mut out, debug_quoted(items[i].as_str()).as_str());
        proof {
            assert(tv[i as int] == items@[i as int]@);
            assert(out@ =~= quoted_list(tv, i + 1));
        }
        i = i + 1;
    }
    out
}

impl ProgramError {
    /// What `{:?}` prints for this program error.
    pub fn debug_text(&self) -> (s: String)
        ensures
            s@ == program_error_debug(*self),
    {
        let line = match self.line_no {
            Some(n) => wrapped("Some", decimal_text(n as u128).as_str()),
            None => "None".to_owned(),
        };
        let s = concat("ProgramError { line_no: ", line.as_str());
        let s = concat(s.as_str(), ", cause: ");
        let s = concat(s.as_str(), debug_quoted(self.cause.as_str()).as_str());
        let s = concat(s.as_str(), ", stack: [");
        let s = concat(s.as_str(), quoted_list_text(&self.stack).as_str());
        concat(s.as_str(), "] }")
    }

    /// How this program error is shown to a user.
    pub fn to_text(&self) -> (s: String)
        ensures
            s@ == program_error_text(*self),
    {
        let mut out = match self.line_no {
            Some(n) => {
                let s = concat("Clairvoyance program error near line ", decimal_text(n as u128).as_str());
                let s = concat(s.as_str(), ": ");
                let s = concat(s.as_str(), self.cause.as_str());
                concat(s.as_str(), "\n")
            },
            None => {
                let s = concat("Clairvoyance program error: ", self.cause.as_str());
                concat(s.as_str(), "\n")
            },
        };
        push_str(&mut out, "Backtrace:\n");
        let ghost head = out@;
        let ghost tv = texts_of(self.stack@);
        let mut i: usize = 0;
        while i < self.stack.len()
            invariant
                tv == texts_of(self.stack@),
                0 <= i <= self.stack@.len(),
                out@ == head + backtrace(tv, i as int),
            decreases self.stack@.len() - i,
        {
            push_str(&mut out, decimal_text(i as u128).as_str());
            push_str(&mut out, ": ");
            push_str(&mut out, self.stack[i].as_str());
            push_str(&mut out, "\n");
            proof {
                assert(tv[i as int] == self.stack@[i as int]@);
                assert(out@ =~= head + backtrace(tv, i + 1));
            }
            i = i + 1;
        }
        out
    }
}

impl Error {
    /// What `{:?}` prints for this error.
    pub fn debug_text(&self) -> (s: String)
        ensures
            s@ == error_debug(*self),
    {
        match self {
            Error::Parse(m) => wrapped("Parse", m.as_str()),
            Error::Eval(m) => wrapped("Eval", m.as_str()),
            Error::VM(m) => wrapped("VM", m.as_str()),
            Error::Type(m) => wrapped("Type", m.as_str()),
            Error::Check(m) => wrapped("Check", m.as_str()),
            Error::Analysis(m) => wrapped("Analysis", m.as_str()),
            Error::Failed(m) => wrapped("Failed", debug_quoted(m.as_str()).as_str()),
            Error::NotFound(m) => wrapped("NotFound", debug_quoted(m.as_str()).as_str()),
            Error::Arithmetic(m) => wrapped("Arithmetic", debug_quoted(m.as_str()).as_str()),
            Error::Comparison(m) => wrapped("Comparison", debug_quoted(m.as_str()).as_str()),
            Error::Conversion(m) => wrapped("Conversion", debug_quoted(m.as_str()).as_str()),
            Error::Reentrancy(n) => wrapped("Reentrancy", name_to_text(n).as_str()),
            Error::Bug(m) => wrapped("Bug", debug_quoted(m.as_str()).as_str()),
            Error::Invalid(m) => wrapped("Invalid", debug_quoted(m.as_str()).as_str()),
            Error::Program(pe) => wrapped("Program", pe.debug_text().as_str()),
            Error::ProofFailure(f) => wrapped("ProofFailure", f.to_text().as_str()),
            Error::TimedOut(secs) => wrapped("TimedOut", decimal_text(*secs as u128).as_str()),
            Error::Budget(steps) => wrapped("Budget", decimal_text(*steps as u128).as_str()),
        }
    }

    /// How this error is shown to a user.
    pub fn to_text(&self) -> (s: String)
        ensures
            s@ == error_display(*self),
    {
        match self {
            Error::Program(pe) => {
                let s = concat("Clairvoynace was unable to parse an expression:\n", pe.to_text().as_str());
                concat(s.as_str(), "\n")
            },
            Error::ProofFailure(f) => {
                let s = concat("Clairvoyance encountered one or more errors while checking halting states:\n",
                    f.to_text().as_str());
                concat(s.as_str(), "\n")
            },
            _ => self.debug_text(),
        }
    }
}

/// The exit code and message for an engine error: 3 when a specification
/// was violated, 4 when it could not be read, 2 for any other failure.
pub open spec fn engine_error_reply(user_function: Seq<char>, e: Error) -> (i32, Seq<char>) {
    match e {
        Error::ProofFailure(f) => (3, "VIOLATED: `"@ + user_function
            + "` does not satisfy its (@clairvoyance ...) specification.\n\n"@ + failures_text(f@)),
        Error::Program(pe) => (4, "SPEC ERROR: the (@clairvoyance ...) block on `"@ + user_function + "` did not parse.\n\n"@
            + program_error_text(pe)),
        _ => (2, "ERROR: could not evaluate `"@ + user_function + "`: "@ + error_display(e)),
    }
}

/// Turns an engine error into a developer-facing message and exit code.
pub fn explain_engine_error(user_function: &str, e: &Error) -> (r: (i32, String))
    ensures
        r.0 == engine_error_reply(user_function@, *e).0,
        r.1@ == engine_error_reply(user_function@, *e).1,
{
    match e {
        Error::ProofFailure(f) => {
            let s = concat("VIOLATED: `", user_function);
            let s = concat(s.as_str(), "` does not satisfy its (@clairvoyance ...) specification.\n\n");
            (3, concat(s.as_str(), f.to_text().as_str()))
        },
        Error::Program(pe) => {
            let s = concat("SPEC ERROR: the (@clairvoyance ...) block on `", user_function);
            let s = concat(s.as_str(), "` did not parse.\n\n");
            (4, concat(s.as_str(), pe.to_text().as_str()))
        },
        _ => {
            let s = concat("ERROR: could not evaluate `", user_function);
            let s = concat(s.as_str(), "`: ");
            (2, concat(s.as_str(), e.to_text().as_str()))
        },
    }
}

/// How checking one function ended, from what the engine returned: the
/// number of terminating states, or the error.
pub open spec fn check_result(r: Result<nat, Error>) -> CheckV {
    match r {
        Ok(n) => CheckV::States(n),
        Err(Error::ProofFailure(f)) => CheckV::Violated(failures_text(f@)),
        Err(Error::Program(pe)) => CheckV::SpecError(program_error_text(pe)),
        Err(e) => CheckV::Failed(error_display(e)),
    }
}

pub fn check_outcome(r: &Result<usize, Error>) -> (o: CheckOutcome)
    ensures
        o@ == check_result(match r { Ok(n) => Ok(*n as nat), Err(e) => Err(*e) }),
{
    match r {
        Ok(n) => CheckOutcome::States(*n),
        Err(Error::ProofFailure(f)) => CheckOutcome::Violated(f.to_text()),
        Err(Error::Program(pe)) => CheckOutcome::SpecError(pe.to_text()),
        Err(e) => CheckOutcome::Failed(e.to_text()),
    }
}

} // verus!
