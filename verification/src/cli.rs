//! The `sym` command line's decisions and reports: which subcommand runs,
//! the help text, the per-function verdicts of `sym check`, and the
//! per-pair verdicts of `sym induct`, with their summaries and exit codes.

use vstd::prelude::*;
use crate::text::{decimal, decimal_text, concat, chars_of, string_from_chars};
use crate::symop::{Predicate, PredicateV, predicate_term};
use crate::state::{Continuation, ContinuationV, distinct};
use crate::render::render;
use crate::smt::Answer;
use vstd::string::StringSliceAdditionalSpecFns;

verus! {

broadcast use vstd::std_specs::vec::group_vec_axioms;

/// Usage text for the `sym` subcommands.
pub const SYM_HELP: &'static str = "clairvoyance sym -- symbolically execute and verify Clarity functions\n\
     \n\
     USAGE:\n\
     \x20 clairvoyance sym check     CONTRACT_ID CODE [FUNCTION] [options]\n\
     \x20 clairvoyance sym induct    CONTRACT_ID CODE [options]\n\
     \x20 clairvoyance sym exec-func CONTRACT_ID CODE FUNCTION  [options]\n\
     \x20 clairvoyance sym reachable CONTRACT_ID CODE FUNCTION  [options]\n\
     \x20 clairvoyance sym help\n\
     \n\
     COMMANDS:\n\
     \x20 check      Verify a function against the (@clairvoyance ...) specification\n\
     \x20            written in its doc comment, and report PASS / VIOLATED / SPEC ERROR.\n\
     \x20            Omit FUNCTION (or pass --all) to check every public and read-only\n\
     \x20            function in the contract and print a summary. Exit code is 0 only\n\
     \x20            when everything checked passes.\n\
     \x20 induct     Inductive invariant checking. For each (invariant, mutator) pair,\n\
     \x20            assume the invariant, run the mutator, and check it still holds.\n\
     \x20            Reports HOLDS / VIOLATED / NOT PROVEN. With no --invariant, every\n\
     \x20            read-only named invariant-* is used; with no --mutator, every public\n\
     \x20            function. Reports UNFINISHED for a pair that ran past --max-steps.\n\
     \x20            Options: --invariant NAME, --mutator NAME (both repeatable),\n\
     \x20            --solver PATH, --no-smt, --time-budget SECONDS, --max-steps N.\n\
     \x20 exec-func  Symbolically execute FUNCTION and print every terminating state\n\
     \x20            (path predicate, return value, and state writes). Also enforces any\n\
     \x20            (@clairvoyance ...) spec, like `check`, but prints the raw states.\n\
     \x20 reachable  Print the call graph reachable from FUNCTION (which vars/maps it may\n\
     \x20            read and write, transitively).\n\
     \n\
     ARGUMENTS:\n\
     \x20 CONTRACT_ID  Qualified contract id, e.g. SP000...000.my-contract\n\
     \x20 CODE         Path to the .clar source, or `-` to read from stdin\n\
     \x20 FUNCTION     Name of the function to analyze\n\
     \n\
     OPTIONS:\n\
     \x20 --all                        (check only) check every public/read-only function\n\
     \x20 --dep CONTRACT_ID:PATH       Load a dependency contract (repeatable). Instantiated\n\
     \x20                              in the order given, before the target.\n\
     \x20 --concretized-trait C.f.v:IMPL   Bind trait variable `v` of function `f` in contract\n\
     \x20                              `C` to a concrete implementation contract.\n\
     \x20 --default-trait TRAIT:IMPL   Bind a trait to a default implementation everywhere.\n\
     \x20 --tx-sender PRINCIPAL        Set tx-sender (default: a fresh symbol).\n\
     \x20 --contract-caller PRINCIPAL  Set contract-caller.\n\
     \x20 --tx-sponsor PRINCIPAL       Set the transaction sponsor.\n\
     \x20 --skip-function C.c.f        Do not descend into this function; treat it as opaque.\n\
     \x20 --no-explore-functions       Do not descend into any called function.\n\
     \x20 --full, -f                   Explore all paths, including pure/causally-independent\n\
     \x20                              ones normally pruned.\n\
     \x20 --solver PATH                (induct only) SMT solver to discharge the residual\n\
     \x20                              conditions the simplifier cannot. Default: $CLAIRVOYANCE_SMT,\n\
     \x20                              else z3 or cvc5 if one is on PATH.\n\
     \x20 --no-smt                     (induct only) do not use a solver, even if one is\n\
     \x20                              installed.\n\
     \x20 --time-budget SECONDS        Give up after this long and report the run as\n\
     \x20                              unfinished, rather than exploring forever.\n\
     \x20                              Defaults to 60s, per (invariant, mutator) pair for\n\
     \x20                              `induct`. An unfinished run counts against a proof,\n\
     \x20                              never for it.\n\
     \x20 --max-steps N                The same, counted in evaluation steps instead\n\
     \x20                              (default 2000000). Steps vary wildly in cost, so\n\
     \x20                              --time-budget is usually the one you want.\n\
     \n\
     SPECIFICATIONS:\n\
     \x20 A specification is a Clarity comment directly above a function, inside a\n\
     \x20 (@clairvoyance ...) block. See `clairvoyance/src/sym/command.clar` for the\n\
     \x20 grammar. In short:\n\
     \x20   (invariant RESULT CONCLUSION)  -- every state returning RESULT must imply CONCLUSION\n\
     \x20   (halt (result ...) (condition ...) (map-write ...) ...)  -- also pin the state written\n\
     \x20 A function with no specification is explored but not judged (reported as NO SPEC).\n\
     ";

/// Usage text for the `sym` subcommands.
pub fn sym_help() -> (s: String)
    ensures
        s@ == SYM_HELP@,
{
    SYM_HELP.to_owned()
}

/// The `sym` subcommands that run the engine.
#[derive(Clone, Copy, PartialEq, Eq, Structural, Debug)]
pub enum SymCommand {
    ExecFunc,
    Check,
    Induct,
    Reachable,
}

/// What `sym` does: run a subcommand on the remaining arguments, or answer
/// at once with an exit code and a message.
#[derive(Debug, PartialEq)]
pub enum SymDispatch {
    Run(SymCommand),
    Reply(i32, String),
}

/// `r` answers at once with exit code `code` and message `msg`.
pub open spec fn replies(r: SymDispatch, code: i32, msg: Seq<char>) -> bool {
    match r {
        SymDispatch::Reply(c, m) => c == code && m@ == msg,
        _ => false,
    }
}

pub open spec fn unrecognized_text(sub: Seq<char>) -> Seq<char> {
    "Unrecognized `sym` command '"@ + sub + "'. Try `sym help` for details."@
}

/// Takes the subcommand off the front of `argv` and decides what to do.
pub fn run_cli_sym(argv: &mut Vec<String>) -> (r: SymDispatch)
    ensures
        old(argv)@.len() == 0 ==> final(argv)@ == old(argv)@ && replies(r, 1, "Missing subcommand"@),
        old(argv)@.len() > 0 ==> final(argv)@ == old(argv)@.drop_first() && ({
            let sub = old(argv)@[0]@;
            if sub == "exec-func"@ {
                r == SymDispatch::Run(SymCommand::ExecFunc)
            } else if sub == "check"@ {
                r == SymDispatch::Run(SymCommand::Check)
            } else if sub == "induct"@ {
                r == SymDispatch::Run(SymCommand::Induct)
            } else if sub == "reachable"@ {
                r == SymDispatch::Run(SymCommand::Reachable)
            } else if sub == "help"@ || sub == "-h"@ || sub == "--help"@ {
                replies(r, 0, SYM_HELP@)
            } else {
                replies(r, 1, unrecognized_text(sub))
            }
        }),
{
    if argv.len() == 0 {
        return SymDispatch::Reply(1, "Missing subcommand".to_owned());
    }
    let sub = argv.remove(0);
    assert(argv@ =~= old(argv)@.drop_first());
    if sub == "exec-func".to_owned() {
        SymDispatch::Run(SymCommand::ExecFunc)
    } else if sub == "check".to_owned() {
        SymDispatch::Run(SymCommand::Check)
    } else if sub == "induct".to_owned() {
        SymDispatch::Run(SymCommand::Induct)
    } else if sub == "reachable".to_owned() {
        SymDispatch::Run(SymCommand::Reachable)
    } else if sub == "help".to_owned() || sub == "-h".to_owned() || sub == "--help".to_owned() {
        SymDispatch::Reply(0, sym_help())
    } else {
        let a = concat("Unrecognized `sym` command '", sub.as_str());
        SymDispatch::Reply(1, concat(a.as_str(), "'. Try `sym help` for details."))
    }
}

/// The closing line of `sym check` over several functions.
pub open spec fn summary_text(pass: nat, nospec: nat, fail: nat, specerr: nat, err: nat) -> Seq<char> {
    "Summary: "@ + decimal(pass) + " passed, "@ + decimal(fail) + " violated, "@ + decimal(specerr) + " spec-error, "@
        + decimal(err) + " error, "@ + decimal(nospec) + " no-spec"@
}

pub fn summary_line(pass: usize, nospec: usize, fail: usize, specerr: usize, err: usize) -> (s: String)
    ensures
        s@ == summary_text(pass as nat, nospec as nat, fail as nat, specerr as nat, err as nat),
{
    let s = concat("Summary: ", decimal_text(pass as u128).as_str());
    let s = concat(s.as_str(), " passed, ");
    let s = concat(s.as_str(), decimal_text(fail as u128).as_str());
    let s = concat(s.as_str(), " violated, ");
    let s = concat(s.as_str(), decimal_text(specerr as u128).as_str());
    let s = concat(s.as_str(), " spec-error, ");
    let s = concat(s.as_str(), decimal_text(err as u128).as_str());
    let s = concat(s.as_str(), " error, ");
    let s = concat(s.as_str(), decimal_text(nospec as u128).as_str());
    concat(s.as_str(), " no-spec")
}

/// The result an induction harness returns when the invariant does not hold
/// on entry.
pub const INDUCT_PRE_SENTINEL: &'static str = "u340282366920938463463374607431768211454";

/// The result an induction harness returns when the invariant does not hold
/// after the mutator ran.
pub const INDUCT_POST_SENTINEL: &'static str = "u340282366920938463463374607431768211455";

/// The harness's parameters `(p0 type0) (p1 type1) ...`, each after a
/// space, for the first `n` types, with prefix `p`.
pub open spec fn harness_params(p: Seq<char>, types: Seq<Seq<char>>, n: int) -> Seq<char>
    decreases n,
{
    if n <= 0 || n > types.len() {
        Seq::empty()
    } else {
        harness_params(p, types, n - 1) + " ("@ + p + decimal((n - 1) as nat) + " "@ + types[n - 1] + ")"@
    }
}

/// The arguments ` p0 p1 ...` for `n` parameters with prefix `p`.
pub open spec fn harness_args(p: Seq<char>, n: int) -> Seq<char>
    decreases n,
{
    if n <= 0 {
        Seq::empty()
    } else {
        harness_args(p, n - 1) + " "@ + p + decimal((n - 1) as nat)
    }
}

/// A public function, appended to the contract, that assumes the invariant
/// on entry, runs the mutator with fresh symbolic arguments, and asserts the
/// invariant still holds:
///
/// ```text
/// (define-public (HARNESS (m0 T) ... (i0 U) ...)
///   (begin
///     (asserts! (INV i0 ...) (err PRE))
///     (unwrap-panic (MUT m0 ...))
///     (asserts! (INV i0 ...) (err POST))
///     (ok true)))
/// ```
pub open spec fn harness_text(name: Seq<char>, mutator: Seq<char>, mut_types: Seq<Seq<char>>, inv: Seq<char>, inv_types: Seq<Seq<char>>) -> Seq<char> {
    let sig = harness_params("m"@, mut_types, mut_types.len() as int) + harness_params("i"@, inv_types, inv_types.len() as int);
    let mut_args = harness_args("m"@, mut_types.len() as int);
    let inv_args = harness_args("i"@, inv_types.len() as int);
    "\n(define-public ("@ + name + sig + ")\n  (begin\n    (asserts! ("@ + inv + inv_args + ") (err "@
        + INDUCT_PRE_SENTINEL@ + "))\n    (unwrap-panic ("@ + mutator + mut_args + "))\n    (asserts! ("@ + inv
        + inv_args + ") (err "@ + INDUCT_POST_SENTINEL@ + "))\n    (ok true)))\n"@
}

fn params_text(p: &str, types: &Vec<String>) -> (r: (String, String))
    ensures
        r.0@ == harness_params(p@, types.deep_view(), types@.len() as int),
        r.1@ == harness_args(p@, types@.len() as int),
{
    let mut sig = String::new();
    let mut args = String::new();
    let mut i: usize = 0;
    while i < types.len()
        invariant
            0 <= i <= types@.len(),
            sig@ == harness_params(p@, types.deep_view(), i as int),
            args@ == harness_args(p@, i as int),
        decreases types@.len() - i,
    {
        let n = decimal_text(i as u128);
        let a = concat(sig.as_str(), " (");
        let a = concat(a.as_str(), p);
        let a = concat(a.as_str(), n.as_str());
        let a = concat(a.as_str(), " ");
        let a = concat(a.as_str(), types[i].as_str());
        sig = concat(a.as_str(), ")");
        let b = concat(args.as_str(), " ");
        let b = concat(b.as_str(), p);
        args = concat(b.as_str(), n.as_str());
        proof {
            assert(sig@ =~= harness_params(p@, types.deep_view(), i + 1));
            assert(args@ =~= harness_args(p@, i + 1));
        }
        i = i + 1;
    }
    (sig, args)
}

/// Builds the induction harness for `mutator` and `invariant`.
pub fn build_induction_harness(harness_name: &str, mutator: &str, mut_param_types: &Vec<String>, inv: &str, inv_param_types: &Vec<String>) -> (s: String)
    ensures
        s@ == harness_text(harness_name@, mutator@, mut_param_types.deep_view(), inv@, inv_param_types.deep_view()),
{
    let (msig, margs) = params_text("m", mut_param_types);
    let (isig, iargs) = params_text("i", inv_param_types);
    let s = concat("\n(define-public (", harness_name);
    let s = concat(s.as_str(), msig.as_str());
    let s = concat(s.as_str(), isig.as_str());
    let s = concat(s.as_str(), ")\n  (begin\n    (asserts! (");
    let s = concat(s.as_str(), inv);
    let s = concat(s.as_str(), iargs.as_str());
    let s = concat(s.as_str(), ") (err ");
    let s = concat(s.as_str(), INDUCT_PRE_SENTINEL);
    let s = concat(s.as_str(), "))\n    (unwrap-panic (");
    let s = concat(s.as_str(), mutator);
    let s = concat(s.as_str(), margs.as_str());
    let s = concat(s.as_str(), "))\n    (asserts! (");
    let s = concat(s.as_str(), inv);
    let s = concat(s.as_str(), iargs.as_str());
    let s = concat(s.as_str(), ") (err ");
    let s = concat(s.as_str(), INDUCT_POST_SENTINEL);
    let s = concat(s.as_str(), "))\n    (ok true)))\n");
    proof {
        assert(s@ =~= harness_text(harness_name@, mutator@, mut_param_types.deep_view(), inv@, inv_param_types.deep_view()));
    }
    s
}

/// The name of the harness for a mutator and an invariant.
pub fn harness_name(mutator: &str, inv: &str) -> (s: String)
    ensures
        s@ == "clv-induct-"@ + mutator@ + "-"@ + inv@,
{
    let s = concat("clv-induct-", mutator);
    let s = concat(s.as_str(), "-");
    let s = concat(s.as_str(), inv);
    assert(s@ =~= "clv-induct-"@ + mutator@ + "-"@ + inv@);
    s
}


/// How checking one function ended: with its terminating states counted,
/// with its specification violated (the report), with its specification
/// unreadable (the program error), or with an engine error (its text).
#[derive(Debug, PartialEq)]
pub enum CheckOutcome {
    States(usize),
    Violated(String),
    SpecError(String),
    Failed(String),
}

pub enum CheckV {
    States(nat),
    Violated(Seq<char>),
    SpecError(Seq<char>),
    Failed(Seq<char>),
}

impl View for CheckOutcome {
    type V = CheckV;

    open spec fn view(&self) -> CheckV {
        match self {
            CheckOutcome::States(n) => CheckV::States(*n as nat),
            CheckOutcome::Violated(t) => CheckV::Violated(t@),
            CheckOutcome::SpecError(t) => CheckV::SpecError(t@),
            CheckOutcome::Failed(t) => CheckV::Failed(t@),
        }
    }
}

pub open spec fn outcomes_view(v: Seq<(String, CheckOutcome)>) -> Seq<(Seq<char>, CheckV)> {
    v.map_values(|e: (String, CheckOutcome)| (e.0@, e.1@))
}

/// The report line for one function; with several functions checked, a
/// failure is only named.
pub open spec fn check_line(func: Seq<char>, o: CheckV, has_spec: bool, multi: bool) -> Seq<char> {
    match o {
        CheckV::States(n) => if has_spec {
            "  PASS      "@ + func + "  ("@ + decimal(n) + " state(s))\n"@
        } else {
            "  NO SPEC   "@ + func + "  ("@ + decimal(n) + " state(s) explored)\n"@
        },
        CheckV::Violated(t) => if multi {
            "  VIOLATED  "@ + func + "\n"@
        } else {
            "VIOLATED: `"@ + func + "` does not satisfy its (@clairvoyance ...) specification.\n\n"@ + t + "\n"@
        },
        CheckV::SpecError(t) => if multi {
            "  SPEC ERR  "@ + func + "\n"@
        } else {
            "SPEC ERROR on `"@ + func + "`:\n\n"@ + t + "\n"@
        },
        CheckV::Failed(t) => if multi {
            "  ERROR     "@ + func + "  ("@ + t + ")\n"@
        } else {
            "ERROR evaluating `"@ + func + "`: "@ + t + "\n"@
        },
    }
}

pub open spec fn check_lines(outs: Seq<(Seq<char>, CheckV)>, has_spec: bool, multi: bool, n: int) -> Seq<char>
    decreases n,
{
    if n <= 0 || n > outs.len() {
        Seq::empty()
    } else {
        check_lines(outs, has_spec, multi, n - 1) + check_line(outs[n - 1].0, outs[n - 1].1, has_spec, multi)
    }
}

/// How many of the first `n` outcomes satisfy `f`.
pub open spec fn count_where(outs: Seq<(Seq<char>, CheckV)>, n: int, f: spec_fn(CheckV) -> bool) -> nat
    decreases n,
{
    if n <= 0 || n > outs.len() {
        0
    } else {
        count_where(outs, n - 1, f) + if f(outs[n - 1].1) { 1nat } else { 0nat }
    }
}

/// The exit code of `sym check`: 3 if a specification was violated, else 4
/// if one could not be read, else 2 if the engine failed, else 0.
pub open spec fn check_code(outs: Seq<(Seq<char>, CheckV)>) -> i32 {
    if exists|i: int| 0 <= i < outs.len() && outs[i].1 is Violated {
        3
    } else if exists|i: int| 0 <= i < outs.len() && outs[i].1 is SpecError {
        4
    } else if exists|i: int| 0 <= i < outs.len() && outs[i].1 is Failed {
        2
    } else {
        0
    }
}

pub const CHECK_HINT: &'static str = "\n\nRe-run `sym check <CONTRACT_ID> <CODE> <FUNCTION>` on a failing function for the full report.";

/// The report of `sym check`: one line per function, and, with several
/// functions, a heading, a summary, and a hint where any failed.
pub open spec fn check_text(contract_id: Seq<char>, outs: Seq<(Seq<char>, CheckV)>, has_spec: bool) -> Seq<char> {
    let n = outs.len() as int;
    let multi = outs.len() > 1;
    let body = check_lines(outs, has_spec, multi, n);
    if multi {
        let pass = count_where(outs, n, |o: CheckV| o is States && has_spec);
        let nospec = count_where(outs, n, |o: CheckV| o is States && !has_spec);
        let fail = count_where(outs, n, |o: CheckV| o is Violated);
        let specerr = count_where(outs, n, |o: CheckV| o is SpecError);
        let err = count_where(outs, n, |o: CheckV| o is Failed);
        let hint = if fail > 0 || specerr > 0 { CHECK_HINT@ } else { Seq::empty() };
        "Checked "@ + decimal(outs.len()) + " function(s) in "@ + contract_id + ":\n\n"@ + body + "\n"@
            + summary_text(pass, nospec, fail, specerr, err) + hint + "\n"@
    } else {
        body
    }
}

proof fn lemma_count_bound(outs: Seq<(Seq<char>, CheckV)>, n: int, f: spec_fn(CheckV) -> bool)
    requires
        0 <= n <= outs.len(),
    ensures
        count_where(outs, n, f) <= n,
        count_where(outs, n, f) > 0 <==> exists|i: int| 0 <= i < n && f(outs[i].1),
    decreases n,
{
    if n > 0 {
        lemma_count_bound(outs, n - 1, f);
        if f(outs[n - 1].1) {
            assert(exists|i: int| 0 <= i < n && f(outs[i].1)) by {
                assert(f(outs[n - 1].1));
            }
        } else {
            if exists|i: int| 0 <= i < n && f(outs[i].1) {
                let i = choose|i: int| 0 <= i < n && f(outs[i].1);
                assert(i < n - 1);
            }
        }
    }
}

fn check_line_text(func: &String, o: &CheckOutcome, has_spec: bool, multi: bool) -> (s: String)
    ensures
        s@ == check_line(func@, o@, has_spec, multi),
{
    match o {
        CheckOutcome::States(n) => {
            let d = decimal_text(*n as u128);
            if has_spec {
                let a = concat("  PASS      ", func.as_str());
                let a = concat(a.as_str(), "  (");
                let a = concat(a.as_str(), d.as_str());
                concat(a.as_str(), " state(s))\n")
            } else {
                let a = concat("  NO SPEC   ", func.as_str());
                let a = concat(a.as_str(), "  (");
                let a = concat(a.as_str(), d.as_str());
                concat(a.as_str(), " state(s) explored)\n")
            }
        },
        CheckOutcome::Violated(t) => {
            if multi {
                let a = concat("  VIOLATED  ", func.as_str());
                concat(a.as_str(), "\n")
            } else {
                let a = concat("VIOLATED: `", func.as_str());
                let a = concat(a.as_str(), "` does not satisfy its (@clairvoyance ...) specification.\n\n");
                let a = concat(a.as_str(), t.as_str());
                concat(a.as_str(), "\n")
            }
        },
        CheckOutcome::SpecError(t) => {
            if multi {
                let a = concat("  SPEC ERR  ", func.as_str());
                concat(a.as_str(), "\n")
            } else {
                let a = concat("SPEC ERROR on `", func.as_str());
                let a = concat(a.as_str(), "`:\n\n");
                let a = concat(a.as_str(), t.as_str());
                concat(a.as_str(), "\n")
            }
        },
        CheckOutcome::Failed(t) => {
            if multi {
                let a = concat("  ERROR     ", func.as_str());
                let a = concat(a.as_str(), "  (");
                let a = concat(a.as_str(), t.as_str());
                concat(a.as_str(), ")\n")
            } else {
                let a = concat("ERROR evaluating `", func.as_str());
                let a = concat(a.as_str(), "`: ");
                let a = concat(a.as_str(), t.as_str());
                concat(a.as_str(), "\n")
            }
        },
    }
}

/// The exit code and report of `sym check` over the functions checked, in
/// order, and how each ended. It exits with 0 exactly when no check failed.
pub fn check_report(contract_id: &str, outcomes: &Vec<(String, CheckOutcome)>, has_spec: bool) -> (r: (i32, String))
    ensures
        r.0 == check_code(outcomes_view(outcomes@)),
        r.1@ == check_text(contract_id@, outcomes_view(outcomes@), has_spec),
        r.0 == 0 <==> (forall|i: int| 0 <= i < outcomes@.len() ==> outcomes@[i].1 is States),
{
    let ghost outs = outcomes_view(outcomes@);
    let n = outcomes.len();
    let multi = n > 1;
    let mut body = String::new();
    let mut pass: usize = 0;
    let mut nospec: usize = 0;
    let mut fail: usize = 0;
    let mut specerr: usize = 0;
    let mut err: usize = 0;
    let mut i: usize = 0;
    while i < n
        invariant
            outs == outcomes_view(outcomes@),
            outs.len() == n,
            n == outcomes@.len(),
            multi == (n > 1),
            0 <= i <= n,
            body@ == check_lines(outs, has_spec, multi, i as int),
            pass == count_where(outs, i as int, |o: CheckV| o is States && has_spec),
            nospec == count_where(outs, i as int, |o: CheckV| o is States && !has_spec),
            fail == count_where(outs, i as int, |o: CheckV| o is Violated),
            specerr == count_where(outs, i as int, |o: CheckV| o is SpecError),
            err == count_where(outs, i as int, |o: CheckV| o is Failed),
        decreases n - i,
    {
        proof {
            lemma_count_bound(outs, i as int, |o: CheckV| o is States && has_spec);
            lemma_count_bound(outs, i as int, |o: CheckV| o is States && !has_spec);
            lemma_count_bound(outs, i as int, |o: CheckV| o is Violated);
            lemma_count_bound(outs, i as int, |o: CheckV| o is SpecError);
            lemma_count_bound(outs, i as int, |o: CheckV| o is Failed);
        }
        let line = check_line_text(&outcomes[i].0, &outcomes[i].1, has_spec, multi);
        body = concat(body.as_str(), line.as_str());
        match &outcomes[i].1 {
            CheckOutcome::States(_) => {
                if has_spec {
                    pass = pass + 1;
                } else {
                    nospec = nospec + 1;
                }
            },
            CheckOutcome::Violated(_) => {
                fail = fail + 1;
            },
            CheckOutcome::SpecError(_) => {
                specerr = specerr + 1;
            },
            CheckOutcome::Failed(_) => {
                err = err + 1;
            },
        }
        i = i + 1;
    }
    proof {
        lemma_count_bound(outs, n as int, |o: CheckV| o is Violated);
        lemma_count_bound(outs, n as int, |o: CheckV| o is SpecError);
        lemma_count_bound(outs, n as int, |o: CheckV| o is Failed);
    }
    let code: i32 = if fail > 0 { 3 } else if specerr > 0 { 4 } else if err > 0 { 2 } else { 0 };
    proof {
        if code == 0 {
            assert forall|i: int| 0 <= i < outcomes@.len() implies outcomes@[i].1 is States by {
                assert(outs[i].1 == outcomes@[i].1@);
                if !(outs[i].1 is Violated) && !(outs[i].1 is SpecError) && !(outs[i].1 is Failed) {
                } else {
                    assert(false);
                }
            }
        }
        if exists|i: int| 0 <= i < outcomes@.len() && !(outcomes@[i].1 is States) {
            let i = choose|i: int| 0 <= i < outcomes@.len() && !(outcomes@[i].1 is States);
            assert(outs[i].1 == outcomes@[i].1@);
        }
    }
    if multi {
        let a = concat("Checked ", decimal_text(n as u128).as_str());
        let a = concat(a.as_str(), " function(s) in ");
        let a = concat(a.as_str(), contract_id);
        let a = concat(a.as_str(), ":\n\n");
        let a = concat(a.as_str(), body.as_str());
        let a = concat(a.as_str(), "\n");
        let a = concat(a.as_str(), summary_line(pass, nospec, fail, specerr, err).as_str());
        let a = if fail > 0 || specerr > 0 { concat(a.as_str(), CHECK_HINT) } else { a };
        let a = concat(a.as_str(), "\n");
        (code, a)
    } else {
        (code, body)
    }
}

/// Whether the contract source carries a specification anywhere.
pub fn has_spec(src: &str) -> (r: bool)
    ensures
        r == crate::smt::contains_seq(src@, "@clairvoyance"@),
{
    crate::smt::contains_text(src, "@clairvoyance")
}


/// Whether `c` is whitespace in Unicode's sense (`char::is_whitespace`).
pub open spec fn is_ws(c: char) -> bool {
    ('\u{9}' <= c && c <= '\u{d}') || c == ' ' || c == '\u{85}' || c == '\u{a0}' || c == '\u{1680}'
        || ('\u{2000}' <= c && c <= '\u{200a}') || c == '\u{2028}' || c == '\u{2029}' || c == '\u{202f}'
        || c == '\u{205f}' || c == '\u{3000}'
}

fn is_ws_exec(c: char) -> (r: bool)
    ensures
        r == is_ws(c),
{
    ('\u{9}' <= c && c <= '\u{d}') || c == ' ' || c == '\u{85}' || c == '\u{a0}' || c == '\u{1680}'
        || ('\u{2000}' <= c && c <= '\u{200a}') || c == '\u{2028}' || c == '\u{2029}' || c == '\u{202f}'
        || c == '\u{205f}' || c == '\u{3000}'
}

/// The words of the first `n` characters of `s` (maximal runs without
/// whitespace) joined by single spaces, and whether whitespace follows the
/// last word read.
pub open spec fn collapse_prefix(s: Seq<char>, n: int) -> (Seq<char>, bool)
    decreases n,
{
    if n <= 0 || n > s.len() {
        (Seq::empty(), false)
    } else {
        let (out, gap) = collapse_prefix(s, n - 1);
        let c = s[n - 1];
        if is_ws(c) {
            (out, out.len() > 0)
        } else if gap {
            (out.push(' ').push(c), false)
        } else {
            (out.push(c), false)
        }
    }
}

/// The words of `s` joined by single spaces.
pub open spec fn collapse_ws(s: Seq<char>) -> Seq<char> {
    collapse_prefix(s, s.len() as int).0
}

/// `s` without leading and trailing whitespace.
pub open spec fn trim(s: Seq<char>) -> Seq<char>
    decreases s.len(),
{
    if s.len() > 0 && is_ws(s[0]) {
        trim(s.drop_first())
    } else if s.len() > 0 && is_ws(s.last()) {
        trim(s.drop_last())
    } else {
        s
    }
}

/// The words of `s` joined by single spaces.
pub fn collapse_whitespace(s: &str) -> (r: String)
    ensures
        r@ == collapse_ws(s@),
{
    let cs = chars_of(s);
    let mut out: Vec<char> = Vec::new();
    let mut gap = false;
    let mut i: usize = 0;
    while i < cs.len()
        invariant
            cs@ == s@,
            0 <= i <= cs@.len(),
            (out@, gap) == collapse_prefix(s@, i as int),
        decreases cs@.len() - i,
    {
        let c = cs[i];
        if is_ws_exec(c) {
            gap = out.len() > 0;
        } else {
            if gap {
                out.push(' ');
            }
            out.push(c);
            gap = false;
        }
        i = i + 1;
    }
    string_from_chars(out)
}

/// `s` without leading and trailing whitespace.
pub fn trim_text(s: &str) -> (r: String)
    ensures
        r@ == trim(s@),
{
    let cs = chars_of(s);
    let mut lo: usize = 0;
    let mut hi: usize = cs.len();
    assert(s@.subrange(0, cs@.len() as int) =~= s@);
    while lo < hi && is_ws_exec(cs[lo])
        invariant
            cs@ == s@,
            0 <= lo <= hi,
            hi == cs@.len(),
            trim(s@) == trim(s@.subrange(lo as int, hi as int)),
        decreases hi - lo,
    {
        proof {
            let t = s@.subrange(lo as int, hi as int);
            assert(t.drop_first() =~= s@.subrange(lo + 1, hi as int));
        }
        lo = lo + 1;
    }
    while lo < hi && is_ws_exec(cs[hi - 1])
        invariant
            cs@ == s@,
            0 <= lo <= hi <= cs@.len(),
            trim(s@) == trim(s@.subrange(lo as int, hi as int)),
            lo < hi ==> !is_ws(s@[lo as int]),
        decreases hi - lo,
    {
        proof {
            let t = s@.subrange(lo as int, hi as int);
            assert(t.drop_last() =~= s@.subrange(lo as int, hi - 1));
        }
        hi = hi - 1;
    }
    let mut out: Vec<char> = Vec::new();
    let mut k: usize = lo;
    while k < hi
        invariant
            cs@ == s@,
            lo <= k <= hi <= cs@.len(),
            out@ == s@.subrange(lo as int, k as int),
        decreases hi - k,
    {
        out.push(cs[k]);
        proof {
            assert(out@ =~= s@.subrange(lo as int, k + 1));
        }
        k = k + 1;
    }
    proof {
        let t = s@.subrange(lo as int, hi as int);
        if t.len() > 0 {
            assert(t[0] == s@[lo as int]);
            assert(t.last() == s@[hi - 1]);
        }
    }
    string_from_chars(out)
}

/// Shortened for a one-line report: at most `limit` bytes, and `...`
/// after a cut.
pub open spec fn shortened(s: Seq<char>, limit: nat) -> Seq<char> {
    if vstd::utf8::encode_utf8(s).len() > limit {
        vstd::utf8::decode_utf8(vstd::utf8::encode_utf8(s).subrange(0, limit as int)) + "..."@
    } else {
        s
    }
}

/// Whether `s` can be cut after its first `limit` bytes: it is no longer,
/// or those bytes end a character.
pub open spec fn cuttable(s: Seq<char>, limit: nat) -> bool {
    vstd::utf8::encode_utf8(s).len() > limit ==> vstd::utf8::is_char_boundary(vstd::utf8::encode_utf8(s), limit as int)
}

proof fn lemma_encode_concat(a: Seq<char>, b: Seq<char>)
    ensures
        vstd::utf8::encode_utf8(a + b) == vstd::utf8::encode_utf8(a) + vstd::utf8::encode_utf8(b),
    decreases a.len(),
{
    if a.len() == 0 {
        assert(a + b =~= b);
        assert(vstd::utf8::encode_utf8(a) =~= Seq::<u8>::empty());
        assert(vstd::utf8::encode_utf8(a) + vstd::utf8::encode_utf8(b) =~= vstd::utf8::encode_utf8(b));
    } else {
        assert((a + b).drop_first() =~= a.drop_first() + b);
        assert((a + b)[0] == a[0]);
        lemma_encode_concat(a.drop_first(), b);
        assert(vstd::utf8::encode_utf8(a + b) =~= vstd::utf8::encode_utf8(a) + vstd::utf8::encode_utf8(b));
    }
}

/// The number of bytes of `c` in UTF-8.
fn utf8_width(c: char) -> (w: usize)
    ensures
        w == vstd::utf8::encode_utf8(seq![c]).len(),
        1 <= w <= 4,
{
    proof {
        assert(seq![c].drop_first() =~= Seq::<char>::empty());
        assert(vstd::utf8::encode_utf8(seq![c]) =~= vstd::utf8::encode_scalar(c as u32) + vstd::utf8::encode_utf8(Seq::<char>::empty()));
    }
    let v = c as u32;
    if v < 0x80 {
        1
    } else if v < 0x800 {
        2
    } else if v < 0x10000 {
        3
    } else {
        4
    }
}

/// Whether `s` takes more than `limit` bytes in UTF-8.
fn longer_than(s: &String, limit: usize) -> (r: bool)
    requires
        limit <= 1000,
    ensures
        r == (vstd::utf8::encode_utf8(s@).len() > limit),
{
    let cs = chars_of(s.as_str());
    let mut sum: usize = 0;
    let mut i: usize = 0;
    while i < cs.len()
        invariant
            cs@ == s@,
            limit <= 1000,
            0 <= i <= cs@.len(),
            sum == vstd::utf8::encode_utf8(s@.take(i as int)).len(),
            sum <= limit,
        decreases cs@.len() - i,
    {
        let w = utf8_width(cs[i]);
        proof {
            assert(s@.take(i + 1) =~= s@.take(i as int) + seq![cs@[i as int]]);
            lemma_encode_concat(s@.take(i as int), seq![cs@[i as int]]);
        }
        if sum + w > limit {
            proof {
                assert(s@ =~= s@.take(i + 1) + s@.skip(i + 1));
                lemma_encode_concat(s@.take(i + 1), s@.skip(i + 1));
            }
            return true;
        }
        sum = sum + w;
        i = i + 1;
    }
    assert(s@.take(i as int) =~= s@);
    false
}

/// `s` shortened to `limit` bytes.
pub fn shorten(s: &String, limit: usize) -> (r: String)
    requires
        limit <= 1000,
        cuttable(s@, limit as nat),
    ensures
        r@ == shortened(s@, limit as nat),
{
    let t = s.as_str();
    if longer_than(s, limit) {
        let (head, _) = t.split_at(limit);
        proof {
            assert(head.spec_bytes() == vstd::utf8::encode_utf8(head@));
            vstd::utf8::encode_utf8_decode_utf8(head@);
        }
        concat(head, "...")
    } else {
        s.clone()
    }
}

/// Whether `s` can be cut after its first `limit` bytes.
pub fn can_shorten(s: &String, limit: usize) -> (r: bool)
    requires
        limit <= 1000,
    ensures
        r == cuttable(s@, limit as nat),
{
    !longer_than(s, limit) || s.as_str().is_char_boundary(limit)
}

/// The result the induction harness returns when the invariant fails after
/// the mutator.
pub open spec fn post_violation() -> Seq<char> {
    "(err "@ + INDUCT_POST_SENTINEL@ + ")"@
}

/// The positions, among the first `n` continuations, of those that return
/// the post-violation result.
pub open spec fn violation_indices(cs: Seq<ContinuationV>, n: int) -> Seq<int>
    decreases n,
{
    if n <= 0 || n > cs.len() {
        Seq::empty()
    } else if render(cs[n - 1].final_formula) == post_violation() {
        violation_indices(cs, n - 1).push(n - 1)
    } else {
        violation_indices(cs, n - 1)
    }
}

proof fn lemma_violation_prefix(cs: Seq<ContinuationV>, n: int)
    requires
        0 <= n <= cs.len(),
    ensures
        forall|a: int| 0 <= a < violation_indices(cs, n).len() ==> 0 <= #[trigger] violation_indices(cs, n)[a] < n,
        forall|a: int, b: int| 0 <= a < b < violation_indices(cs, n).len() ==> violation_indices(cs, n)[a] < violation_indices(cs, n)[b],
        forall|i: int| 0 <= i < n ==> (violation_indices(cs, n).contains(i) <==> render(cs[i].final_formula) == post_violation()),
    decreases n,
{
    if n > 0 {
        lemma_violation_prefix(cs, n - 1);
        let prev = violation_indices(cs, n - 1);
        let cur = violation_indices(cs, n);
        assert forall|i: int| 0 <= i < n implies (cur.contains(i) <==> render(cs[i].final_formula) == post_violation()) by {
            if render(cs[n - 1].final_formula) == post_violation() {
                assert(cur == prev.push(n - 1));
                if i < n - 1 {
                    if cur.contains(i) {
                        let w = choose|w: int| 0 <= w < cur.len() && cur[w] == i;
                        if w < prev.len() {
                            assert(prev[w] == i);
                        }
                    }
                    if prev.contains(i) {
                        let w = choose|w: int| 0 <= w < prev.len() && prev[w] == i;
                        assert(cur[w] == i);
                    }
                } else {
                    assert(cur[prev.len() as int] == n - 1);
                }
            } else {
                assert(cur == prev);
                if i == n - 1 && cur.contains(i) {
                    let w = choose|w: int| 0 <= w < cur.len() && cur[w] == i;
                    assert(prev[w] < n - 1);
                }
            }
        }
    }
}

/// A state breaks the invariant exactly when it returns the post-violation
/// sentinel `(err u340...455)`: the breaking states are the positions, in
/// increasing order, of the states whose result renders so, and a state
/// that returns the entry sentinel `(err u340...454)`, which every harness
/// has for a starting state that does not satisfy the invariant, is never
/// one of them.
pub proof fn lemma_violations_are_post_sentinel_states(cs: Seq<ContinuationV>)
    ensures
        forall|a: int, b: int| 0 <= a < b < violation_indices(cs, cs.len() as int).len()
            ==> violation_indices(cs, cs.len() as int)[a] < violation_indices(cs, cs.len() as int)[b],
        forall|i: int| 0 <= i < cs.len() ==> (#[trigger] violation_indices(cs, cs.len() as int).contains(i)
            <==> render(cs[i].final_formula) == "(err "@ + INDUCT_POST_SENTINEL@ + ")"@),
        forall|i: int| 0 <= i < cs.len() && render(cs[i].final_formula) == "(err "@ + INDUCT_PRE_SENTINEL@ + ")"@
            ==> !(#[trigger] violation_indices(cs, cs.len() as int).contains(i)),
{
    lemma_violation_prefix(cs, cs.len() as int);
    reveal_strlit("u340282366920938463463374607431768211454");
    reveal_strlit("u340282366920938463463374607431768211455");
    reveal_strlit("(err ");
    let pre = "(err "@ + INDUCT_PRE_SENTINEL@ + ")"@;
    let post = "(err "@ + INDUCT_POST_SENTINEL@ + ")"@;
    assert(pre[44] == '4');
    assert(post[44] == '5');
    assert(pre != post);
}

pub open spec fn conts_view(v: Seq<Continuation>) -> Seq<ContinuationV> {
    v.map_values(|c: Continuation| c@)
}

pub open spec fn usizes(v: Seq<usize>) -> Seq<int> {
    v.map_values(|u: usize| u as int)
}

/// The terminating states of an induction harness on which the invariant
/// fails after the mutator.
pub fn induct_violations(conts: &Vec<Continuation>) -> (r: Vec<usize>)
    ensures
        usizes(r@) == violation_indices(conts_view(conts@), conts@.len() as int),
        forall|k: int| 0 <= k < r@.len() ==> r@[k] < conts@.len(),
{
    let ghost cs = conts_view(conts@);
    let post = concat(concat("(err ", INDUCT_POST_SENTINEL).as_str(), ")");
    let mut r: Vec<usize> = Vec::new();
    let mut i: usize = 0;
    while i < conts.len()
        invariant
            cs == conts_view(conts@),
            post@ == post_violation(),
            0 <= i <= conts@.len(),
            usizes(r@) == violation_indices(cs, i as int),
            forall|k: int| 0 <= k < r@.len() ==> r@[k] < i,
        decreases conts@.len() - i,
    {
        if conts[i].final_formula.to_text() == post {
            let ghost before = r@;
            r.push(i);
            assert(usizes(r@) =~= usizes(before).push(i as int));
        }
        i = i + 1;
    }
    r
}

/// What the engine's run of one (invariant, mutator) harness shows.
#[derive(Clone, Copy, PartialEq, Eq, Structural, Debug)]
pub enum Verdict {
    /// no path breaks the invariant
    Holds,
    /// the solver showed every breaking path infeasible
    HoldsBySolver,
    /// a path breaks the invariant unconditionally
    Violated,
    /// a breaking path could not be ruled out
    NotProven,
}

/// The verdict for the terminating states `cs`, whose breaking paths are at
/// `vs`; `answers`, when a solver is at hand, holds its answer for the
/// predicate of each breaking path.
pub open spec fn verdict(cs: Seq<ContinuationV>, vs: Seq<int>, answers: Option<Seq<Answer>>) -> Verdict {
    if vs.len() == 0 {
        Verdict::Holds
    } else if exists|k: int| 0 <= k < vs.len() && trim(render(predicate_term(cs[vs[k]].predicate))) == "true"@ {
        Verdict::Violated
    } else {
        match answers {
            Some(a) => if all_unsat(a) { Verdict::HoldsBySolver } else { Verdict::NotProven },
            None => Verdict::NotProven,
        }
    }
}

/// Whether the solver answered `unsat` for every breaking path.
pub open spec fn all_unsat(a: Seq<Answer>) -> bool {
    forall|k: int| 0 <= k < a.len() ==> a[k] == Answer::Unsat
}

fn every_unsat(a: &Vec<Answer>) -> (r: bool)
    ensures
        r == all_unsat(a@),
{
    let mut j: usize = 0;
    while j < a.len()
        invariant
            0 <= j <= a@.len(),
            forall|q: int| 0 <= q < j ==> a@[q] == Answer::Unsat,
        decreases a@.len() - j,
    {
        if a[j] != Answer::Unsat {
            return false;
        }
        j = j + 1;
    }
    true
}

/// Decides the verdict for one (invariant, mutator) pair.
pub fn pair_verdict(conts: &Vec<Continuation>, violations: &Vec<usize>, answers: Option<&Vec<Answer>>) -> (r: Verdict)
    requires
        forall|k: int| 0 <= k < violations@.len() ==> violations@[k] < conts@.len(),
    ensures
        r == verdict(conts_view(conts@), usizes(violations@), match answers { Some(a) => Some(a@), None => None }),
{
    let ghost cs = conts_view(conts@);
    let ghost vs = usizes(violations@);
    if violations.len() == 0 {
        return Verdict::Holds;
    }
    let mut k: usize = 0;
    while k < violations.len()
        invariant
            cs == conts_view(conts@),
            vs == usizes(violations@),
            forall|j: int| 0 <= j < violations@.len() ==> violations@[j] < conts@.len(),
            0 <= k <= violations@.len(),
            forall|j: int| 0 <= j < k ==> trim(render(predicate_term(cs[vs[j]].predicate))) != "true"@,
        decreases violations@.len() - k,
    {
        let text = conts[violations[k]].predicate.to_text();
        let t = trim_text(text.as_str());
        if t == "true".to_owned() {
            assert(trim(render(predicate_term(cs[vs[k as int]].predicate))) == "true"@);
            return Verdict::Violated;
        }
        k = k + 1;
    }
    assert(!exists|j: int| 0 <= j < vs.len() && trim(render(predicate_term(cs[vs[j]].predicate))) == "true"@);
    match answers {
        Some(a) => if every_unsat(a) { Verdict::HoldsBySolver } else { Verdict::NotProven },
        None => Verdict::NotProven,
    }
}

} // verus!
