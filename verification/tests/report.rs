use clairvoyance::brief::{brief_error, brief_error_text, can_brief};
use clairvoyance::cli::CheckOutcome;
use clairvoyance::error::{check_outcome, explain_engine_error, Error, ProgramError};
use clairvoyance::failures::ProofFailures;
use clairvoyance::symop::{FullName, Predicate, SymOp, Value};

fn program_error() -> ProgramError {
    ProgramError { line_no: Some(3), cause: "bad \"x\"".to_string(), stack: vec!["(a)".to_string(), "(b)".to_string()] }
}

#[test]
fn program_error_text_lists_the_backtrace() {
    assert_eq!(
        program_error().to_text(),
        "Clairvoyance program error near line 3: bad \"x\"\nBacktrace:\n0: (a)\n1: (b)\n"
    );
    let pe = ProgramError { line_no: None, cause: "c".to_string(), stack: vec![] };
    assert_eq!(pe.to_text(), "Clairvoyance program error: c\nBacktrace:\n");
}

#[test]
fn program_error_debug_text() {
    assert_eq!(
        program_error().debug_text(),
        "ProgramError { line_no: Some(3), cause: \"bad \\\"x\\\"\", stack: [\"(a)\", \"(b)\"] }"
    );
}

#[test]
fn error_debug_and_display_texts() {
    assert_eq!(Error::Failed("no \"way\"".to_string()).to_text(), "Failed(\"no \\\"way\\\"\")");
    assert_eq!(Error::TimedOut(60).to_text(), "TimedOut(60)");
    assert_eq!(Error::Budget(7).debug_text(), "Budget(7)");
    assert_eq!(Error::Parse("ParseError { x }".to_string()).to_text(), "Parse(ParseError { x })");
    let name = FullName { contract: "SP1.c".to_string(), name: "f".to_string() };
    assert_eq!(Error::Reentrancy(name).to_text(), "Reentrancy(SP1.c.f)");
    assert_eq!(
        Error::Program(program_error()).to_text(),
        "Clairvoynace was unable to parse an expression:\nClairvoyance program error near line 3: bad \"x\"\nBacktrace:\n0: (a)\n1: (b)\n\n"
    );
    assert_eq!(
        Error::ProofFailure(ProofFailures::new()).to_text(),
        "Clairvoyance encountered one or more errors while checking halting states:\n(all checks passed)\n\n"
    );
}

#[test]
fn program_error_wraps_other_errors() {
    let e = Error::NotFound("thing".to_string()).program_error(4, "(foo)".to_string());
    let Error::Program(pe) = e else { panic!() };
    assert_eq!(pe.line_no, Some(4));
    assert_eq!(pe.cause, "NotFound(\"thing\")");
    assert_eq!(pe.stack, vec!["(foo)".to_string()]);

    let e = Error::new_program_error("why".to_string()).program_error(2, "(a)".to_string()).program_error(1, "(b)".to_string());
    let Error::Program(pe) = e else { panic!() };
    assert_eq!(pe.line_no, Some(1));
    assert_eq!(pe.cause, "why");
    assert_eq!(pe.stack, vec!["(a)".to_string(), "(b)".to_string()]);
}

#[test]
fn engine_errors_get_their_exit_codes() {
    let (code, msg) = explain_engine_error("f", &Error::ProofFailure(ProofFailures::new()));
    assert_eq!(code, 3);
    assert_eq!(msg, "VIOLATED: `f` does not satisfy its (@clairvoyance ...) specification.\n\n(all checks passed)\n");
    let (code, msg) = explain_engine_error("f", &Error::Program(program_error()));
    assert_eq!(code, 4);
    assert!(msg.starts_with("SPEC ERROR: the (@clairvoyance ...) block on `f` did not parse.\n\nClairvoyance program error near line 3"));
    let (code, msg) = explain_engine_error("f", &Error::Bug("oops".to_string()));
    assert_eq!(code, 2);
    assert_eq!(msg, "ERROR: could not evaluate `f`: Bug(\"oops\")");
}

#[test]
fn check_outcomes_from_engine_results() {
    assert_eq!(check_outcome(&Ok(4)), CheckOutcome::States(4));
    assert_eq!(check_outcome(&Err(Error::TimedOut(1))), CheckOutcome::Failed("TimedOut(1)".to_string()));
    assert_eq!(
        check_outcome(&Err(Error::ProofFailure(ProofFailures::new()))),
        CheckOutcome::Violated("(all checks passed)\n".to_string())
    );
    let CheckOutcome::SpecError(t) = check_outcome(&Err(Error::Program(program_error()))) else { panic!() };
    assert!(t.starts_with("Clairvoyance program error near line 3"));
}

#[test]
fn failure_report_sections() {
    let mut f = ProofFailures::new();
    let name = FullName { contract: "SP1.c".to_string(), name: "v".to_string() };
    f.unmatched_var_write(name.clone_name(), SymOp::Constant(Value::UInt(2)));
    f.unmatched_halting_condition(Predicate::False);
    assert_eq!(
        f.to_text(),
        "Unmatched halting condition:\nfalse\n\n\nUnmatched given var-set:\n  Variable: SP1.c.v\n     Given: u2\n"
    );
}

trait CloneName {
    fn clone_name(&self) -> FullName;
}

impl CloneName for FullName {
    fn clone_name(&self) -> FullName {
        FullName { contract: self.contract.clone(), name: self.name.clone() }
    }
}

#[test]
fn brief_names_the_missing_dependency() {
    let e = Error::Analysis("CheckError { err: NoSuchContract(\"SP1.token\"), spans: [] }".to_string());
    assert_eq!(
        brief_error(&e),
        Some("needs `SP1.token`; pass --dep SP1.token:PATH (a signature stub is enough)".to_string())
    );
}

#[test]
fn brief_takes_the_analyzer_message() {
    let text = "Analysis(StaticCheckError { diagnostic: Diagnostic { message: \"use of unresolved function 'foo'\", spans: [] } })";
    assert_eq!(brief_error_text(text), "use of unresolved function 'foo'");
}

#[test]
fn brief_keeps_the_head_of_the_first_line() {
    assert_eq!(brief_error_text("  Bug { detail: 1 }\nmore"), "Bug");
    assert_eq!(brief_error_text("first line\r\nsecond"), "first line");
    assert_eq!(brief_error_text(""), "");
    let long = "x".repeat(250);
    assert_eq!(brief_error_text(&long), format!("{}...", "x".repeat(200)));
    let e = Error::Failed("short".to_string());
    assert_eq!(brief_error(&e), Some("Failed(\"short\")".to_string()));
}

#[test]
fn brief_is_not_taken_where_the_cut_splits_a_character() {
    let text = format!("{}é{}", "a".repeat(199), "b".repeat(10));
    assert!(!can_brief(&text));
    // `Parse(` comes first in the error's text
    let e = Error::Parse(format!("{}é{}", "a".repeat(193), "b".repeat(10)));
    assert_eq!(brief_error(&e), None);
}
