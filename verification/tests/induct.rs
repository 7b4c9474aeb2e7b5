use clairvoyance::cli::{induct_violations, pair_verdict, Verdict, INDUCT_POST_SENTINEL};
use clairvoyance::induct::{
    can_report, engine_description, induct_header, induct_solver, induct_targets, invariant_heading, pair_outcome,
    InductTally, PairOutcome,
};
use clairvoyance::smt::{Answer, Solver};
use clairvoyance::state::Continuation;
use clairvoyance::symop::{Head, OpKind, Predicate, Sym, SymOp, Value};

fn s(v: &[&str]) -> Vec<String> {
    v.iter().map(|x| x.to_string()).collect()
}

fn state(result: SymOp, pred: Predicate) -> Continuation {
    Continuation {
        id: 0,
        function_path: "h".to_string(),
        final_formula: result,
        predicate: pred,
        var_state: vec![],
        map_state: vec![],
        map_tombstones: vec![],
        reachable_var_reads: vec![],
        reachable_var_writes: vec![],
        reachable_map_reads: vec![],
        reachable_map_writes: vec![],
        early_return: false,
        panicking: false,
    }
}

fn post_err() -> SymOp {
    let post = INDUCT_POST_SENTINEL.trim_start_matches('u').parse::<u128>().unwrap();
    SymOp::Node(Head::Op(OpKind::ConsError), vec![SymOp::Constant(Value::UInt(post))])
}

fn ok_true() -> SymOp {
    SymOp::Node(Head::Op(OpKind::ConsOkay), vec![SymOp::Constant(Value::Bool(true))])
}

fn gt_x_5() -> Predicate {
    Predicate::Formula(SymOp::Node(
        Head::Op(OpKind::Greater),
        vec![SymOp::Variable(Sym { name: "x".to_string(), type_repr: "uint".to_string() }), SymOp::Constant(Value::UInt(5))],
    ))
}

#[test]
fn tally_lines_and_footer() {
    let mut t = InductTally::new();
    assert_eq!(t.record("m1", &PairOutcome::Holds), "  HOLDS      m1\n");
    assert_eq!(t.record("m2", &PairOutcome::HoldsBySolver), "  HOLDS      m2  (by solver)\n");
    assert_eq!(t.record("m3", &PairOutcome::NotFound), "  SKIP       m3  (not found)\n");
    assert_eq!(
        t.record("m4", &PairOutcome::NotProven("(>   x\n u5)".to_string())),
        "  NOT PROVEN m4  (fails when: (> x u5))\n"
    );
    assert_eq!(
        t.record("m5", &PairOutcome::TimedOut(60)),
        "  UNFINISHED m5  (gave up after 60s; raise --time-budget)\n"
    );
    assert_eq!(
        t.record("m6", &PairOutcome::OutOfSteps(2000000)),
        "  UNFINISHED m6  (gave up after 2000000 steps; raise --max-steps)\n"
    );
    assert_eq!(t.record("m7", &PairOutcome::Failed("needs `x`".to_string())), "  SKIP       m7  (needs `x`)\n");
    assert_eq!(t.record("m8", &PairOutcome::Failed("needs `x`".to_string())), "  SKIP       m8\n");
    assert_eq!(
        t.footer(),
        (5, "\nSummary: 2 holds (1 by solver), 0 violated, 3 not-proven, 3 skipped\n".to_string())
    );
    assert_eq!(t.record("m9", &PairOutcome::Violated), "  VIOLATED   m9  (unconditionally)\n");
    assert_eq!(t.footer().0, 3);
}

#[test]
fn tally_exit_code_zero_only_without_violations_or_unproven_pairs() {
    let mut t = InductTally::new();
    assert_eq!(t.footer(), (0, "\nSummary: 0 holds (0 by solver), 0 violated, 0 not-proven, 0 skipped\n".to_string()));
    t.record("m", &PairOutcome::Holds);
    t.record("n", &PairOutcome::NotFound);
    assert_eq!(t.footer().0, 0);
    assert!(t.has_room());
}

#[test]
fn long_conditions_are_cut() {
    let cond = "a ".repeat(100);
    let mut t = InductTally::new();
    let o = PairOutcome::NotProven(cond);
    assert!(can_report(&o));
    let line = t.record("m", &o);
    assert_eq!(line, format!("  NOT PROVEN m  (fails when: {}...)\n", "a a ".repeat(40)));
}

#[test]
fn pair_verdicts() {
    let conts = vec![state(ok_true(), Predicate::True), state(post_err(), gt_x_5())];
    let v = induct_violations(&conts);
    assert_eq!(v, vec![1]);
    assert_eq!(pair_verdict(&conts, &v, None), Verdict::NotProven);
    assert_eq!(pair_verdict(&conts, &v, Some(&vec![Answer::Unsat])), Verdict::HoldsBySolver);
    assert_eq!(pair_verdict(&conts, &v, Some(&vec![Answer::Sat])), Verdict::NotProven);
    assert_eq!(pair_outcome(&conts, &v, None), PairOutcome::NotProven("(> (x uint) u5)".to_string()));

    let conts = vec![state(ok_true(), Predicate::True)];
    assert_eq!(pair_verdict(&conts, &induct_violations(&conts), None), Verdict::Holds);

    let conts = vec![state(post_err(), Predicate::True), state(post_err(), gt_x_5())];
    let v = induct_violations(&conts);
    assert_eq!(v, vec![0, 1]);
    assert_eq!(pair_verdict(&conts, &v, Some(&vec![Answer::Unsat, Answer::Unsat])), Verdict::Violated);
    assert_eq!(pair_outcome(&conts, &v, None), PairOutcome::Violated);
}

#[test]
fn targets_default_to_invariant_functions_and_publics() {
    let publics = s(&["mint", "burn"]);
    let readonlys = s(&["get-x", "invariant-supply", "invariant-owner", "invariant"]);
    assert_eq!(
        induct_targets(vec![], vec![], &publics, &readonlys),
        Ok((s(&["invariant-supply", "invariant-owner"]), s(&["mint", "burn"])))
    );
    assert_eq!(
        induct_targets(s(&["inv"]), s(&["m"]), &publics, &readonlys),
        Ok((s(&["inv"]), s(&["m"])))
    );
    assert_eq!(
        induct_targets(vec![], vec![], &publics, &s(&["get-x"])),
        Err((1, "No invariants to check. Name one with --invariant, or define read-only invariant-* functions.".to_string()))
    );
    assert_eq!(
        induct_targets(vec![], vec![], &vec![], &readonlys),
        Err((1, "No mutators to check. Name one with --mutator.".to_string()))
    );
}

#[test]
fn header_engine_and_headings() {
    assert_eq!(
        induct_header("SP1.c", "simplifier + z3"),
        "Inductive invariant check for SP1.c\n(does each mutator preserve each invariant?)\ndecided by: simplifier + z3\n"
    );
    assert_eq!(engine_description(Some("z3"), false), "simplifier + z3");
    assert_eq!(engine_description(None, true), "simplifier only (--no-smt)");
    assert_eq!(
        engine_description(None, false),
        "simplifier only (no SMT solver found; install z3, or pass --solver PATH)"
    );
    assert_eq!(invariant_heading("invariant-a", true), "\ninvariant-a\n");
    assert_eq!(invariant_heading("invariant-a", false), "\ninvariant-a\n  (invariant not found; skipping)\n");
}

#[test]
fn solver_choice() {
    assert_eq!(induct_solver(true, Some("z3".to_string()), true, None, true, true), Ok(None));
    assert_eq!(
        induct_solver(false, Some("/opt/cvc5".to_string()), false, None, true, true),
        Err((1, "Could not run the SMT solver `/opt/cvc5`. Pass a path to an SMT-LIB 2 solver, or --no-smt to check without one.".to_string()))
    );
    assert_eq!(
        induct_solver(false, Some("/opt/cvc5".to_string()), true, None, true, true),
        Ok(Some(Solver { program: "/opt/cvc5".to_string(), args: s(&["--lang=smt2", "--incremental"]) }))
    );
    assert_eq!(
        induct_solver(false, None, false, Some("yices-smt2".to_string()), true, true),
        Ok(Some(Solver { program: "yices-smt2".to_string(), args: s(&["--incremental"]) }))
    );
    assert_eq!(
        induct_solver(false, None, false, Some(String::new()), false, true),
        Ok(Some(Solver { program: "cvc5".to_string(), args: s(&["--lang=smt2", "--incremental"]) }))
    );
    assert_eq!(induct_solver(false, None, false, None, false, false), Ok(None));
}
