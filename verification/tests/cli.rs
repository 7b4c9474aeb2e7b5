use clairvoyance::cli::{
    build_induction_harness, can_shorten, check_report, collapse_whitespace, harness_name, run_cli_sym, shorten,
    summary_line, sym_help, trim_text, CheckOutcome, SymCommand, SymDispatch, INDUCT_POST_SENTINEL, INDUCT_PRE_SENTINEL,
};

fn args(v: &[&str]) -> Vec<String> {
    v.iter().map(|s| s.to_string()).collect()
}

#[test]
fn sym_dispatches_subcommands() {
    let mut a = args(&["check", "SP1.c", "c.clar"]);
    assert_eq!(run_cli_sym(&mut a), SymDispatch::Run(SymCommand::Check));
    assert_eq!(a, args(&["SP1.c", "c.clar"]));

    let mut a = args(&["induct"]);
    assert_eq!(run_cli_sym(&mut a), SymDispatch::Run(SymCommand::Induct));
    let mut a = args(&["exec-func", "x"]);
    assert_eq!(run_cli_sym(&mut a), SymDispatch::Run(SymCommand::ExecFunc));
    let mut a = args(&["reachable"]);
    assert_eq!(run_cli_sym(&mut a), SymDispatch::Run(SymCommand::Reachable));
}

#[test]
fn sym_replies_to_help_and_unknown_commands() {
    let mut a = args(&[]);
    assert_eq!(run_cli_sym(&mut a), SymDispatch::Reply(1, "Missing subcommand".to_string()));
    for h in ["help", "-h", "--help"] {
        let mut a = args(&[h]);
        assert_eq!(run_cli_sym(&mut a), SymDispatch::Reply(0, sym_help()));
    }
    assert!(sym_help().starts_with("clairvoyance sym -- symbolically execute and verify Clarity functions\n"));
    let mut a = args(&["frob"]);
    assert_eq!(
        run_cli_sym(&mut a),
        SymDispatch::Reply(1, "Unrecognized `sym` command 'frob'. Try `sym help` for details.".to_string())
    );
}

#[test]
fn check_report_for_one_function() {
    let outs = vec![("f".to_string(), CheckOutcome::States(3))];
    assert_eq!(check_report("SP1.c", &outs, true), (0, "  PASS      f  (3 state(s))\n".to_string()));
    assert_eq!(check_report("SP1.c", &outs, false), (0, "  NO SPEC   f  (3 state(s) explored)\n".to_string()));

    let outs = vec![("f".to_string(), CheckOutcome::Violated("REPORT".to_string()))];
    assert_eq!(
        check_report("SP1.c", &outs, true),
        (3, "VIOLATED: `f` does not satisfy its (@clairvoyance ...) specification.\n\nREPORT\n".to_string())
    );
    let outs = vec![("f".to_string(), CheckOutcome::SpecError("PE".to_string()))];
    assert_eq!(check_report("SP1.c", &outs, true), (4, "SPEC ERROR on `f`:\n\nPE\n".to_string()));
    let outs = vec![("f".to_string(), CheckOutcome::Failed("E".to_string()))];
    assert_eq!(check_report("SP1.c", &outs, true), (2, "ERROR evaluating `f`: E\n".to_string()));
}

#[test]
fn check_report_for_several_functions() {
    let outs = vec![
        ("a".to_string(), CheckOutcome::States(1)),
        ("b".to_string(), CheckOutcome::Violated("R".to_string())),
        ("c".to_string(), CheckOutcome::Failed("E".to_string())),
    ];
    let (code, text) = check_report("SP1.c", &outs, true);
    assert_eq!(code, 3);
    assert_eq!(
        text,
        "Checked 3 function(s) in SP1.c:\n\n  PASS      a  (1 state(s))\n  VIOLATED  b\n  ERROR     c  (E)\n\n\
         Summary: 1 passed, 1 violated, 0 spec-error, 1 error, 0 no-spec\n\n\
         Re-run `sym check <CONTRACT_ID> <CODE> <FUNCTION>` on a failing function for the full report.\n"
    );
    let outs = vec![("a".to_string(), CheckOutcome::States(1)), ("b".to_string(), CheckOutcome::States(2))];
    let (code, text) = check_report("SP1.c", &outs, true);
    assert_eq!(code, 0);
    assert!(text.ends_with("Summary: 2 passed, 0 violated, 0 spec-error, 0 error, 0 no-spec\n"));
}

#[test]
fn summary_line_counts() {
    assert_eq!(summary_line(1, 2, 3, 4, 5), "Summary: 1 passed, 3 violated, 4 spec-error, 5 error, 2 no-spec");
}

#[test]
fn induction_harness_text() {
    let h = build_induction_harness("H", "mutate", &args(&["uint", "(buff 2)"]), "invariant-x", &args(&["bool"]));
    assert_eq!(
        h,
        format!(
            "\n(define-public (H (m0 uint) (m1 (buff 2)) (i0 bool))\n  (begin\n    (asserts! (invariant-x i0) (err {INDUCT_PRE_SENTINEL}))\n    \
             (unwrap-panic (mutate m0 m1))\n    (asserts! (invariant-x i0) (err {INDUCT_POST_SENTINEL}))\n    (ok true)))\n"
        )
    );
    assert_eq!(harness_name("mint", "invariant-supply"), "clv-induct-mint-invariant-supply");
}

#[test]
fn whitespace_helpers() {
    assert_eq!(collapse_whitespace("  (and\n\t  a   b )  "), "(and a b )");
    assert_eq!(trim_text(" \n x y \t"), "x y");
    assert_eq!(trim_text("   "), "");
    let long = "y".repeat(170);
    assert_eq!(shorten(&long, 160), format!("{}...", "y".repeat(160)));
    assert_eq!(shorten(&"short".to_string(), 160), "short");
    let split = format!("{}é", "y".repeat(159));
    let padded = format!("{split}{}", "z".repeat(10));
    assert!(!can_shorten(&padded, 160));
    assert!(can_shorten(&long, 160));
}
