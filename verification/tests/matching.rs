use clairvoyance::failures::ProofFailures;
use clairvoyance::matching::Simplified;
use clairvoyance::state::{Continuation, Halt};
use clairvoyance::symop::{FullName, Head, OpKind, Predicate, Sym, SymOp, Value};

fn cu(x: u128) -> SymOp {
    SymOp::Constant(Value::UInt(x))
}
fn cb(x: bool) -> SymOp {
    SymOp::Constant(Value::Bool(x))
}
fn vu(name: &str) -> SymOp {
    SymOp::Variable(Sym { name: name.to_string(), type_repr: "uint".to_string() })
}
fn ok(x: SymOp) -> SymOp {
    SymOp::Node(Head::Op(OpKind::ConsOkay), vec![x])
}
fn name(n: &str) -> FullName {
    FullName { contract: "SP000000000000000000002Q6VF78.c".to_string(), name: n.to_string() }
}

fn cont(id: u64, result: SymOp, vars: Vec<(FullName, SymOp)>) -> Continuation {
    Continuation {
        id,
        function_path: "c.f".to_string(),
        final_formula: result,
        predicate: Predicate::True,
        var_state: vars,
        map_state: vec![],
        map_tombstones: vec![],
        reachable_var_reads: vec![],
        reachable_var_writes: vec![],
        reachable_map_reads: vec![],
        reachable_map_writes: vec![],
        early_return: false,
        panicking: false,
    }
}

fn halt(result: SymOp, vars: Vec<(FullName, SymOp)>) -> Halt {
    let mut h = Halt::from_invariant(result, Predicate::True);
    h.vars = vars;
    h
}

#[test]
fn exact_specification_passes() {
    let conts = vec![cont(0, ok(cb(true)), vec![(name("v"), cu(1))])];
    let halts = vec![halt(ok(cb(true)), vec![(name("v"), cu(1))])];
    let f = ProofFailures::match_reached(conts, halts, &vec![vec![true]]);
    assert!(f.is_empty());
    assert_eq!(f.to_text(), "(all checks passed)\n");
}

#[test]
fn unreached_halt_and_unclaimed_state_are_both_reported() {
    let conts = vec![cont(0, ok(cb(true)), vec![(name("v"), cu(1))])];
    let halts = vec![halt(ok(cb(false)), vec![])];
    let f = ProofFailures::match_reached(conts, halts, &vec![vec![false]]);
    assert!(!f.is_empty());
    assert_eq!(f.unmatched_halting_conditions, vec![Predicate::True]);
    assert_eq!(f.unchecked_continuations.len(), 1);
    assert_eq!(f.unchecked_var_writes.len(), 1);
    assert_eq!(f.unchecked_var_writes[0].1, name("v"));
    assert_eq!(f.unchecked_var_writes[0].2, cu(1));
    // one unchecked state plus one halting state: one state plus one
    // unmatched halting condition
    assert_eq!(f.unchecked_continuations.len() + 1, 1 + f.unmatched_halting_conditions.len());
}

#[test]
fn incorrect_missing_and_unchecked_var_writes() {
    let conts = vec![cont(0, ok(cb(true)), vec![(name("a"), cu(1)), (name("b"), cu(2))])];
    let halts = vec![halt(ok(cb(true)), vec![(name("a"), cu(5)), (name("c"), vu("x"))])];
    let f = ProofFailures::match_reached(conts, halts, &vec![vec![true]]);
    assert_eq!(f.incorrect_var_writes.len(), 1);
    assert_eq!(f.incorrect_var_writes[0].1, name("a"));
    assert_eq!(f.incorrect_var_writes[0].2, cu(1));
    assert_eq!(f.incorrect_var_writes[0].3, cu(5));
    assert_eq!(f.missing_var_writes.len(), 1);
    assert_eq!(f.missing_var_writes[0].1, name("c"));
    assert_eq!(f.unchecked_var_writes.len(), 1);
    assert_eq!(f.unchecked_var_writes[0].1, name("b"));
    assert!(f.unchecked_continuations.is_empty());
    assert!(f.unmatched_halting_conditions.is_empty());
}

#[test]
fn each_halt_claims_the_first_remaining_state_it_reaches() {
    let conts = vec![cont(0, ok(cu(1)), vec![]), cont(1, ok(cu(2)), vec![])];
    let halts = vec![halt(ok(cu(1)), vec![]), halt(ok(cu(2)), vec![])];
    // both halting states reach both states; the first claims the first
    let f = ProofFailures::match_reached(conts, halts, &vec![vec![true, true], vec![true, true]]);
    assert!(f.is_empty());

    let conts = vec![cont(0, ok(cu(1)), vec![]), cont(1, ok(cu(2)), vec![])];
    let halts = vec![halt(ok(cu(1)), vec![]), halt(ok(cu(2)), vec![])];
    // only the first halting state reaches anything: the second state is
    // left over, and the second halting state is unmatched
    let f = ProofFailures::match_reached(conts, halts, &vec![vec![true, true], vec![false, false]]);
    assert_eq!(f.unchecked_continuations.len(), 1);
    assert_eq!(f.unchecked_continuations[0].id, 1);
    assert_eq!(f.unmatched_halting_conditions.len(), 1);
}

#[test]
fn early_return_and_panicking_mismatches() {
    let mut c = cont(0, ok(cb(true)), vec![]);
    c.early_return = true;
    let mut h = halt(ok(cb(true)), vec![]);
    h.panicking = true;
    let f = ProofFailures::match_reached(vec![c], vec![h], &vec![vec![true]]);
    assert!(f.early_return_mismatch);
    assert!(f.panicking_mismatch);
    assert_eq!(f.to_text(), "Early-return mismatch\nPanicking mismatch\n");
}

#[test]
fn unaccounted_continuation_reports_every_write() {
    let mut f = ProofFailures::new();
    let mut c = cont(3, ok(cb(true)), vec![(name("v"), cu(1))]);
    c.map_state = vec![(name("m"), vec![(cu(1), cu(2)), (cu(3), cu(4))])];
    c.map_tombstones = vec![(name("m"), vec![cu(9)])];
    f.unaccounted_continuation(c);
    assert_eq!(f.unchecked_continuations.len(), 1);
    assert_eq!(f.unchecked_var_writes.len(), 1);
    assert_eq!(f.unchecked_map_writes.len(), 2);
    assert_eq!(f.unchecked_map_writes[1].2, cu(3));
    assert_eq!(f.unchecked_map_deletes.len(), 1);
    assert_eq!(f.unchecked_map_deletes[0].2, cu(9));
}

#[test]
fn reachable_writes_are_grouped_by_predicate() {
    let mut f = ProofFailures::new();
    f.unchecked_reachable_var_write(Predicate::True, name("a"));
    f.unchecked_reachable_var_write(Predicate::True, name("b"));
    f.unchecked_reachable_var_write(Predicate::True, name("a"));
    f.unchecked_reachable_var_write(Predicate::False, name("a"));
    assert_eq!(f.unchecked_reachable_var_writes.len(), 2);
    assert_eq!(f.unchecked_reachable_var_writes[0].1, vec![name("a"), name("b")]);
    assert_eq!(
        f.to_text(),
        "Unchecked reachable variable writes in condition true:\n  SP000000000000000000002Q6VF78.c.a\n  SP000000000000000000002Q6VF78.c.b\n\
         Unchecked reachable variable writes in condition false:\n  SP000000000000000000002Q6VF78.c.a\n"
    );
}

fn with_condition(result: SymOp, cond: Predicate) -> Halt {
    let mut h = Halt::from_invariant(result, Predicate::True);
    h.condition = Some(cond);
    h
}

#[test]
fn a_halt_without_condition_claims_the_first_state_with_equal_simplified_values() {
    let conts = vec![cont(0, ok(cu(1)), vec![]), cont(1, ok(cu(2)), vec![])];
    let halts = vec![halt(ok(cu(2)), vec![])];
    let s = Simplified {
        cont_formulas: vec![ok(cu(1)), ok(cu(2))],
        cont_predicates: vec![Predicate::True, Predicate::True],
        halt_formulas: vec![ok(cu(2))],
        halt_predicates: vec![Predicate::True],
        implications: vec![vec![Predicate::False, Predicate::False]],
    };
    let f = ProofFailures::from_continuations_and_halts(conts, halts, &s);
    assert_eq!(f.unchecked_continuations.len(), 1);
    assert_eq!(f.unchecked_continuations[0].id, 0);
    assert!(f.unmatched_halting_conditions.is_empty());

    // the same formula under another predicate is not reached
    let conts = vec![cont(0, ok(cu(2)), vec![])];
    let halts = vec![halt(ok(cu(2)), vec![])];
    let s = Simplified {
        cont_formulas: vec![ok(cu(2))],
        cont_predicates: vec![Predicate::Formula(vu("x"))],
        halt_formulas: vec![ok(cu(2))],
        halt_predicates: vec![Predicate::True],
        implications: vec![vec![Predicate::True]],
    };
    let f = ProofFailures::from_continuations_and_halts(conts, halts, &s);
    assert_eq!(f.unmatched_halting_conditions, vec![Predicate::True]);
    assert_eq!(f.unchecked_continuations.len(), 1);
}

#[test]
fn a_halt_with_a_condition_is_reached_when_the_predicate_implies_it() {
    let s = |imp: Predicate| Simplified {
        cont_formulas: vec![ok(cb(true))],
        cont_predicates: vec![Predicate::Formula(vu("x"))],
        halt_formulas: vec![ok(cb(true))],
        halt_predicates: vec![Predicate::True],
        implications: vec![vec![imp]],
    };
    let conts = vec![cont(0, ok(cb(true)), vec![])];
    let halts = vec![with_condition(ok(cb(true)), Predicate::Formula(vu("x")))];
    let f = ProofFailures::from_continuations_and_halts(conts, halts, &s(Predicate::True));
    assert!(f.is_empty());

    let conts = vec![cont(0, ok(cb(true)), vec![])];
    let halts = vec![with_condition(ok(cb(true)), Predicate::Formula(vu("x")))];
    let f = ProofFailures::from_continuations_and_halts(conts, halts, &s(Predicate::Formula(vu("y"))));
    assert_eq!(f.unmatched_halting_conditions.len(), 1);
    assert_eq!(f.unchecked_continuations.len(), 1);
}

#[test]
fn writes_to_a_map_the_halt_does_not_name_are_unchecked() {
    let mut c = cont(0, ok(cb(true)), vec![]);
    c.map_state = vec![(name("m"), vec![(cu(1), cu(2))]), (name("n"), vec![(cu(3), cu(4))])];
    let mut h = halt(ok(cb(true)), vec![]);
    h.map_state = vec![(name("m"), vec![(cu(1), cu(2))])];
    let f = ProofFailures::match_reached(vec![c], vec![h], &vec![vec![true]]);
    assert_eq!(f.unchecked_map_writes.len(), 1);
    assert_eq!(f.unchecked_map_writes[0].1, name("n"));
    assert_eq!(f.unchecked_map_writes[0].2, cu(3));
    assert_eq!(f.unchecked_map_writes[0].3, cu(4));
    assert!(f.missing_map_writes.is_empty());
    assert!(f.incorrect_map_writes.is_empty());
}

#[test]
fn a_listed_delete_not_made_is_missing_and_unlisted_deletes_are_unchecked() {
    let mut c = cont(0, ok(cb(true)), vec![]);
    c.map_tombstones = vec![(name("m"), vec![cu(1), cu(2)])];
    let mut h = halt(ok(cb(true)), vec![]);
    h.map_tombstones = vec![(name("m"), vec![cu(1), cu(7)])];
    let f = ProofFailures::match_reached(vec![c], vec![h], &vec![vec![true]]);
    assert_eq!(f.missing_map_deletes.len(), 1);
    assert_eq!(f.missing_map_deletes[0].1, name("m"));
    assert_eq!(f.missing_map_deletes[0].2, cu(7));
    assert_eq!(f.unchecked_map_deletes.len(), 1);
    assert_eq!(f.unchecked_map_deletes[0].2, cu(2));
    assert!(f.unmatched_map_deletes.is_empty());
}

#[test]
fn recording_order_does_not_change_the_names_recorded() {
    let mut f = ProofFailures::new();
    f.unmatched_reachable_map_write(Predicate::True, name("a"));
    f.unmatched_reachable_map_write(Predicate::True, name("b"));
    let mut g = ProofFailures::new();
    g.unmatched_reachable_map_write(Predicate::True, name("b"));
    g.unmatched_reachable_map_write(Predicate::True, name("a"));
    let set = |p: &ProofFailures| {
        let mut v: Vec<String> = p.unmatched_reachable_map_writes[0].1.iter().map(|n| n.name.clone()).collect();
        v.sort();
        v
    };
    assert_eq!(f.unmatched_reachable_map_writes.len(), 1);
    assert_eq!(set(&f), set(&g));
}
