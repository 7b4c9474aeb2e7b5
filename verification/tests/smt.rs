use clairvoyance::smt::{default_args, encodable, encode_predicate, find_solver, solver_at, Smt, Solver};
use clairvoyance::symop::{Head, OpKind, Predicate, Sym, SymOp, Value};

fn vu(name: &str) -> SymOp {
    SymOp::Variable(Sym { name: name.to_string(), type_repr: "uint".to_string() })
}
fn vi(name: &str) -> SymOp {
    SymOp::Variable(Sym { name: name.to_string(), type_repr: "int".to_string() })
}
fn cu(x: u128) -> SymOp {
    SymOp::Constant(Value::UInt(x))
}
fn ci(x: i128) -> SymOp {
    SymOp::Constant(Value::Int(x))
}
fn op(k: OpKind, args: Vec<SymOp>) -> SymOp {
    SymOp::Node(Head::Op(k), args)
}
fn atom(a: &str) -> Smt {
    Smt::Atom(a.to_string())
}
fn app(o: &str, args: Vec<Smt>) -> Smt {
    Smt::App(o.to_string(), args)
}
fn s(v: &[&str]) -> Vec<String> {
    v.iter().map(|x| x.to_string()).collect()
}

#[test]
fn unsigned_symbols_are_non_negative_constants() {
    let p = Predicate::Formula(op(OpKind::Greater, vec![vu("x"), cu(5)]));
    assert!(encodable(&p));
    let e = encode_predicate(&p);
    assert_eq!(e.formula, app(">", vec![atom("clv_0"), atom("5")]));
    assert_eq!(e.decls, vec![("clv_0".to_string(), false)]);
    assert_eq!(e.side, vec![app(">=", vec![atom("clv_0"), atom("0")])]);
}

#[test]
fn the_same_term_is_the_same_constant() {
    let p = Predicate::Formula(op(
        OpKind::And,
        vec![op(OpKind::Greater, vec![vu("x"), cu(5)]), op(OpKind::Less, vec![vu("x"), cu(3)])],
    ));
    let e = encode_predicate(&p);
    assert_eq!(
        e.formula,
        app("and", vec![app(">", vec![atom("clv_0"), atom("5")]), app("<", vec![atom("clv_0"), atom("3")])])
    );
    assert_eq!(e.decls.len(), 1);
    assert_eq!(e.side.len(), 1);
}

#[test]
fn signed_terms_get_no_sign_fact_and_negatives_are_negated() {
    let p = Predicate::Formula(op(OpKind::Geq, vec![op(OpKind::Add, vec![vi("y"), ci(-2)]), ci(0)]));
    let e = encode_predicate(&p);
    assert_eq!(e.formula, app(">=", vec![app("+", vec![atom("clv_0"), app("-", vec![atom("2")])]), atom("0")]));
    assert_eq!(e.decls, vec![("clv_0".to_string(), false)]);
    assert!(e.side.is_empty());
}

#[test]
fn trivial_predicates() {
    assert_eq!(encode_predicate(&Predicate::True).formula, atom("true"));
    assert_eq!(encode_predicate(&Predicate::False).formula, atom("false"));
}

#[test]
fn solver_arguments_by_program_name() {
    assert_eq!(default_args("/usr/bin/cvc5"), s(&["--lang=smt2", "--incremental"]));
    assert_eq!(default_args("/usr/local/bin/CVC4.exe"), s(&["--lang=smt2", "--incremental"]));
    assert_eq!(default_args("yices-smt2"), s(&["--incremental"]));
    assert_eq!(default_args("z3"), s(&["-smt2", "-in"]));
    assert_eq!(default_args("/opt/solvers/mystery"), s(&["-smt2", "-in"]));
}

#[test]
fn solver_lookup() {
    assert_eq!(solver_at("/x/z3", false), None);
    assert_eq!(solver_at("/x/z3", true), Some(Solver { program: "/x/z3".to_string(), args: s(&["-smt2", "-in"]) }));
    assert_eq!(
        find_solver(Some("/opt/cvc5".to_string()), true, true),
        Some(Solver { program: "/opt/cvc5".to_string(), args: s(&["--lang=smt2", "--incremental"]) })
    );
    assert_eq!(find_solver(None, true, true), Some(Solver { program: "z3".to_string(), args: s(&["-smt2", "-in"]) }));
    assert_eq!(
        find_solver(Some(String::new()), false, true),
        Some(Solver { program: "cvc5".to_string(), args: s(&["--lang=smt2", "--incremental"]) })
    );
    assert_eq!(find_solver(None, false, false), None);
}

#[test]
fn is_none_is_the_negated_is_some_constant() {
    let x = || SymOp::Variable(Sym { name: "o".to_string(), type_repr: "(optional uint)".to_string() });
    let p = Predicate::Formula(op(OpKind::And, vec![op(OpKind::IsSome, vec![x()]), op(OpKind::IsNone, vec![x()])]));
    let e = encode_predicate(&p);
    assert_eq!(e.formula, app("and", vec![atom("clv_0"), app("not", vec![atom("clv_0")])]));
    assert_eq!(e.decls, vec![("clv_0".to_string(), true)]);
}
