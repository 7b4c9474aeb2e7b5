use clairvoyance::symop::{Duplicate, Head, OpKind, Sym, SymOp, Value};

fn vu(name: &str) -> Box<SymOp> {
    Box::new(SymOp::Variable(Sym { name: name.to_string(), type_repr: "uint".to_string() }))
}
fn cb(x: bool) -> Box<SymOp> {
    Box::new(SymOp::Constant(Value::Bool(x)))
}
fn cu(x: u128) -> Box<SymOp> {
    Box::new(SymOp::Constant(Value::UInt(x)))
}
fn un(k: OpKind, op: Box<SymOp>) -> Box<SymOp> {
    Box::new(SymOp::Node(Head::Op(k), vec![*op]))
}
fn ok(op: Box<SymOp>) -> Box<SymOp> {
    un(OpKind::ConsOkay, op)
}
fn err(op: Box<SymOp>) -> Box<SymOp> {
    un(OpKind::ConsError, op)
}
fn some(op: Box<SymOp>) -> Box<SymOp> {
    un(OpKind::ConsSome, op)
}
fn none() -> Box<SymOp> {
    Box::new(SymOp::Constant(Value::NoneValue))
}
fn is_ok(op: Box<SymOp>) -> Box<SymOp> {
    un(OpKind::IsOkay, op)
}
fn is_err(op: Box<SymOp>) -> Box<SymOp> {
    un(OpKind::IsErr, op)
}
fn is_some(op: Box<SymOp>) -> Box<SymOp> {
    un(OpKind::IsSome, op)
}
fn is_none(op: Box<SymOp>) -> Box<SymOp> {
    un(OpKind::IsNone, op)
}
fn unwrap_panic(op: Box<SymOp>) -> Box<SymOp> {
    un(OpKind::UnwrapPanic, op)
}
fn unwrap_err_panic(op: Box<SymOp>) -> Box<SymOp> {
    un(OpKind::UnwrapErrPanic, op)
}
fn panic() -> Box<SymOp> {
    Box::new(SymOp::Panic)
}
fn add(ops: Vec<Box<SymOp>>) -> Box<SymOp> {
    Box::new(SymOp::Node(Head::Op(OpKind::Add), ops.into_iter().map(|o| *o).collect()))
}

#[test]
fn test_consolidate_is_ok() {
    // (is-ok (ok x)) == Ok(true)
    let symop = is_ok(ok(vu("x")));
    let simplified = symop.simplify();
    assert_eq!(simplified, Ok(*cb(true)));

    // (is-ok (err x)) == Ok(false)
    let symop = is_ok(err(vu("x")));
    let simplified = symop.simplify();
    assert_eq!(simplified, Ok(*cb(false)));
}

#[test]
fn test_consolidate_is_err() {
    // (is-err (ok x)) == Ok(false)
    let symop = is_err(ok(vu("x")));
    let simplified = symop.simplify();
    assert_eq!(simplified, Ok(*cb(false)));

    // (is-err (err x)) == Ok(true)
    let symop = is_err(err(vu("x")));
    let simplified = symop.simplify();
    assert_eq!(simplified, Ok(*cb(true)));
}

#[test]
fn test_consolidate_is_some() {
    // (is-some (some x)) == Ok(true)
    let symop = is_some(some(vu("x")));
    let simplified = symop.simplify();
    assert_eq!(simplified, Ok(*cb(true)));

    // (is-some none) == Ok(false)
    let symop = is_some(none());
    let simplified = symop.simplify();
    assert_eq!(simplified, Ok(*cb(false)));
}

#[test]
fn test_consolidate_is_none() {
    // (is-none (some x)) == Ok(false)
    let symop = is_none(some(vu("x")));
    let simplified = symop.simplify();
    assert_eq!(simplified, Ok(*cb(false)));

    // (is-none none) == Ok(true)
    let symop = is_none(none());
    let simplified = symop.simplify();
    assert_eq!(simplified, Ok(*cb(true)));
}

#[test]
fn test_consolidate_unwrap_panic() {
    // (unwrap-panic (ok x)) == Ok(x)
    let symop = unwrap_panic(ok(vu("x")));
    let simplified = symop.simplify();
    assert_eq!(simplified, Ok(*vu("x")));

    // (unwrap-panic (some x)) == Ok(x)
    let symop = unwrap_panic(some(vu("x")));
    let simplified = symop.simplify();
    assert_eq!(simplified, Ok(*vu("x")));

    // (unwrap-panic (err x)) == Ok(panic)
    let symop = unwrap_panic(err(vu("x")));
    let simplified = symop.simplify();
    assert_eq!(simplified, Ok(*panic()));

    // (unwrap-panic none) == Ok(panic)
    let symop = unwrap_panic(none());
    let simplified = symop.simplify();
    assert_eq!(simplified, Ok(*panic()));
}

#[test]
fn test_consolidate_unwrap_err_panic() {
    // (unwrap-err-panic (ok x)) == Ok(panic)
    let symop = unwrap_err_panic(ok(vu("x")));
    let simplified = symop.simplify();
    assert_eq!(simplified, Ok(*panic()));

    // (unwrap-err-panic (err x)) == Ok(x)
    let symop = unwrap_err_panic(err(vu("x")));
    let simplified = symop.simplify();
    assert_eq!(simplified, Ok(*vu("x")));
}

#[test]
fn simplify_reduces_operands_first() {
    // (is-ok (unwrap-panic (some (ok x)))) == true
    let symop = is_ok(unwrap_panic(some(ok(vu("x")))));
    assert_eq!(symop.simplify(), Ok(*cb(true)));

    // (+ (unwrap-panic (ok x)) u1) == (+ x u1)
    let symop = add(vec![unwrap_panic(ok(vu("x"))), cu(1)]);
    assert_eq!(symop.simplify(), Ok(*add(vec![vu("x"), cu(1)])));
}

#[test]
fn simplify_leaves_unknown_operands() {
    // (is-ok x) has nothing to reduce
    let symop = is_ok(vu("x"));
    assert_eq!(symop.simplify(), Ok(*is_ok(vu("x"))));

    // (unwrap-err-panic none) is not a response and stays
    let symop = unwrap_err_panic(none());
    assert_eq!(symop.simplify(), Ok(*unwrap_err_panic(none())));
}

#[test]
fn simplify_is_idempotent_on_examples() {
    let examples = vec![
        is_ok(unwrap_panic(some(ok(vu("x"))))),
        add(vec![unwrap_panic(err(vu("x"))), is_none(none())]),
        unwrap_err_panic(none()),
    ];
    for e in examples {
        let once = e.simplify().unwrap();
        let twice = Box::new(once_copy(&once)).simplify().unwrap();
        assert_eq!(once, twice);
    }
}

fn once_copy(op: &SymOp) -> SymOp {
    op.duplicate()
}
