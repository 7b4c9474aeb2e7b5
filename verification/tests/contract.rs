use clairvoyance::contract::{function_params, functions_by_kind, list_functions};
use clairvoyance::expr::SymExpr;
use clairvoyance::symop::Value;

fn atom(a: &str) -> SymExpr {
    SymExpr::Atom(a.to_string(), None)
}
fn list(items: Vec<SymExpr>) -> SymExpr {
    SymExpr::List(items, None)
}

/// `(HEAD (NAME params...) body)`.
fn define(head: &str, name: &str, params: Vec<SymExpr>) -> SymExpr {
    let mut sig = vec![atom(name)];
    sig.extend(params);
    list(vec![atom(head), list(sig), list(vec![atom("ok"), atom("true")])])
}

fn contract() -> Vec<SymExpr> {
    vec![
        list(vec![atom("define-map"), atom("m"), atom("uint"), atom("uint")]),
        define("define-public", "mint", vec![list(vec![atom("amount"), atom("uint")])]),
        define("define-read-only", "invariant-supply", vec![]),
        define(
            "define-private",
            "helper",
            vec![
                list(vec![atom("t"), list(vec![atom("tuple"), list(vec![atom("a"), atom("int")])])]),
                list(vec![atom("b"), list(vec![atom("buff"), SymExpr::Literal(Value::Int(32))])]),
            ],
        ),
        define("define-public", "burn", vec![]),
        atom("stray"),
    ]
}

#[test]
fn lists_public_and_read_only_functions_in_order() {
    assert_eq!(list_functions(&contract()), vec!["mint", "invariant-supply", "burn"]);
    assert_eq!(list_functions(&vec![]), Vec::<String>::new());
}

#[test]
fn functions_by_their_kind() {
    let (publics, readonlys) = functions_by_kind(&contract());
    assert_eq!(publics, vec!["mint", "burn"]);
    assert_eq!(readonlys, vec!["invariant-supply"]);
}

#[test]
fn parameter_types_rendered_back_to_source() {
    assert_eq!(function_params(&contract(), "mint"), Some(vec!["uint".to_string()]));
    assert_eq!(function_params(&contract(), "invariant-supply"), Some(vec![]));
    assert_eq!(
        function_params(&contract(), "helper"),
        Some(vec!["( tuple ( a int ) )".to_string(), "( buff 32 )".to_string()])
    );
    assert_eq!(function_params(&contract(), "missing"), None);
    assert_eq!(function_params(&contract(), "m"), None);
}
