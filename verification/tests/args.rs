use clairvoyance::args::{
    check_targets, needs_listing, parse_u64, split_default_trait, split_dependency, split_text, split_trait_binding,
    split_trait_variable, step_budget, time_budget, TraitBindings,
};
use clairvoyance::symop::FullName;

#[test]
fn parse_u64_reads_as_rust_does() {
    for t in ["0", "42", "+7", "18446744073709551615", "007", "", "+", "-1", "1x", " 1", "18446744073709551616"] {
        assert_eq!(parse_u64(t), t.parse::<u64>().ok(), "reading `{t}`");
    }
}

#[test]
fn budgets() {
    assert_eq!(time_budget(None), Ok(Some(60)));
    assert_eq!(time_budget(Some("5".to_string())), Ok(Some(5)));
    assert_eq!(time_budget(Some("soon".to_string())), Err((1, "--time-budget expects seconds, got 'soon'".to_string())));
    assert_eq!(step_budget(None), Ok(Some(2000000)));
    assert_eq!(step_budget(Some("10".to_string())), Ok(Some(10)));
    assert_eq!(step_budget(Some("-1".to_string())), Err((1, "--max-steps expects a number, got '-1'".to_string())));
}

#[test]
fn split_text_keeps_empty_pieces() {
    assert_eq!(split_text("a:b::c", ':'), vec!["a", "b", "", "c"]);
    assert_eq!(split_text("", ':'), vec![""]);
    assert_eq!(split_text("abc", ':'), vec!["abc"]);
}

#[test]
fn dependency_arguments() {
    assert_eq!(split_dependency("SP1.c:/tmp/c.clar"), Ok(("SP1.c".to_string(), "/tmp/c.clar".to_string())));
    assert_eq!(split_dependency("SP1.c:a:b"), Ok(("SP1.c".to_string(), "a".to_string())));
    assert_eq!(split_dependency("SP1.c"), Err("dependency 'SP1.c' missing source file".to_string()));
}

#[test]
fn trait_binding_arguments() {
    assert_eq!(
        split_trait_binding("SP1.c.f.t:SP2.impl"),
        Ok(("SP1.c.f.t".to_string(), "SP2.impl".to_string()))
    );
    assert_eq!(
        split_trait_binding("SP1.c.f.t"),
        Err("Failed to parse trait implementation contract from SP1.c.f.t".to_string())
    );
    assert_eq!(split_trait_binding("a:b:c"), Err("Invalid value a:b:c: too many `:` separators".to_string()));
    assert_eq!(split_trait_variable("SP1.c.f.t"), Ok(vec!["SP1".to_string(), "c".to_string(), "f".to_string(), "t".to_string()]));
    assert_eq!(split_trait_variable("SP1.c.f.t.extra").unwrap().len(), 4);
    assert_eq!(split_trait_variable("SP1"), Err("Missing contract name in SP1".to_string()));
    assert_eq!(split_trait_variable("SP1.c"), Err("Missing function name in SP1.c".to_string()));
    assert_eq!(split_trait_variable("SP1.c.f"), Err("Missing var name in SP1.c.f".to_string()));
    assert_eq!(split_default_trait("SP1.c.tr:SP2.i"), Ok(("SP1.c.tr".to_string(), "SP2.i".to_string())));
    assert_eq!(split_default_trait("SP1.c.tr"), Err("Missing contract name in `SP1.c.tr`".to_string()));
}

#[test]
fn later_binding_of_a_variable_replaces_the_earlier() {
    let f = |n: &str| FullName { contract: "SP1.c".to_string(), name: n.to_string() };
    let mut b = TraitBindings::new();
    b.bind(f("swap"), "t".to_string(), "SP2.a".to_string());
    b.bind(f("swap"), "u".to_string(), "SP2.b".to_string());
    b.bind(f("swap"), "t".to_string(), "SP2.c".to_string());
    b.bind(f("other"), "t".to_string(), "SP2.d".to_string());
    let e = b.entries();
    assert_eq!(e.len(), 2);
    assert_eq!(e[0].0, f("swap"));
    assert_eq!(
        e[0].1,
        vec![("t".to_string(), "SP2.c".to_string()), ("u".to_string(), "SP2.b".to_string())]
    );
    assert_eq!(e[1].1, vec![("t".to_string(), "SP2.d".to_string())]);
}

#[test]
fn check_targets_choice() {
    let named = "f".to_string();
    let option = "--all".to_string();
    assert!(!needs_listing(Some(&named), false));
    assert!(needs_listing(Some(&named), true));
    assert!(needs_listing(Some(&option), false));
    assert!(needs_listing(None, false));
    assert_eq!(check_targets(Some(&named), false, Ok(vec![])), Ok(vec!["f".to_string()]));
    assert_eq!(check_targets(None, false, Ok(vec!["a".to_string()])), Ok(vec!["a".to_string()]));
    assert_eq!(
        check_targets(None, false, Ok(vec![])),
        Err((1, "No public or read-only functions found to check".to_string()))
    );
    assert_eq!(
        check_targets(Some(&option), false, Err("bad".to_string())),
        Err((2, "Could not parse contract to list its functions: bad".to_string()))
    );
}
