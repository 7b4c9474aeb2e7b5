use clairvoyance::command::{Command, CommandContext};
use clairvoyance::error::Error;
use clairvoyance::expr::SymExpr;
use clairvoyance::symop::{FullName, Head, OpKind, Predicate, Sym, SymOp, Value};

const ADDR: &str = "SP8H248H248H248H248H248H248H248H24ARTQ82";

fn atom(a: &str) -> SymExpr {
    SymExpr::Atom(a.to_string(), None)
}

/// An atom that is also a type signature.
fn ty(t: &str) -> SymExpr {
    SymExpr::Atom(t.to_string(), Some(t.to_string()))
}

fn list(items: Vec<SymExpr>) -> SymExpr {
    SymExpr::List(items, None)
}

/// A list that is also a type signature, as Clarity prints the type.
fn tylist(items: Vec<SymExpr>, t: &str) -> SymExpr {
    SymExpr::List(items, Some(t.to_string()))
}

fn lit(v: Value) -> SymExpr {
    SymExpr::Literal(v)
}

fn field(contract: &str, name: &str) -> SymExpr {
    SymExpr::Field(FullName { contract: contract.to_string(), name: name.to_string() })
}

/// `(name type)`.
fn typed(name: &str, t: &str) -> SymExpr {
    list(vec![atom(name), ty(t)])
}

fn cu(x: u128) -> SymOp {
    SymOp::Constant(Value::UInt(x))
}
fn ci(x: i128) -> SymOp {
    SymOp::Constant(Value::Int(x))
}
fn cb(x: bool) -> SymOp {
    SymOp::Constant(Value::Bool(x))
}
fn cother(s: &str) -> SymOp {
    SymOp::Constant(Value::Other(s.to_string()))
}
fn var(name: &str, t: &str) -> SymOp {
    SymOp::Variable(Sym { name: name.to_string(), type_repr: t.to_string() })
}
fn vu(name: &str) -> SymOp {
    var(name, "uint")
}
fn vi(name: &str) -> SymOp {
    var(name, "int")
}
fn vb(name: &str) -> SymOp {
    var(name, "bool")
}
fn op(k: OpKind, args: Vec<SymOp>) -> SymOp {
    SymOp::Node(Head::Op(k), args)
}
fn name(contract: &str, n: &str) -> FullName {
    FullName { contract: contract.to_string(), name: n.to_string() }
}
fn loaded_var(contract: &str, n: &str, v: SymOp) -> SymOp {
    SymOp::Node(Head::Var(OpKind::LoadedDataVariable, name(contract, n)), vec![v])
}
fn map_get(contract: &str, n: &str, key: SymOp) -> SymOp {
    SymOp::Node(Head::Var(OpKind::LoadedMapEntry, name(contract, n)), vec![key])
}
fn map_entry(contract: &str, n: &str, key: SymOp, value: SymOp) -> SymOp {
    SymOp::Node(Head::Var(OpKind::LoadedMapEntry, name(contract, n)), vec![key, value])
}
fn tcons(fields: Vec<(&str, SymOp)>) -> SymOp {
    let names = fields.iter().map(|(n, _)| n.to_string()).collect();
    let vals = fields.into_iter().map(|(_, v)| v).collect();
    SymOp::Node(Head::Tuple(names), vals)
}

fn inv_cmd(result: SymOp, pred: Predicate) -> Command {
    Command::Invariant(result, pred)
}

#[test]
fn test_extract_command_programs() {
    let tests = vec![
        (
            "this is a normal comment",
            vec![]
        ),
        (
            "(@clairvoyance (test \"this is a program\"))",
            vec!["( test \"this is a program\" )"],
        ),
        (
            "this is a normal comment (@clairvoyance (test \"with a program\")) and a trailer",
            vec!["( test \"with a program\" )"]
        ),
        (
            "(@clairvoyance )",
            vec![]
        ),
        (
            "(@clairvoy-this-is-a-normal-comment)",
            vec![]
        ),
        (
            "(this is a normal comment (@clairvoyance (test \"and this is a program\")))",
            vec!["( test \"and this is a program\" )"],
        ),
        (
            "(@clairvoyance (test \"can nest (@clairvoyance (test \"programs and quotes\"))\")) and have trailers",
            vec!["( test \"can nest (@clairvoyance (test \"programs and quotes\"))\" )"]
        ),
        (
            r#"
            (@clairvoyance (test "drop end-of-file comments")) ;; this is a comment
            "#,
            vec!["( test \"drop end-of-file comments\" )"]
        ),
        (
            r#"
            (@clairvoyance
                (test "drop end-of-line comments") ;; this is a comment
            )"#,
            vec!["( test \"drop end-of-line comments\" )"]
        ),
        (
            r#"
            ;; this is a comment
            (@clairvoyance (test "comments do not break end-of-program) ;; )
            ")) ;; this is a comment
            ;; this is a comment
            "#,
            vec!["( test \"comments do not break end-of-program) ;; )\n            \" )"]
        ),
        (
            r#"
            (@clairvoyance
                (test
                    ;; this is a comment!
                    "can nest comments"))
            "#,
            vec!["( test \"can nest comments\" )"]
        ),
        (
            r#"
            ((((((((@clairvoyance (test "this is processed"))
            "#,
            vec!["( test \"this is processed\" )"],
        ),
        (
            r#"
            " (@clairvoyance (test "this is processed"))
            "#,
            vec!["( test \"this is processed\" )"],
        ),
        (
            // comments are only ignored _within_ (@clairvoyance ..) s-exps
            r#"
            ;; (@clairvoyance (test "this is processed"))
            "#,
            vec!["( test \"this is processed\" )"],
        ),
    ];

    for (inp, out) in tests.into_iter() {
        let out: Vec<String> = out.into_iter().map(|s: &str| s.to_string()).collect();
        let progs = CommandContext::extract_command_programs(&inp);
        assert_eq!(out, progs, "Failed to parse `{inp}`");
    }
}

/// Runs each program, written as its parsed expressions, and checks the
/// commands it gives or the cause of the error it stops with.
fn run_programs(tests: Vec<(&str, Vec<SymExpr>, Result<Vec<Command>, &str>)>) {
    let mut ctx = CommandContext::new();
    for (prog, exprs, expected_events) in tests.into_iter() {
        match ctx.eval_program(&exprs) {
            Ok(events) => {
                let Ok(expected_events) = expected_events else {
                    panic!("Evaluating program `{prog}` was supposed to fail (got Ok event `{events:?}`)");
                };
                assert_eq!(events, expected_events, "Failed to run program {prog}");
            }
            Err(Error::Program(program_error)) => {
                let msg = &program_error.cause;
                let Err(expected_msg) = expected_events else {
                    panic!("Evaluating program `{prog}` was not supposed to fail (got msg `{msg}`)");
                };
                assert!(msg.find(expected_msg).is_some(), "Failed to find expected message `{expected_msg}` in `{msg}`");
            }
            Err(e) => {
                panic!("Unexpected error: `{e:?}`");
            }
        }
    }
}

#[test]
fn test_eval_program() {
    let contract = format!("{ADDR}.contract");
    let tests = vec![
        (
            r#"(test "hello world!")"#,
            vec![list(vec![atom("test"), lit(Value::Other("\"hello world!\"".to_string()))])],
            Ok(vec![Command::Test("\"hello world!\"".to_string())]),
        ),
        (
            r#"
                (test "foo")
                (test "bar")
            "#,
            vec![
                list(vec![atom("test"), lit(Value::Other("\"foo\"".to_string()))]),
                list(vec![atom("test"), lit(Value::Other("\"bar\"".to_string()))]),
            ],
            Ok(vec![
               Command::Test("\"foo\"".to_string()),
               Command::Test("\"bar\"".to_string()),
            ])
        ),
        (
            r#"
                (test u1)
                (test true)
                (test tx-sender)
            "#,
            vec![
                list(vec![atom("test"), lit(Value::UInt(1))]),
                list(vec![atom("test"), atom("true")]),
                list(vec![atom("test"), atom("tx-sender")]),
            ],
            Ok(vec![
               Command::Test("u1".to_string()),
               Command::Test("true".to_string()),
               Command::Test("(tx-sender principal)".to_string()),
            ]),
        ),
        (
            r#"
                (invariant
                    (ok (map-entry 'SP8H248H248H248H248H248H248H248H24ARTQ82.contract.m (modulus uint)))
                    (is-eq (len (items (list 5 uint))) u0))
            "#,
            vec![list(vec![
                atom("invariant"),
                list(vec![atom("ok"), list(vec![atom("map-entry"), field(&contract, "m"), typed("modulus", "uint")])]),
                list(vec![
                    atom("is-eq"),
                    list(vec![
                        atom("len"),
                        list(vec![atom("items"), tylist(vec![atom("list"), lit(Value::Int(5)), ty("uint")], "(list 5 uint)")]),
                    ]),
                    lit(Value::UInt(0)),
                ]),
            ])],
            Ok(vec![
                inv_cmd(
                    op(OpKind::ConsOkay, vec![map_get(&contract, "m", vu("modulus"))]),
                    Predicate::Formula(op(OpKind::Equals, vec![op(OpKind::Len, vec![var("items", "(list 5 uint)")]), cu(0)])),
                )
            ])
        ),
        (
            r#"(test "force-failure!")"#,
            vec![list(vec![atom("test"), lit(Value::Other("\"force-failure!\"".to_string()))])],
            Err("`test` command forced to fail"),
        )
    ];
    run_programs(tests);
}

#[test]
fn test_eval_invariant() {
    let foo = format!("{ADDR}.foo");
    let inv = |e: SymExpr| list(vec![atom("invariant"), e, atom("true")]);
    let pt = || Predicate::True;

    let tests: Vec<(&str, Vec<SymExpr>, Result<Vec<Command>, &str>)> = vec![
        (
            "(invariant true true)",
            vec![inv(atom("true"))],
            Ok(vec![inv_cmd(cb(true), pt())]),
        ),
        (
            "(invariant u0 true)",
            vec![inv(lit(Value::UInt(0)))],
            Ok(vec![inv_cmd(cu(0), pt())]),
        ),
        (
            "(invariant 0 true)",
            vec![inv(lit(Value::Int(0)))],
            Ok(vec![inv_cmd(ci(0), pt())]),
        ),
        (
            "(invariant (list u5) true)",
            vec![inv(list(vec![atom("list"), lit(Value::UInt(5))]))],
            Ok(vec![inv_cmd(op(OpKind::ListCons, vec![cu(5)]), pt())]),
        ),
        (
            "(invariant (tuple (x u3)) true)",
            vec![inv(list(vec![atom("tuple"), list(vec![atom("x"), lit(Value::UInt(3))])]))],
            Ok(vec![inv_cmd(tcons(vec![("x", cu(3))]), pt())]),
        ),
        (
            "(invariant { y: u4 } true)",
            vec![inv(list(vec![atom("tuple"), list(vec![atom("y"), lit(Value::UInt(4))])]))],
            Ok(vec![inv_cmd(tcons(vec![("y", cu(4))]), pt())]),
        ),
        (
            "(invariant 'SP8H248H248H248H248H248H248H248H24ARTQ82 true)",
            vec![inv(lit(Value::Other(format!("'{ADDR}"))))],
            Ok(vec![inv_cmd(cother(&format!("'{ADDR}")), pt())]),
        ),
        (
            "(invariant 'SP8H248H248H248H248H248H248H248H24ARTQ82.foo true)",
            vec![inv(lit(Value::Other(format!("'{ADDR}.foo"))))],
            Ok(vec![inv_cmd(cother(&format!("'{ADDR}.foo")), pt())]),
        ),
        (
            "(invariant (ok true) true)",
            vec![inv(list(vec![atom("ok"), atom("true")]))],
            Ok(vec![inv_cmd(op(OpKind::ConsOkay, vec![cb(true)]), pt())]),
        ),
        (
            "(invariant (err false) true)",
            vec![inv(list(vec![atom("err"), atom("false")]))],
            Ok(vec![inv_cmd(op(OpKind::ConsError, vec![cb(false)]), pt())]),
        ),
        (
            "(invariant (some true) true)",
            vec![inv(list(vec![atom("some"), atom("true")]))],
            Ok(vec![inv_cmd(op(OpKind::ConsSome, vec![cb(true)]), pt())]),
        ),
        (
            "(invariant 0x112233 true)",
            vec![inv(lit(Value::Other("0x112233".to_string())))],
            Ok(vec![inv_cmd(cother("0x112233"), pt())]),
        ),
        (
            "(invariant \"hello world\" true)",
            vec![inv(lit(Value::Other("\"hello world\"".to_string())))],
            Ok(vec![inv_cmd(cother("\"hello world\""), pt())]),
        ),
        (
            "(invariant u\"hello world\" true)",
            vec![inv(lit(Value::Other("u\"hello world\"".to_string())))],
            Ok(vec![inv_cmd(cother("u\"hello world\""), pt())]),
        ),
        (
            "(invariant (x uint) true)",
            vec![inv(typed("x", "uint"))],
            Ok(vec![inv_cmd(vu("x"), pt())]),
        ),
        (
            "(invariant (x int) true)",
            vec![inv(typed("x", "int"))],
            Ok(vec![inv_cmd(vi("x"), pt())]),
        ),
        (
            "(invariant (x bool) true)",
            vec![inv(typed("x", "bool"))],
            Ok(vec![inv_cmd(vb("x"), pt())]),
        ),
        (
            "(invariant (x (optional uint)) true)",
            vec![inv(list(vec![atom("x"), tylist(vec![atom("optional"), ty("uint")], "(optional uint)")]))],
            Ok(vec![inv_cmd(var("x", "(optional uint)"), pt())]),
        ),
        (
            "(invariant (loaded-var 'SP8H248H248H248H248H248H248H248H24ARTQ82.foo.x (x uint)) true)",
            vec![inv(list(vec![atom("loaded-var"), field(&foo, "x"), typed("x", "uint")]))],
            Ok(vec![inv_cmd(loaded_var(&foo, "x", vu("x")), pt())]),
        ),
        (
            "(invariant (loaded-var-const 'SP8H248H248H248H248H248H248H248H24ARTQ82.foo.x u1) true)",
            vec![inv(list(vec![atom("loaded-var-const"), field(&foo, "x"), lit(Value::UInt(1))]))],
            Ok(vec![inv_cmd(loaded_var(&foo, "x", cu(1)), pt())]),
        ),
        (
            "(invariant (loaded-var-type 'SP8H248H248H248H248H248H248H248H24ARTQ82.foo.x uint) true)",
            vec![inv(list(vec![atom("loaded-var-type"), field(&foo, "x"), ty("uint")]))],
            Ok(vec![inv_cmd(loaded_var(&foo, "x", vu("x")), pt())]),
        ),
        (
            "(invariant (loaded-var-sym 'SP8H248H248H248H248H248H248H248H24ARTQ82.foo.x (x uint)) true)",
            vec![inv(list(vec![atom("loaded-var-sym"), field(&foo, "x"), typed("x", "uint")]))],
            Ok(vec![inv_cmd(loaded_var(&foo, "x", vu("x")), pt())]),
        ),
        (
            "(invariant (+ (x uint) (y uint) (z uint)) true)",
            vec![inv(list(vec![atom("+"), typed("x", "uint"), typed("y", "uint"), typed("z", "uint")]))],
            Ok(vec![inv_cmd(op(OpKind::Add, vec![vu("x"), vu("y"), vu("z")]), pt())]),
        ),
        (
            "(invariant (- (x uint) (y uint) (z uint)) true)",
            vec![inv(list(vec![atom("-"), typed("x", "uint"), typed("y", "uint"), typed("z", "uint")]))],
            Ok(vec![inv_cmd(op(OpKind::Subtract, vec![vu("x"), vu("y"), vu("z")]), pt())]),
        ),
        (
            "(invariant (* (x uint) (y uint) (z uint)) true)",
            vec![inv(list(vec![atom("*"), typed("x", "uint"), typed("y", "uint"), typed("z", "uint")]))],
            Ok(vec![inv_cmd(op(OpKind::Multiply, vec![vu("x"), vu("y"), vu("z")]), pt())]),
        ),
        (
            "(invariant (/ (x uint) (y uint) (z uint)) true)",
            vec![inv(list(vec![atom("/"), typed("x", "uint"), typed("y", "uint"), typed("z", "uint")]))],
            Ok(vec![inv_cmd(op(OpKind::Divide, vec![vu("x"), vu("y"), vu("z")]), pt())]),
        ),
        (
            "(invariant (mod (x uint) (y uint)) true)",
            vec![inv(list(vec![atom("mod"), typed("x", "uint"), typed("y", "uint")]))],
            Ok(vec![inv_cmd(op(OpKind::Modulo, vec![vu("x"), vu("y")]), pt())]),
        ),
        (
            "(invariant (and (x bool) (y bool) (z bool)) true)",
            vec![inv(list(vec![atom("and"), typed("x", "bool"), typed("y", "bool"), typed("z", "bool")]))],
            Ok(vec![inv_cmd(op(OpKind::And, vec![vb("x"), vb("y"), vb("z")]), pt())]),
        ),
        (
            "(invariant (or (x bool) (y bool) (z bool)) true)",
            vec![inv(list(vec![atom("or"), typed("x", "bool"), typed("y", "bool"), typed("z", "bool")]))],
            Ok(vec![inv_cmd(op(OpKind::Or, vec![vb("x"), vb("y"), vb("z")]), pt())]),
        ),
        (
            "(invariant (map-entry 'SP8H248H248H248H248H248H248H248H24ARTQ82.foo.m (x uint)) true)",
            vec![inv(list(vec![atom("map-entry"), field(&foo, "m"), typed("x", "uint")]))],
            Ok(vec![inv_cmd(map_get(&foo, "m", vu("x")), pt())]),
        ),
        (
            "(invariant (map-entry 'SP8H248H248H248H248H248H248H248H24ARTQ82.foo.m (x uint) (y bool)) true)",
            vec![inv(list(vec![atom("map-entry"), field(&foo, "m"), typed("x", "uint"), typed("y", "bool")]))],
            Ok(vec![inv_cmd(map_entry(&foo, "m", vu("x"), vb("y")), pt())]),
        ),
        (
            "(invariant (map-entry-const 'SP8H248H248H248H248H248H248H248H24ARTQ82.foo.m (x uint) true) true)",
            vec![inv(list(vec![atom("map-entry-const"), field(&foo, "m"), typed("x", "uint"), atom("true")]))],
            Ok(vec![inv_cmd(map_entry(&foo, "m", vu("x"), cb(true)), pt())]),
        ),
        (
            "(invariant (map-entry-type 'SP8H248H248H248H248H248H248H248H24ARTQ82.foo.m (x uint) (y bool) bool) true)",
            vec![inv(list(vec![atom("map-entry-type"), field(&foo, "m"), typed("x", "uint"), typed("y", "bool"), ty("bool")]))],
            Ok(vec![inv_cmd(map_entry(&foo, "m", vu("x"), vb("y")), pt())]),
        ),
        (
            "(invariant (map-entry-sym 'SP8H248H248H248H248H248H248H248H24ARTQ82.foo.m (x uint)) true)",
            vec![inv(list(vec![atom("map-entry-sym"), field(&foo, "m"), typed("x", "uint")]))],
            Ok(vec![inv_cmd(map_get(&foo, "m", vu("x")), pt())]),
        ),
        (
            "(invariant (map-entry-sym 'SP8H248H248H248H248H248H248H248H24ARTQ82.foo.m (x uint) (y bool)) true)",
            vec![inv(list(vec![atom("map-entry-sym"), field(&foo, "m"), typed("x", "uint"), typed("y", "bool")]))],
            Ok(vec![inv_cmd(map_entry(&foo, "m", vu("x"), vb("y")), pt())]),
        ),
    ];
    run_programs(tests);
}

#[test]
fn define_symbol_is_substituted_in_later_directives() {
    let even = list(vec![
        atom("is-eq"),
        list(vec![atom("mod"), typed("x", "uint"), lit(Value::UInt(2))]),
        lit(Value::UInt(0)),
    ]);
    let exprs = vec![
        list(vec![atom("define-symbol"), atom("x-is-even"), even]),
        list(vec![atom("invariant"), list(vec![atom("err"), lit(Value::UInt(0))]), list(vec![atom("not"), typed("x-is-even", "bool")])]),
    ];
    let mut ctx = CommandContext::new();
    let cmds = ctx.eval_program(&exprs).unwrap();
    let even_op = || op(OpKind::Equals, vec![op(OpKind::Modulo, vec![vu("x"), cu(2)]), cu(0)]);
    let named = SymOp::Node(Head::Labeled(OpKind::Named, "x-is-even".to_string()), vec![even_op()]);
    assert_eq!(
        cmds,
        vec![
            Command::DefineSymbol("x-is-even".to_string(), even_op()),
            inv_cmd(op(OpKind::ConsError, vec![cu(0)]), Predicate::Formula(op(OpKind::Not, vec![named]))),
        ]
    );
}

#[test]
fn redefining_a_symbol_is_an_error() {
    let exprs = vec![
        list(vec![atom("define-symbol"), atom("s"), lit(Value::UInt(1))]),
        list(vec![atom("define-symbol"), atom("s"), lit(Value::UInt(2))]),
    ];
    let mut ctx = CommandContext::new();
    let Err(Error::Program(pe)) = ctx.eval_program(&exprs) else { panic!("a symbol was defined twice") };
    assert_eq!(pe.cause, "Name already used: `s` in `(define-symbol s u2)`");
}

#[test]
fn directive_argument_counts_are_reported() {
    let mut ctx = CommandContext::new();
    let Err(Error::Program(pe)) = ctx.eval_program(&vec![list(vec![atom("invariant"), atom("true")])]) else { panic!() };
    assert_eq!(pe.cause, "`invariant` expects 2 arguments, got 1");

    let halt = list(vec![atom("halt"), list(vec![atom("result"), atom("true"), atom("false")])]);
    let Err(Error::Program(pe)) = ctx.eval_program(&vec![halt]) else { panic!() };
    assert_eq!(pe.cause, "List expression #0 (directive `result`) expects 1 argument: ( result true false )");

    let halt = list(vec![atom("halt"), list(vec![atom("result"), atom("true")]), list(vec![atom("result"), atom("true")])]);
    let Err(Error::Program(pe)) = ctx.eval_program(&vec![halt]) else { panic!() };
    assert_eq!(pe.cause, "List expression #1 is a duplicate directive `result`: ( result true )");

    let halt = list(vec![atom("halt"), list(vec![atom("frob")])]);
    let Err(Error::Program(pe)) = ctx.eval_program(&vec![halt]) else { panic!() };
    assert_eq!(pe.cause, "Unrecognized directive `frob` in list expression #0: ( frob )");
}

#[test]
fn directive_that_is_not_a_list_is_an_error() {
    let mut ctx = CommandContext::new();
    let Err(Error::Program(pe)) = ctx.eval_program(&vec![atom("test")]) else { panic!() };
    assert_eq!(pe.cause, "Directive #0 is not a list: test");
}

#[test]
fn unknown_directive_is_not_found() {
    let mut ctx = CommandContext::new();
    let r = ctx.eval_program(&vec![list(vec![atom("frobnicate"), lit(Value::UInt(1))])]);
    assert_eq!(r, Err(Error::NotFound("Unrecognized command 'frobnicate'".to_string())));
}

#[test]
fn halt_directive_reads_result_condition_and_writes() {
    let foo = format!("{ADDR}.foo");
    let exprs = vec![list(vec![
        atom("halt"),
        list(vec![atom("result"), list(vec![atom("ok"), atom("true")])]),
        list(vec![atom("condition"), list(vec![atom("is-eq"), typed("x", "uint"), lit(Value::UInt(0))])]),
        list(vec![atom("var-write"), field(&foo, "v"), typed("x", "uint")]),
        list(vec![atom("map-write"), field(&foo, "m"), typed("x", "uint"), lit(Value::UInt(7))]),
        list(vec![atom("panicking")]),
    ])];
    let mut ctx = CommandContext::new();
    let cmds = ctx.eval_program(&exprs).unwrap();
    assert_eq!(cmds.len(), 1);
    let Command::Halt(h) = &cmds[0] else { panic!("not a halt") };
    assert_eq!(h.formula, op(OpKind::ConsOkay, vec![cb(true)]));
    assert_eq!(h.condition, Some(Predicate::Formula(op(OpKind::Equals, vec![vu("x"), cu(0)]))));
    assert_eq!(h.vars, vec![(name(&foo, "v"), vu("x"))]);
    assert_eq!(h.map_state, vec![(name(&foo, "m"), vec![(vu("x"), cu(7))])]);
    assert!(h.panicking);
    assert!(!h.early_return);
}

#[test]
fn comment_block_joins_comments_and_takes_the_first_line() {
    assert_eq!(CommandContext::comment_block(&vec![]), None);
    let comments = vec![
        (" (@clairvoyance".to_string(), 7),
        ("   (test u1))".to_string(), 8),
        (" trailing".to_string(), 5),
    ];
    assert_eq!(
        CommandContext::comment_block(&comments),
        Some((" (@clairvoyance\n   (test u1))\n trailing".to_string(), 5))
    );
    let (text, _) = CommandContext::comment_block(&comments).unwrap();
    assert_eq!(CommandContext::extract_command_programs(&text), vec!["( test u1 )".to_string()]);
}

fn decode_cause(e: SymExpr) -> String {
    match SymOp::try_from_expr(&e) {
        Err(Error::Program(pe)) => pe.cause,
        other => panic!("expected a program error, got {other:?}"),
    }
}

#[test]
fn decoding_errors_name_the_expression() {
    assert_eq!(decode_cause(atom("frob")), "Symbolic expression is an unrecognized atom: frob");
    assert_eq!(decode_cause(list(vec![])), "Symbolic expression is empty: ( )");
    assert_eq!(decode_cause(list(vec![atom("+")])), "Symbolic expression has only one element: ( + )");
    assert_eq!(
        decode_cause(list(vec![atom("+"), lit(Value::UInt(1))])),
        "Symbolic expression list `( u1 )` has unexpected length 1 (expected at least 2)"
    );
    assert_eq!(
        decode_cause(list(vec![atom("not"), atom("true"), atom("false")])),
        "Symbolic expression list `( true false )` has more than 2 items (expected at least 1)"
    );
    assert_eq!(
        decode_cause(list(vec![atom("frob"), lit(Value::UInt(1))])),
        "Bug(\"Unrecognized Clarity function `frob`\")"
    );
    assert_eq!(
        decode_cause(list(vec![atom("tuple"), atom("x")])),
        "tuple binding #0 (x) is not a list (in ( tuple x ))"
    );
    assert_eq!(
        decode_cause(list(vec![atom("var-get"), atom("v")])),
        "Fullname `v` is not a fully-qualified name"
    );
    assert_eq!(
        decode_cause(list(vec![atom("principal-construct"), lit(Value::UInt(1)), lit(Value::UInt(2)), lit(Value::UInt(3)), lit(Value::UInt(4))])),
        "principal-construct takes 2 or 3 args; got 4"
    );
}

#[test]
fn eval_reads_programs_in_turn_and_shares_their_symbols() {
    let first = vec![list(vec![atom("define-symbol"), atom("one"), lit(Value::UInt(1))])];
    let second = vec![list(vec![
        atom("invariant"),
        list(vec![atom("ok"), typed("one", "uint")]),
        atom("true"),
    ])];
    let mut ctx = CommandContext::new();
    let cmds = ctx.eval(&vec![first, second]).unwrap();
    let named = SymOp::Node(Head::Labeled(OpKind::Named, "one".to_string()), vec![cu(1)]);
    assert_eq!(
        cmds,
        vec![
            Command::DefineSymbol("one".to_string(), cu(1)),
            inv_cmd(op(OpKind::ConsOkay, vec![named]), Predicate::True),
        ]
    );
    assert_eq!(CommandContext::new().eval(&vec![]), Ok(vec![]));
}

#[test]
fn eval_stops_at_the_first_program_that_fails() {
    let bad = vec![atom("oops")];
    let good = || vec![list(vec![atom("define-symbol"), atom("s"), lit(Value::UInt(1))])];
    let mut ctx = CommandContext::new();
    let Err(Error::Program(pe)) = ctx.eval(&vec![good(), bad, good()]) else { panic!("a bad program was read") };
    assert_eq!(pe.cause, "Directive #0 is not a list: oops");
}

#[test]
fn define_formula_is_another_name_for_define_symbol() {
    let exprs = vec![
        list(vec![atom("define-formula"), atom("two"), lit(Value::UInt(2))]),
        list(vec![atom("invariant"), list(vec![atom("ok"), typed("two", "uint")]), atom("true")]),
    ];
    let mut ctx = CommandContext::new();
    let cmds = ctx.eval_program(&exprs).unwrap();
    let named = SymOp::Node(Head::Labeled(OpKind::Named, "two".to_string()), vec![cu(2)]);
    assert_eq!(
        cmds,
        vec![
            Command::DefineSymbol("two".to_string(), cu(2)),
            inv_cmd(op(OpKind::ConsOkay, vec![named]), Predicate::True),
        ]
    );
    let Err(Error::Program(pe)) = ctx.try_interpret(&"define-formula".to_string(), &vec![atom("two")]) else { panic!() };
    assert_eq!(pe.cause, "`define-formula` expects 2 arguments, got 1");
    let Err(Error::Program(pe)) = ctx.try_interpret(&"define-formula".to_string(), &vec![atom("two"), lit(Value::UInt(3))]) else {
        panic!()
    };
    assert_eq!(pe.cause, "Name already used: `two` in `(define-symbol two u3)`");
}

#[test]
fn halt_without_result_or_condition_names_what_is_missing() {
    let mut ctx = CommandContext::new();
    let Err(Error::Program(pe)) = ctx.try_interpret(&"halt".to_string(), &vec![list(vec![atom("panicking")])]) else { panic!() };
    assert_eq!(pe.cause, "No `result` directive given");
    let Err(Error::Program(pe)) =
        ctx.try_interpret(&"halt".to_string(), &vec![list(vec![atom("result"), atom("true")])])
    else {
        panic!()
    };
    assert_eq!(pe.cause, "No `condition` directive given");
}

#[test]
fn wrong_operand_counts_are_reported_by_length() {
    let e = list(vec![atom("mod"), list(vec![atom("x"), ty("uint")])]);
    let Err(Error::Program(pe)) = SymOp::try_from_expr(&e) else { panic!() };
    assert_eq!(pe.cause, "Symbolic expression list `( ( x uint ) )` has unexpected length 1 (expected at least 2)");
    let Err(Error::Program(pe)) = SymOp::try_from_expr(&list(vec![])) else { panic!() };
    assert_eq!(pe.cause, "Symbolic expression is empty: ( )");
}
