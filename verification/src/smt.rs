//! Translating a path predicate into SMT-LIB, for a solver to decide.
//!
//! The translation over-approximates: whatever it cannot model becomes a
//! fresh uninterpreted constant, which only admits more models than the real
//! term. So an `Unsat` answer is sound, and `Sat` proves nothing.
//!
//! `int` and `uint` are SMT `Int`s. Every constant standing for a `uint` term
//! comes with the fact that it is non-negative. `div` and `mod` are
//! translated only when both operands are known to be unsigned, since Clarity
//! truncates signed division toward zero. A small constant exponent (up to
//! four) becomes repeated multiplication. The same term always maps to the
//! same constant, and a named formula's constant is asserted equal to its
//! definition once.
//!
//! The result is a formula, the constants to declare first (with their
//! sorts), and the side facts to assert with it.

use vstd::prelude::*;
use crate::symop::{Duplicate, Value, ValueV, OpKind, Head, HeadV, SymOp, Term, terms_of, lemma_terms_of, Predicate, PredicateV, predicate_term};
use crate::state::{lookup, distinct_keys, lemma_lookup_at};
use crate::render::render;
use crate::text::{decimal, decimal_text, concat, chars_eq};

verus! {

broadcast use vstd::std_specs::vec::group_vec_axioms;

/// What a solver concluded about a formula.
#[derive(Clone, Copy, PartialEq, Eq, Structural, Debug)]
pub enum Answer {
    /// Provably has no model: the path is infeasible.
    Unsat,
    /// A model was found for the relaxed formula; treat as `Unknown`.
    Sat,
    /// No solver, a solver error, or the solver gave up.
    Unknown,
}

/// A solver to talk to: the program and the arguments that put it in
/// SMT-LIB-2-over-stdin mode.
#[derive(Debug, PartialEq)]
pub struct Solver {
    pub program: String,
    pub args: Vec<String>,
}

/// An SMT-LIB s-expression: an atom, or an operator applied to operands.
#[derive(Debug, PartialEq)]
pub enum Smt {
    Atom(String),
    App(String, Vec<Smt>),
}

pub enum SmtV {
    Atom(Seq<char>),
    App(Seq<char>, Seq<SmtV>),
}

pub open spec fn smt_of(e: Smt) -> SmtV
    decreases e,
{
    match e {
        Smt::Atom(a) => SmtV::Atom(a@),
        Smt::App(op, args) => {
            proof {
                assert(decreases_to!(args => args@));
            }
            SmtV::App(op@, smts_of(args@))
        },
    }
}

pub open spec fn smts_of(es: Seq<Smt>) -> Seq<SmtV>
    decreases es,
{
    if es.len() == 0 {
        Seq::empty()
    } else {
        proof {
            assert(decreases_to!(es => es[es.len() - 1]));
        }
        smts_of(es.drop_last()).push(smt_of(es.last()))
    }
}

pub proof fn lemma_smts_of(es: Seq<Smt>)
    ensures
        smts_of(es).len() == es.len(),
        forall|i: int| 0 <= i < es.len() ==> #[trigger] smts_of(es)[i] == smt_of(es[i]),
    decreases es.len(),
{
    if es.len() > 0 {
        lemma_smts_of(es.drop_last());
        assert forall|i: int| 0 <= i < es.len() implies #[trigger] smts_of(es)[i] == smt_of(es[i]) by {
            if i < es.len() - 1 {
                assert(es.drop_last()[i] == es[i]);
            }
        }
    }
}

impl View for Smt {
    type V = SmtV;

    open spec fn view(&self) -> SmtV {
        smt_of(*self)
    }
}

/// An operator over several operands; a single operand stands for itself.
pub open spec fn variadic(op: Seq<char>, xs: Seq<SmtV>) -> SmtV {
    if xs.len() == 1 {
        xs[0]
    } else {
        SmtV::App(op, xs)
    }
}

/// Whether a term is known to be unsigned (`Some(true)`), known to be
/// signed (`Some(false)`), or of unknown signedness: integer constants and
/// symbols carry their sign, conversions give theirs, lengths are unsigned,
/// and arithmetic has the sign of its first operand.
pub open spec fn is_unsigned(t: Term) -> Option<bool> {
    match t {
        Term::Constant(ValueV::UInt(_)) => Some(true),
        Term::Constant(ValueV::Int(_)) => Some(false),
        Term::Variable(s) => if s.1 == "uint"@ { Some(true) } else if s.1 == "int"@ { Some(false) } else { None },
        Term::Node(HeadV::Op(OpKind::ToUInt), _) => Some(true),
        Term::Node(HeadV::Op(OpKind::ToInt), _) => Some(false),
        Term::Node(HeadV::Op(OpKind::Len), _) => Some(true),
        Term::Node(HeadV::Op(k), args) => if (k == OpKind::Add || k == OpKind::Subtract || k == OpKind::Multiply
            || k == OpKind::Divide || k == OpKind::Modulo || k == OpKind::Power) && args.len() > 0 {
            match args[0] {
                Term::Constant(ValueV::UInt(_)) => Some(true),
                Term::Constant(ValueV::Int(_)) => Some(false),
                Term::Variable(s) => if s.1 == "uint"@ { Some(true) } else if s.1 == "int"@ { Some(false) } else { None },
                _ => None,
            }
        } else {
            None
        },
        _ => None,
    }
}

pub open spec fn all_unsigned(ops: Seq<Term>) -> bool {
    forall|i: int| 0 <= i < ops.len() ==> is_unsigned(#[trigger] ops[i]) == Some(true)
}

/// Whether a term denotes a boolean; decides the sort `is-eq` compares in.
pub open spec fn looks_bool(t: Term) -> bool
    decreases t,
{
    match t {
        Term::Constant(ValueV::Bool(_)) => true,
        Term::Node(HeadV::Op(k), args) => {
            if k == OpKind::And || k == OpKind::Or || k == OpKind::Not || k == OpKind::Greater || k == OpKind::Geq
                || k == OpKind::Leq || k == OpKind::Less || k == OpKind::Equals || k == OpKind::IsOkay
                || k == OpKind::IsErr || k == OpKind::IsSome || k == OpKind::IsNone {
                true
            } else if k == OpKind::If && args.len() == 3 {
                looks_bool(args[1]) || looks_bool(args[2])
            } else {
                false
            }
        },
        Term::Node(HeadV::Labeled(OpKind::Named, _), args) => args.len() == 1 && looks_bool(args[0]),
        _ => false,
    }
}

/// The state of a translation: the constants made so far (keyed by sort and
/// by the term's text), the constants to declare, and the side facts.
#[verifier::ext_equal]
pub struct EncState {
    pub leaves: Seq<((bool, Seq<char>), SmtV)>,
    pub decls: Seq<(Seq<char>, bool)>,
    pub side: Seq<SmtV>,
}

pub open spec fn enc_start() -> EncState {
    EncState { leaves: Seq::empty(), decls: Seq::empty(), side: Seq::empty() }
}

/// The name of the `n`th constant.
pub open spec fn leaf_name(n: nat) -> Seq<char> {
    "clv_"@ + decimal(n)
}

/// The constant standing for `t` in sort `Bool` (or `Int`), made on first
/// use; a new `Int` constant for an unsigned term comes with the fact that
/// it is non-negative.
pub open spec fn leaf(s: EncState, t: Term, is_bool: bool) -> (EncState, SmtV) {
    let key = (is_bool, render(t));
    match lookup(s.leaves, key) {
        Some(c) => (s, c),
        None => {
            let name = leaf_name(s.leaves.len());
            let c = SmtV::Atom(name);
            let side = if !is_bool && is_unsigned(t) == Some(true) {
                s.side.push(SmtV::App(">="@, seq![c, SmtV::Atom("0"@)]))
            } else {
                s.side
            };
            (EncState { leaves: s.leaves.push((key, c)), decls: s.decls.push((name, is_bool)), side }, c)
        },
    }
}

/// What an SMT-LIB integer comparison operator says of two integers.
pub open spec fn smt_compare(op: Seq<char>, x: int, y: int) -> bool {
    if op == "<="@ {
        x <= y
    } else if op == "<"@ {
        x < y
    } else if op == ">="@ {
        x >= y
    } else if op == ">"@ {
        x > y
    } else {
        false
    }
}

/// What a Clarity comparison says of two integers.
pub open spec fn clarity_compare(k: OpKind, x: int, y: int) -> bool {
    match k {
        OpKind::Greater => x > y,
        OpKind::Geq => x >= y,
        OpKind::Leq => x <= y,
        OpKind::Less => x < y,
        _ => false,
    }
}

/// A comparison keeps its meaning in translation: `(k a b)` becomes an
/// SMT-LIB comparison of the translations of `a` and `b` whose operator
/// holds of two integers exactly when the Clarity comparison `k` does.
pub proof fn lemma_comparisons_keep_meaning(s: EncState, k: OpKind, a: Term, b: Term)
    requires
        k == OpKind::Greater || k == OpKind::Geq || k == OpKind::Leq || k == OpKind::Less,
    ensures
        ({
            let (s1, x) = enc_int(s, a);
            let (s2, y) = enc_int(s1, b);
            &&& enc_bool(s, Term::Node(HeadV::Op(k), seq![a, b])).1 matches SmtV::App(op, args)
            &&& args == seq![x, y]
            &&& forall|p: int, q: int| #[trigger] smt_compare(op, p, q) == clarity_compare(k, p, q)
        }),
{
    reveal_strlit("<=");
    reveal_strlit("<");
    reveal_strlit(">=");
    reveal_strlit(">");
    let t = Term::Node(HeadV::Op(k), seq![a, b]);
    assert(t->Node_1.len() == 2);
    let op = enc_bool(s, t).1->App_0;
    assert("<="@.len() == 2 && "<"@.len() == 1 && ">="@.len() == 2 && ">"@.len() == 1);
    assert("<="@[0] == '<' && ">="@[0] == '>' && "<"@[0] == '<' && ">"@[0] == '>');
    if k == OpKind::Greater {
        assert(op == ">"@);
        assert(op != "<="@ && op != "<"@ && op != ">="@);
    } else if k == OpKind::Geq {
        assert(op == ">="@);
        assert(op != "<="@ && op != "<"@);
    } else if k == OpKind::Leq {
        assert(op == "<="@);
    } else {
        assert(op == "<"@);
        assert(op != "<="@);
    }
}

/// `is-none x` is the negation of `is-some x` on one encoder: translating
/// `is-some x` and then `is-none x` gives the constant the first made,
/// negated, and makes no new constant or fact (and likewise for `is-err`
/// and `is-ok`).
pub proof fn lemma_is_none_negates_is_some(s: EncState, x: Term, none: OpKind)
    requires
        none == OpKind::IsNone || none == OpKind::IsErr,
    ensures
        ({
            let some = Term::Node(HeadV::Op(if none == OpKind::IsNone { OpKind::IsSome } else { OpKind::IsOkay }), seq![x]);
            let (s1, c) = enc_bool(s, some);
            let (s2, d) = enc_bool(s1, Term::Node(HeadV::Op(none), seq![x]));
            &&& d == SmtV::App("not"@, seq![c])
            &&& s2 == s1
        }),
{
    let some = Term::Node(HeadV::Op(if none == OpKind::IsNone { OpKind::IsSome } else { OpKind::IsOkay }), seq![x]);
    let (s1, c) = enc_bool(s, some);
    assert((s1, c) == leaf(s, some, true));
    let key = (true, render(some));
    match lookup(s.leaves, key) {
        Some(_) => {},
        None => {
            let l = s1.leaves;
            assert(l[s.leaves.len() as int].0 == key);
            let j = choose|j: int| 0 <= j < l.len() && l[j].0 == key;
            if j < s.leaves.len() {
                assert(s.leaves[j].0 == key);
            }
        },
    }
    assert(lookup(s1.leaves, key) == Some(c));
}

/// The literal exponent of a power, when it is a non-negative constant.
pub open spec fn literal_exponent(t: Term) -> Option<nat> {
    match t {
        Term::Constant(ValueV::UInt(k)) => Some(k as nat),
        Term::Constant(ValueV::Int(k)) => if k >= 0 { Some(k as nat) } else { None },
        _ => None,
    }
}

/// The translation of `t` as an `Int`.
pub open spec fn enc_int(s: EncState, t: Term) -> (EncState, SmtV)
    decreases t, 2int,
{
    match t {
        Term::Constant(ValueV::UInt(v)) => (s, SmtV::Atom(decimal(v as nat))),
        Term::Constant(ValueV::Int(v)) => if v < 0 {
            (s, SmtV::App("-"@, seq![SmtV::Atom(decimal((-v) as nat))]))
        } else {
            (s, SmtV::Atom(decimal(v as nat)))
        },
        Term::Node(HeadV::Op(k), ops) => {
            if k == OpKind::Add || k == OpKind::Subtract || k == OpKind::Multiply || (k == OpKind::Divide && all_unsigned(ops)) {
                let (s1, xs) = enc_ints(s, ops, ops.len() as int);
                let op = if k == OpKind::Add { "+"@ } else if k == OpKind::Subtract { "-"@ } else if k == OpKind::Multiply { "*"@ } else { "div"@ };
                (s1, variadic(op, xs))
            } else if k == OpKind::Modulo && ops.len() == 2 && is_unsigned(ops[0]) == Some(true) && is_unsigned(ops[1]) == Some(true) {
                let (s1, x) = enc_int(s, ops[0]);
                let (s2, y) = enc_int(s1, ops[1]);
                (s2, SmtV::App("mod"@, seq![x, y]))
            } else if k == OpKind::Power && ops.len() == 2 {
                match literal_exponent(ops[1]) {
                    Some(e) => if e == 0 {
                        (s, SmtV::Atom("1"@))
                    } else if e <= 4 {
                        let (s1, f) = enc_int(s, ops[0]);
                        (s1, variadic("*"@, Seq::new(e, |i: int| f)))
                    } else {
                        leaf(s, t, false)
                    },
                    None => leaf(s, t, false),
                }
            } else if k == OpKind::If && ops.len() == 3 {
                let (s1, c) = enc_bool(s, ops[0]);
                let (s2, a) = enc_int(s1, ops[1]);
                let (s3, b) = enc_int(s2, ops[2]);
                (s3, SmtV::App("ite"@, seq![c, a, b]))
            } else {
                leaf(s, t, false)
            }
        },
        Term::Node(HeadV::Labeled(OpKind::Named, _), ops) => if ops.len() == 1 {
            enc_named(s, t, false)
        } else {
            leaf(s, t, false)
        },
        _ => leaf(s, t, false),
    }
}

/// The translation of `t` as a `Bool`.
pub open spec fn enc_bool(s: EncState, t: Term) -> (EncState, SmtV)
    decreases t, 2int,
{
    match t {
        Term::Constant(ValueV::Bool(b)) => (s, SmtV::Atom(if b { "true"@ } else { "false"@ })),
        Term::Node(HeadV::Op(k), ops) => {
            if k == OpKind::If && ops.len() == 3 {
                let (s1, c) = enc_bool(s, ops[0]);
                let (s2, a) = enc_bool(s1, ops[1]);
                let (s3, b) = enc_bool(s2, ops[2]);
                (s3, SmtV::App("ite"@, seq![c, a, b]))
            } else if k == OpKind::And || k == OpKind::Or {
                let (s1, xs) = enc_bools(s, ops, ops.len() as int);
                (s1, variadic(if k == OpKind::And { "and"@ } else { "or"@ }, xs))
            } else if k == OpKind::Not && ops.len() == 1 {
                let (s1, x) = enc_bool(s, ops[0]);
                (s1, SmtV::App("not"@, seq![x]))
            } else if (k == OpKind::IsNone || k == OpKind::IsErr) && ops.len() == 1 {
                let partner = Term::Node(HeadV::Op(if k == OpKind::IsNone { OpKind::IsSome } else { OpKind::IsOkay }), ops);
                let (s1, x) = leaf(s, partner, true);
                (s1, SmtV::App("not"@, seq![x]))
            } else if (k == OpKind::Greater || k == OpKind::Geq || k == OpKind::Leq || k == OpKind::Less) && ops.len() == 2 {
                let (s1, x) = enc_int(s, ops[0]);
                let (s2, y) = enc_int(s1, ops[1]);
                let op = if k == OpKind::Greater { ">"@ } else if k == OpKind::Geq { ">="@ } else if k == OpKind::Leq { "<="@ } else { "<"@ };
                (s2, SmtV::App(op, seq![x, y]))
            } else if k == OpKind::Equals {
                if forall|i: int| 0 <= i < ops.len() ==> looks_bool(#[trigger] ops[i]) {
                    let (s1, xs) = enc_bools(s, ops, ops.len() as int);
                    (s1, variadic("="@, xs))
                } else {
                    let (s1, xs) = enc_ints(s, ops, ops.len() as int);
                    (s1, variadic("="@, xs))
                }
            } else {
                leaf(s, t, true)
            }
        },
        Term::Node(HeadV::Labeled(OpKind::Named, _), ops) => if ops.len() == 1 {
            enc_named(s, t, true)
        } else {
            leaf(s, t, true)
        },
        _ => leaf(s, t, true),
    }
}

/// A named formula: a constant like any other, plus, the first time, the
/// fact that it equals its definition.
pub open spec fn enc_named(s: EncState, t: Term, is_bool: bool) -> (EncState, SmtV)
    decreases t, 1int,
{
    match lookup(s.leaves, (is_bool, render(t))) {
        Some(c) => (s, c),
        None => {
            let (s1, c) = leaf(s, t, is_bool);
            match t {
                Term::Node(h, ops) => if ops.len() == 1 {
                    let (s2, v) = if is_bool { enc_bool(s1, ops[0]) } else { enc_int(s1, ops[0]) };
                    (EncState { side: s2.side.push(SmtV::App("="@, seq![c, v])), ..s2 }, c)
                } else {
                    (s1, c)
                },
                _ => (s1, c),
            }
        },
    }
}

/// The translations of the first `n` operands as `Int`s, in order.
pub open spec fn enc_ints(s: EncState, ops: Seq<Term>, n: int) -> (EncState, Seq<SmtV>)
    decreases ops, n,
{
    if n <= 0 || n > ops.len() {
        (s, Seq::empty())
    } else {
        let (s1, xs) = enc_ints(s, ops, n - 1);
        let (s2, x) = enc_int(s1, ops[n - 1]);
        (s2, xs.push(x))
    }
}

/// The translations of the first `n` operands as `Bool`s, in order.
pub open spec fn enc_bools(s: EncState, ops: Seq<Term>, n: int) -> (EncState, Seq<SmtV>)
    decreases ops, n,
{
    if n <= 0 || n > ops.len() {
        (s, Seq::empty())
    } else {
        let (s1, xs) = enc_bools(s, ops, n - 1);
        let (s2, x) = enc_bool(s1, ops[n - 1]);
        (s2, xs.push(x))
    }
}


/// Whether translating `t` as an `Int` never meets an operator with no
/// operands where it takes one or more.
pub open spec fn int_total(t: Term) -> bool
    decreases t, 2int,
{
    match t {
        Term::Node(HeadV::Op(k), ops) => {
            if k == OpKind::Add || k == OpKind::Subtract || k == OpKind::Multiply || (k == OpKind::Divide && all_unsigned(ops)) {
                ops.len() > 0 && ints_total(ops, ops.len() as int)
            } else if k == OpKind::Modulo && ops.len() == 2 && is_unsigned(ops[0]) == Some(true) && is_unsigned(ops[1]) == Some(true) {
                int_total(ops[0]) && int_total(ops[1])
            } else if k == OpKind::Power && ops.len() == 2 {
                match literal_exponent(ops[1]) {
                    Some(e) => (1 <= e <= 4) ==> int_total(ops[0]),
                    None => true,
                }
            } else if k == OpKind::If && ops.len() == 3 {
                bool_total(ops[0]) && int_total(ops[1]) && int_total(ops[2])
            } else {
                true
            }
        },
        Term::Node(HeadV::Labeled(OpKind::Named, _), ops) => ops.len() == 1 ==> int_total(ops[0]),
        _ => true,
    }
}

/// Whether translating `t` as a `Bool` never meets an operator with no
/// operands where it takes one or more.
pub open spec fn bool_total(t: Term) -> bool
    decreases t, 2int,
{
    match t {
        Term::Node(HeadV::Op(k), ops) => {
            if k == OpKind::If && ops.len() == 3 {
                bool_total(ops[0]) && bool_total(ops[1]) && bool_total(ops[2])
            } else if k == OpKind::And || k == OpKind::Or {
                ops.len() > 0 && bools_total(ops, ops.len() as int)
            } else if k == OpKind::Not && ops.len() == 1 {
                bool_total(ops[0])
            } else if (k == OpKind::IsNone || k == OpKind::IsErr) && ops.len() == 1 {
                true
            } else if (k == OpKind::Greater || k == OpKind::Geq || k == OpKind::Leq || k == OpKind::Less) && ops.len() == 2 {
                int_total(ops[0]) && int_total(ops[1])
            } else if k == OpKind::Equals {
                ops.len() > 0 && if forall|i: int| 0 <= i < ops.len() ==> looks_bool(#[trigger] ops[i]) {
                    bools_total(ops, ops.len() as int)
                } else {
                    ints_total(ops, ops.len() as int)
                }
            } else {
                true
            }
        },
        Term::Node(HeadV::Labeled(OpKind::Named, _), ops) => ops.len() == 1 ==> bool_total(ops[0]),
        _ => true,
    }
}

pub open spec fn ints_total(ops: Seq<Term>, n: int) -> bool
    decreases ops, n,
{
    if n <= 0 || n > ops.len() {
        true
    } else {
        ints_total(ops, n - 1) && int_total(ops[n - 1])
    }
}

pub open spec fn bools_total(ops: Seq<Term>, n: int) -> bool
    decreases ops, n,
{
    if n <= 0 || n > ops.len() {
        true
    } else {
        bools_total(ops, n - 1) && bool_total(ops[n - 1])
    }
}

/// The translation of a path predicate: the formula, the constants to
/// declare first with their sorts (`true` for `Bool`), and the side facts.
pub open spec fn encoding(p: PredicateV) -> (SmtV, Seq<(Seq<char>, bool)>, Seq<SmtV>) {
    let (s, f) = enc_bool(enc_start(), predicate_term(p));
    (f, s.decls, s.side)
}


proof fn lemma_ints_total(ops: Seq<Term>, n: int)
    requires
        0 <= n <= ops.len(),
        ints_total(ops, n),
    ensures
        forall|i: int| 0 <= i < n ==> int_total(#[trigger] ops[i]),
    decreases n,
{
    if n > 0 {
        lemma_ints_total(ops, n - 1);
    }
}

proof fn lemma_bools_total(ops: Seq<Term>, n: int)
    requires
        0 <= n <= ops.len(),
        bools_total(ops, n),
    ensures
        forall|i: int| 0 <= i < n ==> bool_total(#[trigger] ops[i]),
    decreases n,
{
    if n > 0 {
        lemma_bools_total(ops, n - 1);
    }
}

impl Smt {
    pub fn dup(&self) -> (r: Smt)
        ensures
            r@ == self@,
        decreases self,
    {
        match self {
            Smt::Atom(a) => Smt::Atom(a.clone()),
            Smt::App(op, args) => {
                let mut out: Vec<Smt> = Vec::new();
                let mut i: usize = 0;
                while i < args.len()
                    invariant
                        0 <= i <= args@.len(),
                        *self == Smt::App(*op, *args),
                        out@.len() == i,
                        forall|j: int| 0 <= j < i ==> out@[j]@ == args@[j]@,
                    decreases args@.len() - i,
                {
                    proof {
                        assert(self->App_1 == *args);
                        assert(decreases_to!(*self => self->App_1));
                        assert(decreases_to!(*args => args[i as int]));
                    }
                    out.push(args[i].dup());
                    i = i + 1;
                }
                proof {
                    lemma_smts_of(out@);
                    lemma_smts_of(args@);
                    assert(smts_of(out@) =~= smts_of(args@));
                }
                Smt::App(op.clone(), out)
            },
        }
    }
}

fn smt_push(v: &mut Vec<Smt>, x: Smt)
    ensures
        smts_of(final(v)@) == smts_of(old(v)@).push(x@),
{
    let ghost v0 = v@;
    v.push(x);
    assert(v@.drop_last() =~= v0);
}

fn app(op: &str, args: Vec<Smt>) -> (r: Smt)
    ensures
        r@ == SmtV::App(op@, smts_of(args@)),
{
    Smt::App(op.to_owned(), args)
}

fn one_smt(a: Smt) -> (v: Vec<Smt>)
    ensures
        smts_of(v@) == seq![a@],
{
    let mut v: Vec<Smt> = Vec::new();
    smt_push(&mut v, a);
    assert(smts_of(v@) =~= seq![a@]);
    v
}

fn two_smt(a: Smt, b: Smt) -> (v: Vec<Smt>)
    ensures
        smts_of(v@) == seq![a@, b@],
{
    let mut v: Vec<Smt> = Vec::new();
    smt_push(&mut v, a);
    smt_push(&mut v, b);
    assert(smts_of(v@) =~= seq![a@, b@]);
    v
}

fn three_smt(a: Smt, b: Smt, c: Smt) -> (v: Vec<Smt>)
    ensures
        smts_of(v@) == seq![a@, b@, c@],
{
    let mut v: Vec<Smt> = Vec::new();
    smt_push(&mut v, a);
    smt_push(&mut v, b);
    smt_push(&mut v, c);
    assert(smts_of(v@) =~= seq![a@, b@, c@]);
    v
}

fn variadic_exec(op: &str, xs: Vec<Smt>) -> (r: Smt)
    ensures
        r@ == variadic(op@, smts_of(xs@)),
{
    proof {
        lemma_smts_of(xs@);
    }
    if xs.len() == 1 {
        xs[0].dup()
    } else {
        app(op, xs)
    }
}

fn sign_of_type(ty: &String) -> (r: Option<bool>)
    ensures
        r == (if ty@ == "uint"@ { Some(true) } else if ty@ == "int"@ { Some(false) } else { None::<bool> }),
{
    if *ty == "uint".to_owned() {
        Some(true)
    } else if *ty == "int".to_owned() {
        Some(false)
    } else {
        None
    }
}

fn is_unsigned_exec(t: &SymOp) -> (r: Option<bool>)
    ensures
        r == is_unsigned(t@),
{
    match t {
        SymOp::Constant(Value::UInt(_)) => Some(true),
        SymOp::Constant(Value::Int(_)) => Some(false),
        SymOp::Variable(s) => sign_of_type(&s.type_repr),
        SymOp::Node(Head::Op(k), args) => {
            proof {
                lemma_terms_of(args@);
            }
            let k = *k;
            if k == OpKind::ToUInt {
                Some(true)
            } else if k == OpKind::ToInt {
                Some(false)
            } else if k == OpKind::Len {
                Some(true)
            } else if (k == OpKind::Add || k == OpKind::Subtract || k == OpKind::Multiply || k == OpKind::Divide
                || k == OpKind::Modulo || k == OpKind::Power) && args.len() > 0 {
                match &args[0] {
                    SymOp::Constant(Value::UInt(_)) => Some(true),
                    SymOp::Constant(Value::Int(_)) => Some(false),
                    SymOp::Variable(s) => sign_of_type(&s.type_repr),
                    _ => None,
                }
            } else {
                None
            }
        },
        _ => None,
    }
}

fn all_unsigned_exec(ops: &Vec<SymOp>) -> (r: bool)
    ensures
        r == all_unsigned(terms_of(ops@)),
{
    proof {
        lemma_terms_of(ops@);
    }
    let mut i: usize = 0;
    while i < ops.len()
        invariant
            0 <= i <= ops@.len(),
            terms_of(ops@).len() == ops@.len(),
            forall|j: int| 0 <= j < ops@.len() ==> #[trigger] terms_of(ops@)[j] == ops@[j]@,
            forall|j: int| 0 <= j < i ==> is_unsigned(#[trigger] terms_of(ops@)[j]) == Some(true),
        decreases ops@.len() - i,
    {
        if is_unsigned_exec(&ops[i]) != Some(true) {
            assert(is_unsigned(terms_of(ops@)[i as int]) != Some(true));
            return false;
        }
        i = i + 1;
    }
    true
}

fn looks_bool_exec(t: &SymOp) -> (r: bool)
    ensures
        r == looks_bool(t@),
    decreases t,
{
    match t {
        SymOp::Constant(Value::Bool(_)) => true,
        SymOp::Node(Head::Op(k), args) => {
            proof {
                lemma_terms_of(args@);
            }
            let k = *k;
            if k == OpKind::And || k == OpKind::Or || k == OpKind::Not || k == OpKind::Greater || k == OpKind::Geq
                || k == OpKind::Leq || k == OpKind::Less || k == OpKind::Equals || k == OpKind::IsOkay
                || k == OpKind::IsErr || k == OpKind::IsSome || k == OpKind::IsNone {
                true
            } else if k == OpKind::If && args.len() == 3 {
                proof {
                    assert(decreases_to!(*t => t->Node_1));
                    assert(decreases_to!(t->Node_1 => args[1]));
                    assert(decreases_to!(t->Node_1 => args[2]));
                }
                looks_bool_exec(&args[1]) || looks_bool_exec(&args[2])
            } else {
                false
            }
        },
        SymOp::Node(Head::Labeled(OpKind::Named, _), args) => {
            proof {
                lemma_terms_of(args@);
            }
            if args.len() == 1 {
                proof {
                    assert(decreases_to!(*t => t->Node_1));
                    assert(decreases_to!(t->Node_1 => args[0]));
                }
                looks_bool_exec(&args[0])
            } else {
                false
            }
        },
        _ => false,
    }
}

fn all_look_bool(ops: &Vec<SymOp>) -> (r: bool)
    ensures
        r == (forall|i: int| 0 <= i < terms_of(ops@).len() ==> looks_bool(#[trigger] terms_of(ops@)[i])),
{
    proof {
        lemma_terms_of(ops@);
    }
    let mut i: usize = 0;
    while i < ops.len()
        invariant
            0 <= i <= ops@.len(),
            terms_of(ops@).len() == ops@.len(),
            forall|j: int| 0 <= j < ops@.len() ==> #[trigger] terms_of(ops@)[j] == ops@[j]@,
            forall|j: int| 0 <= j < i ==> looks_bool(#[trigger] terms_of(ops@)[j]),
        decreases ops@.len() - i,
    {
        if !looks_bool_exec(&ops[i]) {
            assert(!looks_bool(terms_of(ops@)[i as int]));
            return false;
        }
        i = i + 1;
    }
    true
}

pub open spec fn leaves_view(v: Seq<((bool, String), Smt)>) -> Seq<((bool, Seq<char>), SmtV)> {
    v.map_values(|e: ((bool, String), Smt)| ((e.0.0, e.0.1@), e.1@))
}

pub open spec fn decls_view(v: Seq<(String, bool)>) -> Seq<(Seq<char>, bool)> {
    v.map_values(|e: (String, bool)| (e.0@, e.1))
}

/// Translates terms, keeping the constants it has made.
struct Encoder {
    leaves: Vec<((bool, String), Smt)>,
    decls: Vec<(String, bool)>,
    side: Vec<Smt>,
}

impl View for Encoder {
    type V = EncState;

    closed spec fn view(&self) -> EncState {
        EncState {
            leaves: leaves_view(self.leaves@),
            decls: decls_view(self.decls@),
            side: smts_of(self.side@),
        }
    }
}

impl Encoder {
    fn find_leaf(&self, is_bool: bool, text: &String) -> (r: Option<usize>)
        ensures
            match r {
                Some(i) => i < self@.leaves.len() && self@.leaves[i as int].0 == (is_bool, text@),
                None => forall|j: int| 0 <= j < self@.leaves.len() ==> self@.leaves[j].0 != (is_bool, text@),
            },
    {
        let mut i: usize = 0;
        while i < self.leaves.len()
            invariant
                0 <= i <= self.leaves@.len(),
                self@.leaves == leaves_view(self.leaves@),
                forall|j: int| 0 <= j < i ==> self@.leaves[j].0 != (is_bool, text@),
            decreases self.leaves@.len() - i,
        {
            if self.leaves[i].0.0 == is_bool && self.leaves[i].0.1 == *text {
                return Some(i);
            }
            i = i + 1;
        }
        None
    }

    fn leaf(&mut self, t: &SymOp, is_bool: bool) -> (r: Smt)
        requires
            distinct_keys(old(self)@.leaves),
        ensures
            (final(self)@, r@) == leaf(old(self)@, t@, is_bool),
            distinct_keys(final(self)@.leaves),
    {
        let ghost s0 = self@;
        let text = t.to_text();
        match self.find_leaf(is_bool, &text) {
            Some(i) => {
                proof {
                    lemma_lookup_at(s0.leaves, i as int);
                }
                return self.leaves[i].1.dup();
            },
            None => {},
        }
        let n = self.leaves.len();
        let name = concat("clv_", decimal_text(n as u128).as_str());
        let c = Smt::Atom(name.clone());
        if !is_bool && is_unsigned_exec(t) == Some(true) {
            let fact = app(">=", two_smt(c.dup(), Smt::Atom("0".to_owned())));
            smt_push(&mut self.side, fact);
        }
        let ghost key = (is_bool, text@);
        self.leaves.push(((is_bool, text), c.dup()));
        self.decls.push((name, is_bool));
        proof {
            assert(self@.leaves =~= s0.leaves.push((key, c@)));
            assert(self@.decls =~= s0.decls.push((leaf_name(s0.leaves.len()), is_bool)));
        }
        c
    }

    fn ints(&mut self, t: &SymOp, ops: &Vec<SymOp>) -> (r: Vec<Smt>)
        requires
            *t matches SymOp::Node(_, a) && a == *ops,
            distinct_keys(old(self)@.leaves),
            ints_total(terms_of(ops@), ops@.len() as int),
        ensures
            (final(self)@, smts_of(r@)) == enc_ints(old(self)@, terms_of(ops@), ops@.len() as int),
            distinct_keys(final(self)@.leaves),
        decreases t, 1int,
    {
        let ghost ts = terms_of(ops@);
        let ghost s0 = self@;
        proof {
            lemma_terms_of(ops@);
            lemma_ints_total(ts, ts.len() as int);
        }
        let mut xs: Vec<Smt> = Vec::new();
        let mut i: usize = 0;
        while i < ops.len()
            invariant
                *t matches SymOp::Node(_, a) && a == *ops,
                ts == terms_of(ops@),
                ts.len() == ops@.len(),
                forall|j: int| 0 <= j < ops@.len() ==> #[trigger] ts[j] == ops@[j]@,
                forall|j: int| 0 <= j < ts.len() ==> int_total(#[trigger] ts[j]),
                0 <= i <= ops@.len(),
                distinct_keys(self@.leaves),
                (self@, smts_of(xs@)) == enc_ints(s0, ts, i as int),
            decreases ops@.len() - i,
        {
            proof {
                assert(decreases_to!(*t => t->Node_1));
                assert(decreases_to!(t->Node_1 => ops[i as int]));
            }
            proof {
                assert(int_total(ts[i as int]));
            }
            let x = self.to_int(&ops[i]);
            smt_push(&mut xs, x);
            i = i + 1;
        }
        xs
    }

    fn bools(&mut self, t: &SymOp, ops: &Vec<SymOp>) -> (r: Vec<Smt>)
        requires
            *t matches SymOp::Node(_, a) && a == *ops,
            distinct_keys(old(self)@.leaves),
            bools_total(terms_of(ops@), ops@.len() as int),
        ensures
            (final(self)@, smts_of(r@)) == enc_bools(old(self)@, terms_of(ops@), ops@.len() as int),
            distinct_keys(final(self)@.leaves),
        decreases t, 1int,
    {
        let ghost ts = terms_of(ops@);
        let ghost s0 = self@;
        proof {
            lemma_terms_of(ops@);
            lemma_bools_total(ts, ts.len() as int);
        }
        let mut xs: Vec<Smt> = Vec::new();
        let mut i: usize = 0;
        while i < ops.len()
            invariant
                *t matches SymOp::Node(_, a) && a == *ops,
                ts == terms_of(ops@),
                ts.len() == ops@.len(),
                forall|j: int| 0 <= j < ops@.len() ==> #[trigger] ts[j] == ops@[j]@,
                forall|j: int| 0 <= j < ts.len() ==> bool_total(#[trigger] ts[j]),
                0 <= i <= ops@.len(),
                distinct_keys(self@.leaves),
                (self@, smts_of(xs@)) == enc_bools(s0, ts, i as int),
            decreases ops@.len() - i,
        {
            proof {
                assert(decreases_to!(*t => t->Node_1));
                assert(decreases_to!(t->Node_1 => ops[i as int]));
            }
            proof {
                assert(bool_total(ts[i as int]));
            }
            let x = self.to_bool(&ops[i]);
            smt_push(&mut xs, x);
            i = i + 1;
        }
        xs
    }

    fn named(&mut self, t: &SymOp, is_bool: bool) -> (r: Smt)
        requires
            distinct_keys(old(self)@.leaves),
            t@ matches Term::Node(_, ops) && ops.len() == 1 && (if is_bool { bool_total(ops[0]) } else { int_total(ops[0]) }),
        ensures
            (final(self)@, r@) == enc_named(old(self)@, t@, is_bool),
            distinct_keys(final(self)@.leaves),
        decreases t, 1int,
    {
        let ghost s0 = self@;
        let text = t.to_text();
        match self.find_leaf(is_bool, &text) {
            Some(i) => {
                proof {
                    lemma_lookup_at(s0.leaves, i as int);
                }
                return self.leaves[i].1.dup();
            },
            None => {},
        }
        let c = self.leaf(t, is_bool);
        match t {
            SymOp::Node(_, ops) => {
                proof {
                    lemma_terms_of(ops@);
                }
                if ops.len() == 1 {
                    proof {
                        assert(decreases_to!(*t => t->Node_1));
                        assert(decreases_to!(t->Node_1 => ops[0]));
                    }
                    let v = if is_bool { self.to_bool(&ops[0]) } else { self.to_int(&ops[0]) };
                    let fact = app("=", two_smt(c.dup(), v));
                    smt_push(&mut self.side, fact);
                }
            },
            _ => {},
        }
        c
    }
}


impl Encoder {
    fn to_int(&mut self, t: &SymOp) -> (r: Smt)
        requires
            distinct_keys(old(self)@.leaves),
            int_total(t@),
        ensures
            (final(self)@, r@) == enc_int(old(self)@, t@),
            distinct_keys(final(self)@.leaves),
        decreases t, 2int,
    {
        match t {
            SymOp::Constant(Value::UInt(v)) => Smt::Atom(decimal_text(*v)),
            SymOp::Constant(Value::Int(v)) => {
                if *v < 0 {
                    let m: u128 = if *v == i128::MIN { 170141183460469231731687303715884105728u128 } else { (-*v) as u128 };
                    assert(m == -v);
                    app("-", one_smt(Smt::Atom(decimal_text(m))))
                } else {
                    Smt::Atom(decimal_text(*v as u128))
                }
            },
            SymOp::Node(Head::Op(k), ops) => {
                proof {
                    lemma_terms_of(ops@);
                    assert(decreases_to!(*t => t->Node_1));
                }
                let k = *k;
                if k == OpKind::Add || k == OpKind::Subtract || k == OpKind::Multiply || (k == OpKind::Divide && all_unsigned_exec(ops)) {
                    let xs = self.ints(t, ops);
                    let op = if k == OpKind::Add { "+" } else if k == OpKind::Subtract { "-" } else if k == OpKind::Multiply { "*" } else { "div" };
                    variadic_exec(op, xs)
                } else if k == OpKind::Modulo && ops.len() == 2 && is_unsigned_exec(&ops[0]) == Some(true) && is_unsigned_exec(&ops[1]) == Some(true) {
                    proof {
                        assert(decreases_to!(t->Node_1 => ops[0]));
                        assert(decreases_to!(t->Node_1 => ops[1]));
                    }
                    let x = self.to_int(&ops[0]);
                    let y = self.to_int(&ops[1]);
                    app("mod", two_smt(x, y))
                } else if k == OpKind::Power && ops.len() == 2 {
                    let e: Option<u128> = match &ops[1] {
                        SymOp::Constant(Value::UInt(x)) => Some(*x),
                        SymOp::Constant(Value::Int(x)) => if *x >= 0 { Some(*x as u128) } else { None },
                        _ => None,
                    };
                    assert(match e { Some(x) => literal_exponent(ops@[1]@) == Some(x as nat), None => literal_exponent(ops@[1]@) is None });
                    match e {
                        Some(e) => {
                            if e == 0 {
                                Smt::Atom("1".to_owned())
                            } else if e <= 4 {
                                proof {
                                    assert(decreases_to!(t->Node_1 => ops[0]));
                                }
                                let f = self.to_int(&ops[0]);
                                let mut fs: Vec<Smt> = Vec::new();
                                let mut j: u128 = 0;
                                while j < e
                                    invariant
                                        j <= e,
                                        e <= 4,
                                        smts_of(fs@) == Seq::new(j as nat, |i: int| f@),
                                    decreases e - j,
                                {
                                    smt_push(&mut fs, f.dup());
                                    assert(Seq::new((j + 1) as nat, |i: int| f@) =~= Seq::new(j as nat, |i: int| f@).push(f@));
                                    j = j + 1;
                                }
                                variadic_exec("*", fs)
                            } else {
                                self.leaf(t, false)
                            }
                        },
                        None => self.leaf(t, false),
                    }
                } else if k == OpKind::If && ops.len() == 3 {
                    proof {
                        assert(decreases_to!(t->Node_1 => ops[0]));
                        assert(decreases_to!(t->Node_1 => ops[1]));
                        assert(decreases_to!(t->Node_1 => ops[2]));
                    }
                    let c = self.to_bool(&ops[0]);
                    let a = self.to_int(&ops[1]);
                    let b = self.to_int(&ops[2]);
                    app("ite", three_smt(c, a, b))
                } else {
                    self.leaf(t, false)
                }
            },
            SymOp::Node(Head::Labeled(OpKind::Named, _), ops) => {
                proof {
                    lemma_terms_of(ops@);
                }
                if ops.len() == 1 {
                    self.named(t, false)
                } else {
                    self.leaf(t, false)
                }
            },
            _ => self.leaf(t, false),
        }
    }

    fn to_bool(&mut self, t: &SymOp) -> (r: Smt)
        requires
            distinct_keys(old(self)@.leaves),
            bool_total(t@),
        ensures
            (final(self)@, r@) == enc_bool(old(self)@, t@),
            distinct_keys(final(self)@.leaves),
        decreases t, 2int,
    {
        match t {
            SymOp::Constant(Value::Bool(b)) => Smt::Atom(if *b { "true".to_owned() } else { "false".to_owned() }),
            SymOp::Node(Head::Op(k), ops) => {
                proof {
                    lemma_terms_of(ops@);
                    assert(decreases_to!(*t => t->Node_1));
                }
                let k = *k;
                if k == OpKind::If && ops.len() == 3 {
                    proof {
                        assert(decreases_to!(t->Node_1 => ops[0]));
                        assert(decreases_to!(t->Node_1 => ops[1]));
                        assert(decreases_to!(t->Node_1 => ops[2]));
                    }
                    let c = self.to_bool(&ops[0]);
                    let a = self.to_bool(&ops[1]);
                    let b = self.to_bool(&ops[2]);
                    app("ite", three_smt(c, a, b))
                } else if k == OpKind::And || k == OpKind::Or {
                    let xs = self.bools(t, ops);
                    variadic_exec(if k == OpKind::And { "and" } else { "or" }, xs)
                } else if k == OpKind::Not && ops.len() == 1 {
                    proof {
                        assert(decreases_to!(t->Node_1 => ops[0]));
                    }
                    let x = self.to_bool(&ops[0]);
                    app("not", one_smt(x))
                } else if (k == OpKind::IsNone || k == OpKind::IsErr) && ops.len() == 1 {
                    let copy = ops.duplicate();
                    proof {
                        lemma_terms_of(copy@);
                        assert(copy.deep_view().len() == ops.deep_view().len());
                        assert forall|i: int| 0 <= i < copy@.len() implies copy@[i]@ == ops@[i]@ by {
                            assert(copy.deep_view()[i] == ops.deep_view()[i]);
                        }
                        assert(terms_of(copy@) =~= terms_of(ops@));
                    }
                    let partner = SymOp::Node(Head::Op(if k == OpKind::IsNone { OpKind::IsSome } else { OpKind::IsOkay }), copy);
                    let x = self.leaf(&partner, true);
                    app("not", one_smt(x))
                } else if (k == OpKind::Greater || k == OpKind::Geq || k == OpKind::Leq || k == OpKind::Less) && ops.len() == 2 {
                    proof {
                        assert(decreases_to!(t->Node_1 => ops[0]));
                        assert(decreases_to!(t->Node_1 => ops[1]));
                    }
                    let x = self.to_int(&ops[0]);
                    let y = self.to_int(&ops[1]);
                    let op = if k == OpKind::Greater { ">" } else if k == OpKind::Geq { ">=" } else if k == OpKind::Leq { "<=" } else { "<" };
                    app(op, two_smt(x, y))
                } else if k == OpKind::Equals {
                    let xs = if all_look_bool(ops) { self.bools(t, ops) } else { self.ints(t, ops) };
                    variadic_exec("=", xs)
                } else {
                    self.leaf(t, true)
                }
            },
            SymOp::Node(Head::Labeled(OpKind::Named, _), ops) => {
                proof {
                    lemma_terms_of(ops@);
                }
                if ops.len() == 1 {
                    self.named(t, true)
                } else {
                    self.leaf(t, true)
                }
            },
            _ => self.leaf(t, true),
        }
    }
}

/// The translation of a path predicate into SMT-LIB.
pub struct Encoding {
    /// the formula to assert
    pub formula: Smt,
    /// the constants to declare first, with their sort (`true` for `Bool`)
    pub decls: Vec<(String, bool)>,
    /// facts about the constants, to assert too
    pub side: Vec<Smt>,
}

/// Translates a path predicate into SMT-LIB.
pub fn encode_predicate(p: &Predicate) -> (r: Encoding)
    requires
        bool_total(predicate_term(p@)),
    ensures
        (r.formula@, decls_view(r.decls@), smts_of(r.side@)) == encoding(p@),
{
    let mut e = Encoder { leaves: Vec::new(), decls: Vec::new(), side: Vec::new() };
    proof {
        assert(leaves_view(e.leaves@) =~= Seq::<((bool, Seq<char>), SmtV)>::empty());
        assert(decls_view(e.decls@) =~= Seq::<(Seq<char>, bool)>::empty());
        assert(smts_of(e.side@) =~= Seq::<SmtV>::empty());
        assert(e@ =~= enc_start());
    }
    let op = p.duplicate().as_symop();
    let formula = e.to_bool(&op);
    Encoding { formula, decls: e.decls, side: e.side }
}


fn literal_exponent_exec(t: &SymOp) -> (r: Option<u128>)
    ensures
        match r {
            Some(x) => literal_exponent(t@) == Some(x as nat),
            None => literal_exponent(t@) is None,
        },
{
    match t {
        SymOp::Constant(Value::UInt(x)) => Some(*x),
        SymOp::Constant(Value::Int(x)) => if *x >= 0 { Some(*x as u128) } else { None },
        _ => None,
    }
}

fn ints_total_exec(t: &SymOp, ops: &Vec<SymOp>) -> (r: bool)
    requires
        *t matches SymOp::Node(_, a) && a == *ops,
    ensures
        r == ints_total(terms_of(ops@), ops@.len() as int),
    decreases t, 1int,
{
    let ghost ts = terms_of(ops@);
    proof {
        lemma_terms_of(ops@);
    }
    let mut i: usize = 0;
    while i < ops.len()
        invariant
            *t matches SymOp::Node(_, a) && a == *ops,
            ts == terms_of(ops@),
            ts.len() == ops@.len(),
            forall|j: int| 0 <= j < ops@.len() ==> #[trigger] ts[j] == ops@[j]@,
            0 <= i <= ops@.len(),
            ints_total(ts, i as int),
        decreases ops@.len() - i,
    {
        proof {
            assert(decreases_to!(*t => t->Node_1));
            assert(decreases_to!(t->Node_1 => ops[i as int]));
        }
        if !int_total_exec(&ops[i]) {
            proof {
                let n = ops@.len() as int;
                assert(!ints_total(ts, i + 1));
                lemma_ints_total_prefix(ts, i + 1, n);
            }
            return false;
        }
        i = i + 1;
    }
    true
}

fn bools_total_exec(t: &SymOp, ops: &Vec<SymOp>) -> (r: bool)
    requires
        *t matches SymOp::Node(_, a) && a == *ops,
    ensures
        r == bools_total(terms_of(ops@), ops@.len() as int),
    decreases t, 1int,
{
    let ghost ts = terms_of(ops@);
    proof {
        lemma_terms_of(ops@);
    }
    let mut i: usize = 0;
    while i < ops.len()
        invariant
            *t matches SymOp::Node(_, a) && a == *ops,
            ts == terms_of(ops@),
            ts.len() == ops@.len(),
            forall|j: int| 0 <= j < ops@.len() ==> #[trigger] ts[j] == ops@[j]@,
            0 <= i <= ops@.len(),
            bools_total(ts, i as int),
        decreases ops@.len() - i,
    {
        proof {
            assert(decreases_to!(*t => t->Node_1));
            assert(decreases_to!(t->Node_1 => ops[i as int]));
        }
        if !bool_total_exec(&ops[i]) {
            proof {
                let n = ops@.len() as int;
                assert(!bools_total(ts, i + 1));
                lemma_bools_total_prefix(ts, i + 1, n);
            }
            return false;
        }
        i = i + 1;
    }
    true
}

proof fn lemma_ints_total_prefix(ops: Seq<Term>, m: int, n: int)
    requires
        0 < m <= n <= ops.len(),
        !ints_total(ops, m),
    ensures
        !ints_total(ops, n),
    decreases n - m,
{
    if n > m {
        lemma_ints_total_prefix(ops, m, n - 1);
    }
}

proof fn lemma_bools_total_prefix(ops: Seq<Term>, m: int, n: int)
    requires
        0 < m <= n <= ops.len(),
        !bools_total(ops, m),
    ensures
        !bools_total(ops, n),
    decreases n - m,
{
    if n > m {
        lemma_bools_total_prefix(ops, m, n - 1);
    }
}

fn int_total_exec(t: &SymOp) -> (r: bool)
    ensures
        r == int_total(t@),
    decreases t, 2int,
{
    match t {
        SymOp::Node(Head::Op(k), ops) => {
            proof {
                lemma_terms_of(ops@);
                assert(decreases_to!(*t => t->Node_1));
            }
            let k = *k;
            if k == OpKind::Add || k == OpKind::Subtract || k == OpKind::Multiply || (k == OpKind::Divide && all_unsigned_exec(ops)) {
                ops.len() > 0 && ints_total_exec(t, ops)
            } else if k == OpKind::Modulo && ops.len() == 2 && is_unsigned_exec(&ops[0]) == Some(true) && is_unsigned_exec(&ops[1]) == Some(true) {
                proof {
                    assert(decreases_to!(t->Node_1 => ops[0]));
                    assert(decreases_to!(t->Node_1 => ops[1]));
                }
                int_total_exec(&ops[0]) && int_total_exec(&ops[1])
            } else if k == OpKind::Power && ops.len() == 2 {
                match literal_exponent_exec(&ops[1]) {
                    Some(e) => {
                        if 1 <= e && e <= 4 {
                            proof {
                                assert(decreases_to!(t->Node_1 => ops[0]));
                            }
                            int_total_exec(&ops[0])
                        } else {
                            true
                        }
                    },
                    None => true,
                }
            } else if k == OpKind::If && ops.len() == 3 {
                proof {
                    assert(decreases_to!(t->Node_1 => ops[0]));
                    assert(decreases_to!(t->Node_1 => ops[1]));
                    assert(decreases_to!(t->Node_1 => ops[2]));
                }
                bool_total_exec(&ops[0]) && int_total_exec(&ops[1]) && int_total_exec(&ops[2])
            } else {
                true
            }
        },
        SymOp::Node(Head::Labeled(OpKind::Named, _), ops) => {
            proof {
                lemma_terms_of(ops@);
            }
            if ops.len() == 1 {
                proof {
                    assert(decreases_to!(*t => t->Node_1));
                    assert(decreases_to!(t->Node_1 => ops[0]));
                }
                int_total_exec(&ops[0])
            } else {
                true
            }
        },
        _ => true,
    }
}

fn bool_total_exec(t: &SymOp) -> (r: bool)
    ensures
        r == bool_total(t@),
    decreases t, 2int,
{
    match t {
        SymOp::Node(Head::Op(k), ops) => {
            proof {
                lemma_terms_of(ops@);
                assert(decreases_to!(*t => t->Node_1));
            }
            let k = *k;
            if k == OpKind::If && ops.len() == 3 {
                proof {
                    assert(decreases_to!(t->Node_1 => ops[0]));
                    assert(decreases_to!(t->Node_1 => ops[1]));
                    assert(decreases_to!(t->Node_1 => ops[2]));
                }
                bool_total_exec(&ops[0]) && bool_total_exec(&ops[1]) && bool_total_exec(&ops[2])
            } else if k == OpKind::And || k == OpKind::Or {
                ops.len() > 0 && bools_total_exec(t, ops)
            } else if k == OpKind::Not && ops.len() == 1 {
                proof {
                    assert(decreases_to!(t->Node_1 => ops[0]));
                }
                bool_total_exec(&ops[0])
            } else if (k == OpKind::IsNone || k == OpKind::IsErr) && ops.len() == 1 {
                true
            } else if (k == OpKind::Greater || k == OpKind::Geq || k == OpKind::Leq || k == OpKind::Less) && ops.len() == 2 {
                proof {
                    assert(decreases_to!(t->Node_1 => ops[0]));
                    assert(decreases_to!(t->Node_1 => ops[1]));
                }
                int_total_exec(&ops[0]) && int_total_exec(&ops[1])
            } else if k == OpKind::Equals {
                ops.len() > 0 && if all_look_bool(ops) { bools_total_exec(t, ops) } else { ints_total_exec(t, ops) }
            } else {
                true
            }
        },
        SymOp::Node(Head::Labeled(OpKind::Named, _), ops) => {
            proof {
                lemma_terms_of(ops@);
            }
            if ops.len() == 1 {
                proof {
                    assert(decreases_to!(*t => t->Node_1));
                    assert(decreases_to!(t->Node_1 => ops[0]));
                }
                bool_total_exec(&ops[0])
            } else {
                true
            }
        },
        _ => true,
    }
}

/// Whether a path predicate can be translated: no operator on its
/// translated parts that takes operands is applied to none.
pub fn encodable(p: &Predicate) -> (r: bool)
    ensures
        r == bool_total(predicate_term(p@)),
{
    match p {
        Predicate::Formula(op) => bool_total_exec(op),
        _ => true,
    }
}


/// What `std::path::Path::file_stem` gives for the path `program`, as text:
/// the file name without its final extension; empty when the path has no
/// file name.
pub uninterp spec fn file_stem_of(program: Seq<char>) -> Seq<char>;

/// What `str::to_lowercase` gives for `s`.
pub uninterp spec fn lowercase_of(s: Seq<char>) -> Seq<char>;

/// The stem of the path `program` (`Path::file_stem`), as text; empty when
/// the path has no file name. Trusted: the result is `file_stem_of` the path.
#[verifier::external_body]
fn file_stem_text(program: &str) -> (r: String)
    ensures
        r@ == file_stem_of(program@),
{
    std::path::Path::new(program).file_stem().map(|s| s.to_string_lossy().into_owned()).unwrap_or_default()
}

/// The lowercase form of `s` (`str::to_lowercase`). Trusted: the result is
/// `lowercase_of` the text.
#[verifier::external_body]
fn lowercase_text(s: &str) -> (r: String)
    ensures
        r@ == lowercase_of(s@),
{
    s.to_lowercase()
}

/// Whether `needle` occurs in `hay`.
pub open spec fn contains_seq(hay: Seq<char>, needle: Seq<char>) -> bool {
    exists|i: int| 0 <= i && i + needle.len() <= hay.len() && #[trigger] hay.subrange(i, i + needle.len()) == needle
}

/// Whether `needle` occurs in `hay`.
pub fn contains_text(hay: &str, needle: &str) -> (r: bool)
    ensures
        r == contains_seq(hay@, needle@),
{
    let h = crate::text::chars_of(hay);
    let n = crate::text::chars_of(needle);
    if n.len() == 0 {
        assert(hay@.subrange(0, 0int + needle@.len()) =~= needle@);
        return true;
    }
    if n.len() > h.len() {
        assert(!contains_seq(hay@, needle@));
        return false;
    }
    let hl = h.len();
    let end = hl - n.len() + 1;
    let mut i: usize = 0;
    while i < end
        invariant
            h@ == hay@,
            n@ == needle@,
            n@.len() >= 1,
            hl == h@.len(),
            end == h@.len() - n@.len() + 1,
            0 <= i <= end,
            forall|j: int| 0 <= j < i ==> #[trigger] hay@.subrange(j, j + needle@.len()) != needle@,
        decreases end - i,
    {
        let mut k: usize = 0;
        let mut same = true;
        while k < n.len()
            invariant
                h@ == hay@,
                n@ == needle@,
                i + n@.len() <= h@.len(),
                hl == h@.len(),
                0 <= k <= n@.len(),
                same == (forall|q: int| 0 <= q < k ==> h@[i + q] == n@[q]),
            decreases n@.len() - k,
        {
            assert(i + k < h@.len());
            if h[i + k] != n[k] {
                same = false;
            }
            k = k + 1;
        }
        if same {
            assert(hay@.subrange(i as int, i + needle@.len()) =~= needle@);
            return true;
        }
        proof {
            let q = choose|q: int| 0 <= q < n@.len() && h@[i + q] != n@[q];
            assert(hay@.subrange(i as int, i + needle@.len())[q] != needle@[q]);
        }
        i = i + 1;
    }
    assert forall|j: int| 0 <= j && j + needle@.len() <= hay@.len() implies #[trigger] hay@.subrange(j, j + needle@.len()) != needle@ by {
        assert(j < end);
    }
    false
}

/// The arguments that put a solver in SMT-LIB-2-over-stdin mode, by the
/// lowercase stem of its program's name: cvc5's for a name containing `cvc`,
/// yices' for one containing `yices`, and z3's otherwise.
pub open spec fn args_for(stem: Seq<char>) -> Seq<Seq<char>> {
    if contains_seq(stem, "cvc"@) {
        seq!["--lang=smt2"@, "--incremental"@]
    } else if contains_seq(stem, "yices"@) {
        seq!["--incremental"@]
    } else {
        seq!["-smt2"@, "-in"@]
    }
}

fn strings(a: &str, b: Option<&str>) -> (r: Vec<String>)
    ensures
        r.deep_view() == match b { Some(x) => seq![a@, x@], None => seq![a@] },
{
    let mut r: Vec<String> = Vec::new();
    r.push(a.to_owned());
    match b {
        Some(x) => {
            r.push(x.to_owned());
            assert(r.deep_view() =~= seq![a@, x@]);
        },
        None => {
            assert(r.deep_view() =~= seq![a@]);
        },
    }
    r
}

/// The solver arguments for a lowercase program stem.
pub fn args_for_stem(stem: &String) -> (r: Vec<String>)
    ensures
        r.deep_view() == args_for(stem@),
{
    if contains_text(stem.as_str(), "cvc") {
        strings("--lang=smt2", Some("--incremental"))
    } else if contains_text(stem.as_str(), "yices") {
        strings("--incremental", None)
    } else {
        strings("-smt2", Some("-in"))
    }
}

/// The flags that put a given solver in SMT-LIB-2-over-stdin mode,
/// recognised by the executable's name.
pub fn default_args(program: &str) -> (r: Vec<String>)
    ensures
        r.deep_view() == args_for(lowercase_of(file_stem_of(program@))),
{
    let stem = file_stem_text(program);
    let name = lowercase_text(stem.as_str());
    args_for_stem(&name)
}

/// The solver at path `program`, if it runs (`runs`).
pub fn solver_at(program: &str, runs: bool) -> (r: Option<Solver>)
    ensures
        match r {
            Some(s) => runs && s.program@ == program@ && s.args.deep_view() == args_for(lowercase_of(file_stem_of(program@))),
            None => !runs,
        },
{
    if runs {
        Some(Solver { program: program.to_owned(), args: default_args(program) })
    } else {
        None
    }
}

/// The solver to use: the program `env_program` names if it is set and not
/// empty, else z3 if it runs (`z3_runs`), else cvc5 if it runs
/// (`cvc5_runs`), else none.
pub fn find_solver(env_program: Option<String>, z3_runs: bool, cvc5_runs: bool) -> (r: Option<Solver>)
    ensures
        match env_program {
            Some(p) if p@.len() > 0 => r matches Some(s) && s.program@ == p@ && s.args.deep_view() == args_for(lowercase_of(file_stem_of(p@))),
            _ => if z3_runs {
                r matches Some(s) && s.program@ == "z3"@ && s.args.deep_view() == args_for(lowercase_of(file_stem_of("z3"@)))
            } else if cvc5_runs {
                r matches Some(s) && s.program@ == "cvc5"@ && s.args.deep_view() == args_for(lowercase_of(file_stem_of("cvc5"@)))
            } else {
                r is None
            },
        },
{
    match env_program {
        Some(p) => {
            if !p.as_str().is_empty() {
                let args = default_args(p.as_str());
                return Some(Solver { program: p, args });
            }
        },
        None => {},
    }
    if z3_runs {
        Some(Solver { program: "z3".to_owned(), args: default_args("z3") })
    } else if cvc5_runs {
        Some(Solver { program: "cvc5".to_owned(), args: default_args("cvc5") })
    } else {
        None
    }
}

} // verus!
