//! Simplification of terms whose optional or response operand is known:
//! `is-ok`, `is-err`, `is-some`, `is-none`, `unwrap-panic` and
//! `unwrap-err-panic` applied to a constructed value.

use vstd::prelude::*;
use crate::symop::{SymOp, Term, Head, HeadV, OpKind, Value, ValueV, Duplicate, terms_of, term_of, lemma_terms_of};
use crate::error::Error;

verus! {

broadcast use vstd::std_specs::vec::group_vec_axioms;

/// The operand of `a` if `a` applies the plain operator `k` to exactly one
/// operand.
pub open spec fn wrapped_by(a: Term, k: OpKind) -> Option<Term> {
    match a {
        Term::Node(HeadV::Op(j), xs) => if j == k && xs.len() == 1 { Some(xs[0]) } else { None },
        _ => None,
    }
}

pub open spec fn bool_term(b: bool) -> Term {
    Term::Constant(ValueV::Bool(b))
}

pub open spec fn none_term() -> Term {
    Term::Constant(ValueV::NoneValue)
}

/// What operator `k` applied to the single operand `a` reduces to, when
/// `a` is a constructed response or optional value:
/// - `(is-ok (ok x))` is `true`, `(is-ok (err x))` is `false`, and `is-err`
///   the other way round;
/// - `(is-some (some x))` is `true`, `(is-some none)` is `false`, and
///   `is-none` the other way round;
/// - `(unwrap-panic (ok x))` and `(unwrap-panic (some x))` are `x`, while
///   `(unwrap-panic (err x))` and `(unwrap-panic none)` panic;
/// - `(unwrap-err-panic (err x))` is `x`, and `(unwrap-err-panic (ok x))`
///   panics.
pub open spec fn reduce(k: OpKind, a: Term) -> Option<Term> {
    let okay = wrapped_by(a, OpKind::ConsOkay);
    let error = wrapped_by(a, OpKind::ConsError);
    let some = wrapped_by(a, OpKind::ConsSome);
    let none = a == none_term();
    if k == OpKind::IsOkay {
        if okay is Some { Some(bool_term(true)) } else if error is Some { Some(bool_term(false)) } else { None }
    } else if k == OpKind::IsErr {
        if okay is Some { Some(bool_term(false)) } else if error is Some { Some(bool_term(true)) } else { None }
    } else if k == OpKind::IsSome {
        if some is Some { Some(bool_term(true)) } else if none { Some(bool_term(false)) } else { None }
    } else if k == OpKind::IsNone {
        if some is Some { Some(bool_term(false)) } else if none { Some(bool_term(true)) } else { None }
    } else if k == OpKind::UnwrapPanic {
        if okay is Some { okay } else if some is Some { some } else if error is Some || none { Some(Term::Panic) } else { None }
    } else if k == OpKind::UnwrapErrPanic {
        if error is Some { error } else if okay is Some { Some(Term::Panic) } else { None }
    } else {
        None
    }
}

/// A node with already simplified operands, reduced where a rule applies.
pub open spec fn consolidate(h: HeadV, args: Seq<Term>) -> Term {
    match h {
        HeadV::Op(k) => if args.len() == 1 {
            match reduce(k, args[0]) {
                Some(r) => r,
                None => Term::Node(h, args),
            }
        } else {
            Term::Node(h, args)
        },
        _ => Term::Node(h, args),
    }
}

/// The term with every reducible node reduced, operands first.
pub open spec fn simplified(t: Term) -> Term
    decreases t, 0int,
{
    match t {
        Term::Node(h, args) => consolidate(h, simplified_args(args, args.len() as int)),
        _ => t,
    }
}

/// The first `n` operands, each simplified.
pub open spec fn simplified_args(args: Seq<Term>, n: int) -> Seq<Term>
    decreases args, n,
{
    if n <= 0 || n > args.len() {
        Seq::empty()
    } else {
        simplified_args(args, n - 1).push(simplified(args[n - 1]))
    }
}

proof fn lemma_simplified_args(args: Seq<Term>, n: int)
    requires
        0 <= n <= args.len(),
    ensures
        simplified_args(args, n).len() == n,
        forall|i: int| 0 <= i < n ==> #[trigger] simplified_args(args, n)[i] == simplified(args[i]),
    decreases n,
{
    if n > 0 {
        lemma_simplified_args(args, n - 1);
    }
}

/// Some rule reduces the node `h` applied to `args`.
pub open spec fn has_rule(h: HeadV, args: Seq<Term>) -> bool {
    match h {
        HeadV::Op(k) => args.len() == 1 && reduce(k, args[0]) is Some,
        _ => false,
    }
}

/// No node of `t` is reducible.
pub open spec fn normal(t: Term) -> bool
    decreases t, 0int,
{
    match t {
        Term::Node(h, args) => normals(args, args.len() as int) && !has_rule(h, args),
        _ => true,
    }
}

/// The first `n` operands are each normal.
pub open spec fn normals(args: Seq<Term>, n: int) -> bool
    decreases args, n,
{
    if n <= 0 || n > args.len() {
        true
    } else {
        normals(args, n - 1) && normal(args[n - 1])
    }
}

proof fn lemma_normals(args: Seq<Term>, n: int)
    requires
        0 <= n <= args.len(),
    ensures
        normals(args, n) <==> forall|i: int| 0 <= i < n ==> #[trigger] normal(args[i]),
    decreases n,
{
    if n > 0 {
        lemma_normals(args, n - 1);
        assert(normals(args, n) == (normals(args, n - 1) && normal(args[n - 1])));
        if forall|i: int| 0 <= i < n ==> #[trigger] normal(args[i]) {
            assert(normal(args[n - 1]));
            assert forall|i: int| 0 <= i < n - 1 implies #[trigger] normal(args[i]) by {}
        }
    }
}

/// Every reduction yields a normal term when the operand is normal.
proof fn lemma_reduce_normal(k: OpKind, a: Term)
    requires
        normal(a),
        reduce(k, a) is Some,
    ensures
        normal(reduce(k, a)->0),
{
    match a {
        Term::Node(h, xs) => {
            lemma_normals(xs, xs.len() as int);
            if xs.len() == 1 {
                assert(normal(xs[0]));
            }
        },
        _ => {},
    }
}

/// A simplified term is normal.
pub proof fn lemma_simplified_normal(t: Term)
    ensures
        normal(simplified(t)),
    decreases t, 0int,
{
    match t {
        Term::Node(h, args) => {
            let n = args.len() as int;
            let sa = simplified_args(args, n);
            lemma_simplified_args(args, n);
            assert forall|i: int| 0 <= i < n implies #[trigger] normal(sa[i]) by {
                assert(decreases_to!(t => args));
                assert(decreases_to!(args => args[i]));
                lemma_simplified_normal(args[i]);
            }
            lemma_normals(sa, n);
            if has_rule(h, sa) {
                let k = h->Op_0;
                lemma_reduce_normal(k, sa[0]);
            }
        },
        _ => {},
    }
}

/// A normal term simplifies to itself.
pub proof fn lemma_normal_simplified(t: Term)
    requires
        normal(t),
    ensures
        simplified(t) == t,
    decreases t, 0int,
{
    match t {
        Term::Node(h, args) => {
            let n = args.len() as int;
            lemma_normals(args, n);
            lemma_simplified_args(args, n);
            assert forall|i: int| 0 <= i < n implies #[trigger] simplified_args(args, n)[i] == args[i] by {
                assert(decreases_to!(t => args));
                assert(decreases_to!(args => args[i]));
                assert(normal(args[i]));
                lemma_normal_simplified(args[i]);
            }
            assert(simplified_args(args, n) =~= args);
        },
        _ => {},
    }
}

/// Simplifying twice is simplifying once: a simplified term has nothing
/// left to reduce.
pub proof fn lemma_simplify_idempotent(t: Term)
    ensures
        simplified(simplified(t)) == simplified(t),
{
    lemma_simplified_normal(t);
    lemma_normal_simplified(simplified(t));
}

/// Applies a rule to operator `k` and its single operand `a`: the result
/// when one applies, else `a` back.
fn reduce_exec(k: OpKind, a: SymOp) -> (r: Result<SymOp, SymOp>)
    ensures
        match r {
            Ok(x) => reduce(k, a@) == Some(x@),
            Err(b) => reduce(k, a@) is None && b@ == a@,
        },
{
    proof {
        lemma_terms_of(seq![a]);
    }
    match a {
        SymOp::Node(ah, xs) => {
            let j = match &ah {
                Head::Op(j) => Some(*j),
                _ => None,
            };
            proof {
                lemma_terms_of(xs@);
            }
            match j {
                Some(j) => {
                    if xs.len() != 1 {
                        return Err(SymOp::Node(ah, xs));
                    }
                    let okay = j == OpKind::ConsOkay;
                    let error = j == OpKind::ConsError;
                    let some = j == OpKind::ConsSome;
                    let mut xs = xs;
                    if (k == OpKind::IsOkay && (okay || error)) || (k == OpKind::IsErr && (okay || error)) {
                        let b = (k == OpKind::IsOkay) == okay;
                        Ok(SymOp::Constant(Value::Bool(b)))
                    } else if (k == OpKind::IsSome || k == OpKind::IsNone) && some {
                        Ok(SymOp::Constant(Value::Bool(k == OpKind::IsSome)))
                    } else if (k == OpKind::UnwrapPanic && (okay || some)) || (k == OpKind::UnwrapErrPanic && error) {
                        let x = xs.pop().unwrap();
                        Ok(x)
                    } else if (k == OpKind::UnwrapPanic && error) || (k == OpKind::UnwrapErrPanic && okay) {
                        Ok(SymOp::Panic)
                    } else {
                        Err(SymOp::Node(ah, xs))
                    }
                },
                None => Err(SymOp::Node(ah, xs)),
            }
        },
        SymOp::Constant(Value::NoneValue) => {
            if k == OpKind::IsSome {
                Ok(SymOp::Constant(Value::Bool(false)))
            } else if k == OpKind::IsNone {
                Ok(SymOp::Constant(Value::Bool(true)))
            } else if k == OpKind::UnwrapPanic {
                Ok(SymOp::Panic)
            } else {
                Err(SymOp::Constant(Value::NoneValue))
            }
        },
        other => Err(other),
    }
}

fn consolidate_exec(h: Head, args: Vec<SymOp>) -> (r: SymOp)
    ensures
        r@ == consolidate(h@, terms_of(args@)),
{
    proof {
        lemma_terms_of(args@);
    }
    let k = match &h {
        Head::Op(k) => *k,
        _ => {
            return SymOp::Node(h, args);
        },
    };
    if args.len() != 1 {
        return SymOp::Node(h, args);
    }
    let mut args = args;
    let ghost orig = args@;
    let a = args.pop().unwrap();
    proof {
        assert(orig[0] == a);
        assert(terms_of(orig)[0] == a@);
    }
    match reduce_exec(k, a) {
        Ok(x) => x,
        Err(b) => {
            args.push(b);
            proof {
                lemma_terms_of(args@);
                assert(terms_of(args@) =~= terms_of(orig));
            }
            SymOp::Node(h, args)
        },
    }
}

fn simplified_op(op: &SymOp) -> (r: SymOp)
    ensures
        r@ == simplified(op@),
    decreases op,
{
    match op {
        SymOp::Node(h, args) => {
            let ghost tv = terms_of(args@);
            proof {
                lemma_terms_of(args@);
                lemma_simplified_args(tv, tv.len() as int);
            }
            let mut out: Vec<SymOp> = Vec::new();
            let mut i: usize = 0;
            while i < args.len()
                invariant
                    0 <= i <= args@.len(),
                    *op == SymOp::Node(*h, *args),
                    tv == terms_of(args@),
                    tv.len() == args@.len(),
                    forall|j: int| 0 <= j < args@.len() ==> #[trigger] tv[j] == term_of(args@[j]),
                    out@.len() == i,
                    forall|j: int| 0 <= j < i ==> #[trigger] out@[j]@ == simplified(tv[j]),
                decreases args@.len() - i,
            {
                proof {
                    assert(op->Node_1 == *args);
                    assert(decreases_to!(*op => op->Node_1));
                    assert(decreases_to!(*args => args[i as int]));
                }
                let s = simplified_op(&args[i]);
                out.push(s);
                i = i + 1;
            }
            proof {
                lemma_terms_of(out@);
                lemma_simplified_args(tv, tv.len() as int);
                assert forall|j: int| 0 <= j < out@.len() implies #[trigger] terms_of(out@)[j]
                    == simplified_args(tv, tv.len() as int)[j] by {
                    assert(out@[j]@ == simplified(tv[j]));
                }
                assert(terms_of(out@) =~= simplified_args(tv, tv.len() as int));
            }
            consolidate_exec(h.duplicate(), out)
        },
        SymOp::Constant(v) => SymOp::Constant(v.duplicate()),
        SymOp::Variable(s) => SymOp::Variable(s.duplicate()),
        SymOp::Panic => SymOp::Panic,
    }
}

impl SymOp {
    /// The term with every reducible node reduced, operands first.
    pub fn simplify(self) -> (r: Result<SymOp, Error>)
        ensures
            r matches Ok(s) && s@ == simplified(self@),
    {
        Ok(simplified_op(&self))
    }
}

} // verus!
