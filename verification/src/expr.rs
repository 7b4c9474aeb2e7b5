//! Parsed specification expressions.
//!
//! A specification is written in Clarity syntax. The Clarity parser turns
//! its text into expressions: literal values, atoms, fully qualified names
//! (`'ADDR.contract.name`) and lists. Where an atom or a list is a Clarity
//! type signature, it also carries the type as Clarity prints it.

use vstd::prelude::*;
use crate::symop::{FullName, Value, ValueV, Duplicate};
use crate::state::NameV;

verus! {

#[derive(Debug, PartialEq)]
pub enum SymExpr {
    /// A literal value.
    Literal(Value),
    /// A bare name, and the type it denotes if it is a type signature.
    Atom(String, Option<String>),
    /// A fully qualified name.
    Field(FullName),
    /// A list of expressions, and the type it denotes if it is a type
    /// signature.
    List(Vec<SymExpr>, Option<String>),
}

pub enum ExprV {
    Literal(ValueV),
    Atom(Seq<char>, Option<Seq<char>>),
    Field(NameV),
    List(Seq<ExprV>, Option<Seq<char>>),
}

pub open spec fn opt_text(o: Option<String>) -> Option<Seq<char>> {
    match o {
        Some(s) => Some(s@),
        None => None,
    }
}

/// The model of an expression.
pub open spec fn expr_of(e: SymExpr) -> ExprV
    decreases e,
{
    match e {
        SymExpr::Literal(v) => ExprV::Literal(v@),
        SymExpr::Atom(a, t) => ExprV::Atom(a@, opt_text(t)),
        SymExpr::Field(n) => ExprV::Field(n@),
        SymExpr::List(items, t) => {
            proof {
                assert(decreases_to!(items => items@));
            }
            ExprV::List(exprs_of(items@), opt_text(t))
        },
    }
}

/// The models of a sequence of expressions.
pub open spec fn exprs_of(es: Seq<SymExpr>) -> Seq<ExprV>
    decreases es,
{
    if es.len() == 0 {
        Seq::empty()
    } else {
        proof {
            assert(decreases_to!(es => es[es.len() - 1]));
        }
        exprs_of(es.drop_last()).push(expr_of(es.last()))
    }
}

pub proof fn lemma_exprs_of(es: Seq<SymExpr>)
    ensures
        exprs_of(es).len() == es.len(),
        forall|i: int| 0 <= i < es.len() ==> #[trigger] exprs_of(es)[i] == expr_of(es[i]),
    decreases es.len(),
{
    if es.len() > 0 {
        lemma_exprs_of(es.drop_last());
        assert forall|i: int| 0 <= i < es.len() implies #[trigger] exprs_of(es)[i] == expr_of(es[i]) by {
            if i < es.len() - 1 {
                assert(es.drop_last()[i] == es[i]);
            }
        }
    }
}

impl View for SymExpr {
    type V = ExprV;

    open spec fn view(&self) -> ExprV {
        expr_of(*self)
    }
}


impl DeepView for SymExpr {
    type V = ExprV;

    open spec fn deep_view(&self) -> ExprV {
        self@
    }
}

fn opt_string_duplicate(o: &Option<String>) -> (r: Option<String>)
    ensures
        opt_text(r) == opt_text(*o),
{
    match o {
        Some(s) => Some(s.clone()),
        None => None,
    }
}

impl Duplicate for SymExpr {
    fn duplicate(&self) -> (r: SymExpr)
        decreases self,
    {
        match self {
            SymExpr::Literal(v) => SymExpr::Literal(v.duplicate()),
            SymExpr::Atom(a, t) => SymExpr::Atom(a.clone(), opt_string_duplicate(t)),
            SymExpr::Field(n) => SymExpr::Field(n.duplicate()),
            SymExpr::List(items, t) => {
                let mut out: Vec<SymExpr> = Vec::new();
                let mut i: usize = 0;
                while i < items.len()
                    invariant
                        0 <= i <= items@.len(),
                        *self == SymExpr::List(*items, *t),
                        out@.len() == i,
                        forall|j: int| 0 <= j < i ==> out@[j]@ == items@[j]@,
                    decreases items@.len() - i,
                {
                    proof {
                        assert(self->List_0 == *items);
                        assert(decreases_to!(*self => self->List_0));
                        assert(decreases_to!(*items => items[i as int]));
                    }
                    out.push(items[i].duplicate());
                    i = i + 1;
                }
                proof {
                    lemma_exprs_of(out@);
                    lemma_exprs_of(items@);
                    assert(exprs_of(out@) =~= exprs_of(items@));
                }
                SymExpr::List(out, opt_string_duplicate(t))
            },
        }
    }
}

} // verus!
