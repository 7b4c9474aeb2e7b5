//! The text of the engine's errors and of a failed specification check, as
//! the command line shows them.

use vstd::prelude::*;
use crate::text::{concat, push_str};
use crate::symop::{FullName, SymOp, Term, Predicate, PredicateV, predicate_term};
use crate::state::{NameV, Continuation, ContinuationV};
use crate::failures::{ProofFailures, FailuresV, failures_empty};
use crate::render::{render, name_text, name_to_text};

verus! {

broadcast use vstd::std_specs::vec::group_vec_axioms;

/// A term on a line of its own.
pub open spec fn pretty(t: Term) -> Seq<char> {
    render(t) + "\n"@
}

/// The path and final formula of a terminating state, as a failure report
/// lists them.
pub open spec fn path_formula(c: ContinuationV) -> Seq<char> {
    "      Path: "@ + c.function_path + "\n   Formula: "@ + render(c.final_formula) + "\n"@
}

/// A terminating state in a failure report: its path, final formula and
/// path predicate.
pub open spec fn state_text(c: ContinuationV) -> Seq<char> {
    path_formula(c) + " Predicate: "@ + render(predicate_term(c.predicate)) + "\n"@
}

pub open spec fn failed_condition_item(x: (ContinuationV, PredicateV)) -> Seq<char> {
    "Unproven halting condition:\n"@ + pretty(predicate_term(x.1)) + "Continuation formula:\n"@ + pretty(x.0.final_formula)
        + "Continuation predicate:\n"@ + pretty(predicate_term(x.0.predicate))
}

pub open spec fn failed_conditions(items: Seq<(ContinuationV, PredicateV)>, n: int) -> Seq<char>
    decreases n,
{
    if n <= 0 || n > items.len() { Seq::empty() } else { failed_conditions(items, n - 1) + failed_condition_item(items[n - 1]) }
}

pub open spec fn unchecked_states(items: Seq<ContinuationV>, n: int) -> Seq<char>
    decreases n,
{
    if n <= 0 || n > items.len() {
        Seq::empty()
    } else {
        unchecked_states(items, n - 1) + "Unchecked continuation:\n"@ + state_text(items[n - 1]) + "\n"@
    }
}

pub open spec fn unmatched_conditions(items: Seq<PredicateV>, n: int) -> Seq<char>
    decreases n,
{
    if n <= 0 || n > items.len() {
        Seq::empty()
    } else {
        unmatched_conditions(items, n - 1) + "Unmatched halting condition:\n"@ + pretty(predicate_term(items[n - 1]))
    }
}

/// Entries of a state and a name: a heading, then the state and the name.
pub open spec fn state_name_lines(items: Seq<(ContinuationV, NameV)>, head: Seq<char>, n: int) -> Seq<char>
    decreases n,
{
    if n <= 0 || n > items.len() {
        Seq::empty()
    } else {
        state_name_lines(items, head, n - 1) + head + path_formula(items[n - 1].0) + "  Variable: "@
            + name_text(items[n - 1].1) + "\n"@
    }
}

/// Entries of a state, a name and a term, each term after its label.
pub open spec fn state_term_lines(items: Seq<(ContinuationV, NameV, Term)>, head: Seq<char>, l1: Seq<char>, l2: Seq<char>, n: int)
    -> Seq<char>
    decreases n,
{
    if n <= 0 || n > items.len() {
        Seq::empty()
    } else {
        state_term_lines(items, head, l1, l2, n - 1) + head + path_formula(items[n - 1].0) + l1 + name_text(items[n - 1].1)
            + "\n"@ + l2 + render(items[n - 1].2) + "\n"@
    }
}

/// Entries of a state, a name and two terms, each after its label.
pub open spec fn state_two_term_lines(items: Seq<(ContinuationV, NameV, Term, Term)>, head: Seq<char>, l1: Seq<char>,
    l2: Seq<char>, l3: Seq<char>, n: int) -> Seq<char>
    decreases n,
{
    if n <= 0 || n > items.len() {
        Seq::empty()
    } else {
        state_two_term_lines(items, head, l1, l2, l3, n - 1) + head + path_formula(items[n - 1].0) + l1
            + name_text(items[n - 1].1) + "\n"@ + l2 + render(items[n - 1].2) + "\n"@ + l3 + render(items[n - 1].3) + "\n"@
    }
}

pub open spec fn incorrect_map_lines(items: Seq<(ContinuationV, NameV, Term, Term, Term)>, n: int) -> Seq<char>
    decreases n,
{
    if n <= 0 || n > items.len() {
        Seq::empty()
    } else {
        let x = items[n - 1];
        incorrect_map_lines(items, n - 1) + "Incorrect map-insert or map-set:\n"@ + path_formula(x.0) + "       Map: "@
            + name_text(x.1) + "\n       Key: "@ + render(x.2) + "\n  Expected: "@ + render(x.3) + "\n     Given: "@
            + render(x.4) + "\n"@
    }
}

/// Entries of a name and a term given by the specification.
pub open spec fn given_lines(items: Seq<(NameV, Term)>, head: Seq<char>, label: Seq<char>, n: int) -> Seq<char>
    decreases n,
{
    if n <= 0 || n > items.len() {
        Seq::empty()
    } else {
        given_lines(items, head, label, n - 1) + head + label + name_text(items[n - 1].0) + "\n     Given: "@
            + render(items[n - 1].1) + "\n"@
    }
}

pub open spec fn given_map_lines(items: Seq<(NameV, Term, Term)>, n: int) -> Seq<char>
    decreases n,
{
    if n <= 0 || n > items.len() {
        Seq::empty()
    } else {
        given_map_lines(items, n - 1) + "Unmatched given map-insert or map-set:\n       Map: "@ + name_text(items[n - 1].0)
            + "\n       Key: "@ + render(items[n - 1].1) + "\n     Given: "@ + render(items[n - 1].2) + "\n"@
    }
}

/// One name per line, indented.
pub open spec fn name_lines(names: Seq<NameV>, n: int) -> Seq<char>
    decreases n,
{
    if n <= 0 || n > names.len() { Seq::empty() } else { name_lines(names, n - 1) + "  "@ + name_text(names[n - 1]) + "\n"@ }
}

pub open spec fn reach_lines(items: Seq<(PredicateV, Seq<NameV>)>, head: Seq<char>, n: int) -> Seq<char>
    decreases n,
{
    if n <= 0 || n > items.len() {
        Seq::empty()
    } else {
        reach_lines(items, head, n - 1) + head + render(predicate_term(items[n - 1].0)) + ":\n"@
            + name_lines(items[n - 1].1, items[n - 1].1.len() as int)
    }
}

/// A block followed by a blank line, when it is not empty.
pub open spec fn spaced(block: Seq<char>, nonempty: bool) -> Seq<char> {
    if nonempty { block + "\n\n"@ } else { Seq::empty() }
}

/// The states and halting conditions that did not match.
pub open spec fn unmatched_text(f: FailuresV) -> Seq<char> {
    let hcf = f.halting_conditions_failed;
    let uc = f.unchecked_continuations;
    let uhc = f.unmatched_halting_conditions;
    spaced(failed_conditions(hcf, hcf.len() as int), hcf.len() > 0)
    + spaced(unchecked_states(uc, uc.len() as int), uc.len() > 0)
    + spaced(unmatched_conditions(uhc, uhc.len() as int), uhc.len() > 0)
}

/// The variable writes that disagree.
pub open spec fn var_writes_text(f: FailuresV) -> Seq<char> {
    state_two_term_lines(f.incorrect_var_writes, "Incorrect var-set:\n"@, "  Variable: "@, "  Expected: "@, "     Given: "@,
        f.incorrect_var_writes.len() as int)
    + state_name_lines(f.missing_var_writes, "Missing var-set:\n"@, f.missing_var_writes.len() as int)
    + given_lines(f.unmatched_var_writes, "Unmatched given var-set:\n"@, "  Variable: "@, f.unmatched_var_writes.len() as int)
    + state_term_lines(f.unchecked_var_writes, "Unchecked var-set:\n"@, "  Variable: "@, "  Expected: "@,
        f.unchecked_var_writes.len() as int)
}

/// The map writes that disagree.
pub open spec fn map_writes_text(f: FailuresV) -> Seq<char> {
    incorrect_map_lines(f.incorrect_map_writes, f.incorrect_map_writes.len() as int)
    + state_term_lines(f.missing_map_writes, "Missing map-insert or map-set:\n"@, "       Map: "@, "       Key: "@,
        f.missing_map_writes.len() as int)
    + given_map_lines(f.unmatched_map_writes, f.unmatched_map_writes.len() as int)
    + state_two_term_lines(f.unchecked_map_writes, "Unchecked map-insert or map-set:\n"@, "       Map: "@, "       Key: "@,
        "  Expected: "@, f.unchecked_map_writes.len() as int)
}

/// The map deletes that disagree.
pub open spec fn map_deletes_text(f: FailuresV) -> Seq<char> {
    state_term_lines(f.missing_map_deletes, "Missing map-delete:\n"@, "       Map: "@, "       Key: "@,
        f.missing_map_deletes.len() as int)
    + given_lines(f.unmatched_map_deletes, "Unmatched given map-delete:\n"@, "       Map: "@, f.unmatched_map_deletes.len() as int)
    + state_term_lines(f.unchecked_map_deletes, "Unchecked map-delete:\n"@, "  Variable: "@, "  Expected: "@,
        f.unchecked_map_deletes.len() as int)
}

/// The flags, then the reachable writes that disagree.
pub open spec fn reach_text_of(f: FailuresV) -> Seq<char> {
    (if f.early_return_mismatch { "Early-return mismatch\n"@ } else { Seq::empty() })
    + (if f.panicking_mismatch { "Panicking mismatch\n"@ } else { Seq::empty() })
    + reach_lines(f.unchecked_reachable_var_writes, "Unchecked reachable variable writes in condition "@,
        f.unchecked_reachable_var_writes.len() as int)
    + reach_lines(f.unmatched_reachable_var_writes, "Unmatched reachable variable writes in condition "@,
        f.unmatched_reachable_var_writes.len() as int)
    + reach_lines(f.unchecked_reachable_map_writes, "Unchecked reachable map writes in condition "@,
        f.unchecked_reachable_map_writes.len() as int)
    + reach_lines(f.unmatched_reachable_map_writes, "Unmatched reachable map writes in condition "@,
        f.unmatched_reachable_map_writes.len() as int)
}

/// The report of a failed check: every failure, grouped by kind, or
/// `(all checks passed)` when there is none.
pub open spec fn failures_text(f: FailuresV) -> Seq<char> {
    unmatched_text(f) + var_writes_text(f) + map_writes_text(f) + map_deletes_text(f) + reach_text_of(f)
        + (if failures_empty(f) { "(all checks passed)\n"@ } else { Seq::empty() })
}

fn path_formula_text(c: &Continuation) -> (s: String)
    ensures
        s@ == path_formula(c@),
{
    let s = concat("      Path: ", c.function_path.as_str());
    let s = concat(s.as_str(), "\n   Formula: ");
    let s = concat(s.as_str(), c.final_formula.to_text().as_str());
    concat(s.as_str(), "\n")
}

fn pretty_text(t: &SymOp) -> (s: String)
    ensures
        s@ == pretty(t@),
{
    concat(t.to_text().as_str(), "\n")
}

fn pretty_predicate(p: &Predicate) -> (s: String)
    ensures
        s@ == pretty(predicate_term(p@)),
{
    concat(p.to_text().as_str(), "\n")
}

fn failed_conditions_text(out: &mut String, items: &Vec<(Continuation, Predicate)>)
    ensures
        final(out)@ == old(out)@ + failed_conditions(items.deep_view(), items@.len() as int),
{
    let ghost start = out@;
    let ghost iv = items.deep_view();
    let mut i: usize = 0;
    while i < items.len()
        invariant
            iv == items.deep_view(),
            0 <= i <= items@.len(),
            out@ == start + failed_conditions(iv, i as int),
        decreases items@.len() - i,
    {
        let (c, p) = &items[i];
        push_str(out, "Unproven halting condition:\n");
        push_str(out, pretty_predicate(p).as_str());
        push_str(out, "Continuation formula:\n");
        push_str(out, pretty_text(&c.final_formula).as_str());
        push_str(out, "Continuation predicate:\n");
        push_str(out, pretty_predicate(&c.predicate).as_str());
        proof {
            assert(out@ =~= start + failed_conditions(iv, i + 1));
        }
        i = i + 1;
    }
}

fn unchecked_entry(c: &Continuation) -> (s: String)
    ensures
        s@ == "Unchecked continuation:\n"@ + state_text(c@) + "\n"@,
{
    let a = path_formula_text(c);
    let p = c.predicate.to_text();
    let s = concat("Unchecked continuation:\n", a.as_str());
    let s = concat(s.as_str(), " Predicate: ");
    let s = concat(s.as_str(), p.as_str());
    let s = concat(s.as_str(), "\n");
    let s = concat(s.as_str(), "\n");
    assert(s@ =~= "Unchecked continuation:\n"@ + state_text(c@) + "\n"@);
    s
}

fn unchecked_states_text(out: &mut String, items: &Vec<Continuation>)
    ensures
        final(out)@ == old(out)@ + unchecked_states(items.deep_view(), items@.len() as int),
{
    let ghost start = out@;
    let ghost iv = items.deep_view();
    let mut i: usize = 0;
    while i < items.len()
        invariant
            iv == items.deep_view(),
            0 <= i <= items@.len(),
            out@ == start + unchecked_states(iv, i as int),
        decreases items@.len() - i,
    {
        push_str(out, unchecked_entry(&items[i]).as_str());
        proof {
            assert(out@ =~= start + unchecked_states(iv, i + 1));
        }
        i = i + 1;
    }
}

fn unmatched_conditions_text(out: &mut String, items: &Vec<Predicate>)
    ensures
        final(out)@ == old(out)@ + unmatched_conditions(items.deep_view(), items@.len() as int),
{
    let ghost start = out@;
    let ghost iv = items.deep_view();
    let mut i: usize = 0;
    while i < items.len()
        invariant
            iv == items.deep_view(),
            0 <= i <= items@.len(),
            out@ == start + unmatched_conditions(iv, i as int),
        decreases items@.len() - i,
    {
        push_str(out, "Unmatched halting condition:\n");
        push_str(out, pretty_predicate(&items[i]).as_str());
        proof {
            assert(out@ =~= start + unmatched_conditions(iv, i + 1));
        }
        i = i + 1;
    }
}

fn state_name_text(out: &mut String, items: &Vec<(Continuation, FullName)>, head: &str)
    ensures
        final(out)@ == old(out)@ + state_name_lines(items.deep_view(), head@, items@.len() as int),
{
    let ghost start = out@;
    let ghost iv = items.deep_view();
    let mut i: usize = 0;
    while i < items.len()
        invariant
            iv == items.deep_view(),
            0 <= i <= items@.len(),
            out@ == start + state_name_lines(iv, head@, i as int),
        decreases items@.len() - i,
    {
        let (c, n) = &items[i];
        push_str(out, head);
        push_str(out, path_formula_text(c).as_str());
        push_str(out, "  Variable: ");
        push_str(out, name_to_text(n).as_str());
        push_str(out, "\n");
        proof {
            assert(out@ =~= start + state_name_lines(iv, head@, i + 1));
        }
        i = i + 1;
    }
}

fn state_term_text(out: &mut String, items: &Vec<(Continuation, FullName, SymOp)>, head: &str, l1: &str, l2: &str)
    ensures
        final(out)@ == old(out)@ + state_term_lines(items.deep_view(), head@, l1@, l2@, items@.len() as int),
{
    let ghost start = out@;
    let ghost iv = items.deep_view();
    let mut i: usize = 0;
    while i < items.len()
        invariant
            iv == items.deep_view(),
            0 <= i <= items@.len(),
            out@ == start + state_term_lines(iv, head@, l1@, l2@, i as int),
        decreases items@.len() - i,
    {
        let (c, n, t) = &items[i];
        push_str(out, head);
        push_str(out, path_formula_text(c).as_str());
        push_str(out, l1);
        push_str(out, name_to_text(n).as_str());
        push_str(out, "\n");
        push_str(out, l2);
        push_str(out, t.to_text().as_str());
        push_str(out, "\n");
        proof {
            assert(out@ =~= start + state_term_lines(iv, head@, l1@, l2@, i + 1));
        }
        i = i + 1;
    }
}

fn state_two_term_text(out: &mut String, items: &Vec<(Continuation, FullName, SymOp, SymOp)>, head: &str, l1: &str, l2: &str,
    l3: &str)
    ensures
        final(out)@ == old(out)@ + state_two_term_lines(items.deep_view(), head@, l1@, l2@, l3@, items@.len() as int),
{
    let ghost start = out@;
    let ghost iv = items.deep_view();
    let mut i: usize = 0;
    while i < items.len()
        invariant
            iv == items.deep_view(),
            0 <= i <= items@.len(),
            out@ == start + state_two_term_lines(iv, head@, l1@, l2@, l3@, i as int),
        decreases items@.len() - i,
    {
        let (c, n, a, b) = &items[i];
        push_str(out, head);
        push_str(out, path_formula_text(c).as_str());
        push_str(out, l1);
        push_str(out, name_to_text(n).as_str());
        push_str(out, "\n");
        push_str(out, l2);
        push_str(out, a.to_text().as_str());
        push_str(out, "\n");
        push_str(out, l3);
        push_str(out, b.to_text().as_str());
        push_str(out, "\n");
        proof {
            assert(out@ =~= start + state_two_term_lines(iv, head@, l1@, l2@, l3@, i + 1));
        }
        i = i + 1;
    }
}

fn incorrect_map_text(out: &mut String, items: &Vec<(Continuation, FullName, SymOp, SymOp, SymOp)>)
    ensures
        final(out)@ == old(out)@ + incorrect_map_lines(items.deep_view(), items@.len() as int),
{
    let ghost start = out@;
    let ghost iv = items.deep_view();
    let mut i: usize = 0;
    while i < items.len()
        invariant
            iv == items.deep_view(),
            0 <= i <= items@.len(),
            out@ == start + incorrect_map_lines(iv, i as int),
        decreases items@.len() - i,
    {
        let (c, n, k, a, b) = &items[i];
        push_str(out, "Incorrect map-insert or map-set:\n");
        push_str(out, path_formula_text(c).as_str());
        push_str(out, "       Map: ");
        push_str(out, name_to_text(n).as_str());
        push_str(out, "\n       Key: ");
        push_str(out, k.to_text().as_str());
        push_str(out, "\n  Expected: ");
        push_str(out, a.to_text().as_str());
        push_str(out, "\n     Given: ");
        push_str(out, b.to_text().as_str());
        push_str(out, "\n");
        proof {
            assert(out@ =~= start + incorrect_map_lines(iv, i + 1));
        }
        i = i + 1;
    }
}

fn given_text(out: &mut String, items: &Vec<(FullName, SymOp)>, head: &str, label: &str)
    ensures
        final(out)@ == old(out)@ + given_lines(items.deep_view(), head@, label@, items@.len() as int),
{
    let ghost start = out@;
    let ghost iv = items.deep_view();
    let mut i: usize = 0;
    while i < items.len()
        invariant
            iv == items.deep_view(),
            0 <= i <= items@.len(),
            out@ == start + given_lines(iv, head@, label@, i as int),
        decreases items@.len() - i,
    {
        let (n, t) = &items[i];
        push_str(out, head);
        push_str(out, label);
        push_str(out, name_to_text(n).as_str());
        push_str(out, "\n     Given: ");
        push_str(out, t.to_text().as_str());
        push_str(out, "\n");
        proof {
            assert(out@ =~= start + given_lines(iv, head@, label@, i + 1));
        }
        i = i + 1;
    }
}

fn given_map_text(out: &mut String, items: &Vec<(FullName, SymOp, SymOp)>)
    ensures
        final(out)@ == old(out)@ + given_map_lines(items.deep_view(), items@.len() as int),
{
    let ghost start = out@;
    let ghost iv = items.deep_view();
    let mut i: usize = 0;
    while i < items.len()
        invariant
            iv == items.deep_view(),
            0 <= i <= items@.len(),
            out@ == start + given_map_lines(iv, i as int),
        decreases items@.len() - i,
    {
        let (n, k, v) = &items[i];
        push_str(out, "Unmatched given map-insert or map-set:\n       Map: ");
        push_str(out, name_to_text(n).as_str());
        push_str(out, "\n       Key: ");
        push_str(out, k.to_text().as_str());
        push_str(out, "\n     Given: ");
        push_str(out, v.to_text().as_str());
        push_str(out, "\n");
        proof {
            assert(out@ =~= start + given_map_lines(iv, i + 1));
        }
        i = i + 1;
    }
}

fn name_lines_text(out: &mut String, names: &Vec<FullName>)
    ensures
        final(out)@ == old(out)@ + name_lines(names.deep_view(), names@.len() as int),
{
    let ghost start = out@;
    let ghost nv = names.deep_view();
    let mut i: usize = 0;
    while i < names.len()
        invariant
            nv == names.deep_view(),
            0 <= i <= names@.len(),
            out@ == start + name_lines(nv, i as int),
        decreases names@.len() - i,
    {
        push_str(out, "  ");
        push_str(out, name_to_text(&names[i]).as_str());
        push_str(out, "\n");
        proof {
            assert(out@ =~= start + name_lines(nv, i + 1));
        }
        i = i + 1;
    }
}

fn reach_text(out: &mut String, items: &Vec<(Predicate, Vec<FullName>)>, head: &str)
    ensures
        final(out)@ == old(out)@ + reach_lines(items.deep_view(), head@, items@.len() as int),
{
    let ghost start = out@;
    let ghost iv = items.deep_view();
    let mut i: usize = 0;
    while i < items.len()
        invariant
            iv == items.deep_view(),
            0 <= i <= items@.len(),
            out@ == start + reach_lines(iv, head@, i as int),
        decreases items@.len() - i,
    {
        let (p, names) = &items[i];
        push_str(out, head);
        push_str(out, p.to_text().as_str());
        push_str(out, ":\n");
        name_lines_text(out, names);
        proof {
            assert(out@ =~= start + reach_lines(iv, head@, i + 1));
        }
        i = i + 1;
    }
}

#[verifier::rlimit(50)]
fn unmatched_part(out: &mut String, f: &ProofFailures)
    ensures
        final(out)@ == old(out)@ + unmatched_text(f@),
{
    let ghost start = out@;
    if f.halting_conditions_failed.len() > 0 {
        failed_conditions_text(out, &f.halting_conditions_failed);
        push_str(out, "\n\n");
    }
    let ghost a = out@;
    if f.unchecked_continuations.len() > 0 {
        unchecked_states_text(out, &f.unchecked_continuations);
        push_str(out, "\n\n");
    }
    let ghost b = out@;
    if f.unmatched_halting_conditions.len() > 0 {
        unmatched_conditions_text(out, &f.unmatched_halting_conditions);
        push_str(out, "\n\n");
    }
    proof {
        let hcf = f@.halting_conditions_failed;
        let uc = f@.unchecked_continuations;
        let uhc = f@.unmatched_halting_conditions;
        assert(a =~= start + spaced(failed_conditions(hcf, hcf.len() as int), hcf.len() > 0));
        assert(b =~= a + spaced(unchecked_states(uc, uc.len() as int), uc.len() > 0));
        assert(out@ =~= b + spaced(unmatched_conditions(uhc, uhc.len() as int), uhc.len() > 0));
        assert(out@ =~= start + unmatched_text(f@));
    }
}

#[verifier::rlimit(50)]
fn var_writes_part(out: &mut String, f: &ProofFailures)
    ensures
        final(out)@ == old(out)@ + var_writes_text(f@),
{
    let ghost start = out@;
    state_two_term_text(out, &f.incorrect_var_writes, "Incorrect var-set:\n", "  Variable: ", "  Expected: ", "     Given: ");
    state_name_text(out, &f.missing_var_writes, "Missing var-set:\n");
    given_text(out, &f.unmatched_var_writes, "Unmatched given var-set:\n", "  Variable: ");
    state_term_text(out, &f.unchecked_var_writes, "Unchecked var-set:\n", "  Variable: ", "  Expected: ");
    proof {
        assert(out@ =~= start + var_writes_text(f@));
    }
}

#[verifier::rlimit(50)]
fn map_writes_part(out: &mut String, f: &ProofFailures)
    ensures
        final(out)@ == old(out)@ + map_writes_text(f@),
{
    let ghost start = out@;
    incorrect_map_text(out, &f.incorrect_map_writes);
    state_term_text(out, &f.missing_map_writes, "Missing map-insert or map-set:\n", "       Map: ", "       Key: ");
    given_map_text(out, &f.unmatched_map_writes);
    state_two_term_text(out, &f.unchecked_map_writes, "Unchecked map-insert or map-set:\n", "       Map: ", "       Key: ",
        "  Expected: ");
    proof {
        assert(out@ =~= start + map_writes_text(f@));
    }
}

#[verifier::rlimit(50)]
fn map_deletes_part(out: &mut String, f: &ProofFailures)
    ensures
        final(out)@ == old(out)@ + map_deletes_text(f@),
{
    let ghost start = out@;
    state_term_text(out, &f.missing_map_deletes, "Missing map-delete:\n", "       Map: ", "       Key: ");
    given_text(out, &f.unmatched_map_deletes, "Unmatched given map-delete:\n", "       Map: ");
    state_term_text(out, &f.unchecked_map_deletes, "Unchecked map-delete:\n", "  Variable: ", "  Expected: ");
    proof {
        assert(out@ =~= start + map_deletes_text(f@));
    }
}

#[verifier::rlimit(50)]
fn reach_part(out: &mut String, f: &ProofFailures)
    ensures
        final(out)@ == old(out)@ + reach_text_of(f@),
{
    let ghost start = out@;
    if f.early_return_mismatch {
        push_str(out, "Early-return mismatch\n");
    }
    if f.panicking_mismatch {
        push_str(out, "Panicking mismatch\n");
    }
    let ghost a = out@;
    reach_text(out, &f.unchecked_reachable_var_writes, "Unchecked reachable variable writes in condition ");
    reach_text(out, &f.unmatched_reachable_var_writes, "Unmatched reachable variable writes in condition ");
    reach_text(out, &f.unchecked_reachable_map_writes, "Unchecked reachable map writes in condition ");
    reach_text(out, &f.unmatched_reachable_map_writes, "Unmatched reachable map writes in condition ");
    proof {
        assert(out@ =~= start + reach_text_of(f@));
    }
}

impl ProofFailures {
    /// The report of the failures, grouped by kind.
    #[verifier::rlimit(50)]
    pub fn to_text(&self) -> (s: String)
        ensures
            s@ == failures_text(self@),
    {
        let mut out = String::new();
        unmatched_part(&mut out, self);
        var_writes_part(&mut out, self);
        map_writes_part(&mut out, self);
        map_deletes_part(&mut out, self);
        reach_part(&mut out, self);
        if self.is_empty() {
            push_str(&mut out, "(all checks passed)\n");
        }
        proof {
            assert(out@ =~= failures_text(self@));
        }
        out
    }
}

} // verus!
