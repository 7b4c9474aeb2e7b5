//! The report of how a function's computed terminating states differ from
//! the halting states its specification gives.

use vstd::prelude::*;
use crate::symop::{Same, Duplicate, FullName, SymOp, Term, Predicate, PredicateV};
use crate::state::{NameV, Continuation, ContinuationV, Halt, HaltV, lookup, distinct, distinct_keys, find_key, contains_same, lemma_lookup_at};

verus! {

broadcast use vstd::std_specs::vec::group_vec_axioms;

/// Every way in which computed terminating states and given halting states
/// can disagree. The four reachability reports map a path predicate to the
/// names reported for it, as association lists.
#[derive(Debug, PartialEq)]
pub struct ProofFailures {
    /// halting conditions that could not be concluded from a continuation's predicate
    pub halting_conditions_failed: Vec<(Continuation, Predicate)>,
    /// continuations not checked by any halting state
    pub unchecked_continuations: Vec<Continuation>,
    /// halting conditions that matched no continuation
    pub unmatched_halting_conditions: Vec<Predicate>,
    /// (continuation, variable, computed value, given value)
    pub incorrect_var_writes: Vec<(Continuation, FullName, SymOp, SymOp)>,
    /// variables the specification lists but the continuation does not write
    pub missing_var_writes: Vec<(Continuation, FullName)>,
    /// variable writes given that matched no continuation
    pub unmatched_var_writes: Vec<(FullName, SymOp)>,
    /// variables written but not checked: (continuation, variable, computed value)
    pub unchecked_var_writes: Vec<(Continuation, FullName, SymOp)>,
    /// (continuation, map, key, computed value, given value)
    pub incorrect_map_writes: Vec<(Continuation, FullName, SymOp, SymOp, SymOp)>,
    /// map entries the specification lists but the continuation does not write
    pub missing_map_writes: Vec<(Continuation, FullName, SymOp)>,
    /// map writes given that matched no continuation
    pub unmatched_map_writes: Vec<(FullName, SymOp, SymOp)>,
    /// map entries written but not checked: (continuation, map, key, value)
    pub unchecked_map_writes: Vec<(Continuation, FullName, SymOp, SymOp)>,
    /// map deletes the specification lists but the continuation does not make
    pub missing_map_deletes: Vec<(Continuation, FullName, SymOp)>,
    /// map deletes given that the matched continuation does not make
    pub unmatched_map_deletes: Vec<(FullName, SymOp)>,
    /// map deletes made but not checked
    pub unchecked_map_deletes: Vec<(Continuation, FullName, SymOp)>,
    /// a matched continuation and halting state disagree on early return
    pub early_return_mismatch: bool,
    /// a matched continuation and halting state disagree on panicking
    pub panicking_mismatch: bool,
    /// variables a path may write that the specification does not list
    pub unchecked_reachable_var_writes: Vec<(Predicate, Vec<FullName>)>,
    /// variables the specification lists that no path may write
    pub unmatched_reachable_var_writes: Vec<(Predicate, Vec<FullName>)>,
    /// maps a path may write that the specification does not list
    pub unchecked_reachable_map_writes: Vec<(Predicate, Vec<FullName>)>,
    /// maps the specification lists that no path may write
    pub unmatched_reachable_map_writes: Vec<(Predicate, Vec<FullName>)>,
}

#[verifier::ext_equal]
pub struct FailuresV {
    pub halting_conditions_failed: Seq<(ContinuationV, PredicateV)>,
    pub unchecked_continuations: Seq<ContinuationV>,
    pub unmatched_halting_conditions: Seq<PredicateV>,
    pub incorrect_var_writes: Seq<(ContinuationV, NameV, Term, Term)>,
    pub missing_var_writes: Seq<(ContinuationV, NameV)>,
    pub unmatched_var_writes: Seq<(NameV, Term)>,
    pub unchecked_var_writes: Seq<(ContinuationV, NameV, Term)>,
    pub incorrect_map_writes: Seq<(ContinuationV, NameV, Term, Term, Term)>,
    pub missing_map_writes: Seq<(ContinuationV, NameV, Term)>,
    pub unmatched_map_writes: Seq<(NameV, Term, Term)>,
    pub unchecked_map_writes: Seq<(ContinuationV, NameV, Term, Term)>,
    pub missing_map_deletes: Seq<(ContinuationV, NameV, Term)>,
    pub unmatched_map_deletes: Seq<(NameV, Term)>,
    pub unchecked_map_deletes: Seq<(ContinuationV, NameV, Term)>,
    pub early_return_mismatch: bool,
    pub panicking_mismatch: bool,
    pub unchecked_reachable_var_writes: Seq<(PredicateV, Seq<NameV>)>,
    pub unmatched_reachable_var_writes: Seq<(PredicateV, Seq<NameV>)>,
    pub unchecked_reachable_map_writes: Seq<(PredicateV, Seq<NameV>)>,
    pub unmatched_reachable_map_writes: Seq<(PredicateV, Seq<NameV>)>,
}

impl View for ProofFailures {
    type V = FailuresV;

    open spec fn view(&self) -> FailuresV {
        FailuresV {
            halting_conditions_failed: self.halting_conditions_failed.deep_view(),
            unchecked_continuations: self.unchecked_continuations.deep_view(),
            unmatched_halting_conditions: self.unmatched_halting_conditions.deep_view(),
            incorrect_var_writes: self.incorrect_var_writes.deep_view(),
            missing_var_writes: self.missing_var_writes.deep_view(),
            unmatched_var_writes: self.unmatched_var_writes.deep_view(),
            unchecked_var_writes: self.unchecked_var_writes.deep_view(),
            incorrect_map_writes: self.incorrect_map_writes.deep_view(),
            missing_map_writes: self.missing_map_writes.deep_view(),
            unmatched_map_writes: self.unmatched_map_writes.deep_view(),
            unchecked_map_writes: self.unchecked_map_writes.deep_view(),
            missing_map_deletes: self.missing_map_deletes.deep_view(),
            unmatched_map_deletes: self.unmatched_map_deletes.deep_view(),
            unchecked_map_deletes: self.unchecked_map_deletes.deep_view(),
            early_return_mismatch: self.early_return_mismatch,
            panicking_mismatch: self.panicking_mismatch,
            unchecked_reachable_var_writes: self.unchecked_reachable_var_writes.deep_view(),
            unmatched_reachable_var_writes: self.unmatched_reachable_var_writes.deep_view(),
            unchecked_reachable_map_writes: self.unchecked_reachable_map_writes.deep_view(),
            unmatched_reachable_map_writes: self.unmatched_reachable_map_writes.deep_view(),
        }
    }
}

/// The report with no failures.
pub open spec fn no_failures() -> FailuresV {
    FailuresV {
        halting_conditions_failed: Seq::empty(),
        unchecked_continuations: Seq::empty(),
        unmatched_halting_conditions: Seq::empty(),
        incorrect_var_writes: Seq::empty(),
        missing_var_writes: Seq::empty(),
        unmatched_var_writes: Seq::empty(),
        unchecked_var_writes: Seq::empty(),
        incorrect_map_writes: Seq::empty(),
        missing_map_writes: Seq::empty(),
        unmatched_map_writes: Seq::empty(),
        unchecked_map_writes: Seq::empty(),
        missing_map_deletes: Seq::empty(),
        unmatched_map_deletes: Seq::empty(),
        unchecked_map_deletes: Seq::empty(),
        early_return_mismatch: false,
        panicking_mismatch: false,
        unchecked_reachable_var_writes: Seq::empty(),
        unmatched_reachable_var_writes: Seq::empty(),
        unchecked_reachable_map_writes: Seq::empty(),
        unmatched_reachable_map_writes: Seq::empty(),
    }
}

/// A report is empty when every list is empty and no flag is set.
pub open spec fn failures_empty(f: FailuresV) -> bool {
    &&& f.halting_conditions_failed.len() == 0
    &&& f.unchecked_continuations.len() == 0
    &&& f.unmatched_halting_conditions.len() == 0
    &&& f.incorrect_var_writes.len() == 0
    &&& f.missing_var_writes.len() == 0
    &&& f.unmatched_var_writes.len() == 0
    &&& f.unchecked_var_writes.len() == 0
    &&& f.incorrect_map_writes.len() == 0
    &&& f.missing_map_writes.len() == 0
    &&& f.unmatched_map_writes.len() == 0
    &&& f.unchecked_map_writes.len() == 0
    &&& f.missing_map_deletes.len() == 0
    &&& f.unmatched_map_deletes.len() == 0
    &&& f.unchecked_map_deletes.len() == 0
    &&& !f.early_return_mismatch
    &&& !f.panicking_mismatch
    &&& f.unchecked_reachable_var_writes.len() == 0
    &&& f.unmatched_reachable_var_writes.len() == 0
    &&& f.unchecked_reachable_map_writes.len() == 0
    &&& f.unmatched_reachable_map_writes.len() == 0
}

/// Adds `n` to the names recorded for predicate `p`, creating the entry for
/// `p` if there is none; a name already recorded is not added again.
pub open spec fn record_name(l: Seq<(PredicateV, Seq<NameV>)>, p: PredicateV, n: NameV) -> Seq<(PredicateV, Seq<NameV>)> {
    if exists|i: int| 0 <= i < l.len() && l[i].0 == p {
        let i = choose|i: int| 0 <= i < l.len() && l[i].0 == p;
        if l[i].1.contains(n) {
            l
        } else {
            l.update(i, (p, l[i].1.push(n)))
        }
    } else {
        l.push((p, seq![n]))
    }
}

/// Predicates are distinct, and so are the names recorded for each.
pub open spec fn record_wf(l: Seq<(PredicateV, Seq<NameV>)>) -> bool {
    &&& distinct_keys(l)
    &&& forall|i: int| 0 <= i < l.len() ==> distinct(#[trigger] l[i].1)
}

/// The names recorded for predicate `p`, as a set; none if `p` has no
/// entry.
pub open spec fn names_at(l: Seq<(PredicateV, Seq<NameV>)>, p: PredicateV) -> Set<NameV> {
    if exists|i: int| 0 <= i < l.len() && l[i].0 == p {
        l[choose|i: int| 0 <= i < l.len() && l[i].0 == p].1.to_set()
    } else {
        Set::empty()
    }
}

/// A reachability report read as what it records: each predicate that has
/// an entry, with the set of names recorded for it. Two reports that are
/// equal read this way record the same names, in whatever order.
pub open spec fn names_map(l: Seq<(PredicateV, Seq<NameV>)>) -> Map<PredicateV, Set<NameV>> {
    Map::new(|p: PredicateV| exists|i: int| 0 <= i < l.len() && l[i].0 == p, |p: PredicateV| names_at(l, p))
}

proof fn lemma_names_at_index(l: Seq<(PredicateV, Seq<NameV>)>, k: PredicateV, i: int)
    requires
        distinct_keys(l),
        0 <= i < l.len(),
        l[i].0 == k,
    ensures
        names_at(l, k) == l[i].1.to_set(),
{
    let j = choose|j: int| 0 <= j < l.len() && l[j].0 == k;
    if j < i {
        assert(l[j].0 != l[i].0);
    } else if i < j {
        assert(l[i].0 != l[j].0);
    }
}

/// Recording keeps a report well formed.
pub proof fn lemma_record_name_wf(l: Seq<(PredicateV, Seq<NameV>)>, p: PredicateV, n: NameV)
    requires
        record_wf(l),
    ensures
        record_wf(record_name(l, p, n)),
{
    let r = record_name(l, p, n);
    if exists|i: int| 0 <= i < l.len() && l[i].0 == p {
        let i = choose|i: int| 0 <= i < l.len() && l[i].0 == p;
        if !l[i].1.contains(n) {
            assert forall|a: int, b: int| 0 <= a < b < r.len() implies r[a].0 != r[b].0 by {
                assert(l[a].0 != l[b].0);
            }
            assert forall|k: int| 0 <= k < r.len() implies distinct(#[trigger] r[k].1) by {
                if k == i {
                    let s = r[k].1;
                    assert forall|a: int, b: int| 0 <= a < b < s.len() implies s[a] != s[b] by {
                        if b == s.len() - 1 {
                            assert(s[a] == l[k].1[a]);
                        } else {
                            assert(distinct(l[k].1));
                        }
                    }
                } else {
                    assert(r[k] == l[k]);
                }
            }
        }
    } else {
        assert forall|a: int, b: int| 0 <= a < b < r.len() implies r[a].0 != r[b].0 by {
            if b < l.len() {
                assert(l[a].0 != l[b].0);
            } else {
                assert(r[b].0 == p);
                assert(r[a] == l[a]);
            }
        }
        assert forall|k: int| 0 <= k < r.len() implies distinct(#[trigger] r[k].1) by {
            if k < l.len() {
                assert(r[k] == l[k]);
            }
        }
    }
}

/// Recording name `n` under predicate `p` adds `n` to the set of names of
/// `p`, and changes nothing else that the report records.
pub proof fn lemma_record_name_set(l: Seq<(PredicateV, Seq<NameV>)>, p: PredicateV, n: NameV)
    requires
        record_wf(l),
    ensures
        names_map(record_name(l, p, n)) == names_map(l).insert(p, names_at(l, p).insert(n)),
{
    let r = record_name(l, p, n);
    lemma_record_name_wf(l, p, n);
    let target = names_map(l).insert(p, names_at(l, p).insert(n));
    if exists|i: int| 0 <= i < l.len() && l[i].0 == p {
        let i = choose|i: int| 0 <= i < l.len() && l[i].0 == p;
        assert(r.len() == l.len());
        assert forall|j: int| 0 <= j < l.len() implies #[trigger] r[j].0 == l[j].0 by {}
        assert(names_map(r).dom() =~= target.dom()) by {
            assert forall|k: PredicateV| names_map(r).dom().contains(k) implies target.dom().contains(k) by {
                let j = choose|j: int| 0 <= j < r.len() && r[j].0 == k;
                assert(l[j].0 == k);
            }
            assert forall|k: PredicateV| target.dom().contains(k) implies names_map(r).dom().contains(k) by {
                if k == p {
                    assert(r[i].0 == p);
                } else {
                    let j = choose|j: int| 0 <= j < l.len() && l[j].0 == k;
                    assert(r[j].0 == k);
                }
            }
        }
        assert forall|k: PredicateV| #[trigger] names_map(r).dom().contains(k) implies names_map(r)[k] == target[k] by {
            let j = choose|j: int| 0 <= j < r.len() && r[j].0 == k;
            lemma_names_at_index(r, k, j);
            lemma_names_at_index(l, k, j);
            if k == p {
                lemma_names_at_index(l, p, i);
                if j != i {
                    if j < i { assert(l[j].0 != l[i].0); } else { assert(l[i].0 != l[j].0); }
                }
                if l[i].1.contains(n) {
                    assert(l[i].1.to_set().insert(n) =~= l[i].1.to_set());
                } else {
                    assert(r[i].1 == l[i].1.push(n));
                    let old_names = l[i].1;
                    let new_names = old_names.push(n);
                    assert forall|x: NameV| new_names.contains(x) == old_names.to_set().insert(n).contains(x) by {
                        if new_names.contains(x) {
                            let w = choose|w: int| 0 <= w < new_names.len() && new_names[w] == x;
                            if w < old_names.len() {
                                assert(old_names[w] == x);
                                assert(old_names.contains(x));
                            }
                        }
                        if old_names.contains(x) {
                            let w = choose|w: int| 0 <= w < old_names.len() && old_names[w] == x;
                            assert(new_names[w] == x);
                        }
                        if x == n {
                            assert(new_names[old_names.len() as int] == n);
                        }
                    }
                    assert(new_names.to_set() =~= old_names.to_set().insert(n));
                }
            } else {
                assert(r[j] == l[j]);
            }
        }
        assert(names_map(r) =~= target);
    } else {
        assert(r == l.push((p, seq![n])));
        assert(names_map(r).dom() =~= target.dom()) by {
            assert forall|k: PredicateV| names_map(r).dom().contains(k) implies target.dom().contains(k) by {
                let j = choose|j: int| 0 <= j < r.len() && r[j].0 == k;
                if j < l.len() {
                    assert(l[j].0 == k);
                }
            }
            assert forall|k: PredicateV| target.dom().contains(k) implies names_map(r).dom().contains(k) by {
                if k == p {
                    assert(r[l.len() as int].0 == p);
                } else {
                    let j = choose|j: int| 0 <= j < l.len() && l[j].0 == k;
                    assert(r[j].0 == k);
                }
            }
        }
        assert forall|k: PredicateV| #[trigger] names_map(r).dom().contains(k) implies names_map(r)[k] == target[k] by {
            let j = choose|j: int| 0 <= j < r.len() && r[j].0 == k;
            lemma_names_at_index(r, k, j);
            if k == p {
                assert(j == l.len());
                assert(names_at(l, p) == Set::<NameV>::empty());
                assert(seq![n].to_set() =~= Set::<NameV>::empty().insert(n)) by {
                    assert(seq![n].contains(n) ==> seq![n].to_set().contains(n));
                    assert forall|x: NameV| seq![n].to_set().contains(x) implies x == n by {
                        assert(seq![n].contains(x));
                    }
                    assert(seq![n][0] == n);
                }
            } else {
                assert(j < l.len());
                assert(r[j] == l[j]);
                lemma_names_at_index(l, k, j);
            }
        }
        assert(names_map(r) =~= target);
    }
}

/// The order in which names are recorded does not matter: recording `a`
/// under `p` and then `b` under `q` records the same as recording them the
/// other way round.
pub proof fn lemma_record_order_irrelevant(l: Seq<(PredicateV, Seq<NameV>)>, p: PredicateV, a: NameV, q: PredicateV, b: NameV)
    requires
        record_wf(l),
    ensures
        names_map(record_name(record_name(l, p, a), q, b)) == names_map(record_name(record_name(l, q, b), p, a)),
{
    let la = record_name(l, p, a);
    let lb = record_name(l, q, b);
    lemma_record_name_wf(l, p, a);
    lemma_record_name_wf(l, q, b);
    lemma_record_name_set(l, p, a);
    lemma_record_name_set(l, q, b);
    lemma_record_name_set(la, q, b);
    lemma_record_name_set(lb, p, a);
    let m = names_map(l);
    // names_at agrees with the map wherever the predicate has an entry
    assert forall|x: PredicateV| #[trigger] names_map(la).dom().contains(x) implies names_at(la, x) == names_map(la)[x] by {}
    let na = names_at(la, q);
    let nb = names_at(lb, p);
    assert(names_at(la, q) == (if q == p { names_at(l, p).insert(a) } else { names_at(l, q) })) by {
        if names_map(la).dom().contains(q) {
            assert(names_map(la)[q] == names_at(la, q));
        } else {
            assert(!(exists|i: int| 0 <= i < la.len() && la[i].0 == q));
            assert(q != p);
            assert(!names_map(l).dom().contains(q));
            assert(!(exists|i: int| 0 <= i < l.len() && l[i].0 == q));
        }
    }
    assert(names_at(lb, p) == (if q == p { names_at(l, q).insert(b) } else { names_at(l, p) })) by {
        if names_map(lb).dom().contains(p) {
            assert(names_map(lb)[p] == names_at(lb, p));
        } else {
            assert(!(exists|i: int| 0 <= i < lb.len() && lb[i].0 == p));
            assert(q != p);
            assert(!names_map(l).dom().contains(p));
            assert(!(exists|i: int| 0 <= i < l.len() && l[i].0 == p));
        }
    }
    if p == q {
        assert(names_at(l, p).insert(a).insert(b) =~= names_at(l, p).insert(b).insert(a));
    }
    assert(names_map(record_name(la, q, b)) =~= names_map(record_name(lb, p, a)));
}

pub(crate) fn record_name_exec(l: &mut Vec<(Predicate, Vec<FullName>)>, p: Predicate, n: FullName)
    requires
        record_wf(old(l).deep_view()),
    ensures
        final(l).deep_view() == record_name(old(l).deep_view(), p@, n@),
        record_wf(final(l).deep_view()),
{
    let ghost l0 = l.deep_view();
    match find_key(l, &p) {
        Some(i) => {
            proof {
                lemma_lookup_at(l0, i as int);
                let j = choose|j: int| 0 <= j < l0.len() && l0[j].0 == p@;
                if j != i as int {
                    if j < i { assert(l0[j].0 != l0[i as int].0); } else { assert(l0[i as int].0 != l0[j].0); }
                }
            }
            if !contains_same(&l[i].1, &n) {
                let mut names = l[i].1.duplicate();
                let ghost old_names = names.deep_view();
                names.push(n);
                assert(names.deep_view() =~= old_names.push(n@));
                l.set(i, (p, names));
                assert(l.deep_view() =~= l0.update(i as int, (p@, l0[i as int].1.push(n@))));
                assert forall|a: int, b: int| 0 <= a < b < l.deep_view().len() implies l.deep_view()[a].0 != l.deep_view()[b].0 by {
                    assert(l0[a].0 != l0[b].0);
                }
                assert forall|k: int| 0 <= k < l.deep_view().len() implies distinct(#[trigger] l.deep_view()[k].1) by {
                    if k == i as int {
                        let s = l.deep_view()[k].1;
                        assert forall|a: int, b: int| 0 <= a < b < s.len() implies s[a] != s[b] by {
                            if b == s.len() - 1 {
                                assert(s[a] == l0[k].1[a]);
                            }
                        }
                    } else {
                        assert(l.deep_view()[k] == l0[k]);
                    }
                }
            }
        },
        None => {
            let mut names: Vec<FullName> = Vec::new();
            let ghost nv = n@;
            names.push(n);
            assert(names.deep_view() =~= seq![nv]);
            l.push((p, names));
            assert(l.deep_view() =~= l0.push((p@, seq![nv])));
            assert forall|k: int| 0 <= k < l.deep_view().len() implies distinct(#[trigger] l.deep_view()[k].1) by {
                if k < l0.len() {
                    assert(l.deep_view()[k] == l0[k]);
                }
            }
        },
    }
}

impl ProofFailures {
    /// A report with no failures.
    pub fn new() -> (r: Self)
        ensures
            r@ == no_failures(),
    {
        let r = ProofFailures {
            halting_conditions_failed: Vec::new(),
            unchecked_continuations: Vec::new(),
            unmatched_halting_conditions: Vec::new(),
            incorrect_var_writes: Vec::new(),
            missing_var_writes: Vec::new(),
            unmatched_var_writes: Vec::new(),
            unchecked_var_writes: Vec::new(),
            incorrect_map_writes: Vec::new(),
            missing_map_writes: Vec::new(),
            unmatched_map_writes: Vec::new(),
            unchecked_map_writes: Vec::new(),
            missing_map_deletes: Vec::new(),
            unmatched_map_deletes: Vec::new(),
            unchecked_map_deletes: Vec::new(),
            early_return_mismatch: false,
            panicking_mismatch: false,
            unchecked_reachable_var_writes: Vec::new(),
            unmatched_reachable_var_writes: Vec::new(),
            unchecked_reachable_map_writes: Vec::new(),
            unmatched_reachable_map_writes: Vec::new(),
        };
        assert(r@ =~= no_failures());
        r
    }

    /// Whether the report holds no failure at all.
    pub fn is_empty(&self) -> (r: bool)
        ensures
            r == failures_empty(self@),
    {
        self.halting_conditions_failed.len() == 0
        && self.unchecked_continuations.len() == 0
        && self.unmatched_halting_conditions.len() == 0
        && self.incorrect_var_writes.len() == 0
        && self.missing_var_writes.len() == 0
        && self.unmatched_var_writes.len() == 0
        && self.unchecked_var_writes.len() == 0
        && self.incorrect_map_writes.len() == 0
        && self.missing_map_writes.len() == 0
        && self.unmatched_map_writes.len() == 0
        && self.unchecked_map_writes.len() == 0
        && self.missing_map_deletes.len() == 0
        && self.unmatched_map_deletes.len() == 0
        && self.unchecked_map_deletes.len() == 0
        && !self.early_return_mismatch
        && !self.panicking_mismatch
        && self.unchecked_reachable_var_writes.len() == 0
        && self.unmatched_reachable_var_writes.len() == 0
        && self.unchecked_reachable_map_writes.len() == 0
        && self.unmatched_reachable_map_writes.len() == 0
    }

    pub fn halting_condition_failed(&mut self, cont: Continuation, pred: Predicate)
        ensures
            final(self)@ == (FailuresV {
                halting_conditions_failed: old(self)@.halting_conditions_failed.push((cont@, pred@)),
                ..old(self)@
            }),
    {
        self.halting_conditions_failed.push((cont, pred));
        assert(self@.halting_conditions_failed =~= old(self)@.halting_conditions_failed.push((cont@, pred@)));
    }

    pub fn unchecked_continuation(&mut self, cont: Continuation)
        ensures
            final(self)@ == (FailuresV {
                unchecked_continuations: old(self)@.unchecked_continuations.push(cont@),
                ..old(self)@
            }),
    {
        self.unchecked_continuations.push(cont);
        assert(self@.unchecked_continuations =~= old(self)@.unchecked_continuations.push(cont@));
    }

    pub fn unmatched_halting_condition(&mut self, pred: Predicate)
        ensures
            final(self)@ == (FailuresV {
                unmatched_halting_conditions: old(self)@.unmatched_halting_conditions.push(pred@),
                ..old(self)@
            }),
    {
        self.unmatched_halting_conditions.push(pred);
        assert(self@.unmatched_halting_conditions =~= old(self)@.unmatched_halting_conditions.push(pred@));
    }

    pub fn incorrect_var_write(&mut self, cont: Continuation, var_name: FullName, computed_var_value: SymOp, given_var_value: SymOp)
        ensures
            final(self)@ == (FailuresV {
                incorrect_var_writes: old(self)@.incorrect_var_writes.push((cont@, var_name@, computed_var_value@, given_var_value@)),
                ..old(self)@
            }),
    {
        self.incorrect_var_writes.push((cont, var_name, computed_var_value, given_var_value));
        assert(self@.incorrect_var_writes =~= old(self)@.incorrect_var_writes.push((cont@, var_name@, computed_var_value@, given_var_value@)));
    }

    pub fn missing_var_write(&mut self, cont: Continuation, var_name: FullName)
        ensures
            final(self)@ == (FailuresV {
                missing_var_writes: old(self)@.missing_var_writes.push((cont@, var_name@)),
                ..old(self)@
            }),
    {
        self.missing_var_writes.push((cont, var_name));
        assert(self@.missing_var_writes =~= old(self)@.missing_var_writes.push((cont@, var_name@)));
    }

    pub fn unmatched_var_write(&mut self, var_name: FullName, value: SymOp)
        ensures
            final(self)@ == (FailuresV {
                unmatched_var_writes: old(self)@.unmatched_var_writes.push((var_name@, value@)),
                ..old(self)@
            }),
    {
        self.unmatched_var_writes.push((var_name, value));
        assert(self@.unmatched_var_writes =~= old(self)@.unmatched_var_writes.push((var_name@, value@)));
    }

    pub fn unchecked_var_write(&mut self, cont: Continuation, var_name: FullName, computed_var_value: SymOp)
        ensures
            final(self)@ == (FailuresV {
                unchecked_var_writes: old(self)@.unchecked_var_writes.push((cont@, var_name@, computed_var_value@)),
                ..old(self)@
            }),
    {
        self.unchecked_var_writes.push((cont, var_name, computed_var_value));
        assert(self@.unchecked_var_writes =~= old(self)@.unchecked_var_writes.push((cont@, var_name@, computed_var_value@)));
    }

    pub fn incorrect_map_write(&mut self, cont: Continuation, map_name: FullName, map_key: SymOp, computed_map_value: SymOp, given_map_value: SymOp)
        ensures
            final(self)@ == (FailuresV {
                incorrect_map_writes: old(self)@.incorrect_map_writes.push((cont@, map_name@, map_key@, computed_map_value@, given_map_value@)),
                ..old(self)@
            }),
    {
        self.incorrect_map_writes.push((cont, map_name, map_key, computed_map_value, given_map_value));
        assert(self@.incorrect_map_writes =~= old(self)@.incorrect_map_writes.push((cont@, map_name@, map_key@, computed_map_value@, given_map_value@)));
    }

    pub fn missing_map_write(&mut self, cont: Continuation, map_name: FullName, map_key: SymOp)
        ensures
            final(self)@ == (FailuresV {
                missing_map_writes: old(self)@.missing_map_writes.push((cont@, map_name@, map_key@)),
                ..old(self)@
            }),
    {
        self.missing_map_writes.push((cont, map_name, map_key));
        assert(self@.missing_map_writes =~= old(self)@.missing_map_writes.push((cont@, map_name@, map_key@)));
    }

    pub fn unmatched_map_write(&mut self, map_name: FullName, map_key: SymOp, value: SymOp)
        ensures
            final(self)@ == (FailuresV {
                unmatched_map_writes: old(self)@.unmatched_map_writes.push((map_name@, map_key@, value@)),
                ..old(self)@
            }),
    {
        self.unmatched_map_writes.push((map_name, map_key, value));
        assert(self@.unmatched_map_writes =~= old(self)@.unmatched_map_writes.push((map_name@, map_key@, value@)));
    }

    pub fn unchecked_map_write(&mut self, cont: Continuation, map_name: FullName, map_key: SymOp, computed_map_value: SymOp)
        ensures
            final(self)@ == (FailuresV {
                unchecked_map_writes: old(self)@.unchecked_map_writes.push((cont@, map_name@, map_key@, computed_map_value@)),
                ..old(self)@
            }),
    {
        self.unchecked_map_writes.push((cont, map_name, map_key, computed_map_value));
        assert(self@.unchecked_map_writes =~= old(self)@.unchecked_map_writes.push((cont@, map_name@, map_key@, computed_map_value@)));
    }

    pub fn missing_map_delete(&mut self, cont: Continuation, map_name: FullName, map_key: SymOp)
        ensures
            final(self)@ == (FailuresV {
                missing_map_deletes: old(self)@.missing_map_deletes.push((cont@, map_name@, map_key@)),
                ..old(self)@
            }),
    {
        self.missing_map_deletes.push((cont, map_name, map_key));
        assert(self@.missing_map_deletes =~= old(self)@.missing_map_deletes.push((cont@, map_name@, map_key@)));
    }

    pub fn unmatched_map_delete(&mut self, map_name: FullName, value: SymOp)
        ensures
            final(self)@ == (FailuresV {
                unmatched_map_deletes: old(self)@.unmatched_map_deletes.push((map_name@, value@)),
                ..old(self)@
            }),
    {
        self.unmatched_map_deletes.push((map_name, value));
        assert(self@.unmatched_map_deletes =~= old(self)@.unmatched_map_deletes.push((map_name@, value@)));
    }

    pub fn unchecked_map_delete(&mut self, cont: Continuation, map_name: FullName, computed_map_key: SymOp)
        ensures
            final(self)@ == (FailuresV {
                unchecked_map_deletes: old(self)@.unchecked_map_deletes.push((cont@, map_name@, computed_map_key@)),
                ..old(self)@
            }),
    {
        self.unchecked_map_deletes.push((cont, map_name, computed_map_key));
        assert(self@.unchecked_map_deletes =~= old(self)@.unchecked_map_deletes.push((cont@, map_name@, computed_map_key@)));
    }

    pub fn unchecked_reachable_var_write(&mut self, pred: Predicate, name: FullName)
        requires
            record_wf(old(self)@.unchecked_reachable_var_writes),
        ensures
            final(self)@ == (FailuresV {
                unchecked_reachable_var_writes: record_name(old(self)@.unchecked_reachable_var_writes, pred@, name@),
                ..old(self)@
            }),
            record_wf(final(self)@.unchecked_reachable_var_writes),
            names_map(final(self)@.unchecked_reachable_var_writes) == names_map(old(self)@.unchecked_reachable_var_writes).insert(pred@, names_at(old(self)@.unchecked_reachable_var_writes, pred@).insert(name@)),
    {
        proof {
            lemma_record_name_set(self@.unchecked_reachable_var_writes, pred@, name@);
        }
        record_name_exec(&mut self.unchecked_reachable_var_writes, pred, name);
    }

    pub fn unmatched_reachable_var_write(&mut self, pred: Predicate, name: FullName)
        requires
            record_wf(old(self)@.unmatched_reachable_var_writes),
        ensures
            final(self)@ == (FailuresV {
                unmatched_reachable_var_writes: record_name(old(self)@.unmatched_reachable_var_writes, pred@, name@),
                ..old(self)@
            }),
            record_wf(final(self)@.unmatched_reachable_var_writes),
            names_map(final(self)@.unmatched_reachable_var_writes) == names_map(old(self)@.unmatched_reachable_var_writes).insert(pred@, names_at(old(self)@.unmatched_reachable_var_writes, pred@).insert(name@)),
    {
        proof {
            lemma_record_name_set(self@.unmatched_reachable_var_writes, pred@, name@);
        }
        record_name_exec(&mut self.unmatched_reachable_var_writes, pred, name);
    }

    pub fn unchecked_reachable_map_write(&mut self, pred: Predicate, name: FullName)
        requires
            record_wf(old(self)@.unchecked_reachable_map_writes),
        ensures
            final(self)@ == (FailuresV {
                unchecked_reachable_map_writes: record_name(old(self)@.unchecked_reachable_map_writes, pred@, name@),
                ..old(self)@
            }),
            record_wf(final(self)@.unchecked_reachable_map_writes),
            names_map(final(self)@.unchecked_reachable_map_writes) == names_map(old(self)@.unchecked_reachable_map_writes).insert(pred@, names_at(old(self)@.unchecked_reachable_map_writes, pred@).insert(name@)),
    {
        proof {
            lemma_record_name_set(self@.unchecked_reachable_map_writes, pred@, name@);
        }
        record_name_exec(&mut self.unchecked_reachable_map_writes, pred, name);
    }

    pub fn unmatched_reachable_map_write(&mut self, pred: Predicate, name: FullName)
        requires
            record_wf(old(self)@.unmatched_reachable_map_writes),
        ensures
            final(self)@ == (FailuresV {
                unmatched_reachable_map_writes: record_name(old(self)@.unmatched_reachable_map_writes, pred@, name@),
                ..old(self)@
            }),
            record_wf(final(self)@.unmatched_reachable_map_writes),
            names_map(final(self)@.unmatched_reachable_map_writes) == names_map(old(self)@.unmatched_reachable_map_writes).insert(pred@, names_at(old(self)@.unmatched_reachable_map_writes, pred@).insert(name@)),
    {
        proof {
            lemma_record_name_set(self@.unmatched_reachable_map_writes, pred@, name@);
        }
        record_name_exec(&mut self.unmatched_reachable_map_writes, pred, name);
    }
}

} // verus!
