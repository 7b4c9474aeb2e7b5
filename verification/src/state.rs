//! Terminating states: the continuations the engine computes for a function,
//! and the halting states a specification describes.
//!
//! The state a path leaves behind is held in association lists: data
//! variables written (name to value), map entries written (map name to
//! key-value pairs), map entries deleted (map name to keys), and the sets of
//! variables and maps the path may reach. Keys in each list are distinct.

use vstd::prelude::*;
use crate::symop::{Same, Duplicate, FullName, SymOp, Term, Predicate, PredicateV};

verus! {

pub type NameV = (Seq<char>, Seq<char>);

/// The value bound to `k` in an association list, if any.
pub open spec fn lookup<K, V>(l: Seq<(K, V)>, k: K) -> Option<V> {
    if exists|i: int| 0 <= i < l.len() && l[i].0 == k {
        Some(l[choose|i: int| 0 <= i < l.len() && l[i].0 == k].1)
    } else {
        None
    }
}

pub open spec fn distinct_keys<K, V>(l: Seq<(K, V)>) -> bool {
    forall|i: int, j: int| 0 <= i < j < l.len() ==> l[i].0 != l[j].0
}

pub open spec fn distinct<T>(l: Seq<T>) -> bool {
    forall|i: int, j: int| 0 <= i < j < l.len() ==> l[i] != l[j]
}

pub proof fn lemma_lookup_at<K, V>(l: Seq<(K, V)>, i: int)
    requires
        distinct_keys(l),
        0 <= i < l.len(),
    ensures
        lookup(l, l[i].0) == Some(l[i].1),
{
    let k = l[i].0;
    let j = choose|j: int| 0 <= j < l.len() && l[j].0 == k;
    if j != i {
        if j < i {
            assert(l[j].0 != l[i].0);
        } else {
            assert(l[i].0 != l[j].0);
        }
    }
}

/// The position of the entry with key `k`.
pub fn find_key<K: Same, V: DeepView>(l: &Vec<(K, V)>, k: &K) -> (r: Option<usize>)
    ensures
        match r {
            Some(i) => i < l@.len() && l.deep_view()[i as int].0 == k.deep_view(),
            None => forall|j: int| 0 <= j < l@.len() ==> l.deep_view()[j].0 != k.deep_view(),
        },
{
    let mut i: usize = 0;
    while i < l.len()
        invariant
            0 <= i <= l@.len(),
            forall|j: int| 0 <= j < i ==> l.deep_view()[j].0 != k.deep_view(),
        decreases l@.len() - i,
    {
        if l[i].0.same(k) {
            return Some(i);
        }
        i = i + 1;
    }
    None
}

/// Whether the model of `x` is among the models of `l`.
pub fn contains_same<T: Same>(l: &Vec<T>, x: &T) -> (r: bool)
    ensures
        r == l.deep_view().contains(x.deep_view()),
{
    let mut i: usize = 0;
    while i < l.len()
        invariant
            0 <= i <= l@.len(),
            forall|j: int| 0 <= j < i ==> l.deep_view()[j] != x.deep_view(),
        decreases l@.len() - i,
    {
        if l[i].same(x) {
            assert(l.deep_view()[i as int] == x.deep_view());
            return true;
        }
        i = i + 1;
    }
    false
}

/// A terminating state of a function, as the engine computes it.
#[derive(Debug, PartialEq)]
pub struct Continuation {
    pub id: u64,
    pub function_path: String,
    pub final_formula: SymOp,
    pub predicate: Predicate,
    pub var_state: Vec<(FullName, SymOp)>,
    pub map_state: Vec<(FullName, Vec<(SymOp, SymOp)>)>,
    pub map_tombstones: Vec<(FullName, Vec<SymOp>)>,
    pub reachable_var_reads: Vec<FullName>,
    pub reachable_var_writes: Vec<FullName>,
    pub reachable_map_reads: Vec<FullName>,
    pub reachable_map_writes: Vec<FullName>,
    pub early_return: bool,
    pub panicking: bool,
}

pub struct ContinuationV {
    pub id: u64,
    pub function_path: Seq<char>,
    pub final_formula: Term,
    pub predicate: PredicateV,
    pub var_state: Seq<(NameV, Term)>,
    pub map_state: Seq<(NameV, Seq<(Term, Term)>)>,
    pub map_tombstones: Seq<(NameV, Seq<Term>)>,
    pub reachable_var_reads: Seq<NameV>,
    pub reachable_var_writes: Seq<NameV>,
    pub reachable_map_reads: Seq<NameV>,
    pub reachable_map_writes: Seq<NameV>,
    pub early_return: bool,
    pub panicking: bool,
}

impl View for Continuation {
    type V = ContinuationV;

    open spec fn view(&self) -> ContinuationV {
        ContinuationV {
            id: self.id,
            function_path: self.function_path@,
            final_formula: self.final_formula@,
            predicate: self.predicate@,
            var_state: self.var_state.deep_view(),
            map_state: self.map_state.deep_view(),
            map_tombstones: self.map_tombstones.deep_view(),
            reachable_var_reads: self.reachable_var_reads.deep_view(),
            reachable_var_writes: self.reachable_var_writes.deep_view(),
            reachable_map_reads: self.reachable_map_reads.deep_view(),
            reachable_map_writes: self.reachable_map_writes.deep_view(),
            early_return: self.early_return,
            panicking: self.panicking,
        }
    }
}

impl DeepView for Continuation {
    type V = ContinuationV;

    open spec fn deep_view(&self) -> ContinuationV {
        self@
    }
}

impl Duplicate for Continuation {
    fn duplicate(&self) -> (r: Continuation) {
        Continuation {
            id: self.id,
            function_path: self.function_path.clone(),
            final_formula: self.final_formula.duplicate(),
            predicate: self.predicate.duplicate(),
            var_state: self.var_state.duplicate(),
            map_state: self.map_state.duplicate(),
            map_tombstones: self.map_tombstones.duplicate(),
            reachable_var_reads: self.reachable_var_reads.duplicate(),
            reachable_var_writes: self.reachable_var_writes.duplicate(),
            reachable_map_reads: self.reachable_map_reads.duplicate(),
            reachable_map_writes: self.reachable_map_writes.duplicate(),
            early_return: self.early_return,
            panicking: self.panicking,
        }
    }
}

/// Keys are distinct in every association list of the state, and names are
/// distinct in every reachability set.
pub open spec fn state_wf(
    vars: Seq<(NameV, Term)>,
    maps: Seq<(NameV, Seq<(Term, Term)>)>,
    tombs: Seq<(NameV, Seq<Term>)>,
) -> bool {
    &&& distinct_keys(vars)
    &&& distinct_keys(maps)
    &&& forall|i: int| 0 <= i < maps.len() ==> distinct_keys(#[trigger] maps[i].1)
    &&& distinct_keys(tombs)
    &&& forall|i: int| 0 <= i < tombs.len() ==> distinct(#[trigger] tombs[i].1)
}

impl ContinuationV {
    pub open spec fn wf(self) -> bool {
        &&& state_wf(self.var_state, self.map_state, self.map_tombstones)
        &&& distinct(self.reachable_var_writes)
        &&& distinct(self.reachable_map_writes)
    }
}

/// A halting state described by a specification: the result, the condition
/// under which it is reached, and what it must leave behind.
#[derive(Debug, PartialEq)]
pub struct Halt {
    pub formula: SymOp,
    pub predicate: Predicate,
    pub condition: Option<Predicate>,
    pub vars: Vec<(FullName, SymOp)>,
    pub map_state: Vec<(FullName, Vec<(SymOp, SymOp)>)>,
    pub map_tombstones: Vec<(FullName, Vec<SymOp>)>,
    pub reachable_var_reads: Vec<FullName>,
    pub reachable_var_writes: Vec<FullName>,
    pub reachable_map_reads: Vec<FullName>,
    pub reachable_map_writes: Vec<FullName>,
    pub early_return: bool,
    pub panicking: bool,
    pub analyze_write_reachability: bool,
}

pub struct HaltV {
    pub formula: Term,
    pub predicate: PredicateV,
    pub condition: Option<PredicateV>,
    pub vars: Seq<(NameV, Term)>,
    pub map_state: Seq<(NameV, Seq<(Term, Term)>)>,
    pub map_tombstones: Seq<(NameV, Seq<Term>)>,
    pub reachable_var_reads: Seq<NameV>,
    pub reachable_var_writes: Seq<NameV>,
    pub reachable_map_reads: Seq<NameV>,
    pub reachable_map_writes: Seq<NameV>,
    pub early_return: bool,
    pub panicking: bool,
    pub analyze_write_reachability: bool,
}

impl View for Halt {
    type V = HaltV;

    open spec fn view(&self) -> HaltV {
        HaltV {
            formula: self.formula@,
            predicate: self.predicate@,
            condition: match self.condition {
                Some(c) => Some(c@),
                None => None,
            },
            vars: self.vars.deep_view(),
            map_state: self.map_state.deep_view(),
            map_tombstones: self.map_tombstones.deep_view(),
            reachable_var_reads: self.reachable_var_reads.deep_view(),
            reachable_var_writes: self.reachable_var_writes.deep_view(),
            reachable_map_reads: self.reachable_map_reads.deep_view(),
            reachable_map_writes: self.reachable_map_writes.deep_view(),
            early_return: self.early_return,
            panicking: self.panicking,
            analyze_write_reachability: self.analyze_write_reachability,
        }
    }
}

impl DeepView for Halt {
    type V = HaltV;

    open spec fn deep_view(&self) -> HaltV {
        self@
    }
}

impl HaltV {
    pub open spec fn wf(self) -> bool {
        &&& state_wf(self.vars, self.map_state, self.map_tombstones)
        &&& distinct(self.reachable_var_writes)
        &&& distinct(self.reachable_map_writes)
    }
}

impl Halt {
    /// The halting state of an `invariant` command: the given result and
    /// predicate, and nothing required of the state left behind.
    pub fn from_invariant(formula: SymOp, predicate: Predicate) -> (h: Halt)
        ensures
            h@ == (HaltV {
                formula: formula@,
                predicate: predicate@,
                condition: None,
                vars: Seq::empty(),
                map_state: Seq::empty(),
                map_tombstones: Seq::empty(),
                reachable_var_reads: Seq::empty(),
                reachable_var_writes: Seq::empty(),
                reachable_map_reads: Seq::empty(),
                reachable_map_writes: Seq::empty(),
                early_return: false,
                panicking: false,
                analyze_write_reachability: false,
            }),
    {
        let h = Halt {
            formula,
            predicate,
            condition: None,
            vars: Vec::new(),
            map_state: Vec::new(),
            map_tombstones: Vec::new(),
            reachable_var_reads: Vec::new(),
            reachable_var_writes: Vec::new(),
            reachable_map_reads: Vec::new(),
            reachable_map_writes: Vec::new(),
            early_return: false,
            panicking: false,
            analyze_write_reachability: false,
        };
        assert(h@.vars =~= Seq::<(NameV, Term)>::empty());
        assert(h@.map_state =~= Seq::<(NameV, Seq<(Term, Term)>)>::empty());
        assert(h@.map_tombstones =~= Seq::<(NameV, Seq<Term>)>::empty());
        assert(h@.reachable_var_reads =~= Seq::<NameV>::empty());
        assert(h@.reachable_var_writes =~= Seq::<NameV>::empty());
        assert(h@.reachable_map_reads =~= Seq::<NameV>::empty());
        assert(h@.reachable_map_writes =~= Seq::<NameV>::empty());
        h
    }
}

} // verus!
