//! Checking computed terminating states against the halting states a
//! specification gives.
//!
//! Each halting state, in order, claims the first remaining continuation it
//! reaches; the claimed continuation's writes are compared with the ones the
//! halting state lists. Halting states that reach nothing, and continuations
//! that no halting state claims, are reported too.
//!
//! A halting state reaches a continuation when their simplified formulas are
//! equal and either the continuation's path predicate implies the halting
//! condition or, where there is none, the simplified predicates are equal.
//! The simplified values are inputs here (`Simplified`), and the decision is
//! made from them.

use vstd::prelude::*;
use crate::symop::{Same, Duplicate, FullName, SymOp, Term, Predicate, PredicateV};
use crate::state::{NameV, Continuation, ContinuationV, Halt, HaltV, lookup, distinct, distinct_keys, find_key, contains_same, lemma_lookup_at};
use crate::failures::{ProofFailures, FailuresV, no_failures, failures_empty, record_name, record_wf, record_name_exec};

verus! {

broadcast use vstd::std_specs::vec::group_vec_axioms;

/// One report row per data variable a continuation writes.
pub open spec fn var_rows(c: ContinuationV, vars: Seq<(NameV, Term)>) -> Seq<(ContinuationV, NameV, Term)> {
    vars.map_values(|e: (NameV, Term)| (c, e.0, e.1))
}

/// One report row per entry written to map `n`.
pub open spec fn entry_rows(c: ContinuationV, n: NameV, entries: Seq<(Term, Term)>) -> Seq<(ContinuationV, NameV, Term, Term)> {
    entries.map_values(|e: (Term, Term)| (c, n, e.0, e.1))
}

/// One report row per entry written to any map, map by map.
pub open spec fn map_rows(c: ContinuationV, maps: Seq<(NameV, Seq<(Term, Term)>)>) -> Seq<(ContinuationV, NameV, Term, Term)>
    decreases maps.len(),
{
    if maps.len() == 0 {
        Seq::empty()
    } else {
        map_rows(c, maps.drop_last()) + entry_rows(c, maps.last().0, maps.last().1)
    }
}

/// One report row per key deleted from map `n`.
pub open spec fn key_rows(c: ContinuationV, n: NameV, keys: Seq<Term>) -> Seq<(ContinuationV, NameV, Term)> {
    keys.map_values(|k: Term| (c, n, k))
}

/// One report row per key deleted from any map, map by map.
pub open spec fn tomb_rows(c: ContinuationV, tombs: Seq<(NameV, Seq<Term>)>) -> Seq<(ContinuationV, NameV, Term)>
    decreases tombs.len(),
{
    if tombs.len() == 0 {
        Seq::empty()
    } else {
        tomb_rows(c, tombs.drop_last()) + key_rows(c, tombs.last().0, tombs.last().1)
    }
}

/// The report after a continuation that no halting state accounts for: the
/// continuation is unchecked, and so is every write it makes.
pub open spec fn unaccounted(f: FailuresV, c: ContinuationV) -> FailuresV {
    FailuresV {
        unchecked_continuations: f.unchecked_continuations.push(c),
        unchecked_var_writes: f.unchecked_var_writes + var_rows(c, c.var_state),
        unchecked_map_writes: f.unchecked_map_writes + map_rows(c, c.map_state),
        unchecked_map_deletes: f.unchecked_map_deletes + tomb_rows(c, c.map_tombstones),
        ..f
    }
}

proof fn lemma_seq_take_step<A>(s: Seq<A>, i: int)
    requires
        0 <= i < s.len(),
    ensures
        s.take(i + 1).drop_last() == s.take(i),
        s.take(i + 1).last() == s[i],
{
    assert(s.take(i + 1).drop_last() =~= s.take(i));
}

proof fn lemma_seq_take_all<A>(s: Seq<A>)
    ensures
        s.take(s.len() as int) == s,
{
    assert(s.take(s.len() as int) =~= s);
}

impl ProofFailures {
    /// Reports a continuation that no halting state accounts for, together
    /// with every variable write, map write and map delete it makes.
    pub fn unaccounted_continuation(&mut self, cont: Continuation)
        ensures
            final(self)@ == unaccounted(old(self)@, cont@),
    {
        let ghost c = cont@;
        self.unchecked_continuation(cont.duplicate());
        let ghost f1 = self@;

        let mut i: usize = 0;
        while i < cont.var_state.len()
            invariant
                c == cont@,
                0 <= i <= cont.var_state@.len(),
                self@ == (FailuresV {
                    unchecked_var_writes: f1.unchecked_var_writes + var_rows(c, c.var_state.take(i as int)),
                    ..f1
                }),
            decreases cont.var_state@.len() - i,
        {
            let name = cont.var_state[i].0.duplicate();
            let value = cont.var_state[i].1.duplicate();
            self.unchecked_var_write(cont.duplicate(), name, value);
            proof {
                lemma_seq_take_step(c.var_state, i as int);
                assert(var_rows(c, c.var_state.take(i + 1)) =~= var_rows(c, c.var_state.take(i as int)).push(
                    (c, c.var_state[i as int].0, c.var_state[i as int].1)));
            }
            i = i + 1;
        }
        proof {
            lemma_seq_take_all(c.var_state);
        }
        let ghost f2 = self@;

        let mut i: usize = 0;
        while i < cont.map_state.len()
            invariant
                c == cont@,
                0 <= i <= cont.map_state@.len(),
                self@ == (FailuresV {
                    unchecked_map_writes: f2.unchecked_map_writes + map_rows(c, c.map_state.take(i as int)),
                    ..f2
                }),
            decreases cont.map_state@.len() - i,
        {
            let ghost n = c.map_state[i as int].0;
            let ghost entries = c.map_state[i as int].1;
            let ghost before = self@.unchecked_map_writes;
            let mut j: usize = 0;
            while j < cont.map_state[i].1.len()
                invariant
                    c == cont@,
                    0 <= i < cont.map_state@.len(),
                    n == c.map_state[i as int].0,
                    entries == c.map_state[i as int].1,
                    0 <= j <= entries.len(),
                    self@ == (FailuresV {
                        unchecked_map_writes: before + entry_rows(c, n, entries.take(j as int)),
                        ..f2
                    }),
                decreases entries.len() - j,
            {
                let name = cont.map_state[i].0.duplicate();
                let key = cont.map_state[i].1[j].0.duplicate();
                let value = cont.map_state[i].1[j].1.duplicate();
                self.unchecked_map_write(cont.duplicate(), name, key, value);
                proof {
                    lemma_seq_take_step(entries, j as int);
                    assert(entry_rows(c, n, entries.take(j + 1)) =~= entry_rows(c, n, entries.take(j as int)).push(
                        (c, n, entries[j as int].0, entries[j as int].1)));
                    assert(before + entry_rows(c, n, entries.take(j + 1)) =~= (before + entry_rows(c, n, entries.take(j as int))).push(
                        (c, n, entries[j as int].0, entries[j as int].1)));
                }
                j = j + 1;
            }
            proof {
                lemma_seq_take_all(entries);
                lemma_seq_take_step(c.map_state, i as int);
                assert(map_rows(c, c.map_state.take(i + 1)) == map_rows(c, c.map_state.take(i as int)) + entry_rows(c, n, entries));
                assert(f2.unchecked_map_writes + map_rows(c, c.map_state.take(i + 1)) =~= before + entry_rows(c, n, entries));
            }
            i = i + 1;
        }
        proof {
            lemma_seq_take_all(c.map_state);
        }
        let ghost f3 = self@;

        let mut i: usize = 0;
        while i < cont.map_tombstones.len()
            invariant
                c == cont@,
                0 <= i <= cont.map_tombstones@.len(),
                self@ == (FailuresV {
                    unchecked_map_deletes: f3.unchecked_map_deletes + tomb_rows(c, c.map_tombstones.take(i as int)),
                    ..f3
                }),
            decreases cont.map_tombstones@.len() - i,
        {
            let ghost n = c.map_tombstones[i as int].0;
            let ghost keys = c.map_tombstones[i as int].1;
            let ghost before = self@.unchecked_map_deletes;
            let mut j: usize = 0;
            while j < cont.map_tombstones[i].1.len()
                invariant
                    c == cont@,
                    0 <= i < cont.map_tombstones@.len(),
                    n == c.map_tombstones[i as int].0,
                    keys == c.map_tombstones[i as int].1,
                    0 <= j <= keys.len(),
                    self@ == (FailuresV {
                        unchecked_map_deletes: before + key_rows(c, n, keys.take(j as int)),
                        ..f3
                    }),
                decreases keys.len() - j,
            {
                let name = cont.map_tombstones[i].0.duplicate();
                let key = cont.map_tombstones[i].1[j].duplicate();
                self.unchecked_map_delete(cont.duplicate(), name, key);
                proof {
                    lemma_seq_take_step(keys, j as int);
                    assert(key_rows(c, n, keys.take(j + 1)) =~= key_rows(c, n, keys.take(j as int)).push((c, n, keys[j as int])));
                    assert(before + key_rows(c, n, keys.take(j + 1)) =~= (before + key_rows(c, n, keys.take(j as int))).push(
                        (c, n, keys[j as int])));
                }
                j = j + 1;
            }
            proof {
                lemma_seq_take_all(keys);
                lemma_seq_take_step(c.map_tombstones, i as int);
                assert(tomb_rows(c, c.map_tombstones.take(i + 1)) == tomb_rows(c, c.map_tombstones.take(i as int)) + key_rows(c, n, keys));
                assert(f3.unchecked_map_deletes + tomb_rows(c, c.map_tombstones.take(i + 1)) =~= before + key_rows(c, n, keys));
            }
            i = i + 1;
        }
        proof {
            lemma_seq_take_all(c.map_tombstones);
        }
    }
}


/// The report after comparing the variable writes `hvars` a halting state
/// lists with those of continuation `c`: a listed variable that `c` does
/// not write is missing, and one it writes with another value is incorrect.
pub open spec fn check_vars(f: FailuresV, c: ContinuationV, hvars: Seq<(NameV, Term)>) -> FailuresV
    decreases hvars.len(),
{
    if hvars.len() == 0 {
        f
    } else {
        let f0 = check_vars(f, c, hvars.drop_last());
        let hn = hvars.last().0;
        let hv = hvars.last().1;
        match lookup(c.var_state, hn) {
            None => FailuresV { missing_var_writes: f0.missing_var_writes.push((c, hn)), ..f0 },
            Some(v) => if v != hv {
                FailuresV { incorrect_var_writes: f0.incorrect_var_writes.push((c, hn, v, hv)), ..f0 }
            } else {
                f0
            },
        }
    }
}

/// The report after the variable writes among `vars` (those of `c`) that
/// `hvars` does not list are reported as unchecked.
pub open spec fn unchecked_vars(f: FailuresV, c: ContinuationV, vars: Seq<(NameV, Term)>, hvars: Seq<(NameV, Term)>) -> FailuresV
    decreases vars.len(),
{
    if vars.len() == 0 {
        f
    } else {
        let f0 = unchecked_vars(f, c, vars.drop_last(), hvars);
        let e = vars.last();
        if lookup(hvars, e.0) is None {
            FailuresV { unchecked_var_writes: f0.unchecked_var_writes.push((c, e.0, e.1)), ..f0 }
        } else {
            f0
        }
    }
}

/// The entries `c` writes to map `n`; none if it writes no entry of `n`.
pub open spec fn entries_of(maps: Seq<(NameV, Seq<(Term, Term)>)>, n: NameV) -> Seq<(Term, Term)> {
    match lookup(maps, n) {
        Some(entries) => entries,
        None => Seq::empty(),
    }
}

/// The report after comparing the entries `hentries` a halting state lists
/// for map `n` with the entries `state` that `c` writes to it: a listed key
/// not written is missing, and one written with another value is incorrect.
pub open spec fn check_entries(f: FailuresV, c: ContinuationV, n: NameV, state: Seq<(Term, Term)>, hentries: Seq<(Term, Term)>) -> FailuresV
    decreases hentries.len(),
{
    if hentries.len() == 0 {
        f
    } else {
        let f0 = check_entries(f, c, n, state, hentries.drop_last());
        let hk = hentries.last().0;
        let hv = hentries.last().1;
        match lookup(state, hk) {
            None => FailuresV { missing_map_writes: f0.missing_map_writes.push((c, n, hk)), ..f0 },
            Some(v) => if v != hv {
                FailuresV { incorrect_map_writes: f0.incorrect_map_writes.push((c, n, hk, v, hv)), ..f0 }
            } else {
                f0
            },
        }
    }
}

/// The report after the entries among `state` whose key `hentries` does not
/// list are reported as unchecked writes to map `n`.
pub open spec fn unchecked_entries(f: FailuresV, c: ContinuationV, n: NameV, state: Seq<(Term, Term)>, hentries: Seq<(Term, Term)>) -> FailuresV
    decreases state.len(),
{
    if state.len() == 0 {
        f
    } else {
        let f0 = unchecked_entries(f, c, n, state.drop_last(), hentries);
        let e = state.last();
        if lookup(hentries, e.0) is None {
            FailuresV { unchecked_map_writes: f0.unchecked_map_writes.push((c, n, e.0, e.1)), ..f0 }
        } else {
            f0
        }
    }
}

/// The report after comparing what a halting state lists for map `n` with
/// what `c` writes to it.
pub open spec fn check_map(f: FailuresV, c: ContinuationV, n: NameV, hentries: Seq<(Term, Term)>) -> FailuresV {
    let state = entries_of(c.map_state, n);
    unchecked_entries(check_entries(f, c, n, state, hentries), c, n, state, hentries)
}

pub open spec fn check_maps(f: FailuresV, c: ContinuationV, hmaps: Seq<(NameV, Seq<(Term, Term)>)>) -> FailuresV
    decreases hmaps.len(),
{
    if hmaps.len() == 0 {
        f
    } else {
        check_map(check_maps(f, c, hmaps.drop_last()), c, hmaps.last().0, hmaps.last().1)
    }
}

/// The report after the entries of each map among `maps` (those `c`
/// writes) that `hmaps` does not mention are reported as unchecked writes:
/// a halting state gives the whole state a path leaves behind.
pub open spec fn unchecked_maps(f: FailuresV, c: ContinuationV, maps: Seq<(NameV, Seq<(Term, Term)>)>, hmaps: Seq<(NameV, Seq<(Term, Term)>)>) -> FailuresV
    decreases maps.len(),
{
    if maps.len() == 0 {
        f
    } else {
        let f0 = unchecked_maps(f, c, maps.drop_last(), hmaps);
        let m = maps.last();
        if lookup(hmaps, m.0) is None {
            FailuresV { unchecked_map_writes: f0.unchecked_map_writes + entry_rows(c, m.0, m.1), ..f0 }
        } else {
            f0
        }
    }
}

/// Each key in `hkeys` that is not among the deleted `keys` is a missing
/// delete from map `n`.
pub open spec fn missing_deletes(f: FailuresV, c: ContinuationV, n: NameV, keys: Seq<Term>, hkeys: Seq<Term>) -> FailuresV
    decreases hkeys.len(),
{
    if hkeys.len() == 0 {
        f
    } else {
        let f0 = missing_deletes(f, c, n, keys, hkeys.drop_last());
        if keys.contains(hkeys.last()) {
            f0
        } else {
            FailuresV { missing_map_deletes: f0.missing_map_deletes.push((c, n, hkeys.last())), ..f0 }
        }
    }
}

/// Each deleted key in `keys` that `hkeys` does not list is an unchecked
/// delete from map `n`.
pub open spec fn unlisted_deletes(f: FailuresV, c: ContinuationV, n: NameV, keys: Seq<Term>, hkeys: Seq<Term>) -> FailuresV
    decreases keys.len(),
{
    if keys.len() == 0 {
        f
    } else {
        let f0 = unlisted_deletes(f, c, n, keys.drop_last(), hkeys);
        if hkeys.contains(keys.last()) {
            f0
        } else {
            FailuresV { unchecked_map_deletes: f0.unchecked_map_deletes.push((c, n, keys.last())), ..f0 }
        }
    }
}

/// The report after comparing the deletes a halting state lists for map `n`
/// with those `c` makes: a listed key `c` does not delete is missing, and a
/// key `c` deletes that is not listed is unchecked.
pub open spec fn check_tomb(f: FailuresV, c: ContinuationV, n: NameV, hkeys: Seq<Term>) -> FailuresV {
    let keys = keys_of(c.map_tombstones, n);
    unlisted_deletes(missing_deletes(f, c, n, keys, hkeys), c, n, keys, hkeys)
}

pub open spec fn check_tombs(f: FailuresV, c: ContinuationV, htombs: Seq<(NameV, Seq<Term>)>) -> FailuresV
    decreases htombs.len(),
{
    if htombs.len() == 0 {
        f
    } else {
        check_tomb(check_tombs(f, c, htombs.drop_last()), c, htombs.last().0, htombs.last().1)
    }
}

/// The report after the deletes among `tombs` (those of `c`) from maps that
/// `htombs` does not mention are reported as unchecked.
pub open spec fn unchecked_deletes(f: FailuresV, c: ContinuationV, tombs: Seq<(NameV, Seq<Term>)>, htombs: Seq<(NameV, Seq<Term>)>) -> FailuresV
    decreases tombs.len(),
{
    if tombs.len() == 0 {
        f
    } else {
        let f0 = unchecked_deletes(f, c, tombs.drop_last(), htombs);
        let t = tombs.last();
        if lookup(htombs, t.0) is None {
            FailuresV { unchecked_map_deletes: f0.unchecked_map_deletes + key_rows(c, t.0, t.1), ..f0 }
        } else {
            f0
        }
    }
}

/// Records, under predicate `p`, each of `names` that `excluded` lacks.
pub open spec fn record_all(l: Seq<(PredicateV, Seq<NameV>)>, p: PredicateV, names: Seq<NameV>, excluded: Seq<NameV>) -> Seq<(PredicateV, Seq<NameV>)>
    decreases names.len(),
{
    if names.len() == 0 {
        l
    } else {
        let l0 = record_all(l, p, names.drop_last(), excluded);
        if excluded.contains(names.last()) {
            l0
        } else {
            record_name(l0, p, names.last())
        }
    }
}

/// When the halting state asks for it, the variables and maps a path may
/// write are compared with those the halting state lists, both ways.
pub open spec fn check_reach(f: FailuresV, c: ContinuationV, h: HaltV) -> FailuresV {
    if h.analyze_write_reachability {
        FailuresV {
            unchecked_reachable_var_writes: record_all(f.unchecked_reachable_var_writes, c.predicate, c.reachable_var_writes, h.reachable_var_writes),
            unmatched_reachable_var_writes: record_all(f.unmatched_reachable_var_writes, c.predicate, h.reachable_var_writes, c.reachable_var_writes),
            unchecked_reachable_map_writes: record_all(f.unchecked_reachable_map_writes, c.predicate, c.reachable_map_writes, h.reachable_map_writes),
            unmatched_reachable_map_writes: record_all(f.unmatched_reachable_map_writes, c.predicate, h.reachable_map_writes, c.reachable_map_writes),
            ..f
        }
    } else {
        f
    }
}

/// The report after continuation `c` is matched with halting state `h`.
pub open spec fn record_match(f: FailuresV, c: ContinuationV, h: HaltV) -> FailuresV {
    let f1 = FailuresV {
        early_return_mismatch: f.early_return_mismatch || c.early_return != h.early_return,
        panicking_mismatch: f.panicking_mismatch || c.panicking != h.panicking,
        ..f
    };
    let f2 = unchecked_vars(check_vars(f1, c, h.vars), c, c.var_state, h.vars);
    let f3 = unchecked_maps(check_maps(f2, c, h.map_state), c, c.map_state, h.map_state);
    let f4 = unchecked_deletes(check_tombs(f3, c, h.map_tombstones), c, c.map_tombstones, h.map_tombstones);
    check_reach(f4, c, h)
}

/// The four reachability reports are well formed.
pub open spec fn reports_wf(f: FailuresV) -> bool {
    &&& record_wf(f.unchecked_reachable_var_writes)
    &&& record_wf(f.unmatched_reachable_var_writes)
    &&& record_wf(f.unchecked_reachable_map_writes)
    &&& record_wf(f.unmatched_reachable_map_writes)
}


/// The four reachability reports of `f` and `g` are the same.
pub open spec fn same_reports(f: FailuresV, g: FailuresV) -> bool {
    &&& f.unchecked_reachable_var_writes == g.unchecked_reachable_var_writes
    &&& f.unmatched_reachable_var_writes == g.unmatched_reachable_var_writes
    &&& f.unchecked_reachable_map_writes == g.unchecked_reachable_map_writes
    &&& f.unmatched_reachable_map_writes == g.unmatched_reachable_map_writes
}

proof fn lemma_lookup_absent<K, V>(l: Seq<(K, V)>, k: K)
    requires
        forall|j: int| 0 <= j < l.len() ==> l[j].0 != k,
    ensures
        lookup(l, k) is None,
{
}

fn record_all_exec(l: &mut Vec<(Predicate, Vec<FullName>)>, p: &Predicate, names: &Vec<FullName>, excluded: &Vec<FullName>)
    requires
        record_wf(old(l).deep_view()),
    ensures
        final(l).deep_view() == record_all(old(l).deep_view(), p@, names.deep_view(), excluded.deep_view()),
        record_wf(final(l).deep_view()),
{
    let ghost l0 = l.deep_view();
    let ghost ns = names.deep_view();
    let mut i: usize = 0;
    while i < names.len()
        invariant
            ns == names.deep_view(),
            0 <= i <= names@.len(),
            l.deep_view() == record_all(l0, p@, ns.take(i as int), excluded.deep_view()),
            record_wf(l.deep_view()),
        decreases names@.len() - i,
    {
        proof {
            lemma_seq_take_step(ns, i as int);
        }
        if !contains_same(excluded, &names[i]) {
            record_name_exec(l, p.duplicate(), names[i].duplicate());
        }
        i = i + 1;
    }
    proof {
        lemma_seq_take_all(ns);
    }
}

impl ProofFailures {
    fn check_vars_exec(&mut self, cont: &Continuation, hvars: &Vec<(FullName, SymOp)>)
        requires
            cont@.wf(),
        ensures
            final(self)@ == check_vars(old(self)@, cont@, hvars.deep_view()),
            same_reports(final(self)@, old(self)@),
    {
        let ghost f0 = self@;
        let ghost hv = hvars.deep_view();
        let mut j: usize = 0;
        while j < hvars.len()
            invariant
                same_reports(self@, f0),
                cont@.wf(),
                hv == hvars.deep_view(),
                0 <= j <= hvars@.len(),
                self@ == check_vars(f0, cont@, hv.take(j as int)),
            decreases hvars@.len() - j,
        {
            proof {
                lemma_seq_take_step(hv, j as int);
            }
            match find_key(&cont.var_state, &hvars[j].0) {
                None => {
                    proof {
                        lemma_lookup_absent(cont@.var_state, hv[j as int].0);
                    }
                    self.missing_var_write(cont.duplicate(), hvars[j].0.duplicate());
                },
                Some(k) => {
                    proof {
                        lemma_lookup_at(cont@.var_state, k as int);
                    }
                    if !cont.var_state[k].1.same(&hvars[j].1) {
                        self.incorrect_var_write(
                            cont.duplicate(),
                            hvars[j].0.duplicate(),
                            cont.var_state[k].1.duplicate(),
                            hvars[j].1.duplicate(),
                        );
                    }
                },
            }
            j = j + 1;
        }
        proof {
            lemma_seq_take_all(hv);
        }
    }

    fn unchecked_vars_exec(&mut self, cont: &Continuation, hvars: &Vec<(FullName, SymOp)>)
        ensures
            final(self)@ == unchecked_vars(old(self)@, cont@, cont@.var_state, hvars.deep_view()),
            same_reports(final(self)@, old(self)@),
    {
        let ghost f0 = self@;
        let ghost vs = cont@.var_state;
        let mut j: usize = 0;
        while j < cont.var_state.len()
            invariant
                same_reports(self@, f0),
                vs == cont@.var_state,
                0 <= j <= vs.len(),
                self@ == unchecked_vars(f0, cont@, vs.take(j as int), hvars.deep_view()),
            decreases vs.len() - j,
        {
            proof {
                lemma_seq_take_step(vs, j as int);
            }
            match find_key(hvars, &cont.var_state[j].0) {
                None => {
                    proof {
                        lemma_lookup_absent(hvars.deep_view(), vs[j as int].0);
                    }
                    self.unchecked_var_write(cont.duplicate(), cont.var_state[j].0.duplicate(), cont.var_state[j].1.duplicate());
                },
                Some(k) => {
                    proof {
                        let hv = hvars.deep_view();
                        assert(hv[k as int].0 == vs[j as int].0);
                        assert(exists|i: int| 0 <= i < hv.len() && hv[i].0 == vs[j as int].0);
                    }
                },
            }
            j = j + 1;
        }
        proof {
            lemma_seq_take_all(vs);
        }
    }
}


impl ProofFailures {
    fn check_entries_exec(&mut self, cont: &Continuation, name: &FullName, state: &Vec<(SymOp, SymOp)>, hentries: &Vec<(SymOp, SymOp)>)
        requires
            distinct_keys(state.deep_view()),
        ensures
            final(self)@ == check_entries(old(self)@, cont@, name@, state.deep_view(), hentries.deep_view()),
            same_reports(final(self)@, old(self)@),
    {
        let ghost f0 = self@;
        let ghost he = hentries.deep_view();
        let mut j: usize = 0;
        while j < hentries.len()
            invariant
                same_reports(self@, f0),
                distinct_keys(state.deep_view()),
                he == hentries.deep_view(),
                0 <= j <= he.len(),
                self@ == check_entries(f0, cont@, name@, state.deep_view(), he.take(j as int)),
            decreases he.len() - j,
        {
            proof {
                lemma_seq_take_step(he, j as int);
            }
            match find_key(state, &hentries[j].0) {
                None => {
                    proof {
                        lemma_lookup_absent(state.deep_view(), he[j as int].0);
                    }
                    self.missing_map_write(cont.duplicate(), name.duplicate(), hentries[j].0.duplicate());
                },
                Some(k) => {
                    proof {
                        lemma_lookup_at(state.deep_view(), k as int);
                    }
                    if !state[k].1.same(&hentries[j].1) {
                        self.incorrect_map_write(
                            cont.duplicate(),
                            name.duplicate(),
                            hentries[j].0.duplicate(),
                            state[k].1.duplicate(),
                            hentries[j].1.duplicate(),
                        );
                    }
                },
            }
            j = j + 1;
        }
        proof {
            lemma_seq_take_all(he);
        }
    }

    fn unchecked_entries_exec(&mut self, cont: &Continuation, name: &FullName, state: &Vec<(SymOp, SymOp)>, hentries: &Vec<(SymOp, SymOp)>)
        ensures
            final(self)@ == unchecked_entries(old(self)@, cont@, name@, state.deep_view(), hentries.deep_view()),
            same_reports(final(self)@, old(self)@),
    {
        let ghost f0 = self@;
        let ghost st = state.deep_view();
        let mut j: usize = 0;
        while j < state.len()
            invariant
                same_reports(self@, f0),
                st == state.deep_view(),
                0 <= j <= st.len(),
                self@ == unchecked_entries(f0, cont@, name@, st.take(j as int), hentries.deep_view()),
            decreases st.len() - j,
        {
            proof {
                lemma_seq_take_step(st, j as int);
            }
            match find_key(hentries, &state[j].0) {
                None => {
                    proof {
                        lemma_lookup_absent(hentries.deep_view(), st[j as int].0);
                    }
                    self.unchecked_map_write(cont.duplicate(), name.duplicate(), state[j].0.duplicate(), state[j].1.duplicate());
                },
                Some(k) => {
                    proof {
                        let he = hentries.deep_view();
                        assert(he[k as int].0 == st[j as int].0);
                    }
                },
            }
            j = j + 1;
        }
        proof {
            lemma_seq_take_all(st);
        }
    }

    fn check_maps_exec(&mut self, cont: &Continuation, hmaps: &Vec<(FullName, Vec<(SymOp, SymOp)>)>)
        requires
            cont@.wf(),
        ensures
            final(self)@ == check_maps(old(self)@, cont@, hmaps.deep_view()),
            same_reports(final(self)@, old(self)@),
    {
        let ghost f0 = self@;
        let ghost hm = hmaps.deep_view();
        let empty: Vec<(SymOp, SymOp)> = Vec::new();
        let mut i: usize = 0;
        while i < hmaps.len()
            invariant
                same_reports(self@, f0),
                cont@.wf(),
                hm == hmaps.deep_view(),
                empty@.len() == 0,
                0 <= i <= hm.len(),
                self@ == check_maps(f0, cont@, hm.take(i as int)),
            decreases hm.len() - i,
        {
            proof {
                lemma_seq_take_step(hm, i as int);
            }
            let state: &Vec<(SymOp, SymOp)> = match find_key(&cont.map_state, &hmaps[i].0) {
                Some(k) => {
                    proof {
                        lemma_lookup_at(cont@.map_state, k as int);
                    }
                    &cont.map_state[k].1
                },
                None => {
                    proof {
                        lemma_lookup_absent(cont@.map_state, hm[i as int].0);
                        assert(empty.deep_view() =~= Seq::<(Term, Term)>::empty());
                    }
                    &empty
                },
            };
            assert(state.deep_view() == entries_of(cont@.map_state, hm[i as int].0));
            self.check_entries_exec(cont, &hmaps[i].0, state, &hmaps[i].1);
            self.unchecked_entries_exec(cont, &hmaps[i].0, state, &hmaps[i].1);
            i = i + 1;
        }
        proof {
            lemma_seq_take_all(hm);
        }
    }

    fn check_tombs_exec(&mut self, cont: &Continuation, htombs: &Vec<(FullName, Vec<SymOp>)>)
        requires
            cont@.wf(),
        ensures
            final(self)@ == check_tombs(old(self)@, cont@, htombs.deep_view()),
            same_reports(final(self)@, old(self)@),
    {
        let ghost f0 = self@;
        let ghost ht = htombs.deep_view();
        let empty: Vec<SymOp> = Vec::new();
        let mut i: usize = 0;
        while i < htombs.len()
            invariant
                same_reports(self@, f0),
                cont@.wf(),
                ht == htombs.deep_view(),
                empty@.len() == 0,
                0 <= i <= ht.len(),
                self@ == check_tombs(f0, cont@, ht.take(i as int)),
            decreases ht.len() - i,
        {
            proof {
                lemma_seq_take_step(ht, i as int);
            }
            let ghost f1 = self@;
            let ghost n = ht[i as int].0;
            let ghost hk = ht[i as int].1;
            let keys: &Vec<SymOp> = match find_key(&cont.map_tombstones, &htombs[i].0) {
                Some(k) => {
                    proof {
                        lemma_lookup_at(cont@.map_tombstones, k as int);
                    }
                    &cont.map_tombstones[k].1
                },
                None => {
                    proof {
                        lemma_lookup_absent(cont@.map_tombstones, n);
                        assert(empty.deep_view() =~= Seq::<Term>::empty());
                    }
                    &empty
                },
            };
            let ghost kv = keys.deep_view();
            assert(kv == keys_of(cont@.map_tombstones, n));
            let mut j: usize = 0;
            while j < htombs[i].1.len()
                invariant
                    same_reports(self@, f0),
                    ht == htombs.deep_view(),
                    0 <= i < ht.len(),
                    n == ht[i as int].0,
                    hk == ht[i as int].1,
                    kv == keys.deep_view(),
                    0 <= j <= hk.len(),
                    self@ == missing_deletes(f1, cont@, n, kv, hk.take(j as int)),
                decreases hk.len() - j,
            {
                proof {
                    lemma_seq_take_step(hk, j as int);
                }
                if !contains_same(keys, &htombs[i].1[j]) {
                    self.missing_map_delete(cont.duplicate(), htombs[i].0.duplicate(), htombs[i].1[j].duplicate());
                }
                j = j + 1;
            }
            proof {
                lemma_seq_take_all(hk);
            }
            let ghost f2 = self@;
            let mut j: usize = 0;
            while j < keys.len()
                invariant
                    same_reports(self@, f0),
                    ht == htombs.deep_view(),
                    0 <= i < ht.len(),
                    n == ht[i as int].0,
                    hk == ht[i as int].1,
                    kv == keys.deep_view(),
                    0 <= j <= kv.len(),
                    self@ == unlisted_deletes(f2, cont@, n, kv.take(j as int), hk),
                decreases kv.len() - j,
            {
                proof {
                    lemma_seq_take_step(kv, j as int);
                }
                if !contains_same(&htombs[i].1, &keys[j]) {
                    self.unchecked_map_delete(cont.duplicate(), htombs[i].0.duplicate(), keys[j].duplicate());
                }
                j = j + 1;
            }
            proof {
                lemma_seq_take_all(kv);
            }
            i = i + 1;
        }
        proof {
            lemma_seq_take_all(ht);
        }
    }

    fn unchecked_maps_exec(&mut self, cont: &Continuation, hmaps: &Vec<(FullName, Vec<(SymOp, SymOp)>)>)
        ensures
            final(self)@ == unchecked_maps(old(self)@, cont@, cont@.map_state, hmaps.deep_view()),
            same_reports(final(self)@, old(self)@),
    {
        let ghost f0 = self@;
        let ghost c = cont@;
        let ghost ms = cont@.map_state;
        let mut i: usize = 0;
        while i < cont.map_state.len()
            invariant
                same_reports(self@, f0),
                c == cont@,
                ms == cont@.map_state,
                0 <= i <= ms.len(),
                self@ == unchecked_maps(f0, c, ms.take(i as int), hmaps.deep_view()),
            decreases ms.len() - i,
        {
            proof {
                lemma_seq_take_step(ms, i as int);
            }
            let ghost f1 = self@;
            let ghost n = ms[i as int].0;
            let ghost es = ms[i as int].1;
            match find_key(hmaps, &cont.map_state[i].0) {
                None => {
                    proof {
                        lemma_lookup_absent(hmaps.deep_view(), n);
                    }
                    let mut j: usize = 0;
                    while j < cont.map_state[i].1.len()
                        invariant
                            same_reports(self@, f0),
                            c == cont@,
                            ms == cont@.map_state,
                            0 <= i < ms.len(),
                            n == ms[i as int].0,
                            es == ms[i as int].1,
                            0 <= j <= es.len(),
                            self@ == (FailuresV {
                                unchecked_map_writes: f1.unchecked_map_writes + entry_rows(c, n, es.take(j as int)),
                                ..f1
                            }),
                        decreases es.len() - j,
                    {
                        self.unchecked_map_write(
                            cont.duplicate(),
                            cont.map_state[i].0.duplicate(),
                            cont.map_state[i].1[j].0.duplicate(),
                            cont.map_state[i].1[j].1.duplicate(),
                        );
                        proof {
                            lemma_seq_take_step(es, j as int);
                            assert(entry_rows(c, n, es.take(j + 1)) =~= entry_rows(c, n, es.take(j as int)).push((c, n, es[j as int].0, es[j as int].1)));
                            assert(f1.unchecked_map_writes + entry_rows(c, n, es.take(j + 1)) =~= (f1.unchecked_map_writes
                                + entry_rows(c, n, es.take(j as int))).push((c, n, es[j as int].0, es[j as int].1)));
                        }
                        j = j + 1;
                    }
                    proof {
                        lemma_seq_take_all(es);
                    }
                },
                Some(k) => {
                    proof {
                        let hm = hmaps.deep_view();
                        assert(hm[k as int].0 == n);
                    }
                },
            }
            i = i + 1;
        }
        proof {
            lemma_seq_take_all(ms);
        }
    }

    fn unchecked_deletes_exec(&mut self, cont: &Continuation, htombs: &Vec<(FullName, Vec<SymOp>)>)
        ensures
            final(self)@ == unchecked_deletes(old(self)@, cont@, cont@.map_tombstones, htombs.deep_view()),
            same_reports(final(self)@, old(self)@),
    {
        let ghost f0 = self@;
        let ghost c = cont@;
        let ghost ts = cont@.map_tombstones;
        let mut i: usize = 0;
        while i < cont.map_tombstones.len()
            invariant
                same_reports(self@, f0),
                c == cont@,
                ts == cont@.map_tombstones,
                0 <= i <= ts.len(),
                self@ == unchecked_deletes(f0, c, ts.take(i as int), htombs.deep_view()),
            decreases ts.len() - i,
        {
            proof {
                lemma_seq_take_step(ts, i as int);
            }
            let ghost f1 = self@;
            let ghost n = ts[i as int].0;
            let ghost keys = ts[i as int].1;
            match find_key(htombs, &cont.map_tombstones[i].0) {
                None => {
                    proof {
                        lemma_lookup_absent(htombs.deep_view(), n);
                    }
                    let mut j: usize = 0;
                    while j < cont.map_tombstones[i].1.len()
                        invariant
                            same_reports(self@, f0),
                            c == cont@,
                            ts == cont@.map_tombstones,
                            0 <= i < ts.len(),
                            n == ts[i as int].0,
                            keys == ts[i as int].1,
                            0 <= j <= keys.len(),
                            self@ == (FailuresV {
                                unchecked_map_deletes: f1.unchecked_map_deletes + key_rows(c, n, keys.take(j as int)),
                                ..f1
                            }),
                        decreases keys.len() - j,
                    {
                        self.unchecked_map_delete(cont.duplicate(), cont.map_tombstones[i].0.duplicate(), cont.map_tombstones[i].1[j].duplicate());
                        proof {
                            lemma_seq_take_step(keys, j as int);
                            assert(key_rows(c, n, keys.take(j + 1)) =~= key_rows(c, n, keys.take(j as int)).push((c, n, keys[j as int])));
                            assert(f1.unchecked_map_deletes + key_rows(c, n, keys.take(j + 1)) =~= (f1.unchecked_map_deletes
                                + key_rows(c, n, keys.take(j as int))).push((c, n, keys[j as int])));
                        }
                        j = j + 1;
                    }
                    proof {
                        lemma_seq_take_all(keys);
                    }
                },
                Some(k) => {
                    proof {
                        let ht = htombs.deep_view();
                        assert(ht[k as int].0 == n);
                    }
                },
            }
            i = i + 1;
        }
        proof {
            lemma_seq_take_all(ts);
        }
    }

    fn check_reach_exec(&mut self, cont: &Continuation, h: &Halt)
        requires
            reports_wf(old(self)@),
        ensures
            final(self)@ == check_reach(old(self)@, cont@, h@),
            reports_wf(final(self)@),
    {
        if h.analyze_write_reachability {
            record_all_exec(&mut self.unchecked_reachable_var_writes, &cont.predicate, &cont.reachable_var_writes, &h.reachable_var_writes);
            record_all_exec(&mut self.unmatched_reachable_var_writes, &cont.predicate, &h.reachable_var_writes, &cont.reachable_var_writes);
            record_all_exec(&mut self.unchecked_reachable_map_writes, &cont.predicate, &cont.reachable_map_writes, &h.reachable_map_writes);
            record_all_exec(&mut self.unmatched_reachable_map_writes, &cont.predicate, &h.reachable_map_writes, &cont.reachable_map_writes);
        }
    }

    fn record_match_exec(&mut self, cont: &Continuation, h: &Halt)
        requires
            cont@.wf(),
            reports_wf(old(self)@),
        ensures
            final(self)@ == record_match(old(self)@, cont@, h@),
            reports_wf(final(self)@),
    {
        if cont.early_return != h.early_return {
            self.early_return_mismatch = true;
        }
        if cont.panicking != h.panicking {
            self.panicking_mismatch = true;
        }
        let ghost f1 = self@;
        self.check_vars_exec(cont, &h.vars);
        self.unchecked_vars_exec(cont, &h.vars);
        self.check_maps_exec(cont, &h.map_state);
        self.unchecked_maps_exec(cont, &h.map_state);
        self.check_tombs_exec(cont, &h.map_tombstones);
        self.unchecked_deletes_exec(cont, &h.map_tombstones);
        self.check_reach_exec(cont, h);
    }
}


/// Position `p` of `rem` holds the first continuation, among those still
/// unclaimed (`rem`, by their indices), that the halting state whose row is
/// `row` reaches.
pub open spec fn first_reached(row: Seq<bool>, rem: Seq<int>, p: int) -> bool {
    &&& 0 <= p < rem.len()
    &&& row[rem[p]]
    &&& forall|q: int| 0 <= q < p ==> !row[#[trigger] rem[q]]
}

/// Where in `rem` the continuation that a halting state claims stands, if
/// it reaches any.
pub open spec fn claimed(row: Seq<bool>, rem: Seq<int>) -> Option<int> {
    if exists|p: int| first_reached(row, rem, p) {
        Some(choose|p: int| first_reached(row, rem, p))
    } else {
        None
    }
}

/// The report, and the continuations still unclaimed, after the first `n`
/// halting states have each claimed the first unclaimed continuation they
/// reach. A halting state that reaches none is reported as unmatched.
pub open spec fn after_halts(conts: Seq<ContinuationV>, halts: Seq<HaltV>, reaches: Seq<Seq<bool>>, n: nat) -> (FailuresV, Seq<int>)
    decreases n,
{
    if n == 0 {
        (no_failures(), Seq::new(conts.len(), |i: int| i))
    } else {
        let (f, rem) = after_halts(conts, halts, reaches, (n - 1) as nat);
        let h = halts[n - 1];
        match claimed(reaches[n - 1], rem) {
            None => (FailuresV { unmatched_halting_conditions: f.unmatched_halting_conditions.push(h.predicate), ..f }, rem),
            Some(p) => (record_match(f, conts[rem[p]], h), rem.remove(p)),
        }
    }
}

/// The report after each continuation in `rem` is reported as unaccounted.
pub open spec fn unaccounted_all(f: FailuresV, conts: Seq<ContinuationV>, rem: Seq<int>) -> FailuresV
    decreases rem.len(),
{
    if rem.len() == 0 {
        f
    } else {
        unaccounted(unaccounted_all(f, conts, rem.drop_last()), conts[rem.last()])
    }
}

/// The report for continuations `conts` checked against halting states
/// `halts`, where `reaches[h][c]` says whether halting state `h` reaches
/// continuation `c`.
pub open spec fn checked_failures(conts: Seq<ContinuationV>, halts: Seq<HaltV>, reaches: Seq<Seq<bool>>) -> FailuresV {
    let (f, rem) = after_halts(conts, halts, reaches, halts.len());
    unaccounted_all(f, conts, rem)
}

/// The indices of `v`, as integers.
pub open spec fn as_ints(v: Seq<usize>) -> Seq<int> {
    v.map_values(|u: usize| u as int)
}

proof fn lemma_first_reached_unique(row: Seq<bool>, rem: Seq<int>, p: int, q: int)
    requires
        first_reached(row, rem, p),
        first_reached(row, rem, q),
    ensures
        p == q,
{
    if p < q {
        assert(!row[rem[p]]);
    } else if q < p {
        assert(!row[rem[q]]);
    }
}

/// What the simplifier made of the values that decide which continuation a
/// halting state reaches.
pub struct Simplified {
    /// each continuation's final formula, simplified
    pub cont_formulas: Vec<SymOp>,
    /// each continuation's path predicate, simplified
    pub cont_predicates: Vec<Predicate>,
    /// each halting state's result formula, simplified
    pub halt_formulas: Vec<SymOp>,
    /// each halting state's predicate, simplified
    pub halt_predicates: Vec<Predicate>,
    /// `implications[h][c]`: `(or (not P) C)` simplified, where `P` is the
    /// path predicate of continuation `c` and `C` the condition of halting
    /// state `h`; read only for halting states that have a condition
    pub implications: Vec<Vec<Predicate>>,
}

pub struct SimplifiedV {
    pub cont_formulas: Seq<Term>,
    pub cont_predicates: Seq<PredicateV>,
    pub halt_formulas: Seq<Term>,
    pub halt_predicates: Seq<PredicateV>,
    pub implications: Seq<Seq<PredicateV>>,
}

impl View for Simplified {
    type V = SimplifiedV;

    open spec fn view(&self) -> SimplifiedV {
        SimplifiedV {
            cont_formulas: self.cont_formulas.deep_view(),
            cont_predicates: self.cont_predicates.deep_view(),
            halt_formulas: self.halt_formulas.deep_view(),
            halt_predicates: self.halt_predicates.deep_view(),
            implications: self.implications.deep_view(),
        }
    }
}

/// The simplified values cover `nc` continuations and `nh` halting states.
pub open spec fn simplified_fits(s: SimplifiedV, nc: nat, nh: nat) -> bool {
    &&& s.cont_formulas.len() == nc
    &&& s.cont_predicates.len() == nc
    &&& s.halt_formulas.len() == nh
    &&& s.halt_predicates.len() == nh
    &&& s.implications.len() == nh
    &&& forall|j: int| 0 <= j < nh ==> (#[trigger] s.implications[j]).len() == nc
}

/// Halting state `h`, the `j`-th, reaches the `i`-th continuation: their
/// simplified formulas are equal, and either `h` has a condition that the
/// continuation's predicate implies (the simplified implication is `true`),
/// or `h` has none and their simplified predicates are equal.
pub open spec fn halt_reaches(h: HaltV, s: SimplifiedV, j: int, i: int) -> bool {
    &&& s.cont_formulas[i] == s.halt_formulas[j]
    &&& match h.condition {
        Some(_) => s.implications[j][i] == PredicateV::True,
        None => s.cont_predicates[i] == s.halt_predicates[j],
    }
}

/// Which halting state reaches which of `nc` continuations.
pub open spec fn reach_matrix(halts: Seq<HaltV>, s: SimplifiedV, nc: nat) -> Seq<Seq<bool>> {
    Seq::new(halts.len(), |j: int| Seq::new(nc, |i: int| halt_reaches(halts[j], s, j, i)))
}

/// Decides, from the simplified values, which halting state reaches which
/// continuation.
pub fn reach_matrix_exec(halts: &Vec<Halt>, nc: usize, s: &Simplified) -> (r: Vec<Vec<bool>>)
    requires
        simplified_fits(s@, nc as nat, halts@.len()),
    ensures
        r.deep_view() == reach_matrix(halts.deep_view(), s@, nc as nat),
        r@.len() == halts@.len(),
        forall|j: int| 0 <= j < r@.len() ==> (#[trigger] r@[j])@.len() == nc,
{
    let ghost sv = s@;
    let ghost hv = halts.deep_view();
    let mut rows: Vec<Vec<bool>> = Vec::new();
    let mut j: usize = 0;
    while j < halts.len()
        invariant
            sv == s@,
            hv == halts.deep_view(),
            simplified_fits(sv, nc as nat, halts@.len()),
            0 <= j <= halts@.len(),
            rows@.len() == j,
            forall|q: int| 0 <= q < j ==> (#[trigger] rows@[q])@.len() == nc,
            forall|q: int| 0 <= q < j ==> (#[trigger] rows@[q])@ == reach_matrix(hv, sv, nc as nat)[q],
        decreases halts@.len() - j,
    {
        assert(sv.implications[j as int].len() == nc);
        let mut row: Vec<bool> = Vec::new();
        let mut i: usize = 0;
        while i < nc
            invariant
                sv == s@,
                hv == halts.deep_view(),
                simplified_fits(sv, nc as nat, halts@.len()),
                0 <= j < halts@.len(),
                0 <= i <= nc,
                row@.len() == i,
                forall|q: int| 0 <= q < i ==> row@[q] == halt_reaches(hv[j as int], sv, j as int, q),
            decreases nc - i,
        {
            proof {
                assert(sv.implications[j as int] == s.implications@[j as int].deep_view());
                assert(s.implications@[j as int]@.len() == nc);
            }
            let formula_eq = s.cont_formulas[i].same(&s.halt_formulas[j]);
            let rest = match &halts[j].condition {
                Some(_) => match &s.implications[j][i] {
                    Predicate::True => true,
                    _ => false,
                },
                None => s.cont_predicates[i].same(&s.halt_predicates[j]),
            };
            proof {
                assert(hv[j as int] == halts@[j as int]@);
                assert(sv.implications[j as int][i as int] == s.implications@[j as int]@[i as int]@);
            }
            row.push(formula_eq && rest);
            i = i + 1;
        }
        proof {
            assert(row@ =~= reach_matrix(hv, sv, nc as nat)[j as int]);
        }
        rows.push(row);
        j = j + 1;
    }
    proof {
        assert forall|q: int| 0 <= q < rows@.len() implies #[trigger] rows.deep_view()[q] == reach_matrix(hv, sv, nc as nat)[q] by {
            assert(rows@[q].deep_view() =~= rows@[q]@);
        }
        assert(rows.deep_view() =~= reach_matrix(hv, sv, nc as nat));
    }
    rows
}

impl ProofFailures {
    /// Computes the report for the computed continuations `conts` (each one
    /// already rolled up) against the halting states `halts` a specification
    /// gives. Each halting state, in order, claims the first continuation
    /// not yet claimed that it reaches, by what `simplified` holds: the same
    /// simplified formula, and either a condition that the continuation's
    /// predicate implies or, without a condition, the same simplified
    /// predicate. A halting state that reaches none is unmatched.
    pub fn from_continuations_and_halts(conts: Vec<Continuation>, halts: Vec<Halt>, simplified: &Simplified) -> (r: Self)
        requires
            simplified_fits(simplified@, conts@.len(), halts@.len()),
            forall|c: int| 0 <= c < conts@.len() ==> (#[trigger] conts@[c])@.wf(),
        ensures
            r@ == checked_failures(conts.deep_view(), halts.deep_view(), reach_matrix(halts.deep_view(), simplified@, conts@.len())),
    {
        let reaches = reach_matrix_exec(&halts, conts.len(), simplified);
        Self::match_reached(conts, halts, &reaches)
    }

    /// Computes the report for the computed continuations `conts` against
    /// the halting states `halts`, where `reaches[h][c]` says whether
    /// halting state `h` reaches continuation `c`.
    pub fn match_reached(conts: Vec<Continuation>, halts: Vec<Halt>, reaches: &Vec<Vec<bool>>) -> (r: Self)
        requires
            reaches@.len() == halts@.len(),
            forall|h: int| 0 <= h < reaches@.len() ==> (#[trigger] reaches@[h])@.len() == conts@.len(),
            forall|c: int| 0 <= c < conts@.len() ==> (#[trigger] conts@[c])@.wf(),
        ensures
            r@ == checked_failures(conts.deep_view(), halts.deep_view(), reaches.deep_view()),
    {
        let ghost cs = conts.deep_view();
        let ghost hs = halts.deep_view();
        let ghost rs = reaches.deep_view();
        let mut failures = ProofFailures::new();
        let mut remaining: Vec<usize> = Vec::new();
        let mut c: usize = 0;
        while c < conts.len()
            invariant
                0 <= c <= conts@.len(),
                remaining@.len() == c,
                forall|q: int| 0 <= q < c ==> remaining@[q] == q,
            decreases conts@.len() - c,
        {
            remaining.push(c);
            c = c + 1;
        }
        assert(as_ints(remaining@) =~= Seq::new(cs.len(), |i: int| i));
        assert(failures@ == after_halts(cs, hs, rs, 0).0);

        let mut h: usize = 0;
        while h < halts.len()
            invariant
                cs == conts.deep_view(),
                hs == halts.deep_view(),
                rs == reaches.deep_view(),
                reaches@.len() == halts@.len(),
                forall|i: int| 0 <= i < reaches@.len() ==> (#[trigger] reaches@[i])@.len() == conts@.len(),
                forall|i: int| 0 <= i < conts@.len() ==> (#[trigger] conts@[i])@.wf(),
                0 <= h <= halts@.len(),
                forall|q: int| 0 <= q < remaining@.len() ==> (#[trigger] remaining@[q]) < conts@.len(),
                (failures@, as_ints(remaining@)) == after_halts(cs, hs, rs, h as nat),
                reports_wf(failures@),
            decreases halts@.len() - h,
        {
            let ghost rem = as_ints(remaining@);
            let ghost row = rs[h as int];
            assert(row == reaches@[h as int]@);
            let mut p: usize = 0;
            let mut found: Option<usize> = None;
            while p < remaining.len()
                invariant_except_break
                    found is None,
                invariant
                    rem == as_ints(remaining@),
                    row == reaches@[h as int]@,
                    0 <= h < reaches@.len(),
                    reaches@[h as int]@.len() == conts@.len(),
                    forall|q: int| 0 <= q < remaining@.len() ==> (#[trigger] remaining@[q]) < conts@.len(),
                    0 <= p <= remaining@.len(),
                    forall|q: int| 0 <= q < p ==> !row[#[trigger] rem[q]],
                ensures
                    match found {
                        Some(fp) => first_reached(row, rem, fp as int),
                        None => forall|q: int| 0 <= q < rem.len() ==> !row[#[trigger] rem[q]],
                    },
                decreases remaining@.len() - p,
            {
                if reaches[h][remaining[p]] {
                    found = Some(p);
                    break;
                }
                p = p + 1;
            }
            match found {
                None => {
                    proof {
                        assert(!exists|q: int| first_reached(row, rem, q));
                        assert(claimed(row, rem) is None);
                    }
                    failures.unmatched_halting_condition(halts[h].predicate.duplicate());
                },
                Some(fp) => {
                    proof {
                        let q = choose|q: int| first_reached(row, rem, q);
                        lemma_first_reached_unique(row, rem, fp as int, q);
                        assert(claimed(row, rem) == Some(fp as int));
                    }
                    let ci = remaining[fp];
                    failures.record_match_exec(&conts[ci], &halts[h]);
                    remaining.remove(fp);
                    assert(as_ints(remaining@) =~= rem.remove(fp as int));
                },
            }
            h = h + 1;
        }

        let ghost f1 = failures@;
        let ghost rem = as_ints(remaining@);
        let mut k: usize = 0;
        while k < remaining.len()
            invariant
                cs == conts.deep_view(),
                rem == as_ints(remaining@),
                forall|q: int| 0 <= q < remaining@.len() ==> (#[trigger] remaining@[q]) < conts@.len(),
                0 <= k <= remaining@.len(),
                failures@ == unaccounted_all(f1, cs, rem.take(k as int)),
            decreases remaining@.len() - k,
        {
            proof {
                lemma_seq_take_step(rem, k as int);
            }
            failures.unaccounted_continuation(conts[remaining[k]].duplicate());
            k = k + 1;
        }
        proof {
            lemma_seq_take_all(rem);
        }
        failures
    }
}


/// `g` reports the same unchecked continuations and unmatched halting
/// conditions as `f`.
pub open spec fn same_claims(f: FailuresV, g: FailuresV) -> bool {
    &&& f.unchecked_continuations == g.unchecked_continuations
    &&& f.unmatched_halting_conditions == g.unmatched_halting_conditions
}

proof fn lemma_check_vars_claims(f: FailuresV, c: ContinuationV, hvars: Seq<(NameV, Term)>)
    ensures
        same_claims(check_vars(f, c, hvars), f),
    decreases hvars.len(),
{
    if hvars.len() > 0 {
        lemma_check_vars_claims(f, c, hvars.drop_last());
    }
}

proof fn lemma_unchecked_vars_claims(f: FailuresV, c: ContinuationV, vars: Seq<(NameV, Term)>, hvars: Seq<(NameV, Term)>)
    ensures
        same_claims(unchecked_vars(f, c, vars, hvars), f),
    decreases vars.len(),
{
    if vars.len() > 0 {
        lemma_unchecked_vars_claims(f, c, vars.drop_last(), hvars);
    }
}

proof fn lemma_check_entries_claims(f: FailuresV, c: ContinuationV, n: NameV, state: Seq<(Term, Term)>, hentries: Seq<(Term, Term)>)
    ensures
        same_claims(check_entries(f, c, n, state, hentries), f),
    decreases hentries.len(),
{
    if hentries.len() > 0 {
        lemma_check_entries_claims(f, c, n, state, hentries.drop_last());
    }
}

proof fn lemma_unchecked_entries_claims(f: FailuresV, c: ContinuationV, n: NameV, state: Seq<(Term, Term)>, hentries: Seq<(Term, Term)>)
    ensures
        same_claims(unchecked_entries(f, c, n, state, hentries), f),
    decreases state.len(),
{
    if state.len() > 0 {
        lemma_unchecked_entries_claims(f, c, n, state.drop_last(), hentries);
    }
}

proof fn lemma_check_maps_claims(f: FailuresV, c: ContinuationV, hmaps: Seq<(NameV, Seq<(Term, Term)>)>)
    ensures
        same_claims(check_maps(f, c, hmaps), f),
    decreases hmaps.len(),
{
    if hmaps.len() > 0 {
        let f0 = check_maps(f, c, hmaps.drop_last());
        lemma_check_maps_claims(f, c, hmaps.drop_last());
        let n = hmaps.last().0;
        let state = entries_of(c.map_state, n);
        lemma_check_entries_claims(f0, c, n, state, hmaps.last().1);
        lemma_unchecked_entries_claims(check_entries(f0, c, n, state, hmaps.last().1), c, n, state, hmaps.last().1);
    }
}

proof fn lemma_unchecked_maps_claims(f: FailuresV, c: ContinuationV, maps: Seq<(NameV, Seq<(Term, Term)>)>, hmaps: Seq<(NameV, Seq<(Term, Term)>)>)
    ensures
        same_claims(unchecked_maps(f, c, maps, hmaps), f),
    decreases maps.len(),
{
    if maps.len() > 0 {
        lemma_unchecked_maps_claims(f, c, maps.drop_last(), hmaps);
    }
}

proof fn lemma_missing_deletes_claims(f: FailuresV, c: ContinuationV, n: NameV, keys: Seq<Term>, hkeys: Seq<Term>)
    ensures
        same_claims(missing_deletes(f, c, n, keys, hkeys), f),
    decreases hkeys.len(),
{
    if hkeys.len() > 0 {
        lemma_missing_deletes_claims(f, c, n, keys, hkeys.drop_last());
    }
}

proof fn lemma_unlisted_deletes_claims(f: FailuresV, c: ContinuationV, n: NameV, keys: Seq<Term>, hkeys: Seq<Term>)
    ensures
        same_claims(unlisted_deletes(f, c, n, keys, hkeys), f),
    decreases keys.len(),
{
    if keys.len() > 0 {
        lemma_unlisted_deletes_claims(f, c, n, keys.drop_last(), hkeys);
    }
}

proof fn lemma_check_tombs_claims(f: FailuresV, c: ContinuationV, htombs: Seq<(NameV, Seq<Term>)>)
    ensures
        same_claims(check_tombs(f, c, htombs), f),
    decreases htombs.len(),
{
    if htombs.len() > 0 {
        let f0 = check_tombs(f, c, htombs.drop_last());
        lemma_check_tombs_claims(f, c, htombs.drop_last());
        let n = htombs.last().0;
        let hk = htombs.last().1;
        let keys = keys_of(c.map_tombstones, n);
        lemma_missing_deletes_claims(f0, c, n, keys, hk);
        lemma_unlisted_deletes_claims(missing_deletes(f0, c, n, keys, hk), c, n, keys, hk);
    }
}

proof fn lemma_unchecked_deletes_claims(f: FailuresV, c: ContinuationV, tombs: Seq<(NameV, Seq<Term>)>, htombs: Seq<(NameV, Seq<Term>)>)
    ensures
        same_claims(unchecked_deletes(f, c, tombs, htombs), f),
    decreases tombs.len(),
{
    if tombs.len() > 0 {
        lemma_unchecked_deletes_claims(f, c, tombs.drop_last(), htombs);
    }
}

proof fn lemma_record_match_claims(f: FailuresV, c: ContinuationV, h: HaltV)
    ensures
        same_claims(record_match(f, c, h), f),
{
    let f1 = FailuresV {
        early_return_mismatch: f.early_return_mismatch || c.early_return != h.early_return,
        panicking_mismatch: f.panicking_mismatch || c.panicking != h.panicking,
        ..f
    };
    let fa = check_vars(f1, c, h.vars);
    lemma_check_vars_claims(f1, c, h.vars);
    let f2 = unchecked_vars(fa, c, c.var_state, h.vars);
    lemma_unchecked_vars_claims(fa, c, c.var_state, h.vars);
    let f2b = check_maps(f2, c, h.map_state);
    lemma_check_maps_claims(f2, c, h.map_state);
    let f3 = unchecked_maps(f2b, c, c.map_state, h.map_state);
    lemma_unchecked_maps_claims(f2b, c, c.map_state, h.map_state);
    let fb = check_tombs(f3, c, h.map_tombstones);
    lemma_check_tombs_claims(f3, c, h.map_tombstones);
    lemma_unchecked_deletes_claims(fb, c, c.map_tombstones, h.map_tombstones);
}

proof fn lemma_after_halts_counts(conts: Seq<ContinuationV>, halts: Seq<HaltV>, reaches: Seq<Seq<bool>>, n: nat)
    requires
        n <= halts.len(),
    ensures
        after_halts(conts, halts, reaches, n).0.unchecked_continuations.len() == 0,
        after_halts(conts, halts, reaches, n).1.len() + n == conts.len()
            + after_halts(conts, halts, reaches, n).0.unmatched_halting_conditions.len(),
    decreases n,
{
    if n > 0 {
        lemma_after_halts_counts(conts, halts, reaches, (n - 1) as nat);
        let (f, rem) = after_halts(conts, halts, reaches, (n - 1) as nat);
        match claimed(reaches[n - 1], rem) {
            None => {},
            Some(p) => {
                assert(first_reached(reaches[n - 1], rem, p));
                lemma_record_match_claims(f, conts[rem[p]], halts[n - 1]);
            },
        }
    }
}

proof fn lemma_unaccounted_all_counts(f: FailuresV, conts: Seq<ContinuationV>, rem: Seq<int>)
    ensures
        unaccounted_all(f, conts, rem).unchecked_continuations.len() == f.unchecked_continuations.len() + rem.len(),
        unaccounted_all(f, conts, rem).unmatched_halting_conditions == f.unmatched_halting_conditions,
    decreases rem.len(),
{
    if rem.len() > 0 {
        lemma_unaccounted_all_counts(f, conts, rem.drop_last());
    }
}

/// Every computed terminating state is either claimed by exactly one
/// halting state or reported as unchecked, and every halting state either
/// claims one or is reported as unmatched: the unchecked continuations and
/// the halting states together are as many as the continuations and the
/// unmatched halting conditions together.
pub proof fn lemma_every_state_accounted(conts: Seq<ContinuationV>, halts: Seq<HaltV>, reaches: Seq<Seq<bool>>)
    ensures
        checked_failures(conts, halts, reaches).unchecked_continuations.len() + halts.len()
            == conts.len() + checked_failures(conts, halts, reaches).unmatched_halting_conditions.len(),
{
    lemma_after_halts_counts(conts, halts, reaches, halts.len());
    let (f, rem) = after_halts(conts, halts, reaches, halts.len());
    lemma_unaccounted_all_counts(f, conts, rem);
}

proof fn lemma_after_halts_unmatched(conts: Seq<ContinuationV>, halts: Seq<HaltV>, reaches: Seq<Seq<bool>>, n: nat)
    requires
        n <= halts.len(),
    ensures
        after_halts(conts, halts, reaches, n).0.unmatched_halting_conditions.len() <= n,
    decreases n,
{
    if n > 0 {
        lemma_after_halts_unmatched(conts, halts, reaches, (n - 1) as nat);
        let (f, rem) = after_halts(conts, halts, reaches, (n - 1) as nat);
        match claimed(reaches[n - 1], rem) {
            None => {},
            Some(p) => {
                lemma_record_match_claims(f, conts[rem[p]], halts[n - 1]);
            },
        }
    }
}

/// Each halting state is reported as unmatched at most once: there are no
/// more unmatched halting conditions than halting states.
pub proof fn lemma_unmatched_at_most_once_per_halt(conts: Seq<ContinuationV>, halts: Seq<HaltV>, reaches: Seq<Seq<bool>>)
    ensures
        checked_failures(conts, halts, reaches).unmatched_halting_conditions.len() <= halts.len(),
{
    lemma_after_halts_unmatched(conts, halts, reaches, halts.len());
    let (f, rem) = after_halts(conts, halts, reaches, halts.len());
    lemma_unaccounted_all_counts(f, conts, rem);
}

/// A report with no failures means that the specification gives exactly as
/// many halting states as there are computed terminating states.
pub proof fn lemma_passing_report_pairs_states(conts: Seq<ContinuationV>, halts: Seq<HaltV>, reaches: Seq<Seq<bool>>)
    requires
        failures_empty(checked_failures(conts, halts, reaches)),
    ensures
        conts.len() == halts.len(),
{
    lemma_every_state_accounted(conts, halts, reaches);
}


/// The keys deleted from map `n`; none if no key of `n` is deleted.
pub open spec fn keys_of(tombs: Seq<(NameV, Seq<Term>)>, n: NameV) -> Seq<Term> {
    match lookup(tombs, n) {
        Some(keys) => keys,
        None => Seq::empty(),
    }
}

/// Halting state `h` describes continuation `c` exactly: the same nature of
/// halt, the same variable and map writes, the same map deletes, and, when
/// `h` asks for the comparison, the same variables and maps that may be
/// written.
pub open spec fn describes(h: HaltV, c: ContinuationV) -> bool {
    &&& h.early_return == c.early_return
    &&& h.panicking == c.panicking
    &&& forall|k: NameV| #[trigger] lookup(h.vars, k) == lookup(c.var_state, k)
    &&& forall|n: NameV, k: Term| #[trigger] lookup(entries_of(h.map_state, n), k) == lookup(entries_of(c.map_state, n), k)
    &&& forall|n: NameV| (#[trigger] lookup(h.map_tombstones, n) is Some) == (lookup(c.map_tombstones, n) is Some)
    &&& forall|n: NameV, k: Term| #[trigger] keys_of(h.map_tombstones, n).contains(k) == keys_of(c.map_tombstones, n).contains(k)
    &&& h.analyze_write_reachability ==> {
        &&& forall|n: NameV| #[trigger] h.reachable_var_writes.contains(n) == c.reachable_var_writes.contains(n)
        &&& forall|n: NameV| #[trigger] h.reachable_map_writes.contains(n) == c.reachable_map_writes.contains(n)
    }
}

proof fn lemma_check_vars_clean(f: FailuresV, c: ContinuationV, hvars: Seq<(NameV, Term)>)
    requires
        forall|i: int| 0 <= i < hvars.len() ==> lookup(c.var_state, (#[trigger] hvars[i]).0) == Some(hvars[i].1),
    ensures
        check_vars(f, c, hvars) == f,
    decreases hvars.len(),
{
    if hvars.len() > 0 {
        let hd = hvars.drop_last();
        assert forall|i: int| 0 <= i < hd.len() implies lookup(c.var_state, (#[trigger] hd[i]).0) == Some(hd[i].1) by {
            assert(hd[i] == hvars[i]);
        }
        lemma_check_vars_clean(f, c, hd);
        assert(lookup(c.var_state, hvars[hvars.len() - 1].0) == Some(hvars[hvars.len() - 1].1));
    }
}

proof fn lemma_unchecked_vars_clean(f: FailuresV, c: ContinuationV, vars: Seq<(NameV, Term)>, hvars: Seq<(NameV, Term)>)
    requires
        forall|i: int| 0 <= i < vars.len() ==> lookup(hvars, (#[trigger] vars[i]).0) is Some,
    ensures
        unchecked_vars(f, c, vars, hvars) == f,
    decreases vars.len(),
{
    if vars.len() > 0 {
        let vd = vars.drop_last();
        assert forall|i: int| 0 <= i < vd.len() implies lookup(hvars, (#[trigger] vd[i]).0) is Some by {
            assert(vd[i] == vars[i]);
        }
        lemma_unchecked_vars_clean(f, c, vd, hvars);
        assert(lookup(hvars, vars[vars.len() - 1].0) is Some);
    }
}

proof fn lemma_check_entries_clean(f: FailuresV, c: ContinuationV, n: NameV, state: Seq<(Term, Term)>, hentries: Seq<(Term, Term)>)
    requires
        forall|i: int| 0 <= i < hentries.len() ==> lookup(state, (#[trigger] hentries[i]).0) == Some(hentries[i].1),
    ensures
        check_entries(f, c, n, state, hentries) == f,
    decreases hentries.len(),
{
    if hentries.len() > 0 {
        let hd = hentries.drop_last();
        assert forall|i: int| 0 <= i < hd.len() implies lookup(state, (#[trigger] hd[i]).0) == Some(hd[i].1) by {
            assert(hd[i] == hentries[i]);
        }
        lemma_check_entries_clean(f, c, n, state, hd);
        assert(lookup(state, hentries[hentries.len() - 1].0) == Some(hentries[hentries.len() - 1].1));
    }
}

proof fn lemma_unchecked_entries_clean(f: FailuresV, c: ContinuationV, n: NameV, state: Seq<(Term, Term)>, hentries: Seq<(Term, Term)>)
    requires
        forall|i: int| 0 <= i < state.len() ==> lookup(hentries, (#[trigger] state[i]).0) is Some,
    ensures
        unchecked_entries(f, c, n, state, hentries) == f,
    decreases state.len(),
{
    if state.len() > 0 {
        let sd = state.drop_last();
        assert forall|i: int| 0 <= i < sd.len() implies lookup(hentries, (#[trigger] sd[i]).0) is Some by {
            assert(sd[i] == state[i]);
        }
        lemma_unchecked_entries_clean(f, c, n, sd, hentries);
        assert(lookup(hentries, state[state.len() - 1].0) is Some);
    }
}

proof fn lemma_check_maps_clean(f: FailuresV, c: ContinuationV, h: HaltV, hmaps: Seq<(NameV, Seq<(Term, Term)>)>)
    requires
        c.wf(),
        h.wf(),
        describes(h, c),
        hmaps.len() <= h.map_state.len(),
        hmaps == h.map_state.take(hmaps.len() as int),
    ensures
        check_maps(f, c, hmaps) == f,
    decreases hmaps.len(),
{
    if hmaps.len() > 0 {
        let m = hmaps.len() - 1;
        assert(hmaps.drop_last() =~= h.map_state.take(m));
        lemma_check_maps_clean(f, c, h, hmaps.drop_last());
        let n = hmaps.last().0;
        let hentries = hmaps.last().1;
        assert(hmaps.last() == h.map_state[m]);
        lemma_lookup_at(h.map_state, m);
        assert(entries_of(h.map_state, n) == hentries);
        assert(distinct_keys(h.map_state[m].1));
        let state = entries_of(c.map_state, n);
        assert forall|i: int| 0 <= i < hentries.len() implies lookup(state, (#[trigger] hentries[i]).0) == Some(hentries[i].1) by {
            lemma_lookup_at(hentries, i);
            assert(lookup(entries_of(h.map_state, n), hentries[i].0) == lookup(entries_of(c.map_state, n), hentries[i].0));
        }
        lemma_check_entries_clean(f, c, n, state, hentries);
        assert(distinct_keys(state)) by {
            match lookup(c.map_state, n) {
                Some(st) => {
                    let j = choose|j: int| 0 <= j < c.map_state.len() && c.map_state[j].0 == n;
                    assert(distinct_keys(c.map_state[j].1));
                },
                None => {},
            }
        }
        assert forall|i: int| 0 <= i < state.len() implies lookup(hentries, (#[trigger] state[i]).0) is Some by {
            lemma_lookup_at(state, i);
            assert(lookup(entries_of(h.map_state, n), state[i].0) == lookup(entries_of(c.map_state, n), state[i].0));
        }
        lemma_unchecked_entries_clean(f, c, n, state, hentries);
    }
}

proof fn lemma_unchecked_maps_clean(f: FailuresV, c: ContinuationV, maps: Seq<(NameV, Seq<(Term, Term)>)>, hmaps: Seq<(NameV, Seq<(Term, Term)>)>)
    requires
        forall|i: int| 0 <= i < maps.len() ==> lookup(hmaps, (#[trigger] maps[i]).0) is Some || maps[i].1.len() == 0,
    ensures
        unchecked_maps(f, c, maps, hmaps) == f,
    decreases maps.len(),
{
    if maps.len() > 0 {
        let md = maps.drop_last();
        assert forall|i: int| 0 <= i < md.len() implies lookup(hmaps, (#[trigger] md[i]).0) is Some || md[i].1.len() == 0 by {
            assert(md[i] == maps[i]);
        }
        lemma_unchecked_maps_clean(f, c, md, hmaps);
        let m = maps.last();
        assert(lookup(hmaps, maps[maps.len() - 1].0) is Some || maps[maps.len() - 1].1.len() == 0);
        if lookup(hmaps, m.0) is None {
            assert(entry_rows(c, m.0, m.1) =~= Seq::empty());
            assert(f.unchecked_map_writes + entry_rows(c, m.0, m.1) =~= f.unchecked_map_writes);
        }
    }
}

proof fn lemma_missing_deletes_clean(f: FailuresV, c: ContinuationV, n: NameV, keys: Seq<Term>, hkeys: Seq<Term>)
    requires
        forall|i: int| 0 <= i < hkeys.len() ==> keys.contains(#[trigger] hkeys[i]),
    ensures
        missing_deletes(f, c, n, keys, hkeys) == f,
    decreases hkeys.len(),
{
    if hkeys.len() > 0 {
        let hd = hkeys.drop_last();
        assert forall|i: int| 0 <= i < hd.len() implies keys.contains(#[trigger] hd[i]) by {
            assert(hd[i] == hkeys[i]);
        }
        lemma_missing_deletes_clean(f, c, n, keys, hd);
        assert(keys.contains(hkeys[hkeys.len() - 1]));
    }
}

proof fn lemma_unlisted_deletes_clean(f: FailuresV, c: ContinuationV, n: NameV, keys: Seq<Term>, hkeys: Seq<Term>)
    requires
        forall|i: int| 0 <= i < keys.len() ==> hkeys.contains(#[trigger] keys[i]),
    ensures
        unlisted_deletes(f, c, n, keys, hkeys) == f,
    decreases keys.len(),
{
    if keys.len() > 0 {
        let kd = keys.drop_last();
        assert forall|i: int| 0 <= i < kd.len() implies hkeys.contains(#[trigger] kd[i]) by {
            assert(kd[i] == keys[i]);
        }
        lemma_unlisted_deletes_clean(f, c, n, kd, hkeys);
        assert(hkeys.contains(keys[keys.len() - 1]));
    }
}

proof fn lemma_check_tombs_clean(f: FailuresV, c: ContinuationV, h: HaltV, htombs: Seq<(NameV, Seq<Term>)>)
    requires
        c.wf(),
        h.wf(),
        describes(h, c),
        htombs.len() <= h.map_tombstones.len(),
        htombs == h.map_tombstones.take(htombs.len() as int),
    ensures
        check_tombs(f, c, htombs) == f,
    decreases htombs.len(),
{
    if htombs.len() > 0 {
        let m = htombs.len() - 1;
        assert(htombs.drop_last() =~= h.map_tombstones.take(m));
        lemma_check_tombs_clean(f, c, h, htombs.drop_last());
        let n = htombs.last().0;
        let hkeys = htombs.last().1;
        assert(htombs.last() == h.map_tombstones[m]);
        lemma_lookup_at(h.map_tombstones, m);
        assert(keys_of(h.map_tombstones, n) == hkeys);
        let keys = keys_of(c.map_tombstones, n);
        assert forall|i: int| 0 <= i < hkeys.len() implies keys.contains(#[trigger] hkeys[i]) by {
            assert(hkeys.contains(hkeys[i]));
            assert(keys_of(h.map_tombstones, n).contains(hkeys[i]) == keys_of(c.map_tombstones, n).contains(hkeys[i]));
        }
        lemma_missing_deletes_clean(f, c, n, keys, hkeys);
        assert forall|i: int| 0 <= i < keys.len() implies hkeys.contains(#[trigger] keys[i]) by {
            assert(keys.contains(keys[i]));
            assert(keys_of(h.map_tombstones, n).contains(keys[i]) == keys_of(c.map_tombstones, n).contains(keys[i]));
        }
        lemma_unlisted_deletes_clean(f, c, n, keys, hkeys);
    }
}

proof fn lemma_unchecked_deletes_clean(f: FailuresV, c: ContinuationV, tombs: Seq<(NameV, Seq<Term>)>, htombs: Seq<(NameV, Seq<Term>)>)
    requires
        forall|i: int| 0 <= i < tombs.len() ==> lookup(htombs, (#[trigger] tombs[i]).0) is Some,
    ensures
        unchecked_deletes(f, c, tombs, htombs) == f,
    decreases tombs.len(),
{
    if tombs.len() > 0 {
        let td = tombs.drop_last();
        assert forall|i: int| 0 <= i < td.len() implies lookup(htombs, (#[trigger] td[i]).0) is Some by {
            assert(td[i] == tombs[i]);
        }
        lemma_unchecked_deletes_clean(f, c, td, htombs);
        assert(lookup(htombs, tombs[tombs.len() - 1].0) is Some);
    }
}

proof fn lemma_record_all_clean(l: Seq<(PredicateV, Seq<NameV>)>, p: PredicateV, names: Seq<NameV>, excluded: Seq<NameV>)
    requires
        forall|i: int| 0 <= i < names.len() ==> excluded.contains(#[trigger] names[i]),
    ensures
        record_all(l, p, names, excluded) == l,
    decreases names.len(),
{
    if names.len() > 0 {
        let nd = names.drop_last();
        assert forall|i: int| 0 <= i < nd.len() implies excluded.contains(#[trigger] nd[i]) by {
            assert(nd[i] == names[i]);
        }
        lemma_record_all_clean(l, p, nd, excluded);
        assert(excluded.contains(names[names.len() - 1]));
    }
}

proof fn lemma_record_match_clean(f: FailuresV, c: ContinuationV, h: HaltV)
    requires
        c.wf(),
        h.wf(),
        describes(h, c),
    ensures
        record_match(f, c, h) == f,
{
    let f1 = FailuresV {
        early_return_mismatch: f.early_return_mismatch || c.early_return != h.early_return,
        panicking_mismatch: f.panicking_mismatch || c.panicking != h.panicking,
        ..f
    };
    assert(f1 == f);
    assert forall|i: int| 0 <= i < h.vars.len() implies lookup(c.var_state, (#[trigger] h.vars[i]).0) == Some(h.vars[i].1) by {
        lemma_lookup_at(h.vars, i);
        assert(lookup(h.vars, h.vars[i].0) == lookup(c.var_state, h.vars[i].0));
    }
    lemma_check_vars_clean(f, c, h.vars);
    assert forall|i: int| 0 <= i < c.var_state.len() implies lookup(h.vars, (#[trigger] c.var_state[i]).0) is Some by {
        lemma_lookup_at(c.var_state, i);
        assert(lookup(h.vars, c.var_state[i].0) == lookup(c.var_state, c.var_state[i].0));
    }
    lemma_unchecked_vars_clean(f, c, c.var_state, h.vars);
    lemma_seq_take_all(h.map_state);
    lemma_check_maps_clean(f, c, h, h.map_state);
    assert forall|i: int| 0 <= i < c.map_state.len() implies lookup(h.map_state, (#[trigger] c.map_state[i]).0) is Some || c.map_state[i].1.len() == 0 by {
        let n = c.map_state[i].0;
        lemma_lookup_at(c.map_state, i);
        if lookup(h.map_state, n) is None && c.map_state[i].1.len() > 0 {
            let st = c.map_state[i].1;
            assert(distinct_keys(st));
            lemma_lookup_at(st, 0);
            assert(entries_of(c.map_state, n) == st);
            assert(lookup(entries_of(h.map_state, n), st[0].0) == lookup(entries_of(c.map_state, n), st[0].0));
            assert(entries_of(h.map_state, n) =~= Seq::<(Term, Term)>::empty());
        }
    }
    lemma_unchecked_maps_clean(f, c, c.map_state, h.map_state);
    lemma_seq_take_all(h.map_tombstones);
    lemma_check_tombs_clean(f, c, h, h.map_tombstones);
    assert forall|i: int| 0 <= i < c.map_tombstones.len() implies lookup(h.map_tombstones, (#[trigger] c.map_tombstones[i]).0) is Some by {
        lemma_lookup_at(c.map_tombstones, i);
        assert((lookup(h.map_tombstones, c.map_tombstones[i].0) is Some) == (lookup(c.map_tombstones, c.map_tombstones[i].0) is Some));
    }
    lemma_unchecked_deletes_clean(f, c, c.map_tombstones, h.map_tombstones);
    if h.analyze_write_reachability {
        assert forall|i: int| 0 <= i < c.reachable_var_writes.len() implies h.reachable_var_writes.contains(#[trigger] c.reachable_var_writes[i]) by {
            assert(c.reachable_var_writes.contains(c.reachable_var_writes[i]));
            assert(h.reachable_var_writes.contains(c.reachable_var_writes[i]) == c.reachable_var_writes.contains(c.reachable_var_writes[i]));
        }
        assert forall|i: int| 0 <= i < h.reachable_var_writes.len() implies c.reachable_var_writes.contains(#[trigger] h.reachable_var_writes[i]) by {
            assert(h.reachable_var_writes.contains(h.reachable_var_writes[i]));
            assert(h.reachable_var_writes.contains(h.reachable_var_writes[i]) == c.reachable_var_writes.contains(h.reachable_var_writes[i]));
        }
        assert forall|i: int| 0 <= i < c.reachable_map_writes.len() implies h.reachable_map_writes.contains(#[trigger] c.reachable_map_writes[i]) by {
            assert(c.reachable_map_writes.contains(c.reachable_map_writes[i]));
            assert(h.reachable_map_writes.contains(c.reachable_map_writes[i]) == c.reachable_map_writes.contains(c.reachable_map_writes[i]));
        }
        assert forall|i: int| 0 <= i < h.reachable_map_writes.len() implies c.reachable_map_writes.contains(#[trigger] h.reachable_map_writes[i]) by {
            assert(h.reachable_map_writes.contains(h.reachable_map_writes[i]));
            assert(h.reachable_map_writes.contains(h.reachable_map_writes[i]) == c.reachable_map_writes.contains(h.reachable_map_writes[i]));
        }
        lemma_record_all_clean(f.unchecked_reachable_var_writes, c.predicate, c.reachable_var_writes, h.reachable_var_writes);
        lemma_record_all_clean(f.unmatched_reachable_var_writes, c.predicate, h.reachable_var_writes, c.reachable_var_writes);
        lemma_record_all_clean(f.unchecked_reachable_map_writes, c.predicate, c.reachable_map_writes, h.reachable_map_writes);
        lemma_record_all_clean(f.unmatched_reachable_map_writes, c.predicate, h.reachable_map_writes, c.reachable_map_writes);
    }
}

proof fn lemma_after_halts_paired(conts: Seq<ContinuationV>, halts: Seq<HaltV>, reaches: Seq<Seq<bool>>, n: nat)
    requires
        conts.len() == halts.len(),
        n <= halts.len(),
        forall|i: int| 0 <= i < conts.len() ==> (#[trigger] conts[i]).wf(),
        forall|i: int| 0 <= i < halts.len() ==> (#[trigger] halts[i]).wf(),
        forall|i: int| 0 <= i < halts.len() ==> #[trigger] describes(halts[i], conts[i]),
        forall|i: int| 0 <= i < halts.len() ==> #[trigger] reaches[i][i],
    ensures
        after_halts(conts, halts, reaches, n) == (no_failures(), Seq::new((conts.len() - n) as nat, |i: int| i + n)),
    decreases n,
{
    if n == 0 {
        assert(Seq::new(conts.len(), |i: int| i) =~= Seq::new((conts.len() - 0) as nat, |i: int| i + 0));
    } else {
        let k = n - 1;
        lemma_after_halts_paired(conts, halts, reaches, k as nat);
        let rem = Seq::new((conts.len() - k) as nat, |i: int| i + k);
        assert(rem[0] == k);
        assert(reaches[k][k]);
        assert(first_reached(reaches[k], rem, 0));
        let q = choose|q: int| first_reached(reaches[k], rem, q);
        lemma_first_reached_unique(reaches[k], rem, 0, q);
        assert(claimed(reaches[k], rem) == Some(0int));
        assert(halts[k].wf() && conts[k].wf() && describes(halts[k], conts[k]));
        lemma_record_match_clean(no_failures(), conts[k], halts[k]);
        assert(rem.remove(0) =~= Seq::new((conts.len() - n) as nat, |i: int| i + n));
    }
}

/// A specification whose halting states describe the computed terminating
/// states exactly, one for one and in order, each reaching its own
/// continuation, passes: the report holds no failure.
pub proof fn lemma_exact_specification_passes(conts: Seq<ContinuationV>, halts: Seq<HaltV>, reaches: Seq<Seq<bool>>)
    requires
        conts.len() == halts.len(),
        forall|i: int| 0 <= i < conts.len() ==> (#[trigger] conts[i]).wf(),
        forall|i: int| 0 <= i < halts.len() ==> (#[trigger] halts[i]).wf(),
        forall|i: int| 0 <= i < halts.len() ==> #[trigger] describes(halts[i], conts[i]),
        forall|i: int| 0 <= i < halts.len() ==> #[trigger] reaches[i][i],
    ensures
        failures_empty(checked_failures(conts, halts, reaches)),
{
    lemma_after_halts_paired(conts, halts, reaches, halts.len());
    let rem = Seq::new((conts.len() - halts.len()) as nat, |i: int| i + halts.len());
    assert(rem.len() == 0);
}


/// The incorrect and the missing map writes of `g` include every one of
/// `f`.
pub open spec fn keeps_incorrect(f: FailuresV, g: FailuresV) -> bool {
    &&& forall|x: (ContinuationV, NameV, Term, Term, Term)| #[trigger] f.incorrect_map_writes.contains(x) ==> g.incorrect_map_writes.contains(x)
    &&& forall|x: (ContinuationV, NameV, Term)| #[trigger] f.missing_map_writes.contains(x) ==> g.missing_map_writes.contains(x)
}

proof fn lemma_check_entries_keeps(f: FailuresV, c: ContinuationV, n: NameV, state: Seq<(Term, Term)>, hentries: Seq<(Term, Term)>)
    ensures
        keeps_incorrect(f, check_entries(f, c, n, state, hentries)),
    decreases hentries.len(),
{
    if hentries.len() > 0 {
        let f0 = check_entries(f, c, n, state, hentries.drop_last());
        lemma_check_entries_keeps(f, c, n, state, hentries.drop_last());
        assert forall|x: (ContinuationV, NameV, Term, Term, Term)| #[trigger] f0.incorrect_map_writes.contains(x)
            implies check_entries(f, c, n, state, hentries).incorrect_map_writes.contains(x) by {
            let j = choose|j: int| 0 <= j < f0.incorrect_map_writes.len() && f0.incorrect_map_writes[j] == x;
            let g = check_entries(f, c, n, state, hentries);
            assert(g.incorrect_map_writes[j] == x);
        }
        assert forall|x: (ContinuationV, NameV, Term)| #[trigger] f0.missing_map_writes.contains(x)
            implies check_entries(f, c, n, state, hentries).missing_map_writes.contains(x) by {
            let j = choose|j: int| 0 <= j < f0.missing_map_writes.len() && f0.missing_map_writes[j] == x;
            let g = check_entries(f, c, n, state, hentries);
            assert(g.missing_map_writes[j] == x);
        }
    }
}

proof fn lemma_check_entries_missing_row(f: FailuresV, c: ContinuationV, n: NameV, state: Seq<(Term, Term)>, hentries: Seq<(Term, Term)>, j: int)
    requires
        0 <= j < hentries.len(),
        lookup(state, hentries[j].0) is None,
    ensures
        check_entries(f, c, n, state, hentries).missing_map_writes.contains((c, n, hentries[j].0)),
    decreases hentries.len(),
{
    let row = (c, n, hentries[j].0);
    let f0 = check_entries(f, c, n, state, hentries.drop_last());
    let g = check_entries(f, c, n, state, hentries);
    if j == hentries.len() - 1 {
        assert(g.missing_map_writes == f0.missing_map_writes.push(row));
        assert(g.missing_map_writes[f0.missing_map_writes.len() as int] == row);
    } else {
        assert(hentries.drop_last()[j] == hentries[j]);
        lemma_check_entries_missing_row(f, c, n, state, hentries.drop_last(), j);
        let k = choose|k: int| 0 <= k < f0.missing_map_writes.len() && f0.missing_map_writes[k] == row;
        assert(g.missing_map_writes[k] == row);
    }
}

proof fn lemma_check_maps_missing_row(f: FailuresV, c: ContinuationV, hmaps: Seq<(NameV, Seq<(Term, Term)>)>, m: int, j: int)
    requires
        0 <= m < hmaps.len(),
        0 <= j < hmaps[m].1.len(),
        lookup(entries_of(c.map_state, hmaps[m].0), hmaps[m].1[j].0) is None,
    ensures
        check_maps(f, c, hmaps).missing_map_writes.contains((c, hmaps[m].0, hmaps[m].1[j].0)),
    decreases hmaps.len(),
{
    let row = (c, hmaps[m].0, hmaps[m].1[j].0);
    let f0 = check_maps(f, c, hmaps.drop_last());
    let n = hmaps.last().0;
    let state = entries_of(c.map_state, n);
    let hentries = hmaps.last().1;
    let f1 = check_entries(f0, c, n, state, hentries);
    lemma_unchecked_entries_same(f1, c, n, state, hentries);
    if m == hmaps.len() - 1 {
        lemma_check_entries_missing_row(f0, c, n, state, hentries, j);
    } else {
        assert(hmaps.drop_last()[m] == hmaps[m]);
        lemma_check_maps_missing_row(f, c, hmaps.drop_last(), m, j);
        lemma_check_entries_keeps(f0, c, n, state, hentries);
        assert(f0.missing_map_writes.contains(row));
    }
}

/// A map entry the specification lists but the claimed continuation does
/// not write is reported: when halting state `h` claims continuation `c` and
/// lists key `k` of map `n`, while `c` writes nothing to that key, the
/// report gains the missing map write `(c, n, k)`.
pub proof fn lemma_unwritten_map_entry_reported(f: FailuresV, c: ContinuationV, h: HaltV, m: int, j: int)
    requires
        0 <= m < h.map_state.len(),
        0 <= j < h.map_state[m].1.len(),
        lookup(entries_of(c.map_state, h.map_state[m].0), h.map_state[m].1[j].0) is None,
    ensures
        record_match(f, c, h).missing_map_writes.contains((c, h.map_state[m].0, h.map_state[m].1[j].0)),
{
    let f1 = FailuresV {
        early_return_mismatch: f.early_return_mismatch || c.early_return != h.early_return,
        panicking_mismatch: f.panicking_mismatch || c.panicking != h.panicking,
        ..f
    };
    let f2 = unchecked_vars(check_vars(f1, c, h.vars), c, c.var_state, h.vars);
    lemma_check_maps_missing_row(f2, c, h.map_state, m, j);
    lemma_after_maps_same(check_maps(f2, c, h.map_state), c, h);
}

proof fn lemma_check_entries_row(f: FailuresV, c: ContinuationV, n: NameV, state: Seq<(Term, Term)>, hentries: Seq<(Term, Term)>, j: int, v: Term)
    requires
        0 <= j < hentries.len(),
        lookup(state, hentries[j].0) == Some(v),
        v != hentries[j].1,
    ensures
        check_entries(f, c, n, state, hentries).incorrect_map_writes.contains((c, n, hentries[j].0, v, hentries[j].1)),
    decreases hentries.len(),
{
    let row = (c, n, hentries[j].0, v, hentries[j].1);
    let f0 = check_entries(f, c, n, state, hentries.drop_last());
    let g = check_entries(f, c, n, state, hentries);
    if j == hentries.len() - 1 {
        assert(g.incorrect_map_writes == f0.incorrect_map_writes.push(row));
        assert(g.incorrect_map_writes[f0.incorrect_map_writes.len() as int] == row);
    } else {
        assert(hentries.drop_last()[j] == hentries[j]);
        lemma_check_entries_row(f, c, n, state, hentries.drop_last(), j, v);
        let k = choose|k: int| 0 <= k < f0.incorrect_map_writes.len() && f0.incorrect_map_writes[k] == row;
        assert(g.incorrect_map_writes[k] == row);
    }
}

proof fn lemma_unchecked_entries_same(f: FailuresV, c: ContinuationV, n: NameV, state: Seq<(Term, Term)>, hentries: Seq<(Term, Term)>)
    ensures
        unchecked_entries(f, c, n, state, hentries).incorrect_map_writes == f.incorrect_map_writes,
        unchecked_entries(f, c, n, state, hentries).missing_map_writes == f.missing_map_writes,
    decreases state.len(),
{
    if state.len() > 0 {
        lemma_unchecked_entries_same(f, c, n, state.drop_last(), hentries);
    }
}

proof fn lemma_check_maps_keeps(f: FailuresV, c: ContinuationV, hmaps: Seq<(NameV, Seq<(Term, Term)>)>)
    ensures
        keeps_incorrect(f, check_maps(f, c, hmaps)),
    decreases hmaps.len(),
{
    if hmaps.len() > 0 {
        let f0 = check_maps(f, c, hmaps.drop_last());
        lemma_check_maps_keeps(f, c, hmaps.drop_last());
        let n = hmaps.last().0;
        let state = entries_of(c.map_state, n);
        lemma_check_entries_keeps(f0, c, n, state, hmaps.last().1);
        lemma_unchecked_entries_same(check_entries(f0, c, n, state, hmaps.last().1), c, n, state, hmaps.last().1);
    }
}

proof fn lemma_check_maps_row(f: FailuresV, c: ContinuationV, hmaps: Seq<(NameV, Seq<(Term, Term)>)>, m: int, j: int, v: Term)
    requires
        0 <= m < hmaps.len(),
        0 <= j < hmaps[m].1.len(),
        lookup(entries_of(c.map_state, hmaps[m].0), hmaps[m].1[j].0) == Some(v),
        v != hmaps[m].1[j].1,
    ensures
        check_maps(f, c, hmaps).incorrect_map_writes.contains((c, hmaps[m].0, hmaps[m].1[j].0, v, hmaps[m].1[j].1)),
    decreases hmaps.len(),
{
    let row = (c, hmaps[m].0, hmaps[m].1[j].0, v, hmaps[m].1[j].1);
    let f0 = check_maps(f, c, hmaps.drop_last());
    let n = hmaps.last().0;
    let state = entries_of(c.map_state, n);
    let hentries = hmaps.last().1;
    let f1 = check_entries(f0, c, n, state, hentries);
    lemma_unchecked_entries_same(f1, c, n, state, hentries);
    if m == hmaps.len() - 1 {
        lemma_check_entries_row(f0, c, n, state, hentries, j, v);
    } else {
        assert(hmaps.drop_last()[m] == hmaps[m]);
        lemma_check_maps_row(f, c, hmaps.drop_last(), m, j, v);
        lemma_check_entries_keeps(f0, c, n, state, hentries);
        assert(f0.incorrect_map_writes.contains(row));
    }
}

proof fn lemma_after_maps_same(f: FailuresV, c: ContinuationV, h: HaltV)
    ensures
        ({
            let f4 = unchecked_deletes(check_tombs(unchecked_maps(f, c, c.map_state, h.map_state), c, h.map_tombstones), c, c.map_tombstones, h.map_tombstones);
            &&& check_reach(f4, c, h).incorrect_map_writes == f.incorrect_map_writes
            &&& check_reach(f4, c, h).missing_map_writes == f.missing_map_writes
        }),
{
    lemma_unchecked_maps_same(f, c, c.map_state, h.map_state);
    let f1 = unchecked_maps(f, c, c.map_state, h.map_state);
    lemma_check_tombs_same(f1, c, h.map_tombstones);
    let f2 = check_tombs(f1, c, h.map_tombstones);
    lemma_unchecked_deletes_same(f2, c, c.map_tombstones, h.map_tombstones);
}

proof fn lemma_unchecked_maps_same(f: FailuresV, c: ContinuationV, maps: Seq<(NameV, Seq<(Term, Term)>)>, hmaps: Seq<(NameV, Seq<(Term, Term)>)>)
    ensures
        unchecked_maps(f, c, maps, hmaps).incorrect_map_writes == f.incorrect_map_writes,
        unchecked_maps(f, c, maps, hmaps).missing_map_writes == f.missing_map_writes,
    decreases maps.len(),
{
    if maps.len() > 0 {
        lemma_unchecked_maps_same(f, c, maps.drop_last(), hmaps);
    }
}

proof fn lemma_missing_deletes_same(f: FailuresV, c: ContinuationV, n: NameV, keys: Seq<Term>, hkeys: Seq<Term>)
    ensures
        missing_deletes(f, c, n, keys, hkeys).incorrect_map_writes == f.incorrect_map_writes,
        missing_deletes(f, c, n, keys, hkeys).missing_map_writes == f.missing_map_writes,
    decreases hkeys.len(),
{
    if hkeys.len() > 0 {
        lemma_missing_deletes_same(f, c, n, keys, hkeys.drop_last());
    }
}

proof fn lemma_unlisted_deletes_same(f: FailuresV, c: ContinuationV, n: NameV, keys: Seq<Term>, hkeys: Seq<Term>)
    ensures
        unlisted_deletes(f, c, n, keys, hkeys).incorrect_map_writes == f.incorrect_map_writes,
        unlisted_deletes(f, c, n, keys, hkeys).missing_map_writes == f.missing_map_writes,
    decreases keys.len(),
{
    if keys.len() > 0 {
        lemma_unlisted_deletes_same(f, c, n, keys.drop_last(), hkeys);
    }
}

proof fn lemma_check_tombs_same(f: FailuresV, c: ContinuationV, htombs: Seq<(NameV, Seq<Term>)>)
    ensures
        check_tombs(f, c, htombs).incorrect_map_writes == f.incorrect_map_writes,
        check_tombs(f, c, htombs).missing_map_writes == f.missing_map_writes,
    decreases htombs.len(),
{
    if htombs.len() > 0 {
        let f0 = check_tombs(f, c, htombs.drop_last());
        lemma_check_tombs_same(f, c, htombs.drop_last());
        let n = htombs.last().0;
        let hk = htombs.last().1;
        let keys = keys_of(c.map_tombstones, n);
        lemma_missing_deletes_same(f0, c, n, keys, hk);
        lemma_unlisted_deletes_same(missing_deletes(f0, c, n, keys, hk), c, n, keys, hk);
    }
}

proof fn lemma_unchecked_deletes_same(f: FailuresV, c: ContinuationV, tombs: Seq<(NameV, Seq<Term>)>, htombs: Seq<(NameV, Seq<Term>)>)
    ensures
        unchecked_deletes(f, c, tombs, htombs).incorrect_map_writes == f.incorrect_map_writes,
        unchecked_deletes(f, c, tombs, htombs).missing_map_writes == f.missing_map_writes,
    decreases tombs.len(),
{
    if tombs.len() > 0 {
        lemma_unchecked_deletes_same(f, c, tombs.drop_last(), htombs);
    }
}

/// A map entry the specification gets wrong is reported: when halting state
/// `h` claims continuation `c` and lists, for map `n`, key `k` with value
/// `hv`, while `c` writes `v` to that key and `v` differs from `hv`, the
/// report gains the incorrect map write `(c, n, k, v, hv)`.
pub proof fn lemma_wrong_map_value_reported(f: FailuresV, c: ContinuationV, h: HaltV, m: int, j: int, v: Term)
    requires
        0 <= m < h.map_state.len(),
        0 <= j < h.map_state[m].1.len(),
        lookup(entries_of(c.map_state, h.map_state[m].0), h.map_state[m].1[j].0) == Some(v),
        v != h.map_state[m].1[j].1,
    ensures
        record_match(f, c, h).incorrect_map_writes.contains((c, h.map_state[m].0, h.map_state[m].1[j].0, v, h.map_state[m].1[j].1)),
{
    let f1 = FailuresV {
        early_return_mismatch: f.early_return_mismatch || c.early_return != h.early_return,
        panicking_mismatch: f.panicking_mismatch || c.panicking != h.panicking,
        ..f
    };
    let f2 = unchecked_vars(check_vars(f1, c, h.vars), c, c.var_state, h.vars);
    lemma_check_maps_row(f2, c, h.map_state, m, j, v);
    lemma_after_maps_same(check_maps(f2, c, h.map_state), c, h);
}

/// An empty report means every map entry a halting state lists is written,
/// with the listed value, by the continuation it claims.
pub proof fn lemma_passing_match_agrees_on_maps(f: FailuresV, c: ContinuationV, h: HaltV, m: int, j: int)
    requires
        failures_empty(record_match(f, c, h)),
        0 <= m < h.map_state.len(),
        0 <= j < h.map_state[m].1.len(),
    ensures
        lookup(entries_of(c.map_state, h.map_state[m].0), h.map_state[m].1[j].0) == Some(h.map_state[m].1[j].1),
{
    match lookup(entries_of(c.map_state, h.map_state[m].0), h.map_state[m].1[j].0) {
        Some(v) => {
            if v != h.map_state[m].1[j].1 {
                lemma_wrong_map_value_reported(f, c, h, m, j, v);
            }
        },
        None => {
            lemma_unwritten_map_entry_reported(f, c, h, m, j);
        },
    }
}

} // verus!
