//! Interpreting the directives of a `(@clairvoyance ...)` program.
//!
//! A program is a sequence of directives, each a list headed by its name:
//! `test`, `define-symbol`, `halt`, `invariant`, and the top-level state
//! write assertions `map-write`, `var-write` and `map-delete`. Symbols
//! defined by `define-symbol` (also written `define-formula`) are bound, in
//! order, in every expression parsed after them.

use vstd::prelude::*;
use crate::symop::{Same, Duplicate, FullName, Value, ValueV, Sym, OpKind, Head, HeadV, SymOp, Term, terms_of, lemma_terms_of, Predicate, PredicateV};
use crate::state::{NameV, Halt, HaltV, distinct, distinct_keys, lookup, find_key, contains_same, lemma_lookup_at};
use crate::expr::{SymExpr, ExprV, expr_of, exprs_of, lemma_exprs_of};
use crate::decode::{decode, is};
use crate::render::render;
use crate::error::{Error, cause_of};
use crate::text::{concat, decimal, decimal_text};
use crate::contract::{expr_to_text, expr_text};
use crate::matching::entries_of;

verus! {

broadcast use vstd::std_specs::vec::group_vec_axioms;

/// `t` with every symbol named `name` replaced by the named formula `val`.
pub open spec fn bind(t: Term, name: Seq<char>, val: Term) -> Term
    decreases t, 0int,
{
    match t {
        Term::Variable(s) => if s.0 == name {
            Term::Node(HeadV::Labeled(OpKind::Named, name), seq![val])
        } else {
            t
        },
        Term::Node(h, args) => Term::Node(h, bind_args(args, name, val, args.len() as int)),
        _ => t,
    }
}

/// The first `n` operands, each with the symbol bound.
pub open spec fn bind_args(args: Seq<Term>, name: Seq<char>, val: Term, n: int) -> Seq<Term>
    decreases args, n,
{
    if n <= 0 || n > args.len() {
        Seq::empty()
    } else {
        bind_args(args, name, val, n - 1).push(bind(args[n - 1], name, val))
    }
}

proof fn lemma_bind_args_len(args: Seq<Term>, name: Seq<char>, val: Term, n: int)
    requires
        0 <= n <= args.len(),
    ensures
        bind_args(args, name, val, n).len() == n,
    decreases n,
{
    if n > 0 {
        lemma_bind_args_len(args, name, val, n - 1);
    }
}

/// A term read as a predicate: the constants `true` and `false` are the
/// trivial predicates, and any other term is a formula.
pub open spec fn as_predicate(t: Term) -> PredicateV {
    match t {
        Term::Constant(ValueV::Bool(b)) => if b { PredicateV::True } else { PredicateV::False },
        _ => PredicateV::Formula(t),
    }
}

impl SymOp {
    /// This term with every symbol named `name` replaced by the named
    /// formula `val`.
    pub fn bind_symbol(&self, name: &String, val: &SymOp) -> (r: SymOp)
        ensures
            r@ == bind(self@, name@, val@),
        decreases self,
    {
        match self {
            SymOp::Variable(s) => {
                if s.name == *name {
                    let mut args: Vec<SymOp> = Vec::new();
                    args.push(val.duplicate());
                    proof {
                        lemma_terms_of(args@);
                        assert(terms_of(args@) =~= seq![val@]);
                    }
                    SymOp::Node(Head::Labeled(OpKind::Named, name.clone()), args)
                } else {
                    self.duplicate()
                }
            },
            SymOp::Node(h, args) => {
                let ghost ts = terms_of(args@);
                proof {
                    lemma_terms_of(args@);
                }
                let mut out: Vec<SymOp> = Vec::new();
                let mut i: usize = 0;
                while i < args.len()
                    invariant
                        *self == SymOp::Node(*h, *args),
                        ts == terms_of(args@),
                        ts.len() == args@.len(),
                        forall|j: int| 0 <= j < args@.len() ==> #[trigger] ts[j] == args@[j]@,
                        0 <= i <= args@.len(),
                        terms_of(out@) == bind_args(ts, name@, val@, i as int),
                    decreases args@.len() - i,
                {
                    proof {
                        assert(self->Node_1 == *args);
                        assert(decreases_to!(*self => self->Node_1));
                        assert(decreases_to!(*args => args[i as int]));
                    }
                    let b = args[i].bind_symbol(name, val);
                    let ghost before = out@;
                    out.push(b);
                    proof {
                        assert(out@.drop_last() =~= before);
                    }
                    i = i + 1;
                }
                SymOp::Node(h.duplicate(), out)
            },
            _ => self.duplicate(),
        }
    }

    /// This term read as a predicate.
    pub fn as_predicate(self) -> (p: Predicate)
        ensures
            p@ == as_predicate(self@),
    {
        match self {
            SymOp::Constant(Value::Bool(b)) => if b { Predicate::True } else { Predicate::False },
            _ => Predicate::Formula(self),
        }
    }
}

/// `t` with each defined symbol of `defs[..n]` bound in turn.
pub open spec fn bind_all(t: Term, defs: Seq<(Seq<char>, Term)>, n: int) -> Term
    decreases n,
{
    if n <= 0 || n > defs.len() {
        t
    } else {
        bind(bind_all(t, defs, n - 1), defs[n - 1].0, defs[n - 1].1)
    }
}

/// The term an expression denotes, with the defined symbols bound.
pub open spec fn parse(defs: Seq<(Seq<char>, Term)>, e: ExprV) -> Option<Term> {
    match decode(e) {
        Some(t) => Some(bind_all(t, defs, defs.len() as int)),
        None => None,
    }
}

/// The fully qualified name an expression is, if it is one.
pub open spec fn field_name(e: ExprV) -> Option<NameV> {
    match e {
        ExprV::Field(n) => Some(n),
        _ => None,
    }
}

/// The symbols a program has defined so far, in order, with their formulas.
pub struct CommandContext {
    defined_formulae: Vec<(String, SymOp)>,
}

impl View for CommandContext {
    type V = Seq<(Seq<char>, Term)>;

    closed spec fn view(&self) -> Seq<(Seq<char>, Term)> {
        self.defined_formulae.deep_view()
    }
}

impl CommandContext {
    /// A context with no symbol defined.
    pub fn new() -> (r: Self)
        ensures
            r@ == Seq::<(Seq<char>, Term)>::empty(),
    {
        let r = CommandContext { defined_formulae: Vec::new() };
        assert(r@ =~= Seq::<(Seq<char>, Term)>::empty());
        r
    }

    /// Decodes an expression and binds the defined symbols in it.
    pub fn parse_symop(&self, expr: &SymExpr) -> (r: Result<SymOp, Error>)
        ensures
            match r {
                Ok(op) => parse(self@, expr@) == Some(op@),
                Err(e) => parse(self@, expr@) is None && e is Program,
            },
    {
        let mut op = match SymOp::try_from_expr(expr) {
            Ok(op) => op,
            Err(e) => {
                return Err(e);
            },
        };
        let ghost t = op@;
        let mut i: usize = 0;
        while i < self.defined_formulae.len()
            invariant
                0 <= i <= self@.len(),
                self@ == self.defined_formulae.deep_view(),
                op@ == bind_all(t, self@, i as int),
            decreases self@.len() - i,
        {
            op = op.bind_symbol(&self.defined_formulae[i].0, &self.defined_formulae[i].1);
            i = i + 1;
        }
        Ok(op)
    }

    /// Whether `name` is already defined.
    fn defines(&self, name: &String) -> (r: bool)
        ensures
            r == exists|i: int| 0 <= i < self@.len() && self@[i].0 == name@,
    {
        let mut i: usize = 0;
        while i < self.defined_formulae.len()
            invariant
                0 <= i <= self@.len(),
                self@ == self.defined_formulae.deep_view(),
                forall|j: int| 0 <= j < i ==> self@[j].0 != name@,
            decreases self@.len() - i,
        {
            if self.defined_formulae[i].0 == *name {
                assert(self@[i as int].0 == name@);
                return true;
            }
            i = i + 1;
        }
        false
    }
}

/// The fully qualified name an expression is.
pub fn match_fullname(e: &SymExpr) -> (r: Result<FullName, Error>)
    ensures
        match r {
            Ok(n) => field_name(e@) == Some(n@),
            Err(err) => field_name(e@) is None && err is Program,
        },
{
    match e {
        SymExpr::Field(n) => Ok(n.duplicate()),
        other => {
            let m = concat("Fullname `", crate::contract::expr_to_text(other).as_str());
            Err(Error::new_program_error(concat(m.as_str(), "` is not a fully-qualified name")))
        },
    }
}


/// Binds `k` to `v`: replaces the value of `k` if it is bound, else adds
/// the binding at the end.
pub open spec fn assoc_insert<K, V>(l: Seq<(K, V)>, k: K, v: V) -> Seq<(K, V)> {
    if exists|i: int| 0 <= i < l.len() && l[i].0 == k {
        l.update(choose|i: int| 0 <= i < l.len() && l[i].0 == k, (k, v))
    } else {
        l.push((k, v))
    }
}

/// Adds `x` unless it is already present.
pub open spec fn set_insert<T>(s: Seq<T>, x: T) -> Seq<T> {
    if s.contains(x) {
        s
    } else {
        s.push(x)
    }
}

/// Binds key `k` of map `n` to `v`.
pub open spec fn map_insert(m: Seq<(NameV, Seq<(Term, Term)>)>, n: NameV, k: Term, v: Term) -> Seq<(NameV, Seq<(Term, Term)>)> {
    if exists|i: int| 0 <= i < m.len() && m[i].0 == n {
        let i = choose|i: int| 0 <= i < m.len() && m[i].0 == n;
        m.update(i, (n, assoc_insert(m[i].1, k, v)))
    } else {
        m.push((n, seq![(k, v)]))
    }
}

/// Adds key `k` to the keys deleted from map `n`.
pub open spec fn tomb_insert(m: Seq<(NameV, Seq<Term>)>, n: NameV, k: Term) -> Seq<(NameV, Seq<Term>)> {
    if exists|i: int| 0 <= i < m.len() && m[i].0 == n {
        let i = choose|i: int| 0 <= i < m.len() && m[i].0 == n;
        m.update(i, (n, set_insert(m[i].1, k)))
    } else {
        m.push((n, seq![k]))
    }
}

/// Binding a key in an association list with distinct keys gives that key
/// the new value and leaves every other key as it was.
pub proof fn lemma_assoc_insert_lookup<K, V>(l: Seq<(K, V)>, k: K, v: V, k2: K)
    requires
        distinct_keys(l),
    ensures
        distinct_keys(assoc_insert(l, k, v)),
        lookup(assoc_insert(l, k, v), k) == Some(v),
        k2 != k ==> lookup(assoc_insert(l, k, v), k2) == lookup(l, k2),
{
    let r = assoc_insert(l, k, v);
    if exists|i: int| 0 <= i < l.len() && l[i].0 == k {
        let i = choose|i: int| 0 <= i < l.len() && l[i].0 == k;
        assert forall|a: int, b: int| 0 <= a < b < r.len() implies r[a].0 != r[b].0 by {
            assert(l[a].0 != l[b].0);
        }
        lemma_lookup_at(r, i);
        if k2 != k {
            if exists|j: int| 0 <= j < l.len() && l[j].0 == k2 {
                let j = choose|j: int| 0 <= j < l.len() && l[j].0 == k2;
                lemma_lookup_at(l, j);
                assert(r[j] == l[j]);
                lemma_lookup_at(r, j);
            } else {
                assert(!exists|j: int| 0 <= j < r.len() && r[j].0 == k2) by {
                    assert forall|j: int| 0 <= j < r.len() implies r[j].0 != k2 by {
                        if j != i {
                            assert(r[j] == l[j]);
                        }
                    }
                }
            }
        }
    } else {
        assert forall|a: int, b: int| 0 <= a < b < r.len() implies r[a].0 != r[b].0 by {
            if b < l.len() {
                assert(l[a].0 != l[b].0);
            } else {
                assert(r[a] == l[a]);
            }
        }
        lemma_lookup_at(r, l.len() as int);
        if k2 != k {
            if exists|j: int| 0 <= j < l.len() && l[j].0 == k2 {
                let j = choose|j: int| 0 <= j < l.len() && l[j].0 == k2;
                lemma_lookup_at(l, j);
                assert(r[j] == l[j]);
                lemma_lookup_at(r, j);
            } else {
                assert(!exists|j: int| 0 <= j < r.len() && r[j].0 == k2) by {
                    assert forall|j: int| 0 <= j < r.len() implies r[j].0 != k2 by {
                        if j < l.len() {
                            assert(r[j] == l[j]);
                        }
                    }
                }
            }
        }
    }
}

/// A `map-write` binds its key and keeps everything else: after binding key
/// `k` of map `n` to `v`, map `n` gives `v` for `k` and what it gave before
/// for every other key, and every other map is as it was.
pub proof fn lemma_map_insert_binds(m: Seq<(NameV, Seq<(Term, Term)>)>, n: NameV, k: Term, v: Term, n2: NameV, k2: Term)
    requires
        distinct_keys(m),
        forall|i: int| 0 <= i < m.len() ==> distinct_keys(#[trigger] m[i].1),
    ensures
        lookup(entries_of(map_insert(m, n, k, v), n), k) == Some(v),
        k2 != k ==> lookup(entries_of(map_insert(m, n, k, v), n), k2) == lookup(entries_of(m, n), k2),
        n2 != n ==> entries_of(map_insert(m, n, k, v), n2) == entries_of(m, n2),
{
    let r = map_insert(m, n, k, v);
    if exists|i: int| 0 <= i < m.len() && m[i].0 == n {
        let i = choose|i: int| 0 <= i < m.len() && m[i].0 == n;
        assert forall|a: int, b: int| 0 <= a < b < r.len() implies r[a].0 != r[b].0 by {
            assert(m[a].0 != m[b].0);
        }
        lemma_lookup_at(m, i);
        lemma_lookup_at(r, i);
        lemma_assoc_insert_lookup(m[i].1, k, v, k2);
        if n2 != n {
            if exists|j: int| 0 <= j < m.len() && m[j].0 == n2 {
                let j = choose|j: int| 0 <= j < m.len() && m[j].0 == n2;
                lemma_lookup_at(m, j);
                assert(r[j] == m[j]);
                lemma_lookup_at(r, j);
            } else {
                assert(!exists|j: int| 0 <= j < r.len() && r[j].0 == n2) by {
                    assert forall|j: int| 0 <= j < r.len() implies r[j].0 != n2 by {
                        if j != i {
                            assert(r[j] == m[j]);
                        }
                    }
                }
            }
        }
    } else {
        assert forall|a: int, b: int| 0 <= a < b < r.len() implies r[a].0 != r[b].0 by {
            if b < m.len() {
                assert(m[a].0 != m[b].0);
            } else {
                assert(r[a] == m[a]);
            }
        }
        lemma_lookup_at(r, m.len() as int);
        let e: Seq<(Term, Term)> = seq![(k, v)];
        lemma_lookup_at(e, 0);
        assert(entries_of(m, n) == Seq::<(Term, Term)>::empty());
        if k2 != k {
            assert(!exists|j: int| 0 <= j < e.len() && e[j].0 == k2);
        }
        if n2 != n {
            if exists|j: int| 0 <= j < m.len() && m[j].0 == n2 {
                let j = choose|j: int| 0 <= j < m.len() && m[j].0 == n2;
                lemma_lookup_at(m, j);
                assert(r[j] == m[j]);
                lemma_lookup_at(r, j);
            } else {
                assert(!exists|j: int| 0 <= j < r.len() && r[j].0 == n2) by {
                    assert forall|j: int| 0 <= j < r.len() implies r[j].0 != n2 by {
                        if j < m.len() {
                            assert(r[j] == m[j]);
                        }
                    }
                }
            }
        }
    }
}

pub(crate) proof fn lemma_choose_key<K, V>(l: Seq<(K, V)>, i: int)
    requires
        distinct_keys(l),
        0 <= i < l.len(),
    ensures
        (choose|j: int| 0 <= j < l.len() && l[j].0 == l[i].0) == i,
{
    let j = choose|j: int| 0 <= j < l.len() && l[j].0 == l[i].0;
    if j != i {
        if j < i {
            assert(l[j].0 != l[i].0);
        } else {
            assert(l[i].0 != l[j].0);
        }
    }
}

pub(crate) fn assoc_insert_exec<K: Same, V: DeepView>(l: &mut Vec<(K, V)>, k: K, v: V)
    requires
        distinct_keys(old(l).deep_view()),
    ensures
        final(l).deep_view() == assoc_insert(old(l).deep_view(), k.deep_view(), v.deep_view()),
        distinct_keys(final(l).deep_view()),
{
    let ghost l0 = l.deep_view();
    let ghost kv = k.deep_view();
    let ghost vv = v.deep_view();
    match find_key(l, &k) {
        Some(i) => {
            proof {
                lemma_choose_key(l0, i as int);
            }
            l.set(i, (k, v));
            assert(l.deep_view() =~= l0.update(i as int, (kv, vv)));
            assert forall|a: int, b: int| 0 <= a < b < l.deep_view().len() implies l.deep_view()[a].0 != l.deep_view()[b].0 by {
                assert(l0[a].0 != l0[b].0);
            }
        },
        None => {
            l.push((k, v));
            assert(l.deep_view() =~= l0.push((kv, vv)));
        },
    }
}

fn set_insert_exec<T: Same>(s: &mut Vec<T>, x: T)
    requires
        distinct(old(s).deep_view()),
    ensures
        final(s).deep_view() == set_insert(old(s).deep_view(), x.deep_view()),
        distinct(final(s).deep_view()),
{
    let ghost s0 = s.deep_view();
    let ghost xv = x.deep_view();
    if !contains_same(s, &x) {
        s.push(x);
        assert(s.deep_view() =~= s0.push(xv));
    }
}

pub open spec fn entries_wf(m: Seq<(NameV, Seq<(Term, Term)>)>) -> bool {
    &&& distinct_keys(m)
    &&& forall|i: int| 0 <= i < m.len() ==> distinct_keys(#[trigger] m[i].1)
}

pub open spec fn tombs_wf(m: Seq<(NameV, Seq<Term>)>) -> bool {
    &&& distinct_keys(m)
    &&& forall|i: int| 0 <= i < m.len() ==> distinct(#[trigger] m[i].1)
}

fn map_insert_exec(m: &mut Vec<(FullName, Vec<(SymOp, SymOp)>)>, n: FullName, k: SymOp, v: SymOp)
    requires
        entries_wf(old(m).deep_view()),
    ensures
        final(m).deep_view() == map_insert(old(m).deep_view(), n@, k@, v@),
        entries_wf(final(m).deep_view()),
{
    let ghost m0 = m.deep_view();
    match find_key(m, &n) {
        Some(i) => {
            proof {
                lemma_choose_key(m0, i as int);
            }
            let mut entries = m[i].1.duplicate();
            assoc_insert_exec(&mut entries, k, v);
            let ghost ev = entries.deep_view();
            m.set(i, (n, entries));
            assert(m.deep_view() =~= m0.update(i as int, (n@, ev)));
            assert forall|a: int, b: int| 0 <= a < b < m.deep_view().len() implies m.deep_view()[a].0 != m.deep_view()[b].0 by {
                assert(m0[a].0 != m0[b].0);
            }
            assert forall|j: int| 0 <= j < m.deep_view().len() implies distinct_keys(#[trigger] m.deep_view()[j].1) by {
                if j != i {
                    assert(m.deep_view()[j] == m0[j]);
                }
            }
        },
        None => {
            let mut entries: Vec<(SymOp, SymOp)> = Vec::new();
            let ghost kv = (k@, v@);
            entries.push((k, v));
            assert(entries.deep_view() =~= seq![kv]);
            let ghost ev = entries.deep_view();
            m.push((n, entries));
            assert(m.deep_view() =~= m0.push((n@, ev)));
            assert forall|j: int| 0 <= j < m.deep_view().len() implies distinct_keys(#[trigger] m.deep_view()[j].1) by {
                if j < m0.len() {
                    assert(m.deep_view()[j] == m0[j]);
                }
            }
        },
    }
}

fn tomb_insert_exec(m: &mut Vec<(FullName, Vec<SymOp>)>, n: FullName, k: SymOp)
    requires
        tombs_wf(old(m).deep_view()),
    ensures
        final(m).deep_view() == tomb_insert(old(m).deep_view(), n@, k@),
        tombs_wf(final(m).deep_view()),
{
    let ghost m0 = m.deep_view();
    match find_key(m, &n) {
        Some(i) => {
            proof {
                lemma_choose_key(m0, i as int);
            }
            let mut keys = m[i].1.duplicate();
            set_insert_exec(&mut keys, k);
            let ghost kv = keys.deep_view();
            m.set(i, (n, keys));
            assert(m.deep_view() =~= m0.update(i as int, (n@, kv)));
            assert forall|a: int, b: int| 0 <= a < b < m.deep_view().len() implies m.deep_view()[a].0 != m.deep_view()[b].0 by {
                assert(m0[a].0 != m0[b].0);
            }
            assert forall|j: int| 0 <= j < m.deep_view().len() implies distinct(#[trigger] m.deep_view()[j].1) by {
                if j != i {
                    assert(m.deep_view()[j] == m0[j]);
                }
            }
        },
        None => {
            let mut keys: Vec<SymOp> = Vec::new();
            let ghost kv = k@;
            keys.push(k);
            assert(keys.deep_view() =~= seq![kv]);
            let ghost ks = keys.deep_view();
            m.push((n, keys));
            assert(m.deep_view() =~= m0.push((n@, ks)));
            assert forall|j: int| 0 <= j < m.deep_view().len() implies distinct(#[trigger] m.deep_view()[j].1) by {
                if j < m0.len() {
                    assert(m.deep_view()[j] == m0[j]);
                }
            }
        },
    }
}

/// What the directives of a `halt` read so far have given.
pub struct HaltAcc {
    pub formula: Option<Term>,
    pub condition: Option<PredicateV>,
    pub vars: Seq<(NameV, Term)>,
    pub map_state: Seq<(NameV, Seq<(Term, Term)>)>,
    pub map_tombstones: Seq<(NameV, Seq<Term>)>,
    pub reachable_var_reads: Seq<NameV>,
    pub reachable_var_writes: Seq<NameV>,
    pub reachable_map_reads: Seq<NameV>,
    pub reachable_map_writes: Seq<NameV>,
    pub early_return: bool,
    pub panicking: bool,
    pub analyze_write_reachability: bool,
}

pub open spec fn halt_start() -> HaltAcc {
    HaltAcc {
        formula: None,
        condition: None,
        vars: Seq::empty(),
        map_state: Seq::empty(),
        map_tombstones: Seq::empty(),
        reachable_var_reads: Seq::empty(),
        reachable_var_writes: Seq::empty(),
        reachable_map_reads: Seq::empty(),
        reachable_map_writes: Seq::empty(),
        early_return: false,
        panicking: false,
        analyze_write_reachability: false,
    }
}

/// Reads one directive of a `halt`: `(result R)` and `(condition C)` (or
/// `(invariant C)`) once each, `(var-write V X)`, `(map-write M K X)`,
/// `(map-delete M K)`, the four `(reachable-... NAME)` and the three flags
/// `(panicking)`, `(early-return)` and `(analyze-write-reachability)`.
pub open spec fn halt_step(defs: Seq<(Seq<char>, Term)>, acc: HaltAcc, e: ExprV) -> Option<HaltAcc> {
    match e {
        ExprV::List(lv, _) => match lv[0] {
            ExprV::Atom(d, _) => {
                if d == "result"@ {
                    if acc.formula is Some || lv.len() != 2 {
                        None
                    } else {
                        match parse(defs, lv[1]) {
                            Some(t) => Some(HaltAcc { formula: Some(t), ..acc }),
                            None => None,
                        }
                    }
                } else if d == "condition"@ || d == "invariant"@ {
                    if acc.condition is Some || lv.len() != 2 {
                        None
                    } else {
                        match parse(defs, lv[1]) {
                            Some(t) => Some(HaltAcc { condition: Some(as_predicate(t)), ..acc }),
                            None => None,
                        }
                    }
                } else if d == "var-write"@ {
                    if lv.len() != 3 {
                        None
                    } else {
                        match (field_name(lv[1]), parse(defs, lv[2])) {
                            (Some(n), Some(v)) => Some(HaltAcc { vars: assoc_insert(acc.vars, n, v), ..acc }),
                            _ => None,
                        }
                    }
                } else if d == "map-write"@ {
                    if lv.len() != 4 {
                        None
                    } else {
                        match (field_name(lv[1]), parse(defs, lv[2]), parse(defs, lv[3])) {
                            (Some(n), Some(k), Some(v)) => Some(HaltAcc { map_state: map_insert(acc.map_state, n, k, v), ..acc }),
                            _ => None,
                        }
                    }
                } else if d == "map-delete"@ {
                    if lv.len() != 3 {
                        None
                    } else {
                        match (field_name(lv[1]), parse(defs, lv[2])) {
                            (Some(n), Some(k)) => Some(HaltAcc { map_tombstones: tomb_insert(acc.map_tombstones, n, k), ..acc }),
                            _ => None,
                        }
                    }
                } else if d == "reachable-var-read"@ {
                    if lv.len() != 2 {
                        None
                    } else {
                        match field_name(lv[1]) {
                            Some(n) => Some(HaltAcc { reachable_var_reads: set_insert(acc.reachable_var_reads, n), ..acc }),
                            None => None,
                        }
                    }
                } else if d == "reachable-var-write"@ {
                    if lv.len() != 2 {
                        None
                    } else {
                        match field_name(lv[1]) {
                            Some(n) => Some(HaltAcc { reachable_var_writes: set_insert(acc.reachable_var_writes, n), ..acc }),
                            None => None,
                        }
                    }
                } else if d == "reachable-map-read"@ {
                    if lv.len() != 2 {
                        None
                    } else {
                        match field_name(lv[1]) {
                            Some(n) => Some(HaltAcc { reachable_map_reads: set_insert(acc.reachable_map_reads, n), ..acc }),
                            None => None,
                        }
                    }
                } else if d == "reachable-map-write"@ {
                    if lv.len() != 2 {
                        None
                    } else {
                        match field_name(lv[1]) {
                            Some(n) => Some(HaltAcc { reachable_map_writes: set_insert(acc.reachable_map_writes, n), ..acc }),
                            None => None,
                        }
                    }
                } else if d == "panicking"@ {
                    if lv.len() != 1 { None } else { Some(HaltAcc { panicking: true, ..acc }) }
                } else if d == "early-return"@ {
                    if lv.len() != 1 { None } else { Some(HaltAcc { early_return: true, ..acc }) }
                } else if d == "analyze-write-reachability"@ {
                    if lv.len() != 1 { None } else { Some(HaltAcc { analyze_write_reachability: true, ..acc }) }
                } else {
                    None
                }
            },
            _ => None,
        },
        _ => None,
    }
}

/// Reads the first `n` directives of a `halt`.
pub open spec fn halt_fold(defs: Seq<(Seq<char>, Term)>, exprs: Seq<ExprV>, n: int) -> Option<HaltAcc>
    decreases n,
{
    if n <= 0 || n > exprs.len() {
        Some(halt_start())
    } else {
        match halt_fold(defs, exprs, n - 1) {
            Some(acc) => halt_step(defs, acc, exprs[n - 1]),
            None => None,
        }
    }
}

/// The halting state a `halt` command's directives describe: a result and
/// a condition must both be given, and the predicate is left trivially true.
pub open spec fn halt_of(defs: Seq<(Seq<char>, Term)>, exprs: Seq<ExprV>) -> Option<HaltV> {
    match halt_fold(defs, exprs, exprs.len() as int) {
        Some(acc) => match (acc.formula, acc.condition) {
            (Some(f), Some(c)) => Some(HaltV {
                formula: f,
                predicate: PredicateV::True,
                condition: Some(c),
                vars: acc.vars,
                map_state: acc.map_state,
                map_tombstones: acc.map_tombstones,
                reachable_var_reads: acc.reachable_var_reads,
                reachable_var_writes: acc.reachable_var_writes,
                reachable_map_reads: acc.reachable_map_reads,
                reachable_map_writes: acc.reachable_map_writes,
                early_return: acc.early_return,
                panicking: acc.panicking,
                analyze_write_reachability: acc.analyze_write_reachability,
            }),
            _ => None,
        },
        None => None,
    }
}

/// Every directive that is a list has a head.
pub open spec fn lists_headed(exprs: Seq<ExprV>) -> bool {
    forall|i: int| 0 <= i < exprs.len() ==> (#[trigger] exprs[i] matches ExprV::List(lv, _) ==> lv.len() > 0)
}

proof fn lemma_halt_fold_none(defs: Seq<(Seq<char>, Term)>, exprs: Seq<ExprV>, mid: int, to: int)
    requires
        0 < mid <= to <= exprs.len(),
        halt_fold(defs, exprs, mid) is None,
    ensures
        halt_fold(defs, exprs, to) is None,
    decreases to - mid,
{
    if to > mid {
        lemma_halt_fold_none(defs, exprs, mid, to - 1);
    }
}

pub open spec fn opt_term(o: Option<SymOp>) -> Option<Term> {
    match o {
        Some(op) => Some(op@),
        None => None,
    }
}

pub open spec fn opt_pred(o: Option<Predicate>) -> Option<PredicateV> {
    match o {
        Some(p) => Some(p@),
        None => None,
    }
}

/// A program error about expression `i` of a `halt` directive: the text
/// before its number, the number, the text after it, a colon and the
/// expression.
fn halt_error(pre: &str, i: usize, post: &str, e: &SymExpr) -> (r: Error)
    ensures
        r is Program,
{
    let m = concat(pre, decimal_text(i as u128).as_str());
    let m = concat(m.as_str(), post);
    let m = concat(m.as_str(), ": ");
    Error::new_program_error(concat(m.as_str(), expr_to_text(e).as_str()))
}

fn arity_error(i: usize, d: &String, expects: &str, e: &SymExpr) -> (r: Error)
    ensures
        r is Program,
{
    let post = concat(" (directive `", d.as_str());
    let post = concat(post.as_str(), "`) expects ");
    halt_error("List expression #", i, concat(post.as_str(), expects).as_str(), e)
}

fn duplicate_error(i: usize, d: &String, e: &SymExpr) -> (r: Error)
    ensures
        r is Program,
{
    let post = concat(" is a duplicate directive `", d.as_str());
    halt_error("List expression #", i, concat(post.as_str(), "`").as_str(), e)
}

impl Halt {
    /// The halting state that the directives of a `halt` command describe.
    pub fn from_symbolic_expressions(ctx: &CommandContext, exprs: &Vec<SymExpr>) -> (r: Result<Halt, Error>)
        requires
            lists_headed(exprs_of(exprs@)),
        ensures
            match r {
                Ok(h) => halt_of(ctx@, exprs_of(exprs@)) == Some(h@) && h@.wf(),
                Err(e) => halt_of(ctx@, exprs_of(exprs@)) is None && e is Program,
            },
            halt_fold(ctx@, exprs_of(exprs@), exprs@.len() as int) matches Some(acc) ==> {
                &&& acc.formula is None ==> (r matches Err(e) && cause_of(e) == "No `result` directive given"@)
                &&& (acc.formula is Some && acc.condition is None) ==> (r matches Err(e) && cause_of(e) == "No `condition` directive given"@)
            },
    {
        let ghost defs = ctx@;
        let ghost ev = exprs_of(exprs@);
        proof {
            lemma_exprs_of(exprs@);
        }
        let mut formula: Option<SymOp> = None;
        let mut condition: Option<Predicate> = None;
        let mut vars: Vec<(FullName, SymOp)> = Vec::new();
        let mut map_state: Vec<(FullName, Vec<(SymOp, SymOp)>)> = Vec::new();
        let mut map_tombstones: Vec<(FullName, Vec<SymOp>)> = Vec::new();
        let mut reachable_var_reads: Vec<FullName> = Vec::new();
        let mut reachable_var_writes: Vec<FullName> = Vec::new();
        let mut reachable_map_reads: Vec<FullName> = Vec::new();
        let mut reachable_map_writes: Vec<FullName> = Vec::new();
        let mut panicking = false;
        let mut early_return = false;
        let mut analyze_write_reachability = false;
        assert(vars.deep_view() =~= Seq::<(NameV, Term)>::empty());
        assert(map_state.deep_view() =~= Seq::<(NameV, Seq<(Term, Term)>)>::empty());
        assert(map_tombstones.deep_view() =~= Seq::<(NameV, Seq<Term>)>::empty());
        assert(reachable_var_reads.deep_view() =~= Seq::<NameV>::empty());
        assert(reachable_var_writes.deep_view() =~= Seq::<NameV>::empty());
        assert(reachable_map_reads.deep_view() =~= Seq::<NameV>::empty());
        assert(reachable_map_writes.deep_view() =~= Seq::<NameV>::empty());

        let mut i: usize = 0;
        while i < exprs.len()
            invariant
                defs == ctx@,
                ev == exprs_of(exprs@),
                ev.len() == exprs@.len(),
                forall|j: int| 0 <= j < exprs@.len() ==> #[trigger] ev[j] == expr_of(exprs@[j]),
                lists_headed(ev),
                0 <= i <= exprs@.len(),
                halt_fold(defs, ev, i as int) == Some(HaltAcc {
                    formula: opt_term(formula),
                    condition: opt_pred(condition),
                    vars: vars.deep_view(),
                    map_state: map_state.deep_view(),
                    map_tombstones: map_tombstones.deep_view(),
                    reachable_var_reads: reachable_var_reads.deep_view(),
                    reachable_var_writes: reachable_var_writes.deep_view(),
                    reachable_map_reads: reachable_map_reads.deep_view(),
                    reachable_map_writes: reachable_map_writes.deep_view(),
                    early_return,
                    panicking,
                    analyze_write_reachability,
                }),
                distinct_keys(vars.deep_view()),
                entries_wf(map_state.deep_view()),
                tombs_wf(map_tombstones.deep_view()),
                distinct(reachable_var_writes.deep_view()),
                distinct(reachable_map_writes.deep_view()),
                distinct(reachable_var_reads.deep_view()),
                distinct(reachable_map_reads.deep_view()),
            decreases exprs@.len() - i,
        {
            let lv = match &exprs[i] {
                SymExpr::List(lv, _) => lv,
                _ => {
                    proof {
                        lemma_halt_fold_none(defs, ev, i + 1, ev.len() as int);
                    }
                    return Err(halt_error("Expression #", i, " in `halt` is not a list", &exprs[i]));
                },
            };
            proof {
                lemma_exprs_of(lv@);
                assert(ev[i as int] matches ExprV::List(l, _) && l.len() > 0);
            }
            let d = match &lv[0] {
                SymExpr::Atom(d, _) => d,
                _ => {
                    proof {
                        lemma_halt_fold_none(defs, ev, i + 1, ev.len() as int);
                    }
                    return Err(halt_error("List expression #", i, " in `halt` does not start with an atom", &exprs[i]));
                },
            };
            if is(d, "result") {
                if formula.is_some() {
                    proof { lemma_halt_fold_none(defs, ev, i + 1, ev.len() as int); }
                    return Err(duplicate_error(i, d, &exprs[i]));
                }
                if lv.len() != 2 {
                    proof { lemma_halt_fold_none(defs, ev, i + 1, ev.len() as int); }
                    return Err(arity_error(i, d, "1 argument", &exprs[i]));
                }
                match ctx.parse_symop(&lv[1]) {
                    Ok(op) => {
                        formula = Some(op);
                    },
                    Err(e) => {
                        proof { lemma_halt_fold_none(defs, ev, i + 1, ev.len() as int); }
                        return Err(e);
                    },
                }
            } else if is(d, "condition") || is(d, "invariant") {
                if condition.is_some() {
                    proof { lemma_halt_fold_none(defs, ev, i + 1, ev.len() as int); }
                    return Err(duplicate_error(i, d, &exprs[i]));
                }
                if lv.len() != 2 {
                    proof { lemma_halt_fold_none(defs, ev, i + 1, ev.len() as int); }
                    return Err(arity_error(i, d, "1 argument", &exprs[i]));
                }
                match ctx.parse_symop(&lv[1]) {
                    Ok(op) => {
                        condition = Some(op.as_predicate());
                    },
                    Err(e) => {
                        proof { lemma_halt_fold_none(defs, ev, i + 1, ev.len() as int); }
                        return Err(e);
                    },
                }
            } else if is(d, "var-write") {
                if lv.len() != 3 {
                    proof { lemma_halt_fold_none(defs, ev, i + 1, ev.len() as int); }
                    return Err(arity_error(i, d, "2 arguments", &exprs[i]));
                }
                let n = match match_fullname(&lv[1]) {
                    Ok(n) => n,
                    Err(e) => {
                        proof { lemma_halt_fold_none(defs, ev, i + 1, ev.len() as int); }
                        return Err(e);
                    },
                };
                let v = match ctx.parse_symop(&lv[2]) {
                    Ok(v) => v,
                    Err(e) => {
                        proof { lemma_halt_fold_none(defs, ev, i + 1, ev.len() as int); }
                        return Err(e);
                    },
                };
                assoc_insert_exec(&mut vars, n, v);
            } else if is(d, "map-write") {
                if lv.len() != 4 {
                    proof { lemma_halt_fold_none(defs, ev, i + 1, ev.len() as int); }
                    return Err(arity_error(i, d, "3 arguments", &exprs[i]));
                }
                let n = match match_fullname(&lv[1]) {
                    Ok(n) => n,
                    Err(e) => {
                        proof { lemma_halt_fold_none(defs, ev, i + 1, ev.len() as int); }
                        return Err(e);
                    },
                };
                let k = match ctx.parse_symop(&lv[2]) {
                    Ok(k) => k,
                    Err(e) => {
                        proof { lemma_halt_fold_none(defs, ev, i + 1, ev.len() as int); }
                        return Err(e);
                    },
                };
                let v = match ctx.parse_symop(&lv[3]) {
                    Ok(v) => v,
                    Err(e) => {
                        proof { lemma_halt_fold_none(defs, ev, i + 1, ev.len() as int); }
                        return Err(e);
                    },
                };
                map_insert_exec(&mut map_state, n, k, v);
            } else if is(d, "map-delete") {
                if lv.len() != 3 {
                    proof { lemma_halt_fold_none(defs, ev, i + 1, ev.len() as int); }
                    return Err(arity_error(i, d, "2 arguments", &exprs[i]));
                }
                let n = match match_fullname(&lv[1]) {
                    Ok(n) => n,
                    Err(e) => {
                        proof { lemma_halt_fold_none(defs, ev, i + 1, ev.len() as int); }
                        return Err(e);
                    },
                };
                let k = match ctx.parse_symop(&lv[2]) {
                    Ok(k) => k,
                    Err(e) => {
                        proof { lemma_halt_fold_none(defs, ev, i + 1, ev.len() as int); }
                        return Err(e);
                    },
                };
                tomb_insert_exec(&mut map_tombstones, n, k);
            } else if is(d, "reachable-var-read") {
                if lv.len() != 2 {
                    proof { lemma_halt_fold_none(defs, ev, i + 1, ev.len() as int); }
                    return Err(arity_error(i, d, "1 argument", &exprs[i]));
                }
                let n = match match_fullname(&lv[1]) {
                    Ok(n) => n,
                    Err(e) => {
                        proof { lemma_halt_fold_none(defs, ev, i + 1, ev.len() as int); }
                        return Err(e);
                    },
                };
                set_insert_exec(&mut reachable_var_reads, n);
            } else if is(d, "reachable-var-write") {
                if lv.len() != 2 {
                    proof { lemma_halt_fold_none(defs, ev, i + 1, ev.len() as int); }
                    return Err(arity_error(i, d, "1 argument", &exprs[i]));
                }
                let n = match match_fullname(&lv[1]) {
                    Ok(n) => n,
                    Err(e) => {
                        proof { lemma_halt_fold_none(defs, ev, i + 1, ev.len() as int); }
                        return Err(e);
                    },
                };
                set_insert_exec(&mut reachable_var_writes, n);
            } else if is(d, "reachable-map-read") {
                if lv.len() != 2 {
                    proof { lemma_halt_fold_none(defs, ev, i + 1, ev.len() as int); }
                    return Err(arity_error(i, d, "1 argument", &exprs[i]));
                }
                let n = match match_fullname(&lv[1]) {
                    Ok(n) => n,
                    Err(e) => {
                        proof { lemma_halt_fold_none(defs, ev, i + 1, ev.len() as int); }
                        return Err(e);
                    },
                };
                set_insert_exec(&mut reachable_map_reads, n);
            } else if is(d, "reachable-map-write") {
                if lv.len() != 2 {
                    proof { lemma_halt_fold_none(defs, ev, i + 1, ev.len() as int); }
                    return Err(arity_error(i, d, "1 argument", &exprs[i]));
                }
                let n = match match_fullname(&lv[1]) {
                    Ok(n) => n,
                    Err(e) => {
                        proof { lemma_halt_fold_none(defs, ev, i + 1, ev.len() as int); }
                        return Err(e);
                    },
                };
                set_insert_exec(&mut reachable_map_writes, n);
            } else if is(d, "panicking") {
                if lv.len() != 1 {
                    proof { lemma_halt_fold_none(defs, ev, i + 1, ev.len() as int); }
                    return Err(arity_error(i, d, "0 arguments", &exprs[i]));
                }
                panicking = true;
            } else if is(d, "early-return") {
                if lv.len() != 1 {
                    proof { lemma_halt_fold_none(defs, ev, i + 1, ev.len() as int); }
                    return Err(arity_error(i, d, "0 arguments", &exprs[i]));
                }
                early_return = true;
            } else if is(d, "analyze-write-reachability") {
                if lv.len() != 1 {
                    proof { lemma_halt_fold_none(defs, ev, i + 1, ev.len() as int); }
                    return Err(arity_error(i, d, "0 arguments", &exprs[i]));
                }
                analyze_write_reachability = true;
            } else {
                proof { lemma_halt_fold_none(defs, ev, i + 1, ev.len() as int); }
                let m = concat("Unrecognized directive `", d.as_str());
                return Err(halt_error(concat(m.as_str(), "` in list expression #").as_str(), i, "", &exprs[i]));
            }
            i = i + 1;
        }
        let formula = match formula {
            Some(f) => f,
            None => {
                return Err(Error::new_program_error("No `result` directive given".to_owned()));
            },
        };
        let condition = match condition {
            Some(c) => c,
            None => {
                return Err(Error::new_program_error("No `condition` directive given".to_owned()));
            },
        };
        Ok(Halt {
            formula,
            predicate: Predicate::True,
            condition: Some(condition),
            vars,
            map_state,
            map_tombstones,
            reachable_var_reads,
            reachable_var_writes,
            reachable_map_reads,
            reachable_map_writes,
            early_return,
            panicking,
            analyze_write_reachability,
        })
    }
}


/// A directive of a specification program.
#[derive(Debug, PartialEq)]
pub enum Command {
    /// `(test EXPR)`: the expression decoded and rendered back
    Test(String),
    /// `(define-symbol NAME FORMULA)`, also written `(define-formula NAME FORMULA)`
    DefineSymbol(String, SymOp),
    /// `(halt ...)`
    Halt(Halt),
    /// `(invariant RESULT CONCLUSION)`
    Invariant(SymOp, Predicate),
    /// `(map-write RESULT MAP KEY VALUE)`
    MapWrite(SymOp, FullName, SymOp, SymOp),
    /// `(var-write RESULT VAR VALUE)`
    VarWrite(SymOp, FullName, SymOp),
    /// `(map-delete RESULT MAP KEY)`
    MapDelete(SymOp, FullName, SymOp),
}

pub enum CommandV {
    Test(Seq<char>),
    DefineSymbol(Seq<char>, Term),
    Halt(HaltV),
    Invariant(Term, PredicateV),
    MapWrite(Term, NameV, Term, Term),
    VarWrite(Term, NameV, Term),
    MapDelete(Term, NameV, Term),
}

impl View for Command {
    type V = CommandV;

    open spec fn view(&self) -> CommandV {
        match self {
            Command::Test(s) => CommandV::Test(s@),
            Command::DefineSymbol(n, f) => CommandV::DefineSymbol(n@, f@),
            Command::Halt(h) => CommandV::Halt(h@),
            Command::Invariant(f, p) => CommandV::Invariant(f@, p@),
            Command::MapWrite(r, m, k, v) => CommandV::MapWrite(r@, m@, k@, v@),
            Command::VarWrite(r, n, v) => CommandV::VarWrite(r@, n@, v@),
            Command::MapDelete(r, m, k) => CommandV::MapDelete(r@, m@, k@),
        }
    }
}

impl DeepView for Command {
    type V = CommandV;

    open spec fn deep_view(&self) -> CommandV {
        self@
    }
}

/// How reading a directive ends: with a result, with a malformed
/// directive, or with a directive of an unknown name.
pub enum Outcome<T> {
    Done(T),
    Malformed,
    Unknown,
}

/// Whether `name` is among the defined symbols.
pub open spec fn defined(defs: Seq<(Seq<char>, Term)>, name: Seq<char>) -> bool {
    exists|i: int| 0 <= i < defs.len() && defs[i].0 == name
}

/// Reads directive `name` with arguments `args` in context `defs`: the
/// context after it and the command it gives.
pub open spec fn interpret(defs: Seq<(Seq<char>, Term)>, name: Seq<char>, args: Seq<ExprV>) -> Outcome<(Seq<(Seq<char>, Term)>, CommandV)> {
    if name == "test"@ {
        if args.len() != 1 {
            Outcome::Malformed
        } else {
            match decode(args[0]) {
                Some(t) => if render(t) == "\"force-failure!\""@ {
                    Outcome::Malformed
                } else {
                    Outcome::Done((defs, CommandV::Test(render(t))))
                },
                None => Outcome::Malformed,
            }
        }
    } else if is_define(name) {
        if args.len() != 2 {
            Outcome::Malformed
        } else {
            match args[0] {
                ExprV::Atom(n, _) => match parse(defs, args[1]) {
                    Some(f) => if defined(defs, n) {
                        Outcome::Malformed
                    } else {
                        Outcome::Done((defs.push((n, f)), CommandV::DefineSymbol(n, f)))
                    },
                    None => Outcome::Malformed,
                },
                _ => Outcome::Malformed,
            }
        }
    } else if name == "halt"@ {
        match halt_of(defs, args) {
            Some(h) => Outcome::Done((defs, CommandV::Halt(h))),
            None => Outcome::Malformed,
        }
    } else if name == "invariant"@ {
        if args.len() != 2 {
            Outcome::Malformed
        } else {
            match (parse(defs, args[0]), parse(defs, args[1])) {
                (Some(f), Some(c)) => Outcome::Done((defs, CommandV::Invariant(f, as_predicate(c)))),
                _ => Outcome::Malformed,
            }
        }
    } else if name == "map-write"@ {
        if args.len() != 4 {
            Outcome::Malformed
        } else {
            match (parse(defs, args[0]), field_name(args[1]), parse(defs, args[2]), parse(defs, args[3])) {
                (Some(r), Some(m), Some(k), Some(v)) => Outcome::Done((defs, CommandV::MapWrite(r, m, k, v))),
                _ => Outcome::Malformed,
            }
        }
    } else if name == "var-write"@ {
        if args.len() != 3 {
            Outcome::Malformed
        } else {
            match (parse(defs, args[0]), field_name(args[1]), parse(defs, args[2])) {
                (Some(r), Some(n), Some(v)) => Outcome::Done((defs, CommandV::VarWrite(r, n, v))),
                _ => Outcome::Malformed,
            }
        }
    } else if name == "map-delete"@ {
        if args.len() != 3 {
            Outcome::Malformed
        } else {
            match (parse(defs, args[0]), field_name(args[1]), parse(defs, args[2])) {
                (Some(r), Some(m), Some(k)) => Outcome::Done((defs, CommandV::MapDelete(r, m, k))),
                _ => Outcome::Malformed,
            }
        }
    } else {
        Outcome::Unknown
    }
}

/// The error matches how reading ended: a malformed directive is a program
/// error, and an unknown one is reported as not found.
pub open spec fn error_matches<T>(o: Outcome<T>, e: Error) -> bool {
    match o {
        Outcome::Malformed => e is Program,
        Outcome::Unknown => e is NotFound,
        Outcome::Done(_) => false,
    }
}

/// `define-symbol`, or its other name `define-formula`.
pub open spec fn is_define(name: Seq<char>) -> bool {
    name == "define-symbol"@ || name == "define-formula"@
}

/// Directive `name` expects `what` and got `got` arguments.
pub open spec fn count_text(name: Seq<char>, what: Seq<char>, got: nat) -> Seq<char> {
    "`"@ + name + "` expects "@ + what + ", got "@ + decimal(got)
}

/// The cause of the error that reading directive `name` with `args` in
/// context `defs` gives, where the directive itself, and not one of the
/// expressions in it, is at fault: a wrong number of arguments, a `test`
/// forced to fail, a name that is not an atom or is already defined, or an
/// unknown directive.
pub open spec fn directive_cause(defs: Seq<(Seq<char>, Term)>, name: Seq<char>, args: Seq<ExprV>) -> Option<Seq<char>> {
    let n = args.len();
    if name == "test"@ {
        if n != 1 {
            Some(count_text(name, "1 argument"@, n))
        } else {
            match decode(args[0]) {
                Some(t) => if render(t) == "\"force-failure!\""@ {
                    Some("`test` command forced to fail"@)
                } else {
                    None
                },
                None => None,
            }
        }
    } else if is_define(name) {
        if n != 2 {
            Some(count_text(name, "2 arguments"@, n))
        } else {
            match args[0] {
                ExprV::Atom(a, _) => match parse(defs, args[1]) {
                    Some(f) => if defined(defs, a) {
                        Some("Name already used: `"@ + a + "` in `(define-symbol "@ + a + " "@ + render(f) + ")`"@)
                    } else {
                        None
                    },
                    None => None,
                },
                other => Some("`"@ + name + "` expects an atom as its first argument, got "@ + expr_text(other)),
            }
        }
    } else if name == "halt"@ {
        None
    } else if name == "invariant"@ {
        if n != 2 { Some(count_text(name, "2 arguments"@, n)) } else { None }
    } else if name == "map-write"@ {
        if n != 4 { Some(count_text(name, "4 arguments (result map key value)"@, n)) } else { None }
    } else if name == "var-write"@ {
        if n != 3 { Some(count_text(name, "3 arguments (result var value)"@, n)) } else { None }
    } else if name == "map-delete"@ {
        if n != 3 { Some(count_text(name, "3 arguments (result map key)"@, n)) } else { None }
    } else {
        Some("Unrecognized command '"@ + name + "'"@)
    }
}

/// A program error saying that directive `name` expects `what`, with the
/// number of arguments it got.
fn count_error(name: &str, what: &str, got: usize) -> (r: Error)
    ensures
        r matches Error::Program(pe) && pe.cause@ == count_text(name@, what@, got as nat),
{
    let m = concat("`", name);
    let m = concat(m.as_str(), "` expects ");
    let m = concat(m.as_str(), what);
    let m = concat(m.as_str(), ", got ");
    Error::new_program_error(concat(m.as_str(), decimal_text(got as u128).as_str()))
}

impl CommandContext {
    /// Reads directive `command_name` with arguments `exprs`.
    pub fn try_interpret(&mut self, command_name: &String, exprs: &Vec<SymExpr>) -> (r: Result<Command, Error>)
        requires
            command_name@ == "halt"@ ==> lists_headed(exprs_of(exprs@)),
        ensures
            match r {
                Ok(c) => interpret(old(self)@, command_name@, exprs_of(exprs@)) == Outcome::Done((final(self)@, c@)),
                Err(e) => final(self)@ == old(self)@ && error_matches(interpret(old(self)@, command_name@, exprs_of(exprs@)), e),
            },
            directive_cause(old(self)@, command_name@, exprs_of(exprs@)) matches Some(c) ==> (r matches Err(e) && cause_of(e) == c),
    {
        let ghost args = exprs_of(exprs@);
        proof {
            lemma_exprs_of(exprs@);
        }
        if is(command_name, "test") {
            if exprs.len() != 1 {
                return Err(count_error(command_name.as_str(), "1 argument", exprs.len()));
            }
            let op = match SymOp::try_from_expr(&exprs[0]) {
                Ok(op) => op,
                Err(e) => {
                    return Err(e);
                },
            };
            let text = op.to_text();
            if is(&text, "\"force-failure!\"") {
                return Err(Error::new_program_error("`test` command forced to fail".to_owned()));
            }
            Ok(Command::Test(text))
        } else if is(command_name, "define-symbol") || is(command_name, "define-formula") {
            if exprs.len() != 2 {
                return Err(count_error(command_name.as_str(), "2 arguments", exprs.len()));
            }
            let name = match &exprs[0] {
                SymExpr::Atom(n, _) => n,
                other => {
                    let m = concat("`", command_name.as_str());
                    let m = concat(m.as_str(), "` expects an atom as its first argument, got ");
                    let m = concat(m.as_str(), expr_to_text(other).as_str());
                    return Err(Error::new_program_error(m));
                },
            };
            let formula = match self.parse_symop(&exprs[1]) {
                Ok(f) => f,
                Err(e) => {
                    return Err(e);
                },
            };
            if self.defines(name) {
                let f = formula.to_text();
                let m = concat("Name already used: `", name.as_str());
                let m = concat(m.as_str(), "` in `(define-symbol ");
                let m = concat(m.as_str(), name.as_str());
                let m = concat(m.as_str(), " ");
                let m = concat(m.as_str(), f.as_str());
                return Err(Error::new_program_error(concat(m.as_str(), ")`")));
            }
            let ghost d0 = self@;
            self.defined_formulae.push((name.clone(), formula.duplicate()));
            assert(self@ =~= d0.push((name@, formula@)));
            Ok(Command::DefineSymbol(name.clone(), formula))
        } else if is(command_name, "halt") {
            match Halt::from_symbolic_expressions(self, exprs) {
                Ok(h) => Ok(Command::Halt(h)),
                Err(e) => Err(e),
            }
        } else if is(command_name, "invariant") {
            if exprs.len() != 2 {
                return Err(count_error(command_name.as_str(), "2 arguments", exprs.len()));
            }
            let f = match self.parse_symop(&exprs[0]) {
                Ok(f) => f,
                Err(e) => {
                    return Err(e);
                },
            };
            let c = match self.parse_symop(&exprs[1]) {
                Ok(c) => c,
                Err(e) => {
                    return Err(e);
                },
            };
            Ok(Command::Invariant(f, c.as_predicate()))
        } else if is(command_name, "map-write") {
            if exprs.len() != 4 {
                return Err(count_error(command_name.as_str(), "4 arguments (result map key value)", exprs.len()));
            }
            let r = match self.parse_symop(&exprs[0]) {
                Ok(x) => x,
                Err(e) => {
                    return Err(e);
                },
            };
            let m = match match_fullname(&exprs[1]) {
                Ok(x) => x,
                Err(e) => {
                    return Err(e);
                },
            };
            let k = match self.parse_symop(&exprs[2]) {
                Ok(x) => x,
                Err(e) => {
                    return Err(e);
                },
            };
            let v = match self.parse_symop(&exprs[3]) {
                Ok(x) => x,
                Err(e) => {
                    return Err(e);
                },
            };
            Ok(Command::MapWrite(r, m, k, v))
        } else if is(command_name, "var-write") {
            if exprs.len() != 3 {
                return Err(count_error(command_name.as_str(), "3 arguments (result var value)", exprs.len()));
            }
            let r = match self.parse_symop(&exprs[0]) {
                Ok(x) => x,
                Err(e) => {
                    return Err(e);
                },
            };
            let n = match match_fullname(&exprs[1]) {
                Ok(x) => x,
                Err(e) => {
                    return Err(e);
                },
            };
            let v = match self.parse_symop(&exprs[2]) {
                Ok(x) => x,
                Err(e) => {
                    return Err(e);
                },
            };
            Ok(Command::VarWrite(r, n, v))
        } else if is(command_name, "map-delete") {
            if exprs.len() != 3 {
                return Err(count_error(command_name.as_str(), "3 arguments (result map key)", exprs.len()));
            }
            let r = match self.parse_symop(&exprs[0]) {
                Ok(x) => x,
                Err(e) => {
                    return Err(e);
                },
            };
            let m = match match_fullname(&exprs[1]) {
                Ok(x) => x,
                Err(e) => {
                    return Err(e);
                },
            };
            let k = match self.parse_symop(&exprs[2]) {
                Ok(x) => x,
                Err(e) => {
                    return Err(e);
                },
            };
            Ok(Command::MapDelete(r, m, k))
        } else {
            Err(Error::NotFound(concat(concat("Unrecognized command '", command_name.as_str()).as_str(), "'")))
        }
    }
}


/// Reads one directive, a list headed by the directive's name.
pub open spec fn directive(defs: Seq<(Seq<char>, Term)>, e: ExprV) -> Outcome<(Seq<(Seq<char>, Term)>, CommandV)> {
    match e {
        ExprV::List(lv, _) => if lv.len() == 0 {
            Outcome::Malformed
        } else {
            match lv[0] {
                ExprV::Atom(name, _) => interpret(defs, name, lv.skip(1)),
                _ => Outcome::Malformed,
            }
        },
        _ => Outcome::Malformed,
    }
}

/// Reads the first `n` directives of a program in turn, stopping at the
/// first that cannot be read: the context after them and how reading ended.
pub open spec fn run_program(defs: Seq<(Seq<char>, Term)>, exprs: Seq<ExprV>, n: int) -> (Seq<(Seq<char>, Term)>, Outcome<Seq<CommandV>>)
    decreases n,
{
    if n <= 0 || n > exprs.len() {
        (defs, Outcome::Done(Seq::empty()))
    } else {
        let (d, o) = run_program(defs, exprs, n - 1);
        match o {
            Outcome::Done(cmds) => match directive(d, exprs[n - 1]) {
                Outcome::Done((d2, c)) => (d2, Outcome::Done(cmds.push(c))),
                Outcome::Malformed => (d, Outcome::Malformed),
                Outcome::Unknown => (d, Outcome::Unknown),
            },
            Outcome::Malformed => (d, Outcome::Malformed),
            Outcome::Unknown => (d, Outcome::Unknown),
        }
    }
}

/// The cause of the error that reading `e`, directive number `i` of a
/// program, in context `defs` gives, where the directive itself is at
/// fault: it is not a list, is empty, does not start with an atom, or is
/// faulty as `directive_cause` says.
pub open spec fn directive_shape_cause(defs: Seq<(Seq<char>, Term)>, i: nat, e: ExprV) -> Option<Seq<char>> {
    match e {
        ExprV::List(lv, _) => if lv.len() == 0 {
            Some("Directive #"@ + decimal(i) + " is empty"@)
        } else {
            match lv[0] {
                ExprV::Atom(name, _) => directive_cause(defs, name, lv.skip(1)),
                head => Some("Directive #"@ + decimal(i) + " does not start with an atom (got `"@ + expr_text(head) + "` in `"@
                    + expr_text(e) + "`)"@),
            }
        },
        other => Some("Directive #"@ + decimal(i) + " is not a list: "@ + expr_text(other)),
    }
}

proof fn lemma_read_directive_no_cause(defs: Seq<(Seq<char>, Term)>, i: nat, e: ExprV)
    requires
        directive(defs, e) is Done,
    ensures
        directive_shape_cause(defs, i, e) is None,
{
}

/// If `e` is a `halt` directive, every list among its arguments has a head.
pub open spec fn halt_headed(e: ExprV) -> bool {
    match e {
        ExprV::List(lv, _) => lv.len() > 0 ==> match lv[0] {
            ExprV::Atom(n, _) => n == "halt"@ ==> lists_headed(lv.skip(1)),
            _ => true,
        },
        _ => true,
    }
}

/// Every `halt` directive has a head in each list among its arguments.
pub open spec fn halts_headed(exprs: Seq<ExprV>) -> bool {
    forall|i: int| 0 <= i < exprs.len() ==> halt_headed(#[trigger] exprs[i])
}

proof fn lemma_run_program_stops(defs: Seq<(Seq<char>, Term)>, exprs: Seq<ExprV>, mid: int, to: int)
    requires
        0 < mid <= to <= exprs.len(),
        !(run_program(defs, exprs, mid).1 is Done),
    ensures
        run_program(defs, exprs, to) == run_program(defs, exprs, mid),
    decreases to - mid,
{
    if to > mid {
        lemma_run_program_stops(defs, exprs, mid, to - 1);
    }
}

proof fn lemma_fails_at(d0: Seq<(Seq<char>, Term)>, ev: Seq<ExprV>, i: int)
    requires
        0 <= i < ev.len(),
        run_program(d0, ev, i).1 is Done,
        !(run_program(d0, ev, i + 1).1 is Done),
        forall|j: int| 0 <= j < i ==> directive_shape_cause((#[trigger] run_program(d0, ev, j)).0, j as nat, ev[j]) is None,
    ensures
        forall|j: int| 0 <= j < ev.len() && (#[trigger] run_program(d0, ev, j)).1 is Done
            && directive_shape_cause(run_program(d0, ev, j).0, j as nat, ev[j]) is Some ==> j == i,
{
    assert forall|j: int| 0 <= j < ev.len() && (#[trigger] run_program(d0, ev, j)).1 is Done
        && directive_shape_cause(run_program(d0, ev, j).0, j as nat, ev[j]) is Some implies j == i by {
        if j > i {
            lemma_run_program_stops(d0, ev, i + 1, j);
        }
    }
}

impl CommandContext {
    /// Reads the directives of a program in turn, each a list headed by the
    /// directive's name, and gives the commands they describe. Symbols a
    /// directive defines stay defined in this context, also when a later
    /// directive cannot be read.
    pub fn eval_program(&mut self, exprs: &Vec<SymExpr>) -> (r: Result<Vec<Command>, Error>)
        requires
            halts_headed(exprs_of(exprs@)),
        ensures
            ({
                let (d, o) = run_program(old(self)@, exprs_of(exprs@), exprs@.len() as int);
                &&& final(self)@ == d
                &&& match r {
                    Ok(cmds) => o == Outcome::Done(cmds.deep_view()),
                    Err(e) => error_matches(o, e),
                }
            }),
            forall|i: int| 0 <= i < exprs@.len() && (#[trigger] run_program(old(self)@, exprs_of(exprs@), i)).1 is Done
                && directive_shape_cause(run_program(old(self)@, exprs_of(exprs@), i).0, i as nat, exprs_of(exprs@)[i]) is Some
                ==> (r matches Err(e) && cause_of(e) == directive_shape_cause(run_program(old(self)@, exprs_of(exprs@), i).0, i as nat, exprs_of(exprs@)[i])->0),
    {
        let ghost d0 = self@;
        let ghost ev = exprs_of(exprs@);
        proof {
            lemma_exprs_of(exprs@);
        }
        let mut commands: Vec<Command> = Vec::new();
        assert(commands.deep_view() =~= Seq::<CommandV>::empty());
        let mut i: usize = 0;
        while i < exprs.len()
            invariant
                d0 == old(self)@,
                ev == exprs_of(exprs@),
                ev.len() == exprs@.len(),
                forall|j: int| 0 <= j < exprs@.len() ==> #[trigger] ev[j] == expr_of(exprs@[j]),
                halts_headed(ev),
                0 <= i <= exprs@.len(),
                run_program(d0, ev, i as int) == (self@, Outcome::Done(commands.deep_view())),
                forall|j: int| 0 <= j < i ==> directive_shape_cause((#[trigger] run_program(d0, ev, j)).0, j as nat, ev[j]) is None,
            decreases exprs@.len() - i,
        {
            let ghost di = self@;
            let lv = match &exprs[i] {
                SymExpr::List(lv, _) => lv,
                other => {
                    proof {
                        lemma_run_program_stops(d0, ev, i + 1, ev.len() as int);
                        lemma_fails_at(d0, ev, i as int);
                    }
                    let m = concat("Directive #", decimal_text(i as u128).as_str());
                    let m = concat(m.as_str(), " is not a list: ");
                    return Err(Error::new_program_error(concat(m.as_str(), expr_to_text(other).as_str())));
                },
            };
            proof {
                lemma_exprs_of(lv@);
            }
            if lv.len() == 0 {
                proof {
                    lemma_run_program_stops(d0, ev, i + 1, ev.len() as int);
                        lemma_fails_at(d0, ev, i as int);
                }
                let m = concat("Directive #", decimal_text(i as u128).as_str());
                return Err(Error::new_program_error(concat(m.as_str(), " is empty")));
            }
            let name = match &lv[0] {
                SymExpr::Atom(n, _) => n,
                head => {
                    proof {
                        lemma_run_program_stops(d0, ev, i + 1, ev.len() as int);
                        lemma_fails_at(d0, ev, i as int);
                    }
                    let m = concat("Directive #", decimal_text(i as u128).as_str());
                    let m = concat(m.as_str(), " does not start with an atom (got `");
                    let m = concat(m.as_str(), expr_to_text(head).as_str());
                    let m = concat(m.as_str(), "` in `");
                    let m = concat(m.as_str(), expr_to_text(&exprs[i]).as_str());
                    return Err(Error::new_program_error(concat(m.as_str(), "`)")));
                },
            };
            let mut rest: Vec<SymExpr> = Vec::new();
            let mut j: usize = 1;
            while j < lv.len()
                invariant
                    1 <= j <= lv@.len(),
                    rest@.len() == j - 1,
                    forall|q: int| 0 <= q < rest@.len() ==> #[trigger] rest@[q]@ == lv@[q + 1]@,
                decreases lv@.len() - j,
            {
                rest.push(lv[j].duplicate());
                j = j + 1;
            }
            proof {
                lemma_exprs_of(rest@);
                lemma_exprs_of(lv@);
                assert(rest@.len() == lv@.len() - 1);
                assert forall|q: int| 0 <= q < rest@.len() implies exprs_of(rest@)[q] == exprs_of(lv@).skip(1)[q] by {
                    assert(rest@[q]@ == lv@[q + 1]@);
                }
                assert(exprs_of(rest@) =~= exprs_of(lv@).skip(1));
            }
            match self.try_interpret(name, &rest) {
                Ok(c) => {
                    let ghost before = commands.deep_view();
                    commands.push(c);
                    assert(commands.deep_view() =~= before.push(c@));
                },
                Err(e) => {
                    proof {
                        lemma_run_program_stops(d0, ev, i + 1, ev.len() as int);
                        lemma_fails_at(d0, ev, i as int);
                    }
                    return Err(e);
                },
            }
            i = i + 1;
        }
        Ok(commands)
    }
}

/// The parsed programs, each as its directives' views.
pub open spec fn programs_of(ps: Seq<Vec<SymExpr>>) -> Seq<Seq<ExprV>> {
    ps.map_values(|p: Vec<SymExpr>| exprs_of(p@))
}

/// Reads the first `n` programs in turn, each from the context the ones
/// before it left, stopping at the first directive that cannot be read: the
/// context after them and the commands of all of them, in order.
pub open spec fn run_programs(defs: Seq<(Seq<char>, Term)>, progs: Seq<Seq<ExprV>>, n: int) -> (Seq<(Seq<char>, Term)>, Outcome<Seq<CommandV>>)
    decreases n,
{
    if n <= 0 || n > progs.len() {
        (defs, Outcome::Done(Seq::empty()))
    } else {
        let (d, o) = run_programs(defs, progs, n - 1);
        match o {
            Outcome::Done(cmds) => {
                let (d2, o2) = run_program(d, progs[n - 1], progs[n - 1].len() as int);
                match o2 {
                    Outcome::Done(more) => (d2, Outcome::Done(cmds + more)),
                    Outcome::Malformed => (d2, Outcome::Malformed),
                    Outcome::Unknown => (d2, Outcome::Unknown),
                }
            },
            Outcome::Malformed => (d, Outcome::Malformed),
            Outcome::Unknown => (d, Outcome::Unknown),
        }
    }
}

proof fn lemma_run_programs_stops(defs: Seq<(Seq<char>, Term)>, progs: Seq<Seq<ExprV>>, mid: int, to: int)
    requires
        0 < mid <= to <= progs.len(),
        !(run_programs(defs, progs, mid).1 is Done),
    ensures
        run_programs(defs, progs, to) == run_programs(defs, progs, mid),
    decreases to - mid,
{
    if to > mid {
        lemma_run_programs_stops(defs, progs, mid, to - 1);
    }
}

impl CommandContext {
    /// Reads the programs found in the comments before an expression, each
    /// already parsed into its directives, in the order they were written,
    /// and gives the commands of all of them. Symbols one program defines
    /// are defined for the programs after it.
    pub fn eval(&mut self, programs: &Vec<Vec<SymExpr>>) -> (r: Result<Vec<Command>, Error>)
        requires
            forall|i: int| 0 <= i < programs@.len() ==> halts_headed(#[trigger] exprs_of(programs@[i]@)),
        ensures
            ({
                let (d, o) = run_programs(old(self)@, programs_of(programs@), programs@.len() as int);
                &&& final(self)@ == d
                &&& match r {
                    Ok(cmds) => o == Outcome::Done(cmds.deep_view()),
                    Err(e) => error_matches(o, e),
                }
            }),
    {
        let ghost d0 = self@;
        let ghost pv = programs_of(programs@);
        let mut commands: Vec<Command> = Vec::new();
        assert(commands.deep_view() =~= Seq::<CommandV>::empty());
        let mut i: usize = 0;
        while i < programs.len()
            invariant
                d0 == old(self)@,
                pv == programs_of(programs@),
                pv.len() == programs@.len(),
                forall|j: int| 0 <= j < programs@.len() ==> halts_headed(#[trigger] exprs_of(programs@[j]@)),
                0 <= i <= programs@.len(),
                run_programs(d0, pv, i as int) == (self@, Outcome::Done(commands.deep_view())),
            decreases programs@.len() - i,
        {
            proof {
                assert(pv[i as int] == exprs_of(programs@[i as int]@));
                lemma_exprs_of(programs@[i as int]@);
            }
            match self.eval_program(&programs[i]) {
                Ok(more) => {
                    let ghost before = commands.deep_view();
                    let ghost mv = more.deep_view();
                    let mut more = more;
                    commands.append(&mut more);
                    assert(commands.deep_view() =~= before + mv);
                },
                Err(e) => {
                    proof {
                        lemma_run_programs_stops(d0, pv, i + 1, pv.len() as int);
                    }
                    return Err(e);
                },
            }
            i = i + 1;
        }
        Ok(commands)
    }
}

/// The first `n` comments joined by newlines.
pub open spec fn joined_comments(cs: Seq<(Seq<char>, u32)>, n: int) -> Seq<char>
    decreases n,
{
    if n <= 0 || n > cs.len() {
        Seq::empty()
    } else if n == 1 {
        cs[0].0
    } else {
        joined_comments(cs, n - 1) + "\n"@ + cs[n - 1].0
    }
}

pub open spec fn comments_view(v: Seq<(String, u32)>) -> Seq<(Seq<char>, u32)> {
    v.map_values(|c: (String, u32)| (c.0@, c.1))
}

impl CommandContext {
    /// The comments written before an expression, each with the line it
    /// starts on, as one block: their texts joined by newlines, and the
    /// first line any of them starts on; `None` when there is no comment.
    pub fn comment_block(comments: &Vec<(String, u32)>) -> (r: Option<(String, u32)>)
        ensures
            ({
                let cs = comments_view(comments@);
                match r {
                    None => cs.len() == 0,
                    Some((text, line)) => cs.len() > 0 && text@ == joined_comments(cs, cs.len() as int)
                        && (exists|j: int| 0 <= j < cs.len() && cs[j].1 == line)
                        && (forall|j: int| 0 <= j < cs.len() ==> line <= cs[j].1),
                }
            }),
    {
        let ghost cs = comments_view(comments@);
        if comments.len() == 0 {
            return None;
        }
        let mut text = comments[0].0.clone();
        let mut line = comments[0].1;
        let mut i: usize = 1;
        while i < comments.len()
            invariant
                cs == comments_view(comments@),
                cs.len() == comments@.len(),
                1 <= i <= comments@.len(),
                text@ == joined_comments(cs, i as int),
                exists|j: int| 0 <= j < i && cs[j].1 == line,
                forall|j: int| 0 <= j < i ==> line <= cs[j].1,
            decreases comments@.len() - i,
        {
            text.append("\n");
            text.append(comments[i].0.as_str());
            if comments[i].1 < line {
                line = comments[i].1;
            }
            proof {
                assert(cs[i as int] == (comments@[i as int].0@, comments@[i as int].1));
                assert(text@ =~= joined_comments(cs, i + 1));
                assert(exists|j: int| 0 <= j < i + 1 && cs[j].1 == line) by {
                    if line == comments@[i as int].1 {
                        assert(cs[i as int].1 == line);
                    } else {
                        let j = choose|j: int| 0 <= j < i && cs[j].1 == line;
                        assert(cs[j].1 == line);
                    }
                }
            }
            i = i + 1;
        }
        Some((text, line))
    }
}

} // verus!
