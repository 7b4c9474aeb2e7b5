//! The report of `sym induct`: which invariants and mutators are paired,
//! the line each pair gets, the running tally, and the closing summary with
//! its exit code.

use vstd::prelude::*;
use crate::text::{decimal, decimal_text, concat};
use crate::cli::{Verdict, verdict, all_unsat, pair_verdict, conts_view, usizes, shortened, cuttable, collapse_ws, shorten,
    collapse_whitespace, can_shorten};
use crate::state::{Continuation, ContinuationV};
use crate::symop::predicate_term;
use crate::render::render;
use crate::smt::{Answer, Solver, solver_at, find_solver, args_for, lowercase_of, file_stem_of};

verus! {

broadcast use vstd::std_specs::vec::group_vec_axioms;

/// How the run of one (invariant, mutator) pair ended.
#[derive(Debug, PartialEq)]
pub enum PairOutcome {
    /// The mutator is not defined in the contract.
    NotFound,
    /// No path breaks the invariant.
    Holds,
    /// The solver showed every breaking path infeasible.
    HoldsBySolver,
    /// A path breaks the invariant unconditionally.
    Violated,
    /// A breaking path could not be ruled out; the text of its condition.
    NotProven(String),
    /// The run gave up after this many seconds.
    TimedOut(u64),
    /// The run gave up after this many evaluation steps.
    OutOfSteps(u64),
    /// The engine could not run the pair; why, in one line.
    Failed(String),
}

pub enum PairV {
    NotFound,
    Holds,
    HoldsBySolver,
    Violated,
    NotProven(Seq<char>),
    TimedOut(nat),
    OutOfSteps(nat),
    Failed(Seq<char>),
}

impl View for PairOutcome {
    type V = PairV;

    open spec fn view(&self) -> PairV {
        match self {
            PairOutcome::NotFound => PairV::NotFound,
            PairOutcome::Holds => PairV::Holds,
            PairOutcome::HoldsBySolver => PairV::HoldsBySolver,
            PairOutcome::Violated => PairV::Violated,
            PairOutcome::NotProven(c) => PairV::NotProven(c@),
            PairOutcome::TimedOut(s) => PairV::TimedOut(*s as nat),
            PairOutcome::OutOfSteps(n) => PairV::OutOfSteps(*n as nat),
            PairOutcome::Failed(w) => PairV::Failed(w@),
        }
    }
}

/// The outcome of a pair whose harness ran to the end with verdict `v`;
/// `cond` is the condition of its first breaking path.
pub open spec fn decided(v: Verdict, cond: Seq<char>) -> PairV {
    match v {
        Verdict::Holds => PairV::Holds,
        Verdict::HoldsBySolver => PairV::HoldsBySolver,
        Verdict::Violated => PairV::Violated,
        Verdict::NotProven => PairV::NotProven(cond),
    }
}

/// The outcome of a pair whose harness ran to the end, from its terminating
/// states, the positions of those that break the invariant, and the
/// solver's answers for their conditions when a solver is at hand.
pub fn pair_outcome(conts: &Vec<Continuation>, violations: &Vec<usize>, answers: Option<&Vec<Answer>>) -> (r: PairOutcome)
    requires
        forall|k: int| 0 <= k < violations@.len() ==> violations@[k] < conts@.len(),
    ensures
        ({
            let cs = conts_view(conts@);
            let vs = usizes(violations@);
            let v = verdict(cs, vs, match answers { Some(a) => Some(a@), None => None });
            &&& v == Verdict::NotProven ==> vs.len() > 0
            &&& r@ == decided(v, if vs.len() > 0 { render(predicate_term(cs[vs[0]].predicate)) } else { Seq::empty() })
        }),
{
    let v = pair_verdict(conts, violations, answers);
    match v {
        Verdict::NotProven => {
            let cond = conts[violations[0]].predicate.to_text();
            PairOutcome::NotProven(cond)
        },
        Verdict::Holds => PairOutcome::Holds,
        Verdict::HoldsBySolver => PairOutcome::HoldsBySolver,
        Verdict::Violated => PairOutcome::Violated,
    }
}

/// The counts of the pairs reported so far, and the reasons for skipping
/// that were already spelled out.
pub struct TallyV {
    pub holds: nat,
    pub by_solver: nat,
    pub violated: nat,
    pub unproven: nat,
    pub skipped: nat,
    pub reasons: Set<Seq<char>>,
}

impl TallyV {
    /// The number of pairs reported.
    pub open spec fn total(self) -> nat {
        self.holds + self.violated + self.unproven + self.skipped
    }

    /// The exit code of the whole run: 3 when an invariant is broken, 5
    /// when one could not be shown to hold, 0 otherwise.
    pub open spec fn code(self) -> i32 {
        if self.violated > 0 {
            3
        } else if self.unproven > 0 {
            5
        } else {
            0
        }
    }

    /// The tally after one more pair.
    pub open spec fn after(self, o: PairV) -> TallyV {
        match o {
            PairV::NotFound => TallyV { skipped: self.skipped + 1, ..self },
            PairV::Holds => TallyV { holds: self.holds + 1, ..self },
            PairV::HoldsBySolver => TallyV { holds: self.holds + 1, by_solver: self.by_solver + 1, ..self },
            PairV::Violated => TallyV { violated: self.violated + 1, ..self },
            PairV::NotProven(_) => TallyV { unproven: self.unproven + 1, ..self },
            PairV::TimedOut(_) => TallyV { unproven: self.unproven + 1, ..self },
            PairV::OutOfSteps(_) => TallyV { unproven: self.unproven + 1, ..self },
            PairV::Failed(w) => TallyV { skipped: self.skipped + 1, reasons: self.reasons.insert(w), ..self },
        }
    }
}

/// The report line of a pair.
pub open spec fn pair_line(mutator: Seq<char>, o: PairV, reasons: Set<Seq<char>>) -> Seq<char> {
    match o {
        PairV::NotFound => "  SKIP       "@ + mutator + "  (not found)\n"@,
        PairV::Holds => "  HOLDS      "@ + mutator + "\n"@,
        PairV::HoldsBySolver => "  HOLDS      "@ + mutator + "  (by solver)\n"@,
        PairV::Violated => "  VIOLATED   "@ + mutator + "  (unconditionally)\n"@,
        PairV::NotProven(c) => "  NOT PROVEN "@ + mutator + "  (fails when: "@ + shortened(collapse_ws(c), 160) + ")\n"@,
        PairV::TimedOut(s) => "  UNFINISHED "@ + mutator + "  (gave up after "@ + decimal(s) + "s; raise --time-budget)\n"@,
        PairV::OutOfSteps(n) => "  UNFINISHED "@ + mutator + "  (gave up after "@ + decimal(n)
            + " steps; raise --max-steps)\n"@,
        PairV::Failed(w) => if reasons.contains(w) {
            "  SKIP       "@ + mutator + "\n"@
        } else {
            "  SKIP       "@ + mutator + "  ("@ + w + ")\n"@
        },
    }
}

/// Whether the report line of `o` can be written: the condition of an
/// unproven pair can be cut where a one-line report cuts it.
pub open spec fn reportable(o: PairV) -> bool {
    match o {
        PairV::NotProven(c) => cuttable(collapse_ws(c), 160),
        _ => true,
    }
}

/// The closing summary of `sym induct`.
pub open spec fn footer_text(t: TallyV) -> Seq<char> {
    "\nSummary: "@ + decimal(t.holds) + " holds ("@ + decimal(t.by_solver) + " by solver), "@ + decimal(t.violated)
        + " violated, "@ + decimal(t.unproven) + " not-proven, "@ + decimal(t.skipped) + " skipped\n"@
}

/// The running tally of `sym induct`.
pub struct InductTally {
    holds: u64,
    by_solver: u64,
    violated: u64,
    unproven: u64,
    skipped: u64,
    reasons: Vec<String>,
}

pub open spec fn texts(v: Seq<String>) -> Seq<Seq<char>> {
    v.map_values(|s: String| s@)
}

impl View for InductTally {
    type V = TallyV;

    closed spec fn view(&self) -> TallyV {
        TallyV {
            holds: self.holds as nat,
            by_solver: self.by_solver as nat,
            violated: self.violated as nat,
            unproven: self.unproven as nat,
            skipped: self.skipped as nat,
            reasons: texts(self.reasons@).to_set(),
        }
    }
}

impl InductTally {
    /// The pairs decided by the solver are among those that hold.
    pub closed spec fn wf(&self) -> bool {
        self.by_solver <= self.holds
    }

    /// Whether every count can take one more pair.
    pub closed spec fn roomy(&self) -> bool {
        &&& self.holds < u64::MAX
        &&& self.violated < u64::MAX
        &&& self.unproven < u64::MAX
        &&& self.skipped < u64::MAX
    }

    /// An empty tally.
    pub fn new() -> (t: InductTally)
        ensures
            t.wf(),
            t.roomy(),
            t@ == (TallyV { holds: 0, by_solver: 0, violated: 0, unproven: 0, skipped: 0, reasons: Set::empty() }),
    {
        let t = InductTally { holds: 0, by_solver: 0, violated: 0, unproven: 0, skipped: 0, reasons: Vec::new() };
        assert(texts(t.reasons@).to_set() =~= Set::empty());
        t
    }

    /// Whether every count can take one more pair.
    pub fn has_room(&self) -> (r: bool)
        ensures
            r == self.roomy(),
    {
        self.holds < u64::MAX && self.violated < u64::MAX && self.unproven < u64::MAX && self.skipped < u64::MAX
    }

    fn knows(&self, why: &String) -> (r: bool)
        ensures
            r == self@.reasons.contains(why@),
    {
        let mut i: usize = 0;
        while i < self.reasons.len()
            invariant
                0 <= i <= self.reasons@.len(),
                forall|j: int| 0 <= j < i ==> self.reasons@[j]@ != why@,
            decreases self.reasons@.len() - i,
        {
            if self.reasons[i] == *why {
                proof {
                    assert(texts(self.reasons@)[i as int] == why@);
                }
                return true;
            }
            i = i + 1;
        }
        proof {
            if texts(self.reasons@).to_set().contains(why@) {
                let k = texts(self.reasons@).index_of(why@);
                assert(texts(self.reasons@)[k] == why@);
            }
        }
        false
    }

    /// Counts one more pair and gives its report line.
    pub fn record(&mut self, mutator: &str, o: &PairOutcome) -> (line: String)
        requires
            old(self).wf(),
            old(self).roomy(),
            reportable(o@),
        ensures
            final(self).wf(),
            final(self)@ == old(self)@.after(o@),
            final(self)@.total() == old(self)@.total() + 1,
            line@ == pair_line(mutator@, o@, old(self)@.reasons),
    {
        match o {
            PairOutcome::NotFound => {
                self.skipped = self.skipped + 1;
                concat(concat("  SKIP       ", mutator).as_str(), "  (not found)\n")
            },
            PairOutcome::Holds => {
                self.holds = self.holds + 1;
                concat(concat("  HOLDS      ", mutator).as_str(), "\n")
            },
            PairOutcome::HoldsBySolver => {
                self.holds = self.holds + 1;
                self.by_solver = self.by_solver + 1;
                concat(concat("  HOLDS      ", mutator).as_str(), "  (by solver)\n")
            },
            PairOutcome::Violated => {
                self.violated = self.violated + 1;
                concat(concat("  VIOLATED   ", mutator).as_str(), "  (unconditionally)\n")
            },
            PairOutcome::NotProven(c) => {
                self.unproven = self.unproven + 1;
                let cond = shorten(&collapse_whitespace(c.as_str()), 160);
                let s = concat(concat("  NOT PROVEN ", mutator).as_str(), "  (fails when: ");
                let s = concat(s.as_str(), cond.as_str());
                concat(s.as_str(), ")\n")
            },
            PairOutcome::TimedOut(secs) => {
                self.unproven = self.unproven + 1;
                let s = concat(concat("  UNFINISHED ", mutator).as_str(), "  (gave up after ");
                let s = concat(s.as_str(), decimal_text(*secs as u128).as_str());
                concat(s.as_str(), "s; raise --time-budget)\n")
            },
            PairOutcome::OutOfSteps(steps) => {
                self.unproven = self.unproven + 1;
                let s = concat(concat("  UNFINISHED ", mutator).as_str(), "  (gave up after ");
                let s = concat(s.as_str(), decimal_text(*steps as u128).as_str());
                concat(s.as_str(), " steps; raise --max-steps)\n")
            },
            PairOutcome::Failed(why) => {
                self.skipped = self.skipped + 1;
                if self.knows(why) {
                    assert(old(self)@.reasons.insert(why@) =~= old(self)@.reasons);
                    concat(concat("  SKIP       ", mutator).as_str(), "\n")
                } else {
                    let ghost before = self.reasons@;
                    self.reasons.push(why.clone());
                    proof {
                        assert(texts(self.reasons@) =~= texts(before).push(why@));
                        assert(texts(self.reasons@).to_set() =~= texts(before).to_set().insert(why@)) by {
                            vstd::seq_lib::seq_to_set_distributes_over_add(texts(before), seq![why@]);
                            assert(texts(before).push(why@) =~= texts(before) + seq![why@]);
                            assert(seq![why@].to_set() =~= set![why@]) by {
                                assert forall|x: Seq<char>| seq![why@].to_set().contains(x) implies x == why@ by {
                                    assert(seq![why@].contains(x));
                                }
                                assert(seq![why@][0] == why@);
                            }
                        }
                    }
                    let s = concat(concat("  SKIP       ", mutator).as_str(), "  (");
                    let s = concat(s.as_str(), why.as_str());
                    concat(s.as_str(), ")\n")
                }
            },
        }
    }

    /// The closing summary and the exit code of the run.
    pub fn footer(&self) -> (r: (i32, String))
        ensures
            r.0 == self@.code(),
            r.1@ == footer_text(self@),
    {
        let s = concat("\nSummary: ", decimal_text(self.holds as u128).as_str());
        let s = concat(s.as_str(), " holds (");
        let s = concat(s.as_str(), decimal_text(self.by_solver as u128).as_str());
        let s = concat(s.as_str(), " by solver), ");
        let s = concat(s.as_str(), decimal_text(self.violated as u128).as_str());
        let s = concat(s.as_str(), " violated, ");
        let s = concat(s.as_str(), decimal_text(self.unproven as u128).as_str());
        let s = concat(s.as_str(), " not-proven, ");
        let s = concat(s.as_str(), decimal_text(self.skipped as u128).as_str());
        let s = concat(s.as_str(), " skipped\n");
        let code: i32 = if self.violated > 0 {
            3
        } else if self.unproven > 0 {
            5
        } else {
            0
        };
        (code, s)
    }
}

/// Whether the report line of `o` can be written.
pub fn can_report(o: &PairOutcome) -> (r: bool)
    ensures
        r == reportable(o@),
{
    match o {
        PairOutcome::NotProven(c) => can_shorten(&collapse_whitespace(c.as_str()), 160),
        _ => true,
    }
}

/// A run of `sym induct` ends with exit code 0 exactly when no pair broke
/// its invariant and every pair that ran to the end was shown to hold.
pub proof fn lemma_success_means_every_pair_held(t: TallyV)
    ensures
        t.code() == 0 <==> (t.violated == 0 && t.unproven == 0),
        t.code() != 0 ==> t.total() > 0,
{
}

/// Reporting a pair counts it exactly once: under one heading, and in the
/// total.
pub proof fn lemma_each_pair_counted_once(t: TallyV, o: PairV)
    ensures
        t.after(o).total() == t.total() + 1,
        t.by_solver <= t.holds ==> t.after(o).by_solver <= t.after(o).holds,
        t.after(o).violated >= t.violated,
        t.after(o).unproven >= t.unproven,
{
}

/// A broken invariant is never outweighed: once a pair is violated, the
/// run's exit code is 3 whatever comes after.
pub proof fn lemma_violation_is_final(t: TallyV, o: PairV)
    requires
        t.code() == 3,
    ensures
        t.after(o).code() == 3,
{
}

/// A reason for skipping is spelled out once: the second pair skipped for
/// the same reason gets the short line.
pub proof fn lemma_reason_spelled_out_once(t: TallyV, other: Seq<char>, why: Seq<char>)
    ensures
        pair_line(other, PairV::Failed(why), t.after(PairV::Failed(why)).reasons) == "  SKIP       "@ + other + "\n"@,
{
}

/// A run that gave up, on time or on steps, counts against the proof: the
/// run cannot end with exit code 0 after it.
pub proof fn lemma_unfinished_counts_against(t: TallyV, secs: nat, steps: nat)
    ensures
        t.after(PairV::TimedOut(secs)).code() != 0,
        t.after(PairV::OutOfSteps(steps)).code() != 0,
{
}

/// Consulting an SMT solver never weakens a verdict. A pair that holds, or
/// is violated, keeps that verdict when solver answers are added; a pair
/// that is not proven stays not proven or becomes one that holds by the
/// solver.
pub proof fn lemma_solver_only_strengthens(cs: Seq<ContinuationV>, vs: Seq<int>, a: Seq<Answer>)
    ensures
        verdict(cs, vs, Some(a)) == verdict(cs, vs, None)
            || (verdict(cs, vs, None) == Verdict::NotProven && verdict(cs, vs, Some(a)) == Verdict::HoldsBySolver),
        verdict(cs, vs, None) != Verdict::HoldsBySolver,
{
}

/// The tally after the pairs `outs`, reported in turn from `t`.
pub open spec fn tally_run(t: TallyV, outs: Seq<PairV>) -> TallyV
    decreases outs.len(),
{
    if outs.len() == 0 {
        t
    } else {
        tally_run(t, outs.drop_last()).after(outs.last())
    }
}

/// Outcome `b` is `a`, or `a` left a pair not proven that `b` shows to hold
/// by the solver: what a solver can change in one pair.
pub open spec fn strengthened(a: PairV, b: PairV) -> bool {
    b == a || (a is NotProven && b == PairV::HoldsBySolver)
}

/// Over a whole run, a solver never weakens the result: when each pair's
/// outcome with the solver is its outcome without it or, for a pair not
/// proven, holds by the solver, the run counts as many pairs, as many broken
/// invariants, no more pairs not proven and no fewer that hold; its exit
/// code is 3 exactly when it is without the solver, and 0 whenever it is
/// without the solver.
pub proof fn lemma_solver_run_totals(t: TallyV, without: Seq<PairV>, with: Seq<PairV>)
    requires
        without.len() == with.len(),
        forall|k: int| 0 <= k < with.len() ==> strengthened(#[trigger] without[k], with[k]),
    ensures
        tally_run(t, with).total() == tally_run(t, without).total(),
        tally_run(t, with).violated == tally_run(t, without).violated,
        tally_run(t, with).unproven <= tally_run(t, without).unproven,
        tally_run(t, with).holds >= tally_run(t, without).holds,
        (tally_run(t, with).code() == 3) == (tally_run(t, without).code() == 3),
        tally_run(t, without).code() == 0 ==> tally_run(t, with).code() == 0,
    decreases with.len(),
{
    if with.len() > 0 {
        let n = with.len() - 1;
        assert forall|k: int| 0 <= k < with.drop_last().len() implies strengthened(#[trigger] without.drop_last()[k], with.drop_last()[k]) by {
            assert(strengthened(without[k], with[k]));
        }
        lemma_solver_run_totals(t, without.drop_last(), with.drop_last());
        assert(strengthened(without[n], with[n]));
    }
}

/// Only `unsat` answers count: answers that agree on which paths are
/// `unsat` give the same verdict, so `sat` weighs no more than `unknown`.
pub proof fn lemma_only_unsat_counts(cs: Seq<ContinuationV>, vs: Seq<int>, a: Seq<Answer>, b: Seq<Answer>)
    requires
        a.len() == b.len(),
        forall|k: int| 0 <= k < a.len() ==> (a[k] == Answer::Unsat <==> b[k] == Answer::Unsat),
    ensures
        verdict(cs, vs, Some(a)) == verdict(cs, vs, Some(b)),
{
    if all_unsat(a) {
        assert forall|k: int| 0 <= k < b.len() implies b[k] == Answer::Unsat by {
            assert(a[k] == Answer::Unsat);
        }
    }
    if all_unsat(b) {
        assert forall|k: int| 0 <= k < a.len() implies a[k] == Answer::Unsat by {
            assert(b[k] == Answer::Unsat);
        }
    }
}

/// The opening lines of `sym induct`.
pub open spec fn header_text(contract_id: Seq<char>, engine: Seq<char>) -> Seq<char> {
    "Inductive invariant check for "@ + contract_id + "\n(does each mutator preserve each invariant?)\ndecided by: "@
        + engine + "\n"@
}

pub fn induct_header(contract_id: &str, engine: &str) -> (s: String)
    ensures
        s@ == header_text(contract_id@, engine@),
{
    let s = concat("Inductive invariant check for ", contract_id);
    let s = concat(s.as_str(), "\n(does each mutator preserve each invariant?)\ndecided by: ");
    let s = concat(s.as_str(), engine);
    concat(s.as_str(), "\n")
}

/// What decides the pairs: the simplifier alone, or with the named solver.
pub open spec fn engine_text(solver: Option<Seq<char>>, no_smt: bool) -> Seq<char> {
    match solver {
        Some(p) => "simplifier + "@ + p,
        None => if no_smt {
            "simplifier only (--no-smt)"@
        } else {
            "simplifier only (no SMT solver found; install z3, or pass --solver PATH)"@
        },
    }
}

pub fn engine_description(solver: Option<&str>, no_smt: bool) -> (s: String)
    ensures
        s@ == engine_text(match solver { Some(p) => Some(p@), None => None }, no_smt),
{
    match solver {
        Some(p) => concat("simplifier + ", p),
        None => if no_smt {
            "simplifier only (--no-smt)".to_owned()
        } else {
            "simplifier only (no SMT solver found; install z3, or pass --solver PATH)".to_owned()
        },
    }
}

/// The heading of an invariant's block, with a note when the invariant is
/// not defined in the contract.
pub open spec fn heading_text(inv: Seq<char>, found: bool) -> Seq<char> {
    if found {
        "\n"@ + inv + "\n"@
    } else {
        "\n"@ + inv + "\n  (invariant not found; skipping)\n"@
    }
}

pub fn invariant_heading(inv: &str, found: bool) -> (s: String)
    ensures
        s@ == heading_text(inv@, found),
{
    let s = concat("\n", inv);
    if found {
        concat(s.as_str(), "\n")
    } else {
        concat(s.as_str(), "\n  (invariant not found; skipping)\n")
    }
}

pub open spec fn unrunnable_text(program: Seq<char>) -> Seq<char> {
    "Could not run the SMT solver `"@ + program + "`. Pass a path to an SMT-LIB 2 solver, or --no-smt to check without one."@
}

/// The solver `s` runs `program` with the arguments its name calls for.
pub open spec fn runs_program(s: Solver, program: Seq<char>) -> bool {
    s.program@ == program && s.args.deep_view() == args_for(lowercase_of(file_stem_of(program)))
}

/// The solver `sym induct` uses: none with `--no-smt`; the one `--solver`
/// names, which must run (`override_runs`); else the one the environment
/// names (`env_program`), else z3, else cvc5, whichever runs first.
pub fn induct_solver(no_smt: bool, solver_override: Option<String>, override_runs: bool, env_program: Option<String>,
    z3_runs: bool, cvc5_runs: bool) -> (r: Result<Option<Solver>, (i32, String)>)
    ensures
        no_smt ==> r matches Ok(None),
        !no_smt ==> match solver_override {
            Some(p) => if override_runs {
                r matches Ok(Some(s)) && runs_program(s, p@)
            } else {
                r matches Err((code, msg)) && code == 1 && msg@ == unrunnable_text(p@)
            },
            None => match env_program {
                Some(p) if p@.len() > 0 => r matches Ok(Some(s)) && runs_program(s, p@),
                _ => if z3_runs {
                    r matches Ok(Some(s)) && runs_program(s, "z3"@)
                } else if cvc5_runs {
                    r matches Ok(Some(s)) && runs_program(s, "cvc5"@)
                } else {
                    r matches Ok(None)
                },
            },
        },
{
    if no_smt {
        return Ok(None);
    }
    match solver_override {
        Some(p) => match solver_at(p.as_str(), override_runs) {
            Some(s) => Ok(Some(s)),
            None => {
                let m = concat("Could not run the SMT solver `", p.as_str());
                Err((1, concat(m.as_str(), "`. Pass a path to an SMT-LIB 2 solver, or --no-smt to check without one.")))
            },
        },
        None => Ok(find_solver(env_program, z3_runs, cvc5_runs)),
    }
}

/// The names among the first `n` of `names` that begin with `invariant-`.
pub open spec fn invariant_names(names: Seq<Seq<char>>, n: int) -> Seq<Seq<char>>
    decreases n,
{
    if n <= 0 || n > names.len() {
        Seq::empty()
    } else if names[n - 1].len() >= 10 && names[n - 1].take(10) == "invariant-"@ {
        invariant_names(names, n - 1).push(names[n - 1])
    } else {
        invariant_names(names, n - 1)
    }
}

pub open spec fn no_invariants_text() -> Seq<char> {
    "No invariants to check. Name one with --invariant, or define read-only invariant-* functions."@
}

pub open spec fn no_mutators_text() -> Seq<char> {
    "No mutators to check. Name one with --mutator."@
}

/// The invariants and mutators `sym induct` pairs: those named on the
/// command line, else every read-only function named `invariant-*` and
/// every public function.
pub open spec fn targets(invs: Seq<Seq<char>>, muts: Seq<Seq<char>>, publics: Seq<Seq<char>>, readonlys: Seq<Seq<char>>)
    -> (Seq<Seq<char>>, Seq<Seq<char>>)
{
    (
        if invs.len() == 0 { invariant_names(readonlys, readonlys.len() as int) } else { invs },
        if muts.len() == 0 { publics } else { muts },
    )
}

fn starts_with_invariant(name: &String) -> (r: bool)
    ensures
        r == (name@.len() >= 10 && name@.take(10) == "invariant-"@),
{
    let cs = crate::text::chars_of(name.as_str());
    let p = crate::text::chars_of("invariant-");
    proof {
        reveal_strlit("invariant-");
    }
    if cs.len() < 10 {
        return false;
    }
    let mut i: usize = 0;
    while i < 10
        invariant
            cs@ == name@,
            p@ == "invariant-"@,
            p@.len() == 10,
            cs@.len() >= 10,
            0 <= i <= 10,
            forall|j: int| 0 <= j < i ==> cs@[j] == p@[j],
        decreases 10 - i,
    {
        if cs[i] != p[i] {
            assert(name@.take(10)[i as int] != "invariant-"@[i as int]);
            return false;
        }
        i = i + 1;
    }
    assert(name@.take(10) =~= "invariant-"@);
    true
}

/// Picks the pairs to check, or says why there are none.
pub fn induct_targets(invariants: Vec<String>, mutators: Vec<String>, publics: &Vec<String>, readonlys: &Vec<String>)
    -> (r: Result<(Vec<String>, Vec<String>), (i32, String)>)
    ensures
        ({
            let (i, m) = targets(invariants.deep_view(), mutators.deep_view(), publics.deep_view(), readonlys.deep_view());
            match r {
                Ok((ri, rm)) => i.len() > 0 && m.len() > 0 && ri.deep_view() == i && rm.deep_view() == m,
                Err((code, msg)) => code == 1 && if i.len() == 0 {
                    msg@ == no_invariants_text()
                } else {
                    m.len() == 0 && msg@ == no_mutators_text()
                },
            }
        }),
{
    let invs = if invariants.len() == 0 {
        let mut out: Vec<String> = Vec::new();
        let mut k: usize = 0;
        while k < readonlys.len()
            invariant
                0 <= k <= readonlys@.len(),
                out.deep_view() == invariant_names(readonlys.deep_view(), k as int),
            decreases readonlys@.len() - k,
        {
            if starts_with_invariant(&readonlys[k]) {
                let ghost before = out.deep_view();
                out.push(readonlys[k].clone());
                assert(out.deep_view() =~= before.push(readonlys.deep_view()[k as int]));
            }
            k = k + 1;
        }
        out
    } else {
        invariants
    };
    let muts = if mutators.len() == 0 {
        let mut out: Vec<String> = Vec::new();
        let mut k: usize = 0;
        while k < publics.len()
            invariant
                0 <= k <= publics@.len(),
                out.deep_view() == publics.deep_view().take(k as int),
            decreases publics@.len() - k,
        {
            let ghost before = out.deep_view();
            out.push(publics[k].clone());
            assert(out.deep_view() =~= before.push(publics.deep_view()[k as int]));
            assert(publics.deep_view().take(k + 1) =~= before.push(publics.deep_view()[k as int]));
            k = k + 1;
        }
        assert(publics.deep_view().take(publics@.len() as int) =~= publics.deep_view());
        out
    } else {
        mutators
    };
    if invs.len() == 0 {
        return Err((1, "No invariants to check. Name one with --invariant, or define read-only invariant-* functions.".to_owned()));
    }
    if muts.len() == 0 {
        return Err((1, "No mutators to check. Name one with --mutator.".to_owned()));
    }
    Ok((invs, muts))
}

} // verus!
