//! The values of the `sym` command line's options, as far as they are read
//! without the Clarity toolchain: budgets, and the parts of dependency and
//! trait-binding arguments.

use vstd::prelude::*;
use crate::text::{chars_of, string_from_chars, concat};
use crate::symop::{FullName, Duplicate};
use crate::state::{NameV, distinct_keys, find_key};
use crate::command::{assoc_insert, assoc_insert_exec, lemma_choose_key};

verus! {

broadcast use vstd::std_specs::vec::group_vec_axioms;

/// The value of the decimal digits `ds`.
pub open spec fn digits_value(ds: Seq<char>) -> nat
    decreases ds.len(),
{
    if ds.len() == 0 {
        0
    } else {
        digits_value(ds.drop_last()) * 10 + ((ds.last() as u32) - ('0' as u32)) as nat
    }
}

pub open spec fn all_digits(ds: Seq<char>) -> bool {
    forall|i: int| 0 <= i < ds.len() ==> '0' <= #[trigger] ds[i] <= '9'
}

/// The digits of a number written with an optional leading `+`.
pub open spec fn unsigned_digits(s: Seq<char>) -> Seq<char> {
    if s.len() > 0 && s[0] == '+' { s.drop_first() } else { s }
}

/// The number `s` denotes as `u64`'s parser reads it: an optional `+`, then
/// at least one decimal digit, with a value that fits in 64 bits.
pub open spec fn u64_of(s: Seq<char>) -> Option<u64> {
    let ds = unsigned_digits(s);
    if ds.len() > 0 && all_digits(ds) && digits_value(ds) <= u64::MAX {
        Some(digits_value(ds) as u64)
    } else {
        None
    }
}

proof fn lemma_digits_value_grows(ds: Seq<char>, n: int)
    requires
        0 <= n <= ds.len(),
        all_digits(ds),
    ensures
        digits_value(ds.take(n)) <= digits_value(ds),
    decreases ds.len() - n,
{
    if n < ds.len() {
        lemma_digits_value_grows(ds, n + 1);
        assert(ds.take(n + 1).drop_last() =~= ds.take(n));
    } else {
        assert(ds.take(n) =~= ds);
    }
}

/// Reads a `u64` as its parser does.
pub fn parse_u64(s: &str) -> (r: Option<u64>)
    ensures
        r == u64_of(s@),
{
    let cs = chars_of(s);
    let start: usize = if cs.len() > 0 && cs[0] == '+' { 1 } else { 0 };
    let ghost ds = unsigned_digits(s@);
    proof {
        if start == 1 {
            assert(ds =~= cs@.subrange(1, cs@.len() as int));
        } else {
            assert(ds =~= cs@.subrange(0, cs@.len() as int));
        }
    }
    if start >= cs.len() {
        return None;
    }
    let mut v: u64 = 0;
    let mut i: usize = start;
    while i < cs.len()
        invariant
            cs@ == s@,
            start <= i <= cs@.len(),
            ds == cs@.subrange(start as int, cs@.len() as int),
            ds == unsigned_digits(s@),
            all_digits(ds.take(i - start)),
            v == digits_value(ds.take(i - start)),
        decreases cs@.len() - i,
    {
        let c = cs[i];
        assert(ds[i - start] == c);
        if c < '0' || c > '9' {
            assert(!all_digits(ds));
            return None;
        }
        let d: u64 = ((c as u32) - ('0' as u32)) as u64;
        proof {
            assert(ds.take(i + 1 - start).drop_last() =~= ds.take(i - start));
            assert(ds.take(i + 1 - start).last() == c);
        }
        if v > (u64::MAX - d) / 10 {
            proof {
                assert(v * 10 + d > u64::MAX) by (nonlinear_arith)
                    requires
                        v > (u64::MAX - d) / 10,
                        d <= 9,
                ;
                assert(all_digits(ds.take(i + 1 - start)));
                if all_digits(ds) {
                    lemma_digits_value_grows(ds, i + 1 - start);
                }
            }
            return None;
        }
        proof {
            assert(v * 10 + d <= u64::MAX) by (nonlinear_arith)
                requires
                    v <= (u64::MAX - d) / 10,
                    d <= 9,
            ;
        }
        v = v * 10 + d;
        i = i + 1;
    }
    assert(ds.take(cs@.len() - start) =~= ds);
    Some(v)
}

/// The seconds `--time-budget` allows, or the default; an error for a
/// value that is not a number.
pub open spec fn time_budget_of(v: Option<Seq<char>>) -> Result<Option<u64>, (i32, Seq<char>)> {
    match v {
        Some(t) => match u64_of(t) {
            Some(n) => Ok(Some(n)),
            None => Err((1, "--time-budget expects seconds, got '"@ + t + "'"@)),
        },
        None => Ok(Some(60)),
    }
}

/// The steps `--max-steps` allows, or the default; an error for a value
/// that is not a number.
pub open spec fn step_budget_of(v: Option<Seq<char>>) -> Result<Option<u64>, (i32, Seq<char>)> {
    match v {
        Some(t) => match u64_of(t) {
            Some(n) => Ok(Some(n)),
            None => Err((1, "--max-steps expects a number, got '"@ + t + "'"@)),
        },
        None => Ok(Some(2000000)),
    }
}

pub open spec fn opt_view(v: Option<String>) -> Option<Seq<char>> {
    match v {
        Some(s) => Some(s@),
        None => None,
    }
}

pub open spec fn reply_view(r: Result<Option<u64>, (i32, String)>) -> Result<Option<u64>, (i32, Seq<char>)> {
    match r {
        Ok(x) => Ok(x),
        Err((c, m)) => Err((c, m@)),
    }
}

pub fn time_budget(v: Option<String>) -> (r: Result<Option<u64>, (i32, String)>)
    ensures
        reply_view(r) == time_budget_of(opt_view(v)),
{
    match v {
        Some(t) => match parse_u64(t.as_str()) {
            Some(n) => Ok(Some(n)),
            None => {
                let m = concat("--time-budget expects seconds, got '", t.as_str());
                Err((1, concat(m.as_str(), "'")))
            },
        },
        None => Ok(Some(60)),
    }
}

pub fn step_budget(v: Option<String>) -> (r: Result<Option<u64>, (i32, String)>)
    ensures
        reply_view(r) == step_budget_of(opt_view(v)),
{
    match v {
        Some(t) => match parse_u64(t.as_str()) {
            Some(n) => Ok(Some(n)),
            None => {
                let m = concat("--max-steps expects a number, got '", t.as_str());
                Err((1, concat(m.as_str(), "'")))
            },
        },
        None => Ok(Some(2000000)),
    }
}

/// The pieces of the first `n` characters of `s` that `sep` ends, and the
/// piece still open.
pub open spec fn split_prefix(s: Seq<char>, sep: char, n: int) -> (Seq<Seq<char>>, Seq<char>)
    decreases n,
{
    if n <= 0 || n > s.len() {
        (Seq::empty(), Seq::empty())
    } else {
        let (done, cur) = split_prefix(s, sep, n - 1);
        if s[n - 1] == sep {
            (done.push(cur), Seq::empty())
        } else {
            (done, cur.push(s[n - 1]))
        }
    }
}

/// The pieces of `s` between occurrences of `sep`.
pub open spec fn pieces(s: Seq<char>, sep: char) -> Seq<Seq<char>> {
    let (done, cur) = split_prefix(s, sep, s.len() as int);
    done.push(cur)
}

/// The pieces of `s` between occurrences of `sep`.
pub fn split_text(s: &str, sep: char) -> (r: Vec<String>)
    ensures
        r.deep_view() == pieces(s@, sep),
{
    let cs = chars_of(s);
    let mut done: Vec<String> = Vec::new();
    let mut cur: Vec<char> = Vec::new();
    let mut i: usize = 0;
    while i < cs.len()
        invariant
            cs@ == s@,
            0 <= i <= cs@.len(),
            (done.deep_view(), cur@) == split_prefix(s@, sep, i as int),
        decreases cs@.len() - i,
    {
        if cs[i] == sep {
            let ghost before = done.deep_view();
            let piece = string_from_chars(cur);
            done.push(piece);
            assert(done.deep_view() =~= before.push(piece@));
            cur = Vec::new();
        } else {
            cur.push(cs[i]);
        }
        i = i + 1;
    }
    let ghost before = done.deep_view();
    let last = string_from_chars(cur);
    done.push(last);
    assert(done.deep_view() =~= before.push(last@));
    done
}

/// A `--dep` argument `CONTRACT_ID:PATH`: the contract id and the path, or
/// the message for a missing path.
pub open spec fn dependency_parts(arg: Seq<char>) -> Result<(Seq<char>, Seq<char>), Seq<char>> {
    let ps = pieces(arg, ':');
    if ps.len() < 2 {
        Err("dependency '"@ + arg + "' missing source file"@)
    } else {
        Ok((ps[0], ps[1]))
    }
}

pub fn split_dependency(arg: &str) -> (r: Result<(String, String), String>)
    ensures
        match r {
            Ok((id, path)) => dependency_parts(arg@) == Ok::<(Seq<char>, Seq<char>), Seq<char>>((id@, path@)),
            Err(m) => dependency_parts(arg@) == Err::<(Seq<char>, Seq<char>), Seq<char>>(m@),
        },
{
    let ps = split_text(arg, ':');
    if ps.len() < 2 {
        let m = concat("dependency '", arg);
        return Err(concat(m.as_str(), "' missing source file"));
    }
    assert(ps.deep_view()[0] == ps@[0]@ && ps.deep_view()[1] == ps@[1]@);
    Ok((ps[0].clone(), ps[1].clone()))
}

/// A `--concretized-trait` argument `VARIABLE:IMPL`: the fully qualified
/// variable and the implementing contract, or why it does not read.
pub open spec fn binding_parts(arg: Seq<char>) -> Result<(Seq<char>, Seq<char>), Seq<char>> {
    let ps = pieces(arg, ':');
    if ps.len() < 2 {
        Err("Failed to parse trait implementation contract from "@ + arg)
    } else if ps.len() > 2 {
        Err("Invalid value "@ + arg + ": too many `:` separators"@)
    } else {
        Ok((ps[0], ps[1]))
    }
}

pub fn split_trait_binding(arg: &str) -> (r: Result<(String, String), String>)
    ensures
        match r {
            Ok((var, imp)) => binding_parts(arg@) == Ok::<(Seq<char>, Seq<char>), Seq<char>>((var@, imp@)),
            Err(m) => binding_parts(arg@) == Err::<(Seq<char>, Seq<char>), Seq<char>>(m@),
        },
{
    let ps = split_text(arg, ':');
    if ps.len() < 2 {
        return Err(concat("Failed to parse trait implementation contract from ", arg));
    }
    if ps.len() > 2 {
        let m = concat("Invalid value ", arg);
        return Err(concat(m.as_str(), ": too many `:` separators"));
    }
    assert(ps.deep_view()[0] == ps@[0]@ && ps.deep_view()[1] == ps@[1]@);
    Ok((ps[0].clone(), ps[1].clone()))
}

/// A fully qualified trait variable `ADDRESS.CONTRACT.FUNCTION.VARIABLE`:
/// its four parts, or the message for the first one missing.
pub open spec fn variable_parts(v: Seq<char>) -> Result<Seq<Seq<char>>, Seq<char>> {
    let ps = pieces(v, '.');
    if ps.len() < 2 {
        Err("Missing contract name in "@ + v)
    } else if ps.len() < 3 {
        Err("Missing function name in "@ + v)
    } else if ps.len() < 4 {
        Err("Missing var name in "@ + v)
    } else {
        Ok(ps.take(4))
    }
}

pub fn split_trait_variable(v: &str) -> (r: Result<Vec<String>, String>)
    ensures
        match r {
            Ok(parts) => variable_parts(v@) == Ok::<Seq<Seq<char>>, Seq<char>>(parts.deep_view()),
            Err(m) => variable_parts(v@) == Err::<Seq<Seq<char>>, Seq<char>>(m@),
        },
{
    let mut ps = split_text(v, '.');
    if ps.len() < 2 {
        return Err(concat("Missing contract name in ", v));
    }
    if ps.len() < 3 {
        return Err(concat("Missing function name in ", v));
    }
    if ps.len() < 4 {
        return Err(concat("Missing var name in ", v));
    }
    ps.truncate(4);
    assert(ps.deep_view() =~= pieces(v@, '.').take(4));
    Ok(ps)
}

/// A `--default-trait` argument `TRAIT_ID:IMPL`: the trait and the
/// implementing contract, or the message for a missing contract.
pub open spec fn default_trait_parts(arg: Seq<char>) -> Result<(Seq<char>, Seq<char>), Seq<char>> {
    let ps = pieces(arg, ':');
    if ps.len() < 2 {
        Err("Missing contract name in `"@ + arg + "`"@)
    } else {
        Ok((ps[0], ps[1]))
    }
}

pub fn split_default_trait(arg: &str) -> (r: Result<(String, String), String>)
    ensures
        match r {
            Ok((t, imp)) => default_trait_parts(arg@) == Ok::<(Seq<char>, Seq<char>), Seq<char>>((t@, imp@)),
            Err(m) => default_trait_parts(arg@) == Err::<(Seq<char>, Seq<char>), Seq<char>>(m@),
        },
{
    let ps = split_text(arg, ':');
    if ps.len() < 2 {
        let m = concat("Missing contract name in `", arg);
        return Err(concat(m.as_str(), "`"));
    }
    assert(ps.deep_view()[0] == ps@[0]@ && ps.deep_view()[1] == ps@[1]@);
    Ok((ps[0].clone(), ps[1].clone()))
}

/// The functions `sym check` checks: the one named as the third argument
/// unless it is an option, or, with `--all` or without a name, every public
/// and read-only function the contract lists (`listed`, or the message of
/// the error that kept it from being listed).
pub open spec fn check_targets_of(third: Option<Seq<char>>, all: bool, listed: Result<Seq<Seq<char>>, Seq<char>>)
    -> Result<Seq<Seq<char>>, (i32, Seq<char>)>
{
    let named = match third {
        Some(t) => if t.len() > 0 && t[0] == '-' { None } else { Some(t) },
        None => None,
    };
    if all || named is None {
        match listed {
            Ok(fs) => if fs.len() > 0 {
                Ok(fs)
            } else {
                Err((1, "No public or read-only functions found to check"@))
            },
            Err(e) => Err((2, "Could not parse contract to list its functions: "@ + e)),
        }
    } else {
        Ok(seq![named->0])
    }
}

/// Whether `sym check` lists the contract's functions: with `--all`, or
/// without a function named as the third argument.
pub open spec fn lists_functions(third: Option<Seq<char>>, all: bool) -> bool {
    all || match third {
        Some(t) => t.len() > 0 && t[0] == '-',
        None => true,
    }
}

pub fn needs_listing(third: Option<&String>, all: bool) -> (r: bool)
    ensures
        r == lists_functions(match third { Some(t) => Some(t@), None => None }, all),
{
    if all {
        return true;
    }
    match third {
        Some(t) => {
            let cs = chars_of(t.as_str());
            cs.len() > 0 && cs[0] == '-'
        },
        None => true,
    }
}

pub fn check_targets(third: Option<&String>, all: bool, listed: Result<Vec<String>, String>)
    -> (r: Result<Vec<String>, (i32, String)>)
    ensures
        ({
            let t = match third { Some(t) => Some(t@), None => None };
            let l = match listed { Ok(fs) => Ok(fs.deep_view()), Err(e) => Err(e@) };
            match r {
                Ok(fs) => check_targets_of(t, all, l) == Ok::<Seq<Seq<char>>, (i32, Seq<char>)>(fs.deep_view()),
                Err((c, m)) => check_targets_of(t, all, l) == Err::<Seq<Seq<char>>, (i32, Seq<char>)>((c, m@)),
            }
        }),
{
    if needs_listing(third, all) {
        match listed {
            Ok(fs) => if fs.len() > 0 {
                Ok(fs)
            } else {
                Err((1, "No public or read-only functions found to check".to_owned()))
            },
            Err(e) => Err((2, concat("Could not parse contract to list its functions: ", e.as_str()))),
        }
    } else {
        let t = match third {
            Some(t) => t.clone(),
            None => String::new(),
        };
        let mut v: Vec<String> = Vec::new();
        v.push(t);
        assert(v.deep_view() =~= seq![v@[0]@]);
        Ok(v)
    }
}

/// The trait bindings given with `--concretized-trait`: for each function,
/// the implementing contract bound to each of its trait variables.
pub struct TraitBindings {
    entries: Vec<(FullName, Vec<(String, String)>)>,
}

pub type BindingsV = Seq<(NameV, Seq<(Seq<char>, Seq<char>)>)>;

/// The bindings after binding variable `var` of function `f` to `imp`.
pub open spec fn bind_in(m: BindingsV, f: NameV, var: Seq<char>, imp: Seq<char>) -> BindingsV {
    if exists|i: int| 0 <= i < m.len() && m[i].0 == f {
        let i = choose|i: int| 0 <= i < m.len() && m[i].0 == f;
        m.update(i, (f, assoc_insert(m[i].1, var, imp)))
    } else {
        m.push((f, seq![(var, imp)]))
    }
}

impl View for TraitBindings {
    type V = BindingsV;

    closed spec fn view(&self) -> BindingsV {
        self.entries.deep_view()
    }
}

impl TraitBindings {
    /// No function and no variable is bound twice.
    pub closed spec fn wf(&self) -> bool {
        &&& distinct_keys(self.entries.deep_view())
        &&& forall|i: int| 0 <= i < self.entries.deep_view().len() ==> distinct_keys(#[trigger] self.entries.deep_view()[i].1)
    }

    pub fn new() -> (r: TraitBindings)
        ensures
            r.wf(),
            r@ == Seq::<(NameV, Seq<(Seq<char>, Seq<char>)>)>::empty(),
    {
        let r = TraitBindings { entries: Vec::new() };
        assert(r.entries.deep_view() =~= Seq::<(NameV, Seq<(Seq<char>, Seq<char>)>)>::empty());
        r
    }

    /// Binds trait variable `var` of function `f` to contract `imp`; a later
    /// binding of the same variable replaces an earlier one.
    pub fn bind(&mut self, f: FullName, var: String, imp: String)
        requires
            old(self).wf(),
        ensures
            final(self).wf(),
            final(self)@ == bind_in(old(self)@, f@, var@, imp@),
    {
        let ghost m0 = self.entries.deep_view();
        match find_key(&self.entries, &f) {
            Some(i) => {
                proof {
                    lemma_choose_key(m0, i as int);
                }
                let mut vars = self.entries[i].1.duplicate();
                assoc_insert_exec(&mut vars, var, imp);
                let ghost vv = vars.deep_view();
                self.entries.set(i, (f, vars));
                assert(self.entries.deep_view() =~= m0.update(i as int, (f@, vv)));
                assert forall|a: int, b: int| 0 <= a < b < self.entries.deep_view().len()
                    implies self.entries.deep_view()[a].0 != self.entries.deep_view()[b].0 by {
                    assert(m0[a].0 != m0[b].0);
                }
                assert forall|j: int| 0 <= j < self.entries.deep_view().len()
                    implies distinct_keys(#[trigger] self.entries.deep_view()[j].1) by {
                    if j != i {
                        assert(self.entries.deep_view()[j] == m0[j]);
                    }
                }
            },
            None => {
                let mut vars: Vec<(String, String)> = Vec::new();
                let ghost pair = (var@, imp@);
                vars.push((var, imp));
                assert(vars.deep_view() =~= seq![pair]);
                let ghost vv = vars.deep_view();
                self.entries.push((f, vars));
                assert(self.entries.deep_view() =~= m0.push((f@, vv)));
                assert forall|j: int| 0 <= j < self.entries.deep_view().len()
                    implies distinct_keys(#[trigger] self.entries.deep_view()[j].1) by {
                    if j < m0.len() {
                        assert(self.entries.deep_view()[j] == m0[j]);
                    }
                }
            },
        }
    }

    /// Every binding: the function, the variable and the implementing
    /// contract, grouped by function.
    pub fn entries(&self) -> (r: &Vec<(FullName, Vec<(String, String)>)>)
        ensures
            r.deep_view() == self@,
    {
        &self.entries
    }
}

} // verus!
