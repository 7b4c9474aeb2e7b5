//! Specification commands and halting states written back as the text of a
//! specification program.

use vstd::prelude::*;
use crate::text::{concat, push_str};
use crate::symop::{FullName, SymOp, Term, predicate_term};
use crate::state::{NameV, Halt, HaltV};
use crate::render::{render, name_text, name_to_text};
use crate::command::{Command, CommandV};

verus! {

broadcast use vstd::std_specs::vec::group_vec_axioms;

pub open spec fn var_write_lines(vars: Seq<(NameV, Term)>, n: int) -> Seq<char>
    decreases n,
{
    if n <= 0 || n > vars.len() {
        Seq::empty()
    } else {
        var_write_lines(vars, n - 1) + "  (var-write\n    "@ + name_text(vars[n - 1].0) + "\n    "@ + render(vars[n - 1].1)
            + ")\n"@
    }
}

pub open spec fn entry_lines(map: NameV, entries: Seq<(Term, Term)>, n: int) -> Seq<char>
    decreases n,
{
    if n <= 0 || n > entries.len() {
        Seq::empty()
    } else {
        entry_lines(map, entries, n - 1) + "  (map-write\n    "@ + name_text(map) + "\n      "@ + render(entries[n - 1].0)
            + "\n      "@ + render(entries[n - 1].1) + ")\n"@
    }
}

pub open spec fn map_write_lines(maps: Seq<(NameV, Seq<(Term, Term)>)>, n: int) -> Seq<char>
    decreases n,
{
    if n <= 0 || n > maps.len() {
        Seq::empty()
    } else {
        map_write_lines(maps, n - 1) + entry_lines(maps[n - 1].0, maps[n - 1].1, maps[n - 1].1.len() as int)
    }
}

pub open spec fn key_lines(map: NameV, keys: Seq<Term>, n: int) -> Seq<char>
    decreases n,
{
    if n <= 0 || n > keys.len() {
        Seq::empty()
    } else {
        key_lines(map, keys, n - 1) + "  (map-delete\n    "@ + name_text(map) + "\n    "@ + render(keys[n - 1]) + ")\n"@
    }
}

pub open spec fn map_delete_lines(maps: Seq<(NameV, Seq<Term>)>, n: int) -> Seq<char>
    decreases n,
{
    if n <= 0 || n > maps.len() {
        Seq::empty()
    } else {
        map_delete_lines(maps, n - 1) + key_lines(maps[n - 1].0, maps[n - 1].1, maps[n - 1].1.len() as int)
    }
}

/// One `  (LABEL name)` line for each of the first `n` names.
pub open spec fn labeled_names(label: Seq<char>, names: Seq<NameV>, n: int) -> Seq<char>
    decreases n,
{
    if n <= 0 || n > names.len() {
        Seq::empty()
    } else {
        labeled_names(label, names, n - 1) + "  ("@ + label + " "@ + name_text(names[n - 1]) + ")\n"@
    }
}

/// The opening of a `(halt ...)` form: its formula, and its condition (or,
/// without one, its predicate).
pub open spec fn halt_head(h: HaltV) -> Seq<char> {
    "(halt\n  (formula "@ + render(h.formula) + ")\n"@
    + (match h.condition {
        Some(c) => "  (condition "@ + render(predicate_term(c)) + ")\n"@,
        None => "  (predicate "@ + render(predicate_term(h.predicate)) + ")\n"@,
    })
}

/// The writes and deletes a halting state lists.
pub open spec fn halt_writes(h: HaltV) -> Seq<char> {
    var_write_lines(h.vars, h.vars.len() as int)
    + map_write_lines(h.map_state, h.map_state.len() as int)
    + map_delete_lines(h.map_tombstones, h.map_tombstones.len() as int)
}

/// The variables and maps a halting state may reach.
pub open spec fn halt_reach(h: HaltV) -> Seq<char> {
    labeled_names("reachable-var-read"@, h.reachable_var_reads, h.reachable_var_reads.len() as int)
    + labeled_names("reachable-var-write"@, h.reachable_var_writes, h.reachable_var_writes.len() as int)
    + labeled_names("reachable-map-read"@, h.reachable_map_reads, h.reachable_map_reads.len() as int)
    + labeled_names("reachable-map-write"@, h.reachable_map_writes, h.reachable_map_writes.len() as int)
}

/// A halting state as a `(halt ...)` form: its formula, its condition (or,
/// without one, its predicate), its writes and deletes, and the variables
/// and maps it may reach.
pub open spec fn halt_text(h: HaltV) -> Seq<char> {
    halt_head(h) + halt_writes(h) + halt_reach(h) + ")"@
}

/// A command as the form that states it.
pub open spec fn command_text(c: CommandV) -> Seq<char> {
    match c {
        CommandV::Test(msg) => "(test \""@ + msg + "\")"@,
        CommandV::DefineSymbol(name, op) => "(define-symbol "@ + name + " "@ + render(op) + ")"@,
        CommandV::Halt(h) => halt_text(h),
        CommandV::Invariant(formula, pred) => "(invariant "@ + render(formula) + " "@ + render(predicate_term(pred)) + ")"@,
        CommandV::MapWrite(result, map, key, value) => "(map-write "@ + render(result) + " "@ + name_text(map) + " "@
            + render(key) + " "@ + render(value) + ")"@,
        CommandV::VarWrite(result, var, value) => "(var-write "@ + render(result) + " "@ + name_text(var) + " "@
            + render(value) + ")"@,
        CommandV::MapDelete(result, map, key) => "(map-delete "@ + render(result) + " "@ + name_text(map) + " "@
            + render(key) + ")"@,
    }
}

fn var_writes_text(out: &mut String, vars: &Vec<(FullName, SymOp)>)
    ensures
        final(out)@ == old(out)@ + var_write_lines(vars.deep_view(), vars@.len() as int),
{
    let ghost start = out@;
    let ghost vv = vars.deep_view();
    let mut i: usize = 0;
    while i < vars.len()
        invariant
            vv == vars.deep_view(),
            0 <= i <= vars@.len(),
            out@ == start + var_write_lines(vv, i as int),
        decreases vars@.len() - i,
    {
        let (n, v) = &vars[i];
        push_str(out, "  (var-write\n    ");
        push_str(out, name_to_text(n).as_str());
        push_str(out, "\n    ");
        push_str(out, v.to_text().as_str());
        push_str(out, ")\n");
        proof {
            assert(out@ =~= start + var_write_lines(vv, i + 1));
        }
        i = i + 1;
    }
}

fn entries_text(out: &mut String, map: &FullName, entries: &Vec<(SymOp, SymOp)>)
    ensures
        final(out)@ == old(out)@ + entry_lines(map@, entries.deep_view(), entries@.len() as int),
{
    let ghost start = out@;
    let ghost ev = entries.deep_view();
    let name = name_to_text(map);
    let mut i: usize = 0;
    while i < entries.len()
        invariant
            ev == entries.deep_view(),
            name@ == name_text(map@),
            0 <= i <= entries@.len(),
            out@ == start + entry_lines(map@, ev, i as int),
        decreases entries@.len() - i,
    {
        let (k, v) = &entries[i];
        push_str(out, "  (map-write\n    ");
        push_str(out, name.as_str());
        push_str(out, "\n      ");
        push_str(out, k.to_text().as_str());
        push_str(out, "\n      ");
        push_str(out, v.to_text().as_str());
        push_str(out, ")\n");
        proof {
            assert(out@ =~= start + entry_lines(map@, ev, i + 1));
        }
        i = i + 1;
    }
}

fn map_writes_text(out: &mut String, maps: &Vec<(FullName, Vec<(SymOp, SymOp)>)>)
    ensures
        final(out)@ == old(out)@ + map_write_lines(maps.deep_view(), maps@.len() as int),
{
    let ghost start = out@;
    let ghost mv = maps.deep_view();
    let mut i: usize = 0;
    while i < maps.len()
        invariant
            mv == maps.deep_view(),
            0 <= i <= maps@.len(),
            out@ == start + map_write_lines(mv, i as int),
        decreases maps@.len() - i,
    {
        let (m, entries) = &maps[i];
        entries_text(out, m, entries);
        proof {
            assert(out@ =~= start + map_write_lines(mv, i + 1));
        }
        i = i + 1;
    }
}

fn keys_text(out: &mut String, map: &FullName, keys: &Vec<SymOp>)
    ensures
        final(out)@ == old(out)@ + key_lines(map@, keys.deep_view(), keys@.len() as int),
{
    let ghost start = out@;
    let ghost kv = keys.deep_view();
    let name = name_to_text(map);
    let mut i: usize = 0;
    while i < keys.len()
        invariant
            kv == keys.deep_view(),
            name@ == name_text(map@),
            0 <= i <= keys@.len(),
            out@ == start + key_lines(map@, kv, i as int),
        decreases keys@.len() - i,
    {
        push_str(out, "  (map-delete\n    ");
        push_str(out, name.as_str());
        push_str(out, "\n    ");
        push_str(out, keys[i].to_text().as_str());
        push_str(out, ")\n");
        proof {
            assert(out@ =~= start + key_lines(map@, kv, i + 1));
        }
        i = i + 1;
    }
}

fn map_deletes_text(out: &mut String, maps: &Vec<(FullName, Vec<SymOp>)>)
    ensures
        final(out)@ == old(out)@ + map_delete_lines(maps.deep_view(), maps@.len() as int),
{
    let ghost start = out@;
    let ghost mv = maps.deep_view();
    let mut i: usize = 0;
    while i < maps.len()
        invariant
            mv == maps.deep_view(),
            0 <= i <= maps@.len(),
            out@ == start + map_delete_lines(mv, i as int),
        decreases maps@.len() - i,
    {
        let (m, keys) = &maps[i];
        keys_text(out, m, keys);
        proof {
            assert(out@ =~= start + map_delete_lines(mv, i + 1));
        }
        i = i + 1;
    }
}

fn names_text(out: &mut String, label: &str, names: &Vec<FullName>)
    ensures
        final(out)@ == old(out)@ + labeled_names(label@, names.deep_view(), names@.len() as int),
{
    let ghost start = out@;
    let ghost nv = names.deep_view();
    let mut i: usize = 0;
    while i < names.len()
        invariant
            nv == names.deep_view(),
            0 <= i <= names@.len(),
            out@ == start + labeled_names(label@, nv, i as int),
        decreases names@.len() - i,
    {
        push_str(out, "  (");
        push_str(out, label);
        push_str(out, " ");
        push_str(out, name_to_text(&names[i]).as_str());
        push_str(out, ")\n");
        proof {
            assert(out@ =~= start + labeled_names(label@, nv, i + 1));
        }
        i = i + 1;
    }
}

fn halt_head_text(h: &Halt) -> (s: String)
    ensures
        s@ == halt_head(h@),
{
    let mut out = concat("(halt\n  (formula ", h.formula.to_text().as_str());
    push_str(&mut out, ")\n");
    match &h.condition {
        Some(c) => {
            push_str(&mut out, "  (condition ");
            push_str(&mut out, c.to_text().as_str());
            push_str(&mut out, ")\n");
        },
        None => {
            push_str(&mut out, "  (predicate ");
            push_str(&mut out, h.predicate.to_text().as_str());
            push_str(&mut out, ")\n");
        },
    }
    proof {
        assert(out@ =~= halt_head(h@));
    }
    out
}

fn halt_writes_text(out: &mut String, h: &Halt)
    ensures
        final(out)@ == old(out)@ + halt_writes(h@),
{
    let ghost start = out@;
    var_writes_text(out, &h.vars);
    map_writes_text(out, &h.map_state);
    map_deletes_text(out, &h.map_tombstones);
    proof {
        assert(out@ =~= start + halt_writes(h@));
    }
}

fn halt_reach_text(out: &mut String, h: &Halt)
    ensures
        final(out)@ == old(out)@ + halt_reach(h@),
{
    let ghost start = out@;
    names_text(out, "reachable-var-read", &h.reachable_var_reads);
    names_text(out, "reachable-var-write", &h.reachable_var_writes);
    names_text(out, "reachable-map-read", &h.reachable_map_reads);
    names_text(out, "reachable-map-write", &h.reachable_map_writes);
    proof {
        assert(out@ =~= start + halt_reach(h@));
    }
}

impl Halt {
    /// The halting state as a `(halt ...)` form.
    pub fn to_text(&self) -> (s: String)
        ensures
            s@ == halt_text(self@),
    {
        let mut out = halt_head_text(self);
        halt_writes_text(&mut out, self);
        halt_reach_text(&mut out, self);
        push_str(&mut out, ")");
        proof {
            assert(out@ =~= halt_text(self@));
        }
        out
    }
}

impl Command {
    /// The command as the form that states it.
    pub fn to_text(&self) -> (s: String)
        ensures
            s@ == command_text(self@),
    {
        match self {
            Command::Test(msg) => {
                let s = concat("(test \"", msg.as_str());
                concat(s.as_str(), "\")")
            },
            Command::DefineSymbol(name, op) => {
                let s = concat("(define-symbol ", name.as_str());
                let s = concat(s.as_str(), " ");
                let s = concat(s.as_str(), op.to_text().as_str());
                concat(s.as_str(), ")")
            },
            Command::Halt(h) => h.to_text(),
            Command::Invariant(formula, pred) => {
                let s = concat("(invariant ", formula.to_text().as_str());
                let s = concat(s.as_str(), " ");
                let s = concat(s.as_str(), pred.to_text().as_str());
                concat(s.as_str(), ")")
            },
            Command::MapWrite(result, map, key, value) => {
                let s = concat("(map-write ", result.to_text().as_str());
                let s = concat(s.as_str(), " ");
                let s = concat(s.as_str(), name_to_text(map).as_str());
                let s = concat(s.as_str(), " ");
                let s = concat(s.as_str(), key.to_text().as_str());
                let s = concat(s.as_str(), " ");
                let s = concat(s.as_str(), value.to_text().as_str());
                concat(s.as_str(), ")")
            },
            Command::VarWrite(result, var, value) => {
                let s = concat("(var-write ", result.to_text().as_str());
                let s = concat(s.as_str(), " ");
                let s = concat(s.as_str(), name_to_text(var).as_str());
                let s = concat(s.as_str(), " ");
                let s = concat(s.as_str(), value.to_text().as_str());
                concat(s.as_str(), ")")
            },
            Command::MapDelete(result, map, key) => {
                let s = concat("(map-delete ", result.to_text().as_str());
                let s = concat(s.as_str(), " ");
                let s = concat(s.as_str(), name_to_text(map).as_str());
                let s = concat(s.as_str(), " ");
                let s = concat(s.as_str(), key.to_text().as_str());
                concat(s.as_str(), ")")
            },
        }
    }
}

} // verus!
