//! What the command line reads off a parsed contract without running it:
//! the names of its functions by kind, and the parameter types of one of
//! them, rendered back to Clarity source.

use vstd::prelude::*;
use crate::text::{concat, push_str};
use crate::render::{value_text, name_text, value_to_text, name_to_text};
use crate::expr::{SymExpr, ExprV, expr_of, exprs_of, lemma_exprs_of};

verus! {

broadcast use vstd::std_specs::vec::group_vec_axioms;

/// An expression as Clarity prints it: a list as `(` and its items, each
/// after a space, then ` )`; a field between angle brackets.
pub open spec fn expr_text(e: ExprV) -> Seq<char>
    decreases e, 1int,
{
    match e {
        ExprV::Literal(v) => value_text(v),
        ExprV::Atom(a, _) => a,
        ExprV::Field(n) => "<"@ + name_text(n) + ">"@,
        ExprV::List(items, _) => "("@ + items_text(items, items.len() as int) + " )"@,
    }
}

/// The first `n` items, each after a space.
pub open spec fn items_text(items: Seq<ExprV>, n: int) -> Seq<char>
    decreases items, 0int, n,
{
    if n <= 0 || n > items.len() {
        Seq::empty()
    } else {
        proof {
            assert(decreases_to!(items => items[n - 1]));
        }
        items_text(items, n - 1) + " "@ + expr_text(items[n - 1])
    }
}

/// The first `n` items, each after a space, joined by single spaces.
pub open spec fn joined(items: Seq<ExprV>, lo: int, n: int) -> Seq<char>
    decreases n - lo,
{
    if n <= lo || n > items.len() {
        Seq::empty()
    } else if n == lo + 1 {
        expr_text(items[lo])
    } else {
        joined(items, lo, n - 1) + " "@ + expr_text(items[n - 1])
    }
}

pub fn expr_to_text(e: &SymExpr) -> (s: String)
    ensures
        s@ == expr_text(e@),
    decreases e,
{
    match e {
        SymExpr::Literal(v) => value_to_text(v),
        SymExpr::Atom(a, _) => a.clone(),
        SymExpr::Field(n) => {
            let s = concat("<", name_to_text(n).as_str());
            concat(s.as_str(), ">")
        },
        SymExpr::List(items, _) => {
            let ghost iv = exprs_of(items@);
            proof {
                lemma_exprs_of(items@);
            }
            let mut out = "(".to_owned();
            let mut i: usize = 0;
            while i < items.len()
                invariant
                    0 <= i <= items@.len(),
                    *e == SymExpr::List(*items, e->List_1),
                    iv == exprs_of(items@),
                    iv.len() == items@.len(),
                    forall|j: int| 0 <= j < items@.len() ==> #[trigger] iv[j] == expr_of(items@[j]),
                    out@ == "("@ + items_text(iv, i as int),
                decreases items@.len() - i,
            {
                proof {
                    assert(decreases_to!(*e => e->List_0));
                    assert(decreases_to!(*items => items[i as int]));
                }
                let t = expr_to_text(&items[i]);
                push_str(&mut out, " ");
                push_str(&mut out, t.as_str());
                proof {
                    assert(iv[i as int] == items@[i as int]@);
                    assert(out@ =~= "("@ + items_text(iv, i + 1));
                }
                i = i + 1;
            }
            push_str(&mut out, " )");
            out
        },
    }
}

/// A list of expressions as Clarity prints it.
pub fn list_to_text(items: &Vec<SymExpr>) -> (s: String)
    ensures
        s@ == "("@ + items_text(exprs_of(items@), items@.len() as int) + " )"@,
{
    let ghost iv = exprs_of(items@);
    proof {
        lemma_exprs_of(items@);
    }
    let mut out = "(".to_owned();
    let mut i: usize = 0;
    while i < items.len()
        invariant
            0 <= i <= items@.len(),
            iv == exprs_of(items@),
            iv.len() == items@.len(),
            forall|j: int| 0 <= j < items@.len() ==> #[trigger] iv[j] == expr_of(items@[j]),
            out@ == "("@ + items_text(iv, i as int),
        decreases items@.len() - i,
    {
        let t = expr_to_text(&items[i]);
        push_str(&mut out, " ");
        push_str(&mut out, t.as_str());
        proof {
            assert(iv[i as int] == items@[i as int]@);
            assert(out@ =~= "("@ + items_text(iv, i + 1));
        }
        i = i + 1;
    }
    push_str(&mut out, " )");
    out
}

/// The parts of a definition `(HEAD (NAME params...) body...)`: its head,
/// its name, and its signature's items.
pub open spec fn definition(e: ExprV) -> Option<(Seq<char>, Seq<char>, Seq<ExprV>)> {
    match e {
        ExprV::List(items, _) => if items.len() >= 2 {
            match (items[0], items[1]) {
                (ExprV::Atom(head, _), ExprV::List(sig, _)) => if sig.len() >= 1 {
                    match sig[0] {
                        ExprV::Atom(name, _) => Some((head, name, sig)),
                        _ => None,
                    }
                } else {
                    None
                },
                _ => None,
            }
        } else {
            None
        },
        _ => None,
    }
}

/// The names, in order, of the first `n` definitions whose head is `head`.
pub open spec fn names_with_head(es: Seq<ExprV>, head: Seq<char>, n: int) -> Seq<Seq<char>>
    decreases n,
{
    if n <= 0 || n > es.len() {
        Seq::empty()
    } else {
        match definition(es[n - 1]) {
            Some((h, name, _)) => if h == head {
                names_with_head(es, head, n - 1).push(name)
            } else {
                names_with_head(es, head, n - 1)
            },
            None => names_with_head(es, head, n - 1),
        }
    }
}

/// The names, in order, of the first `n` public and read-only functions.
pub open spec fn callable_names(es: Seq<ExprV>, n: int) -> Seq<Seq<char>>
    decreases n,
{
    if n <= 0 || n > es.len() {
        Seq::empty()
    } else {
        match definition(es[n - 1]) {
            Some((h, name, _)) => if h == "define-public"@ || h == "define-read-only"@ {
                callable_names(es, n - 1).push(name)
            } else {
                callable_names(es, n - 1)
            },
            None => callable_names(es, n - 1),
        }
    }
}

/// Whether `e` defines a function named `fname`.
pub open spec fn defines_function(e: ExprV, fname: Seq<char>) -> bool {
    match definition(e) {
        Some((h, name, _)) => (h == "define-public"@ || h == "define-read-only"@ || h == "define-private"@) && name == fname,
        None => false,
    }
}

/// The type of each parameter among the first `n` items of a signature,
/// as source text: the parameter's items after its name, joined by spaces.
/// Items that are not lists are passed over.
pub open spec fn param_types(sig: Seq<ExprV>, n: int) -> Seq<Seq<char>>
    decreases n,
{
    if n <= 1 || n > sig.len() {
        Seq::empty()
    } else {
        match sig[n - 1] {
            ExprV::List(parts, _) => param_types(sig, n - 1).push(joined(parts, 1, parts.len() as int)),
            _ => param_types(sig, n - 1),
        }
    }
}

/// The parameter types of the first function among the first `n`
/// expressions named `fname`.
pub open spec fn params_of(es: Seq<ExprV>, fname: Seq<char>, n: int) -> Option<Seq<Seq<char>>>
    decreases n,
{
    if n <= 0 || n > es.len() {
        None
    } else {
        match params_of(es, fname, n - 1) {
            Some(p) => Some(p),
            None => if defines_function(es[n - 1], fname) {
                match definition(es[n - 1]) {
                    Some((_, _, sig)) => Some(param_types(sig, sig.len() as int)),
                    None => None,
                }
            } else {
                None
            },
        }
    }
}

proof fn lemma_params_stable(es: Seq<ExprV>, fname: Seq<char>, n: int, m: int)
    requires
        0 < n <= m <= es.len(),
        params_of(es, fname, n) is Some,
    ensures
        params_of(es, fname, m) == params_of(es, fname, n),
    decreases m - n,
{
    if m > n {
        lemma_params_stable(es, fname, n, m - 1);
    }
}

/// The parts of a definition, read off the expression.
fn definition_of(e: &SymExpr) -> (r: Option<(String, String, &Vec<SymExpr>)>)
    ensures
        match r {
            Some((h, n, sig)) => definition(e@) == Some((h@, n@, exprs_of(sig@))),
            None => definition(e@) is None,
        },
{
    match e {
        SymExpr::List(items, _) => {
            proof {
                lemma_exprs_of(items@);
            }
            if items.len() < 2 {
                return None;
            }
            match (&items[0], &items[1]) {
                (SymExpr::Atom(head, _), SymExpr::List(sig, _)) => {
                    proof {
                        lemma_exprs_of(sig@);
                    }
                    if sig.len() < 1 {
                        return None;
                    }
                    match &sig[0] {
                        SymExpr::Atom(name, _) => Some((head.clone(), name.clone(), sig)),
                        _ => None,
                    }
                },
                _ => None,
            }
        },
        _ => None,
    }
}

/// The public and read-only function names of a parsed contract, in
/// source order.
pub fn list_functions(exprs: &Vec<SymExpr>) -> (r: Vec<String>)
    ensures
        r.deep_view() == callable_names(exprs_of(exprs@), exprs@.len() as int),
{
    let ghost es = exprs_of(exprs@);
    proof {
        lemma_exprs_of(exprs@);
    }
    let mut names: Vec<String> = Vec::new();
    let mut i: usize = 0;
    while i < exprs.len()
        invariant
            0 <= i <= exprs@.len(),
            es == exprs_of(exprs@),
            es.len() == exprs@.len(),
            forall|j: int| 0 <= j < exprs@.len() ==> #[trigger] es[j] == expr_of(exprs@[j]),
            names.deep_view() == callable_names(es, i as int),
        decreases exprs@.len() - i,
    {
        assert(es[i as int] == exprs@[i as int]@);
        match definition_of(&exprs[i]) {
            Some((h, name, _)) => {
                if h == "define-public".to_owned() || h == "define-read-only".to_owned() {
                    let ghost before = names.deep_view();
                    names.push(name);
                    assert(names.deep_view() =~= before.push(name@));
                }
            },
            None => {},
        }
        i = i + 1;
    }
    names
}

/// The public and the read-only function names of a parsed contract, each
/// in source order.
pub fn functions_by_kind(exprs: &Vec<SymExpr>) -> (r: (Vec<String>, Vec<String>))
    ensures
        r.0.deep_view() == names_with_head(exprs_of(exprs@), "define-public"@, exprs@.len() as int),
        r.1.deep_view() == names_with_head(exprs_of(exprs@), "define-read-only"@, exprs@.len() as int),
{
    let ghost es = exprs_of(exprs@);
    proof {
        lemma_exprs_of(exprs@);
    }
    let mut publics: Vec<String> = Vec::new();
    let mut readonlys: Vec<String> = Vec::new();
    let mut i: usize = 0;
    while i < exprs.len()
        invariant
            0 <= i <= exprs@.len(),
            es == exprs_of(exprs@),
            es.len() == exprs@.len(),
            forall|j: int| 0 <= j < exprs@.len() ==> #[trigger] es[j] == expr_of(exprs@[j]),
            publics.deep_view() == names_with_head(es, "define-public"@, i as int),
            readonlys.deep_view() == names_with_head(es, "define-read-only"@, i as int),
        decreases exprs@.len() - i,
    {
        assert(es[i as int] == exprs@[i as int]@);
        match definition_of(&exprs[i]) {
            Some((h, name, _)) => {
                if h == "define-public".to_owned() {
                    proof {
                        reveal_strlit("define-public");
                        reveal_strlit("define-read-only");
                    }
                    let ghost before = publics.deep_view();
                    assert(h@ == "define-public"@);
                    assert("define-public"@.len() != "define-read-only"@.len());
                    publics.push(name);
                    assert(publics.deep_view() =~= before.push(name@));
                } else if h == "define-read-only".to_owned() {
                    let ghost before = readonlys.deep_view();
                    readonlys.push(name);
                    assert(readonlys.deep_view() =~= before.push(name@));
                }
            },
            None => {},
        }
        i = i + 1;
    }
    (publics, readonlys)
}

pub fn joined_text(parts: &Vec<SymExpr>, lo: usize) -> (s: String)
    requires
        lo >= 1,
    ensures
        s@ == joined(exprs_of(parts@), lo as int, parts@.len() as int),
{
    let ghost pv = exprs_of(parts@);
    proof {
        lemma_exprs_of(parts@);
    }
    let mut out = String::new();
    let mut i: usize = lo;
    if i > parts.len() {
        return out;
    }
    while i < parts.len()
        invariant
            lo <= i <= parts@.len(),
            pv == exprs_of(parts@),
            pv.len() == parts@.len(),
            forall|j: int| 0 <= j < parts@.len() ==> #[trigger] pv[j] == expr_of(parts@[j]),
            out@ == joined(pv, lo as int, i as int),
        decreases parts@.len() - i,
    {
        if i > lo {
            push_str(&mut out, " ");
        }
        push_str(&mut out, expr_to_text(&parts[i]).as_str());
        proof {
            assert(pv[i as int] == parts@[i as int]@);
            assert(out@ =~= joined(pv, lo as int, i + 1));
        }
        i = i + 1;
    }
    out
}

/// The parameter types of function `fname` in a parsed contract, each
/// rendered back to source; `None` when no public, read-only or private
/// function has that name.
pub fn function_params(exprs: &Vec<SymExpr>, fname: &str) -> (r: Option<Vec<String>>)
    ensures
        match r {
            Some(v) => params_of(exprs_of(exprs@), fname@, exprs@.len() as int) == Some(v.deep_view()),
            None => params_of(exprs_of(exprs@), fname@, exprs@.len() as int) is None,
        },
{
    let ghost es = exprs_of(exprs@);
    proof {
        lemma_exprs_of(exprs@);
    }
    let mut i: usize = 0;
    while i < exprs.len()
        invariant
            0 <= i <= exprs@.len(),
            es == exprs_of(exprs@),
            es.len() == exprs@.len(),
            forall|j: int| 0 <= j < exprs@.len() ==> #[trigger] es[j] == expr_of(exprs@[j]),
            params_of(es, fname@, i as int) is None,
        decreases exprs@.len() - i,
    {
        assert(es[i as int] == exprs@[i as int]@);
        match definition_of(&exprs[i]) {
            Some((h, name, sig)) => {
                let callable = h == "define-public".to_owned() || h == "define-read-only".to_owned()
                    || h == "define-private".to_owned();
                if callable && name == fname.to_owned() {
                    let ghost sv = exprs_of(sig@);
                    proof {
                        lemma_exprs_of(sig@);
                    }
                    let mut types: Vec<String> = Vec::new();
                    let mut k: usize = 1;
                    while k < sig.len()
                        invariant
                            1 <= k <= sig@.len(),
                            sv == exprs_of(sig@),
                            sv.len() == sig@.len(),
                            forall|j: int| 0 <= j < sig@.len() ==> #[trigger] sv[j] == expr_of(sig@[j]),
                            types.deep_view() == param_types(sv, k as int),
                        decreases sig@.len() - k,
                    {
                        assert(sv[k as int] == sig@[k as int]@);
                        match &sig[k] {
                            SymExpr::List(parts, pt) => {
                                proof {
                                    lemma_exprs_of(parts@);
                                    assert(sv[k as int] == ExprV::List(exprs_of(parts@), crate::expr::opt_text(*pt)));
                                }
                                let t = joined_text(parts, 1);
                                let ghost before = types.deep_view();
                                types.push(t);
                                assert(types.deep_view() =~= before.push(t@));
                            },
                            _ => {},
                        }
                        k = k + 1;
                    }
                    proof {
                        assert(sv.len() == sig@.len());
                        assert(params_of(es, fname@, i + 1) == Some(types.deep_view()));
                        lemma_params_stable(es, fname@, i + 1, exprs@.len() as int);
                    }
                    return Some(types);
                }
            },
            None => {},
        }
        i = i + 1;
    }
    assert(exprs_of(exprs@).len() == exprs@.len());
    None
}

} // verus!
