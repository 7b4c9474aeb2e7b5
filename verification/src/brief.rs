//! An engine error condensed into one actionable line, for reports that
//! list many functions or pairs.

use vstd::prelude::*;
use crate::text::{chars_of, string_from_chars, concat};
use crate::cli::{trim, trim_text, shortened, cuttable, shorten, can_shorten};
use crate::error::{Error, error_display};

verus! {

broadcast use vstd::std_specs::vec::group_vec_axioms;

/// `needle` occurs in `hay` at position `i`.
pub open spec fn occurs_at(hay: Seq<char>, needle: Seq<char>, i: int) -> bool {
    0 <= i && i + needle.len() <= hay.len() && hay.subrange(i, i + needle.len()) == needle
}

/// The first position, from `i` on, at which `needle` occurs in `hay`.
pub open spec fn first_from(hay: Seq<char>, needle: Seq<char>, i: int) -> Option<int>
    decreases hay.len() + 1 - i,
{
    if i < 0 || i + needle.len() > hay.len() {
        None
    } else if occurs_at(hay, needle, i) {
        Some(i)
    } else {
        first_from(hay, needle, i + 1)
    }
}

/// What follows the first occurrence of `needle` in `hay`, if it occurs.
pub open spec fn after_first(hay: Seq<char>, needle: Seq<char>) -> Option<Seq<char>> {
    match first_from(hay, needle, 0) {
        Some(i) => Some(hay.skip(i + needle.len())),
        None => None,
    }
}

/// What comes before the first occurrence of `needle` in `hay`; all of
/// `hay` if it does not occur.
pub open spec fn before_first(hay: Seq<char>, needle: Seq<char>) -> Seq<char> {
    match first_from(hay, needle, 0) {
        Some(i) => hay.take(i),
        None => hay,
    }
}

proof fn lemma_first_from_bound(hay: Seq<char>, needle: Seq<char>, i: int)
    ensures
        first_from(hay, needle, i) matches Some(k) ==> i <= k && occurs_at(hay, needle, k),
    decreases hay.len() + 1 - i,
{
    if i >= 0 && i + needle.len() <= hay.len() && !occurs_at(hay, needle, i) {
        lemma_first_from_bound(hay, needle, i + 1);
    }
}

/// The first position at which `needle` occurs in `hay`.
pub fn find_text(hay: &Vec<char>, needle: &Vec<char>) -> (r: Option<usize>)
    ensures
        match r {
            Some(i) => first_from(hay@, needle@, 0) == Some(i as int),
            None => first_from(hay@, needle@, 0) is None,
        },
{
    if needle.len() > hay.len() {
        return None;
    }
    if needle.len() == 0 {
        assert(hay@.subrange(0, 0) =~= needle@);
        return Some(0);
    }
    let end = hay.len() - needle.len();
    let mut i: usize = 0;
    while i <= end
        invariant
            end + needle@.len() == hay@.len(),
            hay@.len() == hay.len(),
            needle@.len() >= 1,
            0 <= i <= end + 1,
            first_from(hay@, needle@, 0) == first_from(hay@, needle@, i as int),
        decreases end + 1 - i,
    {
        let mut k: usize = 0;
        let mut same = true;
        while k < needle.len()
            invariant
                end + needle@.len() == hay@.len(),
                hay@.len() == hay.len(),
                i <= end,
                0 <= k <= needle@.len(),
                same == (forall|q: int| 0 <= q < k ==> hay@[i + q] == needle@[q]),
            decreases needle@.len() - k,
        {
            if hay[i + k] != needle[k] {
                same = false;
            }
            k = k + 1;
        }
        if same {
            assert(hay@.subrange(i as int, i + needle@.len()) =~= needle@);
            return Some(i);
        }
        proof {
            let q = choose|q: int| 0 <= q < needle@.len() && hay@[i + q] != needle@[q];
            assert(hay@.subrange(i as int, i + needle@.len())[q] != needle@[q]);
        }
        i = i + 1;
    }
    None
}

fn slice_chars(v: &Vec<char>, lo: usize, hi: usize) -> (r: String)
    requires
        lo <= hi <= v@.len(),
    ensures
        r@ == v@.subrange(lo as int, hi as int),
{
    let mut out: Vec<char> = Vec::new();
    let mut k: usize = lo;
    while k < hi
        invariant
            lo <= k <= hi <= v@.len(),
            out@ == v@.subrange(lo as int, k as int),
        decreases hi - k,
    {
        out.push(v[k]);
        assert(out@ =~= v@.subrange(lo as int, k + 1));
        k = k + 1;
    }
    string_from_chars(out)
}

/// `s` without a final carriage return.
pub open spec fn strip_cr(s: Seq<char>) -> Seq<char> {
    if s.len() > 0 && s.last() == '\r' { s.drop_last() } else { s }
}

/// The first line of `text`, trimmed, up to the first ` { `.
pub open spec fn head_line(text: Seq<char>) -> Seq<char> {
    before_first(trim(strip_cr(before_first(text, "\n"@))), " { "@)
}

/// The one-line form of an error's text: for a missing contract, the `--dep`
/// to pass; for an analyzer error, its message; else the head of its first
/// line, cut after 200 bytes.
pub open spec fn brief_text(text: Seq<char>) -> Seq<char> {
    match after_first(text, "NoSuchContract(\""@) {
        Some(rest) => {
            let name = before_first(rest, "\""@);
            "needs `"@ + name + "`; pass --dep "@ + name + ":PATH (a signature stub is enough)"@
        },
        None => match after_first(text, "message: \""@) {
            Some(rest) => before_first(rest, "\", spans"@),
            None => shortened(head_line(text), 200),
        },
    }
}

/// Whether the one-line form of `text` can be taken: when it comes from
/// the first line, that line can be cut after 200 bytes.
pub open spec fn brief_defined(text: Seq<char>) -> bool {
    after_first(text, "NoSuchContract(\""@) is None && after_first(text, "message: \""@) is None
        ==> cuttable(head_line(text), 200)
}

fn before_text(cs: &Vec<char>, needle: &str) -> (r: String)
    ensures
        r@ == before_first(cs@, needle@),
{
    let n = chars_of(needle);
    match find_text(cs, &n) {
        Some(i) => {
            proof {
                lemma_first_from_bound(cs@, needle@, 0);
            }
            slice_chars(cs, 0, i)
        },
        None => slice_chars(cs, 0, cs.len()),
    }
}

fn after_text(cs: &Vec<char>, needle: &str) -> (r: Option<Vec<char>>)
    ensures
        match r {
            Some(v) => after_first(cs@, needle@) == Some(v@),
            None => after_first(cs@, needle@) is None,
        },
{
    let n = chars_of(needle);
    match find_text(cs, &n) {
        Some(i) => {
            proof {
                lemma_first_from_bound(cs@, needle@, 0);
                assert(occurs_at(cs@, needle@, i as int));
                assert(cs@.len() == cs.len());
            }
            let mut out: Vec<char> = Vec::new();
            let mut k: usize = i + n.len();
            while k < cs.len()
                invariant
                    i + needle@.len() <= k <= cs@.len(),
                    out@ == cs@.subrange(i + needle@.len(), k as int),
                decreases cs@.len() - k,
            {
                out.push(cs[k]);
                assert(out@ =~= cs@.subrange(i + needle@.len(), k + 1));
                k = k + 1;
            }
            assert(out@ =~= cs@.skip(i + needle@.len()));
            Some(out)
        },
        None => None,
    }
}

fn head_line_text(text: &str) -> (r: String)
    ensures
        r@ == head_line(text@),
{
    let cs = chars_of(text);
    let first = before_text(&cs, "\n");
    let fc = chars_of(first.as_str());
    let line = if fc.len() > 0 && fc[fc.len() - 1] == '\r' {
        let l = slice_chars(&fc, 0, fc.len() - 1);
        assert(l@ =~= first@.drop_last());
        l
    } else {
        first
    };
    let t = trim_text(line.as_str());
    let tc = chars_of(t.as_str());
    before_text(&tc, " { ")
}

/// The one-line form of the error text `text`.
pub fn brief_error_text(text: &str) -> (r: String)
    requires
        brief_defined(text@),
    ensures
        r@ == brief_text(text@),
{
    let cs = chars_of(text);
    match after_text(&cs, "NoSuchContract(\"") {
        Some(rest) => {
            let name = before_text(&rest, "\"");
            let s = concat("needs `", name.as_str());
            let s = concat(s.as_str(), "`; pass --dep ");
            let s = concat(s.as_str(), name.as_str());
            concat(s.as_str(), ":PATH (a signature stub is enough)")
        },
        None => match after_text(&cs, "message: \"") {
            Some(rest) => before_text(&rest, "\", spans"),
            None => shorten(&head_line_text(text), 200),
        },
    }
}

/// Whether the one-line form of `text` can be taken.
pub fn can_brief(text: &str) -> (r: bool)
    ensures
        r == brief_defined(text@),
{
    let cs = chars_of(text);
    if after_text(&cs, "NoSuchContract(\"").is_some() || after_text(&cs, "message: \"").is_some() {
        return true;
    }
    can_shorten(&head_line_text(text), 200)
}

/// The one-line form of an error, when it can be taken: `None` when it
/// would come from a first line that cannot be cut after 200 bytes.
pub fn brief_error(e: &Error) -> (r: Option<String>)
    ensures
        match r {
            Some(s) => brief_defined(error_display(*e)) && s@ == brief_text(error_display(*e)),
            None => !brief_defined(error_display(*e)),
        },
{
    let text = e.to_text();
    if can_brief(text.as_str()) {
        Some(brief_error_text(text.as_str()))
    } else {
        None
    }
}

} // verus!
