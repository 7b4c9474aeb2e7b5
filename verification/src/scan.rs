//! Finding the `(@clairvoyance ...)` programs in a comment buffer.
//!
//! A specification lives in the comments above a Clarity function, inside a
//! `(@clairvoyance ...)` block. The scanner walks the comment text one
//! character at a time, tracking parenthesis nesting, string quoting and
//! `;;` end-of-line comments, and collects the tokens of each program. A
//! program's tokens are joined with single spaces.

use vstd::prelude::*;
use crate::text::{chars_of, string_from_chars, chars_eq};
use crate::command::CommandContext;

verus! {

/// Where the scanner is: in ordinary comment text, reading the tag after an
/// opening parenthesis, or inside a program (its tokens so far, the token
/// being read, whether a string is open, whether a `;;` comment is open, and
/// the nesting depth at which the program started).
pub enum Phase {
    Normal,
    Begin(Seq<char>),
    Program(Seq<Seq<char>>, Option<Seq<char>>, bool, bool, nat),
}

/// The whole scanner state: the phase, the parenthesis nesting, the previous
/// character, and the programs found so far.
pub struct Scan {
    pub phase: Phase,
    pub nesting: nat,
    pub last: Option<char>,
    pub programs: Seq<Seq<char>>,
}

/// The tag that opens a program.
pub open spec fn program_tag() -> Seq<char> {
    seq!['@', 'c', 'l', 'a', 'i', 'r', 'v', 'o', 'y', 'a', 'n', 'c', 'e']
}

pub open spec fn is_blank(c: char) -> bool {
    c == ' ' || c == '\t' || c == '\r' || c == '\n'
}

/// Appends `c` to the token being read (starting one if there is none).
pub open spec fn extend_token(cur: Option<Seq<char>>, c: char) -> Option<Seq<char>> {
    match cur {
        Some(t) => Some(t.push(c)),
        None => Some(seq![c]),
    }
}

/// Ends the token being read, if any.
pub open spec fn flush(tokens: Seq<Seq<char>>, cur: Option<Seq<char>>) -> Seq<Seq<char>> {
    match cur {
        Some(t) => tokens.push(t),
        None => tokens,
    }
}

/// The tokens joined with single spaces.
pub open spec fn join_tokens(tokens: Seq<Seq<char>>) -> Seq<char>
    decreases tokens.len(),
{
    if tokens.len() == 0 {
        Seq::empty()
    } else if tokens.len() == 1 {
        tokens[0]
    } else {
        join_tokens(tokens.drop_last()) + seq![' '] + tokens.last()
    }
}

/// Ends a program: its text is added to the programs unless it is empty.
pub open spec fn consume(programs: Seq<Seq<char>>, tokens: Seq<Seq<char>>, cur: Option<Seq<char>>) -> Seq<Seq<char>> {
    let text = join_tokens(flush(tokens, cur));
    if text.len() > 0 {
        programs.push(text)
    } else {
        programs
    }
}

pub open spec fn step_open(s: Scan) -> Scan {
    match s.phase {
        Phase::Normal => Scan { phase: Phase::Begin(Seq::empty()), nesting: s.nesting + 1, ..s },
        Phase::Begin(_) => Scan { phase: Phase::Begin(Seq::empty()), nesting: s.nesting + 1, ..s },
        Phase::Program(toks, cur, quoted, comment, depth) => {
            if comment {
                s
            } else if !quoted {
                Scan {
                    phase: Phase::Program(flush(toks, cur).push(seq!['(']), None, false, false, depth),
                    nesting: s.nesting + 1,
                    ..s
                }
            } else {
                Scan { phase: Phase::Program(toks, extend_token(cur, '('), quoted, comment, depth), ..s }
            }
        },
    }
}

pub open spec fn step_close(s: Scan) -> Scan {
    match s.phase {
        Phase::Normal => Scan {
            phase: Phase::Normal,
            nesting: if s.nesting > 0 { (s.nesting - 1) as nat } else { 0 },
            ..s
        },
        Phase::Begin(_) => Scan {
            phase: Phase::Normal,
            nesting: if s.nesting > 0 { (s.nesting - 1) as nat } else { 0 },
            ..s
        },
        Phase::Program(toks, cur, quoted, comment, depth) => {
            if comment {
                s
            } else if !quoted {
                let n = (s.nesting - 1) as nat;
                if n < depth {
                    Scan { phase: Phase::Normal, nesting: n, programs: consume(s.programs, toks, cur), ..s }
                } else {
                    Scan {
                        phase: Phase::Program(flush(toks, cur).push(seq![')']), None, quoted, comment, depth),
                        nesting: n,
                        ..s
                    }
                }
            } else {
                Scan { phase: Phase::Program(toks, extend_token(cur, ')'), quoted, comment, depth), ..s }
            }
        },
    }
}

pub open spec fn step_blank(s: Scan, c: char) -> Scan {
    match s.phase {
        Phase::Normal => s,
        Phase::Begin(tag) => {
            if tag == program_tag() {
                Scan { phase: Phase::Program(Seq::empty(), None, false, false, s.nesting), ..s }
            } else {
                Scan { phase: Phase::Normal, ..s }
            }
        },
        Phase::Program(toks, cur, quoted, comment, depth) => {
            let comment = comment && c != '\n';
            if comment {
                Scan { phase: Phase::Program(toks, cur, quoted, comment, depth), ..s }
            } else if !quoted {
                Scan { phase: Phase::Program(flush(toks, cur), None, quoted, comment, depth), ..s }
            } else {
                Scan { phase: Phase::Program(toks, extend_token(cur, c), quoted, comment, depth), ..s }
            }
        },
    }
}

pub open spec fn step_quote(s: Scan) -> Scan {
    match s.phase {
        Phase::Normal => s,
        Phase::Begin(_) => Scan { phase: Phase::Normal, ..s },
        Phase::Program(toks, cur, quoted, comment, depth) => {
            if comment {
                s
            } else {
                let quoted2 = if s.last == Some('\\') { quoted } else { !quoted };
                Scan { phase: Phase::Program(toks, extend_token(cur, '"'), quoted2, comment, depth), ..s }
            }
        },
    }
}

/// A second `;` in a row opens a comment that runs to the end of the line;
/// the first `;`, already read into a token, is taken back.
pub open spec fn step_comment(s: Scan) -> Scan {
    match s.phase {
        Phase::Normal => s,
        Phase::Begin(_) => Scan { phase: Phase::Normal, ..s },
        Phase::Program(toks, cur, quoted, comment, depth) => {
            if quoted {
                Scan { phase: Phase::Program(toks, extend_token(cur, ';'), quoted, comment, depth), ..s }
            } else {
                let popped_cur = cur is Some && cur->0.len() > 0;
                let toks2 = if !popped_cur && toks.len() > 0 && toks.last().len() > 0 {
                    toks.update(toks.len() - 1, toks.last().drop_last())
                } else {
                    toks
                };
                let cur2 = if popped_cur {
                    if cur->0.len() == 1 { None } else { Some(cur->0.drop_last()) }
                } else {
                    cur
                };
                Scan { phase: Phase::Program(toks2, cur2, quoted, true, depth), ..s }
            }
        },
    }
}

pub open spec fn step_other(s: Scan, c: char) -> Scan {
    match s.phase {
        Phase::Normal => s,
        Phase::Begin(tag) => Scan { phase: Phase::Begin(tag.push(c)), ..s },
        Phase::Program(toks, cur, quoted, comment, depth) => {
            if comment {
                s
            } else {
                Scan { phase: Phase::Program(toks, extend_token(cur, c), quoted, comment, depth), ..s }
            }
        },
    }
}

/// One character of the scan.
pub open spec fn step(s: Scan, c: char) -> Scan {
    let t = if c == '(' {
        step_open(s)
    } else if c == ')' {
        step_close(s)
    } else if is_blank(c) {
        step_blank(s, c)
    } else if c == '"' {
        step_quote(s)
    } else if c == ';' && s.last == Some(';') {
        step_comment(s)
    } else {
        step_other(s, c)
    };
    Scan { last: Some(c), ..t }
}

pub open spec fn initial_scan() -> Scan {
    Scan { phase: Phase::Normal, nesting: 0, last: None, programs: Seq::empty() }
}

/// The scanner state after reading all of `cs`.
pub open spec fn scan_chars(cs: Seq<char>) -> Scan
    decreases cs.len(),
{
    if cs.len() == 0 {
        initial_scan()
    } else {
        step(scan_chars(cs.drop_last()), cs.last())
    }
}

/// The programs found in a comment buffer: those ended by their closing
/// parenthesis, and a last one left open at the end of the buffer unless a
/// string is still open in it.
pub open spec fn extracted_programs(cs: Seq<char>) -> Seq<Seq<char>> {
    let s = scan_chars(cs);
    match s.phase {
        Phase::Program(toks, cur, quoted, _, _) => if !quoted { consume(s.programs, toks, cur) } else { s.programs },
        _ => s.programs,
    }
}

/// Inside a program the nesting never falls below the depth at which the
/// program started, and that depth is at least one.
pub open spec fn scan_wf(s: Scan) -> bool {
    match s.phase {
        Phase::Begin(_) => s.nesting >= 1,
        Phase::Program(_, _, _, _, depth) => 1 <= depth <= s.nesting,
        Phase::Normal => true,
    }
}

proof fn lemma_step_wf(s: Scan, c: char)
    requires
        scan_wf(s),
    ensures
        scan_wf(step(s, c)),
{
}

proof fn lemma_scan_wf(cs: Seq<char>)
    ensures
        scan_wf(scan_chars(cs)),
        scan_chars(cs).nesting <= cs.len(),
    decreases cs.len(),
{
    if cs.len() > 0 {
        lemma_scan_wf(cs.drop_last());
        lemma_step_wf(scan_chars(cs.drop_last()), cs.last());
    }
}

enum TokenState {
    NormalComment,
    BeginProgram(Vec<char>),
    Program(Vec<Vec<char>>, Option<Vec<char>>, bool, bool, usize),
}

spec fn tokens_view(tokens: Seq<Vec<char>>) -> Seq<Seq<char>> {
    tokens.map_values(|t: Vec<char>| t@)
}

spec fn token_view(cur: Option<Vec<char>>) -> Option<Seq<char>> {
    match cur {
        Some(t) => Some(t@),
        None => None,
    }
}

impl TokenState {
    spec fn phase(&self) -> Phase {
        match self {
            TokenState::NormalComment => Phase::Normal,
            TokenState::BeginProgram(tag) => Phase::Begin(tag@),
            TokenState::Program(toks, cur, q, c, d) => Phase::Program(tokens_view(toks@), token_view(*cur), *q, *c, *d as nat),
        }
    }
}

fn extend_token_exec(cur: Option<Vec<char>>, c: char) -> (r: Option<Vec<char>>)
    ensures
        token_view(r) == extend_token(token_view(cur), c),
{
    match cur {
        Some(mut t) => {
            t.push(c);
            Some(t)
        },
        None => {
            let mut t = Vec::new();
            t.push(c);
            assert(t@ =~= seq![c]);
            Some(t)
        },
    }
}

fn flush_exec(tokens: Vec<Vec<char>>, cur: Option<Vec<char>>) -> (r: Vec<Vec<char>>)
    ensures
        tokens_view(r@) == flush(tokens_view(tokens@), token_view(cur)),
{
    let mut tokens = tokens;
    match cur {
        Some(t) => {
            let ghost before = tokens@;
            tokens.push(t);
            assert(tokens_view(tokens@) =~= tokens_view(before).push(t@));
        },
        None => {},
    }
    tokens
}

fn one_char(c: char) -> (v: Vec<char>)
    ensures
        v@ == seq![c],
{
    let mut v = Vec::new();
    v.push(c);
    assert(v@ =~= seq![c]);
    v
}

fn push_token(tokens: Vec<Vec<char>>, c: char) -> (r: Vec<Vec<char>>)
    ensures
        tokens_view(r@) == tokens_view(tokens@).push(seq![c]),
{
    let mut tokens = tokens;
    let ghost before = tokens@;
    tokens.push(one_char(c));
    assert(tokens_view(tokens@) =~= tokens_view(before).push(seq![c]));
    tokens
}

fn join_tokens_exec(tokens: &Vec<Vec<char>>) -> (r: Vec<char>)
    ensures
        r@ == join_tokens(tokens_view(tokens@)),
{
    let mut out: Vec<char> = Vec::new();
    let mut i: usize = 0;
    while i < tokens.len()
        invariant
            0 <= i <= tokens@.len(),
            out@ == join_tokens(tokens_view(tokens@).take(i as int)),
        decreases tokens@.len() - i,
    {
        let ghost prefix = tokens_view(tokens@).take(i as int);
        let ghost next = tokens_view(tokens@).take(i + 1);
        assert(next.drop_last() =~= prefix);
        assert(next.last() == tokens@[i as int]@);
        if i > 0 {
            out.push(' ');
        }
        let mut j: usize = 0;
        let ghost base = out@;
        while j < tokens[i].len()
            invariant
                0 <= i < tokens@.len(),
                0 <= j <= tokens@[i as int]@.len(),
                out@ == base + tokens@[i as int]@.take(j as int),
            decreases tokens@[i as int]@.len() - j,
        {
            out.push(tokens[i][j]);
            assert(tokens@[i as int]@.take(j + 1) =~= tokens@[i as int]@.take(j as int).push(tokens@[i as int]@[j as int]));
            j = j + 1;
        }
        assert(tokens@[i as int]@.take(j as int) =~= tokens@[i as int]@);
        if i == 0 {
            assert(out@ =~= join_tokens(next));
        } else {
            assert(out@ =~= join_tokens(next));
        }
        i = i + 1;
    }
    assert(tokens_view(tokens@).take(tokens@.len() as int) =~= tokens_view(tokens@));
    out
}

fn consume_exec(programs: &mut Vec<String>, tokens: Vec<Vec<char>>, cur: Option<Vec<char>>)
    ensures
        final(programs).deep_view() == consume(old(programs).deep_view(), tokens_view(tokens@), token_view(cur)),
{
    let toks = flush_exec(tokens, cur);
    let text = join_tokens_exec(&toks);
    if text.len() > 0 {
        let ghost before = programs.deep_view();
        let ghost text_view = text@;
        programs.push(string_from_chars(text));
        assert(programs.deep_view() =~= before.push(text_view));
    }
}

fn tag_chars() -> (v: Vec<char>)
    ensures
        v@ == program_tag(),
{
    let v = vec!['@', 'c', 'l', 'a', 'i', 'r', 'v', 'o', 'y', 'a', 'n', 'c', 'e'];
    assert(v@ =~= program_tag());
    v
}

spec fn scan_of(state: TokenState, nesting: usize, last: Option<char>, programs: Seq<Seq<char>>) -> Scan {
    Scan { phase: state.phase(), nesting: nesting as nat, last, programs }
}

fn exec_open(state: TokenState, nesting: usize, last: Option<char>, programs: &Vec<String>) -> (r: (TokenState, usize))
    requires
        nesting < usize::MAX,
    ensures
        scan_of(r.0, r.1, last, programs.deep_view()) == step_open(scan_of(state, nesting, last, programs.deep_view())),
{
    match state {
        TokenState::NormalComment => (TokenState::BeginProgram(Vec::new()), nesting + 1),
        TokenState::BeginProgram(_) => (TokenState::BeginProgram(Vec::new()), nesting + 1),
        TokenState::Program(tokens, cur_tok, quoted, comment, depth) => {
            if !comment {
                if !quoted {
                    let tokens = push_token(flush_exec(tokens, cur_tok), '(');
                    (TokenState::Program(tokens, None, false, false, depth), nesting + 1)
                } else {
                    (TokenState::Program(tokens, extend_token_exec(cur_tok, '('), quoted, comment, depth), nesting)
                }
            } else {
                (TokenState::Program(tokens, cur_tok, quoted, comment, depth), nesting)
            }
        },
    }
}

fn exec_close(state: TokenState, nesting: usize, last: Option<char>, programs: &mut Vec<String>) -> (r: (TokenState, usize))
    requires
        scan_wf(scan_of(state, nesting, last, old(programs).deep_view())),
    ensures
        scan_of(r.0, r.1, last, final(programs).deep_view()) == step_close(scan_of(state, nesting, last, old(programs).deep_view())),
{
    match state {
        TokenState::NormalComment => (TokenState::NormalComment, if nesting > 0 { nesting - 1 } else { 0 }),
        TokenState::BeginProgram(_) => (TokenState::NormalComment, if nesting > 0 { nesting - 1 } else { 0 }),
        TokenState::Program(tokens, cur_tok, quoted, comment, depth) => {
            if !comment {
                if !quoted {
                    let n = nesting - 1;
                    if n < depth {
                        consume_exec(programs, tokens, cur_tok);
                        (TokenState::NormalComment, n)
                    } else {
                        let tokens = push_token(flush_exec(tokens, cur_tok), ')');
                        (TokenState::Program(tokens, None, quoted, comment, depth), n)
                    }
                } else {
                    (TokenState::Program(tokens, extend_token_exec(cur_tok, ')'), quoted, comment, depth), nesting)
                }
            } else {
                (TokenState::Program(tokens, cur_tok, quoted, comment, depth), nesting)
            }
        },
    }
}

fn exec_blank(state: TokenState, nesting: usize, last: Option<char>, programs: &Vec<String>, c: char) -> (r: TokenState)
    ensures
        scan_of(r, nesting, last, programs.deep_view()) == step_blank(scan_of(state, nesting, last, programs.deep_view()), c),
{
    match state {
        TokenState::NormalComment => TokenState::NormalComment,
        TokenState::BeginProgram(tag) => {
            let expected = tag_chars();
            if chars_eq(tag.as_slice(), expected.as_slice()) {
                proof {
                    assert(tokens_view(Seq::<Vec<char>>::empty()) =~= Seq::<Seq<char>>::empty());
                }
                TokenState::Program(Vec::new(), None, false, false, nesting)
            } else {
                TokenState::NormalComment
            }
        },
        TokenState::Program(tokens, cur_tok, quoted, comment, depth) => {
            let comment = comment && c != '\n';
            if !comment {
                if !quoted {
                    TokenState::Program(flush_exec(tokens, cur_tok), None, quoted, comment, depth)
                } else {
                    TokenState::Program(tokens, extend_token_exec(cur_tok, c), quoted, comment, depth)
                }
            } else {
                TokenState::Program(tokens, cur_tok, quoted, comment, depth)
            }
        },
    }
}

fn exec_quote(state: TokenState, nesting: usize, last: Option<char>, programs: &Vec<String>) -> (r: TokenState)
    ensures
        scan_of(r, nesting, last, programs.deep_view()) == step_quote(scan_of(state, nesting, last, programs.deep_view())),
{
    match state {
        TokenState::NormalComment => TokenState::NormalComment,
        TokenState::BeginProgram(_) => TokenState::NormalComment,
        TokenState::Program(tokens, cur_tok, quoted, comment, depth) => {
            if !comment {
                let quoted = if last == Some('\\') { quoted } else { !quoted };
                TokenState::Program(tokens, extend_token_exec(cur_tok, '"'), quoted, comment, depth)
            } else {
                TokenState::Program(tokens, cur_tok, quoted, comment, depth)
            }
        },
    }
}

fn exec_comment(state: TokenState, nesting: usize, last: Option<char>, programs: &Vec<String>) -> (r: TokenState)
    ensures
        scan_of(r, nesting, last, programs.deep_view()) == step_comment(scan_of(state, nesting, last, programs.deep_view())),
{
    match state {
        TokenState::NormalComment => TokenState::NormalComment,
        TokenState::BeginProgram(_) => TokenState::NormalComment,
        TokenState::Program(tokens, cur_tok, quoted, comment, depth) => {
            if !quoted {
                let (tokens, cur_tok) = take_back_semicolon(tokens, cur_tok);
                TokenState::Program(tokens, cur_tok, quoted, true, depth)
            } else {
                TokenState::Program(tokens, extend_token_exec(cur_tok, ';'), quoted, comment, depth)
            }
        },
    }
}

fn exec_other(state: TokenState, nesting: usize, last: Option<char>, programs: &Vec<String>, c: char) -> (r: TokenState)
    ensures
        scan_of(r, nesting, last, programs.deep_view()) == step_other(scan_of(state, nesting, last, programs.deep_view()), c),
{
    match state {
        TokenState::NormalComment => TokenState::NormalComment,
        TokenState::BeginProgram(tag) => {
            let mut tag = tag;
            tag.push(c);
            TokenState::BeginProgram(tag)
        },
        TokenState::Program(tokens, cur_tok, quoted, comment, depth) => {
            if !comment {
                TokenState::Program(tokens, extend_token_exec(cur_tok, c), quoted, comment, depth)
            } else {
                TokenState::Program(tokens, cur_tok, quoted, comment, depth)
            }
        },
    }
}

impl CommandContext {
    /// Extract the programs written inside `(@clairvoyance ...)` blocks of a
    /// comment buffer, each as its tokens joined by single spaces.
    pub fn extract_command_programs(command_buff: &str) -> (programs: Vec<String>)
        ensures
            programs.deep_view() == extracted_programs(command_buff@),
    {
        let cs = chars_of(command_buff);
        let mut state = TokenState::NormalComment;
        let mut nesting: usize = 0;
        let mut programs: Vec<String> = Vec::new();
        let mut last_c: Option<char> = None;
        let mut i: usize = 0;
        proof {
            assert(cs@.take(0) =~= Seq::<char>::empty());
            assert(programs.deep_view() =~= Seq::<Seq<char>>::empty());
        }
        while i < cs.len()
            invariant
                0 <= i <= cs@.len(),
                cs@ == command_buff@,
                nesting as nat <= i,
                scan_chars(cs@.take(i as int)) == scan_of(state, nesting, last_c, programs.deep_view()),
                scan_wf(scan_chars(cs@.take(i as int))),
            decreases cs@.len() - i,
        {
            let c = cs[i];
            proof {
                let pre = cs@.take(i + 1);
                assert(pre.drop_last() =~= cs@.take(i as int));
                assert(pre.last() == c);
                lemma_scan_wf(cs@.take(i + 1));
            }
            let mut old_state = TokenState::NormalComment;
            std::mem::swap(&mut state, &mut old_state);
            if c == '(' {
                let (st, n) = exec_open(old_state, nesting, last_c, &programs);
                state = st;
                nesting = n;
            } else if c == ')' {
                let (st, n) = exec_close(old_state, nesting, last_c, &mut programs);
                state = st;
                nesting = n;
            } else if c == ' ' || c == '\t' || c == '\r' || c == '\n' {
                state = exec_blank(old_state, nesting, last_c, &programs, c);
            } else if c == '"' {
                state = exec_quote(old_state, nesting, last_c, &programs);
            } else if c == ';' && last_c == Some(';') {
                state = exec_comment(old_state, nesting, last_c, &programs);
            } else {
                state = exec_other(old_state, nesting, last_c, &programs, c);
            }
            last_c = Some(c);
            i = i + 1;
        }
        proof {
            assert(cs@.take(cs@.len() as int) =~= cs@);
        }
        match state {
            TokenState::Program(tokens, cur_tok, quoted, _, _) => {
                if !quoted {
                    consume_exec(&mut programs, tokens, cur_tok);
                }
            },
            _ => {},
        }
        programs
    }
}

/// Takes back the `;` that opened a `;;` comment: from the token being read
/// if it has one, else from the last finished token.
fn take_back_semicolon(tokens: Vec<Vec<char>>, cur: Option<Vec<char>>) -> (r: (Vec<Vec<char>>, Option<Vec<char>>))
    ensures
        ({
            let toks = tokens_view(tokens@);
            let cv = token_view(cur);
            let popped_cur = cv is Some && cv->0.len() > 0;
            &&& tokens_view(r.0@) == (if !popped_cur && toks.len() > 0 && toks.last().len() > 0 {
                toks.update(toks.len() - 1, toks.last().drop_last())
            } else {
                toks
            })
            &&& token_view(r.1) == (if popped_cur {
                if cv->0.len() == 1 { None } else { Some(cv->0.drop_last()) }
            } else {
                cv
            })
        }),
{
    let mut tokens = tokens;
    match cur {
        Some(t) if t.len() > 0 => {
            let mut t = t;
            t.pop();
            if t.len() == 0 {
                (tokens, None)
            } else {
                (tokens, Some(t))
            }
        },
        cur => {
            let n = tokens.len();
            if n > 0 && tokens[n - 1].len() > 0 {
                let ghost before = tokens@;
                let mut last = tokens.pop().unwrap();
                last.pop();
                tokens.push(last);
                assert(tokens_view(tokens@) =~= tokens_view(before).update(n - 1, tokens_view(before).last().drop_last()));
            }
            (tokens, cur)
        },
    }
}

} // verus!
