//! The code pattern: a code in square brackets before the rest of a note.

use vstd::prelude::*;
use crate::chars::lemma_skip_whitespace;
use crate::regex::split::{
    all_whitespace, find_tail, last_line_start, no_newline, positions, tail_start,
};

verus! {

/// One match of the code pattern: an opening bracket at `start`, the code
/// `s[start + 1..code_end]`, a closing bracket, optional whitespace, and the
/// rest `s[rest..]`.
pub struct Code {
    pub start: int,
    pub code_end: int,
    pub rest: int,
}

/// The first closing bracket, from `j` on, after which a rest follows, with
/// the start of the rest. The code grows only over characters other than
/// line feed.
pub open spec fn code_end(s: Seq<char>, j: int) -> Option<(int, int)>
    decreases s.len() - j,
{
    if j < 1 || j >= s.len() || s[j - 1] == '\n' {
        None
    } else if s[j] == ']' && tail_start(s, j + 1) is Some {
        Some((j, tail_start(s, j + 1)->0))
    } else {
        code_end(s, j + 1)
    }
}

/// The match of the code pattern that begins at `i`: the code is lazy and
/// holds at least one character.
pub open spec fn code_at(s: Seq<char>, i: int) -> Option<Code> {
    if 0 <= i < s.len() && s[i] == '[' {
        match code_end(s, i + 2) {
            Some((j, q)) => Some(Code { start: i, code_end: j, rest: q }),
            None => None,
        }
    } else {
        None
    }
}

/// The match of the code pattern that begins at the first position from `i`
/// on at which one begins.
pub open spec fn first_code(s: Seq<char>, i: int) -> Option<Code>
    decreases s.len() - i,
{
    if i < 0 || i >= s.len() {
        None
    } else if code_at(s, i) is Some {
        code_at(s, i)
    } else {
        first_code(s, i + 1)
    }
}

/// The bounds of a code match, as positions that fit in memory.
#[derive(Clone, Copy)]
pub struct CodeSpan {
    pub start: usize,
    pub code_end: usize,
    pub rest: usize,
}

impl View for CodeSpan {
    type V = Code;

    open spec fn view(&self) -> Code {
        Code { start: self.start as int, code_end: self.code_end as int, rest: self.rest as int }
    }
}

/// An optional code match, as the match over the integers.
pub open spec fn coded(r: Option<CodeSpan>) -> Option<Code> {
    match r {
        Some(m) => Some(m@),
        None => None,
    }
}

/// A code match lies in the text: the code is not empty, the rest is not
/// empty.
pub open spec fn code_in_bounds(s: Seq<char>, m: Code) -> bool {
    0 <= m.start && m.start + 1 < m.code_end < m.rest < s.len()
}

/// Computes `code_end`.
fn find_code_end(s: &Vec<char>, from: usize, line: usize) -> (r: Option<(usize, usize)>)
    requires
        1 <= from,
        line <= s.len(),
        no_newline(s@, line as int, s.len() as int),
        line > 0 ==> s@[line - 1] == '\n',
    ensures
        positions(r) == code_end(s@, from as int),
        r matches Some((j, q)) ==> from <= j < q < s.len(),
{
    let mut j: usize = from;
    while j < s.len()
        invariant
            1 <= from <= j,
            line <= s.len(),
            no_newline(s@, line as int, s.len() as int),
            line > 0 ==> s@[line - 1] == '\n',
            code_end(s@, j as int) == code_end(s@, from as int),
        decreases s.len() - j,
    {
        if s[j - 1] == '\n' {
            return None;
        }
        if s[j] == ']' {
            match find_tail(s, j + 1, line) {
                Some(q) => {
                    return Some((j, q));
                },
                None => {},
            }
        }
        j += 1;
    }
    None
}

/// The first match of the code pattern in `s`, if there is one.
pub fn find_code(s: &Vec<char>) -> (r: Option<CodeSpan>)
    ensures
        coded(r) == first_code(s@, 0),
        r matches Some(m) ==> code_in_bounds(s@, m@),
{
    let line: usize = last_line_start(s);
    let mut i: usize = 0;
    while i < s.len()
        invariant
            i <= s.len(),
            line <= s.len(),
            no_newline(s@, line as int, s.len() as int),
            line > 0 ==> s@[line - 1] == '\n',
            first_code(s@, i as int) == first_code(s@, 0),
        decreases s.len() - i,
    {
        if s[i] == '[' && s.len() - i >= 2 {
            match find_code_end(s, i + 2, line) {
                Some((j, q)) => {
                    return Some(CodeSpan { start: i, code_end: j, rest: q });
                },
                None => {},
            }
        }
        i += 1;
    }
    None
}

/// The code of a match ends at a closing bracket, and the rest begins after
/// it and is not empty.
pub proof fn lemma_code_end_bounds(s: Seq<char>, j: int)
    requires
        1 <= j,
    ensures
        code_end(s, j) matches Some((end, q)) ==> j <= end < q < s.len() && s[end] == ']',
    decreases s.len() - j,
{
    if j < s.len() && s[j - 1] != '\n' {
        if s[j] == ']' && tail_start(s, j + 1) is Some {
            lemma_skip_whitespace(s, j + 1);
        } else {
            lemma_code_end_bounds(s, j + 1);
        }
    }
}

/// A match of the code pattern lies in the text: it begins at an opening
/// bracket, the code and the rest are not empty.
pub proof fn lemma_code_bounds(s: Seq<char>, i: int)
    requires
        0 <= i,
    ensures
        first_code(s, i) matches Some(m) ==> code_in_bounds(s, m) && i <= m.start && s[m.start]
            == '[' && s[m.code_end] == ']',
    decreases s.len() - i,
{
    if i < s.len() {
        if code_at(s, i) is Some {
            lemma_code_end_bounds(s, i + 2);
        } else {
            lemma_code_bounds(s, i + 1);
        }
    }
}

/// The code of a match is lazy: it ends at the first closing bracket after
/// which a rest follows, and holds no line feed.
pub proof fn lemma_code_is_shortest(s: Seq<char>, j: int)
    requires
        1 <= j,
    ensures
        code_end(s, j) matches Some((end, q)) ==> tail_start(s, end + 1) == Some(q) && no_newline(
            s,
            j - 1,
            end,
        ) && forall|k: int| j <= k < end ==> !(s[k] == ']' && tail_start(s, k + 1) is Some),
    decreases s.len() - j,
{
    if j < s.len() && s[j - 1] != '\n' && !(s[j] == ']' && tail_start(s, j + 1) is Some) {
        lemma_code_is_shortest(s, j + 1);
    }
}

/// A match of the code pattern is made as the pattern says: an opening
/// bracket, the shortest code after which a closing bracket and a rest
/// follow, whitespace, and the rest, which holds no line feed; and no match
/// begins before it.
pub proof fn lemma_code_shape(s: Seq<char>, i: int)
    requires
        0 <= i,
    ensures
        first_code(s, i) matches Some(m) ==> {
            &&& code_in_bounds(s, m)
            &&& s[m.start] == '['
            &&& s[m.code_end] == ']'
            &&& no_newline(s, m.start + 1, m.code_end)
            &&& forall|k: int|
                m.start + 2 <= k < m.code_end ==> !(s[k] == ']' && tail_start(s, k + 1) is Some)
            &&& all_whitespace(s, m.code_end + 1, m.rest)
            &&& no_newline(s, m.rest, s.len() as int)
            &&& forall|k: int| i <= k < m.start ==> code_at(s, k) is None
        },
    decreases s.len() - i,
{
    if i < s.len() {
        if code_at(s, i) is Some {
            let m = code_at(s, i)->0;
            lemma_code_end_bounds(s, i + 2);
            lemma_code_is_shortest(s, i + 2);
            lemma_skip_whitespace(s, m.code_end + 1);
        } else {
            lemma_code_shape(s, i + 1);
        }
    }
}

} // verus!
