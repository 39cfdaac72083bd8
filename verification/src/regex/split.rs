//! Splitting patterns: a head and a tail with a marker between them. The
//! field line and the annotated description are of this shape.

use vstd::prelude::*;
use crate::chars::{
    has_at, is_whitespace, lemma_skip_whitespace, occurs_at, skip_whitespace, whitespace_end,
};

verus! {

/// No line feed stands in `s[from..to]`.
pub open spec fn no_newline(s: Seq<char>, from: int, to: int) -> bool {
    forall|k: int| from <= k < to ==> s[k] != '\n'
}

/// The characters that may set a declarator off from what follows it.
pub open spec fn is_separator(c: char) -> bool {
    c == ';' || c == ','
}

/// A pattern of the shape *head*, *marker*, *tail*: optional leading
/// whitespace (where `leading_space`), a lazy head of one or more
/// characters other than line feed, an optional `;` or `,` (where
/// `separator`), whitespace, the marker, whitespace, and a lazy tail of one
/// or more characters other than line feed that ends where the text ends.
/// The marker begins with a character that is no whitespace.
pub struct SplitRule {
    pub leading_space: bool,
    pub separator: bool,
    pub marker: Seq<char>,
}

/// One match of a `SplitRule`: the match begins at `start`, the head is
/// `s[head..head_end]`, the tail is `s[tail..]`.
pub struct Split {
    pub start: int,
    pub head: int,
    pub head_end: int,
    pub tail: int,
}

/// Where the tail begins when the marker ends at `from`. The whitespace
/// after the marker is skipped; where nothing but whitespace follows, the
/// tail is the last character of the text.
pub open spec fn tail_start(s: Seq<char>, from: int) -> Option<int> {
    let q = skip_whitespace(s, from);
    if q < s.len() {
        if no_newline(s, q, s.len() as int) {
            Some(q)
        } else {
            None
        }
    } else if from < s.len() && s[s.len() - 1] != '\n' {
        Some(s.len() - 1)
    } else {
        None
    }
}

/// Where the tail begins when whitespace, the marker and a tail follow
/// position `x`.
pub open spec fn marker_then_tail(s: Seq<char>, x: int, marker: Seq<char>) -> Option<int> {
    let m = skip_whitespace(s, x);
    if occurs_at(s, m, marker) {
        tail_start(s, m + marker.len())
    } else {
        None
    }
}

/// Where the tail begins when the head ends at `e`: a `;` or `,` at `e` is
/// taken as the separator if the rest then matches, and as part of the rest
/// otherwise.
pub open spec fn after_head(s: Seq<char>, e: int, rule: SplitRule) -> Option<int> {
    if rule.separator && 0 <= e < s.len() && is_separator(s[e]) && marker_then_tail(
        s,
        e + 1,
        rule.marker,
    ) is Some {
        marker_then_tail(s, e + 1, rule.marker)
    } else {
        marker_then_tail(s, e, rule.marker)
    }
}

/// The first end of a head, from `e` on, after which the rest matches, with
/// the start of the tail. The head grows only over characters other than
/// line feed.
pub open spec fn head_end(s: Seq<char>, e: int, rule: SplitRule) -> Option<(int, int)>
    decreases s.len() + 1 - e,
{
    if e < 1 || e > s.len() || s[e - 1] == '\n' {
        None
    } else if after_head(s, e, rule) is Some {
        Some((e, after_head(s, e, rule)->0))
    } else {
        head_end(s, e + 1, rule)
    }
}

/// The match that begins at `i` whose head begins at `p` or, failing that,
/// at the nearest position before `p` and not before `i`.
pub open spec fn match_from(s: Seq<char>, i: int, p: int, rule: SplitRule) -> Option<Split>
    decreases p + 1 - i,
{
    if p < i {
        None
    } else {
        match head_end(s, p + 1, rule) {
            Some((e, q)) => Some(Split { start: i, head: p, head_end: e, tail: q }),
            None => match_from(s, i, p - 1, rule),
        }
    }
}

/// The last position at which the head of a match that begins at `i` may
/// begin.
pub open spec fn head_limit(s: Seq<char>, i: int, rule: SplitRule) -> int {
    if rule.leading_space {
        skip_whitespace(s, i)
    } else {
        i
    }
}

/// The match that begins at the first position from `i` on at which one
/// begins.
pub open spec fn first_match(s: Seq<char>, i: int, rule: SplitRule) -> Option<Split>
    decreases s.len() - i,
{
    if i < 0 || i >= s.len() {
        None
    } else {
        match match_from(s, i, head_limit(s, i, rule), rule) {
            Some(m) => Some(m),
            None => first_match(s, i + 1, rule),
        }
    }
}

/// The match of `rule` in `s`, if there is one.
pub open spec fn split_match(s: Seq<char>, rule: SplitRule) -> Option<Split> {
    first_match(s, 0, rule)
}

/// The bounds of a match, as positions that fit in memory.
#[derive(Clone, Copy)]
pub struct SplitSpan {
    pub start: usize,
    pub head: usize,
    pub head_end: usize,
    pub tail: usize,
}

impl View for SplitSpan {
    type V = Split;

    open spec fn view(&self) -> Split {
        Split {
            start: self.start as int,
            head: self.head as int,
            head_end: self.head_end as int,
            tail: self.tail as int,
        }
    }
}

/// An optional position, as an optional integer.
pub open spec fn position(r: Option<usize>) -> Option<int> {
    match r {
        Some(q) => Some(q as int),
        None => None,
    }
}

/// The position after the last line feed of `s`, or 0.
pub(crate) fn last_line_start(s: &Vec<char>) -> (l: usize)
    ensures
        l <= s.len(),
        no_newline(s@, l as int, s.len() as int),
        l > 0 ==> s@[l - 1] == '\n',
{
    let mut l: usize = s.len();
    while l > 0 && s[l - 1] != '\n'
        invariant
            l <= s.len(),
            no_newline(s@, l as int, s.len() as int),
        decreases l,
    {
        l -= 1;
    }
    l
}

/// Computes `tail_start`; `line` is the position after the last line feed.
pub(crate) fn find_tail(s: &Vec<char>, from: usize, line: usize) -> (r: Option<usize>)
    requires
        from <= s.len(),
        line <= s.len(),
        no_newline(s@, line as int, s.len() as int),
        line > 0 ==> s@[line - 1] == '\n',
    ensures
        position(r) == tail_start(s@, from as int),
        r matches Some(q) ==> from <= q < s.len(),
{
    let q: usize = whitespace_end(s, from);
    if q < s.len() {
        if q >= line {
            Some(q)
        } else {
            None
        }
    } else if from < s.len() && s[s.len() - 1] != '\n' {
        Some(s.len() - 1)
    } else {
        None
    }
}

/// Computes `marker_then_tail`.
fn find_marker_then_tail(s: &Vec<char>, x: usize, marker: &Vec<char>, line: usize) -> (r: Option<
    usize,
>)
    requires
        x <= s.len(),
        line <= s.len(),
        no_newline(s@, line as int, s.len() as int),
        line > 0 ==> s@[line - 1] == '\n',
    ensures
        position(r) == marker_then_tail(s@, x as int, marker@),
        r matches Some(q) ==> x <= q < s.len(),
{
    let m: usize = whitespace_end(s, x);
    if has_at(s, m, marker) {
        find_tail(s, m + marker.len(), line)
    } else {
        None
    }
}

/// A splitting pattern as it is held in memory.
pub struct SplitPattern {
    pub leading_space: bool,
    pub separator: bool,
    pub marker: Vec<char>,
}

impl View for SplitPattern {
    type V = SplitRule;

    open spec fn view(&self) -> SplitRule {
        SplitRule {
            leading_space: self.leading_space,
            separator: self.separator,
            marker: self.marker@,
        }
    }
}

/// Computes `after_head`.
fn find_after_head(s: &Vec<char>, e: usize, rule: &SplitPattern, line: usize) -> (r: Option<usize>)
    requires
        e <= s.len(),
        line <= s.len(),
        no_newline(s@, line as int, s.len() as int),
        line > 0 ==> s@[line - 1] == '\n',
    ensures
        position(r) == after_head(s@, e as int, rule@),
        r matches Some(q) ==> e <= q < s.len(),
{
    if rule.separator && e < s.len() && (s[e] == ';' || s[e] == ',') {
        let r = find_marker_then_tail(s, e + 1, &rule.marker, line);
        if r.is_some() {
            return r;
        }
    }
    find_marker_then_tail(s, e, &rule.marker, line)
}

/// An optional pair of positions, as an optional pair of integers.
pub open spec fn positions(r: Option<(usize, usize)>) -> Option<(int, int)> {
    match r {
        Some((e, q)) => Some((e as int, q as int)),
        None => None,
    }
}

/// Computes `head_end`.
fn find_head_end(s: &Vec<char>, from: usize, rule: &SplitPattern, line: usize) -> (r: Option<
    (usize, usize),
>)
    requires
        1 <= from <= s.len(),
        line <= s.len(),
        no_newline(s@, line as int, s.len() as int),
        line > 0 ==> s@[line - 1] == '\n',
    ensures
        positions(r) == head_end(s@, from as int, rule@),
        r matches Some((e, q)) ==> from <= e <= q < s.len() && no_newline(
            s@,
            from - 1,
            e as int,
        ),
{
    let mut e: usize = from;
    loop
        invariant
            1 <= from <= e <= s.len(),
            line <= s.len(),
            no_newline(s@, line as int, s.len() as int),
            line > 0 ==> s@[line - 1] == '\n',
            head_end(s@, e as int, rule@) == head_end(s@, from as int, rule@),
            no_newline(s@, from - 1, e - 1),
        decreases s.len() - e,
    {
        if s[e - 1] == '\n' {
            return None;
        }
        match find_after_head(s, e, rule, line) {
            Some(q) => {
                return Some((e, q));
            },
            None => {},
        }
        if e == s.len() {
            assert(head_end(s@, e + 1, rule@) is None);
            return None;
        }
        e += 1;
    }
}

/// An optional match, as the match over the integers.
pub open spec fn span(r: Option<SplitSpan>) -> Option<Split> {
    match r {
        Some(m) => Some(m@),
        None => None,
    }
}

/// A match lies in the text: its parts follow one another, the head is not
/// empty, the tail is not empty and ends the text.
pub open spec fn split_in_bounds(s: Seq<char>, m: Split) -> bool {
    &&& 0 <= m.start <= m.head < m.head_end <= m.tail < s.len()
    &&& no_newline(s, m.head, m.head_end)
}

/// Computes `match_from`.
fn find_match_from(s: &Vec<char>, i: usize, limit: usize, rule: &SplitPattern, line: usize) -> (r:
    Option<SplitSpan>)
    requires
        i <= limit <= s.len(),
        line <= s.len(),
        no_newline(s@, line as int, s.len() as int),
        line > 0 ==> s@[line - 1] == '\n',
    ensures
        span(r) == match_from(s@, i as int, limit as int, rule@),
        r matches Some(m) ==> split_in_bounds(s@, m@) && m.start == i && m.head <= limit,
{
    let mut p: usize = limit;
    loop
        invariant
            i <= p <= limit <= s.len(),
            line <= s.len(),
            no_newline(s@, line as int, s.len() as int),
            line > 0 ==> s@[line - 1] == '\n',
            match_from(s@, i as int, p as int, rule@) == match_from(
                s@,
                i as int,
                limit as int,
                rule@,
            ),
        decreases p - i,
    {
        if p < s.len() {
            match find_head_end(s, p + 1, rule, line) {
                Some((e, q)) => {
                    return Some(SplitSpan { start: i, head: p, head_end: e, tail: q });
                },
                None => {},
            }
        }
        if p == i {
            assert(match_from(s@, i as int, p - 1, rule@) is None);
            return None;
        }
        p -= 1;
    }
}

/// Computes `first_match`.
fn find_first_match(s: &Vec<char>, rule: &SplitPattern, line: usize) -> (r: Option<SplitSpan>)
    requires
        line <= s.len(),
        no_newline(s@, line as int, s.len() as int),
        line > 0 ==> s@[line - 1] == '\n',
    ensures
        span(r) == split_match(s@, rule@),
        r matches Some(m) ==> split_in_bounds(s@, m@),
{
    let mut i: usize = 0;
    while i < s.len()
        invariant
            i <= s.len(),
            line <= s.len(),
            no_newline(s@, line as int, s.len() as int),
            line > 0 ==> s@[line - 1] == '\n',
            first_match(s@, i as int, rule@) == split_match(s@, rule@),
        decreases s.len() - i,
    {
        let limit: usize = if rule.leading_space {
            whitespace_end(s, i)
        } else {
            i
        };
        match find_match_from(s, i, limit, rule, line) {
            Some(m) => {
                return Some(m);
            },
            None => {},
        }
        i += 1;
    }
    None
}

/// A head can end at `e`: the character before `e` is no line feed and the
/// rest of the pattern matches from `e`.
pub open spec fn can_end_head(s: Seq<char>, e: int, rule: SplitRule) -> bool {
    1 <= e <= s.len() && s[e - 1] != '\n' && after_head(s, e, rule) is Some
}

/// Where no head can end, no head ends.
proof fn lemma_no_head_end(s: Seq<char>, e: int, rule: SplitRule)
    requires
        forall|k: int| !can_end_head(s, k, rule),
    ensures
        head_end(s, e, rule) is None,
    decreases s.len() + 1 - e,
{
    if 1 <= e <= s.len() {
        assert(!can_end_head(s, e, rule));
        lemma_no_head_end(s, e + 1, rule);
    }
}

/// Where no head can end, no match begins at `i`.
proof fn lemma_no_match_from(s: Seq<char>, i: int, p: int, rule: SplitRule)
    requires
        forall|k: int| !can_end_head(s, k, rule),
    ensures
        match_from(s, i, p, rule) is None,
    decreases p + 1 - i,
{
    if p >= i {
        lemma_no_head_end(s, p + 1, rule);
        lemma_no_match_from(s, i, p - 1, rule);
    }
}

/// A text has a match only if a head can end somewhere in it.
pub proof fn lemma_no_first_match(s: Seq<char>, i: int, rule: SplitRule)
    requires
        forall|k: int| !can_end_head(s, k, rule),
    ensures
        first_match(s, i, rule) is None,
    decreases s.len() - i,
{
    if 0 <= i < s.len() {
        lemma_no_match_from(s, i, head_limit(s, i, rule), rule);
        lemma_no_first_match(s, i + 1, rule);
    }
}

/// Tells whether a head can end anywhere in `s`.
fn has_head_end(s: &Vec<char>, rule: &SplitPattern, line: usize) -> (b: bool)
    requires
        line <= s.len(),
        no_newline(s@, line as int, s.len() as int),
        line > 0 ==> s@[line - 1] == '\n',
    ensures
        b == exists|k: int| can_end_head(s@, k, rule@),
{
    let mut e: usize = 0;
    while e < s.len()
        invariant
            e <= s.len(),
            line <= s.len(),
            no_newline(s@, line as int, s.len() as int),
            line > 0 ==> s@[line - 1] == '\n',
            forall|k: int| k <= e ==> !can_end_head(s@, k, rule@),
        decreases s.len() - e,
    {
        e += 1;
        if s[e - 1] != '\n' && find_after_head(s, e, rule, line).is_some() {
            assert(can_end_head(s@, e as int, rule@));
            return true;
        }
    }
    false
}

/// The match of `rule` in `s`, if there is one.
pub fn find_split(s: &Vec<char>, rule: &SplitPattern) -> (r: Option<SplitSpan>)
    ensures
        span(r) == split_match(s@, rule@),
        r matches Some(m) ==> split_in_bounds(s@, m@),
{
    let line: usize = last_line_start(s);
    if !has_head_end(s, rule, line) {
        proof {
            lemma_no_first_match(s@, 0, rule@);
        }
        return None;
    }
    find_first_match(s, rule, line)
}

/// Where the rest of a splitting pattern matches from `e`, the tail begins
/// at or after `e` and is not empty.
pub proof fn lemma_after_head_bounds(s: Seq<char>, e: int, rule: SplitRule)
    requires
        0 <= e <= s.len(),
    ensures
        after_head(s, e, rule) matches Some(q) ==> e <= q < s.len(),
{
    if after_head(s, e, rule) is Some {
        let x = if rule.separator && e < s.len() && is_separator(s[e]) && marker_then_tail(
            s,
            e + 1,
            rule.marker,
        ) is Some {
            e + 1
        } else {
            e
        };
        lemma_skip_whitespace(s, x);
        let m = skip_whitespace(s, x);
        lemma_skip_whitespace(s, m + rule.marker.len());
    }
}

/// The head of a match is not empty and holds no line feed, and the tail
/// begins after it and is not empty.
pub proof fn lemma_head_end_bounds(s: Seq<char>, e: int, rule: SplitRule)
    requires
        1 <= e,
    ensures
        head_end(s, e, rule) matches Some((end, q)) ==> e <= end <= q < s.len() && no_newline(
            s,
            e - 1,
            end,
        ),
    decreases s.len() + 1 - e,
{
    if e <= s.len() && s[e - 1] != '\n' {
        if after_head(s, e, rule) is Some {
            lemma_after_head_bounds(s, e, rule);
        } else {
            lemma_head_end_bounds(s, e + 1, rule);
        }
    }
}

/// A match that begins at `i` lies in the text, and its head begins between
/// `i` and `p`.
pub proof fn lemma_match_from_bounds(s: Seq<char>, i: int, p: int, rule: SplitRule)
    requires
        0 <= i,
    ensures
        match_from(s, i, p, rule) matches Some(m) ==> split_in_bounds(s, m) && m.start == i
            && m.head <= p,
    decreases p + 1 - i,
{
    if p >= i {
        lemma_head_end_bounds(s, p + 1, rule);
        lemma_match_from_bounds(s, i, p - 1, rule);
    }
}

/// The match of a splitting pattern lies in the text: its parts follow one
/// another, the head and the tail are not empty, the head holds no line
/// feed, and only whitespace stands between the start of the match and the
/// head.
pub proof fn lemma_split_match_bounds(s: Seq<char>, i: int, rule: SplitRule)
    requires
        0 <= i,
    ensures
        first_match(s, i, rule) matches Some(m) ==> split_in_bounds(s, m) && i <= m.start
            && m.head <= head_limit(s, m.start, rule),
    decreases s.len() - i,
{
    if i < s.len() {
        lemma_match_from_bounds(s, i, head_limit(s, i, rule), rule);
        lemma_split_match_bounds(s, i + 1, rule);
    }
}

/// Only whitespace stands in `s[from..to]`.
pub open spec fn all_whitespace(s: Seq<char>, from: int, to: int) -> bool {
    forall|k: int| from <= k < to ==> is_whitespace(#[trigger] s[k])
}

/// What stands between a head and its tail: the separator where one was
/// taken, then whitespace up to `b`, the marker at `b`, and whitespace up to
/// the tail, which holds no line feed.
pub open spec fn joins(s: Seq<char>, e: int, a: int, b: int, q: int, rule: SplitRule) -> bool {
    &&& e <= a <= b <= q < s.len()
    &&& a == e || (a == e + 1 && rule.separator && is_separator(s[e]))
    &&& all_whitespace(s, a, b)
    &&& occurs_at(s, b, rule.marker)
    &&& b + rule.marker.len() <= q
    &&& all_whitespace(s, b + rule.marker.len(), q)
    &&& no_newline(s, q, s.len() as int)
}

/// Where the rest of a splitting pattern matches from `e`, the text from `e`
/// on is made as the pattern says.
pub proof fn lemma_after_head_shape(s: Seq<char>, e: int, rule: SplitRule)
    requires
        0 <= e <= s.len(),
    ensures
        after_head(s, e, rule) matches Some(q) ==> exists|a: int, b: int|
            joins(s, e, a, b, q, rule),
{
    if after_head(s, e, rule) is Some {
        let q = after_head(s, e, rule)->0;
        let a = if rule.separator && e < s.len() && is_separator(s[e]) && marker_then_tail(
            s,
            e + 1,
            rule.marker,
        ) is Some {
            e + 1
        } else {
            e
        };
        lemma_skip_whitespace(s, a);
        let b = skip_whitespace(s, a);
        lemma_skip_whitespace(s, b + rule.marker.len());
        assert(joins(s, e, a, b, q, rule));
    }
}

/// The head of a match is lazy: it ends at the first position at which the
/// rest of the pattern matches.
pub proof fn lemma_head_is_shortest(s: Seq<char>, e: int, rule: SplitRule)
    requires
        1 <= e,
    ensures
        head_end(s, e, rule) matches Some((end, q)) ==> after_head(s, end, rule) == Some(q)
            && forall|k: int| e <= k < end ==> after_head(s, k, rule) is None,
    decreases s.len() + 1 - e,
{
    if e <= s.len() && s[e - 1] != '\n' && after_head(s, e, rule) is None {
        lemma_head_is_shortest(s, e + 1, rule);
    }
}

/// A match is made as the pattern says: whitespace leads up to the head,
/// the head is the shortest after which the rest matches, and the rest is
/// the separator where one was taken, whitespace, the marker, whitespace
/// and the tail.
pub proof fn lemma_split_match_shape(s: Seq<char>, i: int, rule: SplitRule)
    requires
        0 <= i,
    ensures
        first_match(s, i, rule) matches Some(m) ==> {
            &&& split_in_bounds(s, m)
            &&& all_whitespace(s, m.start, m.head)
            &&& !rule.leading_space ==> m.start == m.head
            &&& forall|k: int| m.head < k < m.head_end ==> after_head(s, k, rule) is None
            &&& exists|a: int, b: int| joins(s, m.head_end, a, b, m.tail, rule)
        },
    decreases s.len() - i,
{
    if i < s.len() {
        if match_from(s, i, head_limit(s, i, rule), rule) is Some {
            lemma_match_from_shape(s, i, head_limit(s, i, rule), rule);
            lemma_skip_whitespace(s, i);
        } else {
            lemma_split_match_shape(s, i + 1, rule);
        }
    }
}

/// The shape of a match that begins at `i` and whose head begins at `p` or
/// before.
proof fn lemma_match_from_shape(s: Seq<char>, i: int, p: int, rule: SplitRule)
    requires
        0 <= i,
    ensures
        match_from(s, i, p, rule) matches Some(m) ==> {
            &&& split_in_bounds(s, m)
            &&& m.start == i
            &&& i <= m.head <= p
            &&& forall|k: int| m.head < k < m.head_end ==> after_head(s, k, rule) is None
            &&& exists|a: int, b: int| joins(s, m.head_end, a, b, m.tail, rule)
        },
    decreases p + 1 - i,
{
    if p >= i {
        match head_end(s, p + 1, rule) {
            Some((e, q)) => {
                lemma_head_end_bounds(s, p + 1, rule);
                lemma_head_is_shortest(s, p + 1, rule);
                lemma_after_head_shape(s, e, rule);
            },
            None => {
                lemma_match_from_shape(s, i, p - 1, rule);
            },
        }
    }
}

/// A match is the leftmost: no match begins before it.
pub proof fn lemma_split_match_leftmost(s: Seq<char>, i: int, rule: SplitRule)
    requires
        0 <= i,
    ensures
        first_match(s, i, rule) matches Some(m) ==> forall|k: int|
            i <= k < m.start ==> match_from(s, k, head_limit(s, k, rule), rule) is None,
        first_match(s, i, rule) is None ==> forall|k: int|
            i <= k < s.len() ==> match_from(s, k, head_limit(s, k, rule), rule) is None,
    decreases s.len() - i,
{
    if i < s.len() {
        lemma_match_from_bounds(s, i, head_limit(s, i, rule), rule);
        lemma_split_match_leftmost(s, i + 1, rule);
    }
}

/// A text has a match exactly where a head can end somewhere in it.
pub proof fn lemma_split_match_exists(s: Seq<char>, rule: SplitRule)
    ensures
        split_match(s, rule) is Some <==> exists|e: int| can_end_head(s, e, rule),
{
    if exists|e: int| can_end_head(s, e, rule) {
        let e = choose|e: int| can_end_head(s, e, rule);
        if split_match(s, rule) is None {
            lemma_split_match_leftmost(s, 0, rule);
            let k = e - 1;
            lemma_skip_whitespace(s, k);
            assert(head_end(s, e, rule) is Some);
            lemma_match_from_reaches(s, k, head_limit(s, k, rule), rule);
        }
    } else {
        lemma_no_first_match(s, 0, rule);
    }
}

/// A match that begins at `i` is found if a head that begins at `i` can
/// end.
proof fn lemma_match_from_reaches(s: Seq<char>, i: int, p: int, rule: SplitRule)
    requires
        i <= p,
        head_end(s, i + 1, rule) is Some,
    ensures
        match_from(s, i, p, rule) is Some,
    decreases p - i,
{
    if p > i && head_end(s, p + 1, rule) is None {
        lemma_match_from_reaches(s, i, p - 1, rule);
    }
}

/// From `e` on a head ends where the nearest head end stands: nothing in
/// between holds a line feed.
proof fn lemma_head_end_reaches(s: Seq<char>, e: int, end: int, rule: SplitRule)
    requires
        1 <= e <= end,
        can_end_head(s, end, rule),
        no_newline(s, e - 1, end),
    ensures
        head_end(s, e, rule) is Some,
    decreases end - e,
{
    if e < end && after_head(s, e, rule) is None {
        lemma_head_end_reaches(s, e + 1, end, rule);
    }
}

/// In a text without line feed a match begins where the text begins.
pub proof fn lemma_split_match_on_line(s: Seq<char>, rule: SplitRule)
    requires
        no_newline(s, 0, s.len() as int),
    ensures
        split_match(s, rule) matches Some(m) ==> m.start == 0,
{
    if split_match(s, rule) is Some {
        lemma_split_match_exists(s, rule);
        let e = choose|e: int| can_end_head(s, e, rule);
        lemma_head_end_reaches(s, 1, e, rule);
        lemma_skip_whitespace(s, 0);
        lemma_match_from_reaches(s, 0, head_limit(s, 0, rule), rule);
        lemma_match_from_bounds(s, 0, head_limit(s, 0, rule), rule);
    }
}

/// A text has no match unless the marker stands somewhere in it.
pub proof fn lemma_split_match_needs_marker(s: Seq<char>, rule: SplitRule)
    ensures
        split_match(s, rule) is Some ==> exists|b: int| occurs_at(s, b, rule.marker),
{
    if split_match(s, rule) is Some {
        let m = split_match(s, rule)->0;
        lemma_split_match_shape(s, 0, rule);
        let (a, b) = choose|a: int, b: int| joins(s, m.head_end, a, b, m.tail, rule);
        assert(occurs_at(s, b, rule.marker));
    }
}

} // verus!
