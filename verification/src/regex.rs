//! The line patterns of annotated headers: the declaration line of a struct or
//! enum, the documented field line, and the annotations nested in a field's
//! description.
//!
//! Each pattern is defined as a leftmost match whose parts are tried in a
//! fixed order: a greedy part takes the longest stretch first and gives
//! characters back one by one, a lazy part takes the shortest stretch first
//! and grows one character at a time.

use vstd::prelude::*;
use crate::chars::{texts, to_chars, to_string};
use crate::regex::code::{find_code, first_code};
use crate::regex::declaration::{find_declaration, first_declaration};
use crate::regex::layout::{find_layout, layout_match};
use crate::regex::split::{find_split, split_match, SplitPattern, SplitRule};

pub mod code;
pub mod declaration;
pub mod layout;
pub mod split;

verus! {

/// The pattern of a documented field line: a declarator, an optional `;` or
/// `,`, the token `//!<` and a description.
pub open spec fn field_rule() -> SplitRule {
    SplitRule { leading_space: true, separator: true, marker: "//!<"@ }
}

/// The pattern of an annotated description: a note, the token `//` and an
/// annotation.
pub open spec fn annotation_rule() -> SplitRule {
    SplitRule { leading_space: false, separator: false, marker: "//"@ }
}

/// The pattern of a documented field line, as it is held in memory.
pub fn field_pattern() -> (rule: SplitPattern)
    ensures
        rule@ == field_rule(),
{
    SplitPattern { leading_space: true, separator: true, marker: to_chars("//!<") }
}

/// The pattern of an annotated description, as it is held in memory.
pub fn annotation_pattern() -> (rule: SplitPattern)
    ensures
        rule@ == annotation_rule(),
{
    SplitPattern { leading_space: false, separator: false, marker: to_chars("//") }
}

/// The groups of a match of `rule` in `s`: the whole match, the head and
/// the tail.
pub open spec fn split_groups(s: Seq<char>, rule: SplitRule) -> Option<Seq<Seq<char>>> {
    match split_match(s, rule) {
        Some(m) => Some(
            seq![
                s.subrange(m.start, s.len() as int),
                s.subrange(m.head, m.head_end),
                s.subrange(m.tail, s.len() as int),
            ],
        ),
        None => None,
    }
}

/// The groups of the first declaration in `s`: the whole match, the keyword
/// and the name.
pub open spec fn declaration_groups(s: Seq<char>) -> Option<Seq<Seq<char>>> {
    match first_declaration(s, 0) {
        Some(m) => Some(
            seq![
                s.subrange(m.start, m.end),
                s.subrange(m.keyword, m.keyword_end),
                s.subrange(m.name, m.name_end),
            ],
        ),
        None => None,
    }
}

/// The groups of the first match of the code pattern in `s`: the whole
/// match, the code and the rest.
pub open spec fn code_groups(s: Seq<char>) -> Option<Seq<Seq<char>>> {
    match first_code(s, 0) {
        Some(m) => Some(
            seq![
                s.subrange(m.start, s.len() as int),
                s.subrange(m.start + 1, m.code_end),
                s.subrange(m.rest, s.len() as int),
            ],
        ),
        None => None,
    }
}

/// The groups of the match of the layout pattern in `s`: the whole text,
/// the value, the sign flag, the bit width and the position of the most
/// significant bit.
pub open spec fn layout_groups(s: Seq<char>) -> Option<Seq<Seq<char>>> {
    match layout_match(s) {
        Some(m) => Some(
            seq![
                s,
                s.subrange(0, m.value_end),
                s.subrange(m.signed, m.signed_end),
                s.subrange(m.bits, m.bits_end),
                s.subrange(m.msb, m.msb_end),
            ],
        ),
        None => None,
    }
}

/// The five patterns of the extractor.
#[derive(Clone, Copy, Debug)]
pub enum Pattern {
    /// `typedef`, `enum` or `struct`, a name and an opening brace.
    Name,
    /// A declarator, an optional `;` or `,`, `//!<` and a description.
    Field,
    /// A code in square brackets and the rest of the note.
    FieldCode,
    /// A note, `//` and an annotation.
    AdditionalData,
    /// A value and the three tokens of a bit layout.
    SignedData,
}

/// The groups of one match: the whole match at index 0, then the parts that
/// the pattern captures.
pub struct Captures {
    pub groups: Vec<String>,
}

impl View for Captures {
    type V = Seq<Seq<char>>;

    open spec fn view(&self) -> Seq<Seq<char>> {
        texts(self.groups@)
    }
}

impl Captures {
    /// The groups of a match with two parts.
    fn of(whole: String, first: String, second: String) -> (c: Captures)
        ensures
            c@ == seq![whole@, first@, second@],
    {
        let mut groups: Vec<String> = Vec::new();
        groups.push(whole);
        groups.push(first);
        groups.push(second);
        let c = Captures { groups };
        assert(c@ =~= seq![whole@, first@, second@]);
        c
    }

    /// The number of groups, the whole match included.
    pub fn len(&self) -> (n: usize)
        ensures
            n == self@.len(),
    {
        self.groups.len()
    }

    /// The group at index `i`, if the pattern has that many.
    pub fn get(&self, i: usize) -> (r: Option<&String>)
        ensures
            match r {
                Some(g) => i < self@.len() && g@ == self@[i as int],
                None => i >= self@.len(),
            },
    {
        if i < self.groups.len() {
            Some(&self.groups[i])
        } else {
            None
        }
    }
}

/// The groups of an optional match.
pub open spec fn captured(r: Option<Captures>) -> Option<Seq<Seq<char>>> {
    match r {
        Some(c) => Some(c@),
        None => None,
    }
}

impl Pattern {
    /// The groups of the match of this pattern in `s`, if there is one.
    pub open spec fn groups(self, s: Seq<char>) -> Option<Seq<Seq<char>>> {
        match self {
            Pattern::Name => declaration_groups(s),
            Pattern::Field => split_groups(s, field_rule()),
            Pattern::FieldCode => code_groups(s),
            Pattern::AdditionalData => split_groups(s, annotation_rule()),
            Pattern::SignedData => layout_groups(s),
        }
    }

    /// Matches `text` against this pattern and hands out the groups.
    pub fn captures(&self, text: &str) -> (r: Option<Captures>)
        ensures
            captured(r) == self.groups(text@),
    {
        let s = to_chars(text);
        let n: usize = s.len();
        match self {
            Pattern::Name => match find_declaration(&s) {
                Some(m) => Some(
                    Captures::of(
                        to_string(&s, m.start, m.end),
                        to_string(&s, m.keyword, m.keyword_end),
                        to_string(&s, m.name, m.name_end),
                    ),
                ),
                None => None,
            },
            Pattern::Field => match find_split(&s, &field_pattern()) {
                Some(m) => Some(
                    Captures::of(
                        to_string(&s, m.start, n),
                        to_string(&s, m.head, m.head_end),
                        to_string(&s, m.tail, n),
                    ),
                ),
                None => None,
            },
            Pattern::FieldCode => match find_code(&s) {
                Some(m) => Some(
                    Captures::of(
                        to_string(&s, m.start, n),
                        to_string(&s, m.start + 1, m.code_end),
                        to_string(&s, m.rest, n),
                    ),
                ),
                None => None,
            },
            Pattern::AdditionalData => match find_split(&s, &annotation_pattern()) {
                Some(m) => Some(
                    Captures::of(
                        to_string(&s, m.start, n),
                        to_string(&s, m.head, m.head_end),
                        to_string(&s, m.tail, n),
                    ),
                ),
                None => None,
            },
            Pattern::SignedData => match find_layout(&s) {
                Some(m) => {
                    let whole = to_string(&s, 0, n);
                    let value = to_string(&s, 0, m.value_end);
                    let signed = to_string(&s, m.signed, m.signed_end);
                    let bits = to_string(&s, m.bits, m.bits_end);
                    let msb = to_string(&s, m.msb, m.msb_end);
                    assert(s@.subrange(0, n as int) == s@);
                    let ghost expected = seq![whole@, value@, signed@, bits@, msb@];
                    let mut groups: Vec<String> = Vec::new();
                    groups.push(whole);
                    groups.push(value);
                    groups.push(signed);
                    groups.push(bits);
                    groups.push(msb);
                    let c = Captures { groups };
                    assert(c@ =~= expected);
                    Some(c)
                },
                None => None,
            },
        }
    }

    /// Tells whether `text` has a match of this pattern.
    pub fn is_match(&self, text: &str) -> (b: bool)
        ensures
            b == self.groups(text@) is Some,
    {
        self.captures(text).is_some()
    }
}

/// The pattern of the line that declares a struct or an enum.
pub fn name_regex() -> (p: Pattern)
    ensures
        p == Pattern::Name,
{
    Pattern::Name
}

/// The pattern of a documented field line.
pub fn field_regex() -> (p: Pattern)
    ensures
        p == Pattern::Field,
{
    Pattern::Field
}

/// The pattern of a code in square brackets.
pub fn field_code_regex() -> (p: Pattern)
    ensures
        p == Pattern::FieldCode,
{
    Pattern::FieldCode
}

/// The pattern of an annotation that follows `//`.
pub fn additional_data_regex() -> (p: Pattern)
    ensures
        p == Pattern::AdditionalData,
{
    Pattern::AdditionalData
}

/// The pattern of a value followed by a bit layout.
pub fn signed_data_regex() -> (p: Pattern)
    ensures
        p == Pattern::SignedData,
{
    Pattern::SignedData
}

} // verus!
