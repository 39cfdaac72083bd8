//! The declaration pattern: the line that opens a struct or an enum.

use vstd::prelude::*;
use crate::chars::{
    has_at, is_word, lemma_skip_whitespace, lemma_skip_word, occurs_at, skip_whitespace,
    skip_word, to_chars, whitespace_end, word_end,
};
use crate::regex::split::all_whitespace;

verus! {

/// One match of the declaration pattern: the word `typedef`, whitespace, the
/// keyword `enum` or `struct` at `keyword`, whitespace, the name
/// `s[name..name_end]`, optional whitespace and an opening brace, after
/// which the match ends.
pub struct Declaration {
    pub start: int,
    pub keyword: int,
    pub keyword_end: int,
    pub name: int,
    pub name_end: int,
    pub end: int,
}

/// The declaration that begins at `i`. Each stretch of whitespace and the
/// name are the longest runs of their kind.
pub open spec fn declaration_at(s: Seq<char>, i: int) -> Option<Declaration> {
    let keyword = skip_whitespace(s, i + "typedef"@.len());
    let keyword_end = if occurs_at(s, keyword, "enum"@) {
        keyword + "enum"@.len()
    } else {
        keyword + "struct"@.len()
    };
    let name = skip_whitespace(s, keyword_end);
    let name_end = skip_word(s, name);
    let brace = skip_whitespace(s, name_end);
    if occurs_at(s, i, "typedef"@) && keyword > i + "typedef"@.len() && (occurs_at(
        s,
        keyword,
        "enum"@,
    ) || occurs_at(s, keyword, "struct"@)) && name > keyword_end && name_end > name && brace
        < s.len() && s[brace] == '{' {
        Some(Declaration { start: i, keyword, keyword_end, name, name_end, end: brace + 1 })
    } else {
        None
    }
}

/// The declaration that begins at the first position from `i` on at which
/// one begins.
pub open spec fn first_declaration(s: Seq<char>, i: int) -> Option<Declaration>
    decreases s.len() - i,
{
    if i < 0 || i >= s.len() {
        None
    } else if declaration_at(s, i) is Some {
        declaration_at(s, i)
    } else {
        first_declaration(s, i + 1)
    }
}

/// The bounds of a declaration, as positions that fit in memory.
#[derive(Clone, Copy)]
pub struct DeclarationSpan {
    pub start: usize,
    pub keyword: usize,
    pub keyword_end: usize,
    pub name: usize,
    pub name_end: usize,
    pub end: usize,
}

impl View for DeclarationSpan {
    type V = Declaration;

    open spec fn view(&self) -> Declaration {
        Declaration {
            start: self.start as int,
            keyword: self.keyword as int,
            keyword_end: self.keyword_end as int,
            name: self.name as int,
            name_end: self.name_end as int,
            end: self.end as int,
        }
    }
}

/// An optional declaration, as the declaration over the integers.
pub open spec fn declared(r: Option<DeclarationSpan>) -> Option<Declaration> {
    match r {
        Some(m) => Some(m@),
        None => None,
    }
}

/// A declaration lies in the text and its parts follow one another.
pub open spec fn declaration_in_bounds(s: Seq<char>, m: Declaration) -> bool {
    0 <= m.start < m.keyword < m.keyword_end < m.name < m.name_end < m.end <= s.len()
}

/// The three words of the declaration pattern.
struct Keywords {
    typedef: Vec<char>,
    enumeration: Vec<char>,
    structure: Vec<char>,
}

impl Keywords {
    spec fn wf(&self) -> bool {
        &&& self.typedef@ == "typedef"@
        &&& self.enumeration@ == "enum"@
        &&& self.structure@ == "struct"@
    }

    fn new() -> (k: Keywords)
        ensures
            k.wf(),
    {
        Keywords {
            typedef: to_chars("typedef"),
            enumeration: to_chars("enum"),
            structure: to_chars("struct"),
        }
    }
}

/// Computes `declaration_at`.
fn find_declaration_at(s: &Vec<char>, i: usize, words: &Keywords) -> (r: Option<DeclarationSpan>)
    requires
        words.wf(),
    ensures
        declared(r) == declaration_at(s@, i as int),
        r matches Some(m) ==> declaration_in_bounds(s@, m@),
{
    if !has_at(s, i, &words.typedef) {
        return None;
    }
    let width: usize = words.typedef.len();
    assert(i + width <= s.len());
    let after: usize = i + width;
    let keyword: usize = whitespace_end(s, after);
    if keyword == after {
        return None;
    }
    let keyword_end: usize = if has_at(s, keyword, &words.enumeration) {
        keyword + words.enumeration.len()
    } else if has_at(s, keyword, &words.structure) {
        keyword + words.structure.len()
    } else {
        return None;
    };
    let name: usize = whitespace_end(s, keyword_end);
    if name == keyword_end {
        return None;
    }
    let name_end: usize = word_end(s, name);
    if name_end == name {
        return None;
    }
    let brace: usize = whitespace_end(s, name_end);
    if brace < s.len() && s[brace] == '{' {
        proof {
            reveal_strlit("typedef");
            reveal_strlit("enum");
            reveal_strlit("struct");
        }
        Some(DeclarationSpan { start: i, keyword, keyword_end, name, name_end, end: brace + 1 })
    } else {
        None
    }
}

/// The first declaration in `s`, if there is one.
pub fn find_declaration(s: &Vec<char>) -> (r: Option<DeclarationSpan>)
    ensures
        declared(r) == first_declaration(s@, 0),
        r matches Some(m) ==> declaration_in_bounds(s@, m@),
{
    let words = Keywords::new();
    let mut i: usize = 0;
    while i < s.len()
        invariant
            i <= s.len(),
            words.wf(),
            first_declaration(s@, i as int) == first_declaration(s@, 0),
        decreases s.len() - i,
    {
        match find_declaration_at(s, i, &words) {
            Some(m) => {
                return Some(m);
            },
            None => {},
        }
        i += 1;
    }
    None
}

/// A declaration lies in the text and its parts follow one another.
pub proof fn lemma_declaration_bounds(s: Seq<char>, i: int)
    requires
        0 <= i,
    ensures
        first_declaration(s, i) matches Some(m) ==> declaration_in_bounds(s, m) && i <= m.start,
    decreases s.len() - i,
{
    if i < s.len() {
        if declaration_at(s, i) is Some {
            reveal_strlit("typedef");
            reveal_strlit("enum");
            reveal_strlit("struct");
            let m = declaration_at(s, i)->0;
            lemma_skip_whitespace(s, m.name_end);
            lemma_skip_word(s, m.name);
            lemma_skip_whitespace(s, m.keyword_end);
        } else {
            lemma_declaration_bounds(s, i + 1);
        }
    }
}

/// The first declaration is a declaration at the position where it begins,
/// and its keyword is `enum` exactly where `enum` stands at the keyword.
pub proof fn lemma_declaration_keyword(s: Seq<char>, i: int)
    requires
        0 <= i,
    ensures
        first_declaration(s, i) matches Some(m) ==> declaration_at(s, m.start) == Some(m) && (
        occurs_at(s, m.keyword, "enum"@) <==> s.subrange(m.keyword, m.keyword_end) == "enum"@)
            && (!occurs_at(s, m.keyword, "enum"@) <==> s.subrange(m.keyword, m.keyword_end)
            == "struct"@),
    decreases s.len() - i,
{
    if i < s.len() {
        if declaration_at(s, i) is Some {
            reveal_strlit("enum");
            reveal_strlit("struct");
            let m = declaration_at(s, i)->0;
            if occurs_at(s, m.keyword, "enum"@) {
                assert(s.subrange(m.keyword, m.keyword_end).len() == 4);
            } else {
                assert(s.subrange(m.keyword, m.keyword_end).len() == 6);
            }
        } else {
            lemma_declaration_keyword(s, i + 1);
        }
    }
}

/// A declaration is made as the pattern says: `typedef`, whitespace, the
/// keyword `enum` or `struct`, whitespace, a name of word characters,
/// whitespace and an opening brace; and no declaration begins before it.
pub proof fn lemma_declaration_shape(s: Seq<char>, i: int)
    requires
        0 <= i,
    ensures
        first_declaration(s, i) matches Some(m) ==> {
            &&& occurs_at(s, m.start, "typedef"@)
            &&& all_whitespace(s, m.start + "typedef"@.len(), m.keyword)
            &&& s.subrange(m.keyword, m.keyword_end) == "enum"@ || s.subrange(
                m.keyword,
                m.keyword_end,
            ) == "struct"@
            &&& all_whitespace(s, m.keyword_end, m.name)
            &&& forall|k: int| m.name <= k < m.name_end ==> is_word(#[trigger] s[k])
            &&& all_whitespace(s, m.name_end, m.end - 1)
            &&& s[m.end - 1] == '{'
            &&& forall|k: int| i <= k < m.start ==> declaration_at(s, k) is None
        },
    decreases s.len() - i,
{
    if i < s.len() {
        if declaration_at(s, i) is Some {
            let m = declaration_at(s, i)->0;
            lemma_declaration_bounds(s, i);
            lemma_declaration_keyword(s, i);
            lemma_skip_whitespace(s, i + "typedef"@.len());
            lemma_skip_whitespace(s, m.keyword_end);
            lemma_skip_word(s, m.name);
            lemma_skip_whitespace(s, m.name_end);
        } else {
            lemma_declaration_shape(s, i + 1);
        }
    }
}

/// A text has no declaration unless the word `typedef` stands somewhere in
/// it.
pub proof fn lemma_declaration_needs_typedef(s: Seq<char>, i: int)
    requires
        0 <= i,
    ensures
        first_declaration(s, i) is Some ==> exists|b: int| occurs_at(s, b, "typedef"@),
    decreases s.len() - i,
{
    if i < s.len() {
        if declaration_at(s, i) is Some {
            assert(occurs_at(s, i, "typedef"@));
        } else {
            lemma_declaration_needs_typedef(s, i + 1);
        }
    }
}

} // verus!
