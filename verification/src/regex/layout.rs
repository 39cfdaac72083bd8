//! The layout pattern: a value followed by the three tokens of a bit
//! layout.

use vstd::prelude::*;
use crate::chars::{is_space, is_whitespace};
use crate::regex::split::all_whitespace;

verus! {

/// The start of the longest run of whitespace that ends at `j`.
pub open spec fn back_whitespace(s: Seq<char>, j: int) -> int
    decreases j,
{
    if 0 < j <= s.len() && is_whitespace(s[j - 1]) {
        back_whitespace(s, j - 1)
    } else {
        j
    }
}

/// The start of the longest run of characters other than whitespace that
/// ends at `j`.
pub open spec fn back_token(s: Seq<char>, j: int) -> int
    decreases j,
{
    if 0 < j <= s.len() && !is_whitespace(s[j - 1]) {
        back_token(s, j - 1)
    } else {
        j
    }
}

/// Computes `back_whitespace`.
fn whitespace_start(s: &Vec<char>, j: usize) -> (i: usize)
    requires
        j <= s.len(),
    ensures
        i == back_whitespace(s@, j as int),
        i <= j,
{
    let mut i: usize = j;
    while i > 0 && is_space(s[i - 1])
        invariant
            i <= j <= s.len(),
            back_whitespace(s@, i as int) == back_whitespace(s@, j as int),
        decreases i,
    {
        i -= 1;
    }
    i
}

/// Computes `back_token`.
fn token_start(s: &Vec<char>, j: usize) -> (i: usize)
    requires
        j <= s.len(),
    ensures
        i == back_token(s@, j as int),
        i <= j,
{
    let mut i: usize = j;
    while i > 0 && !is_space(s[i - 1])
        invariant
            i <= j <= s.len(),
            back_token(s@, i as int) == back_token(s@, j as int),
        decreases i,
    {
        i -= 1;
    }
    i
}

/// One match of the layout pattern: a value `s[..value_end]` followed by
/// three tokens, each set off by whitespace: the sign flag, the bit width
/// and the position of the most significant bit. Whitespace may follow the
/// last token.
pub struct Layout {
    pub value_end: int,
    pub signed: int,
    pub signed_end: int,
    pub bits: int,
    pub bits_end: int,
    pub msb: int,
    pub msb_end: int,
}

/// The match of the layout pattern in `s`: the last three tokens of `s`,
/// and before them a value that is not empty.
pub open spec fn layout_match(s: Seq<char>) -> Option<Layout> {
    let msb_end = back_whitespace(s, s.len() as int);
    let msb = back_token(s, msb_end);
    let bits_end = back_whitespace(s, msb);
    let bits = back_token(s, bits_end);
    let signed_end = back_whitespace(s, bits);
    let signed = back_token(s, signed_end);
    let value_end = back_whitespace(s, signed);
    if msb < msb_end && bits_end < msb && bits < bits_end && signed_end < bits && signed
        < signed_end && value_end < signed && 0 < value_end {
        Some(Layout { value_end, signed, signed_end, bits, bits_end, msb, msb_end })
    } else {
        None
    }
}

/// The bounds of a layout match, as positions that fit in memory.
#[derive(Clone, Copy)]
pub struct LayoutSpan {
    pub value_end: usize,
    pub signed: usize,
    pub signed_end: usize,
    pub bits: usize,
    pub bits_end: usize,
    pub msb: usize,
    pub msb_end: usize,
}

impl View for LayoutSpan {
    type V = Layout;

    open spec fn view(&self) -> Layout {
        Layout {
            value_end: self.value_end as int,
            signed: self.signed as int,
            signed_end: self.signed_end as int,
            bits: self.bits as int,
            bits_end: self.bits_end as int,
            msb: self.msb as int,
            msb_end: self.msb_end as int,
        }
    }
}

/// An optional layout match, as the match over the integers.
pub open spec fn laid_out(r: Option<LayoutSpan>) -> Option<Layout> {
    match r {
        Some(m) => Some(m@),
        None => None,
    }
}

/// A layout match lies in the text: the value and the three tokens are not
/// empty and follow one another.
pub open spec fn layout_in_bounds(s: Seq<char>, m: Layout) -> bool {
    0 < m.value_end < m.signed < m.signed_end < m.bits < m.bits_end < m.msb < m.msb_end
        <= s.len()
}

/// The match of the layout pattern in `s`, if there is one.
pub fn find_layout(s: &Vec<char>) -> (r: Option<LayoutSpan>)
    ensures
        laid_out(r) == layout_match(s@),
        r matches Some(m) ==> layout_in_bounds(s@, m@),
{
    let msb_end: usize = whitespace_start(s, s.len());
    let msb: usize = token_start(s, msb_end);
    let bits_end: usize = whitespace_start(s, msb);
    let bits: usize = token_start(s, bits_end);
    let signed_end: usize = whitespace_start(s, bits);
    let signed: usize = token_start(s, signed_end);
    let value_end: usize = whitespace_start(s, signed);
    if msb < msb_end && bits_end < msb && bits < bits_end && signed_end < bits && signed
        < signed_end && value_end < signed && 0 < value_end {
        Some(LayoutSpan { value_end, signed, signed_end, bits, bits_end, msb, msb_end })
    } else {
        None
    }
}

/// `back_token(s, j)` lies between 0 and `j`, no whitespace stands from it
/// up to `j`, and whitespace or nothing stands before it.
pub proof fn lemma_back_token(s: Seq<char>, j: int)
    requires
        0 <= j <= s.len(),
    ensures
        0 <= back_token(s, j) <= j,
        forall|k: int| back_token(s, j) <= k < j ==> !is_whitespace(#[trigger] s[k]),
        back_token(s, j) > 0 ==> is_whitespace(s[back_token(s, j) - 1]),
    decreases j,
{
    if 0 < j && !is_whitespace(s[j - 1]) {
        lemma_back_token(s, j - 1);
    }
}

/// A match of the layout pattern is made as the pattern says: the value
/// ends with a character that is no whitespace, the three tokens hold no
/// whitespace, whitespace sets them apart, and only whitespace follows the
/// last.
pub proof fn lemma_layout_shape(s: Seq<char>)
    ensures
        layout_match(s) matches Some(m) ==> {
            &&& layout_in_bounds(s, m)
            &&& !is_whitespace(s[m.value_end - 1])
            &&& all_whitespace(s, m.value_end, m.signed)
            &&& forall|k: int| m.signed <= k < m.signed_end ==> !is_whitespace(#[trigger] s[k])
            &&& all_whitespace(s, m.signed_end, m.bits)
            &&& forall|k: int| m.bits <= k < m.bits_end ==> !is_whitespace(#[trigger] s[k])
            &&& all_whitespace(s, m.bits_end, m.msb)
            &&& forall|k: int| m.msb <= k < m.msb_end ==> !is_whitespace(#[trigger] s[k])
            &&& all_whitespace(s, m.msb_end, s.len() as int)
        },
{
    if layout_match(s) is Some {
        let m = layout_match(s)->0;
        lemma_back_whitespace(s, s.len() as int);
        lemma_back_token(s, m.msb_end);
        lemma_back_whitespace(s, m.msb);
        lemma_back_token(s, m.bits_end);
        lemma_back_whitespace(s, m.bits);
        lemma_back_token(s, m.signed_end);
        lemma_back_whitespace(s, m.signed);
    }
}

/// A match of the layout pattern lies in the text: the value and the three
/// tokens are not empty and follow one another.
pub proof fn lemma_layout_bounds(s: Seq<char>)
    ensures
        layout_match(s) matches Some(m) ==> layout_in_bounds(s, m),
{
    lemma_back_whitespace(s, s.len() as int);
}

/// `back_whitespace(s, j)` lies between 0 and `j`, whitespace stands from
/// it up to `j`, and no whitespace stands before it.
pub proof fn lemma_back_whitespace(s: Seq<char>, j: int)
    requires
        0 <= j <= s.len(),
    ensures
        0 <= back_whitespace(s, j) <= j,
        all_whitespace(s, back_whitespace(s, j), j),
        back_whitespace(s, j) > 0 ==> !is_whitespace(s[back_whitespace(s, j) - 1]),
    decreases j,
{
    if 0 < j && is_whitespace(s[j - 1]) {
        lemma_back_whitespace(s, j - 1);
    }
}

} // verus!
