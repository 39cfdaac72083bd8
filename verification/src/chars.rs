//! Character sequences: conversion from and to strings, character classes,
//! runs, substring search, line splitting and decimal numerals.

use vstd::prelude::*;

verus! {

/// The characters with the Unicode property `White_Space`.
pub open spec fn is_whitespace(c: char) -> bool {
    let n = c as u32;
    ||| 0x09 <= n <= 0x0D
    ||| n == 0x20
    ||| n == 0x85
    ||| n == 0xA0
    ||| n == 0x1680
    ||| 0x2000 <= n <= 0x200A
    ||| n == 0x2028
    ||| n == 0x2029
    ||| n == 0x202F
    ||| n == 0x205F
    ||| n == 0x3000
}

/// Tells whether `c` is a whitespace character.
pub fn is_space(c: char) -> (b: bool)
    ensures
        b == is_whitespace(c),
{
    let n: u32 = c as u32;
    (0x09 <= n && n <= 0x0D) || n == 0x20 || n == 0x85 || n == 0xA0 || n == 0x1680 || (0x2000 <= n
        && n <= 0x200A) || n == 0x2028 || n == 0x2029 || n == 0x202F || n == 0x205F || n == 0x3000
}

/// The characters of a string slice, in order.
pub fn to_chars(text: &str) -> (v: Vec<char>)
    ensures
        v@ == text@,
{
    let mut v: Vec<char> = Vec::new();
    for c in it: text.chars()
        invariant
            v@ == it.seq().take(it.index()),
    {
        v.push(c);
    }
    v
}

/// The strings of a vector, as sequences of characters.
pub open spec fn texts(v: Seq<String>) -> Seq<Seq<char>> {
    Seq::new(v.len(), |i: int| v[i]@)
}

/// `String::push` appends one character to the string.
pub assume_specification[ String::push ](s: &mut String, c: char)
    ensures
        final(s)@ == old(s)@.push(c),
;

/// The string made of the characters `chars[from..to]`.
pub fn to_string(chars: &Vec<char>, from: usize, to: usize) -> (s: String)
    requires
        from <= to <= chars.len(),
    ensures
        s@ == chars@.subrange(from as int, to as int),
{
    let mut s: String = String::new();
    let mut i: usize = from;
    while i < to
        invariant
            from <= i <= to <= chars.len(),
            s@ == chars@.subrange(from as int, i as int),
        decreases to - i,
    {
        s.push(chars[i]);
        i += 1;
        assert(chars@.subrange(from as int, i as int) == chars@.subrange(from as int, i - 1).push(
            chars@[i - 1],
        ));
    }
    s
}

/// The end of the longest run of whitespace that starts at `i`.
pub open spec fn skip_whitespace(s: Seq<char>, i: int) -> int
    decreases s.len() - i,
{
    if 0 <= i < s.len() && is_whitespace(s[i]) {
        skip_whitespace(s, i + 1)
    } else {
        i
    }
}

/// `skip_whitespace(s, i)` is the first position from `i` on that holds no
/// whitespace, or the end of `s`.
pub proof fn lemma_skip_whitespace(s: Seq<char>, i: int)
    requires
        0 <= i <= s.len(),
    ensures
        i <= skip_whitespace(s, i) <= s.len(),
        forall|k: int| i <= k < skip_whitespace(s, i) ==> is_whitespace(#[trigger] s[k]),
        skip_whitespace(s, i) < s.len() ==> !is_whitespace(s[skip_whitespace(s, i)]),
    decreases s.len() - i,
{
    if i < s.len() && is_whitespace(s[i]) {
        lemma_skip_whitespace(s, i + 1);
    }
}

/// Computes `skip_whitespace`.
pub fn whitespace_end(s: &Vec<char>, i: usize) -> (j: usize)
    requires
        i <= s.len(),
    ensures
        j == skip_whitespace(s@, i as int),
        i <= j <= s.len(),
{
    let mut j: usize = i;
    while j < s.len() && is_space(s[j])
        invariant
            i <= j <= s.len(),
            skip_whitespace(s@, j as int) == skip_whitespace(s@, i as int),
        decreases s.len() - j,
    {
        j += 1;
    }
    j
}

/// Some character of `s` is no whitespace.
pub open spec fn has_text(s: Seq<char>) -> bool {
    exists|i: int| 0 <= i < s.len() && !is_whitespace(#[trigger] s[i])
}

/// Tells whether some character of `s` is no whitespace.
pub fn holds_text(s: &Vec<char>) -> (b: bool)
    ensures
        b == has_text(s@),
{
    let end: usize = whitespace_end(s, 0);
    proof {
        lemma_skip_whitespace(s@, 0);
    }
    end < s.len()
}

/// `lit` stands in `s` at position `i`.
pub open spec fn occurs_at(s: Seq<char>, i: int, lit: Seq<char>) -> bool {
    &&& 0 <= i
    &&& i + lit.len() <= s.len()
    &&& s.subrange(i, i + lit.len()) == lit
}

/// Tells whether `lit` stands in `s` at position `i`.
pub fn has_at(s: &Vec<char>, i: usize, lit: &Vec<char>) -> (b: bool)
    ensures
        b == occurs_at(s@, i as int, lit@),
{
    if i > s.len() || lit.len() > s.len() - i {
        return false;
    }
    let mut k: usize = 0;
    while k < lit.len()
        invariant
            k <= lit.len(),
            i + lit.len() <= s.len(),
            s@.subrange(i as int, i + k) == lit@.subrange(0, k as int),
        decreases lit.len() - k,
    {
        if s[i + k] != lit[k] {
            assert(s@.subrange(i as int, i + lit.len())[k as int] != lit@[k as int]);
            return false;
        }
        k += 1;
        assert(s@.subrange(i as int, i + k) == s@.subrange(i as int, i + k - 1).push(
            s@[i + k - 1],
        ));
        assert(lit@.subrange(0, k as int) == lit@.subrange(0, k - 1).push(lit@[k - 1]));
    }
    assert(lit@.subrange(0, k as int) == lit@);
    true
}

/// `lit` stands somewhere in `s`.
pub open spec fn contains(s: Seq<char>, lit: Seq<char>) -> bool {
    exists|i: int| occurs_at(s, i, lit)
}

/// Tells whether `lit` stands somewhere in `s`.
pub fn has(s: &Vec<char>, lit: &Vec<char>) -> (b: bool)
    ensures
        b == contains(s@, lit@),
{
    if lit.len() > s.len() {
        return false;
    }
    let last: usize = s.len() - lit.len();
    let mut i: usize = 0;
    while i < last
        invariant
            last == s.len() - lit.len(),
            i <= last,
            forall|k: int| 0 <= k < i ==> !occurs_at(s@, k, lit@),
        decreases last - i,
    {
        if has_at(s, i, lit) {
            return true;
        }
        i += 1;
    }
    has_at(s, last, lit)
}

/// What `regex_syntax::try_is_word_character` answers for `c`: whether `c` is
/// a Unicode word character, or nothing where the crate was built without
/// its tables.
pub uninterp spec fn unicode_word(c: char) -> Option<bool>;

/// Asks `regex_syntax::try_is_word_character` whether `c` is a Unicode word
/// character. The answer depends on `c` alone; an error becomes `None`.
#[verifier::external_body]
fn lookup_word(c: char) -> (r: Option<bool>)
    ensures
        r == unicode_word(c),
{
    match regex_syntax::try_is_word_character(c) {
        Ok(b) => Some(b),
        Err(_) => None,
    }
}

/// The word characters: among the ASCII characters the letters, the digits
/// and `_`; beyond them the Unicode word characters.
pub open spec fn is_word(c: char) -> bool {
    let n = c as u32;
    if n < 0x80 {
        ||| 0x30 <= n <= 0x39
        ||| 0x41 <= n <= 0x5A
        ||| n == 0x5F
        ||| 0x61 <= n <= 0x7A
    } else {
        unicode_word(c) == Some(true)
    }
}

/// Tells whether `c` is a word character.
pub fn is_word_char(c: char) -> (b: bool)
    ensures
        b == is_word(c),
{
    let n: u32 = c as u32;
    if n < 0x80 {
        (0x30 <= n && n <= 0x39) || (0x41 <= n && n <= 0x5A) || n == 0x5F || (0x61 <= n && n
            <= 0x7A)
    } else {
        match lookup_word(c) {
            Some(b) => b,
            None => false,
        }
    }
}

/// The end of the longest run of word characters that starts at `i`.
pub open spec fn skip_word(s: Seq<char>, i: int) -> int
    decreases s.len() - i,
{
    if 0 <= i < s.len() && is_word(s[i]) {
        skip_word(s, i + 1)
    } else {
        i
    }
}

/// `skip_word(s, i)` is the first position from `i` on that holds no word
/// character, or the end of `s`.
pub proof fn lemma_skip_word(s: Seq<char>, i: int)
    requires
        0 <= i <= s.len(),
    ensures
        i <= skip_word(s, i) <= s.len(),
        forall|k: int| i <= k < skip_word(s, i) ==> is_word(#[trigger] s[k]),
        skip_word(s, i) < s.len() ==> !is_word(s[skip_word(s, i)]),
    decreases s.len() - i,
{
    if i < s.len() && is_word(s[i]) {
        lemma_skip_word(s, i + 1);
    }
}

/// Computes `skip_word`.
pub fn word_end(s: &Vec<char>, i: usize) -> (j: usize)
    requires
        i <= s.len(),
    ensures
        j == skip_word(s@, i as int),
        i <= j <= s.len(),
{
    let mut j: usize = i;
    while j < s.len() && is_word_char(s[j])
        invariant
            i <= j <= s.len(),
            skip_word(s@, j as int) == skip_word(s@, i as int),
        decreases s.len() - j,
    {
        j += 1;
    }
    j
}

/// A copy of the characters `chars[from..to]`.
pub fn slice(chars: &Vec<char>, from: usize, to: usize) -> (v: Vec<char>)
    requires
        from <= to <= chars.len(),
    ensures
        v@ == chars@.subrange(from as int, to as int),
{
    let mut v: Vec<char> = Vec::new();
    let mut i: usize = from;
    while i < to
        invariant
            from <= i <= to <= chars.len(),
            v@ == chars@.subrange(from as int, i as int),
        decreases to - i,
    {
        v.push(chars[i]);
        i += 1;
        assert(chars@.subrange(from as int, i as int) == chars@.subrange(from as int, i - 1).push(
            chars@[i - 1],
        ));
    }
    v
}

/// The position of the first line feed from `i` on, or the end of `s`.
pub open spec fn line_end(s: Seq<char>, i: int) -> int
    decreases s.len() - i,
{
    if 0 <= i < s.len() && s[i] != '\n' {
        line_end(s, i + 1)
    } else {
        i
    }
}

/// A line without the carriage return that ends it, if one does.
pub open spec fn strip_return(line: Seq<char>) -> Seq<char> {
    if line.len() > 0 && line.last() == '\r' {
        line.drop_last()
    } else {
        line
    }
}

/// The line of `s` that begins at `i`, without its line ending.
pub open spec fn first_line(s: Seq<char>, i: int) -> Seq<char> {
    let j = line_end(s, i);
    if j < s.len() {
        strip_return(s.subrange(i, j))
    } else {
        s.subrange(i, j)
    }
}

/// Where the line after the one that begins at `i` begins, or the end of
/// `s`.
pub open spec fn next_line_start(s: Seq<char>, i: int) -> int {
    let j = line_end(s, i);
    if j < s.len() {
        j + 1
    } else {
        j
    }
}

/// The lines of `s` from position `i` on. A line ends with a line feed, or
/// with a carriage return and a line feed, which do not belong to it; the
/// last line may end with the text, and then keeps a carriage return.
pub open spec fn lines_from(s: Seq<char>, i: int) -> Seq<Seq<char>>
    decreases s.len() - i,
{
    if i < 0 || i >= s.len() {
        Seq::empty()
    } else {
        proof {
            lemma_line_end(s, i);
        }
        seq![first_line(s, i)] + lines_from(s, next_line_start(s, i))
    }
}

/// The lines of `s`.
pub open spec fn split_lines(s: Seq<char>) -> Seq<Seq<char>> {
    lines_from(s, 0)
}

/// `line_end(s, i)` lies between `i` and the end of `s`.
pub proof fn lemma_line_end(s: Seq<char>, i: int)
    requires
        0 <= i <= s.len(),
    ensures
        i <= line_end(s, i) <= s.len(),
        forall|k: int| i <= k < line_end(s, i) ==> #[trigger] s[k] != '\n',
        line_end(s, i) < s.len() ==> s[line_end(s, i)] == '\n',
    decreases s.len() - i,
{
    if i < s.len() && s[i] != '\n' {
        lemma_line_end(s, i + 1);
    }
}

/// Within a text that ends with a line feed, a line ends where it ends when
/// more text follows.
proof fn lemma_line_end_before(first: Seq<char>, second: Seq<char>, i: int)
    requires
        0 <= i < first.len(),
        first.last() == '\n',
    ensures
        line_end(first + second, i) == line_end(first, i),
        line_end(first, i) < first.len(),
    decreases first.len() - i,
{
    assert((first + second)[i] == first[i]);
    if first[i] != '\n' {
        lemma_line_end_before(first, second, i + 1);
    }
}

/// After a text, a line ends where it ends without that text before it.
proof fn lemma_line_end_after(first: Seq<char>, second: Seq<char>, i: int)
    requires
        0 <= i <= second.len(),
    ensures
        line_end(first + second, first.len() + i) == first.len() + line_end(second, i),
    decreases second.len() - i,
{
    if i < second.len() {
        assert((first + second)[first.len() + i] == second[i]);
        if second[i] != '\n' {
            lemma_line_end_after(first, second, i + 1);
        }
    }
}

/// After a text, the lines are those of what follows it.
proof fn lemma_lines_after(first: Seq<char>, second: Seq<char>, i: int)
    requires
        0 <= i,
    ensures
        lines_from(first + second, first.len() + i) == lines_from(second, i),
    decreases second.len() - i,
{
    if i < second.len() {
        let j = line_end(second, i);
        lemma_line_end(second, i);
        lemma_line_end_after(first, second, i);
        assert((first + second).subrange(first.len() + i, first.len() + j) =~= second.subrange(
            i,
            j,
        ));
        lemma_lines_after(first, second, next_line_start(second, i));
    }
}

/// Within a text that ends with a line feed, the lines from `i` on are
/// followed by the lines of the text that comes after.
proof fn lemma_lines_before(first: Seq<char>, second: Seq<char>, i: int)
    requires
        0 <= i <= first.len(),
        first.len() > 0,
        first.last() == '\n',
    ensures
        lines_from(first + second, i) == lines_from(first, i) + lines_from(second, 0),
    decreases first.len() - i,
{
    if i == first.len() {
        lemma_lines_after(first, second, 0);
        assert(lines_from(first, i) + lines_from(second, 0) =~= lines_from(second, 0));
    } else {
        let j = line_end(first, i);
        lemma_line_end(first, i);
        lemma_line_end_before(first, second, i);
        assert((first + second).subrange(i, j) =~= first.subrange(i, j));
        lemma_lines_before(first, second, j + 1);
        assert(seq![strip_return(first.subrange(i, j))] + (lines_from(first, j + 1) + lines_from(
            second,
            0,
        )) =~= (seq![strip_return(first.subrange(i, j))] + lines_from(first, j + 1))
            + lines_from(second, 0));
    }
}

/// The lines of two texts joined where a line ends are the lines of the
/// first followed by those of the second.
pub proof fn lemma_split_lines_concat(first: Seq<char>, second: Seq<char>)
    requires
        first.len() == 0 || first.last() == '\n',
    ensures
        split_lines(first + second) == split_lines(first) + split_lines(second),
{
    if first.len() == 0 {
        assert(first + second =~= second);
        assert(split_lines(first) + split_lines(second) =~= split_lines(second));
    } else {
        lemma_lines_before(first, second, 0);
    }
}

/// A line ending alone is one empty line.
pub proof fn lemma_line_ending_is_blank(ending: Seq<char>)
    requires
        ending == seq!['\n'] || ending == seq!['\r', '\n'],
    ensures
        split_lines(ending) == seq![Seq::<char>::empty()],
{
    if ending == seq!['\n'] {
        assert(line_end(ending, 0) == 0);
        assert(ending.subrange(0, 0) =~= Seq::<char>::empty());
        assert(lines_from(ending, 1) =~= Seq::<Seq<char>>::empty());
        assert(split_lines(ending) =~= seq![Seq::<char>::empty()]);
    } else {
        assert(line_end(ending, 1) == 1);
        assert(line_end(ending, 0) == 1);
        assert(ending.subrange(0, 1) =~= seq!['\r']);
        assert(seq!['\r'].drop_last() =~= Seq::<char>::empty());
        assert(lines_from(ending, 2) =~= Seq::<Seq<char>>::empty());
        assert(split_lines(ending) =~= seq![Seq::<char>::empty()]);
    }
}

/// No line holds a line feed.
pub proof fn lemma_lines_hold_no_line_feed(s: Seq<char>, i: int)
    requires
        0 <= i,
    ensures
        forall|n: int, k: int|
            0 <= n < lines_from(s, i).len() && 0 <= k < lines_from(s, i)[n].len() ==> (
            #[trigger] lines_from(s, i)[n][k]) != '\n',
    decreases s.len() - i,
{
    if i < s.len() {
        lemma_line_end(s, i);
        let first = first_line(s, i);
        let rest = lines_from(s, next_line_start(s, i));
        lemma_lines_hold_no_line_feed(s, next_line_start(s, i));
        assert forall|k: int| 0 <= k < first.len() implies first[k] != '\n' by {
            assert(first[k] == s[i + k]);
        }
        assert forall|n: int, k: int|
            0 <= n < lines_from(s, i).len() && 0 <= k < lines_from(s, i)[n].len() implies (
        #[trigger] lines_from(s, i)[n][k]) != '\n' by {
            if n == 0 {
                assert(lines_from(s, i)[0] == first);
            } else {
                assert(lines_from(s, i)[n] == rest[n - 1]);
            }
        }
    }
}

/// A text of whitespace holds no text that begins with a character that is
/// no whitespace.
pub proof fn lemma_whitespace_holds_no_text(s: Seq<char>, lit: Seq<char>)
    requires
        forall|k: int| 0 <= k < s.len() ==> is_whitespace(#[trigger] s[k]),
        lit.len() > 0,
        !is_whitespace(lit[0]),
    ensures
        !contains(s, lit),
{
    if contains(s, lit) {
        let i = choose|i: int| occurs_at(s, i, lit);
        assert(s.subrange(i, i + lit.len())[0] == lit[0]);
        assert(is_whitespace(s[i]));
    }
}

/// The line of `s` that begins at `i`, and the position at which the next
/// one begins.
pub fn next_line(s: &Vec<char>, i: usize) -> (r: (Vec<char>, usize))
    requires
        i < s.len(),
    ensures
        i < r.1 <= s.len(),
        r.0@ == first_line(s@, i as int),
        r.1 == next_line_start(s@, i as int),
        lines_from(s@, i as int) == seq![r.0@] + lines_from(s@, r.1 as int),
        forall|k: int| 0 <= k < r.0@.len() ==> r.0@[k] != '\n',
{
    let mut j: usize = i;
    while j < s.len() && s[j] != '\n'
        invariant
            i <= j <= s.len(),
            line_end(s@, j as int) == line_end(s@, i as int),
            forall|k: int| i <= k < j ==> s@[k] != '\n',
        decreases s.len() - j,
    {
        j += 1;
    }
    if j < s.len() {
        let end: usize = if j > i && s[j - 1] == '\r' {
            j - 1
        } else {
            j
        };
        let line = slice(s, i, end);
        proof {
            let whole = s@.subrange(i as int, j as int);
            if j > i && s@[j - 1] == '\r' {
                assert(whole.drop_last() == s@.subrange(i as int, j - 1));
            }
            assert(line@ == strip_return(whole));
        }
        (line, j + 1)
    } else {
        let line = slice(s, i, j);
        proof {
            assert(lines_from(s@, j as int) == Seq::<Seq<char>>::empty());
            assert(seq![line@] + Seq::<Seq<char>>::empty() =~= seq![line@]);
        }
        (line, j)
    }
}

/// The digit that stands for `d`, where `d` is less than ten.
pub open spec fn digit(d: int) -> char {
    (0x30 + d) as char
}

/// The decimal numeral of `n`, without leading zeros.
pub open spec fn decimal(n: nat) -> Seq<char>
    decreases n,
{
    if n < 10 {
        seq![digit(n as int)]
    } else {
        decimal(n / 10).push(digit((n % 10) as int))
    }
}

/// Computes `digit`.
fn digit_char(d: usize) -> (c: char)
    requires
        d < 10,
    ensures
        c == digit(d as int),
{
    if d == 0 {
        '0'
    } else if d == 1 {
        '1'
    } else if d == 2 {
        '2'
    } else if d == 3 {
        '3'
    } else if d == 4 {
        '4'
    } else if d == 5 {
        '5'
    } else if d == 6 {
        '6'
    } else if d == 7 {
        '7'
    } else if d == 8 {
        '8'
    } else {
        '9'
    }
}

/// Appends the decimal numeral of `n` to `s`.
pub fn push_decimal(s: &mut String, n: usize)
    ensures
        final(s)@ == old(s)@ + decimal(n as nat),
    decreases n,
{
    if n >= 10 {
        push_decimal(s, n / 10);
    }
    s.push(digit_char(n % 10));
    assert(s@ =~= old(s)@ + decimal(n as nat));
}

} // verus!
