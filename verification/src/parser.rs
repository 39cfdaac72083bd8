//! The extractor: a line-by-line state machine that turns the text of an
//! annotated header into the documented structs and enums it declares.

use vstd::prelude::*;
use crate::chars::{
    contains, has, has_at, has_text, holds_text, is_whitespace, lemma_line_ending_is_blank, lemma_split_lines_concat,
    lemma_whitespace_holds_no_text, lines_from, next_line, occurs_at, slice, split_lines,
    to_chars, to_string,
};
use crate::regex::code::{find_code, first_code, lemma_code_bounds};
use crate::regex::declaration::{
    find_declaration, first_declaration, lemma_declaration_bounds, lemma_declaration_keyword,
    lemma_declaration_needs_typedef,
};
use crate::regex::layout::{find_layout, layout_match, lemma_layout_shape};
use crate::regex::split::{
    find_split, lemma_split_match_bounds, lemma_split_match_needs_marker, split_match,
    SplitPattern,
};
use crate::regex::{annotation_pattern, annotation_rule, field_pattern, field_rule};

verus! {

/// What a documented item declares.
#[derive(Clone, Copy, Debug, PartialEq, Eq, Structural)]
pub enum DocumentationType {
    Struct,
    Enum,
}

impl Default for DocumentationType {
    fn default() -> (kind: DocumentationType)
        ensures
            kind == DocumentationType::Struct,
    {
        DocumentationType::Struct
    }
}

/// One member of a documented item.
#[derive(Clone, Debug)]
pub struct DocumentationItemChild {
    /// The declarator that stands before the inline comment.
    pub datatype: String,
    /// The code in square brackets in the description, or `-`.
    pub code: String,
    /// The description, without the code and the annotation.
    pub note: String,
    /// The annotation after `//` in the description, or `-`.
    pub additional_data: String,
    /// A value to append to the annotation in the remark column; the
    /// extractor leaves it empty.
    pub val: String,
    /// The sign flag of the bit layout, or `-`.
    pub signed: String,
    /// The bit width of the bit layout, or `-`.
    pub bits: String,
    /// The position of the most significant bit, or `-`.
    pub msb: String,
}

/// A member, as sequences of characters.
pub struct FieldView {
    pub datatype: Seq<char>,
    pub code: Seq<char>,
    pub note: Seq<char>,
    pub additional_data: Seq<char>,
    pub val: Seq<char>,
    pub signed: Seq<char>,
    pub bits: Seq<char>,
    pub msb: Seq<char>,
}

impl View for DocumentationItemChild {
    type V = FieldView;

    open spec fn view(&self) -> FieldView {
        FieldView {
            datatype: self.datatype@,
            code: self.code@,
            note: self.note@,
            additional_data: self.additional_data@,
            val: self.val@,
            signed: self.signed@,
            bits: self.bits@,
            msb: self.msb@,
        }
    }
}

impl FieldView {
    /// No part of the member is empty but, where the extractor made it, the
    /// value; and the annotation and the three parts of the layout each hold
    /// a character that is no whitespace: a part that the description lacks
    /// holds the placeholder.
    pub open spec fn filled(self) -> bool {
        &&& self.datatype.len() > 0
        &&& self.code.len() > 0
        &&& self.note.len() > 0
        &&& has_text(self.additional_data)
        &&& has_text(self.signed)
        &&& has_text(self.bits)
        &&& has_text(self.msb)
    }
}

impl Default for DocumentationItemChild {
    fn default() -> (child: DocumentationItemChild)
        ensures
            child@ == (FieldView {
                datatype: Seq::empty(),
                code: Seq::empty(),
                note: Seq::empty(),
                additional_data: Seq::empty(),
                val: Seq::empty(),
                signed: Seq::empty(),
                bits: Seq::empty(),
                msb: Seq::empty(),
            }),
    {
        DocumentationItemChild {
            datatype: String::new(),
            code: String::new(),
            note: String::new(),
            additional_data: String::new(),
            val: String::new(),
            signed: String::new(),
            bits: String::new(),
            msb: String::new(),
        }
    }
}

/// One documented struct or enum.
#[derive(Clone, Debug)]
pub struct DocumentationItem {
    /// Whether the item is a struct or an enum.
    pub kind: DocumentationType,
    /// The text of the marker comment before the declaration.
    pub note: String,
    /// The name in the declaration.
    pub name: String,
    /// The documented members, in the order of their declaration.
    pub children: Vec<DocumentationItemChild>,
}

/// An item, as sequences.
pub struct ItemView {
    pub kind: DocumentationType,
    pub note: Seq<char>,
    pub name: Seq<char>,
    pub children: Seq<FieldView>,
}

/// The members of a vector, as views.
pub open spec fn fields(v: Seq<DocumentationItemChild>) -> Seq<FieldView> {
    Seq::new(v.len(), |i: int| v[i]@)
}

impl View for DocumentationItem {
    type V = ItemView;

    open spec fn view(&self) -> ItemView {
        ItemView {
            kind: self.kind,
            note: self.note@,
            name: self.name@,
            children: fields(self.children@),
        }
    }
}

impl ItemView {
    /// The item has a name, and no part of a member is empty.
    pub open spec fn filled(self) -> bool {
        &&& self.name.len() > 0
        &&& forall|i: int| 0 <= i < self.children.len() ==> (#[trigger] self.children[i]).filled()
    }
}

impl Default for DocumentationItem {
    fn default() -> (item: DocumentationItem)
        ensures
            item@ == (ItemView {
                kind: DocumentationType::Struct,
                note: Seq::empty(),
                name: Seq::empty(),
                children: Seq::empty(),
            }),
    {
        let item = DocumentationItem {
            kind: DocumentationType::Struct,
            note: String::new(),
            name: String::new(),
            children: Vec::new(),
        };
        assert(item@.children =~= Seq::empty());
        item
    }
}

/// The documented items of one header, in the order of their closing lines.
#[derive(Clone, Debug)]
pub struct DocumentationData {
    pub items: Vec<DocumentationItem>,
}

/// The items of a vector, as views.
pub open spec fn items(v: Seq<DocumentationItem>) -> Seq<ItemView> {
    Seq::new(v.len(), |i: int| v[i]@)
}

impl View for DocumentationData {
    type V = Seq<ItemView>;

    open spec fn view(&self) -> Seq<ItemView> {
        items(self.items@)
    }
}

impl Default for DocumentationData {
    fn default() -> (data: DocumentationData)
        ensures
            data@ == Seq::<ItemView>::empty(),
    {
        let data = DocumentationData { items: Vec::new() };
        assert(data@ =~= Seq::empty());
        data
    }
}

/// What stands for a part of a description that is not there.
pub open spec fn placeholder() -> Seq<char> {
    "-"@
}

/// The member that a field line declares. The description is taken apart in
/// this order: where it holds ` //` and matches the annotation pattern, the
/// head becomes the note and the tail the annotation, unless the tail holds
/// nothing but whitespace and so is no annotation; an annotation that
/// matches the layout pattern is cut down to its value and gives the three
/// layout tokens; a note that matches the code pattern gives the code and
/// is cut down to the rest.
pub open spec fn extract_field(datatype: Seq<char>, description: Seq<char>) -> FieldView {
    let annotated = if contains(description, " //"@) {
        split_match(description, annotation_rule())
    } else {
        None
    };
    let note = match annotated {
        Some(m) => description.subrange(m.head, m.head_end),
        None => description,
    };
    let tail = match annotated {
        Some(m) => description.subrange(m.tail, description.len() as int),
        None => Seq::empty(),
    };
    let data = if has_text(tail) {
        tail
    } else {
        placeholder()
    };
    let layout = if has_text(tail) {
        layout_match(data)
    } else {
        None
    };
    let coded = first_code(note, 0);
    FieldView {
        datatype,
        code: match coded {
            Some(c) => note.subrange(c.start + 1, c.code_end),
            None => placeholder(),
        },
        note: match coded {
            Some(c) => note.subrange(c.rest, note.len() as int),
            None => note,
        },
        additional_data: match layout {
            Some(l) => data.subrange(0, l.value_end),
            None => data,
        },
        val: Seq::empty(),
        signed: match layout {
            Some(l) => data.subrange(l.signed, l.signed_end),
            None => placeholder(),
        },
        bits: match layout {
            Some(l) => data.subrange(l.bits, l.bits_end),
            None => placeholder(),
        },
        msb: match layout {
            Some(l) => data.subrange(l.msb, l.msb_end),
            None => placeholder(),
        },
    }
}

/// The fixed texts that the extractor looks for.
struct Tokens {
    marker: Vec<char>,
    define: Vec<char>,
    brace: Vec<char>,
    slashes: Vec<char>,
    enumeration: Vec<char>,
    field: SplitPattern,
    annotation: SplitPattern,
}

impl Tokens {
    /// Each text is what its name says.
    spec fn wf(&self) -> bool {
        &&& self.marker@ == "//! "@
        &&& self.define@ == "#define "@
        &&& self.brace@ == "}"@
        &&& self.slashes@ == " //"@
        &&& self.enumeration@ == "enum"@
        &&& self.field@ == field_rule()
        &&& self.annotation@ == annotation_rule()
    }

    /// The texts, ready for use.
    fn new() -> (tokens: Tokens)
        ensures
            tokens.wf(),
    {
        Tokens {
            marker: to_chars("//! "),
            define: to_chars("#define "),
            brace: to_chars("}"),
            slashes: to_chars(" //"),
            enumeration: to_chars("enum"),
            field: field_pattern(),
            annotation: annotation_pattern(),
        }
    }
}

/// Takes a description apart and builds the member.
fn extract(tokens: &Tokens, datatype: String, description: &Vec<char>) -> (child:
    DocumentationItemChild)
    requires
        tokens.wf(),
    ensures
        child@ == extract_field(datatype@, description@),
{
    let mut additional_data: String = String::from_str("-");
    let mut signed: String = String::from_str("-");
    let mut bits: String = String::from_str("-");
    let mut msb: String = String::from_str("-");
    let mut note: Vec<char> = slice(description, 0, description.len());
    assert(note@ == description@);
    if has(description, &tokens.slashes) {
        match find_split(description, &tokens.annotation) {
            Some(m) => {
                note = slice(description, m.head, m.head_end);
                let data = slice(description, m.tail, description.len());
                if holds_text(&data) {
                    match find_layout(&data) {
                        Some(l) => {
                            additional_data = to_string(&data, 0, l.value_end);
                            signed = to_string(&data, l.signed, l.signed_end);
                            bits = to_string(&data, l.bits, l.bits_end);
                            msb = to_string(&data, l.msb, l.msb_end);
                        },
                        None => {
                            additional_data = to_string(&data, 0, data.len());
                            assert(data@.subrange(0, data@.len() as int) == data@);
                        },
                    }
                }
            },
            None => {},
        }
    }
    match find_code(&note) {
        Some(c) => DocumentationItemChild {
            datatype,
            code: to_string(&note, c.start + 1, c.code_end),
            note: to_string(&note, c.rest, note.len()),
            additional_data,
            val: String::new(),
            signed,
            bits,
            msb,
        },
        None => {
            assert(note@.subrange(0, note@.len() as int) == note@);
            DocumentationItemChild {
                datatype,
                code: String::from_str("-"),
                note: to_string(&note, 0, note.len()),
                additional_data,
                val: String::new(),
                signed,
                bits,
                msb,
            }
        },
    }
}

/// The member that a field with the declarator `datatype` and the
/// description `description` declares.
pub fn extract_child(datatype: &str, description: &str) -> (child: DocumentationItemChild)
    ensures
        child@ == extract_field(datatype@, description@),
{
    let tokens = Tokens::new();
    extract(&tokens, String::from_str(datatype), &to_chars(description))
}

/// Where the extractor stands between two lines.
pub enum State {
    /// No item is open; a marker comment is looked for.
    Idle,
    /// A marker comment was read; the declaration is looked for.
    AwaitingName { note: Seq<char> },
    /// A declaration was read; fields and the closing line are looked for.
    InFields { item: ItemView },
}

/// The item that a declaration opens: an enum where the keyword is `enum`, a
/// struct otherwise, with the name that the declaration holds.
pub open spec fn opened_item(note: Seq<char>, line: Seq<char>) -> ItemView {
    let d = first_declaration(line, 0)->0;
    ItemView {
        kind: if occurs_at(line, d.keyword, "enum"@) {
            DocumentationType::Enum
        } else {
            DocumentationType::Struct
        },
        note,
        name: line.subrange(d.name, d.name_end),
        children: Seq::empty(),
    }
}

/// The member that a field line declares.
pub open spec fn declared_field(line: Seq<char>) -> FieldView {
    let m = split_match(line, field_rule())->0;
    extract_field(line.subrange(m.head, m.head_end), line.subrange(m.tail, line.len() as int))
}

/// `line` closes `item`: it is no field line and holds the name of the item
/// and a closing brace.
pub open spec fn closes(item: ItemView, line: Seq<char>) -> bool {
    &&& line.len() > 0
    &&& split_match(line, field_rule()) is None
    &&& contains(line, item.name)
    &&& contains(line, "}"@)
}

/// One step of the extractor: the state after `line`, and the item that
/// `line` closes, if it closes one. An empty line changes nothing.
pub open spec fn step(state: State, line: Seq<char>) -> (State, Option<ItemView>) {
    if line.len() == 0 {
        (state, None)
    } else {
        match state {
            State::Idle => if contains(line, "//! "@) {
                (State::AwaitingName { note: line.skip("//! "@.len() as int) }, None)
            } else {
                (state, None)
            },
            State::AwaitingName { note } => if first_declaration(line, 0) is Some {
                (State::InFields { item: opened_item(note, line) }, None)
            } else if contains(line, "#define "@) {
                (State::Idle, None)
            } else {
                (state, None)
            },
            State::InFields { item } => if split_match(line, field_rule()) is Some {
                (
                    State::InFields {
                        item: ItemView {
                            children: item.children.push(declared_field(line)),
                            ..item
                        },
                    },
                    None,
                )
            } else if closes(item, line) {
                (State::Idle, Some(item))
            } else {
                (state, None)
            },
        }
    }
}

/// The state and the items closed so far after `lines`, when the extractor
/// starts from `start`.
pub open spec fn feed(start: (State, Seq<ItemView>), lines: Seq<Seq<char>>) -> (
    State,
    Seq<ItemView>,
)
    decreases lines.len(),
{
    if lines.len() == 0 {
        start
    } else {
        let before = feed(start, lines.drop_last());
        let after = step(before.0, lines.last());
        (
            after.0,
            match after.1 {
                Some(item) => before.1.push(item),
                None => before.1,
            },
        )
    }
}

/// The documented items of the header `text`.
pub open spec fn parse(text: Seq<char>) -> Seq<ItemView> {
    feed((State::Idle, Seq::empty()), split_lines(text)).1
}

/// The state of the extractor, as it is held in memory.
pub enum ParsingState {
    Idle,
    AwaitingName { note: String },
    InFields { item: DocumentationItem },
}

impl View for ParsingState {
    type V = State;

    open spec fn view(&self) -> State {
        match self {
            ParsingState::Idle => State::Idle,
            ParsingState::AwaitingName { note } => State::AwaitingName { note: note@ },
            ParsingState::InFields { item } => State::InFields { item: item@ },
        }
    }
}

/// An optional item, as its view.
pub open spec fn emitted(r: Option<DocumentationItem>) -> Option<ItemView> {
    match r {
        Some(item) => Some(item@),
        None => None,
    }
}

/// Computes `step`.
fn advance(tokens: &Tokens, state: ParsingState, line: &Vec<char>) -> (r: (
    ParsingState,
    Option<DocumentationItem>,
))
    requires
        tokens.wf(),
    ensures
        (r.0@, emitted(r.1)) == step(state@, line@),
{
    if line.len() == 0 {
        return (state, None);
    }
    match state {
        ParsingState::Idle => {
            if has(line, &tokens.marker) {
                let width: usize = tokens.marker.len();
                assert(width <= line.len()) by {
                    let i = choose|i: int| occurs_at(line@, i, tokens.marker@);
                    assert(occurs_at(line@, i, tokens.marker@));
                }
                let note = to_string(line, width, line.len());
                (ParsingState::AwaitingName { note }, None)
            } else {
                (ParsingState::Idle, None)
            }
        },
        ParsingState::AwaitingName { note } => {
            match find_declaration(line) {
                Some(d) => {
                    let kind = if has_at(line, d.keyword, &tokens.enumeration) {
                        DocumentationType::Enum
                    } else {
                        DocumentationType::Struct
                    };
                    let item = DocumentationItem {
                        kind,
                        note,
                        name: to_string(line, d.name, d.name_end),
                        children: Vec::new(),
                    };
                    assert(item@.children =~= Seq::empty());
                    (ParsingState::InFields { item }, None)
                },
                None => {
                    if has(line, &tokens.define) {
                        (ParsingState::Idle, None)
                    } else {
                        (ParsingState::AwaitingName { note }, None)
                    }
                },
            }
        },
        ParsingState::InFields { item } => {
            match find_split(line, &tokens.field) {
                Some(m) => {
                    let datatype = to_string(line, m.head, m.head_end);
                    let description = slice(line, m.tail, line.len());
                    let child = extract(tokens, datatype, &description);
                    let mut item = item;
                    let ghost before = item@;
                    item.children.push(child);
                    assert(item@.children =~= before.children.push(child@));
                    (ParsingState::InFields { item }, None)
                },
                None => {
                    let name = to_chars(item.name.as_str());
                    if has(line, &name) && has(line, &tokens.brace) {
                        (ParsingState::Idle, Some(item))
                    } else {
                        (ParsingState::InFields { item }, None)
                    }
                },
            }
        },
    }
}

impl ParsingState {
    /// Reads one line: the state after it, and the item that it closes, if
    /// it closes one.
    pub fn step(self, line: &str) -> (r: (ParsingState, Option<DocumentationItem>))
        ensures
            (r.0@, emitted(r.1)) == step(self@, line@),
    {
        let tokens = Tokens::new();
        advance(&tokens, self, &to_chars(line))
    }
}

/// Extracts the documented items from the text of a header.
pub fn parse_file(text: &str) -> (data: DocumentationData)
    ensures
        data@ == parse(text@),
        forall|i: int| 0 <= i < data@.len() ==> (#[trigger] data@[i]).filled(),
{
    proof {
        lemma_parse_filled(text@);
    }
    let tokens = Tokens::new();
    let s = to_chars(text);
    let mut data = DocumentationData { items: Vec::new() };
    let mut state = ParsingState::Idle;
    let mut i: usize = 0;
    let ghost mut read: Seq<Seq<char>> = Seq::empty();
    assert(data@ =~= Seq::empty());
    assert(read + lines_from(s@, 0) =~= split_lines(s@));
    while i < s.len()
        invariant
            tokens.wf(),
            i <= s.len(),
            read + lines_from(s@, i as int) == split_lines(s@),
            (state@, data@) == feed((State::Idle, Seq::empty()), read),
        decreases s.len() - i,
    {
        let (line, next) = next_line(&s, i);
        let ghost before = (state@, data@);
        let (after, closed) = advance(&tokens, state, &line);
        state = after;
        match closed {
            Some(item) => {
                data.items.push(item);
                assert(data@ =~= before.1.push(item@));
            },
            None => {},
        }
        proof {
            let longer = read.push(line@);
            assert(longer.drop_last() == read);
            assert(longer.last() == line@);
            assert(longer + lines_from(s@, next as int) =~= read + (seq![line@] + lines_from(
                s@,
                next as int,
            )));
            read = longer;
        }
        i = next;
    }
    assert(read + Seq::<Seq<char>>::empty() =~= read);
    data
}

/// The placeholder holds a character that is no whitespace.
pub proof fn lemma_placeholder_has_text()
    ensures
        has_text(placeholder()),
{
    reveal_strlit("-");
    assert(!is_whitespace(placeholder()[0]));
}

/// The member of a field line lacks no part: where the declarator and the
/// description are not empty, every part of the member but the value holds
/// text, the placeholder where nothing else; and the annotation and the
/// three parts of the layout hold more than whitespace.
pub proof fn lemma_extracted_field_filled(datatype: Seq<char>, description: Seq<char>)
    requires
        datatype.len() > 0,
        description.len() > 0,
    ensures
        extract_field(datatype, description).filled(),
        extract_field(datatype, description).datatype == datatype,
        extract_field(datatype, description).val.len() == 0,
{
    reveal_strlit("-");
    lemma_placeholder_has_text();
    let annotated = if contains(description, " //"@) {
        split_match(description, annotation_rule())
    } else {
        None
    };
    lemma_split_match_bounds(description, 0, annotation_rule());
    let note = match annotated {
        Some(m) => description.subrange(m.head, m.head_end),
        None => description,
    };
    let tail = match annotated {
        Some(m) => description.subrange(m.tail, description.len() as int),
        None => Seq::empty(),
    };
    lemma_code_bounds(note, 0);
    if has_text(tail) {
        lemma_layout_shape(tail);
        match layout_match(tail) {
            Some(l) => {
                let value = tail.subrange(0, l.value_end);
                assert(!is_whitespace(value[l.value_end - 1]));
                let signed = tail.subrange(l.signed, l.signed_end);
                assert(!is_whitespace(signed[0]));
                let bits = tail.subrange(l.bits, l.bits_end);
                assert(!is_whitespace(bits[0]));
                let msb = tail.subrange(l.msb, l.msb_end);
                assert(!is_whitespace(msb[0]));
            },
            None => {},
        }
    }
}

/// What the extractor holds in a state lacks no part.
pub open spec fn state_filled(state: State) -> bool {
    match state {
        State::InFields { item } => item.filled(),
        _ => true,
    }
}

/// One step keeps items whole: from a state whose open item lacks no part,
/// the next state holds such an item again, and so does what the step
/// hands out.
pub proof fn lemma_step_filled(state: State, line: Seq<char>)
    requires
        state_filled(state),
    ensures
        state_filled(step(state, line).0),
        step(state, line).1 matches Some(item) ==> item.filled(),
{
    if line.len() > 0 {
        match state {
            State::Idle => {},
            State::AwaitingName { note } => {
                lemma_declaration_bounds(line, 0);
            },
            State::InFields { item } => {
                if split_match(line, field_rule()) is Some {
                    let m = split_match(line, field_rule())->0;
                    lemma_split_match_bounds(line, 0, field_rule());
                    lemma_extracted_field_filled(
                        line.subrange(m.head, m.head_end),
                        line.subrange(m.tail, line.len() as int),
                    );
                }
            },
        }
    }
}

/// Every item that the extractor hands out has a name, and each of its
/// members lacks no part.
pub proof fn lemma_feed_filled(start: (State, Seq<ItemView>), lines: Seq<Seq<char>>)
    requires
        state_filled(start.0),
        forall|i: int| 0 <= i < start.1.len() ==> (#[trigger] start.1[i]).filled(),
    ensures
        state_filled(feed(start, lines).0),
        forall|i: int|
            0 <= i < feed(start, lines).1.len() ==> (#[trigger] feed(start, lines).1[i]).filled(),
    decreases lines.len(),
{
    if lines.len() > 0 {
        lemma_feed_filled(start, lines.drop_last());
        lemma_step_filled(feed(start, lines.drop_last()).0, lines.last());
    }
}

/// Reading `first` and then `second` is reading the two one after the
/// other.
pub proof fn lemma_feed_concat(
    start: (State, Seq<ItemView>),
    first: Seq<Seq<char>>,
    second: Seq<Seq<char>>,
)
    ensures
        feed(start, first + second) == feed(feed(start, first), second),
    decreases second.len(),
{
    if second.len() == 0 {
        assert(first + second =~= first);
    } else {
        assert((first + second).drop_last() =~= first + second.drop_last());
        assert((first + second).last() == second.last());
        lemma_feed_concat(start, first, second.drop_last());
    }
}

/// Blank lines are inert: an empty line between any two lines changes
/// neither the state of the extractor nor the items it hands out.
pub proof fn lemma_blank_line_inert(
    start: (State, Seq<ItemView>),
    before: Seq<Seq<char>>,
    after: Seq<Seq<char>>,
)
    ensures
        feed(start, before + seq![Seq::<char>::empty()] + after) == feed(start, before + after),
{
    let blank = seq![Seq::<char>::empty()];
    lemma_feed_concat(start, before + blank, after);
    lemma_feed_concat(start, before, blank);
    lemma_feed_concat(start, before, after);
    let here = feed(start, before);
    assert(blank.drop_last() =~= Seq::<Seq<char>>::empty());
    assert(feed(here, blank.drop_last()) == here);
    assert(feed(here, blank) == here);
}

/// A line of nothing but whitespace is as inert as an empty one: a step
/// over it changes nothing.
pub proof fn lemma_whitespace_line_inert(state: State, line: Seq<char>)
    requires
        forall|k: int| 0 <= k < line.len() ==> is_whitespace(#[trigger] line[k]),
    ensures
        step(state, line) == (state, None::<ItemView>),
{
    reveal_strlit("//! ");
    reveal_strlit("#define ");
    reveal_strlit("typedef");
    reveal_strlit("//!<");
    reveal_strlit("}");
    lemma_whitespace_holds_no_text(line, "//! "@);
    lemma_whitespace_holds_no_text(line, "#define "@);
    lemma_whitespace_holds_no_text(line, "typedef"@);
    lemma_whitespace_holds_no_text(line, "//!<"@);
    lemma_whitespace_holds_no_text(line, "}"@);
    lemma_declaration_needs_typedef(line, 0);
    lemma_split_match_needs_marker(line, field_rule());
}

/// Lines of nothing but whitespace are inert: one of them between any two
/// lines changes neither the state of the extractor nor the items it hands
/// out.
pub proof fn lemma_whitespace_line_between(
    start: (State, Seq<ItemView>),
    before: Seq<Seq<char>>,
    line: Seq<char>,
    after: Seq<Seq<char>>,
)
    requires
        forall|k: int| 0 <= k < line.len() ==> is_whitespace(#[trigger] line[k]),
    ensures
        feed(start, before + seq![line] + after) == feed(start, before + after),
{
    let one = seq![line];
    lemma_feed_concat(start, before + one, after);
    lemma_feed_concat(start, before, one);
    lemma_feed_concat(start, before, after);
    let here = feed(start, before);
    assert(one.drop_last() =~= Seq::<Seq<char>>::empty());
    assert(feed(here, one.drop_last()) == here);
    lemma_whitespace_line_inert(here.0, line);
    assert(feed(here, one) == here);
}

/// A step hands out an item exactly where the line closes the item that is
/// open, and then the item is the open one.
pub proof fn lemma_step_closes(state: State, line: Seq<char>)
    ensures
        step(state, line).1 is Some <==> (state matches State::InFields { item } && closes(
            item,
            line,
        )),
        step(state, line).1 matches Some(out) ==> state == (State::InFields { item: out }),
{
}

/// None of `lines` closes the item that is open when it is read, the
/// extractor starting in `state`.
pub open spec fn unterminated(state: State, lines: Seq<Seq<char>>) -> bool {
    forall|k: int|
        0 <= k < lines.len() ==> match feed((state, Seq::empty()), lines.take(k)).0 {
            State::InFields { item } => !closes(item, #[trigger] lines[k]),
            _ => true,
        }
}

/// The state after `lines` does not depend on the items handed out before.
pub proof fn lemma_state_alone(
    state: State,
    first: Seq<ItemView>,
    second: Seq<ItemView>,
    lines: Seq<Seq<char>>,
)
    ensures
        feed((state, first), lines).0 == feed((state, second), lines).0,
    decreases lines.len(),
{
    if lines.len() > 0 {
        lemma_state_alone(state, first, second, lines.drop_last());
    }
}

/// An item that is left open is left out: where no line of `lines` closes
/// the item that is open when it is read, the items handed out after
/// `lines` are those handed out before.
pub proof fn lemma_unterminated_item_dropped(
    start: (State, Seq<ItemView>),
    lines: Seq<Seq<char>>,
)
    requires
        unterminated(start.0, lines),
    ensures
        feed(start, lines).1 == start.1,
    decreases lines.len(),
{
    if lines.len() > 0 {
        let shorter = lines.drop_last();
        assert forall|k: int| 0 <= k < shorter.len() implies match feed(
            (start.0, Seq::empty()),
            shorter.take(k),
        ).0 {
            State::InFields { item } => !closes(item, #[trigger] shorter[k]),
            _ => true,
        } by {
            assert(shorter.take(k) =~= lines.take(k));
            assert(shorter[k] == lines[k]);
        }
        lemma_unterminated_item_dropped(start, shorter);
        let k = lines.len() - 1;
        assert(lines.take(k) =~= shorter);
        assert(lines[k] == lines.last());
        lemma_state_alone(start.0, start.1, Seq::empty(), shorter);
        lemma_step_closes(feed(start, shorter).0, lines.last());
    }
}

/// Blank lines are inert in a text: a line ending put in where a line
/// begins does not change the items of the text.
pub proof fn lemma_blank_line_in_text(before: Seq<char>, ending: Seq<char>, after: Seq<char>)
    requires
        before.len() == 0 || before.last() == '\n',
        ending == seq!['\n'] || ending == seq!['\r', '\n'],
    ensures
        parse(before + ending + after) == parse(before + after),
{
    lemma_split_lines_concat(before, after);
    lemma_split_lines_concat(before + ending, after);
    lemma_split_lines_concat(before, ending);
    lemma_line_ending_is_blank(ending);
    lemma_blank_line_inert((State::Idle, Seq::empty()), split_lines(before), split_lines(after));
}

/// An item that is left open at the end of a text is left out: where no
/// line of `after` closes the item that is open when it is read, the items
/// of the whole text are those of `before`.
pub proof fn lemma_unterminated_in_text(before: Seq<char>, after: Seq<char>)
    requires
        before.len() == 0 || before.last() == '\n',
        unterminated(
            feed((State::Idle, Seq::empty()), split_lines(before)).0,
            split_lines(after),
        ),
    ensures
        parse(before + after) == parse(before),
{
    let start = (State::Idle, Seq::<ItemView>::empty());
    lemma_split_lines_concat(before, after);
    lemma_feed_concat(start, split_lines(before), split_lines(after));
    lemma_unterminated_item_dropped(feed(start, split_lines(before)), split_lines(after));
}

/// Every item of a text has a name, and no part of its members is empty
/// but the value.
pub proof fn lemma_parse_filled(text: Seq<char>)
    ensures
        forall|i: int| 0 <= i < parse(text).len() ==> (#[trigger] parse(text)[i]).filled(),
{
    lemma_feed_filled((State::Idle, Seq::empty()), split_lines(text));
}

/// The name that a declaration line declares.
pub open spec fn declared_name(line: Seq<char>) -> Seq<char> {
    let d = first_declaration(line, 0)->0;
    line.subrange(d.name, d.name_end)
}

/// The keyword of a declaration line.
pub open spec fn declared_keyword(line: Seq<char>) -> Seq<char> {
    let d = first_declaration(line, 0)->0;
    line.subrange(d.keyword, d.keyword_end)
}

/// One annotated struct with two documented fields gives one item: a
/// struct with the note of the marker line, the name of the declaration,
/// and the two members in the order of their declaration.
pub proof fn lemma_one_struct_two_fields(
    marker: Seq<char>,
    declaration: Seq<char>,
    first: Seq<char>,
    second: Seq<char>,
    closing: Seq<char>,
)
    requires
        contains(marker, "//! "@),
        first_declaration(declaration, 0) is Some,
        declared_keyword(declaration) == "struct"@,
        split_match(first, field_rule()) is Some,
        split_match(second, field_rule()) is Some,
        closing.len() > 0,
        split_match(closing, field_rule()) is None,
        contains(closing, declared_name(declaration)),
        contains(closing, "}"@),
    ensures
        feed(
            (State::Idle, Seq::empty()),
            seq![marker, declaration, first, second, closing],
        ).1 == seq![
            ItemView {
                kind: DocumentationType::Struct,
                note: marker.skip("//! "@.len() as int),
                name: declared_name(declaration),
                children: seq![declared_field(first), declared_field(second)],
            },
        ],
{
    let start = (State::Idle, Seq::<ItemView>::empty());
    let l5 = seq![marker, declaration, first, second, closing];
    let l4 = seq![marker, declaration, first, second];
    let l3 = seq![marker, declaration, first];
    let l2 = seq![marker, declaration];
    let l1 = seq![marker];
    assert(l5.drop_last() =~= l4);
    assert(l4.drop_last() =~= l3);
    assert(l3.drop_last() =~= l2);
    assert(l2.drop_last() =~= l1);
    assert(l1.drop_last() =~= Seq::<Seq<char>>::empty());
    reveal_strlit("//! ");
    assert(marker.len() > 0) by {
        let i = choose|i: int| occurs_at(marker, i, "//! "@);
        assert(occurs_at(marker, i, "//! "@));
    }
    lemma_declaration_bounds(declaration, 0);
    lemma_declaration_keyword(declaration, 0);
    lemma_split_match_bounds(first, 0, field_rule());
    lemma_split_match_bounds(second, 0, field_rule());
    let s0 = feed(start, Seq::<Seq<char>>::empty());
    assert(s0 == start);
    let s1 = feed(start, l1);
    assert(s1.0 == State::AwaitingName { note: marker.skip("//! "@.len() as int) });
    assert(s1.1 == start.1);
    let s2 = feed(start, l2);
    let opened = ItemView {
        kind: DocumentationType::Struct,
        note: marker.skip("//! "@.len() as int),
        name: declared_name(declaration),
        children: Seq::empty(),
    };
    assert(s2.0 == State::InFields { item: opened });
    assert(s2.1 == start.1);
    let s3 = feed(start, l3);
    let one = ItemView { children: opened.children.push(declared_field(first)), ..opened };
    assert(s3.0 == State::InFields { item: one });
    assert(s3.1 == start.1);
    let s4 = feed(start, l4);
    let two = ItemView { children: one.children.push(declared_field(second)), ..one };
    assert(s4.0 == State::InFields { item: two });
    assert(s4.1 == start.1);
    assert(two.children =~= seq![declared_field(first), declared_field(second)]);
    assert(closes(two, closing));
    let s5 = feed(start, l5);
    assert(s5.1 =~= seq![two]);
}

} // verus!
