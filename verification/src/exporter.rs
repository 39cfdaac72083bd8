//! The renderer: one caption and one table for each documented item, laid
//! out in a word-processor document.

use vstd::prelude::*;
use crate::chars::{decimal, has_text, is_whitespace, push_decimal, texts};
use crate::parser::{
    lemma_parse_filled, parse, DocumentationData, DocumentationItem, DocumentationItemChild,
    FieldView, ItemView,
};
use docx_rs::{
    AlignmentType, Docx, PageOrientationType, Paragraph, ParagraphProperty, Run, Table,
    TableCell, TableRow,
};

verus! {

#[verifier::external_type_specification]
#[verifier::external_body]
pub struct ExDocx(Docx);

#[verifier::external_type_specification]
#[verifier::external_body]
pub struct ExParagraph(Paragraph);

#[verifier::external_type_specification]
#[verifier::external_body]
pub struct ExTableCell(TableCell);

#[verifier::external_type_specification]
#[verifier::external_body]
pub struct ExTableRow(TableRow);

/// How a paragraph is set between the margins.
#[derive(Clone, Copy, Debug, PartialEq, Eq, Structural)]
pub enum Alignment {
    Center,
    Right,
}

/// How the page lies.
#[derive(Clone, Copy, Debug, PartialEq, Eq, Structural)]
pub enum Orientation {
    Landscape,
    Portrait,
}

/// One paragraph of a single run of text. It bears the number `id`, or
/// none where `id` is empty: the document numbers such a paragraph when it
/// is built.
pub struct Text {
    pub id: Seq<char>,
    pub text: Seq<char>,
    pub alignment: Alignment,
}

/// One block of the body of a document: a paragraph, or a table as rows of
/// cells, each cell holding paragraphs.
pub enum Block {
    Paragraph(Text),
    Table(Seq<Seq<Seq<Text>>>),
}

/// The size of the page in twentieths of a point, and its orientation where
/// one was set.
pub struct Page {
    pub width: u32,
    pub height: u32,
    pub orientation: Option<Orientation>,
}

/// The blocks that the body of a document holds, in order.
pub uninterp spec fn docx_body(doc: Docx) -> Seq<Block>;

/// The page of the last section of a document.
pub uninterp spec fn docx_page(doc: Docx) -> Page;

/// The number, the text and the alignment of a paragraph.
pub uninterp spec fn paragraph_text(paragraph: Paragraph) -> Text;

/// The paragraphs that a cell holds, in order.
pub uninterp spec fn cell_body(cell: TableCell) -> Seq<Text>;

/// The cells that a row holds, in order.
pub uninterp spec fn row_cells(row: TableRow) -> Seq<Seq<Text>>;

/// What a run of text keeps of one character: line feed and carriage
/// return are dropped, the five characters that mark-up reserves are
/// replaced by their entities.
pub open spec fn stored_char(c: char) -> Seq<char> {
    if c == '\n' || c == '\r' {
        Seq::empty()
    } else if c == '&' {
        "&amp;"@
    } else if c == '<' {
        "&lt;"@
    } else if c == '>' {
        "&gt;"@
    } else if c == '"' {
        "&quot;"@
    } else if c == '\'' {
        "&apos;"@
    } else {
        seq![c]
    }
}

/// What a run of text keeps of `text`.
pub open spec fn stored_text(text: Seq<char>) -> Seq<char>
    decreases text.len(),
{
    if text.len() == 0 {
        Seq::empty()
    } else {
        stored_text(text.drop_last()) + stored_char(text.last())
    }
}

/// `Docx::new` and `Docx::page_size` make a document with an empty body and
/// a page of the given size, for which no orientation is set.
#[verifier::external_body]
fn new_document(width: u32, height: u32) -> (doc: Docx)
    ensures
        docx_body(doc) == Seq::<Block>::empty(),
        docx_page(doc) == (Page { width, height, orientation: None }),
{
    Docx::new().page_size(width, height)
}

/// A `Paragraph` put together from its fields, with the number `id`, no
/// children and the properties of `ParagraphProperty::new`, then given one
/// run by `Run::add_text` and `Paragraph::add_run` and its alignment by
/// `Paragraph::align`. The run keeps the text as `stored_text` says:
/// `Run::add_text` drops line feeds, and `Text::new` escapes what is left.
#[verifier::external_body]
fn new_paragraph(id: &str, text: &str, alignment: Alignment) -> (paragraph: Paragraph)
    ensures
        paragraph_text(paragraph) == (Text { id: id@, text: stored_text(text@), alignment }),
{
    let alignment = match alignment {
        Alignment::Center => AlignmentType::Center,
        Alignment::Right => AlignmentType::Right,
    };
    let paragraph = Paragraph {
        id: id.to_owned(),
        children: Vec::new(),
        property: ParagraphProperty::new(),
        has_numbering: false,
    };
    paragraph.add_run(Run::new().add_text(text)).align(alignment)
}

/// `Docx::add_paragraph` appends the paragraph to the body and leaves the
/// page as it is.
#[verifier::external_body]
fn with_paragraph(doc: Docx, paragraph: Paragraph) -> (r: Docx)
    ensures
        docx_body(r) == docx_body(doc).push(Block::Paragraph(paragraph_text(paragraph))),
        docx_page(r) == docx_page(doc),
{
    doc.add_paragraph(paragraph)
}

/// `Docx::page_orient` sets the orientation of the page and leaves its size
/// and the body as they are.
#[verifier::external_body]
fn with_orientation(doc: Docx, orientation: Orientation) -> (r: Docx)
    ensures
        docx_body(r) == docx_body(doc),
        docx_page(r) == (Page { orientation: Some(orientation), ..docx_page(doc) }),
{
    doc.page_orient(
        match orientation {
            Orientation::Landscape => PageOrientationType::Landscape,
            Orientation::Portrait => PageOrientationType::Portrait,
        },
    )
}

/// `TableCell::new` and `TableCell::add_paragraph` make a cell that holds
/// the one paragraph.
#[verifier::external_body]
fn new_cell(paragraph: Paragraph) -> (cell: TableCell)
    ensures
        cell_body(cell) == seq![paragraph_text(paragraph)],
{
    TableCell::new().add_paragraph(paragraph)
}

/// `TableRow::new` makes a row that holds the cells in their order.
#[verifier::external_body]
fn new_row(cells: Vec<TableCell>) -> (row: TableRow)
    ensures
        row_cells(row) == Seq::new(cells@.len(), |i: int| cell_body(cells@[i])),
{
    TableRow::new(cells)
}

/// `Table::new` makes a table of the rows in their order, and
/// `Docx::add_table` appends it to the body and leaves the page as it is.
#[verifier::external_body]
fn with_table(doc: Docx, rows: Vec<TableRow>) -> (r: Docx)
    ensures
        docx_body(r) == docx_body(doc).push(
            Block::Table(Seq::new(rows@.len(), |i: int| row_cells(rows@[i]))),
        ),
        docx_page(r) == docx_page(doc),
{
    doc.add_table(Table::new(rows))
}

/// The width of the page, in twentieths of a point.
pub const PAGE_WIDTH: u32 = 16837;

/// The height of the page, in twentieths of a point.
pub const PAGE_HEIGHT: u32 = 11905;

/// The caption of the table of `item`, which is the table with the given
/// number.
pub open spec fn caption(number: nat, item: ItemView) -> Seq<char> {
    "Table "@ + decimal(number) + " - "@ + item.note + " ("@ + item.name + ")"@
}

/// The remark of a member: its annotation, followed by a space and its
/// value where it has one.
pub open spec fn remark(field: FieldView) -> Seq<char> {
    if field.val.len() == 0 {
        field.additional_data
    } else {
        field.additional_data + " "@ + field.val
    }
}

/// The titles of the seven columns of a table: the name of the element, the
/// code of the parameter, the name of the parameter or signal, the address
/// reference, the sign, the placement in the word, and the remark.
pub open spec fn header_row() -> Seq<Seq<char>> {
    seq![
        "Название элемента структуры"@,
        "Код параметра"@,
        "Наименование параметра (сигнала)"@,
        "ЦСР (ЦМР)"@,
        "Знак"@,
        "Размещение в разряде"@,
        "Примечание"@,
    ]
}

/// The row of a member.
pub open spec fn field_row(field: FieldView) -> Seq<Seq<char>> {
    seq![
        field.datatype,
        "-"@,
        field.note,
        "-"@,
        field.signed,
        field.bits,
        remark(field),
    ]
}

/// The rows of the table of `item`: the titles, then one row for each
/// member in the order of their declaration.
pub open spec fn table_rows(item: ItemView) -> Seq<Seq<Seq<char>>> {
    Seq::new(
        1 + item.children.len(),
        |r: int|
            if r == 0 {
                header_row()
            } else {
                field_row(item.children[r - 1])
            },
    )
}

/// The cell that holds `text`: one centred paragraph without a number of
/// its own.
pub open spec fn cell_of(text: Seq<char>) -> Seq<Text> {
    seq![Text { id: Seq::empty(), text: stored_text(text), alignment: Alignment::Center }]
}

/// The cells of a row of texts.
pub open spec fn cells_of(row: Seq<Seq<char>>) -> Seq<Seq<Text>> {
    Seq::new(row.len(), |i: int| cell_of(row[i]))
}

/// The block that holds the table of `item`.
pub open spec fn table_block(item: ItemView) -> Block {
    Block::Table(
        Seq::new(table_rows(item).len(), |r: int| cells_of(table_rows(item)[r])),
    )
}

/// The block that holds the caption of the table of `item`: one paragraph
/// without a number of its own, set to the right.
pub open spec fn caption_block(number: nat, item: ItemView) -> Block {
    Block::Paragraph(
        Text {
            id: Seq::empty(),
            text: stored_text(caption(number, item)),
            alignment: Alignment::Right,
        },
    )
}

/// The body of the document of `items`: for each item its caption and its
/// table, the tables numbered from 1 through the whole document.
pub open spec fn render(items: Seq<ItemView>) -> Seq<Block> {
    Seq::new(
        2 * items.len(),
        |k: int|
            if k % 2 == 0 {
                caption_block((k / 2 + 1) as nat, items[k / 2])
            } else {
                table_block(items[k / 2])
            },
    )
}

/// The page of the document of `items`: the fixed size, marked landscape
/// with the first item.
pub open spec fn page_of(items: Seq<ItemView>) -> Page {
    Page {
        width: PAGE_WIDTH,
        height: PAGE_HEIGHT,
        orientation: if items.len() > 0 {
            Some(Orientation::Landscape)
        } else {
            None
        },
    }
}

/// The caption of the table of `item`.
pub fn caption_text(number: usize, item: &DocumentationItem) -> (s: String)
    ensures
        s@ == caption(number as nat, item@),
{
    let mut s: String = String::from_str("Table ");
    push_decimal(&mut s, number);
    s.append(" - ");
    s.append(item.note.as_str());
    s.append(" (");
    s.append(item.name.as_str());
    s.append(")");
    s
}

/// The remark of a member.
pub fn remark_text(child: &DocumentationItemChild) -> (s: String)
    ensures
        s@ == remark(child@),
{
    let mut s: String = child.additional_data.clone();
    if child.val.as_str().unicode_len() != 0 {
        s.append(" ");
        s.append(child.val.as_str());
    }
    s
}

/// The titles of the columns.
pub fn header_texts() -> (row: Vec<String>)
    ensures
        texts(row@) == header_row(),
{
    let mut row: Vec<String> = Vec::new();
    row.push(String::from_str("Название элемента структуры"));
    row.push(String::from_str("Код параметра"));
    row.push(String::from_str("Наименование параметра (сигнала)"));
    row.push(String::from_str("ЦСР (ЦМР)"));
    row.push(String::from_str("Знак"));
    row.push(String::from_str("Размещение в разряде"));
    row.push(String::from_str("Примечание"));
    assert(texts(row@) =~= header_row());
    row
}

/// The texts of the row of a member.
pub fn field_texts(child: &DocumentationItemChild) -> (row: Vec<String>)
    ensures
        texts(row@) == field_row(child@),
{
    let mut row: Vec<String> = Vec::new();
    row.push(child.datatype.clone());
    row.push(String::from_str("-"));
    row.push(child.note.clone());
    row.push(String::from_str("-"));
    row.push(child.signed.clone());
    row.push(child.bits.clone());
    row.push(remark_text(child));
    assert(texts(row@) =~= field_row(child@));
    row
}

/// The row that holds `row`, each text in a cell of its own.
fn make_row(row: &Vec<String>) -> (r: TableRow)
    ensures
        row_cells(r) == cells_of(texts(row@)),
{
    let mut cells: Vec<TableCell> = Vec::new();
    let mut i: usize = 0;
    while i < row.len()
        invariant
            i <= row.len(),
            cells@.len() == i,
            forall|k: int| 0 <= k < i ==> cell_body(cells@[k]) == cell_of(row@[k]@),
        decreases row.len() - i,
    {
        let id = String::new();
        cells.push(new_cell(new_paragraph(id.as_str(), row[i].as_str(), Alignment::Center)));
        i += 1;
    }
    let r = new_row(cells);
    assert(row_cells(r) =~= cells_of(texts(row@)));
    r
}

/// The rows of the table of `item`.
fn make_rows(item: &DocumentationItem) -> (rows: Vec<TableRow>)
    ensures
        Block::Table(Seq::new(rows@.len(), |r: int| row_cells(rows@[r]))) == table_block(item@),
{
    let mut rows: Vec<TableRow> = Vec::new();
    rows.push(make_row(&header_texts()));
    let mut i: usize = 0;
    while i < item.children.len()
        invariant
            i <= item.children.len(),
            rows@.len() == i + 1,
            forall|r: int| 0 <= r <= i ==> row_cells(#[trigger] rows@[r]) == cells_of(
                table_rows(item@)[r],
            ),
        decreases item.children.len() - i,
    {
        rows.push(make_row(&field_texts(&item.children[i])));
        i += 1;
    }
    assert(Seq::new(rows@.len(), |r: int| row_cells(rows@[r])) =~= Seq::new(
        table_rows(item@).len(),
        |r: int| cells_of(table_rows(item@)[r]),
    ));
    rows
}

/// Lays the documented items out as a document: a page of the fixed size,
/// and for each item a caption and a table. Where the members of the items
/// lack no part, as those of a header do, the sign, the width and the remark
/// of no member are empty in the document.
pub fn export_doc(data: &DocumentationData) -> (doc: Docx)
    ensures
        docx_body(doc) == render(data@),
        docx_page(doc) == page_of(data@),
        (forall|i: int| 0 <= i < data@.len() ==> (#[trigger] data@[i]).filled()) ==> forall|
            i: int,
            r: int,
            c: int,
        |
            0 <= i < data@.len() && 1 <= r <= data@[i].children.len() && 4 <= c < 7 ==> (
            #[trigger] rendered_cell(docx_body(doc), i, r, c)).len() > 0,
{
    proof {
        if forall|i: int| 0 <= i < data@.len() ==> (#[trigger] data@[i]).filled() {
            lemma_member_cells_hold_text(data@);
        }
    }
    let mut doc = new_document(PAGE_WIDTH, PAGE_HEIGHT);
    let mut i: usize = 0;
    assert(docx_body(doc) =~= render(data@.take(0)));
    while i < data.items.len()
        invariant
            i <= data.items.len(),
            docx_body(doc) == render(data@.take(i as int)),
            docx_page(doc) == page_of(data@.take(i as int)),
        decreases data.items.len() - i,
    {
        let item = &data.items[i];
        let text = caption_text(i + 1, item);
        let id = String::new();
        let paragraph = new_paragraph(id.as_str(), text.as_str(), Alignment::Right);
        doc = with_orientation(with_paragraph(doc, paragraph), Orientation::Landscape);
        doc = with_table(doc, make_rows(item));
        i += 1;
        assert(docx_body(doc) =~= render(data@.take(i as int)));
    }
    assert(data@.take(i as int) =~= data@);
    doc
}

/// The number of paragraphs among the blocks of a body.
pub open spec fn paragraphs(body: Seq<Block>) -> nat
    decreases body.len(),
{
    if body.len() == 0 {
        0
    } else if body.last() is Paragraph {
        paragraphs(body.drop_last()) + 1
    } else {
        paragraphs(body.drop_last())
    }
}

/// The number of tables among the blocks of a body.
pub open spec fn tables(body: Seq<Block>) -> nat
    decreases body.len(),
{
    if body.len() == 0 {
        0
    } else if body.last() is Table {
        tables(body.drop_last()) + 1
    } else {
        tables(body.drop_last())
    }
}

/// The table of an item has one row for the titles and one for each member,
/// each row has seven cells, and each cell holds one paragraph.
pub proof fn lemma_table_shape(item: ItemView)
    ensures
        table_block(item) matches Block::Table(rows) && rows.len() == 1 + item.children.len()
            && forall|r: int, c: int|
            0 <= r < rows.len() && 0 <= c < 7 ==> rows[r].len() == 7 && (#[trigger] rows[r][c]).len()
                == 1,
{
}

/// In the document of some items the caption and the table of the item at
/// index `i` are the blocks at `2 * i` and `2 * i + 1`, and the table has
/// the number `i + 1`.
pub proof fn lemma_render_shape(items: Seq<ItemView>)
    ensures
        render(items).len() == 2 * items.len(),
        forall|i: int|
            0 <= i < items.len() ==> render(items)[2 * i] == caption_block(
                (i + 1) as nat,
                #[trigger] items[i],
            ) && render(items)[2 * i + 1] == table_block(items[i]),
{
}

/// The document of some items holds as many captions as there are items,
/// and as many tables.
pub proof fn lemma_render_counts(items: Seq<ItemView>)
    ensures
        paragraphs(render(items)) == items.len(),
        tables(render(items)) == items.len(),
    decreases items.len(),
{
    if items.len() > 0 {
        let body = render(items);
        let shorter = items.drop_last();
        lemma_render_counts(shorter);
        assert(body.drop_last().drop_last() =~= render(shorter));
        let n = items.len() as int;
        assert(body.last() == body[2 * (n - 1) + 1]);
        assert(body.drop_last().last() == body[2 * (n - 1)]);
        assert(body.last() is Table);
        assert(body.drop_last().last() is Paragraph);
        assert(paragraphs(body) == paragraphs(body.drop_last()));
        assert(paragraphs(body.drop_last()) == paragraphs(body.drop_last().drop_last()) + 1);
        assert(tables(body) == tables(body.drop_last()) + 1);
        assert(tables(body.drop_last()) == tables(body.drop_last().drop_last()));
    } else {
        assert(render(items) =~= Seq::<Block>::empty());
    }
}

/// A text that holds a character that is no whitespace is stored as a text
/// that is not empty.
pub proof fn lemma_text_is_stored(text: Seq<char>)
    requires
        has_text(text),
    ensures
        stored_text(text).len() > 0,
    decreases text.len(),
{
    let i = choose|i: int| 0 <= i < text.len() && !is_whitespace(#[trigger] text[i]);
    if i == text.len() - 1 {
        reveal_strlit("&amp;");
        reveal_strlit("&lt;");
        reveal_strlit("&gt;");
        reveal_strlit("&quot;");
        reveal_strlit("&apos;");
        assert(stored_char(text.last()).len() > 0);
    } else {
        assert(text.drop_last()[i] == text[i]);
        lemma_text_is_stored(text.drop_last());
    }
}

/// The text of the cell in the given row and column of the table of the
/// item at index `item`, in the body of a document of items.
pub open spec fn rendered_cell(body: Seq<Block>, item: int, row: int, column: int) -> Seq<char> {
    match body[2 * item + 1] {
        Block::Table(rows) => rows[row][column][0].text,
        Block::Paragraph(_) => Seq::empty(),
    }
}

/// The cells of a table hold what is stored of the texts of its rows.
pub proof fn lemma_rendered_cell(items: Seq<ItemView>, item: int, row: int, column: int)
    requires
        0 <= item < items.len(),
        0 <= row <= items[item].children.len(),
        0 <= column < 7,
    ensures
        rendered_cell(render(items), item, row, column) == stored_text(
            table_rows(items[item])[row][column],
        ),
{
}

/// The sign, the width and the remark of a member are never empty in the
/// document: where the members of the items lack no part, the last three
/// cells of each row of a member hold a text that is not empty.
pub proof fn lemma_member_cells_hold_text(items: Seq<ItemView>)
    requires
        forall|i: int| 0 <= i < items.len() ==> (#[trigger] items[i]).filled(),
    ensures
        forall|i: int, r: int, c: int|
            0 <= i < items.len() && 1 <= r <= items[i].children.len() && 4 <= c < 7 ==> (
            #[trigger] rendered_cell(render(items), i, r, c)).len() > 0,
{
    assert forall|i: int, r: int, c: int|
        0 <= i < items.len() && 1 <= r <= items[i].children.len() && 4 <= c < 7 implies (
    #[trigger] rendered_cell(render(items), i, r, c)).len() > 0 by {
        let field = items[i].children[r - 1];
        assert(items[i].filled());
        assert(field.filled());
        lemma_rendered_cell(items, i, r, c);
        let cell = field_row(field)[c];
        if c == 6 {
            let k = choose|k: int|
                0 <= k < field.additional_data.len() && !is_whitespace(
                    #[trigger] field.additional_data[k],
                );
            assert(remark(field)[k] == field.additional_data[k]);
            assert(has_text(remark(field)));
        }
        lemma_text_is_stored(cell);
    }
}

/// The sign, the width and the remark of a member are never empty in the
/// document of a header: the last three cells of each row of a member hold
/// a text that is not empty.
pub proof fn lemma_header_cells_hold_text(text: Seq<char>)
    ensures
        forall|i: int, r: int, c: int|
            0 <= i < parse(text).len() && 1 <= r <= parse(text)[i].children.len() && 4 <= c < 7
                ==> (#[trigger] rendered_cell(render(parse(text)), i, r, c)).len() > 0,
{
    lemma_parse_filled(text);
    lemma_member_cells_hold_text(parse(text));
}

} // verus!
