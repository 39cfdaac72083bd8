use docx_rs::{
    DocumentChild, Docx, Paragraph, ParagraphChild, RunChild, Table, TableCellContent,
    TableChild, TableRowChild,
};
use doxygen_docx::exporter::{
    caption_text, export_doc, field_texts, header_texts, remark_text, PAGE_HEIGHT, PAGE_WIDTH,
};
use doxygen_docx::parser::{
    parse_file, DocumentationData, DocumentationItem, DocumentationItemChild, DocumentationType,
};

fn text_of(p: &Paragraph) -> String {
    let mut s = String::new();
    for child in &p.children {
        if let ParagraphChild::Run(run) = child {
            for c in &run.children {
                if let RunChild::Text(t) = c {
                    s.push_str(&t.text);
                }
            }
        }
    }
    s
}

fn alignment_of(p: &Paragraph) -> String {
    p.property.alignment.as_ref().map(|j| j.val.clone()).unwrap_or_default()
}

fn rows_of(t: &Table) -> Vec<Vec<(String, String)>> {
    t.rows
        .iter()
        .map(|TableChild::TableRow(row)| {
            row.cells
                .iter()
                .map(|TableRowChild::TableCell(cell)| {
                    assert_eq!(cell.children.len(), 1);
                    match &cell.children[0] {
                        TableCellContent::Paragraph(p) => (text_of(p), alignment_of(p)),
                        _ => panic!("a cell holds a paragraph"),
                    }
                })
                .collect()
        })
        .collect()
}

fn captions_of(doc: &Docx) -> Vec<(String, String)> {
    doc.document
        .children
        .iter()
        .filter_map(|c| match c {
            DocumentChild::Paragraph(p) => Some((text_of(p), alignment_of(p))),
            _ => None,
        })
        .collect()
}

fn tables_of(doc: &Docx) -> Vec<Vec<Vec<(String, String)>>> {
    doc.document
        .children
        .iter()
        .filter_map(|c| match c {
            DocumentChild::Table(t) => Some(rows_of(t)),
            _ => None,
        })
        .collect()
}

fn child(datatype: &str, note: &str, data: &str, val: &str) -> DocumentationItemChild {
    DocumentationItemChild {
        datatype: datatype.to_owned(),
        code: "-".to_owned(),
        note: note.to_owned(),
        additional_data: data.to_owned(),
        val: val.to_owned(),
        signed: "true".to_owned(),
        bits: "4".to_owned(),
        msb: "3".to_owned(),
    }
}

fn item(name: &str, note: &str, children: Vec<DocumentationItemChild>) -> DocumentationItem {
    DocumentationItem {
        kind: DocumentationType::Struct,
        note: note.to_owned(),
        name: name.to_owned(),
        children,
    }
}

const TITLES: [&str; 7] = [
    "Название элемента структуры",
    "Код параметра",
    "Наименование параметра (сигнала)",
    "ЦСР (ЦМР)",
    "Знак",
    "Размещение в разряде",
    "Примечание",
];

#[test]
fn empty_collection_gives_a_document_without_tables() {
    let doc = export_doc(&DocumentationData::default());
    assert_eq!(doc.document.children.len(), 0);
    let page = format!("{:?}", doc.document.section_property.page_size);
    assert_eq!(page, "PageSize { w: 16837, h: 11905, orient: None }");
    assert_eq!((PAGE_WIDTH, PAGE_HEIGHT), (16837, 11905));
}

#[test]
fn each_item_gives_a_caption_and_a_table() {
    let data = DocumentationData {
        items: vec![
            item("first", "The first", vec![child("int a", "A", "-", "")]),
            item("second", "The second", vec![]),
            item(
                "third",
                "The third",
                vec![
                    child("int x", "X", "-", ""),
                    child("int y", "Y", "-", ""),
                    child("int z", "Z", "-", ""),
                ],
            ),
        ],
    };
    let doc = export_doc(&data);
    assert_eq!(doc.document.children.len(), 6);
    for (k, block) in doc.document.children.iter().enumerate() {
        match block {
            DocumentChild::Paragraph(_) => assert_eq!(k % 2, 0),
            DocumentChild::Table(_) => assert_eq!(k % 2, 1),
            _ => panic!("neither caption nor table"),
        }
    }
    assert_eq!(
        captions_of(&doc),
        vec![
            ("Table 1 - The first (first)".to_owned(), "right".to_owned()),
            ("Table 2 - The second (second)".to_owned(), "right".to_owned()),
            ("Table 3 - The third (third)".to_owned(), "right".to_owned()),
        ]
    );
    let tables = tables_of(&doc);
    assert_eq!(tables.len(), 3);
    assert_eq!(tables[0].len(), 2);
    assert_eq!(tables[1].len(), 1);
    assert_eq!(tables[2].len(), 4);
    for table in &tables {
        for row in table {
            assert_eq!(row.len(), 7);
            for cell in row {
                assert_eq!(cell.1, "center");
            }
        }
        let titles: Vec<&str> = table[0].iter().map(|c| c.0.as_str()).collect();
        assert_eq!(titles, TITLES);
    }
    let page = format!("{:?}", doc.document.section_property.page_size);
    assert_eq!(page, "PageSize { w: 16837, h: 11905, orient: Some(Landscape) }");
}

#[test]
fn row_of_a_member_holds_its_parts_in_the_fixed_order() {
    let data = DocumentationData {
        items: vec![item(
            "regs",
            "Registers",
            vec![child("u8 mode : 4", "Mode", "factor", "10"), child("u8 f", "Flag", "plain", "")],
        )],
    };
    let doc = export_doc(&data);
    let tables = tables_of(&doc);
    let row: Vec<&str> = tables[0][1].iter().map(|c| c.0.as_str()).collect();
    assert_eq!(row, ["u8 mode : 4", "-", "Mode", "-", "true", "4", "factor 10"]);
    let row: Vec<&str> = tables[0][2].iter().map(|c| c.0.as_str()).collect();
    assert_eq!(row, ["u8 f", "-", "Flag", "-", "true", "4", "plain"]);
}

#[test]
fn text_is_stored_escaped_and_without_line_breaks() {
    let data = DocumentationData {
        items: vec![item("n", "a<b & \"c\" > 'd'\r\n", vec![child("T<x>", "p&q", "-", "")])],
    };
    let doc = export_doc(&data);
    assert_eq!(
        captions_of(&doc)[0].0,
        "Table 1 - a&lt;b &amp; &quot;c&quot; &gt; &apos;d&apos; (n)"
    );
    let tables = tables_of(&doc);
    assert_eq!(tables[0][1][0].0, "T&lt;x&gt;");
    assert_eq!(tables[0][1][2].0, "p&amp;q");
}

#[test]
fn caption_counts_in_decimal() {
    let it = item("name", "note", vec![]);
    assert_eq!(caption_text(1, &it), "Table 1 - note (name)");
    assert_eq!(caption_text(9, &it), "Table 9 - note (name)");
    assert_eq!(caption_text(10, &it), "Table 10 - note (name)");
    assert_eq!(caption_text(0, &it), "Table 0 - note (name)");
    assert_eq!(caption_text(4096, &it), "Table 4096 - note (name)");
    assert_eq!(
        caption_text(usize::MAX, &it),
        format!("Table {} - note (name)", usize::MAX)
    );
}

#[test]
fn remark_appends_the_value_after_one_space() {
    assert_eq!(remark_text(&child("d", "n", "data", "")), "data");
    assert_eq!(remark_text(&child("d", "n", "data", "7")), "data 7");
    assert_eq!(remark_text(&child("d", "n", "-", " ")), "-  ");
}

#[test]
fn rows_are_made_of_seven_texts() {
    assert_eq!(header_texts(), TITLES);
    assert_eq!(
        field_texts(&child("int a", "A", "x", "y")),
        ["int a", "-", "A", "-", "true", "4", "x y"]
    );
}

#[test]
fn parsed_header_is_laid_out() {
    let data = parse_file(
        "//! Flags\ntypedef struct flags {\n  unsigned ready : 1; //!< [F1] Ready // set by hw false 1 0\n} flags;\n",
    );
    let doc = export_doc(&data);
    assert_eq!(captions_of(&doc)[0].0, "Table 1 - Flags (flags)");
    let tables = tables_of(&doc);
    let row: Vec<&str> = tables[0][1].iter().map(|c| c.0.as_str()).collect();
    assert_eq!(row, ["unsigned ready : 1", "-", "Ready", "-", "false", "1", "set by hw"]);
}

#[test]
fn paragraphs_are_numbered_when_the_document_is_built() {
    let data = DocumentationData {
        items: vec![
            item("a", "A", vec![child("int x", "X", "-", "")]),
            item("b", "B", vec![]),
        ],
    };
    let doc = export_doc(&data);
    for block in &doc.document.children {
        if let DocumentChild::Paragraph(p) = block {
            assert_eq!(p.id, "");
        }
    }
    let built = doc.build();
    let xml = String::from_utf8(built.document).unwrap();
    let mut ids: Vec<&str> = xml
        .split("w14:paraId=\"")
        .skip(1)
        .map(|rest| rest.split('"').next().unwrap())
        .collect();
    assert_eq!(ids.len(), 2 + 7 * 3);
    assert!(ids.iter().all(|id| id.len() == 8));
    ids.sort();
    ids.dedup();
    assert_eq!(ids.len(), 2 + 7 * 3);
}

#[test]
fn document_is_packed_into_an_archive() {
    let data = DocumentationData { items: vec![item("a", "A", vec![child("int x", "X", "-", "")])] };
    let mut bytes = std::io::Cursor::new(Vec::new());
    export_doc(&data).build().pack(&mut bytes).unwrap();
    let bytes = bytes.into_inner();
    assert!(bytes.len() > 4);
    assert_eq!(&bytes[..2], b"PK");
}

#[test]
fn sign_width_and_remark_of_a_header_are_never_empty() {
    for text in [
        "//! n\ntypedef struct t {\na; //!< x //\r\r\n} t;\n",
        "//! n\ntypedef struct t {\na; //!< x // \nb, //!< y //\t\r\r\nc //!< z // 1 true 4 0\n} t;",
        "//! n\ntypedef enum t {\nA, //!< [k] a // \r\r\nB //!< b\n} t;",
    ] {
        let doc = export_doc(&parse_file(text));
        let tables = tables_of(&doc);
        assert_eq!(tables.len(), 1);
        for row in &tables[0][1..] {
            assert_eq!(row[1].0, "-");
            assert_eq!(row[3].0, "-");
            for cell in &row[4..] {
                assert!(!cell.0.is_empty(), "on {:?}", text);
            }
        }
    }
    let doc = export_doc(&parse_file("//! n\ntypedef struct t {\na; //!< x //\r\r\n} t;\n"));
    let row: Vec<String> = tables_of(&doc)[0][1].iter().map(|c| c.0.clone()).collect();
    assert_eq!(row, ["a", "-", "x", "-", "-", "-", "-"]);
}
