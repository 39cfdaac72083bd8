use doxygen_docx::parser::{
    extract_child, parse_file, DocumentationData, DocumentationItem, DocumentationItemChild,
    DocumentationType, ParsingState,
};

fn header(path: &str) -> &'static str {
    match path {
        "test_data/test1.h" => {
            "//! Test struct\n\
             typedef struct test {\n\
             \x20   int a; //!< This is A\n\
             \x20   int b; //!< This is B\n\
             } test;\n"
        }
        "test_data/test2.h" => {
            "#ifndef TEST_H\n\
             #define TEST_H\n\
             \n\
             //! Largest count\n\
             #define MAX_COUNT 16\n\
             \n\
             //! Test struct\n\
             typedef struct test {\n\
             \x20   int a; //!< This is A\n\
             \x20   int b; //!< This is B\n\
             } test;\n\
             \n\
             #endif\n"
        }
        "test_data/test3.h" => {
            "//! Other struct\n\
             typedef struct other {\n\
             \x20   char c; //!< This is C\n\
             } other;\n\
             \n\
             //! Test struct\n\
             typedef struct test {\n\
             \x20   int a; //!< This is A\n\
             \x20   int b; //!< This is B\n\
             } test;\n"
        }
        "test_data/test4.h" => {
            "//! Other struct\r\n\
             typedef struct other {\r\n\
             \x20   char c; //!< This is C\r\n\
             } other;\r\n\
             \r\n\
             //! Test struct\r\n\
             typedef enum test {\r\n\
             \x20   a, //!< This is A\r\n\
             \x20   b, //!< This is B\r\n\
             } test;\r\n"
        }
        "test_data/test5.h" => {
            "//! Other struct\n\
             typedef struct other {\n\
             \x20   char c; //!< [C1] This is C // remark\n\
             } other;\n\
             \n\
             //! Test struct\n\
             typedef struct test {\n\
             \x20   int a; //!< This is A // 1 true 4 0\n\
             \x20   int b; //!< This is B // spare\n\
             } test;\n"
        }
        _ => panic!("no such header"),
    }
}

#[test]
fn parse_simple_file_test() {
    let data = parse_file(header("test_data/test1.h"));
    assert_eq!(data.items.len(), 1);
    let data = data.items[0].clone();
    assert_eq!(data.children.len(), 2);
    let expected = DocumentationItem {
        kind: DocumentationType::Struct,
        note: "Test struct".to_owned(),
        name: "test".to_owned(),
        children: Vec::default(),
    };
    assert_eq!(data.kind, expected.kind);
    assert_eq!(data.note, expected.note);
    assert_eq!(data.name, expected.name);
    let expected = DocumentationItemChild {
        datatype: "int a".to_owned(),
        note: "This is A".to_owned(),
        additional_data: "".to_owned(),
        ..Default::default()
    };
    let child = data.children[0].clone();
    assert_eq!(child.datatype, expected.datatype);
    assert_eq!(child.note, expected.note);

    let expected = DocumentationItemChild {
        datatype: "int b".to_owned(),
        note: "This is B".to_owned(),
        additional_data: "".to_owned(),
        ..Default::default()
    };
    let child = data.children[1].clone();
    assert_eq!(child.datatype, expected.datatype);
    assert_eq!(child.note, expected.note);
}

#[test]
fn parse_file_with_multiple_stucts_test() {
    let data = parse_file(header("test_data/test3.h"));
    assert_eq!(data.items.len(), 2);
    let data = data.items[1].clone();
    assert_eq!(data.children.len(), 2);
    let expected = DocumentationItem {
        kind: DocumentationType::Struct,
        note: "Test struct".to_owned(),
        name: "test".to_owned(),
        children: Vec::default(),
    };
    assert_eq!(data.kind, expected.kind);
    assert_eq!(data.note, expected.note);
    assert_eq!(data.name, expected.name);
    let expected = DocumentationItemChild {
        datatype: "int a".to_owned(),
        note: "This is A".to_owned(),
        additional_data: "".to_owned(),
        ..Default::default()
    };
    let child = data.children[0].clone();
    assert_eq!(child.datatype, expected.datatype);
    assert_eq!(child.note, expected.note);

    let expected = DocumentationItemChild {
        datatype: "int b".to_owned(),
        note: "This is B".to_owned(),
        additional_data: "".to_owned(),
        ..Default::default()
    };
    let child = data.children[1].clone();
    assert_eq!(child.datatype, expected.datatype);
    assert_eq!(child.note, expected.note);
}

#[test]
fn parse_file_with_enum_test() {
    let data = parse_file(header("test_data/test4.h"));
    assert_eq!(data.items.len(), 2);
    let data = data.items[1].clone();
    assert_eq!(data.children.len(), 2);
    let expected = DocumentationItem {
        kind: DocumentationType::Enum,
        note: "Test struct".to_owned(),
        name: "test".to_owned(),
        children: Vec::default(),
    };
    assert_eq!(data.kind, expected.kind);
    assert_eq!(data.note, expected.note);
    assert_eq!(data.name, expected.name);
    let expected = DocumentationItemChild {
        datatype: "a".to_owned(),
        note: "This is A".to_owned(),
        additional_data: "".to_owned(),
        ..Default::default()
    };
    let child = data.children[0].clone();
    assert_eq!(child.datatype, expected.datatype);
    assert_eq!(child.note, expected.note);

    let expected = DocumentationItemChild {
        datatype: "b".to_owned(),
        note: "This is B".to_owned(),
        additional_data: "".to_owned(),
        ..Default::default()
    };
    let child = data.children[1].clone();
    assert_eq!(child.datatype, expected.datatype);
    assert_eq!(child.note, expected.note);
}

#[test]
fn parse_file_with_defines_test() {
    let data = parse_file(header("test_data/test2.h"));
    assert_eq!(data.items.len(), 1);
    let data = data.items[0].clone();
    assert_eq!(data.children.len(), 2);
    let expected = DocumentationItem {
        kind: DocumentationType::Struct,
        note: "Test struct".to_owned(),
        name: "test".to_owned(),
        children: Vec::default(),
    };
    assert_eq!(data.kind, expected.kind);
    assert_eq!(data.note, expected.note);
    assert_eq!(data.name, expected.name);
    let expected = DocumentationItemChild {
        datatype: "int a".to_owned(),
        note: "This is A".to_owned(),
        additional_data: "".to_owned(),
        ..Default::default()
    };
    let child = data.children[0].clone();
    assert_eq!(child.datatype, expected.datatype);
    assert_eq!(child.note, expected.note);

    let expected = DocumentationItemChild {
        datatype: "int b".to_owned(),
        note: "This is B".to_owned(),
        additional_data: "".to_owned(),
        ..Default::default()
    };
    let child = data.children[1].clone();
    assert_eq!(child.datatype, expected.datatype);
    assert_eq!(child.note, expected.note);
}

#[test]
fn parse_file_with_additional_note_test() {
    let data = parse_file(header("test_data/test5.h"));
    assert_eq!(data.items.len(), 2);
    let data = data.items[1].clone();
    assert_eq!(data.children.len(), 2);
    let expected = DocumentationItem {
        kind: DocumentationType::Struct,
        note: "Test struct".to_owned(),
        name: "test".to_owned(),
        children: Vec::default(),
        ..Default::default()
    };
    assert_eq!(data.kind, expected.kind);
    assert_eq!(data.note, expected.note);
    assert_eq!(data.name, expected.name);
    let expected = DocumentationItemChild {
        datatype: "int a".to_owned(),
        note: "This is A".to_owned(),
        additional_data: "".to_owned(),
        ..Default::default()
    };
    let child = data.children[0].clone();
    assert_eq!(child.datatype, expected.datatype);
    assert_eq!(child.note, expected.note);

    let expected = DocumentationItemChild {
        datatype: "int b".to_owned(),
        note: "This is B".to_owned(),
        additional_data: "".to_owned(),
        ..Default::default()
    };
    let child = data.children[1].clone();
    assert_eq!(child.datatype, expected.datatype);
    assert_eq!(child.note, expected.note);
}

fn parts(child: &DocumentationItemChild) -> [&str; 8] {
    [
        child.datatype.as_str(),
        child.code.as_str(),
        child.note.as_str(),
        child.additional_data.as_str(),
        child.val.as_str(),
        child.signed.as_str(),
        child.bits.as_str(),
        child.msb.as_str(),
    ]
}

#[test]
fn one_struct_with_two_fields_gives_one_item_in_declaration_order() {
    let data = parse_file(
        "//! Pair\ntypedef struct pair {\n  long second; //!< Comes first\n  long first; //!< Comes second\n} pair;\n",
    );
    assert_eq!(data.items.len(), 1);
    let item = &data.items[0];
    assert_eq!(item.kind, DocumentationType::Struct);
    assert_eq!(item.children.len(), 2);
    assert_eq!(item.children[0].datatype, "long second");
    assert_eq!(item.children[0].note, "Comes first");
    assert_eq!(item.children[1].datatype, "long first");
    assert_eq!(item.children[1].note, "Comes second");
}

#[test]
fn marker_and_declaration_give_note_and_name() {
    let data = parse_file("//! Test struct\ntypedef struct test {\n} test;");
    assert_eq!(data.items.len(), 1);
    assert_eq!(data.items[0].note, "Test struct");
    assert_eq!(data.items[0].name, "test");
    assert_eq!(data.items[0].children.len(), 0);
}

#[test]
fn plain_field_line_gives_declarator_note_and_placeholders() {
    let data = parse_file("//! T\ntypedef struct t {\nint a; //!< This is A\n}t;");
    let child = &data.items[0].children[0];
    assert_eq!(
        parts(child),
        ["int a", "-", "This is A", "-", "", "-", "-", "-"]
    );
}

#[test]
fn annotation_with_layout_is_taken_apart() {
    let child = extract_child("int a", "This is A // 1 true 4 0");
    assert_eq!(
        parts(&child),
        ["int a", "-", "This is A", "1", "", "true", "4", "0"]
    );
}

#[test]
fn annotation_without_layout_is_kept_whole() {
    let child = extract_child("int a", "This is A // see the manual");
    assert_eq!(
        parts(&child),
        ["int a", "-", "This is A", "see the manual", "", "-", "-", "-"]
    );
    let child = extract_child("int a", "This is A // one two three");
    assert_eq!(child.additional_data, "one two three");
    assert_eq!(child.signed, "-");
}

#[test]
fn layout_takes_the_last_three_tokens() {
    let child = extract_child("x", "N // scaled by 10 false 12 11  ");
    assert_eq!(
        parts(&child),
        ["x", "-", "N", "scaled by 10", "", "false", "12", "11"]
    );
}

#[test]
fn slashes_without_a_space_before_them_are_no_annotation() {
    let child = extract_child("x", "see http://host 1 true 4 0");
    assert_eq!(
        parts(&child),
        ["x", "-", "see http://host 1 true 4 0", "-", "", "-", "-", "-"]
    );
}

#[test]
fn bracketed_code_is_taken_out_of_the_note() {
    let child = extract_child("int a", "[CODE] rest of note");
    assert_eq!(child.code, "CODE");
    assert_eq!(child.note, "rest of note");
    assert_eq!(child.additional_data, "-");
}

#[test]
fn annotation_is_split_off_before_the_code_is_looked_for() {
    let child = extract_child("u8 f", "[K7] Speed // [raw] 0 false 8 7");
    assert_eq!(
        parts(&child),
        ["u8 f", "K7", "Speed", "[raw] 0", "", "false", "8", "7"]
    );
}

#[test]
fn code_without_a_rest_is_no_code() {
    let child = extract_child("x", "[CODE]");
    assert_eq!(child.code, "-");
    assert_eq!(child.note, "[CODE]");
    let child = extract_child("x", "see [] here");
    assert_eq!(child.code, "-");
    assert_eq!(child.note, "see [] here");
}

#[test]
fn unterminated_item_is_left_out() {
    let data = parse_file("//! Open\ntypedef struct open {\nint a; //!< A\n");
    assert_eq!(data.items.len(), 0);
    let data = parse_file(
        "//! Done\ntypedef struct done {\nint a; //!< A\n} done;\n//! Open\ntypedef struct open {\nint b; //!< B\n",
    );
    assert_eq!(data.items.len(), 1);
    assert_eq!(data.items[0].name, "done");
}

#[test]
fn closing_line_must_hold_the_name() {
    let data = parse_file("//! Open\ntypedef struct open {\nint a; //!< A\n};\n");
    assert_eq!(data.items.len(), 0);
}

#[test]
fn fields_after_a_marker_join_the_item_that_is_still_open() {
    let data = parse_file(
        "//! A\ntypedef struct first {\nint x; //!< X\n//! B\ntypedef struct second {\nint y; //!< Y\n} second;\n} first;\n",
    );
    assert_eq!(data.items.len(), 1);
    assert_eq!(data.items[0].name, "first");
    assert_eq!(data.items[0].note, "A");
    assert_eq!(data.items[0].children.len(), 2);
    assert_eq!(data.items[0].children[1].datatype, "int y");
}

#[test]
fn blank_lines_change_nothing() {
    let plain = "//! Test struct\ntypedef struct test {\nint a; //!< This is A\nint b; //!< This is B\n} test;\n";
    let spaced = "\n//! Test struct\n\n\ntypedef struct test {\n\r\nint a; //!< This is A\n\nint b; //!< This is B\n\n} test;\n\n";
    let a = parse_file(plain);
    let b = parse_file(spaced);
    assert_eq!(a.items.len(), 1);
    assert_eq!(b.items.len(), 1);
    assert_eq!(a.items[0].note, b.items[0].note);
    assert_eq!(a.items[0].name, b.items[0].name);
    assert_eq!(a.items[0].children.len(), b.items[0].children.len());
    for k in 0..2 {
        assert_eq!(parts(&a.items[0].children[k]), parts(&b.items[0].children[k]));
    }
}

#[test]
fn define_after_a_marker_drops_the_marker() {
    let data = parse_file(
        "//! Not an item\n#define LIMIT 4\ntypedef struct loose {\nint a; //!< A\n} loose;\n",
    );
    assert_eq!(data.items.len(), 0);
}

#[test]
fn lines_between_marker_and_declaration_are_passed_over() {
    let data = parse_file(
        "//! Kept\n/* a comment */\n//! ignored marker\ntypedef enum kept {\nA, //!< first\n} kept;",
    );
    assert_eq!(data.items.len(), 1);
    assert_eq!(data.items[0].note, "Kept");
    assert_eq!(data.items[0].kind, DocumentationType::Enum);
    assert_eq!(data.items[0].children[0].datatype, "A");
}

#[test]
fn note_is_the_marker_line_without_its_first_four_characters() {
    let data = parse_file("  //! Indented\ntypedef struct s {\n} s;\n");
    assert_eq!(data.items[0].note, "! Indented");
    let data = parse_file("//! Ünïcode note\ntypedef struct s {\n} s;\n");
    assert_eq!(data.items[0].note, "Ünïcode note");
}

#[test]
fn empty_text_has_no_items() {
    assert_eq!(parse_file("").items.len(), 0);
    assert_eq!(parse_file("\n\n").items.len(), 0);
    assert_eq!(DocumentationData::default().items.len(), 0);
}

#[test]
fn last_line_without_line_feed_keeps_its_carriage_return() {
    let data = parse_file("//! N\r\ntypedef struct s {\r\nint a; //!< A\r\n} s;\r");
    assert_eq!(data.items.len(), 1);
    assert_eq!(data.items[0].note, "N");
    assert_eq!(data.items[0].children[0].note, "A");
}

#[test]
fn step_walks_through_the_three_states() {
    let state = ParsingState::Idle;
    let (state, out) = state.step("int unrelated;");
    assert!(matches!(state, ParsingState::Idle));
    assert!(out.is_none());
    let (state, out) = state.step("//! A note");
    assert!(matches!(&state, ParsingState::AwaitingName { note } if note == "A note"));
    assert!(out.is_none());
    let (state, out) = state.step("");
    assert!(matches!(&state, ParsingState::AwaitingName { note } if note == "A note"));
    assert!(out.is_none());
    let (state, out) = state.step("typedef enum colour {");
    assert!(matches!(&state, ParsingState::InFields { item } if item.name == "colour"));
    assert!(out.is_none());
    let (state, out) = state.step("RED, //!< red");
    assert!(matches!(&state, ParsingState::InFields { item } if item.children.len() == 1));
    assert!(out.is_none());
    let (state, out) = state.step("} colour;");
    assert!(matches!(state, ParsingState::Idle));
    let item = out.unwrap();
    assert_eq!(item.kind, DocumentationType::Enum);
    assert_eq!(item.note, "A note");
    assert_eq!(item.children.len(), 1);
}

#[test]
fn defaults_are_empty() {
    let child = DocumentationItemChild::default();
    assert_eq!(parts(&child), ["", "", "", "", "", "", "", ""]);
    let item = DocumentationItem::default();
    assert_eq!(item.kind, DocumentationType::Struct);
    assert_eq!(item.name, "");
    assert_eq!(DocumentationType::default(), DocumentationType::Struct);
}

#[test]
fn annotation_of_nothing_but_whitespace_is_no_annotation() {
    let data = parse_file("//! n\ntypedef struct t {\na; //!< x //\r\r\n} t;\n");
    assert_eq!(data.items.len(), 1);
    assert_eq!(
        parts(&data.items[0].children[0]),
        ["a", "-", "x", "-", "", "-", "-", "-"]
    );
    for description in ["x //\r", "x // ", "x //\t \u{a0}", "x //  \r"] {
        let child = extract_child("a", description);
        assert_eq!(
            parts(&child),
            ["a", "-", "x", "-", "", "-", "-", "-"],
            "on {:?}",
            description
        );
    }
    let child = extract_child("a", "x // .\r");
    assert_eq!(child.additional_data, ".\r");
    let child = extract_child("a", "x //\r1 true 4 0\r");
    assert_eq!(parts(&child), ["a", "-", "x", "1", "", "true", "4", "0"]);
}

#[test]
fn annotation_and_layout_always_hold_more_than_whitespace() {
    for description in [
        "x", "x //", "x // ", "x //\r", "x // a", "x // a b c d", "x // \r b c d", " // ",
        "[c] x //\t", "//", "\r", "x //\r\r",
    ] {
        let child = extract_child("d", description);
        for part in [&child.additional_data, &child.signed, &child.bits, &child.msb] {
            assert!(part.chars().any(|c| !c.is_whitespace()), "on {:?}", description);
        }
        assert!(!child.note.is_empty() && !child.code.is_empty());
    }
}
