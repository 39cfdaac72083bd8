use doxygen_docx::regex::{field_regex, name_regex};

#[test]
fn test_struct_name_weird_whitespaces() {
    let input = "           typedef            struct      employee_struct              {      ";
    let re = name_regex();
    assert_eq!(re.is_match(input), true);
    let captures = re.captures(input).unwrap();
    assert_eq!(captures.get(1).unwrap().as_str(), "struct");
    assert_eq!(captures.get(2).unwrap().as_str(), "employee_struct");
}

#[test]
fn test_struct_name() {
    let input = "typedef struct employee_struct {";
    let re = name_regex();
    assert_eq!(re.is_match(input), true);
    let captures = re.captures(input).unwrap();
    assert_eq!(captures.get(1).unwrap().as_str(), "struct");
    assert_eq!(captures.get(2).unwrap().as_str(), "employee_struct");
}

#[test]
fn test_enum_name() {
    let input = "typedef enum employee_struct {";
    let re = name_regex();
    assert_eq!(re.is_match(input), true);
    let captures = re.captures(input).unwrap();
    assert_eq!(captures.get(1).unwrap().as_str(), "enum");
    assert_eq!(captures.get(2).unwrap().as_str(), "employee_struct");
}

#[test]
fn test_field_enum() {
    let input = "TEST_test = 1, //!< description description";
    let re = field_regex();
    assert_eq!(re.is_match(input), true);
    let captures = re.captures(input).unwrap();
    assert_eq!(captures.get(1).unwrap().as_str(), "TEST_test = 1");
    assert_eq!(captures.get(2).unwrap().as_str(), "description description");
}

#[test]
fn test_field_enum_basic() {
    let input = "TEST, //!< description";
    let re = field_regex();
    assert_eq!(re.is_match(input), true);
    let captures = re.captures(input).unwrap();
    assert_eq!(captures.get(1).unwrap().as_str(), "TEST");
    assert_eq!(captures.get(2).unwrap().as_str(), "description");
}

#[test]
fn test_field_struct() {
    let input = "test_test Test : 6; //!< description description";
    let re = field_regex();
    assert_eq!(re.is_match(input), true);
    let captures = re.captures(input).unwrap();
    assert_eq!(captures.get(1).unwrap().as_str(), "test_test Test : 6");
    assert_eq!(captures.get(2).unwrap().as_str(), "description description");
}

#[test]
fn test_field_enum_struct() {
    let input = "int TEST; //!< description";
    let re = field_regex();
    assert_eq!(re.is_match(input), true);
    let captures = re.captures(input).unwrap();
    assert_eq!(captures.get(1).unwrap().as_str(), "int TEST");
    assert_eq!(captures.get(2).unwrap().as_str(), "description");
}

use doxygen_docx::regex::{additional_data_regex, field_code_regex, signed_data_regex};

fn groups(c: &doxygen_docx::regex::Captures) -> Vec<&str> {
    (0..c.len()).map(|i| c.get(i).unwrap().as_str()).collect()
}

#[test]
fn whole_match_is_the_first_group() {
    let c = name_regex().captures("  x typedef enum  e1{ tail").unwrap();
    assert_eq!(groups(&c), ["typedef enum  e1{", "enum", "e1"]);
    assert!(c.get(3).is_none());
    let c = field_regex().captures("\tint a;  //!<  note ").unwrap();
    assert_eq!(groups(&c), ["\tint a;  //!<  note ", "int a", "note "]);
}

#[test]
fn declaration_needs_keyword_name_and_brace() {
    for line in [
        "typedef struct {",
        "typedef union u {",
        "typedefstruct s {",
        "typedef structs {",
        "typedef struct s",
        "typedef struct s-t {",
        "struct s {",
    ] {
        assert!(!name_regex().is_match(line), "on {:?}", line);
    }
    let c = name_regex().captures("typedef struct a typedef enum b {").unwrap();
    assert_eq!(groups(&c), ["typedef enum b {", "enum", "b"]);
}

#[test]
fn field_line_needs_a_declarator_and_a_description() {
    for line in ["//!< note", "int a; //!<", "int a; //! note", "int a; // note", ""] {
        assert!(!field_regex().is_match(line), "on {:?}", line);
    }
    let c = field_regex().captures("  //!< note").unwrap();
    assert_eq!(groups(&c), ["  //!< note", " ", "note"]);
    let c = field_regex().captures("a;; //!< n").unwrap();
    assert_eq!(groups(&c)[1], "a;");
    let c = field_regex().captures("a,; //!< n").unwrap();
    assert_eq!(groups(&c)[1], "a,");
    let c = field_regex().captures("A = 1,//!<n").unwrap();
    assert_eq!(groups(&c), ["A = 1,//!<n", "A = 1", "n"]);
    let c = field_regex().captures(", //!< n").unwrap();
    assert_eq!(groups(&c)[1], ",");
    let c = field_regex().captures("a //!< b //!< c").unwrap();
    assert_eq!(groups(&c), ["a //!< b //!< c", "a", "b //!< c"]);
    let c = field_regex().captures("a; //!<   ").unwrap();
    assert_eq!(groups(&c)[2], " ");
}

#[test]
fn annotation_is_split_at_the_first_pair_of_slashes() {
    let c = additional_data_regex().captures("This is A // 1 true 4 0").unwrap();
    assert_eq!(groups(&c), ["This is A // 1 true 4 0", "This is A", "1 true 4 0"]);
    let c = additional_data_regex().captures("a // b // c").unwrap();
    assert_eq!(groups(&c)[1..], ["a", "b // c"]);
    assert!(!additional_data_regex().is_match("// only"));
    assert!(!additional_data_regex().is_match("note //"));
    assert!(!additional_data_regex().is_match("no slashes"));
}

#[test]
fn code_is_what_stands_in_the_first_brackets() {
    let c = field_code_regex().captures("[CODE] rest of note").unwrap();
    assert_eq!(groups(&c), ["[CODE] rest of note", "CODE", "rest of note"]);
    let c = field_code_regex().captures("see [A][B] x").unwrap();
    assert_eq!(groups(&c), ["[A][B] x", "A", "[B] x"]);
    let c = field_code_regex().captures("[]] x").unwrap();
    assert_eq!(groups(&c)[1..], ["]", "x"]);
    assert!(!field_code_regex().is_match("[] x"));
    assert!(!field_code_regex().is_match("[A]"));
    assert!(!field_code_regex().is_match("A] x"));
}

#[test]
fn layout_is_a_value_and_three_tokens() {
    let c = signed_data_regex().captures("1 true 4 0").unwrap();
    assert_eq!(groups(&c), ["1 true 4 0", "1", "true", "4", "0"]);
    let c = signed_data_regex().captures(" a  b\tc d e \n").unwrap();
    assert_eq!(groups(&c)[1..], [" a  b", "c", "d", "e"]);
    assert!(!signed_data_regex().is_match("true 4 0"));
    assert!(!signed_data_regex().is_match(" true 4 0"));
    assert!(!signed_data_regex().is_match(""));
}
