use doxygen_docx::chars::{
    has, has_at, is_space, is_word_char, next_line, push_decimal, slice, to_chars, to_string,
    whitespace_end, word_end,
};

fn lines_of(text: &str) -> Vec<String> {
    let s = to_chars(text);
    let mut lines = Vec::new();
    let mut i = 0;
    while i < s.len() {
        let (line, next) = next_line(&s, i);
        lines.push(line.iter().collect());
        i = next;
    }
    lines
}

#[test]
fn lines_are_split_as_the_standard_library_splits_them() {
    for text in [
        "",
        "\n",
        "a",
        "a\n",
        "a\nb",
        "a\r\nb\r\n",
        "foo\nbar\n\r\nbaz\r",
        "\r\n\r\n",
        "a\r\r\nb",
        "\n\na\n\n",
        "x\ry\n",
    ] {
        let expected: Vec<String> = text.lines().map(str::to_owned).collect();
        assert_eq!(lines_of(text), expected, "on {:?}", text);
    }
}

#[test]
fn whitespace_is_what_the_standard_library_calls_whitespace() {
    for n in 0..0x3100u32 {
        if let Some(c) = char::from_u32(n) {
            assert_eq!(is_space(c), c.is_whitespace(), "on {:?}", c);
        }
    }
    assert!(!is_space('\u{feff}'));
    assert!(!is_space('\u{10ffff}'));
}

#[test]
fn word_characters_are_those_of_the_regular_expressions() {
    let re = regex::Regex::new(r"^\w$").unwrap();
    for n in (0..0x3100u32).chain(0x1f600..0x1f610).chain(0xe0100..0xe0110) {
        if let Some(c) = char::from_u32(n) {
            assert_eq!(is_word_char(c), re.is_match(&c.to_string()), "on {:?}", c);
        }
    }
    assert!(is_word_char('д'));
    assert!(is_word_char('é'));
    assert!(!is_word_char('€'));
}

#[test]
fn runs_end_where_the_class_ends() {
    let s = to_chars(" \t\u{a0}ab_1- x");
    assert_eq!(whitespace_end(&s, 0), 3);
    assert_eq!(whitespace_end(&s, 3), 3);
    assert_eq!(word_end(&s, 3), 7);
    assert_eq!(word_end(&s, 7), 7);
    assert_eq!(whitespace_end(&s, s.len()), s.len());
}

#[test]
fn substrings_are_found() {
    let s = to_chars("int a; //!< note");
    assert!(has(&s, &to_chars("//!<")));
    assert!(has(&s, &to_chars("")));
    assert!(has(&s, &to_chars("note")));
    assert!(!has(&s, &to_chars("//! ")));
    assert!(!has(&s, &to_chars("int a; //!< note ")));
    assert!(has_at(&s, 7, &to_chars("//!<")));
    assert!(!has_at(&s, 8, &to_chars("//!<")));
    assert!(!has_at(&s, 14, &to_chars("tex")));
    assert!(has_at(&s, 16, &to_chars("")));
    assert!(!has_at(&s, 17, &to_chars("")));
}

#[test]
fn pieces_are_copied_out() {
    let s = to_chars("héllo wörld");
    assert_eq!(s.len(), 11);
    assert_eq!(to_string(&s, 1, 5), "éllo");
    assert_eq!(to_string(&s, 3, 3), "");
    assert_eq!(slice(&s, 6, 11), vec!['w', 'ö', 'r', 'l', 'd']);
}

#[test]
fn numerals_are_decimal() {
    for n in [0usize, 7, 10, 99, 100, 12345, usize::MAX] {
        let mut s = String::from("n=");
        push_decimal(&mut s, n);
        assert_eq!(s, format!("n={}", n));
    }
}
