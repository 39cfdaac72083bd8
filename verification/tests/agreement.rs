use doxygen_docx::regex::{
    additional_data_regex, field_code_regex, field_regex, name_regex, signed_data_regex, Pattern,
};
use regex::Regex;

fn groups_of(re: &Regex, text: &str) -> Option<Vec<String>> {
    re.captures(text).map(|c| {
        (0..c.len())
            .map(|i| c.get(i).map(|m| m.as_str().to_owned()).unwrap_or_default())
            .collect()
    })
}

fn ours(p: &Pattern, text: &str) -> Option<Vec<String>> {
    p.captures(text).map(|c| c.groups.clone())
}

struct Lcg(u64);

impl Lcg {
    fn next(&mut self) -> u64 {
        self.0 = self
            .0
            .wrapping_mul(6364136223846793005)
            .wrapping_add(1442695040888963407);
        self.0 >> 33
    }

    fn text(&mut self, pieces: &[&str], max: u64) -> String {
        let n = self.next() % (max + 1);
        let mut s = String::new();
        for _ in 0..n {
            let k = (self.next() % pieces.len() as u64) as usize;
            s.push_str(pieces[k]);
        }
        s
    }
}

fn agree(p: &Pattern, re: &Regex, pieces: &[&str], seed: u64, rounds: usize) {
    let mut rng = Lcg(seed);
    for _ in 0..rounds {
        let text = rng.text(pieces, 9);
        assert_eq!(ours(p, &text), groups_of(re, &text), "on {:?}", text);
    }
}

#[test]
fn name_pattern_agrees_with_the_regular_expression() {
    let re = Regex::new(r"typedef\s+(enum|struct)\s+(\w+)\s*\{").unwrap();
    let pieces = [
        "typedef", "struct", "enum", " ", "\t", "{", "}", "a", "_b1", "\u{a0}", "д", "\n", "-",
        "typedef struct ", "typedef enum x", "é{", "\u{3000}",
    ];
    agree(&name_regex(), &re, &pieces, 1, 3000);
    agree(&name_regex(), &re, &pieces, 77, 3000);
}

#[test]
fn field_pattern_agrees_with_the_regular_expression() {
    let re = Regex::new(r"\s*(.+?)[;,]?\s*//!<\s*(.+?)$").unwrap();
    let pieces = [
        "//!<", ";", " ", "a", "int b", "\t", "/", "//", "!", "<", ",", "\r", "д", "  ", ";;",
        "x //!< y", "\u{2003}",
    ];
    agree(&field_regex(), &re, &pieces, 2, 3000);
    agree(&field_regex(), &re, &pieces, 78, 3000);
}

#[test]
fn field_pattern_agrees_on_texts_of_several_lines() {
    let re = Regex::new(r"\s*(.+?)[;,]?\s*//!<\s*(.+?)$").unwrap();
    let pieces = ["//!<", ";", " ", "a", "\n", "\n", "b c", "\r\n", " \n", "//!< d"];
    agree(&field_regex(), &re, &pieces, 3, 3000);
    agree(&field_regex(), &re, &pieces, 79, 3000);
}

#[test]
fn annotation_pattern_agrees_with_the_regular_expression() {
    let re = Regex::new(r"(.+?)\s*//\s*(.+?)$").unwrap();
    let pieces = ["//", " ", "a", "note", "\t", "/", ";", "1 true 4 0", "\n", "  ", "д"];
    agree(&additional_data_regex(), &re, &pieces, 4, 3000);
    agree(&additional_data_regex(), &re, &pieces, 80, 3000);
}

#[test]
fn code_pattern_agrees_with_the_regular_expression() {
    let re = Regex::new(r"\[(.+?)\]\s*(.+?)$").unwrap();
    let pieces = ["[", "]", " ", "a", "CODE", "\t", "[X]", "\n", "rest", "]]", "д"];
    agree(&field_code_regex(), &re, &pieces, 5, 3000);
    agree(&field_code_regex(), &re, &pieces, 81, 3000);
}

#[test]
fn layout_pattern_agrees_with_the_regular_expression() {
    let re = Regex::new(r"(?s)^(.*\S)\s+(\S+)\s+(\S+)\s+(\S+)\s*$").unwrap();
    let pieces = [" ", "a", "true", "4", "0", "\t", "1", "\n", "  ", "д", "\u{a0}"];
    agree(&signed_data_regex(), &re, &pieces, 6, 3000);
    agree(&signed_data_regex(), &re, &pieces, 82, 3000);
}
