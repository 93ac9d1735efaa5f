use lmb_engine_simulator::names::{contains_name, position, same_text};
use lmb_engine_simulator::text::{
    chars_of, is_space_char, parse_decimal, split_fields, split_pair, split_words,
};

fn strings(items: &[&str]) -> Vec<String> {
    items.iter().map(|s| s.to_string()).collect()
}

#[test]
fn it_works() {
    assert_eq!(2 + 2, 4);
}

#[test]
fn position_finds_first_occurrence() {
    let names = strings(&["a", "b", "a"]);
    assert_eq!(position(&names, "a"), Some(0));
    assert_eq!(position(&names, "b"), Some(1));
    assert_eq!(position(&names, "c"), None);
    assert_eq!(position(&Vec::new(), "a"), None);
}

#[test]
fn contains_name_follows_position() {
    let names = strings(&["ambient", "chamber"]);
    assert!(contains_name(&names, "chamber"));
    assert!(!contains_name(&names, "Chamber"));
}

#[test]
fn same_text_is_letter_for_letter() {
    assert!(same_text("port", "port"));
    assert!(!same_text("port", "Port"));
    assert!(!same_text("port", "port "));
    assert!(same_text("", ""));
}

#[test]
fn chars_of_keeps_every_character() {
    assert_eq!(chars_of("cm³"), vec!['c', 'm', '³']);
    assert_eq!(chars_of(""), Vec::<char>::new());
}

#[test]
fn white_space_is_what_unicode_lists() {
    for c in [' ', '\t', '\n', '\r', '\u{0B}', '\u{0C}', '\u{85}', '\u{A0}', '\u{2003}', '\u{3000}'] {
        assert!(is_space_char(c));
    }
    for c in ['a', ',', '"', ':', '0', '\u{200B}'] {
        assert!(!is_space_char(c));
    }
    for code in 0u32..0x3100 {
        if let Some(c) = char::from_u32(code) {
            assert_eq!(is_space_char(c), c.is_whitespace());
        }
    }
}

#[test]
fn split_words_drops_commas_and_quotes() {
    assert_eq!(split_words("O2:0.21, N2:0.79"), strings(&["O2:0.21", "N2:0.79"]));
    assert_eq!(split_words("  \"O2\"  N2\t\nAR "), strings(&["O2", "N2", "AR"]));
    assert_eq!(split_words(""), Vec::<String>::new());
    assert_eq!(split_words(" , \" "), Vec::<String>::new());
}

#[test]
fn split_words_does_not_split_at_a_comma() {
    assert_eq!(split_words("O2:0.21,N2:0.79"), strings(&["O2:0.21N2:0.79"]));
}

#[test]
fn split_fields_keeps_empty_fields() {
    assert_eq!(split_fields("1-3-2", '-'), strings(&["1", "3", "2"]));
    assert_eq!(split_fields("", '-'), strings(&[""]));
    assert_eq!(split_fields("1--2", '-'), strings(&["1", "", "2"]));
    assert_eq!(split_fields("-", '-'), strings(&["", ""]));
    assert_eq!(split_fields("12", '-'), strings(&["12"]));
}

#[test]
fn split_fields_agrees_with_std() {
    for text in ["a:b", ":a", "a:", "::", "a", "a:b:c", "O2:0.21"] {
        let want: Vec<String> = text.split(':').map(|s| s.to_string()).collect();
        assert_eq!(split_fields(text, ':'), want);
    }
}

#[test]
fn split_pair_wants_exactly_one_colon() {
    assert_eq!(split_pair("O2:0.21"), Some(("O2".to_string(), "0.21".to_string())));
    assert_eq!(split_pair(":"), Some((String::new(), String::new())));
    assert_eq!(split_pair("O2"), None);
    assert_eq!(split_pair("O2:0.21:1"), None);
    assert_eq!(split_pair(""), None);
}

#[test]
fn parse_decimal_reads_digits_only() {
    assert_eq!(parse_decimal("0"), Some(0));
    assert_eq!(parse_decimal("132"), Some(132));
    assert_eq!(parse_decimal("007"), Some(7));
    assert_eq!(parse_decimal(""), None);
    assert_eq!(parse_decimal("+1"), None);
    assert_eq!(parse_decimal("-1"), None);
    assert_eq!(parse_decimal("1.5"), None);
    assert_eq!(parse_decimal("1 "), None);
    assert_eq!(parse_decimal("１"), None);
}

#[test]
fn parse_decimal_stops_at_32_bits() {
    assert_eq!(parse_decimal("4294967295"), Some(u32::MAX));
    assert_eq!(parse_decimal("4294967296"), None);
    assert_eq!(parse_decimal("42949672950"), None);
    assert_eq!(parse_decimal("99999999999999999999999"), None);
    assert_eq!(parse_decimal("00000000004294967295"), Some(u32::MAX));
}
