use dict_core::lang::{lang_code, parse_lang, Lang};
use dict_core::text::{fold_char, matches_prefix, trim_spaces};

#[test]
fn fold_maps_ascii_capitals() {
    assert_eq!(fold_char('A'), 'a');
    assert_eq!(fold_char('Z'), 'z');
    assert_eq!(fold_char('H'), 'h');
}

#[test]
fn fold_leaves_other_characters() {
    assert_eq!(fold_char('a'), 'a');
    assert_eq!(fold_char('0'), '0');
    assert_eq!(fold_char('ß'), 'ß');
    assert_eq!(fold_char('گ'), 'گ');
}

#[test]
fn trim_removes_surrounding_whitespace() {
    assert_eq!(trim_spaces("  Haus \t\r\n"), "Haus");
    assert_eq!(trim_spaces("Haus"), "Haus");
    assert_eq!(trim_spaces("ein Haus"), "ein Haus");
}

#[test]
fn trim_of_all_whitespace_is_empty() {
    assert_eq!(trim_spaces(" \t\n\r"), "");
    assert_eq!(trim_spaces(""), "");
}

#[test]
fn prefix_match_is_case_insensitive() {
    assert!(matches_prefix("hau", "Haus"));
    assert!(matches_prefix("HAU", "haus"));
    assert!(matches_prefix("Hau", "HAUS"));
}

#[test]
fn prefix_match_requires_a_prefix() {
    assert!(!matches_prefix("haus", "hau"));
    assert!(!matches_prefix("aus", "Haus"));
    assert!(matches_prefix("", "Haus"));
    assert!(matches_prefix("haus", "haus"));
}

#[test]
fn prefix_match_handles_non_latin_text() {
    assert!(matches_prefix("گر", "گربه"));
    assert!(!matches_prefix("به", "گربه"));
}

#[test]
fn lang_codes_parse() {
    assert_eq!(parse_lang("DE"), Lang::De);
    assert_eq!(parse_lang("FA"), Lang::Fa);
}

#[test]
fn unknown_lang_code_falls_back_to_first_tag() {
    assert_eq!(parse_lang("XX"), Lang::De);
    assert_eq!(parse_lang(""), Lang::De);
    assert_eq!(parse_lang("fa"), Lang::De);
}

#[test]
fn lang_code_round_trip() {
    assert_eq!(lang_code(Lang::De), "DE");
    assert_eq!(lang_code(Lang::Fa), "FA");
    assert_eq!(parse_lang(lang_code(Lang::De)), Lang::De);
    assert_eq!(parse_lang(lang_code(Lang::Fa)), Lang::Fa);
}
