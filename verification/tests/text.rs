use dart_unused::text::{
    has_char_at, has_text, identifier_char, includes, scan, search, starts_with_at, to_chars,
    CharClass, Text,
};

fn chars(s: &str) -> Vec<char> {
    s.chars().collect()
}

#[test]
fn text_is_decoded_into_its_characters() {
    assert_eq!(to_chars("aß☃"), vec!['a', 'ß', '☃']);
    assert!(to_chars("").is_empty());
    let text = Text::new("grüße!".to_string());
    assert_eq!(text.len(), 6);
    assert_eq!(text.chars(), &['g', 'r', 'ü', 'ß', 'e', '!']);
    assert_eq!(text.as_str(), "grüße!");
    assert_eq!(text.cut(2, 4), "üß");
    assert_eq!(text.cut(6, 6), "");
}

#[test]
fn classes_of_characters() {
    assert!(CharClass::Space.contains(' '));
    assert!(CharClass::Space.contains('\t'));
    assert!(CharClass::Space.contains('\r'));
    assert!(CharClass::Space.contains('\n'));
    assert!(!CharClass::Space.contains('\u{a0}'));
    assert!(CharClass::AsciiAlphanumeric.contains('z'));
    assert!(CharClass::AsciiAlphanumeric.contains('A'));
    assert!(CharClass::AsciiAlphanumeric.contains('0'));
    assert!(!CharClass::AsciiAlphanumeric.contains('é'));
    assert!(!CharClass::AsciiAlphanumeric.contains('_'));
    assert!(CharClass::Identifier.contains('é'));
    assert!(CharClass::Identifier.contains('_'));
    assert!(CharClass::Identifier.contains('.'));
    assert!(CharClass::Identifier.contains('٣'));
    assert!(!CharClass::Identifier.contains('-'));
    assert!(!CharClass::Unquoted.contains('\''));
    assert!(!CharClass::Unquoted.contains('"'));
    assert!(CharClass::Unquoted.contains('`'));
    assert!(CharClass::Except('/').contains('\\'));
    assert!(!CharClass::Except('/').contains('/'));
}

#[test]
fn run_is_skipped_to_its_end() {
    let s = chars("  \t x ");
    assert_eq!(scan(&s, 0, CharClass::Space), 4);
    assert_eq!(scan(&s, 4, CharClass::Space), 4);
    assert_eq!(scan(&s, 5, CharClass::Space), 6);
    assert_eq!(scan(&s, 6, CharClass::Space), 6);
    assert_eq!(scan(&s, 0, CharClass::Except('x')), 4);
    assert_eq!(scan(&s, 0, CharClass::Except('y')), 6);
}

#[test]
fn pattern_is_found_where_it_first_stands() {
    let s = chars("abcabc");
    assert_eq!(search(&s, &chars("bc"), 0), Some(1));
    assert_eq!(search(&s, &chars("bc"), 1), Some(1));
    assert_eq!(search(&s, &chars("bc"), 2), Some(4));
    assert_eq!(search(&s, &chars("bc"), 5), None);
    assert_eq!(search(&s, &chars("cb"), 0), None);
    assert_eq!(search(&s, &chars(""), 3), Some(3));
    assert_eq!(search(&s, &chars(""), 6), Some(6));
    assert_eq!(search(&s, &chars(""), 7), None);
    assert_eq!(search(&s, &chars("abcabca"), 0), None);
    assert!(starts_with_at(&s, &chars("cab"), 2));
    assert!(!starts_with_at(&s, &chars("cab"), 5));
    assert!(starts_with_at(&s, &chars(""), 6));
    assert!(!starts_with_at(&s, &chars(""), 7));
    assert!(includes(&s, &chars("ca")));
    assert!(includes(&s, &chars("")));
    assert!(!includes(&s, &chars("ac")));
    assert!(has_char_at(&s, 5, 'c'));
    assert!(!has_char_at(&s, 6, 'c'));
    assert!(!has_char_at(&s, 0, 'c'));
}

#[test]
fn strings_are_looked_up() {
    let list = vec!["a".to_string(), "b".to_string(), "a".to_string(), "c".to_string()];
    assert!(has_text(&list, &"b".to_string()));
    assert!(!has_text(&list, &"d".to_string()));
}

#[test]
fn identifier_is_made_of_alphanumeric_characters_underscores_and_dots() {
    assert!(identifier_char('a', true));
    assert!(identifier_char('-', true));
    assert!(identifier_char('_', false));
    assert!(identifier_char('.', false));
    assert!(!identifier_char('a', false));
    assert!(!identifier_char('-', false));
    assert!(!identifier_char('<', false));
}
