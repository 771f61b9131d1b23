use dart_unused::localisation::{all_localisation, localisation};
use dart_unused::parser::ParseError;

#[test]
fn label_and_rest_are_cut_out() {
    assert_eq!(
        localisation("S", "Text(S.of(context).app_name),"),
        Ok(("),", "app_name"))
    );
    assert_eq!(localisation("S", "S.current.title"), Ok(("", "title")));
}

#[test]
fn label_may_hold_dots_digits_and_underscores() {
    assert_eq!(
        localisation("S", "S.current.page_2.title;"),
        Ok((";", "page_2.title"))
    );
}

#[test]
fn label_may_be_empty() {
    assert_eq!(localisation("S", "S.current. x"), Ok((" x", "")));
}

#[test]
fn class_name_of_several_characters() {
    assert_eq!(
        localisation("AppLocalizations", "t = AppLocalizations.of(ctx)\n  .hello;"),
        Ok((";", "hello"))
    );
}

#[test]
fn argument_is_letters_and_digits() {
    assert_eq!(localisation("S", "S.of(ctx2).a"), Ok(("", "a")));
    assert_eq!(localisation("S", "S.of().a"), Err(ParseError::NoMatch));
    assert_eq!(localisation("S", "S.of(a.b).a"), Err(ParseError::NoMatch));
    assert_eq!(localisation("S", "S.of(context.a"), Err(ParseError::NoMatch));
}

#[test]
fn maybe_of_needs_the_question_mark() {
    assert_eq!(localisation("S", "S.maybeOf(context).a"), Err(ParseError::NoMatch));
    assert_eq!(localisation("S", "S.maybeOf(context) ?.a"), Ok(("", "a")));
}

#[test]
fn no_reference_is_no_match() {
    assert_eq!(localisation("S", ""), Err(ParseError::NoMatch));
    assert_eq!(localisation("S", "no reference here"), Err(ParseError::NoMatch));
    assert_eq!(localisation("S", "S.other.a"), Err(ParseError::NoMatch));
    assert_eq!(localisation("S", "S.current"), Err(ParseError::NoMatch));
}

#[test]
fn class_name_without_a_reference_is_passed_over() {
    assert_eq!(localisation("S", "String x = S.current.a;"), Ok((";", "a")));
    let (rest, labels) = all_localisation("S", "String t = S.current.title;");
    assert_eq!(labels, vec!["title"]);
    assert_eq!(rest, ";");
    let (rest, labels) = all_localisation("S", "S.current.a; String b; S.current.c; S.x");
    assert_eq!(labels, vec!["a", "c"]);
    assert_eq!(rest, "; S.x");
    let (rest, labels) = all_localisation("S", "S.of(S.current.a).b S.of().c S");
    assert_eq!(labels, vec!["a"]);
    assert_eq!(rest, ").b S.of().c S");
}

#[test]
fn class_name_may_start_within_an_occurrence_that_failed() {
    assert_eq!(localisation("SS", "SSS.current.a"), Ok(("", "a")));
    assert_eq!(localisation("S.S", "S.S.S.current.a"), Ok(("", "a")));
}

#[test]
fn nothing_found_leaves_the_whole_input() {
    let (rest, labels) = all_localisation("S", "void main() {}");
    assert!(labels.is_empty());
    assert_eq!(rest, "void main() {}");
}

#[test]
fn labels_come_in_the_order_of_the_text() {
    let (rest, labels) =
        all_localisation("S", "a(S.of(c).one, S.current.two,\n S.maybeOf(c)?.three) // end");
    assert_eq!(labels, vec!["one", "two", "three"]);
    assert_eq!(rest, ") // end");
}

#[test]
fn labels_beyond_ascii_are_counted_in_characters() {
    let (rest, labels) = all_localisation("S", "«é» S.current.grüße ☃ S.of(c).b");
    assert_eq!(labels, vec!["grüße", "b"]);
    assert_eq!(rest, "");
    assert_eq!(localisation("Ü", "→ Ü.current.ñ ←"), Ok((" ←", "ñ")));
}
