use dart_unused::locator::{get_locator, get_locator_alt, locator, register_locator, Locator};
use dart_unused::parser::ParseError;

#[test]
fn registration_and_retrieval_in_one_line() {
    let input =
        "locator.registerLazySingleton<ChatPageBloc>(() => ChatPageBloc(locator<UserInfoNotifier>()));";
    assert_eq!(
        locator(input),
        (
            ">()));",
            vec![
                Locator::Register("ChatPageBloc".to_string()),
                Locator::Get("UserInfoNotifier".to_string())
            ]
        )
    );
}

#[test]
fn member_events_come_before_generic_events() {
    let input = "locator<A>(); locator.get<B>(); locator<C>(); locator.register<D>();";
    assert_eq!(
        locator(input),
        (
            "();",
            vec![
                Locator::Get("B".to_string()),
                Locator::Register("D".to_string()),
                Locator::Get("A".to_string()),
                Locator::Get("C".to_string()),
            ]
        )
    );
}

#[test]
fn rest_is_that_of_the_reading_which_went_further() {
    assert_eq!(
        locator("locator.get<A>(); tail"),
        ("(); tail", vec![Locator::Get("A".to_string())])
    );
    assert_eq!(
        locator("locator<A>(); tail"),
        (">(); tail", vec![Locator::Get("A".to_string())])
    );
    assert_eq!(locator("nothing"), ("nothing", vec![]));
}

#[test]
fn import_of_the_locator_file_is_marked() {
    assert_eq!(
        locator("import 'package:app/util/locator.dart';\n"),
        ("';\n", vec![Locator::Import])
    );
    assert_eq!(get_locator("x locator.dart"), Ok(("", Locator::Import)));
}

#[test]
fn method_name_may_go_on_behind_the_keyword() {
    assert_eq!(
        get_locator("locator.getAsync<Api>()"),
        Ok(("()", Locator::Get("Api".to_string())))
    );
    assert_eq!(
        get_locator("locator.registerSingletonAsync<Api>(f)"),
        Ok(("(f)", Locator::Register("Api".to_string())))
    );
    assert_eq!(
        get_locator("locator.  register <Api>()"),
        Ok(("()", Locator::Register("Api".to_string())))
    );
}

#[test]
fn type_name_of_a_call_is_made_of_identifier_characters() {
    assert_eq!(
        get_locator("locator.get<a.B_2>()"),
        Ok(("()", Locator::Get("a.B_2".to_string())))
    );
    assert_eq!(
        register_locator("register<List<int>>()"),
        Err(ParseError::NoMatch)
    );
    assert_eq!(
        get_locator("locator.register<List<int>>()"),
        Ok((">>()", Locator::Get("register<List<int".to_string())))
    );
}

#[test]
fn anything_before_the_next_closing_bracket_is_retrieved() {
    assert_eq!(
        get_locator_alt("locator< Map<String, int> >()"),
        Ok(("> >()", Locator::Get("Map<String, int".to_string())))
    );
    assert_eq!(
        get_locator("locator.allReady().then((_) => run())"),
        Ok(("> run())", Locator::Get("allReady().then((_) =".to_string())))
    );
}

#[test]
fn no_use_is_no_match() {
    assert_eq!(register_locator("get<A>()"), Err(ParseError::NoMatch));
    assert_eq!(register_locator("register<A"), Err(ParseError::NoMatch));
    assert_eq!(get_locator("locator<A>()"), Err(ParseError::NoMatch));
    assert_eq!(get_locator("locator.reset()"), Err(ParseError::NoMatch));
    assert_eq!(get_locator_alt("locator.get<A>()"), Err(ParseError::NoMatch));
    assert_eq!(get_locator_alt("locator<A"), Err(ParseError::NoMatch));
}

#[test]
fn reading_stops_at_the_first_anchor_without_a_use() {
    assert_eq!(
        locator("locator.get<A>(); locator.reset(); locator.get<B"),
        ("(); locator.reset(); locator.get<B", vec![Locator::Get("A".to_string())])
    );
}

#[test]
fn uses_beyond_ascii_are_counted_in_characters() {
    assert_eq!(
        locator("// größer\nlocator.register<Café>(); locator<Ünit>() ☃"),
        (
            ">() ☃",
            vec![Locator::Register("Café".to_string()), Locator::Get("Ünit".to_string())]
        )
    );
}
