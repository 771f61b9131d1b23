use dart_unused::parser::{
    dart_file, export, export_parser, import, import_parser, package, part, DartFile, ParseError,
};

#[test]
fn literal_in_double_quotes() {
    assert_eq!(
        dart_file("import \"src/a.dart\";"),
        Ok(("\";", DartFile::Import("src/a.dart".to_string())))
    );
    assert_eq!(
        dart_file("part \"a.g.dart\""),
        Ok(("\"", DartFile::Part("a.g.dart".to_string())))
    );
}

#[test]
fn literal_ends_at_the_next_quote_of_either_style() {
    assert_eq!(
        dart_file("import \"a.dart\"; // don't"),
        Ok(("\"; // don't", DartFile::Import("a.dart".to_string())))
    );
    assert_eq!(
        dart_file("import 'a.dart\"';"),
        Ok(("\"';", DartFile::Import("a.dart".to_string())))
    );
}

#[test]
fn export_is_parsed() {
    assert_eq!(
        dart_file("export 'src/api.dart';"),
        Ok(("';", DartFile::Export("src/api.dart".to_string())))
    );
    assert_eq!(
        export("export 'src/api.dart' show Api;"),
        Ok(("' show Api;", DartFile::Export("src/api.dart".to_string())))
    );
    assert_eq!(
        export_parser("export\t\"x.dart\""),
        Ok(("\"", DartFile::Export("x.dart".to_string())))
    );
}

#[test]
fn blanks_of_all_kinds_may_follow_the_keyword() {
    assert_eq!(
        dart_file("import \t  'a.dart';"),
        Ok(("';", DartFile::Import("a.dart".to_string())))
    );
}

#[test]
fn keyword_needs_a_blank() {
    assert_eq!(dart_file("import'a.dart';"), Err(ParseError::NoMatch));
    assert_eq!(dart_file("part'a.dart';"), Err(ParseError::NoMatch));
    assert_eq!(dart_file("exports 'a.dart';"), Err(ParseError::NoMatch));
}

#[test]
fn statement_starts_the_line() {
    assert_eq!(dart_file(" import 'a.dart';"), Err(ParseError::NoMatch));
    assert_eq!(dart_file(""), Err(ParseError::NoMatch));
    assert_eq!(dart_file("import"), Err(ParseError::NoMatch));
    assert_eq!(dart_file("import "), Err(ParseError::NoMatch));
    assert_eq!(dart_file("import a.dart"), Err(ParseError::NoMatch));
}

#[test]
fn literal_is_closed_and_not_empty() {
    assert_eq!(dart_file("import 'a.dart"), Err(ParseError::NoMatch));
    assert_eq!(dart_file("import '';"), Err(ParseError::NoMatch));
    assert_eq!(dart_file("part '"), Err(ParseError::NoMatch));
}

#[test]
fn colon_makes_an_import_or_export_unsupported() {
    assert_eq!(dart_file("import 'dart:io';"), Err(ParseError::Unsupported));
    assert_eq!(dart_file("export 'dart:ui';"), Err(ParseError::Unsupported));
    assert_eq!(import("import 'package:a/b.dart';"), Err(ParseError::Unsupported));
    assert_eq!(import_parser("import 'dart:io';"), Err(ParseError::Unsupported));
    assert_eq!(export("export 'package:a/b.dart';"), Err(ParseError::Unsupported));
}

#[test]
fn colon_is_taken_in_a_part() {
    assert_eq!(
        part("part 'a:b.dart';"),
        Ok(("';", DartFile::Part("a:b.dart".to_string())))
    );
}

#[test]
fn package_needs_a_name_and_a_path() {
    assert_eq!(package("import 'package:flutter';"), Err(ParseError::NoMatch));
    assert_eq!(package("import 'package:/a.dart';"), Err(ParseError::NoMatch));
    assert_eq!(package("import 'a.dart';"), Err(ParseError::NoMatch));
    assert_eq!(package("export 'package:a/b.dart';"), Err(ParseError::NoMatch));
    assert_eq!(dart_file("import 'package:flutter';"), Err(ParseError::Unsupported));
    assert_eq!(
        package("import 'package:a/';"),
        Ok(("';", DartFile::Package("a".to_string(), "/".to_string())))
    );
}

#[test]
fn package_name_ends_at_the_first_slash() {
    assert_eq!(
        dart_file("import 'package:my_app/src/ui/page.dart' as page;"),
        Ok((
            "' as page;",
            DartFile::Package("my_app".to_string(), "/src/ui/page.dart".to_string())
        ))
    );
}

#[test]
fn package_literal_ends_before_a_later_slash() {
    assert_eq!(
        dart_file("import 'package:yaml'; // see a/b"),
        Err(ParseError::Unsupported)
    );
}

#[test]
fn statement_beyond_ascii_is_counted_in_characters() {
    assert_eq!(
        dart_file("import 'señal/überblick.dart'; // ☃"),
        Ok(("'; // ☃", DartFile::Import("señal/überblick.dart".to_string())))
    );
    assert_eq!(
        dart_file("import 'package:größe/ß.dart';"),
        Ok(("';", DartFile::Package("größe".to_string(), "/ß.dart".to_string())))
    );
}

#[test]
fn try_from_gives_the_statement() {
    assert_eq!(
        DartFile::try_from("part 'a.g.dart';"),
        Ok(DartFile::Part("a.g.dart".to_string()))
    );
    assert_eq!(DartFile::try_from("import 'dart:io';"), Err(ParseError::Unsupported));
    assert_eq!(DartFile::try_from("void main() {}"), Err(ParseError::NoMatch));
}

#[test]
fn supported_refuses_an_import_with_a_colon() {
    let bad = DartFile::Import("dart:io".to_string());
    assert_eq!(DartFile::supported(&bad), Err(ParseError::Unsupported));
    let good = DartFile::Import("a.dart".to_string());
    assert_eq!(DartFile::supported(&good), Ok(DartFile::Import("a.dart".to_string())));
    let part = DartFile::Part("a:b".to_string());
    assert_eq!(DartFile::supported(&part), Ok(DartFile::Part("a:b".to_string())));
    let package = DartFile::Package("a".to_string(), "/b".to_string());
    assert_eq!(DartFile::supported(&package), Ok(package.clone()));
}

#[test]
fn errors_have_a_message() {
    assert_eq!(ParseError::NoMatch.message(), "Failed to parse dart file");
    assert_eq!(ParseError::Unsupported.message(), "Package imports are not supported");
}
