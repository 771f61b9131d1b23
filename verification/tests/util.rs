use dart_unused::assets::PathKind;
use dart_unused::util::{last_line, working_directory};

#[test]
fn run_takes_place_in_the_directory_or_beside_the_file() {
    assert_eq!(
        working_directory("/work/app", PathKind::Directory),
        Some("/work/app".to_string())
    );
    assert_eq!(
        working_directory("/work/app/pubspec.yaml", PathKind::File),
        Some("/work/app".to_string())
    );
    assert_eq!(working_directory("pubspec.yaml", PathKind::File), Some("".to_string()));
    assert_eq!(working_directory("/", PathKind::File), None);
    assert_eq!(working_directory("/work/gone", PathKind::Neither), None);
}

#[test]
fn last_line_that_is_not_empty() {
    assert_eq!(last_line("/usr/bin/dart\n"), Some("/usr/bin/dart".to_string()));
    assert_eq!(
        last_line("/usr/bin/dart\n/opt/flutter/bin/dart\n\n"),
        Some("/opt/flutter/bin/dart".to_string())
    );
    assert_eq!(
        last_line("C:\\a\\dart.exe\r\nC:\\b\\dart.bat\r\n\r\n"),
        Some("C:\\b\\dart.bat".to_string())
    );
    assert_eq!(last_line("a\nb"), Some("b".to_string()));
    assert_eq!(last_line("a\nb\r"), Some("b\r".to_string()));
    assert_eq!(last_line("a\r\n\r"), Some("\r".to_string()));
    assert_eq!(last_line(" \n"), Some(" ".to_string()));
    assert_eq!(last_line("ä\n"), Some("ä".to_string()));
    assert_eq!(last_line(""), None);
    assert_eq!(last_line("\n\r\n\n"), None);
}

#[test]
fn last_line_is_that_of_the_standard_library() {
    for output in ["", "a", "a\n", "a\r\n", "a\rb\n", "\r", "\r\n", "a\n\nb\r\n\r\n", "x\r\r\n", "\n\r"] {
        let expected = output.lines().filter(|line| !line.is_empty()).last();
        assert_eq!(last_line(output).as_deref(), expected, "output: {:?}", output);
    }
}
