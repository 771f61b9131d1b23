use dart_unused::parser::DartFile;
use dart_unused::resolver::{
    decode, normal_form, normalise, resolve_package, resolve_relative, resolve_statement,
    without_matches, Project, Target,
};

fn project() -> Project {
    Project { package_name: "app".to_string(), root: "/work/app".to_string() }
}

#[test]
fn escaped_spaces_are_decoded() {
    assert_eq!(decode("a%20b.dart"), "a b.dart");
    assert_eq!(decode("%20%20a%2"), "  a%2");
    assert_eq!(decode("%2%20"), "%2 ");
    assert_eq!(decode("%%200"), "% 0");
    assert_eq!(decode("%20"), " ");
    assert_eq!(decode(""), "");
    assert_eq!(decode("ä%20ö%21"), "ä ö%21");
}

#[test]
fn relative_path_is_joined_to_the_directory_of_the_declaring_file() {
    assert_eq!(
        resolve_relative("a.dart", "lib/main.dart", "/work/app"),
        "lib/a.dart".to_string()
    );
    assert_eq!(
        resolve_relative("ui/page.dart", "lib/src/a.dart", "/work/app"),
        "lib/src/ui/page.dart".to_string()
    );
    assert_eq!(
        resolve_relative("my%20page.dart", "lib/main.dart", "/work/app"),
        "lib/my page.dart".to_string()
    );
}

#[test]
fn dots_are_taken_out_of_the_path() {
    assert_eq!(
        resolve_relative("../x/y.dart", "lib/src/a.dart", "/work/app"),
        "lib/x/y.dart".to_string()
    );
    assert_eq!(
        resolve_relative("./a.dart", "lib/main.dart", "/work/app"),
        "lib/a.dart".to_string()
    );
    assert_eq!(
        resolve_relative("././b/../a.dart", "lib/main.dart", "/work/app"),
        "lib/a.dart".to_string()
    );
    assert_eq!(
        resolve_relative("../../x.dart", "lib/main.dart", "/work/app"),
        "x.dart".to_string()
    );
}

#[test]
fn leading_dots_stand_for_the_root_of_the_project() {
    assert_eq!(
        resolve_relative("../x.dart", "main.dart", "/work/app"),
        "/work/x.dart".to_string()
    );
    assert_eq!(
        resolve_relative("./x.dart", "main.dart", "/work/app"),
        "/work/app/x.dart".to_string()
    );
}

#[test]
fn absolute_path_stands_for_itself() {
    assert_eq!(
        resolve_relative("/abs/x.dart", "lib/main.dart", "/work/app"),
        "/abs/x.dart".to_string()
    );
}

#[test]
fn path_without_a_file_name_is_handed_on_as_it_is_joined() {
    assert_eq!(resolve_relative("..", "lib/main.dart", "/work/app"), "lib/..");
    assert_eq!(resolve_relative("a/..", "lib/main.dart", "/work/app"), "lib/a/..");
    assert_eq!(resolve_relative("/", "lib/main.dart", "/work/app"), "/");
}

#[test]
fn file_without_a_directory_stands_in_the_empty_directory() {
    assert_eq!(resolve_relative("a.dart", "", "/work/app"), "a.dart");
    assert_eq!(resolve_relative("b/../a.dart", "/", "/work/app"), "a.dart");
}

#[test]
fn normal_form_is_that_of_the_outside_results() {
    assert_eq!(
        normal_form("a/./b".to_string(), Some("b".to_string()), Some("a/b".to_string())),
        "a/b"
    );
    assert_eq!(normal_form("a/..".to_string(), None, Some("x".to_string())), "a/..");
    assert_eq!(normal_form("a/b".to_string(), Some("b".to_string()), None), "a/b");
    assert_eq!(normal_form("".to_string(), None, None), "");
}

#[test]
fn paths_are_brought_into_one_form() {
    assert_eq!(normalise("lib//a.dart".to_string(), "/work/app"), "lib/a.dart");
    assert_eq!(normalise("lib/./a.dart".to_string(), "/work/app"), "lib/a.dart");
    assert_eq!(normalise("lib/b/../a.dart".to_string(), "/work/app"), "lib/a.dart");
    assert_eq!(normalise("lib/a.dart".to_string(), "/work/app"), "lib/a.dart");
    assert_eq!(normalise("lib/..".to_string(), "/work/app"), "lib/..");
    assert_eq!(normalise("./lib/a.dart".to_string(), "/work/app"), "/work/app/lib/a.dart");
    assert_eq!(
        without_matches(
            vec!["lib/a.dart".to_string(), "lib//b.dart".to_string(), "lib/c.dart".to_string()],
            &vec!["lib/./a.dart".to_string(), "lib/x/../b.dart".to_string()],
            "/work/app"
        ),
        vec!["lib/c.dart".to_string()]
    );
}

#[test]
fn package_path_lies_under_the_source_root() {
    assert_eq!(resolve_package("/src/a.dart", "/work/app"), "lib/src/a.dart");
    assert_eq!(resolve_package("/a%20b.dart", "/work/app"), "lib/a b.dart");
    assert_eq!(resolve_package("//x.dart", "/work/app"), "lib/x.dart");
    assert_eq!(resolve_package("/./a/../x.dart", "/work/app"), "lib/x.dart");
    assert_eq!(resolve_package("/", "/work/app"), "lib");
}

#[test]
fn import_and_export_name_a_source() {
    let import = DartFile::Import("src/a.dart".to_string());
    assert_eq!(
        resolve_statement(&import, "lib/main.dart", &project()),
        Target::Source("lib/src/a.dart".to_string())
    );
    let export = DartFile::Export("../b.dart".to_string());
    assert_eq!(
        resolve_statement(&export, "lib/src/a.dart", &project()),
        Target::Source("lib/b.dart".to_string())
    );
    let nothing = DartFile::Import("..".to_string());
    assert_eq!(
        resolve_statement(&nothing, "lib/main.dart", &project()),
        Target::Source("lib/..".to_string())
    );
}

#[test]
fn own_package_names_a_source_and_another_package_a_dependency() {
    let own = DartFile::Package("app".to_string(), "/src/a.dart".to_string());
    assert_eq!(
        resolve_statement(&own, "lib/deep/down/x.dart", &project()),
        Target::Source("lib/src/a.dart".to_string())
    );
    let foreign = DartFile::Package("http".to_string(), "/http.dart".to_string());
    assert_eq!(
        resolve_statement(&foreign, "lib/main.dart", &project()),
        Target::Dependency("http".to_string())
    );
}

#[test]
fn part_takes_the_place_of_the_file_name() {
    let part = DartFile::Part("a.g.dart".to_string());
    assert_eq!(
        resolve_statement(&part, "lib/src/a.dart", &project()),
        Target::Fragment("lib/src/a.g.dart".to_string())
    );
    assert_eq!(
        resolve_statement(&part, "main.dart", &project()),
        Target::Fragment("a.g.dart".to_string())
    );
    let dotted = DartFile::Part("./a.g.dart".to_string());
    assert_eq!(
        resolve_statement(&dotted, "lib/src/a.dart", &project()),
        Target::Fragment("lib/src/a.g.dart".to_string())
    );
    let undecoded = DartFile::Part("a%20b.dart".to_string());
    assert_eq!(
        resolve_statement(&undecoded, "lib/a.dart", &project()),
        Target::Fragment("lib/a%20b.dart".to_string())
    );
}
