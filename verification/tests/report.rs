use dart_unused::assets::Asset;
use dart_unused::localisation::{set_class_name, ClassName};
use dart_unused::report::{
    asset_paths, report, unreferenced_files, unregistered_assets, unused_locators, Report,
};
use dart_unused::resolver::Project;
use dart_unused::tree::{walk, SourceTree};
use dart_unused::cli::Options;
use dart_unused::walker::Walker;

fn strings(list: &[&str]) -> Vec<String> {
    list.iter().map(|s| s.to_string()).collect()
}

#[test]
fn files_not_met_are_unreferenced() {
    let inventory = strings(&["lib/a.dart", "lib/b.dart", "lib/c.dart", "lib/d.dart"]);
    let visited = strings(&["lib/c.dart", "lib/./a.dart", "lib/x.dart"]);
    assert_eq!(unreferenced_files(inventory, &visited, "/work/app"), strings(&["lib/b.dart", "lib/d.dart"]));
}

#[test]
fn files_not_registered_are_unregistered() {
    let all = strings(&["assets/a.png", "assets/b.png"]);
    let registered = strings(&["assets/b.png"]);
    assert_eq!(unregistered_assets(all, &registered, "/work/app"), strings(&["assets/a.png"]));
}

#[test]
fn types_never_retrieved_are_unused() {
    let registry = vec![
        ("A".to_string(), false),
        ("B".to_string(), true),
        ("C".to_string(), false),
    ];
    assert_eq!(unused_locators(&registry), strings(&["A", "C"]));
    assert!(unused_locators(&Vec::new()).is_empty());
}

#[test]
fn assets_are_reported_by_path() {
    let assets = vec![
        Asset { path: "assets/a.png".to_string(), file_name: "a.png".to_string() },
        Asset { path: "assets/b.png".to_string(), file_name: "b.png".to_string() },
    ];
    assert_eq!(asset_paths(&assets), strings(&["assets/a.png", "assets/b.png"]));
}

#[test]
fn report_of_a_walk() {
    let mut tree = SourceTree::new();
    tree.insert(
        "lib/main.dart".to_string(),
        "import 'home.dart';\nimport 'package:http/http.dart';\nlocator.register<Api>();\nlocator.register<Db>();\n".to_string(),
    );
    tree.insert(
        "lib/home.dart".to_string(),
        "part 'home.g.dart';\nfinal t = S.current.title; final i = 'logo.png'; locator<Db>();\n"
            .to_string(),
    );
    tree.insert("lib/old.dart".to_string(), "S.current.legacy 'old.png' yaml\n".to_string());
    let options = Options {
        path: ".".to_string(),
        remove: false,
        assets: true,
        deps: true,
        labels: true,
        loc: true,
    };
    let mut class_name = ClassName::new();
    set_class_name(&mut class_name, "S").unwrap();
    let mut walker = Walker::new(
        Project { package_name: "app".to_string(), root: "/work/app".to_string() },
        "lib/main.dart".to_string(),
        &options,
        &class_name,
        strings(&["http", "yaml"]),
        vec![
            Asset { path: "assets/logo.png".to_string(), file_name: "logo.png".to_string() },
            Asset { path: "assets/old.png".to_string(), file_name: "old.png".to_string() },
        ],
        strings(&["title", "legacy"]),
    )
    .unwrap();
    assert_eq!(walk(&mut walker, &tree), Ok(()));
    let inventory =
        strings(&["lib/home.dart", "lib/home.g.dart", "lib/main.dart", "lib/old.dart"]);
    assert_eq!(
        report(&walker, inventory),
        Report {
            unreferenced_files: strings(&["lib/old.dart"]),
            unreferenced_assets: strings(&["assets/old.png"]),
            unused_dependencies: strings(&["yaml"]),
            unreferenced_labels: strings(&["legacy"]),
            unused_locators: strings(&["Api"]),
        }
    );
}
