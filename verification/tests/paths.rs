use dart_unused::paths::PathSet;

#[test]
fn paths_are_found_and_kept_in_order() {
    let mut set = PathSet::new();
    assert!(!set.contains(&"lib/a.dart".to_string()));
    assert!(set.items().is_empty());
    set.push("lib/b.dart".to_string());
    set.push("lib/a.dart".to_string());
    set.push("lib/ä.dart".to_string());
    assert!(set.contains(&"lib/a.dart".to_string()));
    assert!(set.contains(&"lib/b.dart".to_string()));
    assert!(set.contains(&"lib/ä.dart".to_string()));
    assert!(!set.contains(&"lib/c.dart".to_string()));
    assert!(!set.contains(&"".to_string()));
    assert_eq!(
        set.items(),
        &vec!["lib/b.dart".to_string(), "lib/a.dart".to_string(), "lib/ä.dart".to_string()]
    );
}

#[test]
fn many_paths_are_told_apart() {
    let mut set = PathSet::new();
    for i in 0..2000 {
        set.push(format!("lib/src/file_{}.dart", i));
    }
    for i in 0..2000 {
        assert!(set.contains(&format!("lib/src/file_{}.dart", i)));
        assert!(!set.contains(&format!("lib/src/file_{}.darts", i)));
    }
    assert_eq!(set.items().len(), 2000);
}
