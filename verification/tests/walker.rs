use rust_npkill::walker::{
    classify_listing, names_node_modules, ChildEntry, PathWalker, Verdict, NODE_MODULES,
    PACKAGE_JSON, PACKAGE_LOCK_JSON,
};

fn dir(path: &str, name: &str) -> ChildEntry<String> {
    ChildEntry { path: path.to_string(), name: name.to_string(), is_dir: true }
}

fn file(path: &str, name: &str) -> ChildEntry<String> {
    ChildEntry { path: path.to_string(), name: name.to_string(), is_dir: false }
}

#[test]
fn names_are_compared_exactly() {
    assert!(names_node_modules(&"node_modules".to_string()));
    assert!(!names_node_modules(&"node_modules2".to_string()));
    assert!(!names_node_modules(&"Node_modules".to_string()));
    assert!(!names_node_modules(&"".to_string()));
    assert_eq!(NODE_MODULES, "node_modules");
    assert_eq!(PACKAGE_JSON, "package.json");
    assert_eq!(PACKAGE_LOCK_JSON, "package-lock.json");
}

#[test]
fn marker_names_are_compared_exactly() {
    let near = vec![
        file("/r/package.json5", "package.json5"),
        file("/r/Package.json", "Package.json"),
        file("/r/yarn.lock", "yarn.lock"),
        file("/r/package-lock.jso", "package-lock.jso"),
    ];
    assert_eq!(classify_listing(&near), Verdict::Descend);
}

#[test]
fn empty_listing_descends() {
    let entries: Vec<ChildEntry<String>> = Vec::new();
    assert_eq!(classify_listing(&entries), Verdict::Descend);
}

#[test]
fn node_modules_child_is_found() {
    let entries = vec![
        dir("/r/src", "src"),
        file("/r/readme", "readme"),
        dir("/r/node_modules", "node_modules"),
        dir("/r/lib", "lib"),
    ];
    assert_eq!(classify_listing(&entries), Verdict::Found(2));
}

#[test]
fn node_modules_beats_marker_file() {
    let before = vec![
        file("/r/package.json", "package.json"),
        dir("/r/node_modules", "node_modules"),
    ];
    assert_eq!(classify_listing(&before), Verdict::Found(1));
    let after = vec![
        dir("/r/node_modules", "node_modules"),
        file("/r/package-lock.json", "package-lock.json"),
    ];
    assert_eq!(classify_listing(&after), Verdict::Found(0));
}

#[test]
fn first_node_modules_child_wins() {
    let entries = vec![
        dir("/r/x", "x"),
        dir("/r/node_modules", "node_modules"),
        dir("/r/other/node_modules", "node_modules"),
    ];
    assert_eq!(classify_listing(&entries), Verdict::Found(1));
}

#[test]
fn marker_file_prunes() {
    let package = vec![dir("/r/src", "src"), file("/r/package.json", "package.json")];
    assert_eq!(classify_listing(&package), Verdict::Pruned);
    let lock = vec![file("/r/package-lock.json", "package-lock.json"), dir("/r/src", "src")];
    assert_eq!(classify_listing(&lock), Verdict::Pruned);
}

#[test]
fn file_named_node_modules_is_no_discovery() {
    let entries = vec![file("/r/node_modules", "node_modules"), dir("/r/src", "src")];
    assert_eq!(classify_listing(&entries), Verdict::Descend);
}

#[test]
fn directory_named_like_a_marker_does_not_prune() {
    let entries = vec![dir("/r/package.json", "package.json"), dir("/r/src", "src")];
    assert_eq!(classify_listing(&entries), Verdict::Descend);
}

#[test]
fn walk_of_a_file_does_nothing() {
    let (mut walker, found) = PathWalker::start(file("/r/file", "file"));
    assert_eq!(found, None);
    assert!(walker.is_done());
    assert_eq!(walker.next_directory(), None);
}

#[test]
fn walk_of_node_modules_itself_finds_it_unlisted() {
    let (mut walker, found) = PathWalker::start(dir("/r/node_modules", "node_modules"));
    assert_eq!(found, Some("/r/node_modules".to_string()));
    assert!(walker.is_done());
    assert_eq!(walker.next_directory(), None);
}

#[test]
fn walk_lists_children_depth_first_in_listing_order() {
    let (mut walker, found) = PathWalker::start(dir("/r", "r"));
    assert_eq!(found, None);
    assert!(!walker.is_done());
    assert_eq!(walker.next_directory(), Some("/r".to_string()));
    let none = walker.visit(Some(vec![
        dir("/r/a", "a"),
        file("/r/f", "f"),
        dir("/r/b", "b"),
        dir("/r/c", "c"),
    ]));
    assert_eq!(none, None);
    assert_eq!(walker.next_directory(), Some("/r/a".to_string()));
    assert_eq!(walker.visit(Some(vec![dir("/r/a/x", "x"), dir("/r/a/y", "y")])), None);
    assert_eq!(walker.next_directory(), Some("/r/a/x".to_string()));
    assert_eq!(walker.visit(Some(Vec::new())), None);
    assert_eq!(walker.next_directory(), Some("/r/a/y".to_string()));
    assert_eq!(
        walker.visit(Some(vec![
            dir("/r/a/y/deep", "deep"),
            dir("/r/a/y/node_modules", "node_modules"),
        ])),
        Some("/r/a/y/node_modules".to_string())
    );
    assert_eq!(walker.next_directory(), Some("/r/b".to_string()));
    assert_eq!(
        walker.visit(Some(vec![dir("/r/b/sub", "sub"), file("/r/b/package.json", "package.json")])),
        None
    );
    assert_eq!(walker.next_directory(), Some("/r/c".to_string()));
    assert_eq!(walker.visit(None), None);
    assert!(walker.is_done());
    assert_eq!(walker.next_directory(), None);
}
