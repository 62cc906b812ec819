use rust_npkill::tree::{find_node_modules, FsNode};

fn file(name: &str) -> FsNode {
    FsNode::file(name.to_string(), 1)
}

fn dir(name: &str, children: Vec<FsNode>) -> FsNode {
    FsNode::dir(name.to_string(), children)
}

#[test]
fn constructors_fill_the_fields() {
    let f = FsNode::file("a.txt".to_string(), 12);
    assert_eq!(f.name, "a.txt");
    assert!(!f.is_dir);
    assert_eq!(f.size, 12);
    assert!(f.listing.is_none());
    let d = dir("d", vec![file("x")]);
    assert_eq!(d.name, "d");
    assert!(d.is_dir);
    assert_eq!(d.listing.as_ref().unwrap().len(), 1);
    let u = FsNode::unreadable("u".to_string());
    assert_eq!(u.name, "u");
    assert!(u.is_dir);
    assert!(u.listing.is_none());
}

#[test]
fn three_discoveries_in_the_scenario_tree() {
    let root = dir(
        "root",
        vec![
            dir("a", vec![dir("node_modules", vec![])]),
            dir("b", vec![file("package.json"), dir("node_modules", vec![])]),
            dir("c", vec![dir("d", vec![dir("node_modules", vec![])])]),
        ],
    );
    let found = find_node_modules(&root, "/root");
    assert_eq!(
        found,
        vec!["/root/a/node_modules", "/root/b/node_modules", "/root/c/d/node_modules"]
    );
    assert_eq!(found.len(), 3);
}

#[test]
fn package_without_node_modules_hides_everything_below() {
    let deep = dir("l1", vec![dir("l2", vec![dir("l3", vec![dir("node_modules", vec![])])])]);
    let root = dir("root", vec![dir("pkg", vec![file("package.json"), deep])]);
    assert_eq!(find_node_modules(&root, "/root"), Vec::<String>::new());
}

#[test]
fn package_lock_prunes_too() {
    let root = dir(
        "root",
        vec![
            dir("pkg", vec![dir("sub", vec![dir("node_modules", vec![])]), file("package-lock.json")]),
            dir("free", vec![dir("node_modules", vec![])]),
        ],
    );
    assert_eq!(find_node_modules(&root, "r"), vec!["r/free/node_modules"]);
}

#[test]
fn node_modules_is_not_searched_for_nested_ones() {
    let inner = dir("node_modules", vec![dir("dep", vec![dir("node_modules", vec![])])]);
    let root = dir("root", vec![dir("app", vec![inner])]);
    assert_eq!(find_node_modules(&root, ""), vec!["/app/node_modules"]);
}

#[test]
fn siblings_of_a_found_directory_are_not_searched() {
    let root = dir(
        "root",
        vec![dir(
            "x",
            vec![dir("y", vec![dir("node_modules", vec![])]), dir("node_modules", vec![])],
        )],
    );
    assert_eq!(find_node_modules(&root, "/root"), vec!["/root/x/node_modules"]);
}

#[test]
fn root_named_node_modules_is_the_discovery() {
    let root = dir("node_modules", vec![dir("a", vec![dir("node_modules", vec![])])]);
    assert_eq!(find_node_modules(&root, "/work/node_modules"), vec!["/work/node_modules"]);
}

#[test]
fn root_that_is_a_file_gives_nothing() {
    assert_eq!(find_node_modules(&file("node_modules"), "/f"), Vec::<String>::new());
    assert_eq!(find_node_modules(&file("plain"), "/f"), Vec::<String>::new());
}

#[test]
fn unreadable_directory_is_taken_as_empty() {
    let root = dir(
        "root",
        vec![
            FsNode::unreadable("locked".to_string()),
            dir("open", vec![dir("node_modules", vec![])]),
        ],
    );
    assert_eq!(find_node_modules(&root, "/root"), vec!["/root/open/node_modules"]);
    assert_eq!(
        find_node_modules(&FsNode::unreadable("root".to_string()), "/root"),
        Vec::<String>::new()
    );
}

#[test]
fn unreadable_node_modules_is_still_found() {
    let root = dir("root", vec![dir("a", vec![FsNode::unreadable("node_modules".to_string())])]);
    assert_eq!(find_node_modules(&root, "/root"), vec!["/root/a/node_modules"]);
}

#[test]
fn file_named_node_modules_is_ignored() {
    let root = dir(
        "root",
        vec![dir("a", vec![file("node_modules"), dir("b", vec![dir("node_modules", vec![])])])],
    );
    assert_eq!(find_node_modules(&root, "/root"), vec!["/root/a/b/node_modules"]);
}

#[test]
fn discoveries_come_in_depth_first_listing_order() {
    let root = dir(
        "root",
        vec![
            dir("z", vec![dir("k", vec![dir("node_modules", vec![])]), dir("a", vec![dir("node_modules", vec![])])]),
            file("notes"),
            dir("m", vec![dir("node_modules", vec![])]),
            dir("empty", vec![]),
        ],
    );
    assert_eq!(
        find_node_modules(&root, "/root"),
        vec!["/root/z/k/node_modules", "/root/z/a/node_modules", "/root/m/node_modules"]
    );
}

#[test]
fn every_discovery_is_made_once() {
    let mut tops = Vec::new();
    for i in 0..6 {
        let mut mids = Vec::new();
        for j in 0..4 {
            mids.push(dir(&format!("m{j}"), vec![dir("node_modules", vec![]), file("index.js")]));
        }
        tops.push(dir(&format!("t{i}"), mids));
    }
    let root = dir("root", tops);
    let found = find_node_modules(&root, "/root");
    assert_eq!(found.len(), 24);
    for i in 0..6 {
        for j in 0..4 {
            let path = format!("/root/t{i}/m{j}/node_modules");
            assert_eq!(found.iter().filter(|p| **p == path).count(), 1);
        }
    }
}

#[test]
fn walking_twice_gives_the_same_paths() {
    let root = dir(
        "root",
        vec![
            dir("a", vec![dir("node_modules", vec![])]),
            dir("b", vec![file("package.json"), dir("x", vec![dir("node_modules", vec![])])]),
            dir("c", vec![dir("d", vec![dir("node_modules", vec![])])]),
        ],
    );
    let first = find_node_modules(&root, "/root");
    let second = find_node_modules(&root, "/root");
    assert_eq!(first, second);
    assert_eq!(first, vec!["/root/a/node_modules", "/root/c/d/node_modules"]);
}
