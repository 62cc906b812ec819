use rust_npkill::entry::NodeModulePath;
use rust_npkill::status::DirStatus;

#[test]
fn new_entry_is_loading_without_size() {
    let entry = NodeModulePath::new("/work/a/node_modules".to_string());
    assert_eq!(entry.path(), "/work/a/node_modules");
    assert_eq!(entry.bytes(), None);
    assert_eq!(entry.status(), DirStatus::Loading);
    assert_eq!(entry.get_size(), "__");
}

#[test]
fn entry_update_size_makes_it_ready() {
    let mut entry = NodeModulePath::new("p".to_string());
    entry.update_size(60);
    assert_eq!(entry.bytes(), Some(60));
    assert_eq!(entry.status(), DirStatus::Ready);
}

#[test]
fn entry_second_size_is_ignored() {
    let mut entry = NodeModulePath::new("p".to_string());
    entry.update_size(60);
    entry.update_size(99);
    assert_eq!(entry.bytes(), Some(60));
    assert_eq!(entry.status(), DirStatus::Ready);
}

#[test]
fn entry_error_only_from_loading() {
    let mut failed = NodeModulePath::new("p".to_string());
    failed.error();
    assert_eq!(failed.status(), DirStatus::Error);
    assert_eq!(failed.bytes(), None);
    failed.update_size(5);
    assert_eq!(failed.status(), DirStatus::Error);
    assert_eq!(failed.bytes(), None);

    let mut ready = NodeModulePath::new("q".to_string());
    ready.update_size(7);
    ready.error();
    assert_eq!(ready.status(), DirStatus::Ready);
    assert_eq!(ready.bytes(), Some(7));
}

#[test]
fn entry_deletion_goes_through_deleting() {
    let mut entry = NodeModulePath::new("p".to_string());
    entry.deleting();
    assert_eq!(entry.status(), DirStatus::Loading);
    assert_eq!(entry.deleted(), 0);
    assert_eq!(entry.status(), DirStatus::Loading);

    entry.update_size(2048);
    assert_eq!(entry.deleted(), 0);
    assert_eq!(entry.status(), DirStatus::Ready);

    entry.deleting();
    assert_eq!(entry.status(), DirStatus::Deleting);
    assert_eq!(entry.bytes(), Some(2048));
    assert_eq!(entry.deleted(), 2048);
    assert_eq!(entry.status(), DirStatus::Deleted);
    assert_eq!(entry.deleted(), 0);
    assert_eq!(entry.status(), DirStatus::Deleted);
}

#[test]
fn entry_size_text_comes_from_the_size_crate() {
    let mut small = NodeModulePath::new("p".to_string());
    small.update_size(60);
    assert_eq!(small.get_size(), "60 bytes");

    let mut kib = NodeModulePath::new("q".to_string());
    kib.update_size(1024);
    assert_eq!(kib.get_size(), "1.00 KiB");

    let mut mib = NodeModulePath::new("r".to_string());
    mib.update_size(5 * 1024 * 1024);
    assert_eq!(mib.get_size(), "5.00 MiB");
}

#[test]
fn entry_clone_keeps_everything() {
    let mut entry = NodeModulePath::new("p/node_modules".to_string());
    entry.update_size(11);
    let copy = entry.clone();
    assert_eq!(copy.path(), entry.path());
    assert_eq!(copy.bytes(), Some(11));
    assert_eq!(copy.status(), DirStatus::Ready);
}
