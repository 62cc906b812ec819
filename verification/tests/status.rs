use rust_npkill::status::{DirStatus, StatusColor};

#[test]
fn status_labels_are_upper_case_words() {
    assert_eq!(DirStatus::Loading.label(), "LOADING");
    assert_eq!(DirStatus::Ready.label(), "READY");
    assert_eq!(DirStatus::Deleting.label(), "DELETING");
    assert_eq!(DirStatus::Deleted.label(), "DELETED");
    assert_eq!(DirStatus::Error.label(), "ERROR");
}

#[test]
fn status_colors_follow_the_status() {
    assert_eq!(DirStatus::Ready.colors(), (StatusColor::Green, None));
    assert_eq!(DirStatus::Deleting.colors(), (StatusColor::Yellow, None));
    assert_eq!(
        DirStatus::Deleted.colors(),
        (StatusColor::Green, Some(StatusColor::White))
    );
    assert_eq!(DirStatus::Error.colors(), (StatusColor::Red, None));
    assert_eq!(DirStatus::Loading.colors(), (StatusColor::LightBlue, None));
}
