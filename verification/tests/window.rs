use unibot::error::AppError;
use unibot::window::{
    group_content_window_label, group_content_window_labels, group_content_window_url,
    group_display_name, validate_id_component, window_title,
};

#[test]
fn group_content_window_label_format() {
    assert_eq!(
        group_content_window_label("group-files", "u1", "g1"),
        "group-files-u1-g1"
    );
    assert_eq!(
        group_content_window_label("group-albums", "u1", "g1"),
        "group-albums-u1-g1"
    );
}

#[test]
fn group_content_window_labels_include_files_and_albums() {
    assert_eq!(
        group_content_window_labels("u1", "g1"),
        [
            "group-files-u1-g1".to_string(),
            "group-albums-u1-g1".to_string(),
        ]
    );
}

#[test]
fn validate_id_component_accepts_alphanumeric_dash_underscore() {
    assert!(validate_id_component("user_123-ABC").is_ok());
}

#[test]
fn validate_id_component_rejects_empty() {
    assert!(validate_id_component("").is_err());
}

#[test]
fn validate_id_component_rejects_special_characters() {
    for invalid in ["u/1", "u&1", "u 1", "u?1", "u#1", "u.1", "u\\1"] {
        assert!(
            validate_id_component(invalid).is_err(),
            "expected {invalid:?} to be rejected"
        );
    }
}

#[test]
fn validate_id_component_rejects_too_long() {
    let long_id = "a".repeat(129);
    assert!(validate_id_component(&long_id).is_err());
}

#[test]
fn validate_id_component_messages_name_the_rule() {
    match validate_id_component("") {
        Err(AppError::Validation(m)) => assert_eq!(m, "id must not be empty"),
        other => panic!("unexpected {other:?}"),
    }
    match validate_id_component(&"a".repeat(129)) {
        Err(AppError::Validation(m)) => assert_eq!(m, "id must not exceed 128 characters"),
        other => panic!("unexpected {other:?}"),
    }
    match validate_id_component("u 1") {
        Err(AppError::Validation(m)) => assert_eq!(
            m,
            "id contains invalid characters (allowed: A-Z, a-z, 0-9, _, -)"
        ),
        other => panic!("unexpected {other:?}"),
    }
    assert!(validate_id_component(&"a".repeat(128)).is_ok());
    // Non-ASCII letters are refused, and the length limit counts bytes.
    assert!(validate_id_component("é").is_err());
}

#[test]
fn labels_with_dashes_can_collide() {
    assert_eq!(
        group_content_window_label("group-files", "a-b", "c"),
        group_content_window_label("group-files", "a", "b-c")
    );
}

#[test]
fn group_content_window_url_encodes_ids() {
    assert_eq!(
        group_content_window_url("group-files", "u1", "g1"),
        "index.html#/group-files?userId=u1&groupId=g1"
    );
    assert_eq!(
        group_content_window_url("group-albums", "a b", "ä&"),
        "index.html#/group-albums?userId=a%20b&groupId=%C3%A4%26"
    );
}

#[test]
fn window_title_and_group_name() {
    assert_eq!(window_title("群文件", "Test"), "群文件 · Test");
    assert_eq!(group_display_name(Some("Test Group".to_string()), "20001"), "Test Group");
    assert_eq!(group_display_name(None, "20001"), "20001");
}
