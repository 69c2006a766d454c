use unibot::commands::{
    check_upload_source, event_history_limit, history_limit, log_page_limit, upload_file_name,
    upload_source_verdict,
};
use unibot::error::AppError;

#[test]
fn page_limits() {
    assert_eq!(event_history_limit(None), 50);
    assert_eq!(event_history_limit(Some(0)), 1);
    assert_eq!(event_history_limit(Some(5000)), 1000);
    assert_eq!(event_history_limit(Some(20)), 20);
    assert_eq!(history_limit(None), 50);
    assert_eq!(history_limit(Some(7)), 7);
    assert_eq!(log_page_limit(None), 100);
    assert_eq!(log_page_limit(Some(5)), 5);
    assert_eq!(log_page_limit(Some(2000)), 1000);
}

#[test]
fn upload_names() {
    assert_eq!(upload_file_name(Some("a.txt".into()), Some("b.txt".into())), "a.txt");
    assert_eq!(upload_file_name(Some("   ".into()), Some("b.txt".into())), "b.txt");
    assert_eq!(upload_file_name(None, None), "upload");
    assert_eq!(upload_file_name(Some(" x ".into()), None), " x ");
}

#[test]
fn upload_source_checks() {
    match upload_source_verdict("  ", true) {
        Err(AppError::Validation(m)) => assert_eq!(m, "source path is empty"),
        other => panic!("unexpected {other:?}"),
    }
    match upload_source_verdict("./file.txt", false) {
        Err(AppError::Validation(m)) => assert_eq!(m, "source path must be an absolute path"),
        other => panic!("unexpected {other:?}"),
    }
    assert!(upload_source_verdict("/tmp/file.txt", true).is_ok());
    assert!(check_upload_source("").is_err());
    assert!(check_upload_source("relative/file.txt").is_err());
    assert!(check_upload_source("/tmp/file.txt").is_ok());
}
