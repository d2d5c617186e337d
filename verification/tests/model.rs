//! Tests of the error type's diagnostic text.

use bookmark_checker::BookmarkError;

#[test]
fn lib_error_display_mentions_missing_dir() {
    let path = "/tmp/does-not-exist".to_string();
    let message = BookmarkError::MissingBookmarksDir(path.clone()).message();
    assert!(message.contains(path.as_str()));
}

#[test]
fn model_error_display_mentions_missing_dir() {
    let path = "/tmp/does-not-exist".to_string();
    let message = BookmarkError::MissingBookmarksDir(path.clone()).message();
    assert!(message.contains(path.as_str()));
    assert_eq!(message, "Chrome bookmarks directory not found: /tmp/does-not-exist");
}

#[test]
fn profile_not_found_error_message_includes_name() {
    let message = BookmarkError::ProfileNotFound("Profile 42".to_string()).message();
    assert!(message.contains("Profile 42"));
    assert_eq!(message, "Chrome profile 'Profile 42' not found");
}
