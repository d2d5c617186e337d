//! Tests of path building and profile selection.

use bookmark_checker::BookmarkError;
use bookmark_checker::BookmarkLocation;
use bookmark_checker::locator::bookmarks_dir_from_home;
use bookmark_checker::locator::bookmarks_dir_from_local_app_data;
use bookmark_checker::locator::bookmarks_file_from_home;
use bookmark_checker::locator::bookmarks_file_from_local_app_data;
use bookmark_checker::locator::find_profile_by_name;

fn profile(directory: &str) -> BookmarkLocation {
    BookmarkLocation {
        directory: directory.to_string(),
        file: format!("{directory}/Bookmarks"),
    }
}

#[test]
fn dir_and_file_are_appended_to_home() {
    let home = "/home/example";
    assert_eq!(
        bookmarks_dir_from_home(home),
        "/home/example/.config/google-chrome/Default"
    );
    assert_eq!(
        bookmarks_file_from_home(home),
        "/home/example/.config/google-chrome/Default/Bookmarks"
    );
}

#[test]
fn dir_and_file_are_appended_to_local_app_data() {
    let base = r"C:\Users\example\AppData\Local";
    assert_eq!(
        bookmarks_dir_from_local_app_data(base),
        r"C:\Users\example\AppData\Local\Google\Chrome\User Data\Default"
    );
    assert_eq!(
        bookmarks_file_from_local_app_data(base),
        r"C:\Users\example\AppData\Local\Google\Chrome\User Data\Default\Bookmarks"
    );
}

#[test]
fn find_profile_by_name_is_case_insensitive() {
    let profiles = vec![profile("/tmp/profiles/Default"), profile("/tmp/profiles/Profile 2")];

    let location = find_profile_by_name(&profiles, "profile 2").expect("profile should be found");
    assert_eq!(location.directory, "/tmp/profiles/Profile 2");
}

#[test]
fn find_profile_by_name_errors_for_unknown_profile() {
    let profiles = vec![profile("/tmp/profiles/Default")];
    let err = find_profile_by_name(&profiles, "Missing").expect_err("should error");
    match err {
        BookmarkError::ProfileNotFound(name) => assert_eq!(name, "Missing"),
        other => panic!("unexpected error: {other:?}"),
    }
}

#[test]
fn find_profile_takes_the_first_match() {
    let profiles = vec![
        profile("/a/Work"),
        profile("/b/work"),
    ];
    let location = find_profile_by_name(&profiles, "WORK").expect("match");
    assert_eq!(location.directory, "/a/Work");
}
