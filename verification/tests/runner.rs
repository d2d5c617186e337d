//! Tests of the run's pure decisions: the workload cap and gathering
//! bookmarks from a located store.

use bookmark_checker::Bookmark;
use bookmark_checker::BookmarkError;
use bookmark_checker::BookmarkLocation;
use bookmark_checker::Field;
use bookmark_checker::Node;
use bookmark_checker::apply_limit;
use bookmark_checker::ensure_location_exists;
use bookmark_checker::gather_bookmarks;

fn bookmark(name: &str, url: &str) -> Bookmark {
    Bookmark {
        name: name.to_string(),
        url: url.to_string(),
    }
}

fn location() -> BookmarkLocation {
    BookmarkLocation {
        directory: "/home/example/.config/google-chrome/Default".to_string(),
        file: "/home/example/.config/google-chrome/Default/Bookmarks".to_string(),
    }
}

fn one_leaf_tree() -> Node {
    Node::Object(vec![Field {
        key: "children".to_string(),
        value: Node::Array(vec![Node::Object(vec![
            Field {
                key: "type".to_string(),
                value: Node::Str("url".to_string()),
            },
            Field {
                key: "name".to_string(),
                value: Node::Str("Only".to_string()),
            },
            Field {
                key: "url".to_string(),
                value: Node::Str("https://only".to_string()),
            },
        ])]),
    }])
}

#[test]
fn lib_limit_reduces_bookmarks_when_needed() {
    let mut bookmarks = vec![
        bookmark("One", "https://one"),
        bookmark("Two", "https://two"),
        bookmark("Three", "https://three"),
    ];

    let total = apply_limit(&mut bookmarks, Some(2));
    assert_eq!(total, 3);
    assert_eq!(bookmarks.len(), 2);
}

#[test]
fn lib_limit_is_noop_when_higher_than_total() {
    let mut bookmarks = vec![bookmark("Only", "https://only")];

    let total = apply_limit(&mut bookmarks, Some(10));
    assert_eq!(total, 1);
    assert_eq!(bookmarks.len(), 1);
}

#[test]
fn runner_limit_reduces_bookmarks_when_needed() {
    let mut bookmarks = vec![
        bookmark("One", "https://one"),
        bookmark("Two", "https://two"),
        bookmark("Three", "https://three"),
    ];

    let total = apply_limit(&mut bookmarks, Some(2));
    assert_eq!(total, 3);
    assert_eq!(bookmarks.len(), 2);
    assert_eq!(bookmarks[0].name, "One");
    assert_eq!(bookmarks[1].name, "Two");
}

#[test]
fn runner_limit_is_noop_when_higher_than_total() {
    let mut bookmarks = vec![bookmark("Only", "https://only")];

    let total = apply_limit(&mut bookmarks, Some(10));
    assert_eq!(total, 1);
    assert_eq!(bookmarks.len(), 1);
}

#[test]
fn limit_of_zero_empties_the_batch() {
    let mut bookmarks = vec![bookmark("Only", "https://only")];
    let total = apply_limit(&mut bookmarks, Some(0));
    assert_eq!(total, 1);
    assert!(bookmarks.is_empty());
}

#[test]
fn limit_absent_keeps_everything() {
    let mut bookmarks = vec![bookmark("Only", "https://only")];
    let total = apply_limit(&mut bookmarks, None);
    assert_eq!(total, 1);
    assert_eq!(bookmarks.len(), 1);
}

#[test]
fn missing_directory_is_reported_first() {
    let err = ensure_location_exists(&location(), false, false).expect_err("should fail");
    match err {
        BookmarkError::MissingBookmarksDir(path) => {
            assert_eq!(path, location().directory);
        }
        other => panic!("unexpected error: {other:?}"),
    }
}

#[test]
fn missing_file_is_reported_when_directory_exists() {
    let err = ensure_location_exists(&location(), true, false).expect_err("should fail");
    match err {
        BookmarkError::MissingBookmarksFile(path) => {
            assert_eq!(path, location().file);
        }
        other => panic!("unexpected error: {other:?}"),
    }
}

#[test]
fn gather_returns_location_and_extracted_bookmarks() {
    let (loc, bookmarks) =
        gather_bookmarks(&location(), true, true, &one_leaf_tree()).expect("should gather");
    assert_eq!(loc, location());
    assert_eq!(bookmarks, vec![bookmark("Only", "https://only")]);
}

#[test]
fn gather_propagates_missing_store() {
    let err = gather_bookmarks(&location(), false, true, &one_leaf_tree())
        .expect_err("should fail");
    assert!(matches!(err, BookmarkError::MissingBookmarksDir(_)));
}
