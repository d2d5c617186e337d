//! End-to-end scenario: verify a batch, turn its failures into a
//! report, derive the removal targets from the report, and prune the
//! original tree.

use bookmark_checker::Bookmark;
use bookmark_checker::FailureKind;
use bookmark_checker::FetchOutcome;
use bookmark_checker::Field;
use bookmark_checker::Node;
use bookmark_checker::checker::collect_failures;
use bookmark_checker::cleaner;
use bookmark_checker::extract_bookmarks;
use bookmark_checker::remove_targets;
use bookmark_checker::report::FailureReport;

fn leaf(name: &str, url: &str) -> Node {
    Node::Object(vec![
        Field {
            key: "type".to_string(),
            value: Node::Str("url".to_string()),
        },
        Field {
            key: "name".to_string(),
            value: Node::Str(name.to_string()),
        },
        Field {
            key: "url".to_string(),
            value: Node::Str(url.to_string()),
        },
    ])
}

fn tree() -> Node {
    Node::Object(vec![Field {
        key: "children".to_string(),
        value: Node::Array(vec![
            leaf("Keep", "https://keep.example"),
            leaf("Remove", "https://remove.example"),
        ]),
    }])
}

#[test]
fn failing_leaf_is_reported_and_then_pruned() {
    let bookmarks = vec![
        Bookmark {
            name: "Keep".to_string(),
            url: "https://keep.example".to_string(),
        },
        Bookmark {
            name: "Remove".to_string(),
            url: "https://remove.example".to_string(),
        },
    ];
    let outcomes = vec![
        FetchOutcome::Status {
            code: 200,
            canonical: Some("OK".to_string()),
        },
        FetchOutcome::Status {
            code: 404,
            canonical: Some("Not Found".to_string()),
        },
    ];

    // Verification: only the 404 leaf yields a record.
    let failures = collect_failures(&bookmarks, &outcomes);
    assert_eq!(failures.len(), 1);
    assert_eq!(failures[0].bookmark.name, "Remove");
    assert_eq!(failures[0].kind, FailureKind::NotFound);
    assert_eq!(failures[0].reason, "HTTP 404 Not Found");

    // Reporting: the record lands in the not_found group.
    let report = FailureReport::from_failures(&failures);
    assert_eq!(report.not_found.len(), 1);

    // A later run reads the persisted report back and derives targets.
    let parsed = cleaner::FailureReport {
        not_found: report
            .not_found
            .iter()
            .map(|e| cleaner::FailureEntry {
                url: Some(e.url.clone()),
            })
            .collect(),
        unauthorized: vec![],
        connection_errors: vec![],
    };
    let targets = parsed.into_targets();
    assert!(targets.contains(&"https://remove.example".to_string()));

    // Cleanup: pruning the original tree keeps only the healthy leaf.
    let mut store = tree();
    let removed = remove_targets(&mut store, &targets);
    assert_eq!(removed, 1);
    let left = extract_bookmarks(&store);
    assert_eq!(left.len(), 1);
    assert_eq!(left[0].name, "Keep");
    assert_eq!(left[0].url, "https://keep.example");
}
