//! Tests of the verification engine: classification, aggregation, and
//! the empty-batch fast path.

use bookmark_checker::Bookmark;
use bookmark_checker::FailureKind;
use bookmark_checker::FetchOutcome;
use bookmark_checker::LinkFailure;
use bookmark_checker::check_bookmarks;
use bookmark_checker::checker::classify_response;
use bookmark_checker::checker::collect_failures;

fn bookmark(name: &str, url: &str) -> Bookmark {
    Bookmark {
        name: name.to_string(),
        url: url.to_string(),
    }
}

fn status(code: u16, canonical: Option<&str>) -> FetchOutcome {
    FetchOutcome::Status {
        code,
        canonical: canonical.map(|s| s.to_string()),
    }
}

#[test]
fn empty_input_returns_no_failures() {
    let result = check_bookmarks(&Vec::new()).expect("should succeed");
    assert!(result.is_empty());
}

#[test]
fn failure_carries_reason_for_status() {
    let bookmark = bookmark("Example", "https://example");

    let failure = LinkFailure::from_status(&bookmark, 404, Some("Not Found"));
    assert_eq!(failure.reason, "HTTP 404 Not Found");
    assert_eq!(failure.bookmark.url, bookmark.url);
}

#[test]
fn not_found_is_classified_with_exact_reason() {
    let b = bookmark("Missing", "https://example.com/missing");
    let record = classify_response(&b, &status(404, Some("Not Found"))).expect("one record");
    assert_eq!(record.kind, FailureKind::NotFound);
    assert_eq!(record.reason, "HTTP 404 Not Found");
    assert_eq!(record.bookmark, b);
}

#[test]
fn unauthorized_and_forbidden_are_classified() {
    let b = bookmark("Private", "https://example.com/private");
    let unauthorized = classify_response(&b, &status(401, Some("Unauthorized"))).expect("record");
    assert_eq!(unauthorized.kind, FailureKind::Unauthorized);
    assert_eq!(unauthorized.reason, "HTTP 401 Unauthorized");

    let forbidden = classify_response(&b, &status(403, Some("Forbidden"))).expect("record");
    assert_eq!(forbidden.kind, FailureKind::Unauthorized);
    assert_eq!(forbidden.reason, "HTTP 403 Forbidden");
}

#[test]
fn unknown_code_reason_falls_back() {
    let b = bookmark("Odd", "https://example.com/odd");
    let record = classify_response(&b, &status(404, None)).expect("record");
    assert_eq!(record.reason, "HTTP 404 Unknown");
}

#[test]
fn success_codes_yield_no_record() {
    let b = bookmark("Fine", "https://example.com/fine");
    assert!(classify_response(&b, &status(200, Some("OK"))).is_none());
    assert!(classify_response(&b, &status(204, Some("No Content"))).is_none());
    assert!(classify_response(&b, &status(500, Some("Internal Server Error"))).is_none());
    assert!(classify_response(&b, &status(301, Some("Moved Permanently"))).is_none());
}

#[test]
fn transport_failure_is_classified_as_connection() {
    let b = bookmark("Timeout", "https://example.com/timeout");
    let record = classify_response(
        &b,
        &FetchOutcome::Transport {
            message: "timeout".to_string(),
        },
    )
    .expect("record");
    assert_eq!(record.kind, FailureKind::Connection);
    assert_eq!(record.reason, "Request failed: timeout");
}

#[test]
fn collect_failures_keeps_one_record_per_failing_bookmark() {
    let bookmarks = vec![
        bookmark("Keep", "https://keep.example"),
        bookmark("Remove", "https://remove.example"),
        bookmark("Down", "https://down.example"),
    ];
    let outcomes = vec![
        status(200, Some("OK")),
        status(404, Some("Not Found")),
        FetchOutcome::Transport {
            message: "connection refused".to_string(),
        },
    ];

    let failures = collect_failures(&bookmarks, &outcomes);
    assert_eq!(failures.len(), 2);
    assert_eq!(failures[0].bookmark.name, "Remove");
    assert_eq!(failures[0].kind, FailureKind::NotFound);
    assert_eq!(failures[0].reason, "HTTP 404 Not Found");
    assert_eq!(failures[1].bookmark.name, "Down");
    assert_eq!(failures[1].kind, FailureKind::Connection);
    assert!(failures[1].reason.contains("connection refused"));
}

#[test]
fn unreachable_host_yields_connection_record() {
    // A port in the reserved discard range on localhost: the request
    // cannot succeed, whatever the sandbox allows, so the one bookmark
    // yields exactly one connection-kind record.
    let bookmarks = vec![bookmark("Nowhere", "http://127.0.0.1:9/")];
    let failures = check_bookmarks(&bookmarks).expect("engine should run");
    assert_eq!(failures.len(), 1);
    assert_eq!(failures[0].kind, FailureKind::Connection);
    assert!(failures[0].reason.starts_with("Request failed: "));
}
