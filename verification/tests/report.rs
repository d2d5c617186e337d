//! Tests of report building and of the removal target set derived from
//! a parsed report.

use bookmark_checker::Bookmark;
use bookmark_checker::FailureKind;
use bookmark_checker::FailureReporter;
use bookmark_checker::LinkFailure;
use bookmark_checker::cleaner;
use bookmark_checker::report::FailureReport;

fn bookmark(name: &str, url: &str) -> Bookmark {
    Bookmark {
        name: name.to_string(),
        url: url.to_string(),
    }
}

#[test]
fn report_groups_failures_by_kind() {
    let failures = vec![
        LinkFailure {
            bookmark: bookmark("Missing", "https://example.com/missing"),
            reason: "HTTP 404 Not Found".to_string(),
            kind: FailureKind::NotFound,
        },
        LinkFailure {
            bookmark: bookmark("Private", "https://example.com/private"),
            reason: "HTTP 403 Forbidden".to_string(),
            kind: FailureKind::Unauthorized,
        },
        LinkFailure {
            bookmark: bookmark("Timeout", "https://example.com/timeout"),
            reason: "Request failed: timeout".to_string(),
            kind: FailureKind::Connection,
        },
    ];

    let report = FailureReport::from_failures(&failures);
    assert_eq!(report.not_found.len(), 1);
    assert_eq!(report.unauthorized.len(), 1);
    assert_eq!(report.connection_errors.len(), 1);
    assert_eq!(report.not_found[0].name, "Missing");
    assert_eq!(report.not_found[0].url, "https://example.com/missing");
    assert_eq!(report.not_found[0].reason, "HTTP 404 Not Found");
}

#[test]
fn report_keeps_input_order_within_a_group() {
    let failures = vec![
        LinkFailure {
            bookmark: bookmark("First", "https://first.example"),
            reason: "HTTP 404 Not Found".to_string(),
            kind: FailureKind::NotFound,
        },
        LinkFailure {
            bookmark: bookmark("Second", "https://second.example"),
            reason: "HTTP 404 Not Found".to_string(),
            kind: FailureKind::NotFound,
        },
    ];
    let report = FailureReport::from_failures(&failures);
    assert_eq!(report.not_found.len(), 2);
    assert_eq!(report.not_found[0].name, "First");
    assert_eq!(report.not_found[1].name, "Second");
    assert!(report.unauthorized.is_empty());
    assert!(report.connection_errors.is_empty());
}

#[test]
fn reporter_remembers_its_output_path() {
    let reporter = FailureReporter::new("custom.yml".to_string());
    assert_eq!(reporter.output_path(), "custom.yml");
    assert_eq!(FailureReporter::default().output_path(), "bookmark_failures.yml");
}

fn entry(url: Option<&str>) -> cleaner::FailureEntry {
    cleaner::FailureEntry {
        url: url.map(|u| u.to_string()),
    }
}

#[test]
fn into_targets_unions_all_groups_and_deduplicates() {
    let report = cleaner::FailureReport {
        not_found: vec![entry(Some("https://a.example")), entry(None)],
        unauthorized: vec![entry(Some("https://b.example"))],
        connection_errors: vec![
            entry(Some("https://a.example")),
            entry(Some("https://c.example")),
        ],
    };

    let targets = report.into_targets();
    assert!(targets.contains(&"https://a.example".to_string()));
    assert!(targets.contains(&"https://b.example".to_string()));
    assert!(targets.contains(&"https://c.example".to_string()));
    assert!(!targets.contains(&"https://d.example".to_string()));
    assert!(!targets.is_empty());
}

#[test]
fn empty_report_yields_empty_targets() {
    let report = cleaner::FailureReport {
        not_found: vec![],
        unauthorized: vec![entry(None)],
        connection_errors: vec![],
    };
    let targets = report.into_targets();
    assert!(targets.is_empty());
}
