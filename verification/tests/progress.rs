//! Tests of the progress reporter: the overall counter and its cap.

use bookmark_checker::ProgressReporter;

#[test]
fn handle_updates_overall_count() {
    let mut reporter = ProgressReporter::new(3, 1, "Testing");
    reporter.inc();
    assert_eq!(reporter.completed(), 1);
    reporter.finish();
}

#[test]
fn counter_reaches_exactly_the_total() {
    let total = 5;
    let mut reporter = ProgressReporter::new(total, 2, "Testing");
    for _ in 0..total {
        reporter.inc();
    }
    assert_eq!(reporter.completed(), total);
    reporter.finish();
}

#[test]
fn counter_never_exceeds_the_total() {
    let mut reporter = ProgressReporter::new(2, 1, "Testing");
    reporter.inc();
    reporter.inc();
    reporter.inc();
    assert_eq!(reporter.completed(), 2);
    assert_eq!(reporter.total(), 2);
    reporter.finish();
}
