//! Turning the engine's failure records into the structured report that
//! is later persisted: one group per failure kind, input order kept
//! within each group.

use vstd::prelude::*;

verus! {

use crate::checker::FailureKind;
use crate::checker::LinkFailure;
use crate::checker::LinkFailureView;
use crate::checker::failure_views;

/// The default file name a failure report is written under.
pub const FAILURE_REPORT_FILE: &'static str = "bookmark_failures.yml";

/// Writes failure reports under a configurable path.
#[derive(Debug, Clone, PartialEq, Eq)]
pub struct FailureReporter {
    output_path: String,
}

impl View for FailureReporter {
    type V = Seq<char>;

    closed spec fn view(&self) -> Seq<char> {
        self.output_path@
    }
}

impl FailureReporter {
    /// A reporter writing to the given path.
    pub fn new(output_path: String) -> (r: FailureReporter)
        ensures
            r@ == output_path@,
    {
        FailureReporter { output_path }
    }

    /// A reporter writing to the default report file.
    pub fn default() -> (r: FailureReporter)
        ensures
            r@ == "bookmark_failures.yml"@,
    {
        FailureReporter::new(FAILURE_REPORT_FILE.to_owned())
    }

    /// The path reports are written to.
    pub fn output_path(&self) -> (r: &str)
        ensures
            r@ == self@,
    {
        self.output_path.as_str()
    }
}

/// One line of the persisted report: the failing bookmark and why.
#[derive(Debug, Clone, PartialEq, Eq)]
pub struct ReportEntry {
    pub name: String,
    pub url: String,
    pub reason: String,
}

/// Mathematical image of a [`ReportEntry`].
pub ghost struct ReportEntryView {
    pub name: Seq<char>,
    pub url: Seq<char>,
    pub reason: Seq<char>,
}

impl View for ReportEntry {
    type V = ReportEntryView;

    open spec fn view(&self) -> ReportEntryView {
        ReportEntryView { name: self.name@, url: self.url@, reason: self.reason@ }
    }
}

/// The report line for one failure record.
pub open spec fn entry_of(f: LinkFailureView) -> ReportEntryView {
    ReportEntryView { name: f.bookmark.name, url: f.bookmark.url, reason: f.reason }
}

/// The report lines for the records of one kind, in input order.
pub open spec fn entries_of_kind(fs: Seq<LinkFailureView>, kind: FailureKind) -> Seq<
    ReportEntryView,
>
    decreases fs,
{
    if fs.len() == 0 {
        Seq::empty()
    } else if fs.first().kind == kind {
        seq![entry_of(fs.first())] + entries_of_kind(fs.drop_first(), kind)
    } else {
        entries_of_kind(fs.drop_first(), kind)
    }
}

/// Appending a record appends its line to its kind's group alone.
proof fn lemma_entries_push(fs: Seq<LinkFailureView>, f: LinkFailureView, kind: FailureKind)
    ensures
        entries_of_kind(fs.push(f), kind) == entries_of_kind(fs, kind) + (if f.kind == kind {
            seq![entry_of(f)]
        } else {
            Seq::<ReportEntryView>::empty()
        }),
    decreases fs,
{
    let tail = if f.kind == kind {
        seq![entry_of(f)]
    } else {
        Seq::<ReportEntryView>::empty()
    };
    if fs.len() == 0 {
        assert(fs.push(f).first() == f);
        assert(fs.push(f).drop_first() =~= fs);
        assert(entries_of_kind(fs, kind) =~= Seq::<ReportEntryView>::empty());
        assert(entries_of_kind(fs.push(f), kind) =~= entries_of_kind(fs, kind) + tail);
    } else {
        assert(fs.push(f).first() == fs.first());
        assert(fs.push(f).drop_first() =~= fs.drop_first().push(f));
        lemma_entries_push(fs.drop_first(), f, kind);
        assert(entries_of_kind(fs.push(f), kind) =~= entries_of_kind(fs, kind) + tail);
    }
}

/// The images of a sequence of exec report entries, in order.
pub open spec fn entry_views(es: Seq<ReportEntry>) -> Seq<ReportEntryView> {
    es.map_values(|e: ReportEntry| e@)
}

/// A classified report ready for persistence: the failure records
/// grouped by kind, input order kept within each group.
#[derive(Debug, Clone, PartialEq, Eq)]
pub struct FailureReport {
    pub not_found: Vec<ReportEntry>,
    pub unauthorized: Vec<ReportEntry>,
    pub connection_errors: Vec<ReportEntry>,
}

/// The report line for one failure record.
fn entry_from(f: &LinkFailure) -> (r: ReportEntry)
    ensures
        r@ == entry_of(f@),
{
    ReportEntry {
        name: f.bookmark.name.clone(),
        url: f.bookmark.url.clone(),
        reason: f.reason.clone(),
    }
}

impl FailureReport {
    /// Groups the failure records by kind, keeping input order within
    /// each group.
    pub fn from_failures(failures: &Vec<LinkFailure>) -> (r: FailureReport)
        ensures
            entry_views(r.not_found@) == entries_of_kind(
                failure_views(failures@),
                FailureKind::NotFound,
            ),
            entry_views(r.unauthorized@) == entries_of_kind(
                failure_views(failures@),
                FailureKind::Unauthorized,
            ),
            entry_views(r.connection_errors@) == entries_of_kind(
                failure_views(failures@),
                FailureKind::Connection,
            ),
    {
        let ghost fviews = failure_views(failures@);
        let mut not_found: Vec<ReportEntry> = Vec::new();
        let mut unauthorized: Vec<ReportEntry> = Vec::new();
        let mut connection_errors: Vec<ReportEntry> = Vec::new();
        let n = failures.len();
        let mut i: usize = 0;
        while i < n
            invariant
                n == failures@.len(),
                fviews == failure_views(failures@),
                0 <= i <= n,
                entry_views(not_found@) == entries_of_kind(
                    fviews.subrange(0, i as int),
                    FailureKind::NotFound,
                ),
                entry_views(unauthorized@) == entries_of_kind(
                    fviews.subrange(0, i as int),
                    FailureKind::Unauthorized,
                ),
                entry_views(connection_errors@) == entries_of_kind(
                    fviews.subrange(0, i as int),
                    FailureKind::Connection,
                ),
            decreases n - i,
        {
            let entry = entry_from(&failures[i]);
            match failures[i].kind {
                FailureKind::NotFound => {
                    not_found.push(entry);
                },
                FailureKind::Unauthorized => {
                    unauthorized.push(entry);
                },
                FailureKind::Connection => {
                    connection_errors.push(entry);
                },
            }
            proof {
                assert(fviews.subrange(0, i + 1) =~= fviews.subrange(0, i as int).push(
                    fviews[i as int],
                ));
                lemma_entries_push(
                    fviews.subrange(0, i as int),
                    fviews[i as int],
                    FailureKind::NotFound,
                );
                lemma_entries_push(
                    fviews.subrange(0, i as int),
                    fviews[i as int],
                    FailureKind::Unauthorized,
                );
                lemma_entries_push(
                    fviews.subrange(0, i as int),
                    fviews[i as int],
                    FailureKind::Connection,
                );
                assert(entry_views(not_found@) =~= entries_of_kind(
                    fviews.subrange(0, i + 1),
                    FailureKind::NotFound,
                ));
                assert(entry_views(unauthorized@) =~= entries_of_kind(
                    fviews.subrange(0, i + 1),
                    FailureKind::Unauthorized,
                ));
                assert(entry_views(connection_errors@) =~= entries_of_kind(
                    fviews.subrange(0, i + 1),
                    FailureKind::Connection,
                ));
            }
            i += 1;
        }
        proof {
            assert(fviews.subrange(0, n as int) =~= fviews);
        }
        FailureReport { not_found, unauthorized, connection_errors }
    }
}

} // verus!
