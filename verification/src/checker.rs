//! The verification engine: one HTTP GET per bookmark through a shared
//! client, each response classified into at most one typed failure
//! record, with live progress reported along the way.

use vstd::prelude::*;
use vstd::string::StringExecFns;

verus! {

use crate::model::Bookmark;
use crate::model::BookmarkError;
use crate::model::BookmarkView;
use crate::progress::ProgressReporter;

/// A closed classification of why a bookmark failed verification.
#[derive(Debug, Clone, Copy, PartialEq, Eq, Structural)]
pub enum FailureKind {
    NotFound,
    Unauthorized,
    Connection,
}

/// One failing bookmark with a human-readable diagnostic and its kind.
#[derive(Debug, Clone, PartialEq, Eq)]
pub struct LinkFailure {
    pub bookmark: Bookmark,
    pub reason: String,
    pub kind: FailureKind,
}

/// Mathematical image of a [`LinkFailure`].
pub ghost struct LinkFailureView {
    pub bookmark: BookmarkView,
    pub reason: Seq<char>,
    pub kind: FailureKind,
}

impl View for LinkFailure {
    type V = LinkFailureView;

    open spec fn view(&self) -> LinkFailureView {
        LinkFailureView { bookmark: self.bookmark@, reason: self.reason@, kind: self.kind }
    }
}

/// What one fetch of a URL observed: an HTTP status with its canonical
/// reason phrase, or a transport-level failure with its diagnostic text.
#[derive(Debug, Clone, PartialEq, Eq)]
pub enum FetchOutcome {
    Status { code: u16, canonical: Option<String> },
    Transport { message: String },
}

/// Mathematical image of a [`FetchOutcome`].
pub ghost enum FetchOutcomeView {
    Status { code: u16, canonical: Option<Seq<char>> },
    Transport { message: Seq<char> },
}

impl View for FetchOutcome {
    type V = FetchOutcomeView;

    open spec fn view(&self) -> FetchOutcomeView {
        match self {
            FetchOutcome::Status { code, canonical } => FetchOutcomeView::Status {
                code: *code,
                canonical: match canonical {
                    Some(s) => Some(s@),
                    None => None,
                },
            },
            FetchOutcome::Transport { message } => FetchOutcomeView::Transport {
                message: message@,
            },
        }
    }
}

/// The character for one decimal digit.
pub open spec fn digit_char(d: nat) -> char {
    if d == 0 {
        '0'
    } else if d == 1 {
        '1'
    } else if d == 2 {
        '2'
    } else if d == 3 {
        '3'
    } else if d == 4 {
        '4'
    } else if d == 5 {
        '5'
    } else if d == 6 {
        '6'
    } else if d == 7 {
        '7'
    } else if d == 8 {
        '8'
    } else {
        '9'
    }
}

/// The decimal rendering of a number, most significant digit first.
pub open spec fn dec_digits(n: nat) -> Seq<char>
    decreases n,
{
    if n < 10 {
        seq![digit_char(n)]
    } else {
        dec_digits(n / 10).push(digit_char(n % 10))
    }
}

/// One decimal digit as text.
fn digit_str(d: u16) -> (r: &'static str)
    requires
        d < 10,
    ensures
        r@ == seq![digit_char(d as nat)],
{
    if d == 0 {
        proof {
            reveal_strlit("0");
        }
        "0"
    } else if d == 1 {
        proof {
            reveal_strlit("1");
        }
        "1"
    } else if d == 2 {
        proof {
            reveal_strlit("2");
        }
        "2"
    } else if d == 3 {
        proof {
            reveal_strlit("3");
        }
        "3"
    } else if d == 4 {
        proof {
            reveal_strlit("4");
        }
        "4"
    } else if d == 5 {
        proof {
            reveal_strlit("5");
        }
        "5"
    } else if d == 6 {
        proof {
            reveal_strlit("6");
        }
        "6"
    } else if d == 7 {
        proof {
            reveal_strlit("7");
        }
        "7"
    } else if d == 8 {
        proof {
            reveal_strlit("8");
        }
        "8"
    } else {
        proof {
            reveal_strlit("9");
        }
        "9"
    }
}

/// Renders a status code in decimal.
fn u16_to_string(n: u16) -> (r: String)
    ensures
        r@ == dec_digits(n as nat),
    decreases n,
{
    if n < 10 {
        digit_str(n).to_owned()
    } else {
        let mut s = u16_to_string(n / 10);
        s.append(digit_str(n % 10));
        proof {
            assert(dec_digits((n / 10) as nat).push(digit_char((n % 10) as nat)) =~= dec_digits(
                (n / 10) as nat,
            ) + seq![digit_char((n % 10) as nat)]);
        }
        s
    }
}

/// The diagnostic line for an HTTP status: the code in decimal and its
/// canonical reason phrase, or `Unknown` when the code has none.
pub open spec fn status_reason(code: u16, canonical: Option<Seq<char>>) -> Seq<char> {
    "HTTP "@ + dec_digits(code as nat) + " "@ + (match canonical {
        Some(c) => c,
        None => "Unknown"@,
    })
}

/// How one fetch outcome is classified: HTTP 404 is a missing page,
/// HTTP 401 and 403 are refused access, any other status is treated as
/// reachable, and a transport failure is a connection problem.
pub open spec fn classify_outcome(b: BookmarkView, o: FetchOutcomeView) -> Option<LinkFailureView> {
    match o {
        FetchOutcomeView::Status { code, canonical } => {
            if code == 404 {
                Some(
                    LinkFailureView {
                        bookmark: b,
                        reason: status_reason(code, canonical),
                        kind: FailureKind::NotFound,
                    },
                )
            } else if code == 401 || code == 403 {
                Some(
                    LinkFailureView {
                        bookmark: b,
                        reason: status_reason(code, canonical),
                        kind: FailureKind::Unauthorized,
                    },
                )
            } else {
                None
            }
        },
        FetchOutcomeView::Transport { message } => Some(
            LinkFailureView {
                bookmark: b,
                reason: "Request failed: "@ + message,
                kind: FailureKind::Connection,
            },
        ),
    }
}

/// What the HTTP status table guarantees of an observed outcome: the
/// canonical reason phrases of the codes this engine classifies.
pub open spec fn canonical_consistent(o: FetchOutcomeView) -> bool {
    match o {
        FetchOutcomeView::Status { code, canonical } => {
            &&& (code == 404 ==> canonical == Some("Not Found"@))
            &&& (code == 401 ==> canonical == Some("Unauthorized"@))
            &&& (code == 403 ==> canonical == Some("Forbidden"@))
        },
        FetchOutcomeView::Transport { .. } => true,
    }
}

impl LinkFailure {
    /// The failure record for a classified HTTP status.
    pub fn from_status(bookmark: &Bookmark, code: u16, canonical: Option<&str>) -> (r: LinkFailure)
        requires
            code == 404 || code == 401 || code == 403,
        ensures
            r@ == (LinkFailureView {
                bookmark: bookmark@,
                reason: status_reason(
                    code,
                    match canonical {
                        Some(c) => Some(c@),
                        None => None,
                    },
                ),
                kind: if code == 404 {
                    FailureKind::NotFound
                } else {
                    FailureKind::Unauthorized
                },
            }),
    {
        let mut reason: String = "HTTP ".to_owned();
        let digits = u16_to_string(code);
        reason.append(digits.as_str());
        reason.append(" ");
        match canonical {
            Some(c) => reason.append(c),
            None => reason.append("Unknown"),
        }
        let kind = if code == 404 {
            FailureKind::NotFound
        } else {
            FailureKind::Unauthorized
        };
        LinkFailure { bookmark: bookmark.clone(), reason, kind }
    }

    /// The failure record for a transport-level failure.
    pub fn from_error(bookmark: &Bookmark, message: &str) -> (r: LinkFailure)
        ensures
            r@ == (LinkFailureView {
                bookmark: bookmark@,
                reason: "Request failed: "@ + message@,
                kind: FailureKind::Connection,
            }),
    {
        let mut reason: String = "Request failed: ".to_owned();
        reason.append(message);
        LinkFailure { bookmark: bookmark.clone(), reason, kind: FailureKind::Connection }
    }
}

/// Classifies one fetch outcome for one bookmark: at most one record,
/// exactly as [`classify_outcome`] says.
pub fn classify_response(bookmark: &Bookmark, outcome: &FetchOutcome) -> (r: Option<LinkFailure>)
    ensures
        (match r {
            Some(f) => Some(f@),
            None => None,
        }) == classify_outcome(bookmark@, outcome@),
{
    match outcome {
        FetchOutcome::Status { code, canonical } => {
            if *code == 404 || *code == 401 || *code == 403 {
                let canon: Option<&str> = match canonical {
                    Some(c) => Some(c.as_str()),
                    None => None,
                };
                Some(LinkFailure::from_status(bookmark, *code, canon))
            } else {
                None
            }
        },
        FetchOutcome::Transport { message } => Some(
            LinkFailure::from_error(bookmark, message.as_str()),
        ),
    }
}

/// The records produced for a run, bookmark by bookmark in input order:
/// outcome `i` classified against bookmark `i`.
pub open spec fn collected_failures(bs: Seq<BookmarkView>, os: Seq<FetchOutcomeView>) -> Seq<
    LinkFailureView,
>
    decreases bs,
{
    if bs.len() == 0 || os.len() == 0 {
        Seq::empty()
    } else {
        (match classify_outcome(bs.first(), os.first()) {
            Some(f) => seq![f],
            None => Seq::<LinkFailureView>::empty(),
        }) + collected_failures(bs.drop_first(), os.drop_first())
    }
}

/// Appending one bookmark and its outcome appends its classification.
pub proof fn lemma_collected_push(
    bs: Seq<BookmarkView>,
    os: Seq<FetchOutcomeView>,
    b: BookmarkView,
    o: FetchOutcomeView,
)
    requires
        bs.len() == os.len(),
    ensures
        collected_failures(bs.push(b), os.push(o)) == collected_failures(bs, os) + (match
            classify_outcome(b, o) {
            Some(f) => seq![f],
            None => Seq::<LinkFailureView>::empty(),
        }),
    decreases bs,
{
    let tail = (match classify_outcome(b, o) {
        Some(f) => seq![f],
        None => Seq::<LinkFailureView>::empty(),
    });
    if bs.len() == 0 {
        assert(bs.push(b).first() == b);
        assert(os.push(o).first() == o);
        assert(bs.push(b).drop_first() =~= bs);
        assert(os.push(o).drop_first() =~= os);
        assert(collected_failures(bs, os) =~= Seq::<LinkFailureView>::empty());
        assert(collected_failures(bs.push(b), os.push(o)) =~= collected_failures(bs, os) + tail);
    } else {
        assert(bs.push(b).first() == bs.first());
        assert(os.push(o).first() == os.first());
        assert(bs.push(b).drop_first() =~= bs.drop_first().push(b));
        assert(os.push(o).drop_first() =~= os.drop_first().push(o));
        lemma_collected_push(bs.drop_first(), os.drop_first(), b, o);
        assert(collected_failures(bs.push(b), os.push(o)) =~= collected_failures(bs, os) + tail);
    }
}

/// The images of a sequence of exec failure records, in order.
pub open spec fn failure_views(fs: Seq<LinkFailure>) -> Seq<LinkFailureView> {
    fs.map_values(|f: LinkFailure| f@)
}

/// Classifies a whole run from its recorded outcomes: outcome `i`
/// belongs to bookmark `i`. Failing bookmarks yield one record each, in
/// input order; the rest yield none.
pub fn collect_failures(bookmarks: &Vec<Bookmark>, outcomes: &Vec<FetchOutcome>) -> (r: Vec<
    LinkFailure,
>)
    requires
        bookmarks@.len() == outcomes@.len(),
    ensures
        failure_views(r@) == collected_failures(
            crate::tree::bookmark_views(bookmarks@),
            outcomes@.map_values(|o: FetchOutcome| o@),
        ),
{
    let ghost bviews = crate::tree::bookmark_views(bookmarks@);
    let ghost oviews = outcomes@.map_values(|o: FetchOutcome| o@);
    let mut failures: Vec<LinkFailure> = Vec::new();
    let n = bookmarks.len();
    let mut i: usize = 0;
    while i < n
        invariant
            n == bookmarks@.len(),
            bookmarks@.len() == outcomes@.len(),
            bviews == crate::tree::bookmark_views(bookmarks@),
            oviews == outcomes@.map_values(|o: FetchOutcome| o@),
            0 <= i <= n,
            failure_views(failures@) == collected_failures(
                bviews.subrange(0, i as int),
                oviews.subrange(0, i as int),
            ),
        decreases n - i,
    {
        let record = classify_response(&bookmarks[i], &outcomes[i]);
        let ghost before = failures@;
        match record {
            Some(f) => {
                failures.push(f);
            },
            None => {},
        }
        proof {
            assert(bviews.subrange(0, i + 1) =~= bviews.subrange(0, i as int).push(
                bviews[i as int],
            ));
            assert(oviews.subrange(0, i + 1) =~= oviews.subrange(0, i as int).push(
                oviews[i as int],
            ));
            lemma_collected_push(
                bviews.subrange(0, i as int),
                oviews.subrange(0, i as int),
                bviews[i as int],
                oviews[i as int],
            );
            assert(failure_views(failures@) =~= collected_failures(
                bviews.subrange(0, i + 1),
                oviews.subrange(0, i + 1),
            ));
        }
        i += 1;
    }
    proof {
        assert(bviews.subrange(0, n as int) =~= bviews);
        assert(oviews.subrange(0, n as int) =~= oviews);
    }
    failures
}

/// The shared network client relies on reqwest's blocking client.
#[verifier::external_type_specification]
#[verifier::external_body]
pub struct ExClient(reqwest::blocking::Client);

/// Relies on reqwest's client builder: one reusable client with a ten
/// second request timeout and a bound of ten redirect hops. Construction
/// can fail for environment reasons; nothing is promised of the result.
#[verifier::external_body]
fn build_client() -> Result<reqwest::blocking::Client, String> {
    reqwest::blocking::Client::builder()
        .timeout(core::time::Duration::from_secs(10))
        .redirect(reqwest::redirect::Policy::limited(10))
        .build()
        .map_err(|e| e.to_string())
}

/// Relies on reqwest's blocking GET, and on the canonical reason table
/// of the HTTP crate for the codes this engine classifies: 404 is
/// "Not Found", 401 is "Unauthorized", 403 is "Forbidden". Whether a
/// request succeeds depends on the network; only the reason-phrase tie
/// is promised of the outcome.
#[verifier::external_body]
fn fetch_outcome(client: &reqwest::blocking::Client, url: &String) -> (r: FetchOutcome)
    ensures
        canonical_consistent(r@),
{
    match client.get(url.as_str()).send() {
        Ok(resp) => FetchOutcome::Status {
            code: resp.status().as_u16(),
            canonical: resp.status().canonical_reason().map(|s| s.to_string()),
        },
        Err(err) => FetchOutcome::Transport { message: err.to_string() },
    }
}

/// Relies on rayon::current_num_threads: how wide the worker pool of the
/// surrounding process is; depends on the machine.
#[verifier::external_body]
fn current_num_threads() -> usize {
    rayon::current_num_threads()
}

/// Fetches and classifies one bookmark: at most one record, which is the
/// correct classification of whatever outcome the network handed back.
pub fn check_single(bookmark: &Bookmark, client: &reqwest::blocking::Client) -> (r: Option<
    LinkFailure,
>)
    ensures
        exists|o: FetchOutcomeView|
            canonical_consistent(o) && (match r {
                Some(f) => Some(f@),
                None => None,
            }) == #[trigger] classify_outcome(bookmark@, o),
{
    let outcome = fetch_outcome(client, &bookmark.url);
    let r = classify_response(bookmark, &outcome);
    proof {
        assert(canonical_consistent(outcome@) && (match r {
            Some(f) => Some(f@),
            None => None,
        }) == classify_outcome(bookmark@, outcome@));
    }
    r
}

/// Checks every bookmark in order against the shared client, reporting
/// progress before and after each one. The counter ends exactly at the
/// number of bookmarks checked.
pub fn check_all(
    client: &reqwest::blocking::Client,
    bookmarks: &Vec<Bookmark>,
    reporter: &mut ProgressReporter,
) -> (r: Vec<LinkFailure>)
    requires
        old(reporter)@.completed == 0,
        old(reporter)@.total == bookmarks@.len(),
    ensures
        exists|os: Seq<FetchOutcomeView>|
            os.len() == bookmarks@.len() && failure_views(r@) == #[trigger] collected_failures(
                crate::tree::bookmark_views(bookmarks@),
                os,
            ),
        final(reporter)@.completed == bookmarks@.len(),
        final(reporter)@.total == old(reporter)@.total,
{
    let ghost bviews = crate::tree::bookmark_views(bookmarks@);
    let ghost mut os: Seq<FetchOutcomeView> = Seq::empty();
    let mut failures: Vec<LinkFailure> = Vec::new();
    let n = bookmarks.len();
    let mut i: usize = 0;
    while i < n
        invariant
            n == bookmarks@.len(),
            bviews == crate::tree::bookmark_views(bookmarks@),
            0 <= i <= n,
            os.len() == i,
            failure_views(failures@) == collected_failures(bviews.subrange(0, i as int), os),
            reporter@.completed == i,
            reporter@.total == n,
        decreases n - i,
    {
        let bookmark = &bookmarks[i];
        let mut message = bookmark.name.clone();
        message.append(" -> ");
        message.append(bookmark.url.as_str());
        reporter.worker_start(0, message);

        let outcome = fetch_outcome(client, &bookmark.url);
        let record = classify_response(bookmark, &outcome);
        match record {
            Some(f) => {
                failures.push(f);
            },
            None => {},
        }

        reporter.inc();
        reporter.worker_finish(0);
        proof {
            assert(bviews.subrange(0, i + 1) =~= bviews.subrange(0, i as int).push(
                bviews[i as int],
            ));
            lemma_collected_push(bviews.subrange(0, i as int), os, bviews[i as int], outcome@);
            os = os.push(outcome@);
            assert(failure_views(failures@) =~= collected_failures(
                bviews.subrange(0, i + 1),
                os,
            ));
        }
        i += 1;
    }
    proof {
        assert(bviews.subrange(0, n as int) =~= bviews);
    }
    failures
}

/// Verifies a batch of bookmarks. An empty batch returns an empty result
/// at once, with no network client and no progress display constructed.
/// Otherwise one shared client is built — the only fatal error of the
/// engine — and every bookmark is checked exactly once; the result holds
/// one record per failing bookmark, as [`collected_failures`] says.
pub fn check_bookmarks(bookmarks: &Vec<Bookmark>) -> (r: Result<Vec<LinkFailure>, BookmarkError>)
    ensures
        bookmarks@.len() == 0 ==> (r matches Ok(fails) && fails@.len() == 0),
        r matches Ok(fails) ==> exists|os: Seq<FetchOutcomeView>|
            os.len() == bookmarks@.len() && failure_views(fails@) == #[trigger] collected_failures(
                crate::tree::bookmark_views(bookmarks@),
                os,
            ),
        r matches Err(e) ==> bookmarks@.len() > 0 && e matches BookmarkError::HttpClientBuild(_),
{
    if bookmarks.len() == 0 {
        let empty: Vec<LinkFailure> = Vec::new();
        proof {
            assert(failure_views(empty@) =~= collected_failures(
                crate::tree::bookmark_views(bookmarks@),
                Seq::<FetchOutcomeView>::empty(),
            ));
        }
        return Ok(empty);
    }
    let client = match build_client() {
        Ok(c) => c,
        Err(detail) => {
            return Err(BookmarkError::HttpClientBuild(detail));
        },
    };
    let total = bookmarks.len();
    let worker_count = current_num_threads();
    let mut reporter = ProgressReporter::new(total, worker_count, "Checking bookmarks");
    let failures = check_all(&client, bookmarks, &mut reporter);
    reporter.finish();
    Ok(failures)
}


/// A missing page: an HTTP 404 outcome yields exactly one record of kind
/// `NotFound`, and with the canonical reason phrase of 404 its diagnostic
/// reads `HTTP 404 Not Found`.
pub proof fn lemma_not_found_classification(b: BookmarkView)
    ensures
        classify_outcome(
            b,
            FetchOutcomeView::Status { code: 404, canonical: Some("Not Found"@) },
        ) == Some(
            (LinkFailureView {
                bookmark: b,
                reason: "HTTP 404 Not Found"@,
                kind: FailureKind::NotFound,
            }),
        ),
{
    reveal_strlit("HTTP ");
    reveal_strlit(" ");
    reveal_strlit("Not Found");
    reveal_strlit("HTTP 404 Not Found");
    reveal_with_fuel(dec_digits, 3);
    assert(dec_digits(404) =~= seq!['4', '0', '4']);
    assert(status_reason(404, Some("Not Found"@)) =~= "HTTP 404 Not Found"@);
}

/// A transport-level failure yields exactly one record of kind
/// `Connection`, and its diagnostic carries the underlying failure text.
pub proof fn lemma_transport_classification(b: BookmarkView, message: Seq<char>)
    ensures
        classify_outcome(b, FetchOutcomeView::Transport { message }) == Some(
            (LinkFailureView {
                bookmark: b,
                reason: "Request failed: "@ + message,
                kind: FailureKind::Connection,
            }),
        ),
{
}

/// A reachable page contributes no record: any status other than 404,
/// 401 and 403 — every success code among them — is classified as no
/// failure, and those three always yield one.
pub proof fn lemma_status_classification(b: BookmarkView, code: u16, canonical: Option<Seq<char>>)
    ensures
        (classify_outcome(b, FetchOutcomeView::Status { code, canonical }) is None) <==> (code
            != 404 && code != 401 && code != 403),
{
}

} // verus!
