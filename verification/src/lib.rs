//! Audit a Chrome bookmark store: walk the nested bookmark tree, check every
//! URL leaf for reachability, classify the failures, and prune previously
//! reported unreachable entries from the tree while preserving its structure.

pub mod checker;
pub mod cleaner;
pub mod laws;
pub mod locator;
pub mod model;
pub mod progress;
pub mod report;
pub mod runner;
pub mod tree;

pub use checker::FailureKind;
pub use checker::FetchOutcome;
pub use checker::LinkFailure;
pub use checker::check_bookmarks;
pub use cleaner::TargetSet;
pub use model::Bookmark;
pub use model::BookmarkError;
pub use model::BookmarkLocation;
pub use model::BookmarkView;
pub use model::RunConfig;
pub use progress::ProgressReporter;
pub use report::FailureReporter;
pub use runner::apply_limit;
pub use runner::ensure_location_exists;
pub use runner::gather_bookmarks;
pub use tree::Field;
pub use tree::Node;
pub use tree::extract_bookmarks;
pub use tree::remove_targets;
