//! The run's pure decisions: capping the workload, checking that a
//! located bookmark store exists, and turning a parsed tree plus those
//! facts into the bookmarks to verify.

use vstd::prelude::*;

verus! {

use crate::model::Bookmark;
use crate::model::BookmarkError;
use crate::model::BookmarkLocation;
use crate::tree::Node;
use crate::tree::bookmark_views;
use crate::tree::extract_bookmarks;
use crate::tree::extracted;

/// Caps the workload at `limit` bookmarks, when one is set and lies
/// below the total; returns the total found before capping.
pub fn apply_limit(bookmarks: &mut Vec<Bookmark>, limit: Option<usize>) -> (total: usize)
    ensures
        total == old(bookmarks)@.len(),
        final(bookmarks)@ == (match limit {
            Some(max) => if max < old(bookmarks)@.len() {
                old(bookmarks)@.subrange(0, max as int)
            } else {
                old(bookmarks)@
            },
            None => old(bookmarks)@,
        }),
{
    let total = bookmarks.len();
    match limit {
        Some(max) => {
            if max < bookmarks.len() {
                bookmarks.truncate(max);
                proof {
                    assert(bookmarks@ =~= old(bookmarks)@.subrange(0, max as int));
                }
            }
        },
        None => {},
    }
    total
}

/// Rejects a located store whose directory or file is absent, with the
/// matching error; the caller reports which of the two paths exist.
pub fn ensure_location_exists(
    location: &BookmarkLocation,
    directory_exists: bool,
    file_exists: bool,
) -> (r: Result<(), BookmarkError>)
    ensures
        !directory_exists ==> (r matches Err(e) && e matches BookmarkError::MissingBookmarksDir(d)
            && d@ == location.directory@),
        directory_exists && !file_exists ==> (r matches Err(e) && e
            matches BookmarkError::MissingBookmarksFile(f) && f@ == location.file@),
        directory_exists && file_exists ==> r matches Ok(_),
{
    if !directory_exists {
        return Err(BookmarkError::MissingBookmarksDir(location.directory.clone()));
    }
    if !file_exists {
        return Err(BookmarkError::MissingBookmarksFile(location.file.clone()));
    }
    Ok(())
}

/// Gathers the bookmarks of a located store: given whether its paths
/// exist and its parsed tree, either the location with every extracted
/// bookmark in extraction order, or the error naming what is missing.
pub fn gather_bookmarks(
    location: &BookmarkLocation,
    directory_exists: bool,
    file_exists: bool,
    root: &Node,
) -> (r: Result<(BookmarkLocation, Vec<Bookmark>), BookmarkError>)
    ensures
        directory_exists && file_exists ==> (r matches Ok(p) && p.0 == *location && bookmark_views(
            p.1@,
        ) == extracted(root@)),
        !directory_exists ==> (r matches Err(e) && e matches BookmarkError::MissingBookmarksDir(d)
            && d@ == location.directory@),
        directory_exists && !file_exists ==> (r matches Err(e) && e
            matches BookmarkError::MissingBookmarksFile(f) && f@ == location.file@),
{
    match ensure_location_exists(location, directory_exists, file_exists) {
        Ok(_) => {
            let bookmarks = extract_bookmarks(root);
            Ok((location.clone(), bookmarks))
        },
        Err(e) => Err(e),
    }
}

} // verus!
