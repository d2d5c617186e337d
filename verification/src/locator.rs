//! Locating Chrome bookmark stores: building the well-known paths under
//! a home directory, and picking a profile by name, case-insensitively,
//! from the profiles found on disk.

use vstd::prelude::*;
use vstd::string::StrSliceExecFns;
use vstd::string::StringExecFns;

verus! {

use crate::model::BookmarkError;
use crate::model::BookmarkLocation;

/// The default profile directory under a home directory.
pub open spec fn dir_from_home(home: Seq<char>) -> Seq<char> {
    home + "/.config/google-chrome/Default"@
}

/// The bookmarks file under a home directory.
pub open spec fn file_from_home(home: Seq<char>) -> Seq<char> {
    dir_from_home(home) + "/Bookmarks"@
}

/// The default profile directory under a local application data root.
pub open spec fn dir_from_local_app_data(base: Seq<char>) -> Seq<char> {
    base + "\\Google\\Chrome\\User Data\\Default"@
}

/// The bookmarks file under a local application data root.
pub open spec fn file_from_local_app_data(base: Seq<char>) -> Seq<char> {
    dir_from_local_app_data(base) + "\\Bookmarks"@
}

/// The default profile directory under the given home directory.
pub fn bookmarks_dir_from_home(home: &str) -> (r: String)
    ensures
        r@ == dir_from_home(home@),
{
    home.to_owned().concat("/.config/google-chrome/Default")
}

/// The bookmarks file under the given home directory.
pub fn bookmarks_file_from_home(home: &str) -> (r: String)
    ensures
        r@ == file_from_home(home@),
{
    bookmarks_dir_from_home(home).concat("/Bookmarks")
}

/// The default profile directory under the given local application data
/// root, in the layout Chrome uses on Windows.
pub fn bookmarks_dir_from_local_app_data(base: &str) -> (r: String)
    ensures
        r@ == dir_from_local_app_data(base@),
{
    base.to_owned().concat("\\Google\\Chrome\\User Data\\Default")
}

/// The bookmarks file under the given local application data root, in
/// the layout Chrome uses on Windows.
pub fn bookmarks_file_from_local_app_data(base: &str) -> (r: String)
    ensures
        r@ == file_from_local_app_data(base@),
{
    bookmarks_dir_from_local_app_data(base).concat("\\Bookmarks")
}

/// Relies on dirs::home_dir: the running user's home directory, if the
/// platform knows one; depends on the environment, so nothing is
/// promised of the value.
#[verifier::external_body]
fn home_dir() -> Option<String> {
    dirs::home_dir().map(|p| p.to_string_lossy().into_owned())
}

/// The default bookmark store location: both paths built from one look
/// at the home directory, or the platform error when there is none.
pub fn locate() -> (r: Result<BookmarkLocation, BookmarkError>)
    ensures
        r matches Ok(loc) ==> exists|home: Seq<char>|
            loc.directory@ == #[trigger] dir_from_home(home) && loc.file@ == file_from_home(home),
        r matches Err(e) ==> e == BookmarkError::UnsupportedPlatform,
{
    match home_dir() {
        Some(home) => {
            let directory = bookmarks_dir_from_home(home.as_str());
            let file = bookmarks_file_from_home(home.as_str());
            Ok(BookmarkLocation { directory, file })
        },
        None => Err(BookmarkError::UnsupportedPlatform),
    }
}

/// The code point a character sorts under when ASCII letters are folded
/// to lower case.
pub open spec fn folded_char(c: char) -> u32 {
    if 'A' <= c && c <= 'Z' {
        (c as u32 + 32) as u32
    } else {
        c as u32
    }
}

/// A text with its ASCII letters folded to lower case, as code points.
pub open spec fn folded(s: Seq<char>) -> Seq<u32> {
    s.map_values(|c: char| folded_char(c))
}

/// Where the base name of a path starts: the index after the last `/`.
pub open spec fn base_name_start(p: Seq<char>) -> int
    decreases p.len(),
{
    if p.len() == 0 {
        0
    } else if p.last() == '/' {
        p.len() as int
    } else {
        base_name_start(p.drop_last())
    }
}

/// The base name lies inside the path.
pub proof fn lemma_base_name_start_bounds(p: Seq<char>)
    ensures
        0 <= base_name_start(p) <= p.len(),
    decreases p.len(),
{
    if p.len() > 0 && p.last() != '/' {
        lemma_base_name_start_bounds(p.drop_last());
    }
}

/// The base name of a path: everything after its last `/`, the whole
/// path when it has none.
pub open spec fn base_name(p: Seq<char>) -> Seq<char> {
    p.subrange(base_name_start(p), p.len() as int)
}

/// Whether a profile directory answers to a name, comparing the
/// directory's base name with the name case-insensitively.
pub open spec fn profile_name_matches(directory: Seq<char>, name: Seq<char>) -> bool {
    folded(base_name(directory)) == folded(name)
}

/// One character folded to lower case, as a code point.
fn folded_char_of(c: char) -> (r: u32)
    ensures
        r == folded_char(c),
{
    let u = c as u32;
    if c >= 'A' && c <= 'Z' {
        u + 32
    } else {
        u
    }
}

/// Where the base name of this path starts.
fn base_name_start_of(s: &str) -> (r: usize)
    ensures
        r == base_name_start(s@),
        r <= s@.len(),
{
    let n = s.unicode_len();
    let mut i = n;
    proof {
        assert(s@.take(n as int) =~= s@);
    }
    while i > 0
        invariant
            i <= n,
            n == s@.len(),
            base_name_start(s@) == base_name_start(s@.take(i as int)),
        decreases i,
    {
        let c = s.get_char(i - 1);
        if c == '/' {
            proof {
                assert(s@.take(i as int).last() == s@[i - 1]);
            }
            return i;
        }
        proof {
            assert(s@.take(i as int).last() == s@[i - 1]);
            assert(s@.take(i as int).drop_last() =~= s@.take(i - 1));
        }
        i = i - 1;
    }
    proof {
        assert(s@.take(0).len() == 0);
    }
    0
}

/// Whether the tail of `s` from `start` equals `other`, comparing
/// case-insensitively.
fn folded_eq_from(s: &str, start: usize, other: &str) -> (r: bool)
    requires
        start <= s@.len(),
    ensures
        r == (folded(s@.subrange(start as int, s@.len() as int)) == folded(other@)),
{
    let ghost tail = s@.subrange(start as int, s@.len() as int);
    let n = s.unicode_len();
    let m = other.unicode_len();
    if n - start != m {
        proof {
            assert(folded(tail).len() == tail.len());
            assert(folded(other@).len() == other@.len());
        }
        return false;
    }
    let mut j: usize = 0;
    while j < m
        invariant
            start <= s@.len(),
            n == s@.len(),
            m == other@.len(),
            n - start == m,
            tail == s@.subrange(start as int, s@.len() as int),
            0 <= j <= m,
            forall|k: int| 0 <= k < j ==> folded(tail)[k] == folded(other@)[k],
        decreases m - j,
    {
        let a = folded_char_of(s.get_char(start + j));
        let b = folded_char_of(other.get_char(j));
        if a != b {
            proof {
                assert(folded(tail)[j as int] == folded_char(tail[j as int]));
                assert(tail[j as int] == s@[start + j]);
                assert(folded(other@)[j as int] == folded_char(other@[j as int]));
            }
            return false;
        }
        proof {
            assert(tail[j as int] == s@[start + j]);
            assert(folded(tail)[j as int] == folded_char(tail[j as int]));
            assert(folded(other@)[j as int] == folded_char(other@[j as int]));
        }
        j += 1;
    }
    proof {
        assert(folded(tail) =~= folded(other@));
    }
    true
}

/// Finds the first profile whose directory answers to `name`,
/// case-insensitively, or the profile-not-found error naming what was
/// asked for.
pub fn find_profile_by_name(profiles: &Vec<BookmarkLocation>, name: &str) -> (r: Result<
    BookmarkLocation,
    BookmarkError,
>)
    ensures
        r matches Ok(loc) ==> exists|i: int|
            0 <= i < profiles@.len() && profiles@[i] == loc && #[trigger] profile_name_matches(
                profiles@[i].directory@,
                name@,
            ) && (forall|j: int|
                0 <= j < i ==> !profile_name_matches(
                    (#[trigger] profiles@[j]).directory@,
                    name@,
                )),
        r matches Err(e) ==> (e matches BookmarkError::ProfileNotFound(n) && n@ == name@ && forall|
            j: int,
        |
            0 <= j < profiles@.len() ==> !profile_name_matches(
                (#[trigger] profiles@[j]).directory@,
                name@,
            )),
{
    let n = profiles.len();
    let mut i: usize = 0;
    while i < n
        invariant
            n == profiles@.len(),
            0 <= i <= n,
            forall|j: int|
                0 <= j < i ==> !profile_name_matches((#[trigger] profiles@[j]).directory@, name@),
        decreases n - i,
    {
        let directory = profiles[i].directory.as_str();
        let start = base_name_start_of(directory);
        proof {
            lemma_base_name_start_bounds(directory@);
        }
        if folded_eq_from(directory, start, name) {
            proof {
                assert(profile_name_matches(profiles@[i as int].directory@, name@));
            }
            return Ok(profiles[i].clone());
        }
        i += 1;
    }
    Err(BookmarkError::ProfileNotFound(name.to_owned()))
}

} // verus!
