//! Core data types shared by every part of the library: bookmarks, the
//! location of a bookmark store on disk, run options, and the error type.

use vstd::prelude::*;
use vstd::string::StringExecFns;

verus! {

/// One bookmark entry: a display name and the URL it points to.
/// Identity for matching and removal purposes is the `url` field,
/// compared by exact string equality.
#[derive(Debug, PartialEq, Eq)]
pub struct Bookmark {
    pub name: String,
    pub url: String,
}

impl Clone for Bookmark {
    fn clone(&self) -> (r: Bookmark)
        ensures
            r == *self,
    {
        Bookmark { name: self.name.clone(), url: self.url.clone() }
    }
}

/// Mathematical image of a [`Bookmark`]: both fields as character sequences.
pub ghost struct BookmarkView {
    pub name: Seq<char>,
    pub url: Seq<char>,
}

impl View for Bookmark {
    type V = BookmarkView;

    open spec fn view(&self) -> BookmarkView {
        BookmarkView { name: self.name@, url: self.url@ }
    }
}

/// Where a bookmark store lives: the profile directory and the bookmarks
/// file inside it, both as path strings.
#[derive(Debug, PartialEq, Eq)]
pub struct BookmarkLocation {
    pub directory: String,
    pub file: String,
}

impl Clone for BookmarkLocation {
    fn clone(&self) -> (r: BookmarkLocation)
        ensures
            r == *self,
    {
        BookmarkLocation { directory: self.directory.clone(), file: self.file.clone() }
    }
}

/// Mathematical image of a [`BookmarkLocation`].
pub ghost struct BookmarkLocationView {
    pub directory: Seq<char>,
    pub file: Seq<char>,
}

impl View for BookmarkLocation {
    type V = BookmarkLocationView;

    open spec fn view(&self) -> BookmarkLocationView {
        BookmarkLocationView { directory: self.directory@, file: self.file@ }
    }
}

/// Everything that can go wrong during a run. Variants that wrap an
/// underlying failure carry its rendered diagnostic text.
#[derive(Debug, Clone, PartialEq, Eq)]
pub enum BookmarkError {
    UnsupportedPlatform,
    MissingBookmarksDir(String),
    MissingBookmarksFile(String),
    ProfileNotFound(String),
    Io(String),
    InvalidFormat(String),
    BookmarkSerialization(String),
    HttpClientBuild(String),
    ReportWrite(String),
    ReportParse(String),
}

/// The human-readable message that [`BookmarkError::message`] returns.
pub open spec fn error_message(e: BookmarkError) -> Seq<char> {
    match e {
        BookmarkError::UnsupportedPlatform => {
            "Unsupported operating system for locating Chrome bookmarks"@
        },
        BookmarkError::MissingBookmarksDir(path) => {
            "Chrome bookmarks directory not found: "@ + path@
        },
        BookmarkError::MissingBookmarksFile(path) => {
            "Chrome bookmarks file not found: "@ + path@
        },
        BookmarkError::ProfileNotFound(name) => {
            "Chrome profile '"@ + name@ + "' not found"@
        },
        BookmarkError::Io(detail) => "I/O error reading bookmarks: "@ + detail@,
        BookmarkError::InvalidFormat(detail) => "Failed to parse bookmarks file: "@ + detail@,
        BookmarkError::BookmarkSerialization(detail) => {
            "Failed to serialize bookmarks file: "@ + detail@
        },
        BookmarkError::HttpClientBuild(detail) => "Failed to create HTTP client: "@ + detail@,
        BookmarkError::ReportWrite(detail) => "Failed to write YAML report: "@ + detail@,
        BookmarkError::ReportParse(detail) => "Failed to parse YAML report: "@ + detail@,
    }
}

impl BookmarkError {
    /// Renders the error as one line of diagnostic text.
    pub fn message(&self) -> (r: String)
        ensures
            r@ == error_message(*self),
    {
        match self {
            BookmarkError::UnsupportedPlatform => {
                "Unsupported operating system for locating Chrome bookmarks".to_owned()
            },
            BookmarkError::MissingBookmarksDir(path) => {
                "Chrome bookmarks directory not found: ".to_owned().concat(path.as_str())
            },
            BookmarkError::MissingBookmarksFile(path) => {
                "Chrome bookmarks file not found: ".to_owned().concat(path.as_str())
            },
            BookmarkError::ProfileNotFound(name) => {
                "Chrome profile '".to_owned().concat(name.as_str()).concat("' not found")
            },
            BookmarkError::Io(detail) => {
                "I/O error reading bookmarks: ".to_owned().concat(detail.as_str())
            },
            BookmarkError::InvalidFormat(detail) => {
                "Failed to parse bookmarks file: ".to_owned().concat(detail.as_str())
            },
            BookmarkError::BookmarkSerialization(detail) => {
                "Failed to serialize bookmarks file: ".to_owned().concat(detail.as_str())
            },
            BookmarkError::HttpClientBuild(detail) => {
                "Failed to create HTTP client: ".to_owned().concat(detail.as_str())
            },
            BookmarkError::ReportWrite(detail) => {
                "Failed to write YAML report: ".to_owned().concat(detail.as_str())
            },
            BookmarkError::ReportParse(detail) => {
                "Failed to parse YAML report: ".to_owned().concat(detail.as_str())
            },
        }
    }
}

/// Options for one run of the checker.
#[derive(Debug, Clone, Default)]
pub struct RunConfig {
    pub max_bookmarks: Option<usize>,
    pub list_profiles: bool,
    pub profile: Option<String>,
    pub clean: bool,
    pub scan: bool,
    pub show_version: bool,
}

} // verus!
