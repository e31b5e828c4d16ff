//! The record produced for each line of the status report, and the errors the
//! pipeline can surface.

use vstd::prelude::*;

verus! {

/// One entry of the status report: how a path differs in the staged view
/// (`x`) and in the working-tree view (`y`), the current path, and, for a
/// rename, the path it moved from.
#[derive(Debug, PartialEq, Eq)]
pub struct GitFileStatus {
    pub x: char,
    pub y: char,
    pub filename: String,
    pub origname: Option<String>,
}

/// The mathematical model of a [`GitFileStatus`]: the same fields with the
/// strings abstracted to their character sequences.
pub struct FileStatusView {
    pub x: char,
    pub y: char,
    pub filename: Seq<char>,
    pub origname: Option<Seq<char>>,
}

impl View for GitFileStatus {
    type V = FileStatusView;

    open spec fn view(&self) -> FileStatusView {
        FileStatusView {
            x: self.x,
            y: self.y,
            filename: self.filename@,
            origname: match self.origname {
                Some(orig) => Some(orig@),
                None => None,
            },
        }
    }
}

/// Everything that can go wrong between reading the status report and
/// collecting the diffs. All four are fail-fast: the first one encountered
/// aborts the run with no partial output.
#[derive(Debug, PartialEq, Eq)]
pub enum GitError {
    /// A status line lacks its two leading state characters or a path token.
    MalformedStatusLine { line: String },
    /// A line carries the rename marker but not both surrounding path tokens.
    MalformedRenameLine { line: String },
    /// Bytes from an external source were not valid UTF-8.
    EncodingError,
    /// The diff-fetch capability failed for this path.
    DiffFetchFailed { path: String },
}

/// The mathematical model of a [`GitError`].
pub enum ErrorView {
    MalformedStatusLine { line: Seq<char> },
    MalformedRenameLine { line: Seq<char> },
    EncodingError,
    DiffFetchFailed { path: Seq<char> },
}

impl View for GitError {
    type V = ErrorView;

    open spec fn view(&self) -> ErrorView {
        match self {
            GitError::MalformedStatusLine { line } => ErrorView::MalformedStatusLine {
                line: line@,
            },
            GitError::MalformedRenameLine { line } => ErrorView::MalformedRenameLine {
                line: line@,
            },
            GitError::EncodingError => ErrorView::EncodingError,
            GitError::DiffFetchFailed { path } => ErrorView::DiffFetchFailed { path: path@ },
        }
    }
}

} // verus!
