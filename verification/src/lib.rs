//! A verified core for a small working-tree inspection tool.
//!
//! The library parses a machine-readable status report (one line per changed
//! path, a two-character state code followed by path tokens, with `->`
//! marking a rename) into structured records, and decides which records
//! warrant a follow-up diff fetch. Running the version-control binary itself
//! is left to the surrounding program, which hands the raw report text in and
//! a diff-fetch capability down.

pub mod diffs;
pub mod parse;
pub mod status;

pub use diffs::GitProcess;
pub use status::{ErrorView, FileStatusView, GitError, GitFileStatus};
