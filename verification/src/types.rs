//! The data carried through the pipeline: tracked files, commits, rendered
//! files, and the terminal classification of files that were not rendered.
//!
//! Timestamps are plain seconds since the Unix epoch; the caller converts
//! filesystem and repository times to seconds before handing them in.

use vstd::prelude::*;

verus! {

/// A path recorded in the repository's index, before selection: the file may
/// be missing on disk, in which case it carries no modification time.
pub struct IndexEntry {
    pub path: String,
    pub modified_secs: Option<i64>,
}

/// A path recorded in the repository's index, together with the seconds
/// since the Unix epoch at which the file on disk was last modified.
pub struct TrackedFile {
    pub path: String,
    pub modified_secs: i64,
}

/// One commit: its message and its authored time in seconds since the epoch.
pub struct CommitInfo {
    pub message: String,
    pub time_secs: i64,
}

/// A file that passed filtering and decoded as text, rendered with line
/// numbers.
pub struct FormattedFile {
    pub path: String,
    pub content: String,
    pub modified_secs: i64,
}

/// Why a tracked file was not rendered.
#[derive(Debug)]
pub enum SkipReason {
    /// The file's bytes are not valid UTF-8 text.
    InvalidUtf8,
    /// An exclusion glob matched; carries the responsible pattern.
    GlobExcluded(String),
    /// The file could not be read; carries the error's description.
    ReadError(String),
}

/// A tracked file together with the reason it was not rendered.
#[derive(Debug)]
pub struct SkippedFile {
    pub path: String,
    pub reason: SkipReason,
}

/// What came of reading an admitted file from disk: either its raw bytes, or
/// the description of the I/O failure.
pub enum ReadOutcome {
    Bytes(Vec<u8>),
    Failed(String),
}

} // verus!
