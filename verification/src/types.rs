//! The data types the engine works on: filesystem entries, search
//! statistics, and the plain-value events a directory walk hands back.

use vstd::prelude::*;

verus! {

/// Upper bound on the number of entries one search returns.
pub const MAX_RESULTS: usize = 1000;

/// One filesystem node encountered during a traversal or listing.
#[derive(Debug)]
pub struct FileInfo {
    /// Final path component.
    pub name: String,
    /// Absolute path of the entry.
    pub path: String,
    /// Whether the entry is a directory.
    pub is_dir: bool,
    /// Byte size; 0 for directories and for entries that are not regular files.
    pub size: u64,
}

/// One mounted drive, for platforms with drive letters.
pub struct DriveInfo {
    pub path: String,
    pub name: String,
}

/// Statistics of one finished search.
pub struct SearchStats {
    pub elapsed_ms: u64,
    pub files_indexed: usize,
    pub matches_found: usize,
}

/// The ordered matches of one search together with its statistics.
pub struct SearchResponse {
    pub results: Vec<FileInfo>,
    pub stats: SearchStats,
}

/// What a traversal read about one entry's metadata.
#[derive(Clone, Copy)]
pub struct Meta {
    pub is_dir: bool,
    pub is_file: bool,
    pub len: u64,
}

/// One event a directory walk hands back: an entry it found, or a
/// subtree-level failure (an unreadable directory, a vanished entry).
pub enum WalkEvent {
    Found {
        /// Final path component of the entry.
        name: String,
        /// Absolute path of the entry.
        path: String,
        /// Depth below the walk's root; the root itself has depth 0.
        depth: usize,
        /// `None` when the entry's metadata could not be read.
        meta: Option<Meta>,
    },
    Failed {
        /// The walk's description of the failure.
        msg: String,
    },
}

} // verus!
