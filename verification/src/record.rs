//! File records and the collection decision: which directory entries take
//! part in deduplication, and with which timestamp.

use vstd::prelude::*;
use crate::normalize::normalize_spec;

verus! {

/// One filesystem entry considered for deduplication.
pub struct FileRecord {
    /// Path identifying the entry; unique per record within a run.
    pub path: String,
    /// Bare filename, the part that normalization examines.
    pub name: String,
    /// Exact byte length.
    pub size: u64,
    /// Creation time when available, otherwise last-modified time; used only
    /// for ordering.
    pub timestamp: u64,
}

/// Two records are duplicate candidates exactly when their normalized names
/// and their byte sizes agree.
pub open spec fn same_class(a: FileRecord, b: FileRecord) -> bool {
    normalize_spec(a.name@) == normalize_spec(b.name@) && a.size == b.size
}

/// Outcome of considering one directory entry.
pub enum Collected {
    /// A regular file with a usable timestamp.
    Record(FileRecord),
    /// Not a regular file; skipped silently.
    SkippedNonFile,
    /// Neither creation nor modified time was obtainable; skipped with a
    /// warning.
    SkippedNoTimestamp,
}

/// Decide whether one directory entry takes part in the scan.  Only regular
/// files do; the creation time is preferred, the modified time is the
/// fallback, and an entry with neither is skipped.
pub fn collect_entry(
    path: String,
    name: String,
    is_file: bool,
    size: u64,
    created: Option<u64>,
    modified: Option<u64>,
) -> (c: Collected)
    ensures
        match c {
            Collected::Record(r) => {
                &&& is_file
                &&& r.path@ == path@
                &&& r.name@ == name@
                &&& r.size == size
                &&& match (created, modified) {
                    (Some(t), _) => r.timestamp == t,
                    (None, Some(t)) => r.timestamp == t,
                    (None, None) => false,
                }
            },
            Collected::SkippedNonFile => !is_file,
            Collected::SkippedNoTimestamp => is_file && created is None && modified is None,
        },
{
    if !is_file {
        Collected::SkippedNonFile
    } else {
        match created {
            Some(t) => Collected::Record(FileRecord { path, name, size, timestamp: t }),
            None => match modified {
                Some(t) => Collected::Record(FileRecord { path, name, size, timestamp: t }),
                None => Collected::SkippedNoTimestamp,
            },
        }
    }
}

} // verus!
