//! Duplicate-file detection and resolution engine.
//!
//! Scans of a single directory are reduced to plain records (path, filename,
//! size, timestamp).  Filenames are brought to a canonical form by stripping
//! OS-style "copy" suffixes; records sharing a canonical name and an exact
//! byte size form duplicate sets; within each set the earliest record is kept
//! and the rest become deletion candidates.  The run's decisions (dry-run,
//! confirmation, tallying) are pure functions over those values.

pub mod grouping;
pub mod normalize;
pub mod record;
pub mod resolve;
pub mod run;
