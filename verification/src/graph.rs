//! Repo graph substrate: typed graph records, deterministic snapshot
//! identity, snapshot diffs and cross-file references.

pub mod snapshot;
pub mod paths;
pub mod xref;
pub mod diff;
pub mod extract;
pub mod postprocess;
pub mod store;
