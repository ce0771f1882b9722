//! Options of the commands, and the checks made on them before any file
//! is read.

use vstd::prelude::*;

use crate::cli::formats::{CompactFormat, InvalidateFormat, OrientationFormat, OutlineFormat};

verus! {

/// Options of the context command.
#[derive(Clone, Debug)]
pub struct ContextOptions {
    pub quiet: bool,
    pub old_path: Option<String>,
    pub symbols: bool,
    pub budget: Option<usize>,
}

/// Options of the compact command.
#[derive(Clone, Debug)]
pub struct CompactCliOptions {
    /// Paths to the new files (current state).
    pub paths: Vec<String>,
    /// Directory holding the old file snapshots.
    pub old_dir: String,
    /// Output format.
    pub format: CompactFormat,
    /// Optional token budget.
    pub budget: Option<usize>,
    /// Suppress the main output.
    pub quiet: bool,
}

/// Options of the invalidate command.
#[derive(Clone, Debug)]
pub struct InvalidateOptions {
    /// Path to the new file (current state).
    pub new_path: String,
    /// Path to the old file (previous state).
    pub old_path: Option<String>,
    /// Snapshot identifier to take the old state from the cache.
    pub since_snapshot_id: Option<String>,
    /// Output format.
    pub format: InvalidateFormat,
    /// Suppress the main output.
    pub quiet: bool,
}

impl InvalidateOptions {
    /// The request must say where the old state comes from: an old file
    /// or a cached snapshot.
    pub fn check(&self) -> (r: Result<(), String>)
        ensures
            self.old_path is None && self.since_snapshot_id is None ==> (r matches Err(m) && m@
                == "missing_required_flag: either --old or --since-snapshot-id is required"@),
            !(self.old_path is None && self.since_snapshot_id is None) ==> r is Ok,
    {
        if self.old_path.is_none() && self.since_snapshot_id.is_none() {
            Err("missing_required_flag: either --old or --since-snapshot-id is required".to_owned())
        } else {
            Ok(())
        }
    }
}

/// Options of the outline command.
#[derive(Clone, Debug)]
pub struct OutlineOptions {
    /// Path to the source file.
    pub path: String,
    /// Output format.
    pub format: OutlineFormat,
    /// Suppress the main output.
    pub quiet: bool,
    /// Custom grammar directory.
    pub grammar_path: Option<String>,
}

/// Options of graph build and update.
#[derive(Clone, Debug)]
pub struct GraphBuildOptions {
    pub repo_root: String,
    pub grammar_path: Option<String>,
    pub quiet: bool,
}

/// Options of orientation get.
#[derive(Clone, Debug)]
pub struct OrientationGetOptions {
    pub repo_root: String,
    pub budget: Option<usize>,
    pub format: OrientationFormat,
}

/// Result of orientation get.
#[derive(Clone, Debug)]
pub struct OrientationGetResult {
    pub bytes: Vec<u8>,
    pub format: OrientationFormat,
}

} // verus!
