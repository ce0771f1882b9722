//! The decisions of the snapshot store: where it lives, what its HEAD
//! file names, which files are snapshots, and whether a store is intact.
//! Reading and writing the files is left to the caller.

use vstd::prelude::*;

use crate::graph::snapshot::{GraphError, GraphSnapshotId, GRAPH_SCHEMA_VERSION};
use crate::text::{copy_string, str_trim, trim, utf8};

verus! {

/// Store directory name inside a repo.
pub const STORE_DIR_NAME: &'static str = ".tree-sitter-context-mcp";

/// HEAD file name.
pub const HEAD_FILE_NAME: &'static str = "HEAD";

/// The length of a snapshot identifier: 32 hexadecimal digits.
pub const SNAPSHOT_ID_LEN: usize = 32;

/// Graph snapshots under a repo-local directory.
#[derive(Clone, Debug)]
pub struct GraphStore {
    root: String,
}

impl GraphStore {
    /// The store rooted at `root`, the store directory itself.
    pub fn at(root: String) -> (s: Self)
        ensures
            s.root_view() == root@,
    {
        GraphStore { root }
    }

    /// The store root, as a spec value.
    pub closed spec fn root_view(&self) -> Seq<char> {
        self.root@
    }

    /// The path of the store root.
    pub fn path(&self) -> (p: &str)
        ensures
            p@ == self.root_view(),
    {
        self.root.as_str()
    }

    /// Check the snapshot that HEAD names: `found_schema` is the schema
    /// version it was stored with, `recomputed` the identifier its
    /// canonical form hashes to. The schema must be the current one and the
    /// identifier must match HEAD.
    pub fn verify(&self, head_id: GraphSnapshotId, found_schema: String, recomputed: GraphSnapshotId) -> (r: Result<(), GraphError>)
        ensures
            found_schema@ != GRAPH_SCHEMA_VERSION@ ==> (r matches Err(GraphError::SchemaMismatch { expected, found })
                && expected@ == GRAPH_SCHEMA_VERSION@ && found@ == found_schema@),
            found_schema@ == GRAPH_SCHEMA_VERSION@ && recomputed.0@ != head_id.0@ ==> (r matches Err(
                GraphError::CorruptedSnapshot { snapshot_id, reason },
            ) && snapshot_id.0@ == head_id.0@ && reason@ == "canonical hash mismatch"@),
            found_schema@ == GRAPH_SCHEMA_VERSION@ && recomputed.0@ == head_id.0@ ==> r is Ok,
    {
        let expected = GRAPH_SCHEMA_VERSION.to_owned();
        if found_schema != expected {
            return Err(GraphError::SchemaMismatch { expected, found: found_schema });
        }
        if recomputed.0 != head_id.0 {
            return Err(GraphError::CorruptedSnapshot { snapshot_id: head_id, reason: "canonical hash mismatch".to_owned() });
        }
        Ok(())
    }
}

/// The snapshot identifier that a HEAD file holding `contents` names:
/// the contents without surrounding white space.
pub fn head_id_from(contents: &str) -> (id: GraphSnapshotId)
    ensures
        id.0@ == trim(contents@),
{
    GraphSnapshotId(str_trim(contents))
}

/// Whether a byte is an ASCII hexadecimal digit.
pub open spec fn is_hex_byte(b: u8) -> bool {
    (48 <= b <= 57) || (97 <= b <= 102) || (65 <= b <= 70)
}

/// Whether a file stem names a snapshot: 32 ASCII hexadecimal digits.
pub open spec fn is_snapshot_stem(stem: Seq<u8>) -> bool {
    stem.len() == SNAPSHOT_ID_LEN && forall|i: int| 0 <= i < stem.len() ==> is_hex_byte(#[trigger] stem[i])
}

/// Whether a file stem names a snapshot, so that cleaning may remove it.
pub fn is_snapshot_file_stem(stem: &str) -> (r: bool)
    ensures
        r == is_snapshot_stem(utf8(stem@)),
{
    let b = stem.as_bytes();
    if b.len() != SNAPSHOT_ID_LEN {
        return false;
    }
    let mut i: usize = 0;
    while i < b.len()
        invariant
            i <= b@.len(),
            b@ == utf8(stem@),
            forall|k: int| 0 <= k < i ==> is_hex_byte(#[trigger] b@[k]),
        decreases b@.len() - i,
    {
        let c = b[i];
        if !((48 <= c && c <= 57) || (97 <= c && c <= 102) || (65 <= c && c <= 70)) {
            return false;
        }
        i = i + 1;
    }
    true
}

} // verus!
