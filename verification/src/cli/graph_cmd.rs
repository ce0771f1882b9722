//! The decisions of the `graph` commands: which paths a scan skips, how
//! an update reuses and retires files of the previous snapshot, and what
//! each command reports.

use vstd::prelude::*;
use vstd::string::{StrSliceExecFns, StringExecFns};

use crate::graph::diff::{last_key, FileKey, SameKey};
use crate::graph::paths::{components_of, path_components, same_path, path_equal, path_strip_prefix, strip_prefix_of};
use crate::graph::snapshot::{GraphError, GraphFile, GraphSnapshotId};
use crate::schema::{Diagnostic, DiagnosticLevel};
use crate::text::{decimal, lemma_decimal_valid_utf8, lemma_utf8_valid, lit, opt_string_eq, opt_view, push_decimal, push_str, string_from_utf8, utf8};

verus! {

/// A diagnostic as the graph commands report it.
#[derive(Clone, Debug)]
pub struct GraphCliDiagnostic {
    pub level: String,
    pub message: String,
}

/// The lowercase name of a diagnostic level.
pub open spec fn level_word(l: DiagnosticLevel) -> Seq<char> {
    match l {
        DiagnosticLevel::Info => "info"@,
        DiagnosticLevel::Warning => "warning"@,
        DiagnosticLevel::Error => "error"@,
    }
}

impl GraphCliDiagnostic {
    /// The reported form of a diagnostic: its level in lowercase and its
    /// message.
    pub fn of(d: &Diagnostic) -> (r: Self)
        ensures
            r.level@ == level_word(d.level),
            r.message == d.message,
    {
        let level = match d.level {
            DiagnosticLevel::Info => "info".to_owned(),
            DiagnosticLevel::Warning => "warning".to_owned(),
            DiagnosticLevel::Error => "error".to_owned(),
        };
        GraphCliDiagnostic { level, message: crate::text::copy_string(&d.message) }
    }

    /// An informational report.
    pub fn info(message: String) -> (r: Self)
        ensures
            r.level@ == "info"@,
            r.message == message,
    {
        GraphCliDiagnostic { level: "info".to_owned(), message }
    }
}

// ---------------------------------------------------------------------
// Scanning
// ---------------------------------------------------------------------

/// A dot-directory of version control, tooling or build output.
pub open spec fn dot_listed(n: Seq<char>) -> bool {
    ||| n == ".git"@
    ||| n == ".svn"@
    ||| n == ".hg"@
    ||| n == ".tree-sitter-context-mcp"@
    ||| n == ".target"@
    ||| n == ".node_modules"@
    ||| n == ".venv"@
    ||| n == ".tox"@
}

/// A directory of generated or vendored files.
pub open spec fn build_listed(n: Seq<char>) -> bool {
    ||| n == "target"@
    ||| n == "node_modules"@
    ||| n == "vendor"@
    ||| n == "dist"@
    ||| n == "build"@
}

/// Whether a component name is one that the scan singles out.
pub open spec fn singled_out(n: Seq<char>) -> bool {
    (n.len() > 0 && n[0] == '.' && dot_listed(n)) || build_listed(n)
}

/// The components that the check of `path` below `root` looks at.
pub open spec fn checked_components(path: Seq<char>, root: Seq<char>) -> Seq<Seq<char>> {
    match strip_prefix_of(path, root) {
        Some(rel) => components_of(rel),
        None => components_of(path),
    }
}

fn is_singled_out(n: &String) -> (r: bool)
    ensures
        r == singled_out(n@),
{
    let dot = n.unicode_len() > 0 && n.as_str().get_char(0) == '.';
    let listed_dot = *n == ".git".to_owned() || *n == ".svn".to_owned() || *n == ".hg".to_owned() || *n
        == ".tree-sitter-context-mcp".to_owned() || *n == ".target".to_owned() || *n == ".node_modules".to_owned()
        || *n == ".venv".to_owned() || *n == ".tox".to_owned();
    let listed = *n == "target".to_owned() || *n == "node_modules".to_owned() || *n == "vendor".to_owned() || *n
        == "dist".to_owned() || *n == "build".to_owned();
    (dot && listed_dot) || listed
}

/// The scan's path test, relative to the repo root: false as soon as a
/// component is a version-control, tooling or build directory, true
/// otherwise. The scan descends only into entries for which it is false.
pub fn is_ignored_path(path: &str, repo_root: &str) -> (r: bool)
    ensures
        r == !exists|i: int|
            0 <= i < checked_components(path@, repo_root@).len() && singled_out(
                #[trigger] checked_components(path@, repo_root@)[i],
            ),
{
    let relative = match path_strip_prefix(path, repo_root) {
        Some(rel) => rel,
        None => path.to_owned(),
    };
    let comps = path_components(relative.as_str());
    let ghost cc = checked_components(path@, repo_root@);
    assert(cc == components_of(relative@));
    let mut i: usize = 0;
    while i < comps.len()
        invariant
            i <= comps@.len(),
            cc == checked_components(path@, repo_root@),
            comps@.len() == cc.len(),
            forall|k: int| 0 <= k < comps@.len() ==> (#[trigger] comps@[k])@ == cc[k],
            forall|k: int| 0 <= k < i ==> !singled_out(#[trigger] cc[k]),
        decreases comps@.len() - i,
    {
        if is_singled_out(&comps[i]) {
            assert(singled_out(cc[i as int]));
            return false;
        }
        i = i + 1;
    }
    true
}

// ---------------------------------------------------------------------
// Incremental update
// ---------------------------------------------------------------------

/// Whether a file of the previous snapshot can be reused for the file at
/// `path` whose content hash is now `content_hash`: the previous file
/// recorded for that path, the last one with it, has the same hash.
pub open spec fn reusable(previous: Seq<GraphFile>, path: Seq<char>, content_hash: Option<Seq<char>>) -> int {
    let k = last_path(previous, path);
    if k >= 0 && opt_view(previous[k].content_hash) == content_hash {
        k
    } else {
        -1
    }
}

/// The position of the last file of `files` whose path equals `path`,
/// or -1.
pub open spec fn last_path(files: Seq<GraphFile>, path: Seq<char>) -> int
    decreases files.len(),
{
    if files.len() == 0 {
        -1
    } else if same_path(path, files.last().path@) {
        files.len() - 1
    } else {
        last_path(files.drop_last(), path)
    }
}

fn find_last_path(files: &Vec<GraphFile>, path: &str) -> (r: Option<usize>)
    ensures
        match r {
            None => last_path(files@, path@) < 0,
            Some(k) => k < files@.len() && last_path(files@, path@) == k,
        },
{
    let mut j: usize = files.len();
    assert(files@.take(j as int) =~= files@);
    while j > 0
        invariant
            j <= files@.len(),
            last_path(files@, path@) == last_path(files@.take(j as int), path@),
        decreases j,
    {
        assert(files@.take(j as int).drop_last() =~= files@.take(j - 1));
        if path_equal(path, files[j - 1].path.as_str()) {
            return Some(j - 1);
        }
        j = j - 1;
    }
    None
}

/// The previous file to reuse for the file at `path` with the given
/// content hash, by its position among `previous`.
pub fn find_unchanged(previous: &Vec<GraphFile>, path: &str, content_hash: &Option<String>) -> (r: Option<usize>)
    ensures
        match r {
            None => reusable(previous@, path@, opt_view(*content_hash)) < 0,
            Some(k) => k < previous@.len() && reusable(previous@, path@, opt_view(*content_hash)) == k,
        },
{
    match find_last_path(previous, path) {
        Some(k) => {
            if opt_string_eq(&previous[k].content_hash, content_hash) {
                Some(k)
            } else {
                None
            }
        },
        None => None,
    }
}

/// Whether a previous file is gone: it stands for its path and no scanned
/// path equals its path.
pub open spec fn is_gone(previous: Seq<GraphFile>, current: Seq<String>, i: int) -> bool {
    &&& last_path(previous, previous[i].path@) == i
    &&& forall|j: int| 0 <= j < current.len() ==> !same_path(previous[i].path@, #[trigger] current[j]@)
}

/// Whether `r` is the record of the gone file `f`: without a content hash
/// and with a warning that it was deleted after its diagnostics.
pub open spec fn retired(r: GraphFile, f: GraphFile) -> bool {
    &&& r.path == f.path
    &&& r.content_hash is None
    &&& r.nodes@ == f.nodes@
    &&& r.symbols@ == f.symbols@
    &&& r.diagnostics@.len() == f.diagnostics@.len() + 1
    &&& r.diagnostics@.take(f.diagnostics@.len() as int) == f.diagnostics@
    &&& r.diagnostics@.last().level == DiagnosticLevel::Warning
    &&& r.diagnostics@.last().message@ == "file deleted since last snapshot"@
    &&& r.diagnostics@.last().context is None
}

/// The positions of the gone files among the previous ones, in order.
pub open spec fn gone_positions(previous: Seq<GraphFile>, current: Seq<String>) -> Seq<int> {
    crate::graph::diff::gather(
        previous.len() as int,
        |i: int|
            if is_gone(previous, current, i) {
                seq![i]
            } else {
                seq![]
            },
    )
}

fn path_scanned(current: &Vec<String>, path: &String) -> (r: bool)
    ensures
        r == exists|j: int| 0 <= j < current@.len() && same_path(path@, #[trigger] current@[j]@),
{
    let mut j: usize = 0;
    while j < current.len()
        invariant
            j <= current@.len(),
            forall|m: int| 0 <= m < j ==> !same_path(path@, #[trigger] current@[m]@),
        decreases current@.len() - j,
    {
        if path_equal(path.as_str(), current[j].as_str()) {
            return true;
        }
        j = j + 1;
    }
    false
}

/// The files of the previous snapshot that the scan no longer found,
/// each once, marked as deleted; `current` holds the scanned paths.
pub fn retire_deleted(previous: Vec<GraphFile>, current: &Vec<String>) -> (r: Vec<GraphFile>)
    ensures
        r@.len() == gone_positions(previous@, current@).len(),
        forall|k: int|
            0 <= k < r@.len() ==> retired(#[trigger] r@[k], previous@[gone_positions(previous@, current@)[k]]),
{
    let ghost prev = previous@;
    let mut keep: Vec<bool> = Vec::new();
    let mut i: usize = 0;
    while i < previous.len()
        invariant
            i <= prev.len(),
            previous@ == prev,
            keep@.len() == i,
            forall|k: int| 0 <= k < i ==> #[trigger] keep@[k] == is_gone(prev, current@, k),
        decreases prev.len() - i,
    {
        let rep = match find_last_path(&previous, previous[i].path.as_str()) {
            Some(k) => k == i,
            None => false,
        };
        let gone = rep && !path_scanned(current, &previous[i].path);
        keep.push(gone);
        i = i + 1;
    }
    let mut out: Vec<GraphFile> = Vec::new();
    let mut rest = previous;
    let mut k: usize = 0;
    let n = rest.len();
    while rest.len() > 0
        invariant
            k + rest@.len() == prev.len(),
            n == prev.len(),
            rest@ == prev.subrange(k as int, prev.len() as int),
            keep@.len() == prev.len(),
            forall|q: int| 0 <= q < prev.len() ==> #[trigger] keep@[q] == is_gone(prev, current@, q),
            ({
                let g = crate::graph::diff::gather(
                    k as int,
                    |q: int|
                        if is_gone(prev, current@, q) {
                            seq![q]
                        } else {
                            seq![]
                        },
                );
                &&& out@.len() == g.len()
                &&& forall|m: int| 0 <= m < out@.len() ==> retired(#[trigger] out@[m], prev[g[m]])
            }),
        decreases rest@.len(),
    {
        let f = rest.remove(0);
        assert(f == prev[k as int]);
        let ghost before = out@;
        if keep[k] {
            let mut g = f;
            g.content_hash = None;
            let ghost d0 = g.diagnostics@;
            g.diagnostics.push(Diagnostic::warn("file deleted since last snapshot"));
            assert(g.diagnostics@.take(d0.len() as int) =~= d0);
            out.push(g);
            proof {
                let gg = crate::graph::diff::gather(
                    k + 1,
                    |q: int|
                        if is_gone(prev, current@, q) {
                            seq![q]
                        } else {
                            seq![]
                        },
                );
                assert forall|m: int| 0 <= m < out@.len() implies retired(#[trigger] out@[m], prev[gg[m]]) by {
                    if m < before.len() {
                        assert(out@[m] == before[m]);
                    }
                }
            }
        }
        k = k + 1;
        assert(rest@ =~= prev.subrange(k as int, prev.len() as int));
    }
    out
}

// ---------------------------------------------------------------------
// Reports
// ---------------------------------------------------------------------

/// The message of a graph error, as the error displays itself.
pub open spec fn graph_error_text(e: GraphError) -> Seq<char> {
    match e {
        GraphError::MissingSnapshot { snapshot_id } => "missing snapshot: "@ + snapshot_id.0@,
        GraphError::CorruptedSnapshot { snapshot_id, reason } => "corrupted snapshot "@ + snapshot_id.0@ + ": "@
            + reason@,
        GraphError::SchemaMismatch { expected, found } => "schema mismatch: expected "@ + expected@ + ", found "@
            + found@,
        GraphError::LockFailure { path, reason } => "lock failure at "@ + path@ + ": "@ + reason@,
        GraphError::WriteFailure { path, reason } => "write failure at "@ + path@ + ": "@ + reason@,
        GraphError::PostprocessUnavailable => "postprocess unavailable"@,
    }
}

/// The message of a graph error.
pub fn graph_error_message(e: &GraphError) -> (m: String)
    ensures
        m@ == graph_error_text(*e),
{
    match e {
        GraphError::MissingSnapshot { snapshot_id } => "missing snapshot: ".to_owned().concat(snapshot_id.0.as_str()),
        GraphError::CorruptedSnapshot { snapshot_id, reason } => "corrupted snapshot ".to_owned().concat(
            snapshot_id.0.as_str(),
        ).concat(": ").concat(reason.as_str()),
        GraphError::SchemaMismatch { expected, found } => "schema mismatch: expected ".to_owned().concat(
            expected.as_str(),
        ).concat(", found ").concat(found.as_str()),
        GraphError::LockFailure { path, reason } => "lock failure at ".to_owned().concat(path.as_str()).concat(
            ": ",
        ).concat(reason.as_str()),
        GraphError::WriteFailure { path, reason } => "write failure at ".to_owned().concat(path.as_str()).concat(
            ": ",
        ).concat(reason.as_str()),
        GraphError::PostprocessUnavailable => "postprocess unavailable".to_owned(),
    }
}

/// The message when HEAD cannot serve an orientation request.
pub open spec fn orientation_head_text(e: GraphError) -> Seq<char> {
    match e {
        GraphError::MissingSnapshot { .. } => "no_graph: run `tree-sitter-context graph build` first"@,
        GraphError::CorruptedSnapshot { reason, .. } => "graph_corrupt: "@ + reason@,
        GraphError::SchemaMismatch { expected, found } => "schema_mismatch: expected="@ + expected@ + ", found="@
            + found@,
        _ => "graph_corrupt: "@ + graph_error_text(e),
    }
}

/// The message when HEAD cannot serve an orientation request.
pub fn orientation_head_error(e: &GraphError) -> (m: String)
    ensures
        m@ == orientation_head_text(*e),
{
    match e {
        GraphError::MissingSnapshot { .. } => "no_graph: run `tree-sitter-context graph build` first".to_owned(),
        GraphError::CorruptedSnapshot { reason, .. } => "graph_corrupt: ".to_owned().concat(reason.as_str()),
        GraphError::SchemaMismatch { expected, found } => "schema_mismatch: expected=".to_owned().concat(
            expected.as_str(),
        ).concat(", found=").concat(found.as_str()),
        _ => {
            let m = graph_error_message(e);
            "graph_corrupt: ".to_owned().concat(m.as_str())
        },
    }
}

/// Result of graph verify.
#[derive(Clone, Debug)]
pub struct GraphVerifyResult {
    pub status: String,
    pub head: Option<GraphSnapshotId>,
    pub diagnostics: Vec<GraphCliDiagnostic>,
}

/// The report of a store verification: ok with a note when it passed,
/// an error naming the failure otherwise.
pub fn verify_report(head: Option<GraphSnapshotId>, outcome: Result<(), GraphError>) -> (r: GraphVerifyResult)
    ensures
        r.head == head,
        r.diagnostics@.len() == 1,
        match outcome {
            Ok(()) => r.status@ == "ok"@ && r.diagnostics@[0].level@ == "info"@ && r.diagnostics@[0].message@
                == "store verification passed"@,
            Err(e) => r.status@ == "error"@ && r.diagnostics@[0].level@ == "error"@ && r.diagnostics@[0].message@
                == "store verification failed: "@ + graph_error_text(e),
        },
{
    let mut diagnostics: Vec<GraphCliDiagnostic> = Vec::new();
    match outcome {
        Ok(()) => {
            diagnostics.push(GraphCliDiagnostic::info("store verification passed".to_owned()));
            GraphVerifyResult { status: "ok".to_owned(), head, diagnostics }
        },
        Err(e) => {
            let m = graph_error_message(&e);
            diagnostics.push(
                GraphCliDiagnostic {
                    level: "error".to_owned(),
                    message: "store verification failed: ".to_owned().concat(m.as_str()),
                },
            );
            GraphVerifyResult { status: "error".to_owned(), head, diagnostics }
        },
    }
}

/// Result of graph status.
#[derive(Clone, Debug)]
pub struct GraphStatusResult {
    pub status: String,
    pub head: Option<GraphSnapshotId>,
    pub store_path: String,
    pub diagnostics: Vec<GraphCliDiagnostic>,
}

/// The status of a store: ok, with a note when there is no HEAD.
pub fn status_report(head: Option<GraphSnapshotId>, store_path: String) -> (r: GraphStatusResult)
    ensures
        r.status@ == "ok"@,
        r.head == head,
        r.store_path == store_path,
        head is Some ==> r.diagnostics@.len() == 0,
        head is None ==> r.diagnostics@.len() == 1 && r.diagnostics@[0].level@ == "info"@
            && r.diagnostics@[0].message@ == "no HEAD snapshot found"@,
{
    let mut diagnostics: Vec<GraphCliDiagnostic> = Vec::new();
    if head.is_none() {
        diagnostics.push(GraphCliDiagnostic::info("no HEAD snapshot found".to_owned()));
    }
    GraphStatusResult { status: "ok".to_owned(), head, store_path, diagnostics }
}

/// Result of graph clean.
#[derive(Clone, Debug)]
pub struct GraphCleanResult {
    pub status: String,
    pub removed_snapshots: usize,
    pub diagnostics: Vec<GraphCliDiagnostic>,
}

/// The message counting removed snapshots.
pub open spec fn removed_message(n: nat) -> Seq<u8> {
    lit("removed ") + decimal(n) + lit(" unreachable snapshots")
}

/// The report of a clean that removed `removed` snapshots.
pub fn clean_report(removed: usize) -> (r: GraphCleanResult)
    ensures
        r.status@ == "ok"@,
        r.removed_snapshots == removed,
        r.diagnostics@.len() == 1,
        r.diagnostics@[0].level@ == "info"@,
        utf8(r.diagnostics@[0].message@) == removed_message(removed as nat),
{
    let mut m: Vec<u8> = Vec::new();
    push_str(&mut m, "removed ");
    push_decimal(&mut m, removed);
    push_str(&mut m, " unreachable snapshots");
    proof {
        let a = lit("removed ");
        let b = decimal(removed as nat);
        let c = lit(" unreachable snapshots");
        lemma_utf8_valid("removed "@);
        lemma_utf8_valid(" unreachable snapshots"@);
        lemma_decimal_valid_utf8(removed as nat);
        vstd::utf8::valid_utf8_concat(a, b);
        vstd::utf8::valid_utf8_concat(a + b, c);
    }
    let mut diagnostics: Vec<GraphCliDiagnostic> = Vec::new();
    diagnostics.push(GraphCliDiagnostic::info(string_from_utf8(m)));
    GraphCleanResult { status: "ok".to_owned(), removed_snapshots: removed, diagnostics }
}

/// Result of a graph build or update.
#[derive(Clone, Debug)]
pub struct GraphBuildResult {
    pub status: String,
    pub snapshot_id: GraphSnapshotId,
    pub files_scanned: usize,
    pub files_included: usize,
    pub total_nodes: usize,
    pub total_edges: usize,
    pub diagnostics: Vec<GraphCliDiagnostic>,
}

} // verus!
