//! The bookkeeping of a repo scan: what each walked file adds to the
//! snapshot and to the report, and the snapshot and report at the end.
//! The walk, the reads and the parses happen around it; each file's
//! outcome comes in as an event.

use vstd::prelude::*;
use vstd::string::StringExecFns;

use crate::chunk::tree::{chunks_for_tree, is_chunking, wf_node};
use crate::chunk::{ChunkOptions, ChunkOutput, SyntaxTree};
use crate::cli::graph_cmd::{level_word, GraphBuildResult, GraphCliDiagnostic};
use crate::graph::extract::{extract_graph_file, is_graph_file_of};
use crate::parsing::parse_source;
use crate::symbols::{is_tagged_symbols, symbols_for_tree, SymbolOptions, SymbolsOutput};
use crate::graph::snapshot::{GraphFile, GraphMeta, GraphSnapshot, GraphSnapshotId, GRAPH_SCHEMA_VERSION};

verus! {

/// What became of one walked file.
pub enum ScanEvent {
    /// The path does not lie under the repo root.
    OutsideRoot { shown: String },
    /// The file could not be read.
    Unreadable { relative: String, shown: String, error: String },
    /// The file is unchanged since the previous snapshot, whose record is
    /// reused.
    Unchanged { relative: String, file: GraphFile },
    /// No grammar knows the file.
    NoLanguage { relative: String, shown: String },
    /// The parser gave no tree.
    ParseFailed { relative: String, shown: String },
    /// The file was parsed and its graph record extracted.
    Extracted { relative: String, file: GraphFile },
}

/// A scan so far: the files kept, the counts, the repo-relative paths
/// seen and the reports.
pub struct GraphScan {
    pub files: Vec<GraphFile>,
    pub scanned: usize,
    pub included: usize,
    pub unchanged: usize,
    pub current_paths: Vec<String>,
    pub diagnostics: Vec<GraphCliDiagnostic>,
}

/// A report with the given level and message.
pub open spec fn report_is(d: GraphCliDiagnostic, level: Seq<char>, message: Seq<char>) -> bool {
    d.level@ == level && d.message@ == message
}

/// The (level, message) reports that an event adds.
pub open spec fn event_reports(ev: ScanEvent) -> Seq<(Seq<char>, Seq<char>)> {
    match ev {
        ScanEvent::OutsideRoot { shown } => seq![("warning"@, "skipping path outside repo root: "@ + shown@)],
        ScanEvent::Unreadable { shown, error, .. } => seq![
            ("warning"@, "skipping unreadable file "@ + shown@ + ": "@ + error@),
        ],
        ScanEvent::Unchanged { .. } => seq![],
        ScanEvent::NoLanguage { shown, .. } => seq![("info"@, "no language for "@ + shown@ + ", skipped"@)],
        ScanEvent::ParseFailed { shown, .. } => seq![("warning"@, "parse failed for "@ + shown@ + ", skipped"@)],
        ScanEvent::Extracted { file, .. } => Seq::new(
            file.diagnostics@.len(),
            |i: int| (level_word(file.diagnostics@[i].level), file.diagnostics@[i].message@),
        ),
    }
}

/// The repo-relative path that an event records, if any.
pub open spec fn event_path(ev: ScanEvent) -> Option<String> {
    match ev {
        ScanEvent::OutsideRoot { .. } => None,
        ScanEvent::Unreadable { relative, .. } => Some(relative),
        ScanEvent::Unchanged { relative, .. } => Some(relative),
        ScanEvent::NoLanguage { relative, .. } => Some(relative),
        ScanEvent::ParseFailed { relative, .. } => Some(relative),
        ScanEvent::Extracted { relative, .. } => Some(relative),
    }
}

/// The file that an event keeps, if any.
pub open spec fn event_file(ev: ScanEvent) -> Option<GraphFile> {
    match ev {
        ScanEvent::Unchanged { file, .. } => Some(file),
        ScanEvent::Extracted { file, .. } => Some(file),
        _ => None,
    }
}

/// The sum of the node counts of the files.
pub open spec fn node_total(files: Seq<GraphFile>) -> nat
    decreases files.len(),
{
    if files.len() == 0 {
        0
    } else {
        node_total(files.drop_last()) + files.last().nodes@.len()
    }
}

impl GraphScan {
    /// The files kept are counted: every one was walked.
    pub open spec fn wf(&self) -> bool {
        self.included + self.unchanged <= self.scanned
    }

    /// An empty scan.
    pub fn new() -> (s: Self)
        ensures
            s.wf(),
            s.files@.len() == 0,
            s.scanned == 0,
            s.included == 0,
            s.unchanged == 0,
            s.current_paths@.len() == 0,
            s.diagnostics@.len() == 0,
    {
        GraphScan {
            files: Vec::new(),
            scanned: 0,
            included: 0,
            unchanged: 0,
            current_paths: Vec::new(),
            diagnostics: Vec::new(),
        }
    }

    /// Record what became of one walked file: it is counted as scanned; its
    /// repo-relative path is recorded when it has one; an unchanged file
    /// is reused and counted as unchanged, an extracted one kept and
    /// counted as included; the event's reports are added.
    pub fn record(&mut self, ev: ScanEvent)
        requires
            old(self).wf(),
            old(self).scanned < usize::MAX,
        ensures
            final(self).wf(),
            final(self).scanned == old(self).scanned + 1,
            final(self).included == old(self).included + if ev is Extracted {
                1int
            } else {
                0
            },
            final(self).unchanged == old(self).unchanged + if ev is Unchanged {
                1int
            } else {
                0
            },
            final(self).files@ == match event_file(ev) {
                Some(f) => old(self).files@.push(f),
                None => old(self).files@,
            },
            final(self).current_paths@ == match event_path(ev) {
                Some(p) => old(self).current_paths@.push(p),
                None => old(self).current_paths@,
            },
            final(self).diagnostics@.len() == old(self).diagnostics@.len() + event_reports(ev).len(),
            forall|i: int|
                0 <= i < old(self).diagnostics@.len() ==> #[trigger] final(self).diagnostics@[i] == old(
                    self,
                ).diagnostics@[i],
            forall|i: int|
                0 <= i < event_reports(ev).len() ==> report_is(
                    #[trigger] final(self).diagnostics@[old(self).diagnostics@.len() + i],
                    event_reports(ev)[i].0,
                    event_reports(ev)[i].1,
                ),
    {
        self.scanned = self.scanned + 1;
        let ghost before = self.diagnostics@;
        match ev {
            ScanEvent::OutsideRoot { shown } => {
                let message = "skipping path outside repo root: ".to_owned().concat(shown.as_str());
                self.diagnostics.push(GraphCliDiagnostic { level: "warning".to_owned(), message });
            },
            ScanEvent::Unreadable { relative, shown, error } => {
                self.current_paths.push(relative);
                let message = "skipping unreadable file ".to_owned().concat(shown.as_str()).concat(": ").concat(
                    error.as_str(),
                );
                self.diagnostics.push(GraphCliDiagnostic { level: "warning".to_owned(), message });
            },
            ScanEvent::Unchanged { relative, file } => {
                self.current_paths.push(relative);
                self.files.push(file);
                self.unchanged = self.unchanged + 1;
            },
            ScanEvent::NoLanguage { relative, shown } => {
                self.current_paths.push(relative);
                let message = "no language for ".to_owned().concat(shown.as_str()).concat(", skipped");
                self.diagnostics.push(GraphCliDiagnostic { level: "info".to_owned(), message });
            },
            ScanEvent::ParseFailed { relative, shown } => {
                self.current_paths.push(relative);
                let message = "parse failed for ".to_owned().concat(shown.as_str()).concat(", skipped");
                self.diagnostics.push(GraphCliDiagnostic { level: "warning".to_owned(), message });
            },
            ScanEvent::Extracted { relative, file } => {
                self.current_paths.push(relative);
                let mut i: usize = 0;
                while i < file.diagnostics.len()
                    invariant
                        i <= file.diagnostics@.len(),
                        self.scanned == old(self).scanned + 1,
                        self.included == old(self).included,
                        self.unchanged == old(self).unchanged,
                        self.files@ == old(self).files@,
                        self.current_paths@ == old(self).current_paths@.push(relative),
                        old(self).wf(),
                        old(self).scanned < usize::MAX,
                        self.diagnostics@.len() == before.len() + i,
                        forall|k: int| 0 <= k < before.len() ==> #[trigger] self.diagnostics@[k] == before[k],
                        forall|k: int|
                            0 <= k < i ==> report_is(
                                #[trigger] self.diagnostics@[before.len() + k],
                                level_word(file.diagnostics@[k].level),
                                file.diagnostics@[k].message@,
                            ),
                    decreases file.diagnostics@.len() - i,
                {
                    self.diagnostics.push(GraphCliDiagnostic::of(&file.diagnostics[i]));
                    i = i + 1;
                }
                self.files.push(file);
                self.included = self.included + 1;
            },
        }
    }
}

/// The snapshot of a scan's files, before canonical ordering: the
/// current schema, no identifier yet, no edges or diagnostics, and a meta
/// block that counts `files_counted` files and every node of the files.
pub fn scan_snapshot(files: Vec<GraphFile>, files_counted: usize, repo_root: String, created_at: String) -> (s:
    GraphSnapshot)
    requires
        node_total(files@) <= usize::MAX,
    ensures
        s.schema_version@ == GRAPH_SCHEMA_VERSION@,
        s.snapshot_id.0@.len() == 0,
        s.files@ == files@,
        s.edges@.len() == 0,
        s.diagnostics@.len() == 0,
        s.meta matches Some(m) && m.created_at == Some(created_at) && m.repo_root == Some(repo_root)
            && m.total_files == files_counted && m.total_nodes == node_total(files@) && m.total_edges == 0,
{
    let mut total: usize = 0;
    let mut i: usize = 0;
    while i < files.len()
        invariant
            i <= files@.len(),
            node_total(files@) <= usize::MAX,
            total == node_total(files@.take(i as int)),
        decreases files@.len() - i,
    {
        assert(files@.take(i + 1).drop_last() =~= files@.take(i as int));
        proof {
            lemma_node_total_take(files@, i + 1);
        }
        total = total + files[i].nodes.len();
        i = i + 1;
    }
    assert(files@.take(files@.len() as int) =~= files@);
    GraphSnapshot {
        schema_version: GRAPH_SCHEMA_VERSION.to_owned(),
        snapshot_id: GraphSnapshotId(String::new()),
        files,
        edges: Vec::new(),
        diagnostics: Vec::new(),
        meta: Some(
            GraphMeta {
                created_at: Some(created_at),
                repo_root: Some(repo_root),
                total_files: files_counted,
                total_nodes: total,
                total_edges: 0,
            },
        ),
    }
}

proof fn lemma_node_total_take(files: Seq<GraphFile>, k: int)
    requires
        0 <= k <= files.len(),
    ensures
        node_total(files.take(k)) <= node_total(files),
    decreases files.len(),
{
    if k < files.len() {
        lemma_node_total_take(files.drop_last(), k);
        assert(files.drop_last().take(k) =~= files.take(k));
    } else {
        assert(files.take(k) =~= files);
    }
}

/// The report of a stored scan: status `ok`, the files scanned, the files
/// kept (included or unchanged), the node total, no edges, and the scan's
/// reports.
pub fn scan_report(scan: GraphScan, snapshot_id: GraphSnapshotId, total_nodes: usize) -> (r: GraphBuildResult)
    requires
        scan.wf(),
    ensures
        r.status@ == "ok"@,
        r.snapshot_id == snapshot_id,
        r.files_scanned == scan.scanned,
        r.files_included == scan.included + scan.unchanged,
        r.total_nodes == total_nodes,
        r.total_edges == 0,
        r.diagnostics@ == scan.diagnostics@,
{
    GraphBuildResult {
        status: "ok".to_owned(),
        snapshot_id,
        files_scanned: scan.scanned,
        files_included: scan.included + scan.unchanged,
        total_nodes,
        total_edges: 0,
        diagnostics: scan.diagnostics,
    }
}

/// The default chunk options.
pub open spec fn default_chunking() -> ChunkOptions {
    ChunkOptions { max_tokens: 2000, max_chunks: 1000 }
}

/// The default symbol options.
pub open spec fn default_symbols() -> SymbolOptions {
    SymbolOptions { max_docs_len: 1000, max_symbols: 1000 }
}

/// `so` is what the grammar's tags give for the file, when it has a tags
/// query, and nothing otherwise.
pub open spec fn symbols_as_tagged(so: Option<SymbolsOutput>, has_tags: bool, path: Seq<char>, source: Seq<u8>) -> bool {
    if has_tags {
        so is Some && is_tagged_symbols(so.unwrap(), path, source, default_symbols())
    } else {
        so is None
    }
}

/// What became of a walked file that a grammar knows: parse `source` with
/// `language`; when the parser gives no tree the file failed to parse;
/// otherwise its graph record is extracted from the chunks of the tree and
/// the symbols of the grammar's tags query, when it has one. `Err` is a
/// language the parser refused.
pub fn scan_source(
    language: &tree_sitter::Language,
    tags_config: Option<&tree_sitter_tags::TagsConfiguration>,
    relative: String,
    shown: String,
    source: &[u8],
    content_hash: Option<String>,
) -> (r: Result<ScanEvent, String>)
    ensures
        match r {
            Err(_) => true,
            Ok(ScanEvent::ParseFailed { relative: rl, shown: sh }) => rl == relative && sh == shown,
            Ok(ScanEvent::Extracted { relative: rl, file }) => rl == relative && exists|
                t: SyntaxTree,
                co: ChunkOutput,
                so: Option<SymbolsOutput>,
            |
                #![trigger is_chunking(co, t, relative@, source@, default_chunking()), is_graph_file_of(file, relative@, source@, co, so, content_hash, tags_config is None)]
                {
                    &&& wf_node(t.root, source@.len(), 0)
                    &&& is_chunking(co, t, relative@, source@, default_chunking())
                    &&& symbols_as_tagged(so, tags_config is Some, relative@, source@)
                    &&& is_graph_file_of(file, relative@, source@, co, so, content_hash, tags_config is None)
                },
            Ok(_) => false,
        },
{
    match parse_source(language, source) {
        Err(e) => Err(e),
        Ok(None) => Ok(ScanEvent::ParseFailed { relative, shown }),
        Ok(Some((_tree, t))) => {
            let copts = ChunkOptions::default();
            assert(copts == default_chunking());
            let co = chunks_for_tree(&t, relative.as_str(), source, &copts);
            let sopts = SymbolOptions::default();
            assert(sopts == default_symbols());
            let so = match tags_config {
                Some(tc) => {
                    let s = symbols_for_tree(relative.as_str(), source, tc, &sopts);
                    Some(s)
                },
                None => {
                    assert(symbols_as_tagged(None, false, relative@, source@));
                    None
                },
            };
            assert(symbols_as_tagged(so, tags_config is Some, relative@, source@));
            let ghost hash = content_hash;
            let file = match &so {
                Some(s) => extract_graph_file(relative.as_str(), source, &co, Some(s), content_hash, tags_config.is_none()),
                None => extract_graph_file(relative.as_str(), source, &co, None, content_hash, tags_config.is_none()),
            };
            assert(is_chunking(co, t, relative@, source@, default_chunking()));
            assert(is_graph_file_of(file, relative@, source@, co, so, hash, tags_config is None));
            let r = Ok(ScanEvent::Extracted { relative, file });
            assert(wf_node(t.root, source@.len(), 0));
            r
        },
    }
}

} // verus!
