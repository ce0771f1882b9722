//! Result types of the bundle protocol.

use vstd::prelude::*;

use crate::text::copy_string;

verus! {

/// Confidence level for a result.
#[derive(Clone, Copy, Debug, PartialEq, Eq, Structural)]
pub enum Confidence {
    Exact,
    High,
    Medium,
    Low,
}

/// The lowercase name of a confidence level.
pub open spec fn confidence_name(c: Confidence) -> Seq<char> {
    match c {
        Confidence::Exact => "exact"@,
        Confidence::High => "high"@,
        Confidence::Medium => "medium"@,
        Confidence::Low => "low"@,
    }
}

impl Confidence {
    /// The lowercase name of the level.
    pub fn as_str(&self) -> (s: &'static str)
        ensures
            s@ == confidence_name(*self),
    {
        match self {
            Confidence::Exact => "exact",
            Confidence::High => "high",
            Confidence::Medium => "medium",
            Confidence::Low => "low",
        }
    }
}

impl Default for Confidence {
    fn default() -> (r: Self)
        ensures
            r == Confidence::Medium,
    {
        Confidence::Medium
    }
}

/// Provenance metadata attached to every result.
#[derive(Clone, Debug, PartialEq, Eq)]
pub struct Provenance {
    pub strategy: String,
    pub confidence: Confidence,
    pub graph_snapshot_id: String,
    pub orientation_freshness: String,
}

impl Default for Provenance {
    fn default() -> (p: Self)
        ensures
            p.strategy@ == "unknown"@,
            p.confidence == Confidence::Medium,
            p.graph_snapshot_id@ == "unknown"@,
            p.orientation_freshness@ == "unknown"@,
    {
        Provenance {
            strategy: "unknown".to_owned(),
            confidence: Confidence::Medium,
            graph_snapshot_id: "unknown".to_owned(),
            orientation_freshness: "unknown".to_owned(),
        }
    }
}

impl Provenance {
    /// Provenance with an unknown graph state.
    pub fn new(strategy: &str, confidence: Confidence) -> (p: Self)
        ensures
            p.strategy@ == strategy@,
            p.confidence == confidence,
            p.graph_snapshot_id@ == "unknown"@,
            p.orientation_freshness@ == "unknown"@,
    {
        Provenance {
            strategy: strategy.to_owned(),
            confidence,
            graph_snapshot_id: "unknown".to_owned(),
            orientation_freshness: "unknown".to_owned(),
        }
    }

    /// The same provenance with the graph snapshot and its freshness set.
    pub fn with_graph_state(self, snapshot_id: &str, freshness: &str) -> (p: Self)
        ensures
            p.strategy == self.strategy,
            p.confidence == self.confidence,
            p.graph_snapshot_id@ == snapshot_id@,
            p.orientation_freshness@ == freshness@,
    {
        let mut p = self;
        p.graph_snapshot_id = snapshot_id.to_owned();
        p.orientation_freshness = freshness.to_owned();
        p
    }

    /// A copy of this provenance.
    pub fn copy(&self) -> (r: Self)
        ensures
            r == *self,
    {
        Provenance {
            strategy: copy_string(&self.strategy),
            confidence: self.confidence,
            graph_snapshot_id: copy_string(&self.graph_snapshot_id),
            orientation_freshness: copy_string(&self.orientation_freshness),
        }
    }
}

/// A single AST cell included in a bundle.
#[derive(Debug, PartialEq, Eq)]
pub struct AstCell {
    pub stable_id: String,
    pub kind: String,
    pub name: Option<String>,
    pub byte_range: (usize, usize),
    pub estimated_tokens: usize,
    pub confidence: Confidence,
}

/// A chunk that was omitted from the bundle.
#[derive(Clone, Debug, PartialEq, Eq)]
pub struct OmittedChunk {
    pub stable_id: String,
    pub reason: String,
}

/// Candidate for ambiguous stable ID resolution.
#[derive(Clone, Debug, PartialEq, Eq)]
pub struct Candidate {
    pub anchor_byte: usize,
    pub kind: String,
    pub name: Option<String>,
}

/// Successful bundle result.
#[derive(Debug, PartialEq, Eq)]
pub struct Bundle {
    pub version: u32,
    pub path: String,
    pub cells: Vec<AstCell>,
    pub omitted: Vec<OmittedChunk>,
    pub provenance: Provenance,
}

/// Not found result.
#[derive(Clone, Debug, PartialEq, Eq)]
pub struct NotFound {
    pub path: String,
    pub stable_id: String,
    pub reason: String,
    pub provenance: Provenance,
}

/// Ambiguous stable ID result.
#[derive(Clone, Debug, PartialEq, Eq)]
pub struct AmbiguousStableId {
    pub path: String,
    pub stable_id: String,
    pub candidates: Vec<Candidate>,
    pub reason: String,
    pub provenance: Provenance,
}

/// Exhausted budget result.
#[derive(Clone, Debug, PartialEq, Eq)]
pub struct Exhausted {
    pub path: String,
    pub stable_id: String,
    pub omitted: Vec<OmittedChunk>,
    pub provenance: Provenance,
}

/// Unknown cross-file reference result.
#[derive(Clone, Debug, PartialEq, Eq)]
pub struct UnknownCrossFile {
    pub path: String,
    pub stable_id: String,
    pub reason: String,
}

/// Union of all possible v1 results.
#[derive(Debug, PartialEq, Eq)]
pub enum BundleResult {
    Bundle(Bundle),
    NotFound(NotFound),
    AmbiguousStableId(AmbiguousStableId),
    Exhausted(Exhausted),
    UnknownCrossFile(UnknownCrossFile),
}

/// Unsupported tier result (typed error).
#[derive(Clone, Debug, PartialEq, Eq)]
pub struct UnsupportedTier {
    pub tier: String,
    pub supported: Vec<String>,
}

/// Unsupported format result (typed error).
#[derive(Clone, Debug, PartialEq, Eq)]
pub struct UnsupportedFormat {
    pub format: String,
    pub supported: Vec<String>,
}

/// Union of possible validation errors before processing.
#[derive(Clone, Debug, PartialEq, Eq)]
pub enum ValidationError {
    UnsupportedTier(UnsupportedTier),
    UnsupportedFormat(UnsupportedFormat),
    InvalidStableId { message: String },
    PathTraversal { message: String },
}

} // verus!

verus! {

impl crate::dup::Duplicate for AstCell {
    fn dup(&self) -> (r: Self) {
        AstCell {
            stable_id: copy_string(&self.stable_id),
            kind: copy_string(&self.kind),
            name: crate::text::copy_opt_string(&self.name),
            byte_range: self.byte_range,
            estimated_tokens: self.estimated_tokens,
            confidence: self.confidence,
        }
    }
}

impl crate::dup::Duplicate for OmittedChunk {
    fn dup(&self) -> (r: Self) {
        OmittedChunk { stable_id: copy_string(&self.stable_id), reason: copy_string(&self.reason) }
    }
}

impl crate::dup::Duplicate for Candidate {
    fn dup(&self) -> (r: Self) {
        Candidate {
            anchor_byte: self.anchor_byte,
            kind: copy_string(&self.kind),
            name: crate::text::copy_opt_string(&self.name),
        }
    }
}

} // verus!
