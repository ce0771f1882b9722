//! Token-efficient code context extracted from syntax trees: stable chunk
//! identity, budgeted bundles, invalidation, repo graphs and canonical
//! S-expression output.

pub mod text;
pub mod sort;
pub mod dup;
pub mod schema;
pub mod identity;
pub mod bundle;
pub mod protocol;
pub mod sexpr;
pub mod graph;
pub mod chunk;
pub mod parsing;
pub mod symbols;
pub mod pagerank;
pub mod orientation;
pub mod invalidation;
pub mod compact;
pub mod snapshot_cache;
pub mod cli;
