//! Structural code search: trigram Bloom-filter pre-filtering, query literal
//! sifting, index manifests, rewrite templates and result formatting.

pub mod bloom;
pub mod text;
pub mod trigram;
pub mod types;
pub mod paths;
pub mod index;
pub mod sieve;
pub mod memory;
pub mod output;
pub mod rewrite;
pub mod parser;
pub mod walker;
pub mod indexer;
pub mod query;
pub mod order;
pub mod tui;
pub mod extractor;
pub mod cli;
pub mod view;
pub mod syntax;
