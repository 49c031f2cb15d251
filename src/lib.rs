//! Symbol catalogs extracted from a repository, the filters that narrow them,
//! a token-budget slicer, and the decision logic of a tool-calling search loop
//! and of a per-record classifier driven by a language model.

pub mod blacklist;
pub mod classify;
pub mod config;
pub mod ctags;
pub mod ingest;
pub mod json;
pub mod paths;
pub mod search;
pub mod slicing;
pub mod text;
