//! A directory-tree visualizer: a layered ignore policy, optional git
//! awareness, size-aware pruning, a pattern search and a one-level summary,
//! all computed over an in-memory snapshot of the tree and proved against
//! their specifications.

pub mod cli;
pub mod config;
pub mod display;
pub mod git;
pub mod histogram;
pub mod ignores;
pub mod listing;
pub mod order;
pub mod paths;
pub mod pattern;
pub mod search;
pub mod store;
pub mod summary;
pub mod text;
pub mod tree;
pub mod utils;
