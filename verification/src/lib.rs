//! Reconstructing a directory tree from a declarative tree dump.
//!
//! A dump is an ordered document of typed entries: directories, empty
//! files, and a trailing summary report. The heart of the crate is the
//! materializer: walking an entry yields the ordered filesystem actions
//! its subtree stands for, each at a path composed segment by segment
//! under the output directory. Planning is pure and fully specified; a
//! thin caller performs the actions on disk and prints the summaries.

pub mod fsmodel;
pub mod plan;
pub mod report;
pub mod tree;
