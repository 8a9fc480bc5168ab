//! A linter and fixer for a dependency graph of data-transformation
//! definitions: it evaluates a configurable set of rules over the node
//! set, computes fixes, and says how the backing files are to change.

pub mod text;
pub mod lists;
pub mod sorting;
pub mod paths;
pub mod config;
pub mod config_file;
pub mod manifest;
pub mod graph;
pub mod change_descriptors;
pub mod osmosis;
pub mod check;
pub mod codegen;
pub mod writeback;

pub use check::check_all;
pub use check::check_all_with_report;
pub use check::CheckEvent;
