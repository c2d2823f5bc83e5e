//! Markdown documentation for Rust crates, generated from a crate description:
//! the item dependency graph, the selection of documented items, and the
//! formatting of declarations.

pub mod model;
pub mod graph;
pub mod deps;
pub mod text;
pub mod select;

pub mod format;
pub mod decl;
pub mod versions;
pub mod cli;

pub mod equal;
pub mod impls;
pub mod traits;
pub mod markdown;
pub mod order;
pub mod printer;
pub mod dump;
