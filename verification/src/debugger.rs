//! The source-tree debugger's model: tree nodes, lazy loading, selection and byte diffs.
pub mod ast;
pub mod diff;
pub mod lazy;
pub mod state;
pub mod tree;

pub use ast::{AstBuildMessage, AstNode};

