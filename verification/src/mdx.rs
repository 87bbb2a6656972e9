//! Parse MXDRV MML source and compile it into a typed MDX document.
//!
//! [`parse`] turns source text into an [`MmlDocument`]; [`compile`] lowers that
//! syntax tree into an [`crate::mdx_model::document::MdxDocument`]. Parsing and
//! compilation are separate so callers can validate or inspect the parsed
//! commands before generating output.
pub mod compat;
pub mod compile;
pub mod lowering;
pub mod mml;
pub mod parse;


pub use compile::{compile, CompileError};
pub use mml::{
    Accidental, MmlCommand, MmlDocument, MmlLength, MmlTrack, MmlVoice, ParseError,
};
pub use parse::parse;

