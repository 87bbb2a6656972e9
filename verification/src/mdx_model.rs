//! The MDX data model: track commands, tones and documents.
pub mod command;
pub mod document;
pub mod layout;
