//! MXDRV MML parsing, MDX compilation and byte-range source mapping.
use vstd::prelude::*;

pub mod cli;
pub mod columns;
pub mod debugger;
pub mod input;
pub mod mdx;
pub mod text;
pub mod viewer;
pub mod mdx_model;
pub mod samples;
pub mod sourcemap;
pub mod stream;

verus! {

} // verus!
