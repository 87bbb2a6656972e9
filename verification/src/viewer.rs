//! The byte viewer's model: tree nodes with plain byte ranges, background messages, and the
//! output policy of its logger.
pub mod hex;
pub mod logger;
pub mod state;
pub mod tree;
