//! What loading and writing hand to the merge and take from it.

pub mod reader;
pub mod writer;
