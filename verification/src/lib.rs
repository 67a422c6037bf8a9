//! Merging of PDF object graphs: page-tree splicing, page extraction,
//! rotation, outlines, document information and identifier renumbering,
//! each stated as a contract over a mathematical model of the graph.

pub mod cli;
pub mod config;
pub mod document;
pub mod error;
pub mod io;
pub mod merge;
pub mod names;
pub mod object;
pub mod output;
pub mod overwrite;
pub mod paths;
pub mod text;
pub mod time;
pub mod utils;
pub mod validation;
