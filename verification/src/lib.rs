//! A small line-oriented markdown engine: a block parser that turns raw text
//! into a sequence of typed document nodes, and a translator that renders
//! those nodes as HTML with a caller-supplied styling class.

pub mod cli;
pub mod dist;
pub mod laws;
pub mod parser;
pub mod translate;
pub mod text;
