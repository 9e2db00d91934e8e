//! A markup-document parser with a verified document model.
//!
//! The crate parses a textual markup document into a tree of nodes and
//! parses any embedded style text into a structured style-sheet model.
//! Every parser is specified by a recursive grammar written as spec
//! functions, and the executable parsers are proved to return exactly
//! what the grammar says, including the position and kind of the first
//! error on malformed input.

pub mod css;
pub mod dom;
pub mod html;
pub mod scan;
