//! A width-aware pretty-printing engine.
//!
//! Syntax-tree-to-text converters assemble a document: a tree of formatting
//! instructions (literal text, breakable lines, groups, indentation, fill,
//! deferred line suffixes). The printer lays a finished document out into
//! final text, deciding for each group whether its breakable lines render
//! flat (as spaces) or broken (as real newlines), by checking whether the
//! group's flat rendering fits within the configured print width.

pub mod builders;
pub mod dispatch;
pub mod laws;
pub mod doc;
pub mod options;
pub mod printer;
pub mod trivia;
