//! Streaming extraction of readable content from a word-processing
//! document's structural markup.
//!
//! The input is a flat, ordered stream of structural events (element open,
//! element close, text fragments) produced by an external tokenizer. The
//! library reconstructs the tree-shaped grammar of paragraphs, style
//! references, text runs, tables, rows and cells by recursive descent over
//! that flat stream, and reports each completed unit through a callback
//! interface, in document order.

pub mod callbacks;
pub mod events;
pub mod list_parser;
pub mod model;
pub mod mso_doc;
pub mod parameters;
