//! Canonical reflowing of HTML-like markup.
//!
//! The input is parsed into a tree of comments, a doctype, elements and text
//! runs ([`ast`]). Each node is mapped to a layout document, and the document
//! is rendered at the configured line width ([`format`], [`layout`]).
//!
//! Every function states what it returns over the characters of its input.
//! The grammar is defined beside the parsers, the layout of each node beside
//! the functions that build it. [`ast::guarantees`], [`ast::remainder`] and
//! [`laws`] hold what follows from these definitions; [`text`] holds the
//! scanning that the parsers share.

pub mod ast;
pub mod configuration;
pub mod format;
pub mod laws;
pub mod layout;
pub mod text;

pub use configuration::Configuration;
