//! Yarrow language front end: tokens, diagnostics, parser, type layouts and
//! target selection, with contracts checked by Verus.

pub mod analysis;
pub mod compiler;
pub mod diagnostics;
pub mod entry;
pub mod interpreter;
pub mod link;
pub mod token;
pub mod text;
pub mod parser;
pub mod project;
pub mod runtime;
pub mod session;
pub mod target;
