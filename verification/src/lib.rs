//! Page-level recomposition of PDF documents: merging documents, deleting
//! pages and splitting a document into parts, together with the state of the
//! terminal front end that drives these operations.

pub mod cli;
pub mod pdf;
pub mod text;
pub mod tui;
