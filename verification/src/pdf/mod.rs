pub mod delete;
pub mod dictionary;
pub mod document;
pub mod error;
pub mod graph;
pub mod integrity;
pub mod merge;
pub mod object;
pub mod page_tree;
pub mod shape;
pub mod split;
pub mod utils;

pub use delete::delete_pages;
pub use error::PdfError;
pub use merge::merge_pdfs;
pub use split::split_pdfs;
