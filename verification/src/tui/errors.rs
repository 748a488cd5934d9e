//! What can go wrong in the front end.

use crate::pdf::error::{error_text, PdfError, PdfErrorView};
use crate::text::{decimal, push_decimal};
use vstd::prelude::*;

verus! {

/// Why the front end could not do what the user asked for.
#[derive(Debug, PartialEq, Eq)]
pub enum TuiError {
    FileNotFound { path: String },
    InvalidPdf { path: String },
    InvalidPageRange { input: String },
    InsufficientFiles { count: usize },
    TooManyFiles { count: usize },
    PdfOperation { source: PdfError },
}

/// What a check of the front end yields.
pub type TuiResult<T> = Result<T, TuiError>;

/// A `TuiError` with its texts as character sequences.
pub enum TuiErrorView {
    FileNotFound { path: Seq<char> },
    InvalidPdf { path: Seq<char> },
    InvalidPageRange { input: Seq<char> },
    InsufficientFiles { count: usize },
    TooManyFiles { count: usize },
    PdfOperation { source: PdfErrorView },
}

impl View for TuiError {
    type V = TuiErrorView;

    open spec fn view(&self) -> TuiErrorView {
        match self {
            TuiError::FileNotFound { path } => TuiErrorView::FileNotFound { path: path@ },
            TuiError::InvalidPdf { path } => TuiErrorView::InvalidPdf { path: path@ },
            TuiError::InvalidPageRange { input } => TuiErrorView::InvalidPageRange {
                input: input@,
            },
            TuiError::InsufficientFiles { count } => TuiErrorView::InsufficientFiles {
                count: *count,
            },
            TuiError::TooManyFiles { count } => TuiErrorView::TooManyFiles { count: *count },
            TuiError::PdfOperation { source } => TuiErrorView::PdfOperation { source: source@ },
        }
    }
}

/// The text that describes an error to the user.
pub open spec fn tui_error_text(e: TuiErrorView) -> Seq<char> {
    match e {
        TuiErrorView::FileNotFound { path } => "File not found: "@ + path,
        TuiErrorView::InvalidPdf { path } => "Invalid PDF file: "@ + path,
        TuiErrorView::InvalidPageRange { input } => "Invalid page range: "@ + input,
        TuiErrorView::InsufficientFiles { count } => "Not enough files for merge (need at least 2, got "@
            + decimal(count as nat) + ")"@,
        TuiErrorView::TooManyFiles { count } => "Too many files for delete operation (need exactly 1, got "@
            + decimal(count as nat) + ")"@,
        TuiErrorView::PdfOperation { source } => "PDF operation failed: "@ + error_text(source),
    }
}

impl TuiError {
    /// The text that describes this error to the user.
    pub fn message(&self) -> (s: String)
        ensures
            s@ == tui_error_text(self@),
    {
        match self {
            TuiError::FileNotFound { path } => {
                let mut s = String::from_str("File not found: ");
                s.append(path.as_str());
                s
            },
            TuiError::InvalidPdf { path } => {
                let mut s = String::from_str("Invalid PDF file: ");
                s.append(path.as_str());
                s
            },
            TuiError::InvalidPageRange { input } => {
                let mut s = String::from_str("Invalid page range: ");
                s.append(input.as_str());
                s
            },
            TuiError::InsufficientFiles { count } => {
                let mut s = String::from_str("Not enough files for merge (need at least 2, got ");
                push_decimal(&mut s, *count as u64);
                s.append(")");
                s
            },
            TuiError::TooManyFiles { count } => {
                let mut s = String::from_str(
                    "Too many files for delete operation (need exactly 1, got ",
                );
                push_decimal(&mut s, *count as u64);
                s.append(")");
                s
            },
            TuiError::PdfOperation { source } => {
                let mut s = String::from_str("PDF operation failed: ");
                let text = source.message();
                s.append(text.as_str());
                s
            },
        }
    }
}

} // verus!
