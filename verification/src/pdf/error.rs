//! The failures that a document operation can end in.

use crate::text::{decimal, push_decimal};
use vstd::prelude::*;

verus! {

/// Why an operation on documents did not produce its result.
#[derive(Debug, Clone, PartialEq, Eq)]
pub enum PdfError {
    /// The source at this path could not be read as a document.
    SourceLoadFailure(String),
    /// A page number (first field) lies outside `1..=total` (second field).
    InvalidPageNumber(u32, usize),
    /// The operation would leave a document without pages.
    EmptyResultDocument,
    /// This token of a page specification is not a page or a range.
    InvalidRangeSyntax(String),
    /// The page specification names no segment at all.
    EmptySegmentSpecification,
    /// The result could not be written to this path.
    OutputWriteFailure(String),
    /// The target document has no object number left for a new object.
    ObjectIdOverflow,
}

/// A `PdfError` with its strings as character sequences.
pub enum PdfErrorView {
    SourceLoadFailure(Seq<char>),
    InvalidPageNumber(u32, usize),
    EmptyResultDocument,
    InvalidRangeSyntax(Seq<char>),
    EmptySegmentSpecification,
    OutputWriteFailure(Seq<char>),
    ObjectIdOverflow,
}

impl View for PdfError {
    type V = PdfErrorView;

    open spec fn view(&self) -> PdfErrorView {
        match self {
            PdfError::SourceLoadFailure(p) => PdfErrorView::SourceLoadFailure(p@),
            PdfError::InvalidPageNumber(n, t) => PdfErrorView::InvalidPageNumber(*n, *t),
            PdfError::EmptyResultDocument => PdfErrorView::EmptyResultDocument,
            PdfError::InvalidRangeSyntax(t) => PdfErrorView::InvalidRangeSyntax(t@),
            PdfError::EmptySegmentSpecification => PdfErrorView::EmptySegmentSpecification,
            PdfError::OutputWriteFailure(p) => PdfErrorView::OutputWriteFailure(p@),
            PdfError::ObjectIdOverflow => PdfErrorView::ObjectIdOverflow,
        }
    }
}

/// The text that describes an error to a person.
pub open spec fn error_text(e: PdfErrorView) -> Seq<char> {
    match e {
        PdfErrorView::SourceLoadFailure(p) => "Failed to load PDF '"@ + p + "'"@,
        PdfErrorView::InvalidPageNumber(n, t) => "Invalid page number: "@ + decimal(n as nat)
            + ". PDF has "@ + decimal(t as nat) + " pages (1-"@ + decimal(t as nat) + ")"@,
        PdfErrorView::EmptyResultDocument => "The resulting PDF would have no pages"@,
        PdfErrorView::InvalidRangeSyntax(t) => "Invalid range format: "@ + t,
        PdfErrorView::EmptySegmentSpecification => "No valid segments found"@,
        PdfErrorView::OutputWriteFailure(p) => "Failed to save PDF '"@ + p + "'"@,
        PdfErrorView::ObjectIdOverflow => "Too many objects for one PDF"@,
    }
}

impl PdfError {
    /// The text that describes this error to a person.
    pub fn message(&self) -> (s: String)
        ensures
            s@ == error_text(self@),
    {
        match self {
            PdfError::SourceLoadFailure(p) => {
                let mut s = String::from_str("Failed to load PDF '");
                s.append(p.as_str());
                s.append("'");
                s
            },
            PdfError::InvalidPageNumber(n, t) => {
                let mut s = String::from_str("Invalid page number: ");
                push_decimal(&mut s, *n as u64);
                s.append(". PDF has ");
                push_decimal(&mut s, *t as u64);
                s.append(" pages (1-");
                push_decimal(&mut s, *t as u64);
                s.append(")");
                s
            },
            PdfError::EmptyResultDocument => String::from_str("The resulting PDF would have no pages"),
            PdfError::InvalidRangeSyntax(t) => {
                let mut s = String::from_str("Invalid range format: ");
                s.append(t.as_str());
                s
            },
            PdfError::EmptySegmentSpecification => String::from_str("No valid segments found"),
            PdfError::OutputWriteFailure(p) => {
                let mut s = String::from_str("Failed to save PDF '");
                s.append(p.as_str());
                s.append("'");
                s
            },
            PdfError::ObjectIdOverflow => String::from_str("Too many objects for one PDF"),
        }
    }
}

} // verus!
