use vstd::prelude::*;

verus! {

/// Why a raw request could not be turned into a `Request`.
#[derive(Debug, Clone, PartialEq, Eq)]
pub enum ParseError {
    /// The buffer holds no line at all.
    EmptyRequest,
    /// The request line holds no token.
    MissingMethod,
    /// The request line holds one token only.
    MissingPath,
    /// The request line holds two tokens only.
    MissingVersion,
    /// The method token names no supported method.
    UnsupportedMethod(String),
    /// A header line lacks the `": "` separator.
    InvalidHeaderLine,
}

/// A `ParseError` as plain values.
pub enum ParseErrorView {
    EmptyRequest,
    MissingMethod,
    MissingPath,
    MissingVersion,
    UnsupportedMethod(Seq<char>),
    InvalidHeaderLine,
}

impl View for ParseError {
    type V = ParseErrorView;

    open spec fn view(&self) -> ParseErrorView {
        match self {
            ParseError::EmptyRequest => ParseErrorView::EmptyRequest,
            ParseError::MissingMethod => ParseErrorView::MissingMethod,
            ParseError::MissingPath => ParseErrorView::MissingPath,
            ParseError::MissingVersion => ParseErrorView::MissingVersion,
            ParseError::UnsupportedMethod(tok) => ParseErrorView::UnsupportedMethod(tok@),
            ParseError::InvalidHeaderLine => ParseErrorView::InvalidHeaderLine,
        }
    }
}

} // verus!
