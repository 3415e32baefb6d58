//! Parse errors: each carries the offending token where there is one, and the
//! 0-based source location that diagnostics report 1-based.

use vstd::prelude::*;

use crate::lexer::{Token, TokenLocation, TokenView};
use crate::style::{StyleTarget, StyleTargetView};

verus! {

/// The category of token that a parse position required.
#[derive(Clone, Copy, Debug, PartialEq, Eq, Structural)]
pub enum Expectation {
    /// a content type keyword or an element name
    ContentTypeOrName,
    /// a content type keyword
    ContentType,
    /// a style target identifier
    StyleTargetName,
    /// a style directive, that is a property name
    StyleDirective,
    /// a parameter value
    ParameterValue,
    /// a string literal
    StringValue,
}

/// A failure while loading slide source text.
#[derive(Debug, PartialEq, Eq)]
pub enum FoliumError {
    /// An identifier stood where a content type keyword was required, but
    /// names no known type.
    UnknownType { location: TokenLocation, offending_token: String },
    /// A content type keyword was used as an element name.
    UseOfContentTypeName { location: TokenLocation, word: String },
    /// A specific token was required but another was found.
    ExpectedToken { location: TokenLocation, expected: Token, got: Token },
    /// A category of token was required but another token was found.
    ExpectedReason { location: TokenLocation, expected: Expectation, got: Token },
    /// The input ended while a specific token was still expected.
    UnexpectedFileEndWithToken { location: TokenLocation, expected: Token },
    /// The input ended while a category of token was still expected.
    UnexpectedFileEndWithReason { location: TokenLocation, expected: Expectation },
    /// The same style target was given twice within one slide.
    DuplicateStyleDefinition { location: TokenLocation, target: StyleTarget },
}

/// The mathematical shape of a load failure.
pub enum FoliumErrorView {
    UnknownType { location: TokenLocation, offending_token: Seq<char> },
    UseOfContentTypeName { location: TokenLocation, word: Seq<char> },
    ExpectedToken { location: TokenLocation, expected: TokenView, got: TokenView },
    ExpectedReason { location: TokenLocation, expected: Expectation, got: TokenView },
    UnexpectedFileEndWithToken { location: TokenLocation, expected: TokenView },
    UnexpectedFileEndWithReason { location: TokenLocation, expected: Expectation },
    DuplicateStyleDefinition { location: TokenLocation, target: StyleTargetView },
}

impl View for FoliumError {
    type V = FoliumErrorView;

    open spec fn view(&self) -> FoliumErrorView {
        match self {
            FoliumError::UnknownType { location, offending_token } => FoliumErrorView::UnknownType {
                location: *location,
                offending_token: offending_token@,
            },
            FoliumError::UseOfContentTypeName { location, word } => (
            FoliumErrorView::UseOfContentTypeName { location: *location, word: word@ }),
            FoliumError::ExpectedToken { location, expected, got } => (
            FoliumErrorView::ExpectedToken {
                location: *location,
                expected: expected@,
                got: got@,
            }),
            FoliumError::ExpectedReason { location, expected, got } => (
            FoliumErrorView::ExpectedReason {
                location: *location,
                expected: *expected,
                got: got@,
            }),
            FoliumError::UnexpectedFileEndWithToken { location, expected } => (
            FoliumErrorView::UnexpectedFileEndWithToken {
                location: *location,
                expected: expected@,
            }),
            FoliumError::UnexpectedFileEndWithReason { location, expected } => (
            FoliumErrorView::UnexpectedFileEndWithReason {
                location: *location,
                expected: *expected,
            }),
            FoliumError::DuplicateStyleDefinition { location, target } => (
            FoliumErrorView::DuplicateStyleDefinition { location: *location, target: target@ }),
        }
    }
}

} // verus!
