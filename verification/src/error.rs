//! The errors of a parse, each with the place in the input where it was found.

use vstd::prelude::*;

verus! {

/// What went wrong.
#[derive(Debug, Clone, Copy, PartialEq, Eq, Hash, Structural)]
pub enum ParseErrorKind {
    /// The bytes form no token: malformed UTF-8, a bad escape, a line break
    /// in a short string, a sign without a number.
    Lexical,
    /// A token that the grammar does not allow where it stands, or a prefix
    /// that was never declared.
    Grammar,
    /// An IRI that cannot be resolved or is not valid, or a language tag that
    /// is not well-formed.
    Semantic,
    /// The input ends inside a string, an IRI, a statement or a graph block.
    UnexpectedEof,
}

/// A place in the input. Lines and columns are counted from zero, columns in
/// characters.
#[derive(Debug, Clone, Copy, PartialEq, Eq, Hash, Structural)]
pub struct TextPosition {
    pub line: u64,
    pub column: u64,
    pub offset: u64,
}

/// An error of the parse and the place of the token it was found at.
#[derive(Debug, Clone, Copy, PartialEq, Eq, Hash, Structural)]
pub struct ParseError {
    pub line: u64,
    pub column: u64,
    pub byte_offset: u64,
    pub kind: ParseErrorKind,
}

impl ParseError {
    /// The error of a kind at a place.
    pub open spec fn at(position: TextPosition, kind: ParseErrorKind) -> ParseError {
        ParseError {
            line: position.line,
            column: position.column,
            byte_offset: position.offset,
            kind,
        }
    }

    /// Builds the error of a kind at a place.
    pub fn new(position: TextPosition, kind: ParseErrorKind) -> (error: ParseError)
        ensures
            error == ParseError::at(position, kind),
    {
        ParseError {
            line: position.line,
            column: position.column,
            byte_offset: position.offset,
            kind,
        }
    }

    /// What an error of a kind is called.
    pub open spec fn name_of(kind: ParseErrorKind) -> Seq<char> {
        match kind {
            ParseErrorKind::Lexical => "malformed token"@,
            ParseErrorKind::Grammar => "unexpected token"@,
            ParseErrorKind::Semantic => "invalid IRI or language tag"@,
            ParseErrorKind::UnexpectedEof => "unexpected end of input"@,
        }
    }

    /// A few words that say what went wrong.
    pub fn message(&self) -> (text: String)
        ensures
            text@ == ParseError::name_of(self.kind),
    {
        match self.kind {
            ParseErrorKind::Lexical => "malformed token".to_owned(),
            ParseErrorKind::Grammar => "unexpected token".to_owned(),
            ParseErrorKind::Semantic => "invalid IRI or language tag".to_owned(),
            ParseErrorKind::UnexpectedEof => "unexpected end of input".to_owned(),
        }
    }
}

} // verus!
