//! Tokens of the Event Model language: their kinds, where they were found
//! in the input, and the errors of lexical analysis.

use crate::infrastructure::types::{Identifier, NonEmptyString, NonNegativeInt};
use vstd::prelude::*;

verus! {

/// A token produced by the lexer.
#[derive(Debug, Clone, PartialEq)]
pub struct Token {
    /// The type and value of the token.
    pub kind: TokenKind,
    /// The source location of the token.
    pub span: Span,
}

/// All possible token types in the Event Model DSL.
#[derive(Debug, Clone, PartialEq)]
pub enum TokenKind {
    // Keywords
    /// `@title` keyword for model title.
    AtTitle,
    /// `@description` keyword for model description.
    AtDescription,
    /// `swimlane` keyword for defining swimlanes.
    Swimlane,
    /// `wireframe` keyword for UI mockups.
    Wireframe,
    /// `command` keyword for user actions.
    Command,
    /// `event` keyword for state changes.
    Event,
    /// `projection` keyword for read models.
    Projection,
    /// `query` keyword for data retrieval.
    Query,
    /// `automation` keyword for system triggers.
    Automation,
    /// `slice` keyword for vertical feature divisions.
    Slice,
    /// `inputs` keyword for input fields.
    Inputs,
    /// `outputs` keyword for output fields.
    Outputs,
    /// `actor` keyword for command actors.
    Actor,
    /// `payload` keyword for command data.
    Payload,
    /// `timestamp` keyword for event ordering.
    Timestamp,
    /// `data` keyword for event data.
    Data,
    /// `sources` keyword for projection sources.
    Sources,
    /// `fields` keyword for projection fields.
    Fields,
    /// `trigger` keyword for automation triggers.
    Trigger,
    /// `action` keyword for automation actions.
    Action,
    /// `contains` keyword for slice contents.
    Contains,
    /// `given_when_then` keyword for acceptance criteria.
    GivenWhenThen,
    /// `given` keyword for preconditions.
    Given,
    /// `when` keyword for actions.
    When,
    /// `then` keyword for expectations.
    Then,
    /// `link` keyword for documentation links.
    Link,

    // Literals
    /// String literal value.
    StringLiteral(NonEmptyString),
    /// Numeric literal value.
    NumberLiteral(NonNegativeInt),

    // Identifiers
    /// User-defined identifier.
    Identifier(Identifier),

    // Punctuation
    /// Opening brace `{`.
    LeftBrace,
    /// Closing brace `}`.
    RightBrace,
    /// Opening bracket `[`.
    LeftBracket,
    /// Closing bracket `]`.
    RightBracket,
    /// Colon `:`.
    Colon,
    /// Comma `,`.
    Comma,

    // End of file
    /// End of input marker.
    Eof,
}

/// Source location information for a token.
#[derive(Debug, Clone, PartialEq)]
pub struct Span {
    /// Starting position of the token.
    pub start: Position,
    /// Ending position of the token.
    pub end: Position,
}

/// A position in the source text.
#[derive(Debug, Clone, PartialEq)]
pub struct Position {
    /// Line number (1-indexed).
    pub line: LineNumber,
    /// Column number (1-indexed).
    pub column: ColumnNumber,
    /// Byte offset from the start of input.
    pub byte_offset: ByteOffset,
}

/// A line number, counted from 1.
#[derive(Debug, Clone, Copy, PartialEq, Eq, Structural, PartialOrd, Ord)]
pub struct LineNumber(u32);

impl LineNumber {
    /// The line number; lines are counted from 1.
    pub fn new(line: u32) -> (r: Self)
        requires
            line > 0,
        ensures
            r.value() == line,
    {
        LineNumber(line)
    }

    /// The number.
    pub closed spec fn spec_value(self) -> u32 {
        self.0
    }

    /// The number.
    #[verifier::when_used_as_spec(spec_value)]
    pub fn value(self) -> (r: u32)
        ensures
            r == self.spec_value(),
    {
        self.0
    }
}

/// A column number, counted from 1.
#[derive(Debug, Clone, Copy, PartialEq, Eq, Structural, PartialOrd, Ord)]
pub struct ColumnNumber(u32);

impl ColumnNumber {
    /// The column number; columns are counted from 1.
    pub fn new(column: u32) -> (r: Self)
        requires
            column > 0,
        ensures
            r.value() == column,
    {
        ColumnNumber(column)
    }

    /// The number.
    pub closed spec fn spec_value(self) -> u32 {
        self.0
    }

    /// The number.
    #[verifier::when_used_as_spec(spec_value)]
    pub fn value(self) -> (r: u32)
        ensures
            r == self.spec_value(),
    {
        self.0
    }
}

/// Byte offset in the input.
pub type ByteOffset = usize;

/// Lexical errors.
#[derive(Debug, Clone, PartialEq, Eq, Structural)]
pub enum LexError {
    /// An unexpected character, with its line and column.
    UnexpectedCharacter(char, u32, u32),
    /// A string literal without its closing quote, with line and column.
    UnterminatedString(u32, u32),
    /// A number literal that does not read, with line and column.
    InvalidNumber(u32, u32),
    /// An identifier that does not read, with line and column.
    InvalidIdentifier(u32, u32),
}

} // verus!
