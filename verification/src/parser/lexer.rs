//! Tokens of the Event Model language, with validated literal values,
//! their positions in the input, and the errors of lexical analysis.

use crate::infrastructure::types::{is_identifier, Identifier, ModelValueError};
use vstd::prelude::*;

verus! {

#[derive(Debug, Clone, PartialEq)]
pub struct Token {
    pub kind: TokenKind,
    pub span: Span,
}

#[derive(Debug, Clone, PartialEq)]
pub enum TokenKind {
    // Keywords
    AtTitle,
    AtDescription,
    Swimlane,
    Wireframe,
    Command,
    Event,
    Projection,
    Query,
    Automation,
    Slice,
    Inputs,
    Outputs,
    Actor,
    Payload,
    Timestamp,
    Data,
    Sources,
    Fields,
    Trigger,
    Action,
    Contains,
    GivenWhenThen,
    Given,
    When,
    Then,
    Link,
    
    // Literals
    StringLiteral(LexedString),
    NumberLiteral(LexedNumber),
    
    // Identifiers
    Identifier(LexedIdentifier),
    
    // Punctuation
    LeftBrace,
    RightBrace,
    LeftBracket,
    RightBracket,
    Colon,
    Comma,
    
    // End of file
    Eof,
}

#[derive(Debug, Clone, PartialEq)]
pub struct Span {
    pub start: Position,
    pub end: Position,
}

#[derive(Debug, Clone, PartialEq)]
pub struct Position {
    pub line: LineNumber,
    pub column: ColumnNumber,
    pub byte_offset: ByteOffset,
}

/// A line number, counted from 1.
#[derive(Debug, Clone, Copy, PartialEq, Eq, Structural, PartialOrd, Ord)]
pub struct LineNumber(u32);

impl View for LineNumber {
    type V = u32;

    closed spec fn view(&self) -> u32 {
        self.0
    }
}

impl LineNumber {
    #[verifier::type_invariant]
    spec fn inv(self) -> bool {
        self.0 > 0
    }

    /// Accepts any value but zero.
    pub fn try_new(value: u32) -> (r: Result<Self, ModelValueError>)
        ensures
            value > 0 <==> r is Ok,
            r matches Ok(v) ==> v@ == value,
            r matches Err(e) ==> e == ModelValueError::NotPositive,
    {
        if value > 0 {
            Ok(LineNumber(value))
        } else {
            Err(ModelValueError::NotPositive)
        }
    }

    /// The wrapped value; never zero.
    pub fn into_inner(self) -> (r: u32)
        ensures
            r == self@,
            r > 0,
    {
        proof {
            use_type_invariant(&self);
        }
        self.0
    }
}
/// A column number, counted from 1.
#[derive(Debug, Clone, Copy, PartialEq, Eq, Structural, PartialOrd, Ord)]
pub struct ColumnNumber(u32);

impl View for ColumnNumber {
    type V = u32;

    closed spec fn view(&self) -> u32 {
        self.0
    }
}

impl ColumnNumber {
    #[verifier::type_invariant]
    spec fn inv(self) -> bool {
        self.0 > 0
    }

    /// Accepts any value but zero.
    pub fn try_new(value: u32) -> (r: Result<Self, ModelValueError>)
        ensures
            value > 0 <==> r is Ok,
            r matches Ok(v) ==> v@ == value,
            r matches Err(e) ==> e == ModelValueError::NotPositive,
    {
        if value > 0 {
            Ok(ColumnNumber(value))
        } else {
            Err(ModelValueError::NotPositive)
        }
    }

    /// The wrapped value; never zero.
    pub fn into_inner(self) -> (r: u32)
        ensures
            r == self@,
            r > 0,
    {
        proof {
            use_type_invariant(&self);
        }
        self.0
    }
}
/// Byte offset in the input.
#[derive(Debug, Clone, Copy, PartialEq, Eq, Structural, PartialOrd, Ord)]
pub struct ByteOffset(usize);

impl View for ByteOffset {
    type V = usize;

    closed spec fn view(&self) -> usize {
        self.0
    }
}

impl ByteOffset {
    /// Every value is accepted.
    pub fn try_new(value: usize) -> (r: Result<Self, ModelValueError>)
        ensures
            r matches Ok(v) && v@ == value,
    {
        Ok(ByteOffset(value))
    }

    /// The wrapped value.
    pub fn into_inner(self) -> (r: usize)
        ensures
            r == self@,
    {
        self.0
    }
}
/// A string literal as lexed; never empty.
#[derive(Debug, PartialEq, Eq, Hash)]
pub struct LexedString(String);

impl View for LexedString {
    type V = Seq<char>;

    closed spec fn view(&self) -> Seq<char> {
        self.0@
    }
}

impl Clone for LexedString {
    fn clone(&self) -> (r: Self)
        ensures
            r@ == self@,
    {
        proof {
            use_type_invariant(self);
        }
        LexedString(self.0.clone())
    }
}

impl LexedString {
    #[verifier::type_invariant]
    spec fn inv(self) -> bool {
        self.0@.len() > 0
    }

    /// Accepts `value` exactly when it is not empty.
    pub fn try_new(value: String) -> (r: Result<Self, ModelValueError>)
        ensures
            value@.len() > 0 <==> r is Ok,
            r matches Ok(v) ==> v@ == value@,
            r matches Err(e) ==> e == ModelValueError::Empty,
    {
        if value.as_str().unicode_len() > 0 {
            Ok(LexedString(value))
        } else {
            Err(ModelValueError::Empty)
        }
    }

    /// The wrapped text.
    pub fn into_inner(self) -> (r: String)
        ensures
            r@ == self@,
            r@.len() > 0,
    {
        proof {
            use_type_invariant(&self);
        }
        self.0
    }
}
/// A number literal as lexed.
#[derive(Debug, Clone, Copy, PartialEq, Eq, Structural, PartialOrd, Ord)]
pub struct LexedNumber(u32);

impl View for LexedNumber {
    type V = u32;

    closed spec fn view(&self) -> u32 {
        self.0
    }
}

impl LexedNumber {
    /// Every value is accepted.
    pub fn try_new(value: u32) -> (r: Result<Self, ModelValueError>)
        ensures
            r matches Ok(v) && v@ == value,
    {
        Ok(LexedNumber(value))
    }

    /// The wrapped value.
    pub fn into_inner(self) -> (r: u32)
        ensures
            r == self@,
    {
        self.0
    }
}

/// An identifier as lexed: `[a-zA-Z_][a-zA-Z0-9_]*`.
#[derive(Debug, PartialEq, Eq)]
pub struct LexedIdentifier(Identifier);

impl View for LexedIdentifier {
    type V = Seq<char>;

    closed spec fn view(&self) -> Seq<char> {
        self.0@
    }
}

impl Clone for LexedIdentifier {
    fn clone(&self) -> (r: Self)
        ensures
            r@ == self@,
    {
        LexedIdentifier(self.0.clone())
    }
}

impl LexedIdentifier {
    /// Accepts `value` exactly when it is an identifier.
    pub fn try_new(value: String) -> (r: Result<Self, ModelValueError>)
        ensures
            is_identifier(value@) <==> r is Ok,
            r matches Ok(v) ==> v@ == value@,
            r matches Err(e) ==> e == ModelValueError::Empty,
    {
        match Identifier::parse(value) {
            Ok(id) => Ok(LexedIdentifier(id)),
            Err(_) => Err(ModelValueError::Empty),
        }
    }

    /// The identifier's text.
    pub fn into_inner(self) -> (r: String)
        ensures
            r@ == self@,
    {
        self.0.as_str().to_owned()
    }
}

/// Lexical errors.
#[derive(Debug, Clone, PartialEq, Eq, Structural)]
pub enum LexError {
    /// An unexpected character, with its line and column.
    UnexpectedCharacter(char, u32, u32),
    /// A string literal without its closing quote, with line and column.
    UnterminatedString(u32, u32),
    /// A number literal that does not read, with line and column.
    InvalidNumber(u32, u32),
    /// An identifier that does not read, with line and column.
    InvalidIdentifier(u32, u32),
}

} // verus!
