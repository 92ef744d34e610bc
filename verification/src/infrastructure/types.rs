//! Types that carry their invariants, so that validation happens once at the
//! boundary ("parse, don't validate") and the rest of the library can rely on
//! what the type guarantees.

use crate::infrastructure::text::{extension_of, path_extension, str_equal};
use std::marker::PhantomData;
use vstd::prelude::*;

verus! {

// Phantom markers for file kinds.

/// Marker type for Event Model files (.eventmodel extension).
#[derive(Debug, Clone, Copy)]
pub struct EventModelFile;

/// Marker type for Markdown files (.md extension).
#[derive(Debug, Clone, Copy)]
pub struct MarkdownFile;

/// Marker type for any file type (no extension restriction).
#[derive(Debug, Clone, Copy)]
pub struct AnyFile;

// Phantom markers for path kinds.

/// Marker type indicating a path points to a directory.
#[derive(Debug, Clone, Copy)]
pub struct Directory;

/// Marker type indicating a path points to a file.
#[derive(Debug, Clone, Copy)]
pub struct File;

/// Marker type indicating a path's existence is not verified.
#[derive(Debug, Clone, Copy)]
pub struct MaybeExists;

/// Marker type indicating a path has been verified to exist.
#[derive(Debug, Clone, Copy)]
pub struct Exists;

/// A collection that always holds at least one element: a head and a
/// (possibly empty) tail.
#[derive(Debug, Clone)]
pub struct NonEmpty<T> {
    head: T,
    tail: Vec<T>,
}

impl<T> View for NonEmpty<T> {
    type V = Seq<T>;

    /// The elements in order: the head followed by the tail.
    closed spec fn view(&self) -> Seq<T> {
        seq![self.head] + self.tail@
    }
}

/// A `NonEmpty` is never empty.
pub broadcast proof fn lemma_non_empty_len<T>(ne: &NonEmpty<T>)
    ensures
        #[trigger] ne@.len() >= 1,
{
}

impl<T> NonEmpty<T> {
    /// Creates a collection with a single element.
    pub fn singleton(value: T) -> (r: Self)
        ensures
            r@ == seq![value],
    {
        let r = NonEmpty { head: value, tail: Vec::new() };
        assert(r@ =~= seq![value]);
        r
    }

    /// Creates a collection from a head element and the elements that follow it.
    pub fn from_head_and_tail(head: T, tail: Vec<T>) -> (r: Self)
        ensures
            r@ == seq![head] + tail@,
    {
        NonEmpty { head, tail }
    }

    /// The first element; it always exists.
    pub fn head(&self) -> (r: &T)
        ensures
            *r == self@[0],
    {
        &self.head
    }

    /// The elements after the head (possibly none).
    pub fn tail(&self) -> (r: &[T])
        ensures
            r@ == self@.drop_first(),
    {
        assert(self@.drop_first() =~= self.tail@);
        self.tail.as_slice()
    }

    /// The element at position `index`.
    pub fn get(&self, index: usize) -> (r: &T)
        requires
            index < self@.len(),
        ensures
            *r == self@[index as int],
    {
        if index == 0 {
            &self.head
        } else {
            &self.tail[index - 1]
        }
    }

    /// References to all elements, in order.
    pub fn iter(&self) -> (r: Vec<&T>)
        ensures
            r@.len() == self@.len(),
            forall|i: int| 0 <= i < r@.len() ==> *r@[i] == self@[i],
    {
        let mut r: Vec<&T> = Vec::new();
        r.push(&self.head);
        let n = self.tail.len();
        for i in 0..n
            invariant
                n == self.tail@.len(),
                r@.len() == i + 1,
                forall|j: int| 0 <= j < r@.len() ==> *r@[j] == self@[j],
        {
            r.push(&self.tail[i]);
        }
        r
    }

    /// The number of elements; at least one.
    pub fn len(&self) -> (r: usize)
        requires
            self@.len() <= usize::MAX,
        ensures
            r == self@.len(),
            r >= 1,
    {
        1 + self.tail.len()
    }

    /// Always false: the collection is never empty.
    pub fn is_empty(&self) -> (r: bool)
        ensures
            r == (self@.len() == 0),
            !r,
    {
        false
    }
}

/// A path with compile-time guarantees about its kind, encoded in phantom
/// type parameters: the file type (`EventModelFile`, `MarkdownFile`,
/// `AnyFile`), the path type (`File`, `Directory`) and whether its existence
/// was checked (`Exists`, `MaybeExists`). Only `PathBuilder` creates one.
#[derive(Debug)]
pub struct TypedPath<FileType, PathType, ExistenceType> {
    path: String,
    _file_type: PhantomData<FileType>,
    _path_type: PhantomData<PathType>,
    _existence: PhantomData<ExistenceType>,
}

impl<F, P, E> View for TypedPath<F, P, E> {
    type V = Seq<char>;

    closed spec fn view(&self) -> Seq<char> {
        self.path@
    }
}

impl<F, P, E> Clone for TypedPath<F, P, E> {
    fn clone(&self) -> (r: Self)
        ensures
            r@ == self@,
    {
        TypedPath {
            path: self.path.clone(),
            _file_type: PhantomData,
            _path_type: PhantomData,
            _existence: PhantomData,
        }
    }
}

impl<F, P, E> TypedPath<F, P, E> {
    fn make(path: String) -> (r: Self)
        ensures
            r@ == path@,
    {
        TypedPath { path, _file_type: PhantomData, _path_type: PhantomData, _existence: PhantomData }
    }

    /// The underlying path.
    pub fn as_path_buf(&self) -> (r: &String)
        ensures
            r@ == self@,
    {
        &self.path
    }
}

/// Parses and checks paths where they enter the program; the only way to
/// make a `TypedPath`. What only the file system knows (whether a path
/// exists, is a file or a directory) is handed in by the caller that asked
/// it.
pub struct PathBuilder;

/// Whether the extension of `path` is `ext`.
fn has_extension(path: &String, ext: &str) -> (r: bool)
    ensures
        r == (path_extension(path@) == Some(ext@)),
{
    match extension_of(path.as_str()) {
        Some(e) => str_equal(e.as_str(), ext),
        None => false,
    }
}

impl PathBuilder {
    /// Accepts `path` as an event model file exactly when its extension is
    /// `eventmodel` and it exists and is a file.
    pub fn parse_event_model_file(path: String, exists: bool, is_file: bool) -> (r: Result<
        TypedPath<EventModelFile, File, Exists>,
        ParseError,
    >)
        ensures
            (path_extension(path@) == Some("eventmodel"@) && exists && is_file) <==> r is Ok,
            r matches Ok(t) ==> t@ == path@,
            r matches Err(e) ==> e == ParseError::InvalidEventModelFile,
    {
        if has_extension(&path, "eventmodel") && exists && is_file {
            Ok(TypedPath::make(path))
        } else {
            Err(ParseError::InvalidEventModelFile)
        }
    }

    /// Accepts `path` as a Markdown file exactly when its extension is
    /// `md`; whether it exists is not checked, so that documentation links
    /// may point to files not written yet.
    pub fn parse_markdown_file(path: String) -> (r: Result<TypedPath<MarkdownFile, File, MaybeExists>, ParseError>)
        ensures
            (path_extension(path@) == Some("md"@)) <==> r is Ok,
            r matches Ok(t) ==> t@ == path@,
            r matches Err(e) ==> e == ParseError::InvalidMarkdownFile,
    {
        if has_extension(&path, "md") {
            Ok(TypedPath::make(path))
        } else {
            Err(ParseError::InvalidMarkdownFile)
        }
    }

    /// Accepts `path` as a directory exactly when it exists and is a
    /// directory.
    pub fn parse_directory(path: String, exists: bool, is_dir: bool) -> (r: Result<
        TypedPath<AnyFile, Directory, Exists>,
        ParseError,
    >)
        ensures
            (exists && is_dir) <==> r is Ok,
            r matches Ok(t) ==> t@ == path@,
            r matches Err(e) ==> e == ParseError::InvalidDirectory,
    {
        if exists && is_dir {
            Ok(TypedPath::make(path))
        } else {
            Err(ParseError::InvalidDirectory)
        }
    }

    /// Accepts `path` as an output directory exactly when it has no parent
    /// or its parent exists (`parent_missing_or_exists`), so that it can be
    /// created.
    pub fn parse_output_directory(path: String, parent_missing_or_exists: bool) -> (r: Result<
        TypedPath<AnyFile, Directory, MaybeExists>,
        ParseError,
    >)
        ensures
            parent_missing_or_exists <==> r is Ok,
            r matches Ok(t) ==> t@ == path@,
            r matches Err(e) ==> e == ParseError::InvalidOutputDirectory,
    {
        if parent_missing_or_exists {
            Ok(TypedPath::make(path))
        } else {
            Err(ParseError::InvalidOutputDirectory)
        }
    }
}

/// Why a value was refused by a validated wrapper type.
#[derive(Debug, Clone, Copy, PartialEq, Eq, Structural)]
pub enum ModelValueError {
    /// The text is empty.
    Empty,
    /// The value must be greater than zero.
    NotPositive,
    /// The text is not a PascalCase event name.
    InvalidEventName,
    /// The path does not name a Markdown file.
    NotMarkdownPath,
}

/// Errors that can occur when validating values at the system boundary.
#[derive(Debug, Clone, PartialEq, Eq, Structural)]
pub enum ParseError {
    /// The path is not a valid Event Model file.
    InvalidEventModelFile,
    /// The path is not a valid Markdown file.
    InvalidMarkdownFile,
    /// The path is not a valid directory.
    InvalidDirectory,
    /// The output directory path is invalid.
    InvalidOutputDirectory,
    /// String cannot be empty.
    EmptyString,
    /// Invalid identifier format.
    InvalidIdentifier,
    /// Event name must start with an uppercase letter.
    InvalidEventName,
    /// Value must be greater than zero.
    NotPositive,
    /// Port must be between 1 and 65535.
    InvalidPort,
    /// Float must be finite.
    NotFinite,
    /// Percentage must be between 0 and 100.
    InvalidPercentage,
}

impl ParseError {
    /// The human-readable message of an error.
    pub open spec fn text(self) -> Seq<char> {
        match self {
            ParseError::InvalidEventModelFile => "Invalid event model file: must have .eventmodel extension and exist"@,
            ParseError::InvalidMarkdownFile => "Invalid markdown file: must have .md extension"@,
            ParseError::InvalidDirectory => "Invalid directory: must exist and be a directory"@,
            ParseError::InvalidOutputDirectory => "Invalid output directory: parent must exist"@,
            ParseError::EmptyString => "String cannot be empty"@,
            ParseError::InvalidIdentifier => "Invalid identifier format"@,
            ParseError::InvalidEventName => "Event name must start with uppercase letter"@,
            ParseError::NotPositive => "Value must be greater than zero"@,
            ParseError::InvalidPort => "Port must be between 1 and 65535"@,
            ParseError::NotFinite => "Float must be finite"@,
            ParseError::InvalidPercentage => "Percentage must be between 0 and 100"@,
        }
    }

    /// The human-readable message of this error.
    pub fn message(&self) -> (r: &'static str)
        ensures
            r@ == self.text(),
    {
        match self {
            ParseError::InvalidEventModelFile => "Invalid event model file: must have .eventmodel extension and exist",
            ParseError::InvalidMarkdownFile => "Invalid markdown file: must have .md extension",
            ParseError::InvalidDirectory => "Invalid directory: must exist and be a directory",
            ParseError::InvalidOutputDirectory => "Invalid output directory: parent must exist",
            ParseError::EmptyString => "String cannot be empty",
            ParseError::InvalidIdentifier => "Invalid identifier format",
            ParseError::InvalidEventName => "Event name must start with uppercase letter",
            ParseError::NotPositive => "Value must be greater than zero",
            ParseError::InvalidPort => "Port must be between 1 and 65535",
            ParseError::NotFinite => "Float must be finite",
            ParseError::InvalidPercentage => "Percentage must be between 0 and 100",
        }
    }
}

/// A compile-time proof of some property; it has no runtime content.
pub struct Proof<T>(PhantomData<T>);

impl<T> Proof<T> {
    /// The one value of this type.
    pub closed spec fn the_proof() -> Self {
        Proof(PhantomData)
    }

    /// Creates a new proof value.
    pub fn new() -> (r: Self)
        ensures
            r == Proof::<T>::the_proof(),
    {
        Proof(PhantomData)
    }
}

impl<T> Default for Proof<T> {
    fn default() -> (r: Self)
        ensures
            r == Proof::<T>::the_proof(),
    {
        Self::new()
    }
}

/// Compile-time proof that an entity exists in a registry.
pub struct EntityExists<Id>(PhantomData<Id>);

/// Compile-time proof that an entity has been added to a registry.
pub struct EntityAdded<Id>(PhantomData<Id>);

/// A string that is never empty.
#[derive(Debug, PartialEq, Eq, Hash)]
pub struct NonEmptyString(String);

impl View for NonEmptyString {
    type V = Seq<char>;

    closed spec fn view(&self) -> Seq<char> {
        self.0@
    }
}

impl Clone for NonEmptyString {
    fn clone(&self) -> (r: Self)
        ensures
            r@ == self@,
    {
        proof {
            use_type_invariant(self);
        }
        NonEmptyString(self.0.clone())
    }
}

impl NonEmptyString {
    #[verifier::type_invariant]
    spec fn inv(self) -> bool {
        self.0@.len() > 0
    }

    /// Accepts `s` exactly when it is not empty.
    pub fn parse(s: String) -> (r: Result<Self, ParseError>)
        ensures
            s@.len() == 0 <==> r is Err,
            r matches Err(e) ==> e == ParseError::EmptyString,
            r matches Ok(v) ==> v@ == s@,
    {
        if s.as_str().unicode_len() == 0 {
            Err(ParseError::EmptyString)
        } else {
            Ok(NonEmptyString(s))
        }
    }

    /// The string value.
    pub fn as_str(&self) -> (r: &str)
        ensures
            r@ == self@,
            r@.len() > 0,
    {
        proof {
            use_type_invariant(self);
        }
        self.0.as_str()
    }

    /// Consumes the value and returns the inner string.
    pub fn into_inner(self) -> (r: String)
        ensures
            r@ == self@,
            r@.len() > 0,
    {
        proof {
            use_type_invariant(&self);
        }
        self.0
    }

    /// Whether two values hold the same string.
    pub fn same_as(&self, other: &NonEmptyString) -> (r: bool)
        ensures
            r == (self@ == other@),
    {
        self.0 == other.0
    }
}

/// An ASCII letter.
pub open spec fn is_ascii_alpha(c: char) -> bool {
    ('a' <= c && c <= 'z') || ('A' <= c && c <= 'Z')
}

/// An ASCII digit.
pub open spec fn is_ascii_digit(c: char) -> bool {
    '0' <= c && c <= '9'
}

/// An ASCII uppercase letter.
pub open spec fn is_ascii_upper(c: char) -> bool {
    'A' <= c && c <= 'Z'
}

/// A character that may start an identifier: `[a-zA-Z_]`.
pub open spec fn is_ident_start(c: char) -> bool {
    is_ascii_alpha(c) || c == '_'
}

/// A character that may continue an identifier: `[a-zA-Z0-9_]`.
pub open spec fn is_ident_char(c: char) -> bool {
    is_ascii_alpha(c) || is_ascii_digit(c) || c == '_'
}

/// `s` matches `[a-zA-Z_][a-zA-Z0-9_]*`.
pub open spec fn is_identifier(s: Seq<char>) -> bool {
    &&& s.len() > 0
    &&& is_ident_start(s[0])
    &&& forall|i: int| 1 <= i < s.len() ==> #[trigger] is_ident_char(s[i])
}

/// Tests `c` for `[a-zA-Z_]`.
pub fn char_is_ident_start(c: char) -> (r: bool)
    ensures
        r == is_ident_start(c),
{
    ('a' <= c && c <= 'z') || ('A' <= c && c <= 'Z') || c == '_'
}

/// Tests `c` for `[a-zA-Z0-9_]`.
pub fn char_is_ident_char(c: char) -> (r: bool)
    ensures
        r == is_ident_char(c),
{
    ('a' <= c && c <= 'z') || ('A' <= c && c <= 'Z') || ('0' <= c && c <= '9') || c == '_'
}

/// An identifier matching `[a-zA-Z_][a-zA-Z0-9_]*`.
#[derive(Debug, PartialEq, Eq, Hash)]
pub struct Identifier(String);

impl View for Identifier {
    type V = Seq<char>;

    closed spec fn view(&self) -> Seq<char> {
        self.0@
    }
}

impl Clone for Identifier {
    fn clone(&self) -> (r: Self)
        ensures
            r@ == self@,
    {
        proof {
            use_type_invariant(self);
        }
        Identifier(self.0.clone())
    }
}

impl Identifier {
    #[verifier::type_invariant]
    spec fn inv(self) -> bool {
        is_identifier(self.0@)
    }

    /// Accepts `s` exactly when it is an identifier.
    pub fn parse(s: String) -> (r: Result<Self, ParseError>)
        ensures
            r is Ok <==> is_identifier(s@),
            r matches Ok(v) ==> v@ == s@,
            s@.len() == 0 ==> r == Err::<Self, ParseError>(ParseError::EmptyString),
            s@.len() > 0 && !is_identifier(s@) ==> r == Err::<Self, ParseError>(ParseError::InvalidIdentifier),
    {
        let n = s.as_str().unicode_len();
        if n == 0 {
            return Err(ParseError::EmptyString);
        }
        if !char_is_ident_start(s.as_str().get_char(0)) {
            return Err(ParseError::InvalidIdentifier);
        }
        let mut i: usize = 1;
        while i < n
            invariant
                1 <= i <= n,
                n == s@.len(),
                is_ident_start(s@[0]),
                forall|j: int| 1 <= j < i ==> #[trigger] is_ident_char(s@[j]),
            decreases n - i,
        {
            if !char_is_ident_char(s.as_str().get_char(i)) {
                return Err(ParseError::InvalidIdentifier);
            }
            i += 1;
        }
        Ok(Identifier(s))
    }

    /// The identifier text.
    pub fn as_str(&self) -> (r: &str)
        ensures
            r@ == self@,
            is_identifier(r@),
    {
        proof {
            use_type_invariant(self);
        }
        self.0.as_str()
    }
}

/// `s` is an event name: non-empty and starting with an ASCII uppercase letter.
pub open spec fn is_event_name(s: Seq<char>) -> bool {
    s.len() > 0 && is_ascii_upper(s[0])
}

/// An event name (PascalCase): starts with an uppercase letter.
#[derive(Debug, PartialEq, Eq, Hash)]
pub struct EventName(String);

impl View for EventName {
    type V = Seq<char>;

    closed spec fn view(&self) -> Seq<char> {
        self.0@
    }
}

impl Clone for EventName {
    fn clone(&self) -> (r: Self)
        ensures
            r@ == self@,
    {
        proof {
            use_type_invariant(self);
        }
        EventName(self.0.clone())
    }
}

impl EventName {
    #[verifier::type_invariant]
    spec fn inv(self) -> bool {
        is_event_name(self.0@)
    }

    /// Accepts `s` exactly when it is non-empty and starts with an ASCII uppercase letter.
    pub fn parse(s: String) -> (r: Result<Self, ParseError>)
        ensures
            r is Ok <==> is_event_name(s@),
            r matches Ok(v) ==> v@ == s@,
            s@.len() == 0 ==> r == Err::<Self, ParseError>(ParseError::EmptyString),
            s@.len() > 0 && !is_ascii_upper(s@[0]) ==> r == Err::<Self, ParseError>(ParseError::InvalidEventName),
    {
        if s.as_str().unicode_len() == 0 {
            return Err(ParseError::EmptyString);
        }
        let first = s.as_str().get_char(0);
        if !('A' <= first && first <= 'Z') {
            return Err(ParseError::InvalidEventName);
        }
        Ok(EventName(s))
    }

    /// The event name text.
    pub fn as_str(&self) -> (r: &str)
        ensures
            r@ == self@,
            is_event_name(r@),
    {
        proof {
            use_type_invariant(self);
        }
        self.0.as_str()
    }
}

/// A non-negative integer.
#[derive(Debug, Clone, Copy, PartialEq, Eq, Structural, PartialOrd, Ord, Hash)]
pub struct NonNegativeInt(u32);

impl View for NonNegativeInt {
    type V = u32;

    closed spec fn view(&self) -> u32 {
        self.0
    }
}

impl NonNegativeInt {
    /// Wraps `value`; every `u32` is non-negative.
    pub fn new(value: u32) -> (r: Self)
        ensures
            r@ == value,
    {
        NonNegativeInt(value)
    }

    /// The wrapped value.
    pub fn value(self) -> (r: u32)
        ensures
            r == self@,
    {
        self.0
    }
}

/// A positive (greater than zero) integer.
#[derive(Debug, Clone, Copy, PartialEq, Eq, Structural, PartialOrd, Ord, Hash)]
pub struct PositiveInt(u32);

impl View for PositiveInt {
    type V = u32;

    closed spec fn view(&self) -> u32 {
        self.0
    }
}

impl PositiveInt {
    #[verifier::type_invariant]
    spec fn inv(self) -> bool {
        self.0 > 0
    }

    /// Accepts `value` exactly when it is greater than zero.
    pub fn parse(value: u32) -> (r: Result<Self, ParseError>)
        ensures
            r is Ok <==> value > 0,
            r matches Ok(v) ==> v@ == value,
            value == 0 ==> r == Err::<Self, ParseError>(ParseError::NotPositive),
    {
        if value == 0 {
            Err(ParseError::NotPositive)
        } else {
            Ok(PositiveInt(value))
        }
    }

    /// The wrapped value; always greater than zero.
    pub fn value(self) -> (r: u32)
        ensures
            r == self@,
            r > 0,
    {
        proof {
            use_type_invariant(&self);
        }
        self.0
    }
}

/// A port number (1-65535).
#[derive(Debug, Clone, Copy, PartialEq, Eq, Structural, Hash)]
pub struct Port(u16);

impl View for Port {
    type V = u16;

    closed spec fn view(&self) -> u16 {
        self.0
    }
}

impl Port {
    #[verifier::type_invariant]
    spec fn inv(self) -> bool {
        self.0 > 0
    }

    /// Accepts `value` exactly when it is a valid port (not zero).
    pub fn parse(value: u16) -> (r: Result<Self, ParseError>)
        ensures
            r is Ok <==> value > 0,
            r matches Ok(v) ==> v@ == value,
            value == 0 ==> r == Err::<Self, ParseError>(ParseError::InvalidPort),
    {
        if value == 0 {
            Err(ParseError::InvalidPort)
        } else {
            Ok(Port(value))
        }
    }

    /// The port number; between 1 and 65535.
    pub fn value(self) -> (r: u16)
        ensures
            r == self@,
            r > 0,
    {
        proof {
            use_type_invariant(&self);
        }
        self.0
    }
}

} // verus!
