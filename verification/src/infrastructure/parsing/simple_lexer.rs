//! Lexer for the simple line-oriented Event Model format:
//!
//! ```text
//! Title: Model Name
//! Swimlane: Lane Name
//! - Entity: EntityName
//! Connection -> Target
//! ```
//!
//! The lexer's behaviour is described by `token_at`, which says which token
//! starts at a position and where it ends; `Lexer::next_token` follows it
//! exactly. Lines and columns are 1-based and are always those of the
//! position a token starts at (`line_of`, `column_of`).

use crate::infrastructure::text::{is_alphanumeric, push_char, range_equals, string_from_range, unicode_alphanumeric};
use vstd::prelude::*;

verus! {

/// Token types for the simple Event Model format.
#[derive(Debug, Clone, PartialEq)]
pub enum TokenKind {
    /// The keyword `Title`.
    Title,
    /// The keyword `Swimlane`.
    Swimlane,
    /// The keyword `Command`.
    Command,
    /// The keyword `Event`.
    Event,
    /// The keyword `Projection`.
    Projection,
    /// The keyword `Policy`.
    Policy,
    /// The two words `External System`.
    ExternalSystem,
    /// The keyword `Aggregate`.
    Aggregate,
    /// `:`
    Colon,
    /// `-`
    Dash,
    /// `->`
    Arrow,
    /// A line break.
    Newline,
    /// A word that is not a keyword (possibly empty).
    Text(String),
    /// Indentation at the start of a line: spaces count one, tabs four.
    Indent(usize),
}

/// The mathematical content of a `TokenKind`.
pub enum KindModel {
    Title,
    Swimlane,
    Command,
    Event,
    Projection,
    Policy,
    ExternalSystem,
    Aggregate,
    Colon,
    Dash,
    Arrow,
    Newline,
    Text(Seq<char>),
    Indent(nat),
}

impl View for TokenKind {
    type V = KindModel;

    open spec fn view(&self) -> KindModel {
        match self {
            TokenKind::Title => KindModel::Title,
            TokenKind::Swimlane => KindModel::Swimlane,
            TokenKind::Command => KindModel::Command,
            TokenKind::Event => KindModel::Event,
            TokenKind::Projection => KindModel::Projection,
            TokenKind::Policy => KindModel::Policy,
            TokenKind::ExternalSystem => KindModel::ExternalSystem,
            TokenKind::Aggregate => KindModel::Aggregate,
            TokenKind::Colon => KindModel::Colon,
            TokenKind::Dash => KindModel::Dash,
            TokenKind::Arrow => KindModel::Arrow,
            TokenKind::Newline => KindModel::Newline,
            TokenKind::Text(s) => KindModel::Text(s@),
            TokenKind::Indent(n) => KindModel::Indent(*n as nat),
        }
    }
}

impl TokenKind {
    /// Whether this is the `Newline` token.
    pub fn is_newline(&self) -> (r: bool)
        ensures
            r == (self@ is Newline),
    {
        match self {
            TokenKind::Newline => true,
            _ => false,
        }
    }

    /// Whether this is the `Colon` token.
    pub fn is_colon(&self) -> (r: bool)
        ensures
            r == (self@ is Colon),
    {
        match self {
            TokenKind::Colon => true,
            _ => false,
        }
    }

    /// Whether this is the `Dash` token.
    pub fn is_dash(&self) -> (r: bool)
        ensures
            r == (self@ is Dash),
    {
        match self {
            TokenKind::Dash => true,
            _ => false,
        }
    }

    /// Whether this is the `Arrow` token.
    pub fn is_arrow(&self) -> (r: bool)
        ensures
            r == (self@ is Arrow),
    {
        match self {
            TokenKind::Arrow => true,
            _ => false,
        }
    }
}

/// A token with the line and column (1-based) where it starts.
#[derive(Debug, Clone, PartialEq)]
pub struct Token {
    /// What the token is.
    pub kind: TokenKind,
    /// Line of the token's first position.
    pub line: usize,
    /// Column of the token's first position.
    pub column: usize,
}

/// A character that may be part of a word: alphanumeric or `_`.
pub open spec fn is_word_char(c: char) -> bool {
    unicode_alphanumeric(c) || c == '_'
}

/// A space or a tab.
pub open spec fn is_blank(c: char) -> bool {
    c == ' ' || c == '\t'
}

/// The first position at or after `pos` that does not hold a space or tab.
pub open spec fn skip_blanks(input: Seq<char>, pos: int) -> int
    decreases input.len() - pos,
{
    if 0 <= pos < input.len() && is_blank(input[pos]) {
        skip_blanks(input, pos + 1)
    } else {
        pos
    }
}

/// The end of the word that starts at `pos`: the first position at or after
/// `pos` that does not hold a word character.
pub open spec fn word_end(input: Seq<char>, pos: int) -> int
    decreases input.len() - pos,
{
    if 0 <= pos < input.len() && is_word_char(input[pos]) {
        word_end(input, pos + 1)
    } else {
        pos
    }
}

/// The width of the run of spaces and tabs starting at `pos`: a space counts
/// one, a tab four.
pub open spec fn indent_width(input: Seq<char>, pos: int) -> nat
    decreases input.len() - pos,
{
    if 0 <= pos < input.len() && input[pos] == ' ' {
        1 + indent_width(input, pos + 1)
    } else if 0 <= pos < input.len() && input[pos] == '\t' {
        4 + indent_width(input, pos + 1)
    } else {
        0
    }
}

/// The 1-based line of position `pos`: one more than the number of line
/// breaks before it.
pub open spec fn line_of(input: Seq<char>, pos: int) -> int
    decreases pos,
{
    if pos <= 0 {
        1
    } else {
        line_of(input, pos - 1) + if input[pos - 1] == '\n' { 1int } else { 0int }
    }
}

/// The 1-based column of position `pos`: one more than the number of
/// characters since the last line break before it.
pub open spec fn column_of(input: Seq<char>, pos: int) -> int
    decreases pos,
{
    if pos <= 0 {
        1
    } else if input[pos - 1] == '\n' {
        1
    } else {
        column_of(input, pos - 1) + 1
    }
}

/// The keyword a word stands for, if any (`External` is handled apart).
pub open spec fn keyword(w: Seq<char>) -> Option<KindModel> {
    if w == "Title"@ {
        Some(KindModel::Title)
    } else if w == "Swimlane"@ {
        Some(KindModel::Swimlane)
    } else if w == "Command"@ {
        Some(KindModel::Command)
    } else if w == "Event"@ {
        Some(KindModel::Event)
    } else if w == "Projection"@ {
        Some(KindModel::Projection)
    } else if w == "Policy"@ {
        Some(KindModel::Policy)
    } else if w == "Aggregate"@ {
        Some(KindModel::Aggregate)
    } else {
        None
    }
}

/// The token read from the word starting at `p` (after blanks were skipped),
/// with the position where it ends.
pub open spec fn word_token(input: Seq<char>, p: int) -> (KindModel, int) {
    let e = word_end(input, p);
    let w = input.subrange(p, e);
    if w == "External"@ {
        let q = skip_blanks(input, e);
        let e2 = word_end(input, q);
        if input.subrange(q, e2) == "System"@ {
            (KindModel::ExternalSystem, e2)
        } else {
            (KindModel::Text(w), q)
        }
    } else {
        match keyword(w) {
            Some(k) => (k, e),
            None => (KindModel::Text(w), e),
        }
    }
}

/// The token that starts at `pos` and the position where it ends; `None`
/// at the end of the input.
///
/// - a line break is `Newline`;
/// - spaces or tabs at the start of a line are one `Indent`;
/// - otherwise spaces and tabs are skipped, then `:` is `Colon`, `->` is
///   `Arrow`, `-` is `Dash`, and anything else is the word that follows
///   (a keyword, `External System`, or `Text`, possibly empty).
pub open spec fn token_at(input: Seq<char>, pos: int) -> Option<(KindModel, int)> {
    if pos >= input.len() {
        None
    } else if input[pos] == '\n' {
        Some((KindModel::Newline, pos + 1))
    } else if column_of(input, pos) == 1 && is_blank(input[pos]) {
        Some((KindModel::Indent(indent_width(input, pos)), skip_blanks(input, pos)))
    } else {
        let p = skip_blanks(input, pos);
        if p < input.len() && input[p] == ':' {
            Some((KindModel::Colon, p + 1))
        } else if p < input.len() && input[p] == '-' {
            if p + 1 < input.len() && input[p + 1] == '>' {
                Some((KindModel::Arrow, p + 2))
            } else {
                Some((KindModel::Dash, p + 1))
            }
        } else {
            Some(word_token(input, p))
        }
    }
}

/// The end of the line that contains `pos`: the position of the next line
/// break, or the end of the input.
pub open spec fn line_end(input: Seq<char>, pos: int) -> int
    decreases input.len() - pos,
{
    if 0 <= pos < input.len() && input[pos] != '\n' {
        line_end(input, pos + 1)
    } else {
        pos
    }
}

/// Characters removed at both ends of a line: space, tab, carriage return.
pub open spec fn is_trimmed(c: char) -> bool {
    c == ' ' || c == '\t' || c == '\r'
}

/// The first position in `[lo, hi)` that is not trimmed, or `hi`.
pub open spec fn trim_start(input: Seq<char>, lo: int, hi: int) -> int
    decreases hi - lo,
{
    if lo < hi && is_trimmed(input[lo]) {
        trim_start(input, lo + 1, hi)
    } else {
        lo
    }
}

/// The position after the last character in `[lo, hi)` that is not trimmed,
/// or `lo`.
pub open spec fn trim_end(input: Seq<char>, lo: int, hi: int) -> int
    decreases hi - lo,
{
    if lo < hi && is_trimmed(input[hi - 1]) {
        trim_end(input, lo, hi - 1)
    } else {
        hi
    }
}

/// The rest of the line from `pos`, without surrounding spaces, tabs and
/// carriage returns.
pub open spec fn line_text(input: Seq<char>, pos: int) -> Seq<char> {
    let le = line_end(input, pos);
    let a = trim_start(input, pos, le);
    let b = trim_end(input, a, le);
    input.subrange(a, b)
}

/// The position after the rest of the line from `pos` and its line break.
pub open spec fn after_line(input: Seq<char>, pos: int) -> int {
    let le = line_end(input, pos);
    if le < input.len() { le + 1 } else { le }
}

proof fn lemma_skip_blanks_bounds(input: Seq<char>, pos: int)
    requires
        0 <= pos <= input.len(),
    ensures
        pos <= skip_blanks(input, pos) <= input.len(),
    decreases input.len() - pos,
{
    if pos < input.len() && is_blank(input[pos]) {
        lemma_skip_blanks_bounds(input, pos + 1);
    }
}

proof fn lemma_word_end_bounds(input: Seq<char>, pos: int)
    requires
        0 <= pos <= input.len(),
    ensures
        pos <= word_end(input, pos) <= input.len(),
    decreases input.len() - pos,
{
    if pos < input.len() && is_word_char(input[pos]) {
        lemma_word_end_bounds(input, pos + 1);
    }
}

/// The end of the line that holds `pos` lies within the input, and holds
/// a line break unless it is the end of the input.
pub proof fn lemma_line_end_bounds(input: Seq<char>, pos: int)
    requires
        0 <= pos <= input.len(),
    ensures
        pos <= line_end(input, pos) <= input.len(),
        line_end(input, pos) < input.len() ==> input[line_end(input, pos)] == '\n',
    decreases input.len() - pos,
{
    if pos < input.len() && input[pos] != '\n' {
        lemma_line_end_bounds(input, pos + 1);
    }
}

proof fn lemma_trim_bounds(input: Seq<char>, lo: int, hi: int)
    requires
        lo <= hi,
    ensures
        lo <= trim_start(input, lo, hi) <= hi,
        lo <= trim_end(input, lo, hi) <= hi,
    decreases hi - lo,
{
    if lo < hi && is_trimmed(input[lo]) {
        lemma_trim_bounds(input, lo + 1, hi);
    }
    if lo < hi && is_trimmed(input[hi - 1]) {
        lemma_trim_bounds(input, lo, hi - 1);
    }
}

proof fn lemma_position_bounds(input: Seq<char>, pos: int)
    requires
        0 <= pos,
    ensures
        1 <= line_of(input, pos) <= pos + 1,
        1 <= column_of(input, pos) <= pos + 1,
    decreases pos,
{
    if pos > 0 {
        lemma_position_bounds(input, pos - 1);
    }
}

proof fn lemma_indent_width_bound(input: Seq<char>, pos: int)
    requires
        0 <= pos <= input.len(),
    ensures
        indent_width(input, pos) <= 4 * (skip_blanks(input, pos) - pos),
    decreases input.len() - pos,
{
    if pos < input.len() && is_blank(input[pos]) {
        lemma_indent_width_bound(input, pos + 1);
    }
}

/// The token that starts at `pos` ends at or after `pos`, within the input.
pub proof fn lemma_token_end(input: Seq<char>, pos: int)
    requires
        0 <= pos <= input.len(),
    ensures
        token_at(input, pos) matches Some((k, e)) ==> pos <= e <= input.len(),
        token_at(input, pos) matches Some((k, e)) ==> (e == pos ==> k == KindModel::Text(Seq::empty())),
        token_at(input, pos) is None <==> pos == input.len(),
{
    if pos < input.len() {
        lemma_skip_blanks_bounds(input, pos);
        let p = skip_blanks(input, pos);
        lemma_word_end_bounds(input, p);
        let e = word_end(input, p);
        lemma_skip_blanks_bounds(input, e);
        let q = skip_blanks(input, e);
        lemma_word_end_bounds(input, q);
        if column_of(input, pos) == 1 && is_blank(input[pos]) {
            assert(skip_blanks(input, pos) == skip_blanks(input, pos + 1));
            lemma_skip_blanks_bounds(input, pos + 1);
        }
        let w = input.subrange(p, e);
        if e == p {
            assert(w =~= Seq::<char>::empty());
            assert(w != "External"@) by {
                reveal_strlit("External");
            }
            assert(keyword(w) is None) by {
                reveal_strlit("Title");
                reveal_strlit("Swimlane");
                reveal_strlit("Command");
                reveal_strlit("Event");
                reveal_strlit("Projection");
                reveal_strlit("Policy");
                reveal_strlit("Aggregate");
            }
        }
    }
}

/// Simple lexer for Event Model files.
pub struct Lexer {
    input: Vec<char>,
    position: usize,
    line: usize,
    column: usize,
}

impl Lexer {
    /// The characters being lexed.
    pub closed spec fn text(&self) -> Seq<char> {
        self.input@
    }

    /// The position of the next character to read.
    pub closed spec fn pos(&self) -> int {
        self.position as int
    }

    /// The lexer's bookkeeping is consistent: its position is within the
    /// input, and its line and column are those of that position.
    pub closed spec fn wf(&self) -> bool {
        &&& self.position <= self.input@.len()
        &&& self.input@.len() <= usize::MAX / 8
        &&& self.line == line_of(self.input@, self.position as int)
        &&& self.column == column_of(self.input@, self.position as int)
    }

    /// A consistent lexer's position lies within its input.
    pub proof fn lemma_pos_within(&self)
        requires
            self.wf(),
        ensures
            0 <= self.pos() <= self.text().len(),
            self.text().len() <= usize::MAX / 8,
    {
    }

    /// Creates a lexer at the start of `input`.
    pub fn new(input: &str) -> (r: Self)
        requires
            input@.len() <= usize::MAX / 8,
        ensures
            r.wf(),
            r.text() == input@,
            r.pos() == 0,
    {
        let chars = crate::infrastructure::text::chars_of(input);
        Lexer { input: chars, position: 0, line: 1, column: 1 }
    }

    /// Returns the next token and moves past it; `None` at the end of the
    /// input. The token and the new position are those given by `token_at`.
    pub fn next_token(&mut self) -> (r: Option<Token>)
        requires
            old(self).wf(),
        ensures
            final(self).wf(),
            final(self).text() == old(self).text(),
            0 <= final(self).pos() <= final(self).text().len(),
            match token_at(old(self).text(), old(self).pos()) {
                None => r is None && final(self).pos() == old(self).pos(),
                Some((k, e)) => r matches Some(t) && t.kind@ == k && final(self).pos() == e
                    && t.line == line_of(old(self).text(), old(self).pos())
                    && t.column == column_of(old(self).text(), old(self).pos()),
            },
    {
        let ghost input = self.input@;
        let ghost pos0 = self.position as int;
        proof {
            lemma_token_end(input, pos0);
        }
        if self.position >= self.input.len() {
            return None;
        }
        let token_start_line = self.line;
        let token_start_column = self.column;

        if self.input[self.position] == '\n' {
            self.advance();
            return Some(Token { kind: TokenKind::Newline, line: token_start_line, column: token_start_column });
        }
        if self.column == 1 && (self.input[self.position] == ' ' || self.input[self.position] == '\t') {
            let indent_level = self.count_indentation();
            return Some(Token {
                kind: TokenKind::Indent(indent_level),
                line: token_start_line,
                column: token_start_column,
            });
        }
        self.skip_whitespace_except_newline();
        let ghost p = self.position as int;
        if self.position < self.input.len() && self.input[self.position] == ':' {
            self.advance();
            return Some(Token { kind: TokenKind::Colon, line: token_start_line, column: token_start_column });
        }
        if self.position < self.input.len() && self.input[self.position] == '-' {
            self.advance();
            if self.position < self.input.len() && self.input[self.position] == '>' {
                self.advance();
                return Some(Token { kind: TokenKind::Arrow, line: token_start_line, column: token_start_column });
            } else {
                return Some(Token { kind: TokenKind::Dash, line: token_start_line, column: token_start_column });
            }
        }
        let start = self.position;
        let word = self.read_word();
        let end = self.position;
        proof {
            lemma_word_end_bounds(self.input@, start as int);
        }
        let kind = if range_equals(&self.input, start, end, "Title") {
            TokenKind::Title
        } else if range_equals(&self.input, start, end, "Swimlane") {
            TokenKind::Swimlane
        } else if range_equals(&self.input, start, end, "Command") {
            TokenKind::Command
        } else if range_equals(&self.input, start, end, "Event") {
            TokenKind::Event
        } else if range_equals(&self.input, start, end, "Projection") {
            TokenKind::Projection
        } else if range_equals(&self.input, start, end, "Policy") {
            TokenKind::Policy
        } else if range_equals(&self.input, start, end, "External") {
            self.skip_whitespace_except_newline();
            let q = self.position;
            let e2 = self.peek_word_end();
            proof {
                lemma_word_end_bounds(self.input@, q as int);
            }
            if range_equals(&self.input, q, e2, "System") {
                self.read_word();
                TokenKind::ExternalSystem
            } else {
                TokenKind::Text(word)
            }
        } else if range_equals(&self.input, start, end, "Aggregate") {
            TokenKind::Aggregate
        } else {
            TokenKind::Text(word)
        };
        proof {
            let w = input.subrange(p, end as int);
            if w == "External"@ {
                reveal_strlit("External");
                reveal_strlit("Title");
                reveal_strlit("Swimlane");
                reveal_strlit("Command");
                reveal_strlit("Event");
                reveal_strlit("Projection");
                reveal_strlit("Policy");
                assert(w.len() == 8);
                assert(w != "Title"@);
                assert(w[0] != "Swimlane"@[0]);
                assert(w != "Swimlane"@);
                assert(w != "Command"@);
                assert(w != "Event"@);
                assert(w != "Projection"@);
                assert(w != "Policy"@);
            }
        }
        Some(Token { kind, line: token_start_line, column: token_start_column })
    }

    /// Moves one character forward, keeping line and column in step.
    fn advance(&mut self)
        requires
            old(self).wf(),
        ensures
            final(self).wf(),
            final(self).input@ == old(self).input@,
            final(self).position == if old(self).position < old(self).input@.len() {
                old(self).position + 1
            } else {
                old(self).position as int
            },
    {
        if self.position < self.input.len() {
            proof {
                lemma_position_bounds(self.input@, self.position as int);
            }
            if self.input[self.position] == '\n' {
                self.line += 1;
                self.column = 1;
            } else {
                self.column += 1;
            }
            self.position += 1;
        }
    }

    /// Skips spaces and tabs, but not line breaks.
    fn skip_whitespace_except_newline(&mut self)
        requires
            old(self).wf(),
        ensures
            final(self).wf(),
            final(self).input@ == old(self).input@,
            final(self).position == skip_blanks(old(self).input@, old(self).position as int),
    {
        while self.position < self.input.len() && (self.input[self.position] == ' ' || self.input[self.position] == '\t')
            invariant
                self.wf(),
                self.input@ == old(self).input@,
                skip_blanks(self.input@, self.position as int) == skip_blanks(
                    old(self).input@,
                    old(self).position as int,
                ),
            decreases self.input@.len() - self.position,
        {
            self.advance();
        }
    }

    /// Reads indentation, counting a space as one and a tab as four.
    fn count_indentation(&mut self) -> (r: usize)
        requires
            old(self).wf(),
        ensures
            final(self).wf(),
            final(self).input@ == old(self).input@,
            r == indent_width(old(self).input@, old(self).position as int),
            final(self).position == skip_blanks(old(self).input@, old(self).position as int),
    {
        let ghost start = self.position as int;
        proof {
            lemma_skip_blanks_bounds(self.input@, start);
            lemma_indent_width_bound(self.input@, start);
        }
        let mut count: usize = 0;
        while self.position < self.input.len() && (self.input[self.position] == ' ' || self.input[self.position] == '\t')
            invariant
                self.wf(),
                self.input@ == old(self).input@,
                start <= self.position,
                count + indent_width(self.input@, self.position as int) == indent_width(self.input@, start),
                skip_blanks(self.input@, self.position as int) == skip_blanks(self.input@, start),
                indent_width(self.input@, start) <= 4 * (skip_blanks(self.input@, start) - start),
                skip_blanks(self.input@, start) <= self.input@.len(),
            decreases self.input@.len() - self.position,
        {
            if self.input[self.position] == ' ' {
                count += 1;
            } else {
                count += 4;
            }
            self.advance();
        }
        count
    }

    /// Reads a word (alphanumeric characters and `_`), possibly empty.
    fn read_word(&mut self) -> (r: String)
        requires
            old(self).wf(),
        ensures
            final(self).wf(),
            final(self).input@ == old(self).input@,
            final(self).position == word_end(old(self).input@, old(self).position as int),
            r@ == old(self).input@.subrange(old(self).position as int, final(self).position as int),
    {
        let mut word = String::new();
        let ghost start = self.position as int;
        while self.position < self.input.len() && (is_alphanumeric(self.input[self.position]) || self.input[self.position] == '_')
            invariant
                self.wf(),
                self.input@ == old(self).input@,
                start <= self.position,
                start == old(self).position,
                word_end(self.input@, self.position as int) == word_end(self.input@, start),
                word@ == self.input@.subrange(start, self.position as int),
            decreases self.input@.len() - self.position,
        {
            let ch = self.input[self.position];
            push_char(&mut word, ch);
            assert(self.input@.subrange(start, self.position + 1) =~= self.input@.subrange(
                start,
                self.position as int,
            ).push(ch));
            self.advance();
        }
        word
    }

    /// The position where the word at the current position ends, without
    /// moving.
    fn peek_word_end(&self) -> (r: usize)
        requires
            self.wf(),
        ensures
            r == word_end(self.input@, self.position as int),
    {
        let mut p = self.position;
        while p < self.input.len() && (is_alphanumeric(self.input[p]) || self.input[p] == '_')
            invariant
                self.wf(),
                self.position <= p <= self.input@.len(),
                word_end(self.input@, p as int) == word_end(self.input@, self.position as int),
            decreases self.input@.len() - p,
        {
            p += 1;
        }
        p
    }

    /// Reads the rest of the current line and its line break, and returns it
    /// without surrounding spaces, tabs and carriage returns.
    pub fn read_line(&mut self) -> (r: String)
        requires
            old(self).wf(),
        ensures
            final(self).wf(),
            final(self).text() == old(self).text(),
            0 <= final(self).pos() <= final(self).text().len(),
            r@ == line_text(old(self).text(), old(self).pos()),
            final(self).pos() == after_line(old(self).text(), old(self).pos()),
    {
        let ghost input = self.input@;
        let ghost start = self.position as int;
        let n = self.input.len();
        let mut le = self.position;
        while le < n && self.input[le] != '\n'
            invariant
                self.wf(),
                n == self.input@.len(),
                start == self.position,
                self.position <= le <= n,
                line_end(self.input@, le as int) == line_end(self.input@, start),
            decreases n - le,
        {
            le += 1;
        }
        let mut a = self.position;
        while a < le && (self.input[a] == ' ' || self.input[a] == '\t' || self.input[a] == '\r')
            invariant
                self.wf(),
                start == self.position,
                self.position <= a <= le,
                le <= self.input@.len(),
                trim_start(self.input@, a as int, le as int) == trim_start(self.input@, start, le as int),
            decreases le - a,
        {
            a += 1;
        }
        let mut b = le;
        while b > a && (self.input[b - 1] == ' ' || self.input[b - 1] == '\t' || self.input[b - 1] == '\r')
            invariant
                self.wf(),
                a <= b <= le,
                le <= self.input@.len(),
                trim_end(self.input@, a as int, b as int) == trim_end(self.input@, a as int, le as int),
            decreases b,
        {
            b -= 1;
        }
        let text = string_from_range(&self.input, a, b);
        while self.position < le
            invariant
                self.wf(),
                self.input@ == input,
                start <= self.position <= le,
                le <= self.input@.len(),
            decreases le - self.position,
        {
            self.advance();
        }
        if self.position < self.input.len() {
            self.advance();
        }
        text
    }
}

} // verus!
