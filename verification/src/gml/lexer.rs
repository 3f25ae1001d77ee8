//! The lexer: source text to tokens.
//!
//! The contracts number the characters of the source. [`item_at`] says what
//! begins at a character, and [`tokens_from`] and [`errors_from`] collect the
//! items from there to the end.

use vstd::prelude::*;
use vstd::utf8::encode_utf8;

use crate::gml::ast::{Accessor, Span};
use crate::gml::spans::{in_source, lemma_covers};
use crate::gml::{reports, Diagnostic, Report};
use crate::text::{
    ascii_digit, ascii_hex_digit, char_width, characters, is_digit, is_hex_digit,
    lemma_offset_bounds, lemma_offset_next, offset_at, spells, unicode_alphabetic, unicode_alphanumeric,
    unicode_whitespace,
};

verus! {

/// A token of the source.
#[derive(Debug, Clone, Copy, PartialEq, Eq, Structural)]
pub struct Token {
    pub kind: TokenKind,
    pub span: Span,
}

/// What a token is.
#[derive(Debug, Clone, Copy, PartialEq, Eq, Structural)]
pub enum TokenKind {
    Eof,
    Identifier,
    Number,
    String,
    Begin,
    End,
    If,
    Then,
    Else,
    While,
    Do,
    For,
    Until,
    Repeat,
    Exit,
    Break,
    Continue,
    With,
    Return,
    Switch,
    Case,
    Default,
    Var,
    GlobalVar,
    Enum,
    Struct,
    LeftParen,
    RightParen,
    AccessorOpen(Accessor),
    RightBracket,
    Semicolon,
    Comma,
    Dot,
    Colon,
    Question,
    Assign,
    AddAssign,
    SubtractAssign,
    MultiplyAssign,
    DivideAssign,
    ModuloAssign,
    BitOrAssign,
    BitAndAssign,
    BitXorAssign,
    LogicalOr,
    LogicalAnd,
    LogicalXor,
    Not,
    Equal,
    NotEqual,
    Less,
    LessEqual,
    Greater,
    GreaterEqual,
    BitOr,
    BitAnd,
    BitXor,
    BitNot,
    ShiftLeft,
    ShiftRight,
    Add,
    Subtract,
    Multiply,
    Divide,
    IntegerDivide,
    Modulo,
    Increment,
    Decrement,
}

/// The line of the character numbered `index`, counted from one.
pub open spec fn line_at(source: Seq<char>, index: int) -> nat
    decreases index,
{
    if index <= 0 {
        1
    } else if source[index - 1] == '\n' {
        line_at(source, index - 1) + 1
    } else {
        line_at(source, index - 1)
    }
}

/// The column of the character numbered `index`, counted from one.
pub open spec fn column_at(source: Seq<char>, index: int) -> nat
    decreases index,
{
    if index <= 0 || source[index - 1] == '\n' {
        1
    } else {
        column_at(source, index - 1) + 1
    }
}

/// The span of the characters from `start` up to `end`.
pub open spec fn span_between(source: Seq<char>, start: int, end: int) -> Span {
    Span {
        start: offset_at(source, start) as u32,
        end: offset_at(source, end) as u32,
        line: line_at(source, start) as u32,
        column: column_at(source, start) as u32,
    }
}

/// A set of characters that a run is made of.
#[derive(Clone, Copy)]
pub enum CharClass {
    Digit,
    HexDigit,
    IdentifierPart,
    Except(char),
}

impl CharClass {
    /// Whether a character belongs to the set.
    pub open spec fn has(self, character: char) -> bool {
        match self {
            CharClass::Digit => ascii_digit(character),
            CharClass::HexDigit => ascii_hex_digit(character),
            CharClass::IdentifierPart => character == '_' || unicode_alphanumeric(character),
            CharClass::Except(other) => character != other,
        }
    }

    fn holds(self, character: char) -> (result: bool)
        ensures
            result == self.has(character),
    {
        match self {
            CharClass::Digit => is_digit(character),
            CharClass::HexDigit => is_hex_digit(character),
            CharClass::IdentifierPart => character == '_' || character.is_alphanumeric(),
            CharClass::Except(other) => character != other,
        }
    }
}

/// The end of the longest run of characters of a set.
pub open spec fn run_end(source: Seq<char>, index: int, class: CharClass) -> int
    decreases source.len() - index,
{
    if 0 <= index < source.len() && class.has(source[index]) {
        run_end(source, index + 1, class)
    } else {
        index
    }
}

/// Whether two given characters stand at an index.
pub open spec fn pair_at(source: Seq<char>, index: int, first: char, second: char) -> bool {
    0 <= index && index + 1 < source.len() && source[index] == first && source[index + 1] == second
}

/// The index of the first `*/`, or the end of the source.
pub open spec fn comment_close(source: Seq<char>, index: int) -> int
    decreases source.len() - index,
{
    if index >= source.len() || pair_at(source, index, '*', '/') {
        index
    } else {
        comment_close(source, index + 1)
    }
}

/// What begins at a character: the index behind it, its token, if it is one,
/// and what is wrong with it, if anything.
pub struct Item {
    pub end: int,
    pub kind: Option<TokenKind>,
    pub error: Option<Seq<char>>,
}

/// The kind of a word: a keyword or an identifier.
pub open spec fn word_kind(word: Seq<char>) -> TokenKind {
    if word == "begin"@ {
        TokenKind::Begin
    } else if word == "end"@ {
        TokenKind::End
    } else if word == "if"@ {
        TokenKind::If
    } else if word == "then"@ {
        TokenKind::Then
    } else if word == "else"@ {
        TokenKind::Else
    } else if word == "while"@ {
        TokenKind::While
    } else if word == "do"@ {
        TokenKind::Do
    } else if word == "for"@ {
        TokenKind::For
    } else if word == "until"@ {
        TokenKind::Until
    } else if word == "repeat"@ {
        TokenKind::Repeat
    } else if word == "exit"@ {
        TokenKind::Exit
    } else if word == "break"@ {
        TokenKind::Break
    } else if word == "continue"@ {
        TokenKind::Continue
    } else if word == "with"@ {
        TokenKind::With
    } else if word == "return"@ {
        TokenKind::Return
    } else if word == "switch"@ {
        TokenKind::Switch
    } else if word == "case"@ {
        TokenKind::Case
    } else if word == "default"@ {
        TokenKind::Default
    } else if word == "var"@ {
        TokenKind::Var
    } else if word == "globalvar"@ {
        TokenKind::GlobalVar
    } else if word == "enum"@ {
        TokenKind::Enum
    } else if word == "struct"@ {
        TokenKind::Struct
    } else if word == "and"@ {
        TokenKind::LogicalAnd
    } else if word == "or"@ {
        TokenKind::LogicalOr
    } else if word == "xor"@ {
        TokenKind::LogicalXor
    } else if word == "not"@ {
        TokenKind::Not
    } else if word == "div"@ {
        TokenKind::IntegerDivide
    } else if word == "mod"@ {
        TokenKind::Modulo
    } else {
        TokenKind::Identifier
    }
}

/// The accessor that `[`, a letter and `:` open.
pub open spec fn typed_accessor(letter: char) -> Option<Accessor> {
    if letter == 'b' {
        Some(Accessor::Int8)
    } else if letter == 'x' {
        Some(Accessor::Int16)
    } else if letter == 'i' {
        Some(Accessor::Int32)
    } else if letter == 'B' {
        Some(Accessor::UInt8)
    } else if letter == 'X' {
        Some(Accessor::UInt16)
    } else if letter == 'I' {
        Some(Accessor::UInt32)
    } else if letter == 'f' {
        Some(Accessor::Float32)
    } else if letter == 'd' {
        Some(Accessor::Float64)
    } else {
        None
    }
}

/// The operator that two characters spell.
pub open spec fn pair_kind(first: char, second: char) -> Option<TokenKind> {
    match (first, second) {
        ('[', '?') => Some(TokenKind::AccessorOpen(Accessor::DsMap)),
        ('[', '#') => Some(TokenKind::AccessorOpen(Accessor::Grid)),
        ('[', '|') => Some(TokenKind::AccessorOpen(Accessor::List)),
        ('[', '@') => Some(TokenKind::AccessorOpen(Accessor::ArrayDirect)),
        ('<', '<') => Some(TokenKind::ShiftLeft),
        ('>', '>') => Some(TokenKind::ShiftRight),
        ('<', '=') => Some(TokenKind::LessEqual),
        ('>', '=') => Some(TokenKind::GreaterEqual),
        ('=', '=') => Some(TokenKind::Equal),
        ('!', '=') => Some(TokenKind::NotEqual),
        ('<', '>') => Some(TokenKind::NotEqual),
        ('&', '&') => Some(TokenKind::LogicalAnd),
        ('|', '|') => Some(TokenKind::LogicalOr),
        ('^', '^') => Some(TokenKind::LogicalXor),
        ('+', '+') => Some(TokenKind::Increment),
        ('-', '-') => Some(TokenKind::Decrement),
        ('+', '=') => Some(TokenKind::AddAssign),
        ('-', '=') => Some(TokenKind::SubtractAssign),
        ('*', '=') => Some(TokenKind::MultiplyAssign),
        ('/', '=') => Some(TokenKind::DivideAssign),
        ('%', '=') => Some(TokenKind::ModuloAssign),
        ('|', '=') => Some(TokenKind::BitOrAssign),
        ('&', '=') => Some(TokenKind::BitAndAssign),
        ('^', '=') => Some(TokenKind::BitXorAssign),
        (':', '=') => Some(TokenKind::Assign),
        _ => None,
    }
}

/// The token that one character spells.
pub open spec fn single_kind(character: char) -> Option<TokenKind> {
    match character {
        '{' => Some(TokenKind::Begin),
        '}' => Some(TokenKind::End),
        '(' => Some(TokenKind::LeftParen),
        ')' => Some(TokenKind::RightParen),
        '[' => Some(TokenKind::AccessorOpen(Accessor::Array)),
        ']' => Some(TokenKind::RightBracket),
        ';' => Some(TokenKind::Semicolon),
        ',' => Some(TokenKind::Comma),
        '.' => Some(TokenKind::Dot),
        ':' => Some(TokenKind::Colon),
        '?' => Some(TokenKind::Question),
        '=' => Some(TokenKind::Assign),
        '!' => Some(TokenKind::Not),
        '<' => Some(TokenKind::Less),
        '>' => Some(TokenKind::Greater),
        '|' => Some(TokenKind::BitOr),
        '&' => Some(TokenKind::BitAnd),
        '^' => Some(TokenKind::BitXor),
        '~' => Some(TokenKind::BitNot),
        '+' => Some(TokenKind::Add),
        '-' => Some(TokenKind::Subtract),
        '*' => Some(TokenKind::Multiply),
        '/' => Some(TokenKind::Divide),
        '%' => Some(TokenKind::Modulo),
        _ => None,
    }
}

/// How the standard library's `Debug` writes a character.
pub uninterp spec fn debug_character(character: char) -> Seq<char>;

/// Formats a character with the standard library's `Debug`, which depends on
/// the character alone.
#[verifier::external_body]
fn debug_text(character: char) -> (text: String)
    ensures
        text@ == debug_character(character),
{
    format!("{character:?}")
}

/// A number that begins at an index: a hexadecimal one behind `$` or `0x`, or a
/// decimal one with an optional fraction and exponent.
pub open spec fn number_item(source: Seq<char>, start: int) -> Item {
    if source[start] == '$' {
        Item {
            end: run_end(source, start + 1, CharClass::HexDigit),
            kind: Some(TokenKind::Number),
            error: None,
        }
    } else if pair_at(source, start, '0', 'x') || pair_at(source, start, '0', 'X') {
        let end = run_end(source, start + 2, CharClass::HexDigit);
        Item {
            end,
            kind: Some(TokenKind::Number),
            error: if end == start + 2 {
                Some("hex literal requires at least one digit"@)
            } else {
                None
            },
        }
    } else {
        let whole = run_end(source, start, CharClass::Digit);
        let fraction = if whole < source.len() && source[whole] == '.' {
            run_end(source, whole + 1, CharClass::Digit)
        } else {
            whole
        };
        if fraction < source.len() && (source[fraction] == 'e' || source[fraction] == 'E') {
            let sign = if fraction + 1 < source.len() && (source[fraction + 1] == '+'
                || source[fraction + 1] == '-') {
                fraction + 2
            } else {
                fraction + 1
            };
            let end = run_end(source, sign, CharClass::Digit);
            Item {
                end,
                kind: Some(TokenKind::Number),
                error: if end == sign {
                    Some("exponent requires at least one digit"@)
                } else {
                    None
                },
            }
        } else {
            Item { end: fraction, kind: Some(TokenKind::Number), error: None }
        }
    }
}

/// A string that begins at an index: everything up to the next quote of the
/// same kind. A backslash is an ordinary character.
pub open spec fn string_item(source: Seq<char>, start: int) -> Item {
    let close = run_end(source, start + 1, CharClass::Except(source[start]));
    if close < source.len() {
        Item { end: close + 1, kind: Some(TokenKind::String), error: None }
    } else {
        Item {
            end: close,
            kind: Some(TokenKind::String),
            error: Some("unterminated string literal"@),
        }
    }
}

/// A symbol that begins at an index: the longest that matches.
pub open spec fn symbol_item(source: Seq<char>, start: int) -> Item {
    let first = source[start];
    if first == '[' && start + 2 < source.len() && source[start + 2] == ':' && typed_accessor(
        source[start + 1],
    ) is Some {
        Item {
            end: start + 3,
            kind: Some(TokenKind::AccessorOpen(typed_accessor(source[start + 1])->0)),
            error: None,
        }
    } else if start + 1 < source.len() && pair_kind(first, source[start + 1]) is Some {
        Item { end: start + 2, kind: pair_kind(first, source[start + 1]), error: None }
    } else if single_kind(first) is Some {
        Item { end: start + 1, kind: single_kind(first), error: None }
    } else {
        Item {
            end: start + 1,
            kind: None,
            error: Some("unexpected character "@ + debug_character(first)),
        }
    }
}

/// Whether a number begins at an index.
pub open spec fn number_starts(source: Seq<char>, index: int) -> bool {
    let first = source[index];
    ||| ascii_digit(first)
    ||| first == '.' && index + 1 < source.len() && ascii_digit(source[index + 1])
    ||| first == '$' && index + 1 < source.len() && ascii_hex_digit(source[index + 1])
}

/// Whether blank space or a comment begins at an index. A line that begins
/// with `#` counts as a comment from there on.
pub open spec fn trivia_starts(source: Seq<char>, index: int) -> bool {
    ||| unicode_whitespace(source[index])
    ||| pair_at(source, index, '/', '/')
    ||| pair_at(source, index, '/', '*')
    ||| source[index] == '#'
}

/// Blank space or a comment that begins at an index.
pub open spec fn trivia_item(source: Seq<char>, start: int) -> Item {
    if unicode_whitespace(source[start]) {
        Item { end: start + 1, kind: None, error: None }
    } else if pair_at(source, start, '/', '/') {
        Item {
            end: run_end(source, start + 2, CharClass::Except('\n')),
            kind: None,
            error: None,
        }
    } else if pair_at(source, start, '/', '*') {
        let close = comment_close(source, start + 2);
        if pair_at(source, close, '*', '/') {
            Item { end: close + 2, kind: None, error: None }
        } else {
            Item { end: close, kind: None, error: Some("unterminated block comment"@) }
        }
    } else {
        Item { end: run_end(source, start, CharClass::Except('\n')), kind: None, error: None }
    }
}

/// What begins at a character of the source.
pub open spec fn item_at(source: Seq<char>, index: int) -> Item {
    let first = source[index];
    if trivia_starts(source, index) {
        trivia_item(source, index)
    } else if first == '_' || unicode_alphabetic(first) {
        let end = run_end(source, index + 1, CharClass::IdentifierPart);
        Item { end, kind: Some(word_kind(source.subrange(index, end))), error: None }
    } else if number_starts(source, index) {
        number_item(source, index)
    } else if first == '\'' || first == '"' {
        string_item(source, index)
    } else {
        symbol_item(source, index)
    }
}

/// The tokens from an index to the end of the source.
pub open spec fn tokens_from(source: Seq<char>, index: int) -> Seq<Token>
    decreases source.len() - index,
{
    if index < 0 || index >= source.len() {
        seq![Token { kind: TokenKind::Eof, span: span_between(source, index, index) }]
    } else {
        let item = item_at(source, index);
        proof {
            lemma_item_end(source, index);
        }
        let rest = tokens_from(source, item.end);
        match item.kind {
            None => rest,
            Some(kind) => seq![Token { kind, span: span_between(source, index, item.end) }] + rest,
        }
    }
}

/// The errors from an index to the end of the source.
pub open spec fn errors_from(source: Seq<char>, index: int) -> Seq<Report>
    decreases source.len() - index,
{
    if index < 0 || index >= source.len() {
        seq![]
    } else {
        let item = item_at(source, index);
        proof {
            lemma_item_end(source, index);
        }
        let rest = errors_from(source, item.end);
        match item.error {
            None => rest,
            Some(message) => seq![
                Report { message, span: span_between(source, index, item.end) },
            ] + rest,
        }
    }
}

pub proof fn lemma_run_end(source: Seq<char>, index: int, class: CharClass)
    ensures
        index <= run_end(source, index, class),
        index <= source.len() ==> run_end(source, index, class) <= source.len(),
    decreases source.len() - index,
{
    if 0 <= index < source.len() && class.has(source[index]) {
        lemma_run_end(source, index + 1, class);
    }
}

pub proof fn lemma_comment_close(source: Seq<char>, index: int)
    ensures
        index <= comment_close(source, index),
        index <= source.len() ==> comment_close(source, index) <= source.len(),
    decreases source.len() - index,
{
    if !(index >= source.len() || pair_at(source, index, '*', '/')) {
        lemma_comment_close(source, index + 1);
    }
}

/// Each item takes at least one character and ends within the source.
pub proof fn lemma_item_end(source: Seq<char>, index: int)
    requires
        0 <= index < source.len(),
    ensures
        index < item_at(source, index).end <= source.len(),
{
    let first = source[index];
    lemma_run_end(source, index + 1, CharClass::IdentifierPart);
    lemma_run_end(source, index + 1, CharClass::HexDigit);
    lemma_run_end(source, index + 1, CharClass::Except(first));
    lemma_run_end(source, index + 1, CharClass::Except('\n'));
    lemma_run_end(source, index + 1, CharClass::Digit);
    if index + 2 <= source.len() {
        lemma_run_end(source, index + 2, CharClass::HexDigit);
        lemma_run_end(source, index + 2, CharClass::Except('\n'));
        lemma_comment_close(source, index + 2);
    }
    let whole = run_end(source, index, CharClass::Digit);
    lemma_run_end(source, index, CharClass::Digit);
    lemma_run_end(source, whole + 1, CharClass::Digit);
    let fraction = if whole < source.len() && source[whole] == '.' {
        run_end(source, whole + 1, CharClass::Digit)
    } else {
        whole
    };
    lemma_run_end(source, fraction + 1, CharClass::Digit);
    lemma_run_end(source, fraction + 2, CharClass::Digit);
}

/// Returns the tokens of a source, which end with the end of the file, or the
/// errors in it.
pub fn lex(source: &str) -> (result: Result<Vec<Token>, Vec<Diagnostic>>)
    ensures
        if encode_utf8(source@).len() > u32::MAX {
            result matches Err(errors) && reports(errors@) == seq![
                Report {
                    message: "GML source is larger than 4 GiB"@,
                    span: Span { start: 0, end: 0, line: 0, column: 0 },
                },
            ]
        } else {
            match result {
                Ok(tokens) => errors_from(source@, 0).len() == 0 && tokens@ == tokens_from(
                    source@,
                    0,
                ),
                Err(errors) => errors@.len() > 0 && reports(errors@) == errors_from(source@, 0),
            }
        },
{
    let bytes = source.as_bytes();
    if bytes.len() as u64 > u32::MAX as u64 {
        let mut errors: Vec<Diagnostic> = Vec::new();
        errors.push(Diagnostic::new("GML source is larger than 4 GiB", Span::default()));
        assert(reports(errors@) =~= seq![
            Report {
                message: "GML source is larger than 4 GiB"@,
                span: Span { start: 0, end: 0, line: 0, column: 0 },
            },
        ]);
        return Err(errors);
    }
    let lexer = Lexer::new(source);
    lexer.run()
}

struct Lexer {
    source: Vec<char>,
    position: usize,
    offset: u32,
    line: u64,
    column: u64,
    tokens: Vec<Token>,
    errors: Vec<Diagnostic>,
}

#[derive(Clone, Copy)]
struct Mark {
    index: usize,
    offset: u32,
    line: u64,
    column: u64,
}

impl Mark {
    spec fn at(self, source: Seq<char>, index: int) -> bool {
        &&& self.index == index
        &&& self.offset == offset_at(source, index)
        &&& self.line == line_at(source, index)
        &&& self.column == column_at(source, index)
    }

    fn finish(self, end: u32) -> (span: Span)
        ensures
            span == (Span {
                start: self.offset,
                end,
                line: self.line as u32,
                column: self.column as u32,
            }),
    {
        Span { start: self.offset, end, line: self.line as u32, column: self.column as u32 }
    }
}

proof fn lemma_line_column(source: Seq<char>, index: int)
    requires
        0 <= index,
    ensures
        1 <= line_at(source, index) <= index + 1,
        1 <= column_at(source, index) <= index + 1,
    decreases index,
{
    if index > 0 {
        lemma_line_column(source, index - 1);
    }
}

impl Lexer {
    spec fn wf(&self) -> bool {
        &&& self.position <= self.source@.len()
        &&& encode_utf8(self.source@).len() <= u32::MAX
        &&& self.offset == offset_at(self.source@, self.position as int)
        &&& self.line == line_at(self.source@, self.position as int)
        &&& self.column == column_at(self.source@, self.position as int)
    }

    /// Whether this lexer went on from another by moving over characters.
    spec fn moved(&self, from: &Lexer, position: int) -> bool {
        &&& self.wf()
        &&& self.position == position
        &&& self.source == from.source
        &&& self.tokens == from.tokens
        &&& self.errors == from.errors
    }

    /// Whether this lexer went on from another by taking an item.
    spec fn took(&self, from: &Lexer, item: Item) -> bool {
        let span = span_between(from.source@, from.position as int, item.end);
        &&& self.wf()
        &&& self.position == item.end
        &&& self.source == from.source
        &&& self.tokens@ == match item.kind {
            None => from.tokens@,
            Some(kind) => from.tokens@.push(Token { kind, span }),
        }
        &&& reports(self.errors@) == match item.error {
            None => reports(from.errors@),
            Some(message) => reports(from.errors@).push(Report { message, span }),
        }
    }

    fn new(source: &str) -> (lexer: Self)
        requires
            encode_utf8(source@).len() <= u32::MAX,
        ensures
            lexer.wf(),
            lexer.source@ == source@,
            lexer.position == 0,
            lexer.tokens@.len() == 0,
            lexer.errors@.len() == 0,
    {
        proof {
            lemma_offset_bounds(source@, 0, 0);
        }
        Lexer {
            source: characters(source),
            position: 0,
            offset: 0,
            line: 1,
            column: 1,
            tokens: Vec::new(),
            errors: Vec::new(),
        }
    }

    fn run(self) -> (result: Result<Vec<Token>, Vec<Diagnostic>>)
        requires
            self.wf(),
            self.position == 0,
            self.tokens@.len() == 0,
            self.errors@.len() == 0,
        ensures
            match result {
                Ok(tokens) => errors_from(self.source@, 0).len() == 0 && tokens@ == tokens_from(
                    self.source@,
                    0,
                ),
                Err(errors) => errors@.len() > 0 && reports(errors@) == errors_from(
                    self.source@,
                    0,
                ),
            },
    {
        let mut lexer = self;
        let ghost source = self.source@;
        assert(lexer.tokens@ + tokens_from(source, 0) =~= tokens_from(source, 0));
        assert(reports(lexer.errors@) + errors_from(source, 0) =~= errors_from(source, 0));
        while lexer.position < lexer.source.len()
            invariant
                lexer.wf(),
                lexer.source@ == source,
                lexer.tokens@ + tokens_from(source, lexer.position as int) == tokens_from(
                    source,
                    0,
                ),
                reports(lexer.errors@) + errors_from(source, lexer.position as int) == errors_from(
                    source,
                    0,
                ),
            decreases lexer.source.len() - lexer.position,
        {
            let ghost before = lexer;
            let ghost start = lexer.position as int;
            let ghost item = item_at(source, start);
            proof {
                lemma_item_end(source, start);
            }
            lexer.item();
            proof {
                let rest = tokens_from(source, item.end);
                match item.kind {
                    None => {},
                    Some(kind) => {
                        let token = Token { kind, span: span_between(source, start, item.end) };
                        assert(before.tokens@ + (seq![token] + rest) =~= before.tokens@.push(token)
                            + rest);
                    },
                }
                let rest = errors_from(source, item.end);
                match item.error {
                    None => {},
                    Some(message) => {
                        let report = Report {
                            message,
                            span: span_between(source, start, item.end),
                        };
                        assert(reports(before.errors@) + (seq![report] + rest) =~= reports(
                            before.errors@,
                        ).push(report) + rest);
                    },
                }
            }
        }
        let span = lexer.mark().finish(lexer.offset);
        assert(span == span_between(source, lexer.position as int, lexer.position as int));
        let eof = Token { kind: TokenKind::Eof, span };
        assert(lexer.tokens@.push(eof) =~= lexer.tokens@ + seq![eof]);
        lexer.tokens.push(eof);
        assert(reports(lexer.errors@) =~= reports(lexer.errors@) + seq![]);
        if lexer.errors.len() == 0 {
            assert(reports(lexer.errors@).len() == 0);
            Ok(lexer.tokens)
        } else {
            Err(lexer.errors)
        }
    }

    /// Takes the item at the current position.
    fn item(&mut self)
        requires
            old(self).wf(),
            old(self).position < old(self).source@.len(),
        ensures
            final(self).took(
                old(self),
                item_at(old(self).source@, old(self).position as int),
            ),
    {
        if self.skip_trivia() {
            return ;
        }
        let character = self.source[self.position];
        if character == '_' || character.is_alphabetic() {
            self.identifier();
        } else if is_digit(character) || (character == '.' && self.source.len() - self.position
            > 1 && is_digit(self.source[self.position + 1])) || (character == '$'
            && self.source.len() - self.position > 1 && is_hex_digit(
            self.source[self.position + 1],
        )) {
            self.number();
        } else if character == '\'' || character == '"' {
            self.string(character);
        } else {
            self.symbol();
        }
    }

    fn skip_trivia(&mut self) -> (skipped: bool)
        requires
            old(self).wf(),
            old(self).position < old(self).source@.len(),
        ensures
            skipped == trivia_starts(old(self).source@, old(self).position as int),
            if skipped {
                final(self).took(
                    old(self),
                    trivia_item(old(self).source@, old(self).position as int),
                )
            } else {
                *final(self) == *old(self)
            },
    {
        let ghost start = *self;
        let character = self.source[self.position];
        if character.is_whitespace() {
            self.advance();
            return true;
        }
        if self.starts_with('/', '/') {
            self.advance();
            self.advance();
            self.take_while(CharClass::Except('\n'));
            return true;
        }
        if self.starts_with('/', '*') {
            let mark = self.mark();
            self.advance();
            self.advance();
            let ghost source = self.source@;
            while self.position < self.source.len() && !self.starts_with('*', '/')
                invariant
                    self.moved(&start, self.position as int),
                    source == self.source@,
                    start.position + 2 <= self.position,
                    comment_close(source, start.position + 2) == comment_close(
                        source,
                        self.position as int,
                    ),
                decreases self.source.len() - self.position,
            {
                self.advance();
            }
            if self.starts_with('*', '/') {
                self.advance();
                self.advance();
            } else {
                self.report("unterminated block comment", mark);
            }
            return true;
        }
        if character == '#' {
            self.take_while(CharClass::Except('\n'));
            return true;
        }
        false
    }

    fn identifier(&mut self)
        requires
            old(self).wf(),
            old(self).position < old(self).source@.len(),
        ensures
            ({
                let start = old(self).position as int;
                let end = run_end(old(self).source@, start + 1, CharClass::IdentifierPart);
                final(self).took(
                    old(self),
                    Item {
                        end,
                        kind: Some(word_kind(old(self).source@.subrange(start, end))),
                        error: None,
                    },
                )
            }),
    {
        let start = self.mark();
        self.advance();
        self.take_while(CharClass::IdentifierPart);
        proof {
            lemma_run_end(self.source@, start.index + 1, CharClass::IdentifierPart);
        }
        let word = vstd::slice::slice_subrange(
            self.source.as_slice(),
            start.index,
            self.position,
        );
        let kind = keyword(word);
        self.push(kind, start);
    }

    fn number(&mut self)
        requires
            old(self).wf(),
            old(self).position < old(self).source@.len(),
        ensures
            final(self).took(
                old(self),
                number_item(old(self).source@, old(self).position as int),
            ),
    {
        let start = self.mark();
        if self.source[self.position] == '$' {
            self.advance();
            self.take_while(CharClass::HexDigit);
            self.push(TokenKind::Number, start);
            return ;
        }
        if self.starts_with('0', 'x') || self.starts_with('0', 'X') {
            self.advance();
            self.advance();
            let digits: usize = self.position;
            self.take_while(CharClass::HexDigit);
            if digits == self.position {
                self.report("hex literal requires at least one digit", start);
            }
            self.push(TokenKind::Number, start);
            return ;
        }
        self.take_while(CharClass::Digit);
        if self.position < self.source.len() && self.source[self.position] == '.' {
            self.advance();
            self.take_while(CharClass::Digit);
        }
        if self.position < self.source.len() && (self.source[self.position] == 'e'
            || self.source[self.position] == 'E') {
            self.advance();
            if self.position < self.source.len() && (self.source[self.position] == '+'
                || self.source[self.position] == '-') {
                self.advance();
            }
            let digits: usize = self.position;
            self.take_while(CharClass::Digit);
            if digits == self.position {
                self.report("exponent requires at least one digit", start);
            }
        }
        self.push(TokenKind::Number, start);
    }

    fn string(&mut self, quote: char)
        requires
            old(self).wf(),
            old(self).position < old(self).source@.len(),
            old(self).source@[old(self).position as int] == quote,
        ensures
            final(self).took(
                old(self),
                string_item(old(self).source@, old(self).position as int),
            ),
    {
        let start = self.mark();
        self.advance();
        self.take_while(CharClass::Except(quote));
        if self.position < self.source.len() {
            self.advance();
        } else {
            self.report("unterminated string literal", start);
        }
        self.push(TokenKind::String, start);
    }

    fn symbol(&mut self)
        requires
            old(self).wf(),
            old(self).position < old(self).source@.len(),
        ensures
            final(self).took(
                old(self),
                symbol_item(old(self).source@, old(self).position as int),
            ),
    {
        let start = self.mark();
        let first = self.source[self.position];
        let left: usize = self.source.len() - self.position;
        if first == '[' && left > 2 && self.source[self.position + 2] == ':' {
            if let Some(accessor) = accessor_letter(self.source[self.position + 1]) {
                self.advance();
                self.advance();
                self.advance();
                self.push(TokenKind::AccessorOpen(accessor), start);
                return ;
            }
        }
        if left > 1 {
            if let Some(kind) = symbol_pair(first, self.source[self.position + 1]) {
                self.advance();
                self.advance();
                self.push(kind, start);
                return ;
            }
        }
        self.advance();
        match symbol_single(first) {
            Some(kind) => {
                self.push(kind, start);
            },
            None => {
                let mut message = "unexpected character ".to_owned();
                let character = debug_text(first);
                message.append(character.as_str());
                self.report(message.as_str(), start);
            },
        }
    }

    fn push(&mut self, kind: TokenKind, start: Mark)
        requires
            old(self).wf(),
            start.at(old(self).source@, start.index as int),
        ensures
            final(self).wf(),
            final(self).position == old(self).position,
            final(self).source == old(self).source,
            final(self).errors == old(self).errors,
            final(self).tokens@ == old(self).tokens@.push(
                Token {
                    kind,
                    span: span_between(
                        old(self).source@,
                        start.index as int,
                        old(self).position as int,
                    ),
                },
            ),
    {
        let span = start.finish(self.offset);
        self.tokens.push(Token { kind, span });
    }

    fn report(&mut self, message: &str, start: Mark)
        requires
            old(self).wf(),
            start.at(old(self).source@, start.index as int),
        ensures
            final(self).wf(),
            final(self).position == old(self).position,
            final(self).source == old(self).source,
            final(self).tokens == old(self).tokens,
            reports(final(self).errors@) == reports(old(self).errors@).push(
                Report {
                    message: message@,
                    span: span_between(
                        old(self).source@,
                        start.index as int,
                        old(self).position as int,
                    ),
                },
            ),
    {
        let span = start.finish(self.offset);
        let ghost before = self.errors@;
        self.errors.push(Diagnostic::new(message, span));
        assert(reports(self.errors@) =~= reports(before).push(Report { message: message@, span }));
    }

    fn take_while(&mut self, class: CharClass)
        requires
            old(self).wf(),
        ensures
            final(self).moved(
                old(self),
                run_end(old(self).source@, old(self).position as int, class),
            ),
    {
        let ghost start = *self;
        while self.position < self.source.len() && class.holds(self.source[self.position])
            invariant
                self.moved(&start, self.position as int),
                run_end(self.source@, start.position as int, class) == run_end(
                    self.source@,
                    self.position as int,
                    class,
                ),
            decreases self.source.len() - self.position,
        {
            self.advance();
        }
    }

    fn starts_with(&self, first: char, second: char) -> (result: bool)
        requires
            self.wf(),
        ensures
            result == pair_at(self.source@, self.position as int, first, second),
    {
        self.source.len() - self.position > 1 && self.source[self.position] == first
            && self.source[self.position + 1] == second
    }

    fn advance(&mut self)
        requires
            old(self).wf(),
            old(self).position < old(self).source@.len(),
        ensures
            final(self).moved(old(self), old(self).position + 1),
    {
        let character = self.source[self.position];
        proof {
            let source = self.source@;
            let index = self.position as int;
            lemma_offset_next(source, index);
            lemma_offset_bounds(source, index, index + 1);
            lemma_offset_bounds(source, 0, source.len() as int);
            lemma_line_column(source, index);
        }
        self.offset = self.offset + char_width(character) as u32;
        self.position = self.position + 1;
        if character == '\n' {
            self.line = self.line + 1;
            self.column = 1;
        } else {
            self.column = self.column + 1;
        }
    }

    fn mark(&self) -> (mark: Mark)
        requires
            self.wf(),
        ensures
            mark.at(self.source@, self.position as int),
    {
        Mark { index: self.position, offset: self.offset, line: self.line, column: self.column }
    }
}

fn keyword(word: &[char]) -> (kind: TokenKind)
    ensures
        kind == word_kind(word@),
{
    if spells(word, "begin") {
        TokenKind::Begin
    } else if spells(word, "end") {
        TokenKind::End
    } else if spells(word, "if") {
        TokenKind::If
    } else if spells(word, "then") {
        TokenKind::Then
    } else if spells(word, "else") {
        TokenKind::Else
    } else if spells(word, "while") {
        TokenKind::While
    } else if spells(word, "do") {
        TokenKind::Do
    } else if spells(word, "for") {
        TokenKind::For
    } else if spells(word, "until") {
        TokenKind::Until
    } else if spells(word, "repeat") {
        TokenKind::Repeat
    } else if spells(word, "exit") {
        TokenKind::Exit
    } else if spells(word, "break") {
        TokenKind::Break
    } else if spells(word, "continue") {
        TokenKind::Continue
    } else if spells(word, "with") {
        TokenKind::With
    } else if spells(word, "return") {
        TokenKind::Return
    } else if spells(word, "switch") {
        TokenKind::Switch
    } else if spells(word, "case") {
        TokenKind::Case
    } else if spells(word, "default") {
        TokenKind::Default
    } else if spells(word, "var") {
        TokenKind::Var
    } else if spells(word, "globalvar") {
        TokenKind::GlobalVar
    } else if spells(word, "enum") {
        TokenKind::Enum
    } else if spells(word, "struct") {
        TokenKind::Struct
    } else if spells(word, "and") {
        TokenKind::LogicalAnd
    } else if spells(word, "or") {
        TokenKind::LogicalOr
    } else if spells(word, "xor") {
        TokenKind::LogicalXor
    } else if spells(word, "not") {
        TokenKind::Not
    } else if spells(word, "div") {
        TokenKind::IntegerDivide
    } else if spells(word, "mod") {
        TokenKind::Modulo
    } else {
        TokenKind::Identifier
    }
}

fn accessor_letter(letter: char) -> (accessor: Option<Accessor>)
    ensures
        accessor == typed_accessor(letter),
{
    if letter == 'b' {
        Some(Accessor::Int8)
    } else if letter == 'x' {
        Some(Accessor::Int16)
    } else if letter == 'i' {
        Some(Accessor::Int32)
    } else if letter == 'B' {
        Some(Accessor::UInt8)
    } else if letter == 'X' {
        Some(Accessor::UInt16)
    } else if letter == 'I' {
        Some(Accessor::UInt32)
    } else if letter == 'f' {
        Some(Accessor::Float32)
    } else if letter == 'd' {
        Some(Accessor::Float64)
    } else {
        None
    }
}

fn symbol_pair(first: char, second: char) -> (kind: Option<TokenKind>)
    ensures
        kind == pair_kind(first, second),
{
    match (first, second) {
        ('[', '?') => Some(TokenKind::AccessorOpen(Accessor::DsMap)),
        ('[', '#') => Some(TokenKind::AccessorOpen(Accessor::Grid)),
        ('[', '|') => Some(TokenKind::AccessorOpen(Accessor::List)),
        ('[', '@') => Some(TokenKind::AccessorOpen(Accessor::ArrayDirect)),
        ('<', '<') => Some(TokenKind::ShiftLeft),
        ('>', '>') => Some(TokenKind::ShiftRight),
        ('<', '=') => Some(TokenKind::LessEqual),
        ('>', '=') => Some(TokenKind::GreaterEqual),
        ('=', '=') => Some(TokenKind::Equal),
        ('!', '=') => Some(TokenKind::NotEqual),
        ('<', '>') => Some(TokenKind::NotEqual),
        ('&', '&') => Some(TokenKind::LogicalAnd),
        ('|', '|') => Some(TokenKind::LogicalOr),
        ('^', '^') => Some(TokenKind::LogicalXor),
        ('+', '+') => Some(TokenKind::Increment),
        ('-', '-') => Some(TokenKind::Decrement),
        ('+', '=') => Some(TokenKind::AddAssign),
        ('-', '=') => Some(TokenKind::SubtractAssign),
        ('*', '=') => Some(TokenKind::MultiplyAssign),
        ('/', '=') => Some(TokenKind::DivideAssign),
        ('%', '=') => Some(TokenKind::ModuloAssign),
        ('|', '=') => Some(TokenKind::BitOrAssign),
        ('&', '=') => Some(TokenKind::BitAndAssign),
        ('^', '=') => Some(TokenKind::BitXorAssign),
        (':', '=') => Some(TokenKind::Assign),
        _ => None,
    }
}

fn symbol_single(character: char) -> (kind: Option<TokenKind>)
    ensures
        kind == single_kind(character),
{
    match character {
        '{' => Some(TokenKind::Begin),
        '}' => Some(TokenKind::End),
        '(' => Some(TokenKind::LeftParen),
        ')' => Some(TokenKind::RightParen),
        '[' => Some(TokenKind::AccessorOpen(Accessor::Array)),
        ']' => Some(TokenKind::RightBracket),
        ';' => Some(TokenKind::Semicolon),
        ',' => Some(TokenKind::Comma),
        '.' => Some(TokenKind::Dot),
        ':' => Some(TokenKind::Colon),
        '?' => Some(TokenKind::Question),
        '=' => Some(TokenKind::Assign),
        '!' => Some(TokenKind::Not),
        '<' => Some(TokenKind::Less),
        '>' => Some(TokenKind::Greater),
        '|' => Some(TokenKind::BitOr),
        '&' => Some(TokenKind::BitAnd),
        '^' => Some(TokenKind::BitXor),
        '~' => Some(TokenKind::BitNot),
        '+' => Some(TokenKind::Add),
        '-' => Some(TokenKind::Subtract),
        '*' => Some(TokenKind::Multiply),
        '/' => Some(TokenKind::Divide),
        '%' => Some(TokenKind::Modulo),
        _ => None,
    }
}

/// The last token is the end of the file, and no other token is.
pub proof fn law_tokens_end_with_eof(source: Seq<char>, index: int)
    requires
        0 <= index <= source.len(),
    ensures
        ({
            let tokens = tokens_from(source, index);
            &&& tokens.len() > 0
            &&& tokens.last().kind == TokenKind::Eof
            &&& forall|k: int|
                0 <= k < tokens.len() - 1 ==> (#[trigger] tokens[k]).kind != TokenKind::Eof
        }),
    decreases source.len() - index,
{
    if index < source.len() {
        let item = item_at(source, index);
        lemma_item_end(source, index);
        law_tokens_end_with_eof(source, item.end);
        let rest = tokens_from(source, item.end);
        match item.kind {
            None => {},
            Some(kind) => {
                let first = Token { kind, span: span_between(source, index, item.end) };
                let tokens = tokens_from(source, index);
                assert(tokens == seq![first] + rest);
                assert forall|k: int| 0 <= k < tokens.len() - 1 implies (
                #[trigger] tokens[k]).kind != TokenKind::Eof by {
                    if k > 0 {
                        assert(tokens[k] == rest[k - 1]);
                    }
                }
            },
        }
    }
}

/// Each token covers whole characters of the source, at least one unless it is
/// the end of the file, and the tokens follow one another without overlap.
pub proof fn law_tokens_cover_the_source_in_order(source: Seq<char>, index: int)
    requires
        0 <= index <= source.len(),
        encode_utf8(source).len() <= u32::MAX,
    ensures
        ({
            let tokens = tokens_from(source, index);
            &&& forall|k: int|
                0 <= k < tokens.len() ==> {
                    &&& in_source(source, (#[trigger] tokens[k]).span)
                    &&& offset_at(source, index) <= tokens[k].span.start
                    &&& tokens[k].span.end <= encode_utf8(source).len()
                    &&& tokens[k].kind != TokenKind::Eof ==> tokens[k].span.start
                        < tokens[k].span.end
                }
            &&& forall|j: int, k: int|
                0 <= j < k < tokens.len() ==> (#[trigger] tokens[j]).span.end <= (
                #[trigger] tokens[k]).span.start
        }),
    decreases source.len() - index,
{
    lemma_offset_bounds(source, index, index);
    let tokens = tokens_from(source, index);
    if index < source.len() {
        let item = item_at(source, index);
        lemma_item_end(source, index);
        lemma_offset_bounds(source, index, item.end);
        law_tokens_cover_the_source_in_order(source, item.end);
        let rest = tokens_from(source, item.end);
        match item.kind {
            None => {},
            Some(kind) => {
                let first = Token { kind, span: span_between(source, index, item.end) };
                assert(tokens == seq![first] + rest);
                lemma_covers(source, first.span, index, item.end);
                assert forall|k: int| 0 <= k < tokens.len() implies {
                    &&& in_source(source, (#[trigger] tokens[k]).span)
                    &&& offset_at(source, index) <= tokens[k].span.start
                    &&& tokens[k].span.end <= encode_utf8(source).len()
                    &&& tokens[k].kind != TokenKind::Eof ==> tokens[k].span.start
                        < tokens[k].span.end
                } by {
                    if k > 0 {
                        assert(tokens[k] == rest[k - 1]);
                    }
                }
                assert forall|j: int, k: int| 0 <= j < k < tokens.len() implies (
                #[trigger] tokens[j]).span.end <= (#[trigger] tokens[k]).span.start by {
                    assert(tokens[k] == rest[k - 1]);
                    if j > 0 {
                        assert(tokens[j] == rest[j - 1]);
                    }
                }
            },
        }
    } else {
        assert(tokens.len() == 1);
        lemma_covers(source, tokens[0].span, index, index);
    }
}

} // verus!
