//! What the tokens of a source are spelled like.

use vstd::prelude::*;

use crate::gml::ast::Accessor;
use crate::gml::lexer::{item_at, lemma_item_end, symbol_item, trivia_starts, word_kind, TokenKind};

verus! {

/// Whether a text is a keyword.
pub open spec fn is_keyword(text: Seq<char>) -> bool {
    ||| text == "begin"@
    ||| text == "end"@
    ||| text == "if"@
    ||| text == "then"@
    ||| text == "else"@
    ||| text == "while"@
    ||| text == "do"@
    ||| text == "for"@
    ||| text == "until"@
    ||| text == "repeat"@
    ||| text == "exit"@
    ||| text == "break"@
    ||| text == "continue"@
    ||| text == "with"@
    ||| text == "return"@
    ||| text == "switch"@
    ||| text == "case"@
    ||| text == "default"@
    ||| text == "var"@
    ||| text == "globalvar"@
    ||| text == "enum"@
    ||| text == "struct"@
    ||| text == "and"@
    ||| text == "or"@
    ||| text == "xor"@
    ||| text == "not"@
    ||| text == "div"@
    ||| text == "mod"@
}

/// Whether a token of a kind may be spelled like a text.
pub open spec fn is_spelling(kind: TokenKind, text: Seq<char>) -> bool {
    match kind {
        TokenKind::Eof => false,
        TokenKind::Identifier => text.len() > 0 && !is_keyword(text),
        TokenKind::Number => text.len() > 0,
        TokenKind::String => text.len() > 0 && (text[0] == '"' || text[0] == '\''),
        TokenKind::Begin => text == "begin"@ || text == seq!['{'],
        TokenKind::End => text == "end"@ || text == seq!['}'],
        TokenKind::If => text == "if"@,
        TokenKind::Then => text == "then"@,
        TokenKind::Else => text == "else"@,
        TokenKind::While => text == "while"@,
        TokenKind::Do => text == "do"@,
        TokenKind::For => text == "for"@,
        TokenKind::Until => text == "until"@,
        TokenKind::Repeat => text == "repeat"@,
        TokenKind::Exit => text == "exit"@,
        TokenKind::Break => text == "break"@,
        TokenKind::Continue => text == "continue"@,
        TokenKind::With => text == "with"@,
        TokenKind::Return => text == "return"@,
        TokenKind::Switch => text == "switch"@,
        TokenKind::Case => text == "case"@,
        TokenKind::Default => text == "default"@,
        TokenKind::Var => text == "var"@,
        TokenKind::GlobalVar => text == "globalvar"@,
        TokenKind::Enum => text == "enum"@,
        TokenKind::Struct => text == "struct"@,
        TokenKind::LeftParen => text == seq!['('],
        TokenKind::RightParen => text == seq![')'],
        TokenKind::AccessorOpen(accessor) => match accessor {
            Accessor::Array => text == seq!['['],
            Accessor::ArrayDirect => text == seq!['[', '@'],
            Accessor::DsMap => text == seq!['[', '?'],
            Accessor::Grid => text == seq!['[', '#'],
            Accessor::List => text == seq!['[', '|'],
            Accessor::Int8 => text == seq!['[', 'b', ':'],
            Accessor::Int16 => text == seq!['[', 'x', ':'],
            Accessor::Int32 => text == seq!['[', 'i', ':'],
            Accessor::Int64 => false,
            Accessor::UInt8 => text == seq!['[', 'B', ':'],
            Accessor::UInt16 => text == seq!['[', 'X', ':'],
            Accessor::UInt32 => text == seq!['[', 'I', ':'],
            Accessor::Float32 => text == seq!['[', 'f', ':'],
            Accessor::Float64 => text == seq!['[', 'd', ':'],
        },
        TokenKind::RightBracket => text == seq![']'],
        TokenKind::Semicolon => text == seq![';'],
        TokenKind::Comma => text == seq![','],
        TokenKind::Dot => text == seq!['.'],
        TokenKind::Colon => text == seq![':'],
        TokenKind::Question => text == seq!['?'],
        TokenKind::Assign => text == seq!['='] || text == seq![':', '='],
        TokenKind::AddAssign => text == seq!['+', '='],
        TokenKind::SubtractAssign => text == seq!['-', '='],
        TokenKind::MultiplyAssign => text == seq!['*', '='],
        TokenKind::DivideAssign => text == seq!['/', '='],
        TokenKind::ModuloAssign => text == seq!['%', '='],
        TokenKind::BitOrAssign => text == seq!['|', '='],
        TokenKind::BitAndAssign => text == seq!['&', '='],
        TokenKind::BitXorAssign => text == seq!['^', '='],
        TokenKind::LogicalOr => text == "or"@ || text == seq!['|', '|'],
        TokenKind::LogicalAnd => text == "and"@ || text == seq!['&', '&'],
        TokenKind::LogicalXor => text == "xor"@ || text == seq!['^', '^'],
        TokenKind::Not => text == "not"@ || text == seq!['!'],
        TokenKind::Equal => text == seq!['=', '='],
        TokenKind::NotEqual => text == seq!['!', '='] || text == seq!['<', '>'],
        TokenKind::Less => text == seq!['<'],
        TokenKind::LessEqual => text == seq!['<', '='],
        TokenKind::Greater => text == seq!['>'],
        TokenKind::GreaterEqual => text == seq!['>', '='],
        TokenKind::BitOr => text == seq!['|'],
        TokenKind::BitAnd => text == seq!['&'],
        TokenKind::BitXor => text == seq!['^'],
        TokenKind::BitNot => text == seq!['~'],
        TokenKind::ShiftLeft => text == seq!['<', '<'],
        TokenKind::ShiftRight => text == seq!['>', '>'],
        TokenKind::Add => text == seq!['+'],
        TokenKind::Subtract => text == seq!['-'],
        TokenKind::Multiply => text == seq!['*'],
        TokenKind::Divide => text == seq!['/'],
        TokenKind::IntegerDivide => text == "div"@,
        TokenKind::Modulo => text == "mod"@ || text == seq!['%'],
        TokenKind::Increment => text == seq!['+', '+'],
        TokenKind::Decrement => text == seq!['-', '-'],
    }
}

proof fn lemma_word(word: Seq<char>)
    requires
        word.len() > 0,
    ensures
        is_spelling(word_kind(word), word),
{
}

#[verifier::spinoff_prover]
proof fn lemma_symbol(source: Seq<char>, start: int)
    requires
        0 <= start < source.len(),
    ensures
        symbol_item(source, start).kind matches Some(kind) ==> is_spelling(
            kind,
            source.subrange(start, symbol_item(source, start).end),
        ),
{
    let first = source[start];
    let one = source.subrange(start, start + 1);
    assert(one =~= seq![first]);
    if start + 1 < source.len() {
        let second = source[start + 1];
        assert(source.subrange(start, start + 2) =~= seq![first, second]);
        if start + 2 < source.len() {
            assert(source.subrange(start, start + 3) =~= seq![first, second, source[start + 2]]);
        }
    }
}

/// Every token is spelled like its kind: a keyword like itself, an operator with
/// its own characters, and a name like no keyword.
pub proof fn law_tokens_are_spelled_like_their_kinds(source: Seq<char>, index: int)
    requires
        0 <= index < source.len(),
    ensures
        item_at(source, index).kind matches Some(kind) ==> is_spelling(
            kind,
            source.subrange(index, item_at(source, index).end),
        ),
{
    lemma_item_end(source, index);
    let item = item_at(source, index);
    let text = source.subrange(index, item.end);
    assert(text.len() > 0);
    assert(text[0] == source[index]);
    if !trivia_starts(source, index) {
        lemma_word(text);
        lemma_symbol(source, index);
    }
}

/// A symbol is as long as it can be: what is behind an operator of one character
/// does not make it one of two.
pub proof fn law_symbols_are_as_long_as_they_can_be(source: Seq<char>, start: int)
    requires
        0 <= start,
        start + 1 < source.len(),
    ensures
        ({
            let item = symbol_item(source, start);
            let next = source[start + 1];
            &&& item.kind == Some(TokenKind::Less) ==> next != '<' && next != '=' && next != '>'
            &&& item.kind == Some(TokenKind::Greater) ==> next != '>' && next != '='
            &&& item.kind == Some(TokenKind::Assign) && source[start] == '=' ==> next != '='
            &&& item.kind == Some(TokenKind::Not) ==> next != '='
            &&& item.kind == Some(TokenKind::Add) ==> next != '+' && next != '='
            &&& item.kind == Some(TokenKind::Subtract) ==> next != '-' && next != '='
            &&& item.kind == Some(TokenKind::BitAnd) ==> next != '&' && next != '='
            &&& item.kind == Some(TokenKind::BitOr) ==> next != '|' && next != '='
            &&& item.kind == Some(TokenKind::BitXor) ==> next != '^' && next != '='
        }),
{
}

} // verus!
