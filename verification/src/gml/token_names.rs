//! The names of tokens in messages tell the kinds of tokens apart.

use vstd::prelude::*;

use crate::gml::lexer::TokenKind;
use crate::gml::parser::token_text;

verus! {

/// A number that a name of a token has: names of different kinds have different
/// ones.
spec fn mark_of_name(name: Seq<char>) -> int {
    2 * (name[0] as int) + 5 * (name[1] as int) + (name[name.len() - 2] as int) + 4 * name.len()
}

/// The number of the name of a kind of tokens.
spec fn mark_of_kind(kind: TokenKind) -> int {
    match kind {
        TokenKind::Eof => 904,
        TokenKind::Identifier => 851,
        TokenKind::Number => 930,
        TokenKind::String => 944,
        TokenKind::Begin => 872,
        TokenKind::End => 917,
        TokenKind::If => 833,
        TokenKind::Then => 869,
        TokenKind::Else => 873,
        TokenKind::While => 886,
        TokenKind::Do => 863,
        TokenKind::For => 882,
        TokenKind::Until => 909,
        TokenKind::Repeat => 854,
        TokenKind::Exit => 923,
        TokenKind::Break => 883,
        TokenKind::Continue => 902,
        TokenKind::With => 895,
        TokenKind::Return => 871,
        TokenKind::Switch => 948,
        TokenKind::Case => 814,
        TokenKind::Default => 841,
        TokenKind::Var => 830,
        TokenKind::GlobalVar => 879,
        TokenKind::Enum => 885,
        TokenKind::Struct => 933,
        TokenKind::LeftParen => 330,
        TokenKind::RightParen => 336,
        TokenKind::AccessorOpen(_) => 636,
        TokenKind::RightBracket => 648,
        TokenKind::Semicolon => 444,
        TokenKind::Comma => 354,
        TokenKind::Dot => 366,
        TokenKind::Colon => 438,
        TokenKind::Question => 468,
        TokenKind::Assign => 456,
        TokenKind::AddAssign => 370,
        TokenKind::SubtractAssign => 380,
        TokenKind::MultiplyAssign => 365,
        TokenKind::DivideAssign => 390,
        TokenKind::ModuloAssign => 340,
        TokenKind::BitOrAssign => 775,
        TokenKind::BitAndAssign => 345,
        TokenKind::BitXorAssign => 625,
        TokenKind::LogicalOr => 922,
        TokenKind::LogicalAnd => 925,
        TokenKind::LogicalXor => 926,
        TokenKind::Not => 898,
        TokenKind::Equal => 460,
        TokenKind::NotEqual => 320,
        TokenKind::Less => 450,
        TokenKind::LessEqual => 455,
        TokenKind::Greater => 462,
        TokenKind::GreaterEqual => 465,
        TokenKind::BitOr => 834,
        TokenKind::BitAnd => 318,
        TokenKind::BitXor => 654,
        TokenKind::BitNot => 846,
        TokenKind::ShiftLeft => 454,
        TokenKind::ShiftRight => 466,
        TokenKind::Add => 348,
        TokenKind::Subtract => 360,
        TokenKind::Multiply => 342,
        TokenKind::Divide => 372,
        TokenKind::IntegerDivide => 842,
        TokenKind::Modulo => 896,
        TokenKind::Increment => 352,
        TokenKind::Decrement => 364,
    }
}

#[verifier::spinoff_prover]
proof fn lemma_name_has_its_mark(kind: TokenKind)
    ensures
        mark_of_name(token_text(kind)) == mark_of_kind(kind),
{
    match kind {
        TokenKind::Eof => {
            reveal_strlit("end of file");
        },
        TokenKind::Identifier => {
            reveal_strlit("identifier");
        },
        TokenKind::Number => {
            reveal_strlit("number");
        },
        TokenKind::String => {
            reveal_strlit("string");
        },
        TokenKind::Begin => {
            reveal_strlit("begin or '{'");
        },
        TokenKind::End => {
            reveal_strlit("end or '}'");
        },
        TokenKind::If => {
            reveal_strlit("if");
        },
        TokenKind::Then => {
            reveal_strlit("then");
        },
        TokenKind::Else => {
            reveal_strlit("else");
        },
        TokenKind::While => {
            reveal_strlit("while");
        },
        TokenKind::Do => {
            reveal_strlit("do");
        },
        TokenKind::For => {
            reveal_strlit("for");
        },
        TokenKind::Until => {
            reveal_strlit("until");
        },
        TokenKind::Repeat => {
            reveal_strlit("repeat");
        },
        TokenKind::Exit => {
            reveal_strlit("exit");
        },
        TokenKind::Break => {
            reveal_strlit("break");
        },
        TokenKind::Continue => {
            reveal_strlit("continue");
        },
        TokenKind::With => {
            reveal_strlit("with");
        },
        TokenKind::Return => {
            reveal_strlit("return");
        },
        TokenKind::Switch => {
            reveal_strlit("switch");
        },
        TokenKind::Case => {
            reveal_strlit("case");
        },
        TokenKind::Default => {
            reveal_strlit("default");
        },
        TokenKind::Var => {
            reveal_strlit("var");
        },
        TokenKind::GlobalVar => {
            reveal_strlit("globalvar");
        },
        TokenKind::Enum => {
            reveal_strlit("enum");
        },
        TokenKind::Struct => {
            reveal_strlit("struct");
        },
        TokenKind::LeftParen => {
            reveal_strlit("'('");
        },
        TokenKind::RightParen => {
            reveal_strlit("')'");
        },
        TokenKind::AccessorOpen(_) => {
            reveal_strlit("'['");
        },
        TokenKind::RightBracket => {
            reveal_strlit("']'");
        },
        TokenKind::Semicolon => {
            reveal_strlit("';'");
        },
        TokenKind::Comma => {
            reveal_strlit("','");
        },
        TokenKind::Dot => {
            reveal_strlit("'.'");
        },
        TokenKind::Colon => {
            reveal_strlit("':'");
        },
        TokenKind::Question => {
            reveal_strlit("'?'");
        },
        TokenKind::Assign => {
            reveal_strlit("'='");
        },
        TokenKind::AddAssign => {
            reveal_strlit("'+='");
        },
        TokenKind::SubtractAssign => {
            reveal_strlit("'-='");
        },
        TokenKind::MultiplyAssign => {
            reveal_strlit("'*='");
        },
        TokenKind::DivideAssign => {
            reveal_strlit("'/='");
        },
        TokenKind::ModuloAssign => {
            reveal_strlit("'%='");
        },
        TokenKind::BitOrAssign => {
            reveal_strlit("'|='");
        },
        TokenKind::BitAndAssign => {
            reveal_strlit("'&='");
        },
        TokenKind::BitXorAssign => {
            reveal_strlit("'^='");
        },
        TokenKind::LogicalOr => {
            reveal_strlit("logical or");
        },
        TokenKind::LogicalAnd => {
            reveal_strlit("logical and");
        },
        TokenKind::LogicalXor => {
            reveal_strlit("logical xor");
        },
        TokenKind::Not => {
            reveal_strlit("not");
        },
        TokenKind::Equal => {
            reveal_strlit("'=='");
        },
        TokenKind::NotEqual => {
            reveal_strlit("'!='");
        },
        TokenKind::Less => {
            reveal_strlit("'<'");
        },
        TokenKind::LessEqual => {
            reveal_strlit("'<='");
        },
        TokenKind::Greater => {
            reveal_strlit("'>'");
        },
        TokenKind::GreaterEqual => {
            reveal_strlit("'>='");
        },
        TokenKind::BitOr => {
            reveal_strlit("'|'");
        },
        TokenKind::BitAnd => {
            reveal_strlit("'&'");
        },
        TokenKind::BitXor => {
            reveal_strlit("'^'");
        },
        TokenKind::BitNot => {
            reveal_strlit("'~'");
        },
        TokenKind::ShiftLeft => {
            reveal_strlit("'<<'");
        },
        TokenKind::ShiftRight => {
            reveal_strlit("'>>'");
        },
        TokenKind::Add => {
            reveal_strlit("'+'");
        },
        TokenKind::Subtract => {
            reveal_strlit("'-'");
        },
        TokenKind::Multiply => {
            reveal_strlit("'*'");
        },
        TokenKind::Divide => {
            reveal_strlit("'/'");
        },
        TokenKind::IntegerDivide => {
            reveal_strlit("div");
        },
        TokenKind::Modulo => {
            reveal_strlit("mod");
        },
        TokenKind::Increment => {
            reveal_strlit("'++'");
        },
        TokenKind::Decrement => {
            reveal_strlit("'--'");
        },
    }
}

/// Kinds of tokens have different names in messages, but that all opening brackets
/// of accessors have one.
#[verifier::spinoff_prover]
pub proof fn law_names_tell_tokens_apart(first: TokenKind, second: TokenKind)
    ensures
        token_text(first) == token_text(second) <==> first == second || (
        first is AccessorOpen && second is AccessorOpen),
{
    lemma_name_has_its_mark(first);
    lemma_name_has_its_mark(second);
}

} // verus!
