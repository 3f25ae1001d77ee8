//! The parser: tokens to a syntax tree.
//!
//! The grammar stands here as functions on the tokens: each takes the position
//! of its first token and gives the tree that it parses with the position
//! behind it, or the report of what is wrong. The parser computes what they
//! say.

use vstd::prelude::*;
use vstd::utf8::encode_utf8;

use crate::gml::ast::{
    expr_trees, lemma_expr_trees_push, lemma_stmt_trees_push, optional_tree, stmt_trees, Accessor,
    AssignOp, BinaryOp, EnumMember, Expr, ExprForm, ExprKind, ExprTree, PostfixOp, Program,
    ProgramTree, Span, Stmt, StmtForm, StmtKind, StmtTree, UnaryOp, VarDecl, VarTree,
};
use crate::gml::lexer::{
    errors_from, law_tokens_cover_the_source_in_order, law_tokens_end_with_eof, lex,
    tokens_from, Token, TokenKind,
};
use crate::gml::spans::{
    covers, expr_spanned, exprs_spanned, in_source, lemma_covers, option_spanned, program_spanned, stmt_spanned,
    stmts_spanned, vars_spanned,
};
use crate::gml::{reports, Diagnostic, Report};

verus! {

/// What a rule of the grammar gives: a value and the position behind it, or
/// what is wrong.
pub enum Parsed<T> {
    Done { value: T, next: int },
    Failed(Report),
}

/// The kind of the token at a position; behind the last token the file ends.
pub open spec fn kind_at(tokens: Seq<Token>, at: int) -> TokenKind {
    if 0 <= at < tokens.len() {
        tokens[at].kind
    } else {
        TokenKind::Eof
    }
}

/// The span of the token at a position.
pub open spec fn span_at(tokens: Seq<Token>, at: int) -> Span {
    tokens[at].span
}

/// Whether a span is that of one of the tokens.
#[verifier::opaque]
pub open spec fn is_token_span(tokens: Seq<Token>, span: Span) -> bool {
    exists|at: int| 0 <= at < tokens.len() && (#[trigger] tokens[at]).span == span
}

proof fn lemma_token_span(tokens: Seq<Token>, at: int)
    requires
        0 <= at < tokens.len(),
    ensures
        is_token_span(tokens, span_at(tokens, at)),
{
    reveal(is_token_span);
    assert(tokens[at].span == span_at(tokens, at));
}

/// The failure to find what a rule needs at a position.
pub open spec fn expected<T>(tokens: Seq<Token>, at: int, message: Seq<char>) -> Parsed<T> {
    Parsed::Failed(Report { message, span: span_at(tokens, at) })
}

/// The position behind what a rule took. Every rule takes at least one token.
pub open spec fn past(start: int, next: int) -> int {
    if next > start {
        next
    } else {
        start + 1
    }
}

/// The number of tokens from a position on.
pub open spec fn left(tokens: Seq<Token>, at: int) -> int {
    if at < tokens.len() {
        tokens.len() - at
    } else {
        0
    }
}

/// How messages name a token.
pub open spec fn token_text(kind: TokenKind) -> Seq<char> {
    match kind {
        TokenKind::Eof => "end of file"@,
        TokenKind::Identifier => "identifier"@,
        TokenKind::Number => "number"@,
        TokenKind::String => "string"@,
        TokenKind::Begin => "begin or '{'"@,
        TokenKind::End => "end or '}'"@,
        TokenKind::If => "if"@,
        TokenKind::Then => "then"@,
        TokenKind::Else => "else"@,
        TokenKind::While => "while"@,
        TokenKind::Do => "do"@,
        TokenKind::For => "for"@,
        TokenKind::Until => "until"@,
        TokenKind::Repeat => "repeat"@,
        TokenKind::Exit => "exit"@,
        TokenKind::Break => "break"@,
        TokenKind::Continue => "continue"@,
        TokenKind::With => "with"@,
        TokenKind::Return => "return"@,
        TokenKind::Switch => "switch"@,
        TokenKind::Case => "case"@,
        TokenKind::Default => "default"@,
        TokenKind::Var => "var"@,
        TokenKind::GlobalVar => "globalvar"@,
        TokenKind::Enum => "enum"@,
        TokenKind::Struct => "struct"@,
        TokenKind::LeftParen => "'('"@,
        TokenKind::RightParen => "')'"@,
        TokenKind::AccessorOpen(_) => "'['"@,
        TokenKind::RightBracket => "']'"@,
        TokenKind::Semicolon => "';'"@,
        TokenKind::Comma => "','"@,
        TokenKind::Dot => "'.'"@,
        TokenKind::Colon => "':'"@,
        TokenKind::Question => "'?'"@,
        TokenKind::Assign => "'='"@,
        TokenKind::AddAssign => "'+='"@,
        TokenKind::SubtractAssign => "'-='"@,
        TokenKind::MultiplyAssign => "'*='"@,
        TokenKind::DivideAssign => "'/='"@,
        TokenKind::ModuloAssign => "'%='"@,
        TokenKind::BitOrAssign => "'|='"@,
        TokenKind::BitAndAssign => "'&='"@,
        TokenKind::BitXorAssign => "'^='"@,
        TokenKind::LogicalOr => "logical or"@,
        TokenKind::LogicalAnd => "logical and"@,
        TokenKind::LogicalXor => "logical xor"@,
        TokenKind::Not => "not"@,
        TokenKind::Equal => "'=='"@,
        TokenKind::NotEqual => "'!='"@,
        TokenKind::Less => "'<'"@,
        TokenKind::LessEqual => "'<='"@,
        TokenKind::Greater => "'>'"@,
        TokenKind::GreaterEqual => "'>='"@,
        TokenKind::BitOr => "'|'"@,
        TokenKind::BitAnd => "'&'"@,
        TokenKind::BitXor => "'^'"@,
        TokenKind::BitNot => "'~'"@,
        TokenKind::ShiftLeft => "'<<'"@,
        TokenKind::ShiftRight => "'>>'"@,
        TokenKind::Add => "'+'"@,
        TokenKind::Subtract => "'-'"@,
        TokenKind::Multiply => "'*'"@,
        TokenKind::Divide => "'/'"@,
        TokenKind::IntegerDivide => "div"@,
        TokenKind::Modulo => "mod"@,
        TokenKind::Increment => "'++'"@,
        TokenKind::Decrement => "'--'"@,
    }
}

/// The binary operator that a token is on a level of precedence; `single_equal`
/// says whether `=` compares. The levels go from the loosest to the tightest.
pub open spec fn operator(kind: TokenKind, level: int, single_equal: bool) -> Option<BinaryOp> {
    if level == 0 {
        match kind {
            TokenKind::LogicalOr => Some(BinaryOp::LogicalOr),
            _ => None,
        }
    } else if level == 1 {
        match kind {
            TokenKind::LogicalAnd => Some(BinaryOp::LogicalAnd),
            _ => None,
        }
    } else if level == 2 {
        match kind {
            TokenKind::LogicalXor => Some(BinaryOp::LogicalXor),
            _ => None,
        }
    } else if level == 3 {
        match kind {
            TokenKind::Equal => Some(BinaryOp::Equal),
            TokenKind::Assign => if single_equal {
                Some(BinaryOp::Equal)
            } else {
                None
            },
            TokenKind::NotEqual => Some(BinaryOp::NotEqual),
            TokenKind::Less => Some(BinaryOp::Less),
            TokenKind::LessEqual => Some(BinaryOp::LessEqual),
            TokenKind::Greater => Some(BinaryOp::Greater),
            TokenKind::GreaterEqual => Some(BinaryOp::GreaterEqual),
            _ => None,
        }
    } else if level == 4 {
        match kind {
            TokenKind::BitOr => Some(BinaryOp::BitOr),
            TokenKind::BitAnd => Some(BinaryOp::BitAnd),
            TokenKind::BitXor => Some(BinaryOp::BitXor),
            _ => None,
        }
    } else if level == 5 {
        match kind {
            TokenKind::ShiftLeft => Some(BinaryOp::ShiftLeft),
            TokenKind::ShiftRight => Some(BinaryOp::ShiftRight),
            _ => None,
        }
    } else if level == 6 {
        match kind {
            TokenKind::Add => Some(BinaryOp::Add),
            TokenKind::Subtract => Some(BinaryOp::Subtract),
            _ => None,
        }
    } else if level == 7 {
        match kind {
            TokenKind::Multiply => Some(BinaryOp::Multiply),
            TokenKind::Divide => Some(BinaryOp::Divide),
            TokenKind::IntegerDivide => Some(BinaryOp::IntegerDivide),
            TokenKind::Modulo => Some(BinaryOp::Modulo),
            _ => None,
        }
    } else {
        None
    }
}

/// The prefix operator that a token is.
pub open spec fn prefix_operator(kind: TokenKind) -> Option<UnaryOp> {
    match kind {
        TokenKind::Add => Some(UnaryOp::Positive),
        TokenKind::Subtract => Some(UnaryOp::Negative),
        TokenKind::Not => Some(UnaryOp::Not),
        TokenKind::BitNot => Some(UnaryOp::BitNot),
        TokenKind::Increment => Some(UnaryOp::PreIncrement),
        TokenKind::Decrement => Some(UnaryOp::PreDecrement),
        _ => None,
    }
}

/// The assignment operator that a token is.
pub open spec fn assign_operator(kind: TokenKind) -> Option<AssignOp> {
    match kind {
        TokenKind::Assign => Some(AssignOp::Assign),
        TokenKind::AddAssign => Some(AssignOp::Add),
        TokenKind::SubtractAssign => Some(AssignOp::Subtract),
        TokenKind::MultiplyAssign => Some(AssignOp::Multiply),
        TokenKind::DivideAssign => Some(AssignOp::Divide),
        TokenKind::ModuloAssign => Some(AssignOp::Modulo),
        TokenKind::BitOrAssign => Some(AssignOp::BitOr),
        TokenKind::BitAndAssign => Some(AssignOp::BitAnd),
        TokenKind::BitXorAssign => Some(AssignOp::BitXor),
        _ => None,
    }
}

/// Whether an expression is a literal, which no `++` or `--` behind it belongs
/// to: that operator begins the next statement.
pub open spec fn literal(form: ExprForm) -> bool {
    form is Number || form is String || form is Array
}

/// An operation on two operands.
pub open spec fn operation(op: BinaryOp, first: ExprTree, second: ExprTree) -> ExprTree {
    ExprTree {
        form: ExprForm::Binary { op, left: Box::new(first), right: Box::new(second) },
        span: first.span.joined(second.span),
    }
}

/// An expression, in which `=` compares.
pub open spec fn expression(tokens: Seq<Token>, at: int) -> Parsed<ExprTree>
    decreases left(tokens, at), 41int,
{
    conditional(tokens, at, true)
}

/// An assignment, or an expression in which `=` does not compare.
pub open spec fn assignment(tokens: Seq<Token>, at: int) -> Parsed<ExprTree>
    decreases left(tokens, at), 41int,
{
    match conditional(tokens, at, false) {
        Parsed::Failed(report) => Parsed::Failed(report),
        Parsed::Done { value: target, next } => {
            let next = past(at, next);
            match assign_operator(kind_at(tokens, next)) {
                None => Parsed::Done { value: target, next },
                Some(op) => match assignment(tokens, next + 1) {
                    Parsed::Failed(report) => Parsed::Failed(report),
                    Parsed::Done { value, next: end } => Parsed::Done {
                        value: ExprTree {
                            form: ExprForm::Assign {
                                op,
                                target: Box::new(target),
                                value: Box::new(value),
                            },
                            span: target.span.joined(value.span),
                        },
                        next: past(next + 1, end),
                    },
                },
            }
        },
    }
}

/// A choice between two values, or an operation.
pub open spec fn conditional(tokens: Seq<Token>, at: int, single_equal: bool) -> Parsed<ExprTree>
    decreases left(tokens, at), 40int,
{
    match operations(tokens, at, 0, single_equal) {
        Parsed::Failed(report) => Parsed::Failed(report),
        Parsed::Done { value: condition, next } => {
            let question = past(at, next);
            if kind_at(tokens, question) != TokenKind::Question {
                Parsed::Done { value: condition, next: question }
            } else {
                match expression(tokens, question + 1) {
                    Parsed::Failed(report) => Parsed::Failed(report),
                    Parsed::Done { value: then_value, next } => {
                        let colon = past(question + 1, next);
                        if kind_at(tokens, colon) != TokenKind::Colon {
                            expected(tokens, colon, "expected ':' in conditional expression"@)
                        } else {
                            match conditional(tokens, colon + 1, single_equal) {
                                Parsed::Failed(report) => Parsed::Failed(report),
                                Parsed::Done { value: else_value, next } => Parsed::Done {
                                    value: ExprTree {
                                        form: ExprForm::Conditional {
                                            condition: Box::new(condition),
                                            then_value: Box::new(then_value),
                                            else_value: Box::new(else_value),
                                        },
                                        span: condition.span.joined(else_value.span),
                                    },
                                    next: past(colon + 1, next),
                                },
                            }
                        }
                    },
                }
            }
        },
    }
}

/// How far a level of precedence is from the tightest one.
pub open spec fn looseness(level: int) -> int {
    if 0 <= level < 8 {
        20 + 2 * (8 - level)
    } else {
        20
    }
}

/// Operations of a level of precedence, which associate to the left.
pub open spec fn operations(
    tokens: Seq<Token>,
    at: int,
    level: int,
    single_equal: bool,
) -> Parsed<ExprTree>
    decreases left(tokens, at), looseness(level) + 1,
{
    if level < 0 || level >= 8 {
        unary(tokens, at)
    } else {
        match operations(tokens, at, level + 1, single_equal) {
            Parsed::Failed(report) => Parsed::Failed(report),
            Parsed::Done { value, next } => more_operations(
                tokens,
                past(at, next),
                level,
                single_equal,
                value,
            ),
        }
    }
}

/// The operations of a level of precedence behind a first operand.
pub open spec fn more_operations(
    tokens: Seq<Token>,
    at: int,
    level: int,
    single_equal: bool,
    first: ExprTree,
) -> Parsed<ExprTree>
    decreases left(tokens, at), looseness(level),
{
    match operator(kind_at(tokens, at), level, single_equal) {
        None => Parsed::Done { value: first, next: at },
        Some(op) => match operations(tokens, at + 1, level + 1, single_equal) {
            Parsed::Failed(report) => Parsed::Failed(report),
            Parsed::Done { value: second, next } => more_operations(
                tokens,
                past(at + 1, next),
                level,
                single_equal,
                operation(op, first, second),
            ),
        },
    }
}

/// Prefix operators before a value.
pub open spec fn unary(tokens: Seq<Token>, at: int) -> Parsed<ExprTree>
    decreases left(tokens, at), 10int,
{
    match prefix_operator(kind_at(tokens, at)) {
        None => postfix(tokens, at),
        Some(op) => match unary(tokens, at + 1) {
            Parsed::Failed(report) => Parsed::Failed(report),
            Parsed::Done { value, next } => Parsed::Done {
                value: ExprTree {
                    form: ExprForm::Unary { op, value: Box::new(value) },
                    span: span_at(tokens, at).joined(value.span),
                },
                next: past(at + 1, next),
            },
        },
    }
}

/// A primary value with the calls, indices, members and postfix operators
/// behind it.
pub open spec fn postfix(tokens: Seq<Token>, at: int) -> Parsed<ExprTree>
    decreases left(tokens, at), 8int,
{
    match primary(tokens, at) {
        Parsed::Failed(report) => Parsed::Failed(report),
        Parsed::Done { value, next } => suffixes(tokens, past(at, next), value),
    }
}

/// The calls, indices, members and postfix operators behind a value.
pub open spec fn suffixes(tokens: Seq<Token>, at: int, value: ExprTree) -> Parsed<ExprTree>
    decreases left(tokens, at), 7int,
{
    match kind_at(tokens, at) {
        TokenKind::LeftParen => match closed_list(tokens, at + 1, TokenKind::RightParen) {
            Parsed::Failed(report) => Parsed::Failed(report),
            Parsed::Done { value: arguments, next } => {
                let close = past(at, next);
                if kind_at(tokens, close) != TokenKind::RightParen {
                    expected(tokens, close, "expected ')' after arguments"@)
                } else {
                    suffixes(
                        tokens,
                        close + 1,
                        ExprTree {
                            form: ExprForm::Call { callee: Box::new(value), arguments },
                            span: value.span.joined(span_at(tokens, close)),
                        },
                    )
                }
            },
        },
        TokenKind::AccessorOpen(accessor) => if kind_at(tokens, at + 1)
            == TokenKind::RightBracket {
            expected(tokens, at + 1, "array access requires an index"@)
        } else {
            match list(tokens, at + 1, None, seq![]) {
                Parsed::Failed(report) => Parsed::Failed(report),
                Parsed::Done { value: indices, next } => {
                    let close = past(at, next);
                    if kind_at(tokens, close) != TokenKind::RightBracket {
                        expected(tokens, close, "expected ']' after index"@)
                    } else {
                        suffixes(
                            tokens,
                            close + 1,
                            ExprTree {
                                form: ExprForm::Index {
                                    target: Box::new(value),
                                    accessor,
                                    indices,
                                },
                                span: value.span.joined(span_at(tokens, close)),
                            },
                        )
                    }
                },
            }
        },
        TokenKind::Dot => if kind_at(tokens, at + 1) != TokenKind::Identifier {
            expected(tokens, at + 1, "expected member name after '.'"@)
        } else {
            let name = span_at(tokens, at + 1);
            suffixes(
                tokens,
                at + 2,
                ExprTree {
                    form: ExprForm::Member { target: Box::new(value), name },
                    span: value.span.joined(name),
                },
            )
        },
        TokenKind::Increment => if literal(value.form) {
            Parsed::Done { value, next: at }
        } else {
            suffixes(
                tokens,
                at + 1,
                ExprTree {
                    form: ExprForm::Postfix {
                        op: PostfixOp::Increment,
                        target: Box::new(value),
                    },
                    span: value.span.joined(span_at(tokens, at)),
                },
            )
        },
        TokenKind::Decrement => if literal(value.form) {
            Parsed::Done { value, next: at }
        } else {
            suffixes(
                tokens,
                at + 1,
                ExprTree {
                    form: ExprForm::Postfix {
                        op: PostfixOp::Decrement,
                        target: Box::new(value),
                    },
                    span: value.span.joined(span_at(tokens, at)),
                },
            )
        },
        _ => Parsed::Done { value, next: at },
    }
}

/// Expressions between commas. Where `close` is given, a comma right before it
/// ends the list.
pub open spec fn list(
    tokens: Seq<Token>,
    at: int,
    close: Option<TokenKind>,
    before: Seq<ExprTree>,
) -> Parsed<Seq<ExprTree>>
    decreases left(tokens, at), 50int,
{
    match expression(tokens, at) {
        Parsed::Failed(report) => Parsed::Failed(report),
        Parsed::Done { value, next } => {
            let comma = past(at, next);
            let values = before.push(value);
            if kind_at(tokens, comma) != TokenKind::Comma {
                Parsed::Done { value: values, next: comma }
            } else if close == Some(kind_at(tokens, comma + 1)) {
                Parsed::Done { value: values, next: comma + 1 }
            } else {
                list(tokens, comma + 1, close, values)
            }
        },
    }
}

/// Expressions between commas, which may be none before the closing token.
pub open spec fn closed_list(tokens: Seq<Token>, at: int, close: TokenKind) -> Parsed<
    Seq<ExprTree>,
>
    decreases left(tokens, at), 51int,
{
    if kind_at(tokens, at) == close {
        Parsed::Done { value: seq![], next: at }
    } else {
        list(tokens, at, Some(close), seq![])
    }
}

/// A name, a literal, or an expression in parentheses.
pub open spec fn primary(tokens: Seq<Token>, at: int) -> Parsed<ExprTree>
    decreases left(tokens, at), 4int,
{
    let span = span_at(tokens, at);
    match kind_at(tokens, at) {
        TokenKind::Identifier => Parsed::Done {
            value: ExprTree { form: ExprForm::Identifier, span },
            next: at + 1,
        },
        TokenKind::Number => Parsed::Done {
            value: ExprTree { form: ExprForm::Number, span },
            next: at + 1,
        },
        TokenKind::String => Parsed::Done {
            value: ExprTree { form: ExprForm::String, span },
            next: at + 1,
        },
        TokenKind::LeftParen => match expression(tokens, at + 1) {
            Parsed::Failed(report) => Parsed::Failed(report),
            Parsed::Done { value, next } => {
                let close = past(at + 1, next);
                if kind_at(tokens, close) != TokenKind::RightParen {
                    expected(tokens, close, "expected ')' after expression"@)
                } else {
                    Parsed::Done {
                        value: ExprTree {
                            form: ExprForm::Group(Box::new(value)),
                            span: span.joined(span_at(tokens, close)),
                        },
                        next: close + 1,
                    }
                }
            },
        },
        TokenKind::AccessorOpen(Accessor::Array) => match closed_list(
            tokens,
            at + 1,
            TokenKind::RightBracket,
        ) {
            Parsed::Failed(report) => Parsed::Failed(report),
            Parsed::Done { value: values, next } => {
                let close = past(at, next);
                if kind_at(tokens, close) != TokenKind::RightBracket {
                    expected(tokens, close, "expected ']' after array literal"@)
                } else {
                    Parsed::Done {
                        value: ExprTree {
                            form: ExprForm::Array(values),
                            span: span.joined(span_at(tokens, close)),
                        },
                        next: close + 1,
                    }
                }
            },
        },
        TokenKind::AccessorOpen(_) => expected(tokens, at, "typed accessor requires a target"@),
        kind => expected(tokens, at, "expected expression, found "@ + token_text(kind)),
    }
}

/// The end of a statement: the semicolon, if one follows, or the given span.
pub open spec fn closing(tokens: Seq<Token>, at: int, otherwise: Span) -> Span {
    if kind_at(tokens, at) == TokenKind::Semicolon {
        span_at(tokens, at)
    } else {
        otherwise
    }
}

/// The position behind an optional token.
pub open spec fn skip(tokens: Seq<Token>, at: int, kind: TokenKind) -> int {
    if kind_at(tokens, at) == kind {
        at + 1
    } else {
        at
    }
}

/// The position behind any number of semicolons.
pub open spec fn skip_semicolons(tokens: Seq<Token>, at: int) -> int
    decreases left(tokens, at),
{
    if kind_at(tokens, at) == TokenKind::Semicolon {
        skip_semicolons(tokens, at + 1)
    } else {
        at
    }
}

/// A statement of one word.
pub open spec fn word_statement(tokens: Seq<Token>, at: int, form: StmtForm) -> Parsed<StmtTree> {
    let start = span_at(tokens, at);
    Parsed::Done {
        value: StmtTree { form, span: start.joined(closing(tokens, at + 1, start)) },
        next: skip(tokens, at + 1, TokenKind::Semicolon),
    }
}

/// Whether a `return` before a token has no value.
pub open spec fn returns_nothing(kind: TokenKind) -> bool {
    kind is Semicolon || kind is End || kind is Eof || kind is Else || kind is Case
        || kind is Default || kind is Until
}

/// A statement.
pub open spec fn statement(tokens: Seq<Token>, at: int) -> Parsed<StmtTree>
    decreases left(tokens, at), 70int,
{
    let start = span_at(tokens, at);
    match kind_at(tokens, at) {
        TokenKind::Semicolon => Parsed::Done {
            value: StmtTree { form: StmtForm::Empty, span: start },
            next: at + 1,
        },
        TokenKind::Begin => block(tokens, at + 1, start, seq![]),
        TokenKind::If => if_rest(tokens, at + 1, start),
        TokenKind::While => while_rest(tokens, at + 1, start),
        TokenKind::Do => do_rest(tokens, at + 1, start),
        TokenKind::For => for_rest(tokens, at + 1, start),
        TokenKind::Repeat => repeat_rest(tokens, at + 1, start),
        TokenKind::With => with_rest(tokens, at + 1, start),
        TokenKind::Switch => switch_rest(tokens, at + 1, start),
        TokenKind::Case => case_rest(tokens, at + 1, start),
        TokenKind::Default => if kind_at(tokens, at + 1) != TokenKind::Colon {
            expected(tokens, at + 1, "expected ':' after default"@)
        } else {
            Parsed::Done {
                value: StmtTree {
                    form: StmtForm::Default,
                    span: start.joined(span_at(tokens, at + 1)),
                },
                next: at + 2,
            }
        },
        TokenKind::Var => var_rest(tokens, at + 1, start, false, true),
        TokenKind::GlobalVar => var_rest(tokens, at + 1, start, true, true),
        TokenKind::Enum => enum_rest(tokens, at + 1, start),
        TokenKind::Return => return_rest(tokens, at + 1, start),
        TokenKind::Exit => word_statement(tokens, at, StmtForm::Exit),
        TokenKind::Break => word_statement(tokens, at, StmtForm::Break),
        TokenKind::Continue => word_statement(tokens, at, StmtForm::Continue),
        TokenKind::Struct => expected(
            tokens,
            at,
            "struct declarations are not part of GMS 1.4 GML"@,
        ),
        TokenKind::End => expected(tokens, at, "unexpected end of block"@),
        TokenKind::Else => expected(tokens, at, "else has no matching if"@),
        TokenKind::Until => expected(tokens, at, "until has no matching do"@),
        TokenKind::Eof => expected(tokens, at, "expected a statement"@),
        _ => match assignment(tokens, at) {
            Parsed::Failed(report) => Parsed::Failed(report),
            Parsed::Done { value, next } => {
                let next = past(at, next);
                Parsed::Done {
                    value: StmtTree {
                        form: StmtForm::Expr(value),
                        span: value.span.joined(closing(tokens, next, value.span)),
                    },
                    next: skip(tokens, next, TokenKind::Semicolon),
                }
            },
        },
    }
}

/// The statements of a block up to its end.
pub open spec fn block(
    tokens: Seq<Token>,
    at: int,
    start: Span,
    before: Seq<StmtTree>,
) -> Parsed<StmtTree>
    decreases left(tokens, at), 80int,
{
    if kind_at(tokens, at) == TokenKind::End {
        Parsed::Done {
            value: StmtTree {
                form: StmtForm::Block(before),
                span: start.joined(span_at(tokens, at)),
            },
            next: at + 1,
        }
    } else if kind_at(tokens, at) == TokenKind::Eof {
        Parsed::Failed(Report { message: "unterminated block"@, span: start })
    } else {
        match statement(tokens, at) {
            Parsed::Failed(report) => Parsed::Failed(report),
            Parsed::Done { value, next } => block(
                tokens,
                past(at, next),
                start,
                before.push(value),
            ),
        }
    }
}

/// What follows `if`.
pub open spec fn if_rest(tokens: Seq<Token>, at: int, start: Span) -> Parsed<StmtTree>
    decreases left(tokens, at), 72int,
{
    match expression(tokens, at) {
        Parsed::Failed(report) => Parsed::Failed(report),
        Parsed::Done { value: condition, next } => {
            let body = skip(tokens, past(at, next), TokenKind::Then);
            match statement(tokens, body) {
                Parsed::Failed(report) => Parsed::Failed(report),
                Parsed::Done { value: then_branch, next } => {
                    let branch = past(body, next);
                    if kind_at(tokens, branch) != TokenKind::Else {
                        Parsed::Done {
                            value: StmtTree {
                                form: StmtForm::If {
                                    condition,
                                    then_branch: Box::new(then_branch),
                                    else_branch: None,
                                },
                                span: start.joined(then_branch.span),
                            },
                            next: branch,
                        }
                    } else {
                        match statement(tokens, branch + 1) {
                            Parsed::Failed(report) => Parsed::Failed(report),
                            Parsed::Done { value: else_branch, next } => Parsed::Done {
                                value: StmtTree {
                                    form: StmtForm::If {
                                        condition,
                                        then_branch: Box::new(then_branch),
                                        else_branch: Some(Box::new(else_branch)),
                                    },
                                    span: start.joined(else_branch.span),
                                },
                                next: past(branch + 1, next),
                            },
                        }
                    }
                },
            }
        },
    }
}

/// What follows `while`.
pub open spec fn while_rest(tokens: Seq<Token>, at: int, start: Span) -> Parsed<StmtTree>
    decreases left(tokens, at), 72int,
{
    match expression(tokens, at) {
        Parsed::Failed(report) => Parsed::Failed(report),
        Parsed::Done { value: condition, next } => {
            let inner = skip(tokens, past(at, next), TokenKind::Do);
            match statement(tokens, inner) {
                Parsed::Failed(report) => Parsed::Failed(report),
                Parsed::Done { value: body, next } => Parsed::Done {
                    value: StmtTree {
                        form: StmtForm::While { condition, body: Box::new(body) },
                        span: start.joined(body.span),
                    },
                    next: past(inner, next),
                },
            }
        },
    }
}

/// What follows `do`.
pub open spec fn do_rest(tokens: Seq<Token>, at: int, start: Span) -> Parsed<StmtTree>
    decreases left(tokens, at), 72int,
{
    match statement(tokens, at) {
        Parsed::Failed(report) => Parsed::Failed(report),
        Parsed::Done { value: body, next } => {
            let until = past(at, next);
            if kind_at(tokens, until) != TokenKind::Until {
                expected(tokens, until, "expected until after do body"@)
            } else {
                match expression(tokens, until + 1) {
                    Parsed::Failed(report) => Parsed::Failed(report),
                    Parsed::Done { value: condition, next } => {
                        let end = past(until + 1, next);
                        Parsed::Done {
                            value: StmtTree {
                                form: StmtForm::DoUntil { body: Box::new(body), condition },
                                span: start.joined(closing(tokens, end, condition.span)),
                            },
                            next: skip(tokens, end, TokenKind::Semicolon),
                        }
                    },
                }
            }
        },
    }
}

/// The first clause of a `for`.
pub open spec fn for_initializer(tokens: Seq<Token>, at: int) -> Parsed<Option<Box<StmtTree>>>
    decreases left(tokens, at), 68int,
{
    if kind_at(tokens, at) == TokenKind::Semicolon {
        Parsed::Done { value: None, next: at }
    } else if kind_at(tokens, at) == TokenKind::Var || kind_at(tokens, at)
        == TokenKind::GlobalVar {
        match var_rest(
            tokens,
            at + 1,
            span_at(tokens, at),
            kind_at(tokens, at) == TokenKind::GlobalVar,
            false,
        ) {
            Parsed::Failed(report) => Parsed::Failed(report),
            Parsed::Done { value, next } => Parsed::Done {
                value: Some(Box::new(value)),
                next: past(at, next),
            },
        }
    } else {
        match assignment(tokens, at) {
            Parsed::Failed(report) => Parsed::Failed(report),
            Parsed::Done { value, next } => Parsed::Done {
                value: Some(Box::new(StmtTree { form: StmtForm::Expr(value), span: value.span })),
                next: past(at, next),
            },
        }
    }
}

/// The second clause of a `for`.
pub open spec fn for_condition(tokens: Seq<Token>, at: int) -> Parsed<Option<ExprTree>>
    decreases left(tokens, at), 68int,
{
    if kind_at(tokens, at) == TokenKind::Semicolon {
        Parsed::Done { value: None, next: at }
    } else {
        match expression(tokens, at) {
            Parsed::Failed(report) => Parsed::Failed(report),
            Parsed::Done { value, next } => Parsed::Done {
                value: Some(value),
                next: past(at, next),
            },
        }
    }
}

/// The third clause of a `for`, with the semicolons behind it.
pub open spec fn for_step(tokens: Seq<Token>, at: int) -> Parsed<Option<ExprTree>>
    decreases left(tokens, at), 68int,
{
    if kind_at(tokens, at) == TokenKind::RightParen || kind_at(tokens, at)
        == TokenKind::Semicolon {
        Parsed::Done { value: None, next: skip_semicolons(tokens, at) }
    } else {
        match assignment(tokens, at) {
            Parsed::Failed(report) => Parsed::Failed(report),
            Parsed::Done { value, next } => Parsed::Done {
                value: Some(value),
                next: skip_semicolons(tokens, past(at, next)),
            },
        }
    }
}

/// What follows `for`.
pub open spec fn for_rest(tokens: Seq<Token>, at: int, start: Span) -> Parsed<StmtTree>
    decreases left(tokens, at), 72int,
{
    if kind_at(tokens, at) != TokenKind::LeftParen {
        expected(tokens, at, "expected '(' after for"@)
    } else {
        match for_initializer(tokens, at + 1) {
            Parsed::Failed(report) => Parsed::Failed(report),
            Parsed::Done { value: initializer, next } => {
                let first = past(at, next);
                if kind_at(tokens, first) != TokenKind::Semicolon {
                    expected(tokens, first, "expected ';' after for initializer"@)
                } else {
                    match for_condition(tokens, first + 1) {
                        Parsed::Failed(report) => Parsed::Failed(report),
                        Parsed::Done { value: condition, next } => {
                            let second = past(first, next);
                            if kind_at(tokens, second) != TokenKind::Semicolon {
                                expected(tokens, second, "expected ';' after for condition"@)
                            } else {
                                match for_step(tokens, second + 1) {
                                    Parsed::Failed(report) => Parsed::Failed(report),
                                    Parsed::Done { value: step, next } => for_body(
                                        tokens,
                                        past(second, next),
                                        start,
                                        initializer,
                                        condition,
                                        step,
                                    ),
                                }
                            }
                        },
                    }
                }
            },
        }
    }
}

/// What follows the clauses of a `for`.
pub open spec fn for_body(
    tokens: Seq<Token>,
    at: int,
    start: Span,
    initializer: Option<Box<StmtTree>>,
    condition: Option<ExprTree>,
    step: Option<ExprTree>,
) -> Parsed<StmtTree>
    decreases left(tokens, at), 72int,
{
    if kind_at(tokens, at) != TokenKind::RightParen {
        expected(tokens, at, "expected ')' after for clauses"@)
    } else {
        match statement(tokens, at + 1) {
            Parsed::Failed(report) => Parsed::Failed(report),
            Parsed::Done { value: body, next } => Parsed::Done {
                value: StmtTree {
                    form: StmtForm::For { initializer, condition, step, body: Box::new(body) },
                    span: start.joined(body.span),
                },
                next: past(at + 1, next),
            },
        }
    }
}

/// What follows `repeat`.
pub open spec fn repeat_rest(tokens: Seq<Token>, at: int, start: Span) -> Parsed<StmtTree>
    decreases left(tokens, at), 72int,
{
    match expression(tokens, at) {
        Parsed::Failed(report) => Parsed::Failed(report),
        Parsed::Done { value: count, next } => {
            let inner = past(at, next);
            match statement(tokens, inner) {
                Parsed::Failed(report) => Parsed::Failed(report),
                Parsed::Done { value: body, next } => Parsed::Done {
                    value: StmtTree {
                        form: StmtForm::Repeat { count, body: Box::new(body) },
                        span: start.joined(body.span),
                    },
                    next: past(inner, next),
                },
            }
        },
    }
}

/// What follows `with`.
pub open spec fn with_rest(tokens: Seq<Token>, at: int, start: Span) -> Parsed<StmtTree>
    decreases left(tokens, at), 72int,
{
    match expression(tokens, at) {
        Parsed::Failed(report) => Parsed::Failed(report),
        Parsed::Done { value: target, next } => {
            let inner = skip(tokens, past(at, next), TokenKind::Do);
            match statement(tokens, inner) {
                Parsed::Failed(report) => Parsed::Failed(report),
                Parsed::Done { value: body, next } => Parsed::Done {
                    value: StmtTree {
                        form: StmtForm::With { target, body: Box::new(body) },
                        span: start.joined(body.span),
                    },
                    next: past(inner, next),
                },
            }
        },
    }
}

/// What follows `switch`.
pub open spec fn switch_rest(tokens: Seq<Token>, at: int, start: Span) -> Parsed<StmtTree>
    decreases left(tokens, at), 72int,
{
    match expression(tokens, at) {
        Parsed::Failed(report) => Parsed::Failed(report),
        Parsed::Done { value, next } => {
            let inner = past(at, next);
            match statement(tokens, inner) {
                Parsed::Failed(report) => Parsed::Failed(report),
                Parsed::Done { value: body, next } => Parsed::Done {
                    value: StmtTree {
                        form: StmtForm::Switch { value, body: Box::new(body) },
                        span: start.joined(body.span),
                    },
                    next: past(inner, next),
                },
            }
        },
    }
}

/// What follows `case`.
pub open spec fn case_rest(tokens: Seq<Token>, at: int, start: Span) -> Parsed<StmtTree>
    decreases left(tokens, at), 72int,
{
    match expression(tokens, at) {
        Parsed::Failed(report) => Parsed::Failed(report),
        Parsed::Done { value, next } => {
            let colon = past(at, next);
            if kind_at(tokens, colon) != TokenKind::Colon {
                expected(tokens, colon, "expected ':' after case value"@)
            } else {
                Parsed::Done {
                    value: StmtTree {
                        form: StmtForm::Case(value),
                        span: start.joined(span_at(tokens, colon)),
                    },
                    next: colon + 1,
                }
            }
        },
    }
}

/// An optional value behind a name.
pub open spec fn initial_value(tokens: Seq<Token>, at: int) -> Parsed<Option<ExprTree>>
    decreases left(tokens, at), 60int,
{
    if kind_at(tokens, at) != TokenKind::Assign {
        Parsed::Done { value: None, next: at }
    } else {
        match expression(tokens, at + 1) {
            Parsed::Failed(report) => Parsed::Failed(report),
            Parsed::Done { value, next } => Parsed::Done {
                value: Some(value),
                next: past(at + 1, next),
            },
        }
    }
}

/// A name with its optional value.
pub open spec fn named(name: Span, value: Option<ExprTree>) -> VarTree {
    VarTree {
        name,
        value,
        span: name.joined(
            match value {
                None => name,
                Some(value) => value.span,
            },
        ),
    }
}

/// The declarations of a `var` statement.
pub open spec fn declarations(tokens: Seq<Token>, at: int, before: Seq<VarTree>) -> Parsed<
    Seq<VarTree>,
>
    decreases left(tokens, at), 64int,
{
    if kind_at(tokens, at) != TokenKind::Identifier {
        expected(tokens, at, "expected variable name"@)
    } else {
        match initial_value(tokens, at + 1) {
            Parsed::Failed(report) => Parsed::Failed(report),
            Parsed::Done { value, next } => {
                let comma = past(at, next);
                let found = before.push(named(span_at(tokens, at), value));
                if kind_at(tokens, comma) == TokenKind::Comma {
                    declarations(tokens, comma + 1, found)
                } else {
                    Parsed::Done { value: found, next: comma }
                }
            },
        }
    }
}

/// What follows `var` or `globalvar`.
pub open spec fn var_rest(
    tokens: Seq<Token>,
    at: int,
    start: Span,
    global: bool,
    semicolon: bool,
) -> Parsed<StmtTree>
    decreases left(tokens, at), 72int,
{
    match declarations(tokens, at, seq![]) {
        Parsed::Failed(report) => Parsed::Failed(report),
        Parsed::Done { value: declarations, next } => {
            let last = declarations.last().span;
            Parsed::Done {
                value: StmtTree {
                    form: StmtForm::Var { global, declarations },
                    span: start.joined(
                        if semicolon {
                            closing(tokens, next, last)
                        } else {
                            last
                        },
                    ),
                },
                next: if semicolon {
                    skip(tokens, next, TokenKind::Semicolon)
                } else {
                    next
                },
            }
        },
    }
}

/// The members of an `enum` statement up to its end.
pub open spec fn members(
    tokens: Seq<Token>,
    at: int,
    start: Span,
    name: Span,
    before: Seq<VarTree>,
) -> Parsed<StmtTree>
    decreases left(tokens, at), 64int,
{
    if kind_at(tokens, at) == TokenKind::End {
        Parsed::Done {
            value: StmtTree {
                form: StmtForm::Enum { name, members: before },
                span: start.joined(closing(tokens, at + 1, span_at(tokens, at))),
            },
            next: skip(tokens, at + 1, TokenKind::Semicolon),
        }
    } else if kind_at(tokens, at) == TokenKind::Eof {
        Parsed::Failed(Report { message: "unterminated enum"@, span: start })
    } else if kind_at(tokens, at) != TokenKind::Identifier {
        expected(tokens, at, "expected enum member name"@)
    } else {
        match initial_value(tokens, at + 1) {
            Parsed::Failed(report) => Parsed::Failed(report),
            Parsed::Done { value, next } => {
                let comma = past(at, next);
                if kind_at(tokens, comma) != TokenKind::Comma && kind_at(tokens, comma)
                    != TokenKind::End {
                    expected(tokens, comma, "expected ',' or '}' after enum member"@)
                } else {
                    members(
                        tokens,
                        skip(tokens, comma, TokenKind::Comma),
                        start,
                        name,
                        before.push(named(span_at(tokens, at), value)),
                    )
                }
            },
        }
    }
}

/// What follows `enum`.
pub open spec fn enum_rest(tokens: Seq<Token>, at: int, start: Span) -> Parsed<StmtTree>
    decreases left(tokens, at), 72int,
{
    if kind_at(tokens, at) != TokenKind::Identifier {
        expected(tokens, at, "expected enum name"@)
    } else if kind_at(tokens, at + 1) != TokenKind::Begin {
        expected(tokens, at + 1, "expected '{' after enum name"@)
    } else {
        members(tokens, at + 2, start, span_at(tokens, at), seq![])
    }
}

/// What follows `return`.
pub open spec fn return_rest(tokens: Seq<Token>, at: int, start: Span) -> Parsed<StmtTree>
    decreases left(tokens, at), 72int,
{
    if returns_nothing(kind_at(tokens, at)) {
        Parsed::Done {
            value: StmtTree {
                form: StmtForm::Return(None),
                span: start.joined(closing(tokens, at, start)),
            },
            next: skip(tokens, at, TokenKind::Semicolon),
        }
    } else {
        match expression(tokens, at) {
            Parsed::Failed(report) => Parsed::Failed(report),
            Parsed::Done { value, next } => {
                let end = past(at, next);
                Parsed::Done {
                    value: StmtTree {
                        form: StmtForm::Return(Some(value)),
                        span: start.joined(closing(tokens, end, value.span)),
                    },
                    next: skip(tokens, end, TokenKind::Semicolon),
                }
            },
        }
    }
}

/// The statements of a code unit up to its end.
pub open spec fn program(tokens: Seq<Token>, at: int, before: Seq<StmtTree>) -> Parsed<
    Seq<StmtTree>,
>
    decreases left(tokens, at), 80int,
{
    if kind_at(tokens, at) == TokenKind::Eof {
        Parsed::Done { value: before, next: at }
    } else {
        match statement(tokens, at) {
            Parsed::Failed(report) => Parsed::Failed(report),
            Parsed::Done { value, next } => program(
                tokens,
                past(at, next),
                before.push(value),
            ),
        }
    }
}

/// Whether a list of tokens ends with the end of the file and has it nowhere
/// else.
pub open spec fn ended(tokens: Seq<Token>) -> bool {
    &&& tokens.len() > 0
    &&& tokens.last().kind == TokenKind::Eof
    &&& forall|k: int|
        0 <= k < tokens.len() - 1 ==> (#[trigger] tokens[k]).kind != TokenKind::Eof
}

/// The tree of a source, or the reports of what is wrong with it.
pub open spec fn parsed(source: Seq<char>) -> Result<ProgramTree, Seq<Report>> {
    if encode_utf8(source).len() > u32::MAX {
        Err(
            seq![
                Report {
                    message: "GML source is larger than 4 GiB"@,
                    span: Span { start: 0, end: 0, line: 0, column: 0 },
                },
            ],
        )
    } else if errors_from(source, 0).len() > 0 {
        Err(errors_from(source, 0))
    } else {
        let tokens = tokens_from(source, 0);
        match program(tokens, 0, seq![]) {
            Parsed::Failed(report) => Err(seq![report]),
            Parsed::Done { value, .. } => Ok(
                ProgramTree { statements: value, token_count: (tokens.len() - 1) as nat },
            ),
        }
    }
}

/// Whether nothing is wrong with the tokens of a source.
pub open spec fn is_lexed(source: Seq<char>) -> bool {
    encode_utf8(source).len() <= u32::MAX && errors_from(source, 0).len() == 0
}

/// Returns the syntax tree of a source, or what is wrong with it: all errors of
/// its tokens, or the first error of its grammar.
pub fn parse(source: &str) -> (result: Result<Program, Vec<Diagnostic>>)
    ensures
        match result {
            Ok(program) => {
                &&& parsed(source@) == Ok::<ProgramTree, Seq<Report>>(program.tree())
                &&& program_spanned(source@, program.tree())
            },
            Err(errors) => {
                &&& parsed(source@) == Err::<ProgramTree, Seq<Report>>(reports(errors@))
                &&& is_lexed(source@) ==> errors@.len() == 1 && is_token_span(
                    tokens_from(source@, 0),
                    errors@[0]@.span,
                )
            },
        },
{
    let tokens = match lex(source) {
        Ok(tokens) => tokens,
        Err(errors) => {
            proof {
                assert(reports(errors@).len() == errors@.len());
            }
            return Err(errors);
        },
    };
    proof {
        law_tokens_end_with_eof(source@, 0);
    }
    let token_count: usize = tokens.len() - 1;
    proof {
        lemma_tokens_joinable(source@);
    }
    let mut parser = Parser { source: Ghost(source@), tokens, position: 0 };
    match parser.program(token_count) {
        Ok(program) => Ok(program),
        Err(error) => {
            let mut errors: Vec<Diagnostic> = Vec::new();
            errors.push(error);
            assert(reports(errors@) =~= seq![error@]);
            Err(errors)
        },
    }
}

struct Parser {
    source: Ghost<Seq<char>>,
    tokens: Vec<Token>,
    position: usize,
}

/// Whether the span from a token to the same or a later one covers whole
/// characters of the source.
#[verifier::opaque]
spec fn joinable(source: Seq<char>, tokens: Seq<Token>) -> bool {
    forall|first: int, last: int|
        0 <= first <= last < tokens.len() ==> in_source(
            source,
            (#[trigger] tokens[first]).span.joined((#[trigger] tokens[last]).span),
        )
}

proof fn lemma_tokens_joinable(source: Seq<char>)
    requires
        encode_utf8(source).len() <= u32::MAX,
    ensures
        joinable(source, tokens_from(source, 0)),
{
    reveal(joinable);
    law_tokens_cover_the_source_in_order(source, 0);
    let tokens = tokens_from(source, 0);
    assert forall|first: int, last: int| 0 <= first <= last < tokens.len() implies in_source(
        source,
        (#[trigger] tokens[first]).span.joined((#[trigger] tokens[last]).span),
    ) by {
        reveal(in_source);
        let (a, b) = choose|start: int, end: int| #[trigger]
            covers(source, tokens[first].span, start, end);
        let (c, d) = choose|start: int, end: int| #[trigger]
            covers(source, tokens[last].span, start, end);
        if first < last {
            assert(tokens[first].span.end <= tokens[last].span.start);
        }
        if d < a {
            crate::text::lemma_offset_bounds(source, d, a);
            crate::text::lemma_offset_bounds(source, a, b);
            crate::text::lemma_offset_bounds(source, c, d);
        }
        lemma_covers(source, tokens[first].span.joined(tokens[last].span), a, d);
    }
}

spec fn expr_result(result: Result<Expr, Diagnostic>) -> Result<ExprTree, Report> {
    match result {
        Ok(value) => Ok(value.tree()),
        Err(error) => Err(error@),
    }
}

spec fn option_result(result: Result<Option<Expr>, Diagnostic>) -> Result<
    Option<ExprTree>,
    Report,
> {
    match result {
        Ok(value) => Ok(optional_tree(value)),
        Err(error) => Err(error@),
    }
}

spec fn list_result(result: Result<Vec<Expr>, Diagnostic>) -> Result<Seq<ExprTree>, Report> {
    match result {
        Ok(values) => Ok(expr_trees(values@)),
        Err(error) => Err(error@),
    }
}

spec fn stmt_result(result: Result<Stmt, Diagnostic>) -> Result<StmtTree, Report> {
    match result {
        Ok(value) => Ok(value.tree()),
        Err(error) => Err(error@),
    }
}

spec fn boxed_result(result: Result<Option<Box<Stmt>>, Diagnostic>) -> Result<
    Option<Box<StmtTree>>,
    Report,
> {
    match result {
        Ok(None) => Ok(None),
        Ok(Some(value)) => Ok(Some(Box::new(value.tree()))),
        Err(error) => Err(error@),
    }
}

spec fn var_trees(values: Seq<VarDecl>) -> Seq<VarTree> {
    values.map_values(|value: VarDecl| value.tree())
}

spec fn member_trees(values: Seq<EnumMember>) -> Seq<VarTree> {
    values.map_values(|value: EnumMember| value.tree())
}

/// The span from one parser's position up to another's is in the source.
proof fn lemma_span_since(from: Parser, to: Parser)
    requires
        from.wf(),
        from.position < to.position <= from.tokens@.len(),
    ensures
        in_source(from.source@, to.span_since(&from)),
{
    reveal(joinable);
    let last = from.tokens@[to.position - 1];
    let first = from.tokens@[from.position as int];
    assert(in_source(from.source@, first.span.joined(last.span)));
}

/// The span from a token to another is in the source.
proof fn lemma_spans(parser: Parser, first: int, last: int)
    requires
        parser.wf(),
        0 <= first <= last < parser.tokens@.len(),
    ensures
        in_source(
            parser.source@,
            span_at(parser.tokens@, first).joined(span_at(parser.tokens@, last)),
        ),
        in_source(parser.source@, span_at(parser.tokens@, first)),
{
    reveal(joinable);
    let start = parser.tokens@[first];
    let end = parser.tokens@[last];
    assert(in_source(parser.source@, start.span.joined(end.span)));
    assert(in_source(parser.source@, start.span.joined(start.span)));
    assert(start.span.joined(start.span) == start.span);
}

impl Parser {
    spec fn wf(&self) -> bool {
        &&& ended(self.tokens@)
        &&& joinable(self.source@, self.tokens@)
        &&& self.position < self.tokens@.len()
    }

    /// The span from the position of another parser up to the position of this
    /// one.
    spec fn span_since(&self, from: &Parser) -> Span {
        span_at(from.tokens@, from.position as int).joined(
            span_at(from.tokens@, self.position - 1),
        )
    }

    /// Whether this parser went on from another as a rule of the grammar says.
    spec fn reached<T>(
        &self,
        from: &Parser,
        outcome: Parsed<T>,
        result: Result<T, Report>,
    ) -> bool {
        &&& self.wf()
        &&& self.tokens == from.tokens
        &&& self.source == from.source
        &&& self.position >= from.position
        &&& match result {
            Ok(value) => outcome == (Parsed::Done { value, next: self.position as int }),
            Err(report) => outcome == Parsed::Failed::<T>(report) && is_token_span(
                from.tokens@,
                report.span,
            ),
        }
    }

    fn program(&mut self, token_count: usize) -> (result: Result<Program, Diagnostic>)
        requires
            old(self).wf(),
        ensures
            match result {
                Ok(value) => {
                    &&& program(old(self).tokens@, old(self).position as int, seq![]) matches
                        Parsed::Done { value: statements, .. }
                    &&& value.tree() == (ProgramTree { statements, token_count: token_count as nat })
                    &&& program_spanned(old(self).source@, value.tree())
                },
                Err(error) => program(old(self).tokens@, old(self).position as int, seq![])
                    == Parsed::Failed::<Seq<StmtTree>>(error@) && is_token_span(
                    old(self).tokens@,
                    error@.span,
                ),
            },
    {
        let ghost start = *self;
        let ghost tokens = self.tokens@;
        let mut statements: Vec<Stmt> = Vec::new();
        while !self.at(TokenKind::Eof)
            invariant
                self.wf(),
                self.tokens@ == tokens,
                self.source == start.source,
                start.tokens@ == tokens,
                start == *old(self),
                program(tokens, start.position as int, seq![]) == program(
                    tokens,
                    self.position as int,
                    stmt_trees(statements@),
                ),
                stmts_spanned(self.source@, stmt_trees(statements@)),
            decreases self.tokens@.len() - self.position,
        {
            let statement = match self.statement() {
                Ok(statement) => statement,
                Err(error) => {
                    return Err(error);
                },
            };
            proof {
                lemma_stmt_trees_push(statements@, statement);
                assert(stmt_trees(statements@).push(statement.tree()).drop_last() =~= stmt_trees(
                    statements@,
                ));
            }
            statements.push(statement);
        }
        Ok(Program { statements, token_count })
    }

    fn statement(&mut self) -> (result: Result<Stmt, Diagnostic>)
        requires
            old(self).wf(),
        ensures
            final(self).reached(
                old(self),
                statement(old(self).tokens@, old(self).position as int),
                stmt_result(result),
            ),
            result matches Ok(value) ==> {
                &&& final(self).position > old(self).position
                &&& value.span == final(self).span_since(old(self))
                &&& stmt_spanned(old(self).source@, value.tree())
            },
        decreases old(self).tokens@.len() - old(self).position, 70int,
    {
        match self.current().kind {
            TokenKind::Semicolon => {
                let span = self.advance().span;
                proof {
                    lemma_span_since(*old(self), *self);
                }
                Ok(Stmt { kind: StmtKind::Empty, span })
            },
            TokenKind::Begin => self.block(),
            TokenKind::If => self.if_statement(),
            TokenKind::While => self.while_statement(),
            TokenKind::Do => self.do_until_statement(),
            TokenKind::For => self.for_statement(),
            TokenKind::Repeat => self.repeat_statement(),
            TokenKind::With => self.with_statement(),
            TokenKind::Switch => self.switch_statement(),
            TokenKind::Case => self.case_statement(),
            TokenKind::Default => self.default_statement(),
            TokenKind::Var => self.var_statement(false, true),
            TokenKind::GlobalVar => self.var_statement(true, true),
            TokenKind::Enum => self.enum_statement(),
            TokenKind::Return => self.return_statement(),
            TokenKind::Exit => self.simple_statement(StmtKind::Exit),
            TokenKind::Break => self.simple_statement(StmtKind::Break),
            TokenKind::Continue => self.simple_statement(StmtKind::Continue),
            TokenKind::Struct => Err(
                self.error("struct declarations are not part of GMS 1.4 GML"),
            ),
            TokenKind::End => Err(self.error("unexpected end of block")),
            TokenKind::Else => Err(self.error("else has no matching if")),
            TokenKind::Until => Err(self.error("until has no matching do")),
            TokenKind::Eof => Err(self.error("expected a statement")),
            _ => self.expression_statement(),
        }
    }

    fn block(&mut self) -> (result: Result<Stmt, Diagnostic>)
        requires
            old(self).wf(),
            kind_at(old(self).tokens@, old(self).position as int) == TokenKind::Begin,
        ensures
            final(self).reached(
                old(self),
                block(
                    old(self).tokens@,
                    old(self).position + 1,
                    span_at(old(self).tokens@, old(self).position as int),
                    seq![],
                ),
                stmt_result(result),
            ),
            result matches Ok(value) ==> {
                &&& final(self).position > old(self).position
                &&& value.span == final(self).span_since(old(self))
                &&& stmt_spanned(old(self).source@, value.tree())
            },
        decreases old(self).tokens@.len() - old(self).position, 69int,
    {
        let ghost begin = *self;
        let ghost tokens = self.tokens@;
        let start = self.advance().span;
        let mut statements: Vec<Stmt> = Vec::new();
        while !self.at(TokenKind::End)
            invariant
                self.wf(),
                self.tokens == begin.tokens,
                self.source == begin.source,
                begin.tokens@ == tokens,
                begin == *old(self),
                begin.position < self.position,
                start == span_at(tokens, begin.position as int),
                block(tokens, begin.position + 1, start, seq![]) == block(
                    tokens,
                    self.position as int,
                    start,
                    stmt_trees(statements@),
                ),
                stmts_spanned(self.source@, stmt_trees(statements@)),
            decreases self.tokens@.len() - self.position,
        {
            if self.at(TokenKind::Eof) {
                proof {
                    lemma_token_span(tokens, begin.position as int);
                }
                return Err(Diagnostic::new("unterminated block", start));
            }
            let statement = match self.statement() {
                Ok(statement) => statement,
                Err(error) => {
                    return Err(error);
                },
            };
            proof {
                lemma_stmt_trees_push(statements@, statement);
                assert(stmt_trees(statements@).push(statement.tree()).drop_last() =~= stmt_trees(
                    statements@,
                ));
            }
            statements.push(statement);
        }
        let end = self.advance().span;
        proof {
            lemma_span_since(*old(self), *self);
        }
        Ok(Stmt { kind: StmtKind::Block(statements), span: start.through(end) })
    }

    fn if_statement(&mut self) -> (result: Result<Stmt, Diagnostic>)
        requires
            old(self).wf(),
            kind_at(old(self).tokens@, old(self).position as int) == TokenKind::If,
        ensures
            final(self).reached(
                old(self),
                if_rest(
                    old(self).tokens@,
                    old(self).position + 1,
                    span_at(old(self).tokens@, old(self).position as int),
                ),
                stmt_result(result),
            ),
            result matches Ok(value) ==> {
                &&& final(self).position > old(self).position
                &&& value.span == final(self).span_since(old(self))
                &&& stmt_spanned(old(self).source@, value.tree())
            },
        decreases old(self).tokens@.len() - old(self).position, 69int,
    {
        let start = self.advance().span;
        let condition = match self.expression() {
            Ok(condition) => condition,
            Err(error) => {
                return Err(error);
            },
        };
        self.consume(TokenKind::Then);
        let then_branch = match self.statement() {
            Ok(branch) => branch,
            Err(error) => {
                return Err(error);
            },
        };
        if self.consume(TokenKind::Else).is_some() {
            let else_branch = match self.statement() {
                Ok(branch) => branch,
                Err(error) => {
                    return Err(error);
                },
            };
            let span = start.through(else_branch.span);
            proof {
                lemma_span_since(*old(self), *self);
            }
            Ok(
                Stmt {
                    kind: StmtKind::If {
                        condition,
                        then_branch: Box::new(then_branch),
                        else_branch: Some(Box::new(else_branch)),
                    },
                    span,
                },
            )
        } else {
            let span = start.through(then_branch.span);
            proof {
                lemma_span_since(*old(self), *self);
            }
            Ok(
                Stmt {
                    kind: StmtKind::If {
                        condition,
                        then_branch: Box::new(then_branch),
                        else_branch: None,
                    },
                    span,
                },
            )
        }
    }

    fn while_statement(&mut self) -> (result: Result<Stmt, Diagnostic>)
        requires
            old(self).wf(),
            kind_at(old(self).tokens@, old(self).position as int) == TokenKind::While,
        ensures
            final(self).reached(
                old(self),
                while_rest(
                    old(self).tokens@,
                    old(self).position + 1,
                    span_at(old(self).tokens@, old(self).position as int),
                ),
                stmt_result(result),
            ),
            result matches Ok(value) ==> {
                &&& final(self).position > old(self).position
                &&& value.span == final(self).span_since(old(self))
                &&& stmt_spanned(old(self).source@, value.tree())
            },
        decreases old(self).tokens@.len() - old(self).position, 69int,
    {
        let start = self.advance().span;
        let condition = match self.expression() {
            Ok(condition) => condition,
            Err(error) => {
                return Err(error);
            },
        };
        self.consume(TokenKind::Do);
        let body = match self.statement() {
            Ok(body) => body,
            Err(error) => {
                return Err(error);
            },
        };
        let span = start.through(body.span);
        proof {
            lemma_span_since(*old(self), *self);
        }
        Ok(Stmt { kind: StmtKind::While { condition, body: Box::new(body) }, span })
    }

    fn do_until_statement(&mut self) -> (result: Result<Stmt, Diagnostic>)
        requires
            old(self).wf(),
            kind_at(old(self).tokens@, old(self).position as int) == TokenKind::Do,
        ensures
            final(self).reached(
                old(self),
                do_rest(
                    old(self).tokens@,
                    old(self).position + 1,
                    span_at(old(self).tokens@, old(self).position as int),
                ),
                stmt_result(result),
            ),
            result matches Ok(value) ==> {
                &&& final(self).position > old(self).position
                &&& value.span == final(self).span_since(old(self))
                &&& stmt_spanned(old(self).source@, value.tree())
            },
        decreases old(self).tokens@.len() - old(self).position, 69int,
    {
        let start = self.advance().span;
        let body = match self.statement() {
            Ok(body) => body,
            Err(error) => {
                return Err(error);
            },
        };
        match self.expect(TokenKind::Until, "expected until after do body") {
            Ok(_) => {},
            Err(error) => {
                return Err(error);
            },
        }
        let condition = match self.expression() {
            Ok(condition) => condition,
            Err(error) => {
                return Err(error);
            },
        };
        let end = self.optional_semicolon(condition.span);
        proof {
            lemma_span_since(*old(self), *self);
        }
        Ok(
            Stmt {
                kind: StmtKind::DoUntil { body: Box::new(body), condition },
                span: start.through(end),
            },
        )
    }

    fn for_initializer(&mut self) -> (result: Result<Option<Box<Stmt>>, Diagnostic>)
        requires
            old(self).wf(),
        ensures
            final(self).reached(
                old(self),
                for_initializer(old(self).tokens@, old(self).position as int),
                boxed_result(result),
            ),
            result matches Ok(Some(value)) ==> stmt_spanned(old(self).source@, value.tree()),
        decreases old(self).tokens@.len() - old(self).position, 68int,
    {
        if self.at(TokenKind::Semicolon) {
            Ok(None)
        } else if self.at(TokenKind::Var) {
            match self.var_statement(false, false) {
                Ok(statement) => Ok(Some(Box::new(statement))),
                Err(error) => Err(error),
            }
        } else if self.at(TokenKind::GlobalVar) {
            match self.var_statement(true, false) {
                Ok(statement) => Ok(Some(Box::new(statement))),
                Err(error) => Err(error),
            }
        } else {
            match self.assignment_expression() {
                Ok(expression) => {
                    let span = expression.span;
                    Ok(Some(Box::new(Stmt { kind: StmtKind::Expr(expression), span })))
                },
                Err(error) => Err(error),
            }
        }
    }

    fn for_condition(&mut self) -> (result: Result<Option<Expr>, Diagnostic>)
        requires
            old(self).wf(),
        ensures
            final(self).reached(
                old(self),
                for_condition(old(self).tokens@, old(self).position as int),
                option_result(result),
            ),
            result matches Ok(value) ==> option_spanned(old(self).source@, optional_tree(value)),
        decreases old(self).tokens@.len() - old(self).position, 68int,
    {
        if self.at(TokenKind::Semicolon) {
            Ok(None)
        } else {
            match self.expression() {
                Ok(expression) => Ok(Some(expression)),
                Err(error) => Err(error),
            }
        }
    }

    fn for_step(&mut self) -> (result: Result<Option<Expr>, Diagnostic>)
        requires
            old(self).wf(),
        ensures
            final(self).reached(
                old(self),
                for_step(old(self).tokens@, old(self).position as int),
                option_result(result),
            ),
            result matches Ok(value) ==> option_spanned(old(self).source@, optional_tree(value)),
        decreases old(self).tokens@.len() - old(self).position, 68int,
    {
        let step = if self.at(TokenKind::RightParen) || self.at(TokenKind::Semicolon) {
            None
        } else {
            match self.assignment_expression() {
                Ok(expression) => Some(expression),
                Err(error) => {
                    return Err(error);
                },
            }
        };
        let ghost behind = *self;
        while self.at(TokenKind::Semicolon)
            invariant
                self.wf(),
                self.tokens == behind.tokens,
                self.source == behind.source,
                behind.source == old(self).source,
                behind.tokens == old(self).tokens,
                behind.position <= self.position,
                behind.position >= old(self).position,
                skip_semicolons(self.tokens@, behind.position as int) == skip_semicolons(
                    self.tokens@,
                    self.position as int,
                ),
            decreases self.tokens@.len() - self.position,
        {
            self.advance();
        }
        Ok(step)
    }

    fn for_statement(&mut self) -> (result: Result<Stmt, Diagnostic>)
        requires
            old(self).wf(),
            kind_at(old(self).tokens@, old(self).position as int) == TokenKind::For,
        ensures
            final(self).reached(
                old(self),
                for_rest(
                    old(self).tokens@,
                    old(self).position + 1,
                    span_at(old(self).tokens@, old(self).position as int),
                ),
                stmt_result(result),
            ),
            result matches Ok(value) ==> {
                &&& final(self).position > old(self).position
                &&& value.span == final(self).span_since(old(self))
                &&& stmt_spanned(old(self).source@, value.tree())
            },
        decreases old(self).tokens@.len() - old(self).position, 69int,
    {
        let start = self.advance().span;
        match self.expect(TokenKind::LeftParen, "expected '(' after for") {
            Ok(_) => {},
            Err(error) => {
                return Err(error);
            },
        }
        let initializer = match self.for_initializer() {
            Ok(initializer) => initializer,
            Err(error) => {
                return Err(error);
            },
        };
        match self.expect(TokenKind::Semicolon, "expected ';' after for initializer") {
            Ok(_) => {},
            Err(error) => {
                return Err(error);
            },
        }
        let condition = match self.for_condition() {
            Ok(condition) => condition,
            Err(error) => {
                return Err(error);
            },
        };
        match self.expect(TokenKind::Semicolon, "expected ';' after for condition") {
            Ok(_) => {},
            Err(error) => {
                return Err(error);
            },
        }
        let step = match self.for_step() {
            Ok(step) => step,
            Err(error) => {
                return Err(error);
            },
        };
        match self.expect(TokenKind::RightParen, "expected ')' after for clauses") {
            Ok(_) => {},
            Err(error) => {
                return Err(error);
            },
        }
        let body = match self.statement() {
            Ok(body) => body,
            Err(error) => {
                return Err(error);
            },
        };
        let span = start.through(body.span);
        proof {
            lemma_span_since(*old(self), *self);
        }
        Ok(
            Stmt {
                kind: StmtKind::For { initializer, condition, step, body: Box::new(body) },
                span,
            },
        )
    }

    fn repeat_statement(&mut self) -> (result: Result<Stmt, Diagnostic>)
        requires
            old(self).wf(),
            kind_at(old(self).tokens@, old(self).position as int) == TokenKind::Repeat,
        ensures
            final(self).reached(
                old(self),
                repeat_rest(
                    old(self).tokens@,
                    old(self).position + 1,
                    span_at(old(self).tokens@, old(self).position as int),
                ),
                stmt_result(result),
            ),
            result matches Ok(value) ==> {
                &&& final(self).position > old(self).position
                &&& value.span == final(self).span_since(old(self))
                &&& stmt_spanned(old(self).source@, value.tree())
            },
        decreases old(self).tokens@.len() - old(self).position, 69int,
    {
        let start = self.advance().span;
        let count = match self.expression() {
            Ok(count) => count,
            Err(error) => {
                return Err(error);
            },
        };
        let body = match self.statement() {
            Ok(body) => body,
            Err(error) => {
                return Err(error);
            },
        };
        let span = start.through(body.span);
        proof {
            lemma_span_since(*old(self), *self);
        }
        Ok(Stmt { kind: StmtKind::Repeat { count, body: Box::new(body) }, span })
    }

    fn with_statement(&mut self) -> (result: Result<Stmt, Diagnostic>)
        requires
            old(self).wf(),
            kind_at(old(self).tokens@, old(self).position as int) == TokenKind::With,
        ensures
            final(self).reached(
                old(self),
                with_rest(
                    old(self).tokens@,
                    old(self).position + 1,
                    span_at(old(self).tokens@, old(self).position as int),
                ),
                stmt_result(result),
            ),
            result matches Ok(value) ==> {
                &&& final(self).position > old(self).position
                &&& value.span == final(self).span_since(old(self))
                &&& stmt_spanned(old(self).source@, value.tree())
            },
        decreases old(self).tokens@.len() - old(self).position, 69int,
    {
        let start = self.advance().span;
        let target = match self.expression() {
            Ok(target) => target,
            Err(error) => {
                return Err(error);
            },
        };
        self.consume(TokenKind::Do);
        let body = match self.statement() {
            Ok(body) => body,
            Err(error) => {
                return Err(error);
            },
        };
        let span = start.through(body.span);
        proof {
            lemma_span_since(*old(self), *self);
        }
        Ok(Stmt { kind: StmtKind::With { target, body: Box::new(body) }, span })
    }

    fn switch_statement(&mut self) -> (result: Result<Stmt, Diagnostic>)
        requires
            old(self).wf(),
            kind_at(old(self).tokens@, old(self).position as int) == TokenKind::Switch,
        ensures
            final(self).reached(
                old(self),
                switch_rest(
                    old(self).tokens@,
                    old(self).position + 1,
                    span_at(old(self).tokens@, old(self).position as int),
                ),
                stmt_result(result),
            ),
            result matches Ok(value) ==> {
                &&& final(self).position > old(self).position
                &&& value.span == final(self).span_since(old(self))
                &&& stmt_spanned(old(self).source@, value.tree())
            },
        decreases old(self).tokens@.len() - old(self).position, 69int,
    {
        let start = self.advance().span;
        let value = match self.expression() {
            Ok(value) => value,
            Err(error) => {
                return Err(error);
            },
        };
        let body = match self.statement() {
            Ok(body) => body,
            Err(error) => {
                return Err(error);
            },
        };
        let span = start.through(body.span);
        proof {
            lemma_span_since(*old(self), *self);
        }
        Ok(Stmt { kind: StmtKind::Switch { value, body: Box::new(body) }, span })
    }

    fn case_statement(&mut self) -> (result: Result<Stmt, Diagnostic>)
        requires
            old(self).wf(),
            kind_at(old(self).tokens@, old(self).position as int) == TokenKind::Case,
        ensures
            final(self).reached(
                old(self),
                case_rest(
                    old(self).tokens@,
                    old(self).position + 1,
                    span_at(old(self).tokens@, old(self).position as int),
                ),
                stmt_result(result),
            ),
            result matches Ok(value) ==> {
                &&& final(self).position > old(self).position
                &&& value.span == final(self).span_since(old(self))
                &&& stmt_spanned(old(self).source@, value.tree())
            },
        decreases old(self).tokens@.len() - old(self).position, 69int,
    {
        let start = self.advance().span;
        let value = match self.expression() {
            Ok(value) => value,
            Err(error) => {
                return Err(error);
            },
        };
        let colon = match self.expect(TokenKind::Colon, "expected ':' after case value") {
            Ok(token) => token,
            Err(error) => {
                return Err(error);
            },
        };
        proof {
            lemma_span_since(*old(self), *self);
        }
        Ok(Stmt { kind: StmtKind::Case(value), span: start.through(colon.span) })
    }

    fn default_statement(&mut self) -> (result: Result<Stmt, Diagnostic>)
        requires
            old(self).wf(),
            kind_at(old(self).tokens@, old(self).position as int) == TokenKind::Default,
        ensures
            final(self).reached(
                old(self),
                statement(old(self).tokens@, old(self).position as int),
                stmt_result(result),
            ),
            result matches Ok(value) ==> {
                &&& final(self).position > old(self).position
                &&& value.span == final(self).span_since(old(self))
                &&& stmt_spanned(old(self).source@, value.tree())
            },
    {
        let start = self.advance().span;
        let colon = match self.expect(TokenKind::Colon, "expected ':' after default") {
            Ok(token) => token,
            Err(error) => {
                return Err(error);
            },
        };
        proof {
            lemma_span_since(*old(self), *self);
        }
        Ok(Stmt { kind: StmtKind::Default, span: start.through(colon.span) })
    }

    fn initial_value(&mut self) -> (result: Result<Option<Expr>, Diagnostic>)
        requires
            old(self).wf(),
        ensures
            final(self).reached(
                old(self),
                initial_value(old(self).tokens@, old(self).position as int),
                option_result(result),
            ),
            result matches Ok(value) ==> {
                &&& option_spanned(old(self).source@, optional_tree(value))
                &&& match value {
                    None => final(self).position == old(self).position,
                    Some(value) => {
                        &&& final(self).position > old(self).position + 1
                        &&& value.span.end == span_at(
                            old(self).tokens@,
                            final(self).position - 1,
                        ).end
                    },
                }
            },
        decreases old(self).tokens@.len() - old(self).position, 60int,
    {
        if self.consume(TokenKind::Assign).is_some() {
            match self.expression() {
                Ok(value) => Ok(Some(value)),
                Err(error) => Err(error),
            }
        } else {
            Ok(None)
        }
    }

    fn var_statement(&mut self, global: bool, semicolon: bool) -> (result: Result<
        Stmt,
        Diagnostic,
    >)
        requires
            old(self).wf(),
            kind_at(old(self).tokens@, old(self).position as int) != TokenKind::Eof,
        ensures
            final(self).reached(
                old(self),
                var_rest(
                    old(self).tokens@,
                    old(self).position + 1,
                    span_at(old(self).tokens@, old(self).position as int),
                    global,
                    semicolon,
                ),
                stmt_result(result),
            ),
            result matches Ok(value) ==> {
                &&& final(self).position > old(self).position
                &&& value.span == final(self).span_since(old(self))
                &&& stmt_spanned(old(self).source@, value.tree())
            },
        decreases old(self).tokens@.len() - old(self).position, 67int,
    {
        let ghost begin = *self;
        let ghost tokens = self.tokens@;
        let start = self.advance().span;
        let mut declared: Vec<VarDecl> = Vec::new();
        assert(var_trees(declared@) =~= seq![]);
        loop
            invariant_except_break
                self.wf(),
                self.tokens == begin.tokens,
                self.source == begin.source,
                begin.tokens@ == tokens,
                begin == *old(self),
                begin.position < self.position,
                declarations(tokens, begin.position + 1, seq![]) == declarations(
                    tokens,
                    self.position as int,
                    var_trees(declared@),
                ),
                vars_spanned(self.source@, var_trees(declared@)),
            ensures
                self.wf(),
                self.tokens == begin.tokens,
                self.source == begin.source,
                vars_spanned(self.source@, var_trees(declared@)),
                declared@.last().span.end == span_at(tokens, self.position - 1).end,
                begin.position < self.position,
                declared@.len() > 0,
                declarations(tokens, begin.position + 1, seq![]) == (Parsed::Done {
                    value: var_trees(declared@),
                    next: self.position as int,
                }),
            decreases self.tokens@.len() - self.position,
        {
            let ghost name_at = self.position as int;
            let name = match self.expect(TokenKind::Identifier, "expected variable name") {
                Ok(token) => token.span,
                Err(error) => {
                    return Err(error);
                },
            };
            let value = match self.initial_value() {
                Ok(value) => value,
                Err(error) => {
                    return Err(error);
                },
            };
            let end = match &value {
                None => name,
                Some(value) => value.span,
            };
            proof {
                lemma_spans(*self, name_at, self.position - 1);
            }
            let declaration = VarDecl { name, value, span: name.through(end) };
            proof {
                assert(var_trees(declared@.push(declaration)) =~= var_trees(declared@).push(
                    declaration.tree(),
                ));
            }
            declared.push(declaration);
            if self.consume(TokenKind::Comma).is_none() {
                break ;
            }
        }
        let last = declared[declared.len() - 1].span;
        assert(var_trees(declared@).last() == declared@.last().tree());
        let end = if semicolon {
            self.optional_semicolon(last)
        } else {
            last
        };
        proof {
            lemma_span_since(*old(self), *self);
        }
        Ok(Stmt { kind: StmtKind::Var { global, declarations: declared }, span: start.through(end) })
    }

    fn enum_statement(&mut self) -> (result: Result<Stmt, Diagnostic>)
        requires
            old(self).wf(),
            kind_at(old(self).tokens@, old(self).position as int) == TokenKind::Enum,
        ensures
            final(self).reached(
                old(self),
                enum_rest(
                    old(self).tokens@,
                    old(self).position + 1,
                    span_at(old(self).tokens@, old(self).position as int),
                ),
                stmt_result(result),
            ),
            result matches Ok(value) ==> {
                &&& final(self).position > old(self).position
                &&& value.span == final(self).span_since(old(self))
                &&& stmt_spanned(old(self).source@, value.tree())
            },
        decreases old(self).tokens@.len() - old(self).position, 69int,
    {
        let ghost begin = *self;
        let ghost tokens = self.tokens@;
        let start = self.advance().span;
        let name = match self.expect(TokenKind::Identifier, "expected enum name") {
            Ok(token) => token.span,
            Err(error) => {
                return Err(error);
            },
        };
        match self.expect(TokenKind::Begin, "expected '{' after enum name") {
            Ok(_) => {},
            Err(error) => {
                return Err(error);
            },
        }
        let mut listed: Vec<EnumMember> = Vec::new();
        proof {
            lemma_spans(*self, begin.position + 1, begin.position + 1);
        }
        assert(member_trees(listed@) =~= seq![]);
        while !self.at(TokenKind::End)
            invariant
                self.wf(),
                self.tokens == begin.tokens,
                self.source == begin.source,
                begin.tokens@ == tokens,
                begin == *old(self),
                begin.position < self.position,
                enum_rest(tokens, begin.position + 1, start) == members(
                    tokens,
                    self.position as int,
                    start,
                    name,
                    member_trees(listed@),
                ),
                vars_spanned(self.source@, member_trees(listed@)),
                in_source(self.source@, name),
                start == span_at(tokens, begin.position as int),
            decreases self.tokens@.len() - self.position,
        {
            if self.at(TokenKind::Eof) {
                proof {
                    lemma_token_span(tokens, begin.position as int);
                }
                return Err(Diagnostic::new("unterminated enum", start));
            }
            let ghost name_at = self.position as int;
            let member = match self.expect(TokenKind::Identifier, "expected enum member name") {
                Ok(token) => token.span,
                Err(error) => {
                    return Err(error);
                },
            };
            let value = match self.initial_value() {
                Ok(value) => value,
                Err(error) => {
                    return Err(error);
                },
            };
            let end = match &value {
                None => member,
                Some(value) => value.span,
            };
            proof {
                lemma_spans(*self, name_at, self.position - 1);
            }
            let entry = EnumMember { name: member, value, span: member.through(end) };
            proof {
                assert(member_trees(listed@.push(entry)) =~= member_trees(listed@).push(
                    entry.tree(),
                ));
            }
            listed.push(entry);
            if self.consume(TokenKind::Comma).is_none() && !self.at(TokenKind::End) {
                return Err(self.error("expected ',' or '}' after enum member"));
            }
        }
        let close = self.advance().span;
        let end = self.optional_semicolon(close);
        proof {
            lemma_span_since(*old(self), *self);
        }
        Ok(Stmt { kind: StmtKind::Enum { name, members: listed }, span: start.through(end) })
    }

    fn return_statement(&mut self) -> (result: Result<Stmt, Diagnostic>)
        requires
            old(self).wf(),
            kind_at(old(self).tokens@, old(self).position as int) == TokenKind::Return,
        ensures
            final(self).reached(
                old(self),
                return_rest(
                    old(self).tokens@,
                    old(self).position + 1,
                    span_at(old(self).tokens@, old(self).position as int),
                ),
                stmt_result(result),
            ),
            result matches Ok(value) ==> {
                &&& final(self).position > old(self).position
                &&& value.span == final(self).span_since(old(self))
                &&& stmt_spanned(old(self).source@, value.tree())
            },
        decreases old(self).tokens@.len() - old(self).position, 69int,
    {
        let start = self.advance().span;
        let nothing = match self.current().kind {
            TokenKind::Semicolon
            | TokenKind::End
            | TokenKind::Eof
            | TokenKind::Else
            | TokenKind::Case
            | TokenKind::Default
            | TokenKind::Until => true,
            _ => false,
        };
        if nothing {
            let end = self.optional_semicolon(start);
            proof {
                lemma_span_since(*old(self), *self);
            }
            return Ok(Stmt { kind: StmtKind::Return(None), span: start.through(end) });
        }
        let value = match self.expression() {
            Ok(value) => value,
            Err(error) => {
                return Err(error);
            },
        };
        let end = self.optional_semicolon(value.span);
        proof {
            lemma_span_since(*old(self), *self);
        }
        Ok(Stmt { kind: StmtKind::Return(Some(value)), span: start.through(end) })
    }

    fn simple_statement(&mut self, kind: StmtKind) -> (result: Result<Stmt, Diagnostic>)
        requires
            old(self).wf(),
            kind_at(old(self).tokens@, old(self).position as int) != TokenKind::Eof,
            kind is Exit || kind is Break || kind is Continue,
        ensures
            final(self).reached(
                old(self),
                word_statement(old(self).tokens@, old(self).position as int, kind.form()),
                stmt_result(result),
            ),
            result matches Ok(value) && {
                &&& final(self).position > old(self).position
                &&& value.span == final(self).span_since(old(self))
                &&& stmt_spanned(old(self).source@, value.tree())
            },
    {
        let start = self.advance().span;
        let end = self.optional_semicolon(start);
        proof {
            lemma_span_since(*old(self), *self);
        }
        Ok(Stmt { kind, span: start.through(end) })
    }

    fn expression_statement(&mut self) -> (result: Result<Stmt, Diagnostic>)
        requires
            old(self).wf(),
        ensures
            ({
                let outcome = match assignment(old(self).tokens@, old(self).position as int) {
                    Parsed::Failed(report) => Parsed::Failed(report),
                    Parsed::Done { value, next } => {
                        let next = past(old(self).position as int, next);
                        Parsed::Done {
                            value: StmtTree {
                                form: StmtForm::Expr(value),
                                span: value.span.joined(
                                    closing(old(self).tokens@, next, value.span),
                                ),
                            },
                            next: skip(old(self).tokens@, next, TokenKind::Semicolon),
                        }
                    },
                };
                final(self).reached(old(self), outcome, stmt_result(result))
            }),
            result matches Ok(value) ==> {
                &&& final(self).position > old(self).position
                &&& value.span == final(self).span_since(old(self))
                &&& stmt_spanned(old(self).source@, value.tree())
            },
        decreases old(self).tokens@.len() - old(self).position, 69int,
    {
        let expression = match self.assignment_expression() {
            Ok(expression) => expression,
            Err(error) => {
                return Err(error);
            },
        };
        let start = expression.span;
        let end = self.optional_semicolon(start);
        proof {
            lemma_span_since(*old(self), *self);
        }
        Ok(Stmt { kind: StmtKind::Expr(expression), span: start.through(end) })
    }

    fn expression(&mut self) -> (result: Result<Expr, Diagnostic>)
        requires
            old(self).wf(),
        ensures
            final(self).reached(
                old(self),
                expression(old(self).tokens@, old(self).position as int),
                expr_result(result),
            ),
            result matches Ok(value) ==> {
                &&& final(self).position > old(self).position
                &&& value.span == final(self).span_since(old(self))
                &&& expr_spanned(old(self).source@, value.tree())
            },
        decreases old(self).tokens@.len() - old(self).position, 41int,
    {
        self.conditional(true)
    }

    fn assignment_expression(&mut self) -> (result: Result<Expr, Diagnostic>)
        requires
            old(self).wf(),
        ensures
            final(self).reached(
                old(self),
                assignment(old(self).tokens@, old(self).position as int),
                expr_result(result),
            ),
            result matches Ok(value) ==> {
                &&& final(self).position > old(self).position
                &&& value.span == final(self).span_since(old(self))
                &&& expr_spanned(old(self).source@, value.tree())
            },
        decreases old(self).tokens@.len() - old(self).position, 41int,
    {
        let target = match self.conditional(false) {
            Ok(target) => target,
            Err(error) => {
                return Err(error);
            },
        };
        let op = match self.current().kind {
            TokenKind::Assign => AssignOp::Assign,
            TokenKind::AddAssign => AssignOp::Add,
            TokenKind::SubtractAssign => AssignOp::Subtract,
            TokenKind::MultiplyAssign => AssignOp::Multiply,
            TokenKind::DivideAssign => AssignOp::Divide,
            TokenKind::ModuloAssign => AssignOp::Modulo,
            TokenKind::BitOrAssign => AssignOp::BitOr,
            TokenKind::BitAndAssign => AssignOp::BitAnd,
            TokenKind::BitXorAssign => AssignOp::BitXor,
            _ => {
                return Ok(target);
            },
        };
        self.advance();
        let value = match self.assignment_expression() {
            Ok(value) => value,
            Err(error) => {
                return Err(error);
            },
        };
        let span = target.span.through(value.span);
        proof {
            lemma_span_since(*old(self), *self);
        }
        Ok(
            Expr {
                kind: ExprKind::Assign { op, target: Box::new(target), value: Box::new(value) },
                span,
            },
        )
    }

    fn conditional(&mut self, single_equal: bool) -> (result: Result<Expr, Diagnostic>)
        requires
            old(self).wf(),
        ensures
            final(self).reached(
                old(self),
                conditional(old(self).tokens@, old(self).position as int, single_equal),
                expr_result(result),
            ),
            result matches Ok(value) ==> {
                &&& final(self).position > old(self).position
                &&& value.span == final(self).span_since(old(self))
                &&& expr_spanned(old(self).source@, value.tree())
            },
        decreases old(self).tokens@.len() - old(self).position, 40int,
    {
        let condition = match self.operations(0, single_equal) {
            Ok(condition) => condition,
            Err(error) => {
                return Err(error);
            },
        };
        if self.consume(TokenKind::Question).is_none() {
            return Ok(condition);
        }
        let then_value = match self.expression() {
            Ok(value) => value,
            Err(error) => {
                return Err(error);
            },
        };
        match self.expect(TokenKind::Colon, "expected ':' in conditional expression") {
            Ok(_) => {},
            Err(error) => {
                return Err(error);
            },
        }
        let else_value = match self.conditional(single_equal) {
            Ok(value) => value,
            Err(error) => {
                return Err(error);
            },
        };
        let span = condition.span.through(else_value.span);
        proof {
            lemma_span_since(*old(self), *self);
        }
        Ok(
            Expr {
                kind: ExprKind::Conditional {
                    condition: Box::new(condition),
                    then_value: Box::new(then_value),
                    else_value: Box::new(else_value),
                },
                span,
            },
        )
    }

    /// Parses the operations of a level of precedence: logical or, logical and,
    /// logical xor, comparisons, bitwise, shifts, sums and products.
    fn operations(&mut self, level: usize, single_equal: bool) -> (result: Result<
        Expr,
        Diagnostic,
    >)
        requires
            old(self).wf(),
            level <= 8,
        ensures
            final(self).reached(
                old(self),
                operations(
                    old(self).tokens@,
                    old(self).position as int,
                    level as int,
                    single_equal,
                ),
                expr_result(result),
            ),
            result matches Ok(value) ==> {
                &&& final(self).position > old(self).position
                &&& value.span == final(self).span_since(old(self))
                &&& expr_spanned(old(self).source@, value.tree())
            },
        decreases old(self).tokens@.len() - old(self).position, looseness(level as int) + 1,
    {
        if level == 8 {
            return self.unary();
        }
        let ghost begin = *self;
        let ghost tokens = self.tokens@;
        let mut value = match self.operations(level + 1, single_equal) {
            Ok(value) => value,
            Err(error) => {
                return Err(error);
            },
        };
        loop
            invariant
                self.wf(),
                level < 8,
                self.tokens == begin.tokens,
                self.source == begin.source,
                begin.tokens@ == tokens,
                begin == *old(self),
                begin.position < self.position,
                operations(tokens, begin.position as int, level as int, single_equal)
                    == more_operations(
                    tokens,
                    self.position as int,
                    level as int,
                    single_equal,
                    value.tree(),
                ),
                value.span == self.span_since(&begin),
                expr_spanned(self.source@, value.tree()),
            decreases self.tokens@.len() - self.position,
        {
            let op = match binary_operator(self.current().kind, level, single_equal) {
                Some(op) => op,
                None => {
                    return Ok(value);
                },
            };
            self.advance();
            let right = match self.operations(level + 1, single_equal) {
                Ok(right) => right,
                Err(error) => {
                    return Err(error);
                },
            };
            proof {
                lemma_span_since(begin, *self);
            }
            value = binary(op, value, right);
        }
    }

    fn unary(&mut self) -> (result: Result<Expr, Diagnostic>)
        requires
            old(self).wf(),
        ensures
            final(self).reached(
                old(self),
                unary(old(self).tokens@, old(self).position as int),
                expr_result(result),
            ),
            result matches Ok(value) ==> {
                &&& final(self).position > old(self).position
                &&& value.span == final(self).span_since(old(self))
                &&& expr_spanned(old(self).source@, value.tree())
            },
        decreases old(self).tokens@.len() - old(self).position, 10int,
    {
        let op = match self.current().kind {
            TokenKind::Add => UnaryOp::Positive,
            TokenKind::Subtract => UnaryOp::Negative,
            TokenKind::Not => UnaryOp::Not,
            TokenKind::BitNot => UnaryOp::BitNot,
            TokenKind::Increment => UnaryOp::PreIncrement,
            TokenKind::Decrement => UnaryOp::PreDecrement,
            _ => {
                return self.postfix();
            },
        };
        let start = self.advance().span;
        let value = match self.unary() {
            Ok(value) => value,
            Err(error) => {
                return Err(error);
            },
        };
        let span = start.through(value.span);
        proof {
            lemma_span_since(*old(self), *self);
        }
        Ok(Expr { kind: ExprKind::Unary { op, value: Box::new(value) }, span })
    }

    #[verifier::spinoff_prover]
    #[verifier::rlimit(100)]
    fn postfix(&mut self) -> (result: Result<Expr, Diagnostic>)
        requires
            old(self).wf(),
        ensures
            final(self).reached(
                old(self),
                postfix(old(self).tokens@, old(self).position as int),
                expr_result(result),
            ),
            result matches Ok(value) ==> {
                &&& final(self).position > old(self).position
                &&& value.span == final(self).span_since(old(self))
                &&& expr_spanned(old(self).source@, value.tree())
            },
        decreases old(self).tokens@.len() - old(self).position, 8int,
    {
        let ghost begin = *self;
        let ghost tokens = self.tokens@;
        let mut value = match self.primary() {
            Ok(value) => value,
            Err(error) => {
                return Err(error);
            },
        };
        loop
            invariant
                self.wf(),
                self.tokens == begin.tokens,
                self.source == begin.source,
                begin.tokens@ == tokens,
                begin == *old(self),
                begin.position < self.position,
                postfix(tokens, begin.position as int) == suffixes(
                    tokens,
                    self.position as int,
                    value.tree(),
                ),
                value.span == self.span_since(&begin),
                expr_spanned(self.source@, value.tree()),
            decreases self.tokens@.len() - self.position,
        {
            match self.current().kind {
                TokenKind::LeftParen => {
                    self.advance();
                    let arguments = match self.closed_list(TokenKind::RightParen) {
                        Ok(arguments) => arguments,
                        Err(error) => {
                            return Err(error);
                        },
                    };
                    let end = match self.expect(
                        TokenKind::RightParen,
                        "expected ')' after arguments",
                    ) {
                        Ok(token) => token.span,
                        Err(error) => {
                            return Err(error);
                        },
                    };
                    let span = value.span.through(end);
                    proof {
                        lemma_span_since(begin, *self);
                    }
                    value = Expr {
                        kind: ExprKind::Call { callee: Box::new(value), arguments },
                        span,
                    };
                },
                TokenKind::AccessorOpen(accessor) => {
                    self.advance();
                    if self.at(TokenKind::RightBracket) {
                        return Err(self.error("array access requires an index"));
                    }
                    let indices = match self.list(None) {
                        Ok(indices) => indices,
                        Err(error) => {
                            return Err(error);
                        },
                    };
                    let end = match self.expect(
                        TokenKind::RightBracket,
                        "expected ']' after index",
                    ) {
                        Ok(token) => token.span,
                        Err(error) => {
                            return Err(error);
                        },
                    };
                    let span = value.span.through(end);
                    proof {
                        lemma_span_since(begin, *self);
                    }
                    value = Expr {
                        kind: ExprKind::Index { target: Box::new(value), accessor, indices },
                        span,
                    };
                },
                TokenKind::Dot => {
                    self.advance();
                    let name = match self.expect(
                        TokenKind::Identifier,
                        "expected member name after '.'",
                    ) {
                        Ok(token) => token.span,
                        Err(error) => {
                            return Err(error);
                        },
                    };
                    let span = value.span.through(name);
                    proof {
                        lemma_spans(*self, self.position - 1, self.position - 1);
                    }
                    proof {
                        lemma_span_since(begin, *self);
                    }
                    value = Expr {
                        kind: ExprKind::Member { target: Box::new(value), name },
                        span,
                    };
                },
                TokenKind::Increment => {
                    if is_literal(&value) {
                        return Ok(value);
                    }
                    let token = self.advance();
                    let span = value.span.through(token.span);
                    proof {
                        lemma_span_since(begin, *self);
                    }
                    value = Expr {
                        kind: ExprKind::Postfix {
                            op: PostfixOp::Increment,
                            target: Box::new(value),
                        },
                        span,
                    };
                },
                TokenKind::Decrement => {
                    if is_literal(&value) {
                        return Ok(value);
                    }
                    let token = self.advance();
                    let span = value.span.through(token.span);
                    proof {
                        lemma_span_since(begin, *self);
                    }
                    value = Expr {
                        kind: ExprKind::Postfix {
                            op: PostfixOp::Decrement,
                            target: Box::new(value),
                        },
                        span,
                    };
                },
                _ => {
                    return Ok(value);
                },
            }
        }
    }

    fn list(&mut self, close: Option<TokenKind>) -> (result: Result<Vec<Expr>, Diagnostic>)
        requires
            old(self).wf(),
        ensures
            final(self).reached(
                old(self),
                list(old(self).tokens@, old(self).position as int, close, seq![]),
                list_result(result),
            ),
            result matches Ok(values) ==> {
                &&& final(self).position > old(self).position
                &&& exprs_spanned(old(self).source@, expr_trees(values@))
            },
        decreases old(self).tokens@.len() - old(self).position, 50int,
    {
        let ghost begin = *self;
        let ghost tokens = self.tokens@;
        let mut values: Vec<Expr> = Vec::new();
        loop
            invariant
                self.wf(),
                self.tokens == begin.tokens,
                self.source == begin.source,
                begin.tokens@ == tokens,
                begin == *old(self),
                begin.position <= self.position,
                list(tokens, begin.position as int, close, seq![]) == list(
                    tokens,
                    self.position as int,
                    close,
                    expr_trees(values@),
                ),
                exprs_spanned(self.source@, expr_trees(values@)),
            decreases self.tokens@.len() - self.position,
        {
            let value = match self.expression() {
                Ok(value) => value,
                Err(error) => {
                    return Err(error);
                },
            };
            proof {
                lemma_expr_trees_push(values@, value);
                assert(expr_trees(values@).push(value.tree()).drop_last() =~= expr_trees(values@));
            }
            values.push(value);
            if self.consume(TokenKind::Comma).is_none() {
                return Ok(values);
            }
            if let Some(kind) = close {
                if self.at(kind) {
                    return Ok(values);
                }
            }
        }
    }

    fn closed_list(&mut self, close: TokenKind) -> (result: Result<Vec<Expr>, Diagnostic>)
        requires
            old(self).wf(),
        ensures
            final(self).reached(
                old(self),
                closed_list(old(self).tokens@, old(self).position as int, close),
                list_result(result),
            ),
            result matches Ok(values) ==> exprs_spanned(
                old(self).source@,
                expr_trees(values@),
            ),
        decreases old(self).tokens@.len() - old(self).position, 51int,
    {
        if self.at(close) {
            Ok(Vec::new())
        } else {
            self.list(Some(close))
        }
    }

    fn primary(&mut self) -> (result: Result<Expr, Diagnostic>)
        requires
            old(self).wf(),
        ensures
            final(self).reached(
                old(self),
                primary(old(self).tokens@, old(self).position as int),
                expr_result(result),
            ),
            result matches Ok(value) ==> {
                &&& final(self).position > old(self).position
                &&& value.span == final(self).span_since(old(self))
                &&& expr_spanned(old(self).source@, value.tree())
            },
        decreases old(self).tokens@.len() - old(self).position, 4int,
    {
        let token = self.current();
        match token.kind {
            TokenKind::Identifier => {
                self.advance();
                proof {
                    lemma_span_since(*old(self), *self);
                }
                Ok(Expr { kind: ExprKind::Identifier, span: token.span })
            },
            TokenKind::Number => {
                self.advance();
                proof {
                    lemma_span_since(*old(self), *self);
                }
                Ok(Expr { kind: ExprKind::Number, span: token.span })
            },
            TokenKind::String => {
                self.advance();
                proof {
                    lemma_span_since(*old(self), *self);
                }
                Ok(Expr { kind: ExprKind::String, span: token.span })
            },
            TokenKind::LeftParen => {
                let start = self.advance().span;
                let value = match self.expression() {
                    Ok(value) => value,
                    Err(error) => {
                        return Err(error);
                    },
                };
                let end = match self.expect(
                    TokenKind::RightParen,
                    "expected ')' after expression",
                ) {
                    Ok(token) => token.span,
                    Err(error) => {
                        return Err(error);
                    },
                };
                proof {
                    lemma_span_since(*old(self), *self);
                }
                Ok(Expr { kind: ExprKind::Group(Box::new(value)), span: start.through(end) })
            },
            TokenKind::AccessorOpen(Accessor::Array) => {
                let start = self.advance().span;
                let values = match self.closed_list(TokenKind::RightBracket) {
                    Ok(values) => values,
                    Err(error) => {
                        return Err(error);
                    },
                };
                let end = match self.expect(
                    TokenKind::RightBracket,
                    "expected ']' after array literal",
                ) {
                    Ok(token) => token.span,
                    Err(error) => {
                        return Err(error);
                    },
                };
                proof {
                    lemma_span_since(*old(self), *self);
                }
                Ok(Expr { kind: ExprKind::Array(values), span: start.through(end) })
            },
            TokenKind::AccessorOpen(_) => Err(self.error("typed accessor requires a target")),
            kind => {
                let mut message = "expected expression, found ".to_owned();
                message.append(token_name(kind));
                Err(self.error(message.as_str()))
            },
        }
    }

    fn optional_semicolon(&mut self, fallback: Span) -> (span: Span)
        requires
            old(self).wf(),
        ensures
            final(self).wf(),
            final(self).tokens == old(self).tokens,
            final(self).source == old(self).source,
            final(self).position == skip(
                old(self).tokens@,
                old(self).position as int,
                TokenKind::Semicolon,
            ),
            span == closing(old(self).tokens@, old(self).position as int, fallback),
    {
        match self.consume(TokenKind::Semicolon) {
            Some(token) => token.span,
            None => fallback,
        }
    }

    fn current(&self) -> (token: Token)
        requires
            self.wf(),
        ensures
            token == self.tokens@[self.position as int],
    {
        self.tokens[self.position]
    }

    fn at(&self, kind: TokenKind) -> (result: bool)
        requires
            self.wf(),
        ensures
            result == (kind_at(self.tokens@, self.position as int) == kind),
    {
        self.current().kind == kind
    }

    fn advance(&mut self) -> (token: Token)
        requires
            old(self).wf(),
        ensures
            final(self).wf(),
            final(self).tokens == old(self).tokens,
            final(self).source == old(self).source,
            token == old(self).tokens@[old(self).position as int],
            final(self).position == if token.kind == TokenKind::Eof {
                old(self).position as int
            } else {
                old(self).position + 1
            },
    {
        let token = self.current();
        if token.kind != TokenKind::Eof {
            assert(self.position < self.tokens.len() - 1);
            self.position = self.position + 1;
        }
        token
    }

    fn consume(&mut self, kind: TokenKind) -> (token: Option<Token>)
        requires
            old(self).wf(),
            kind != TokenKind::Eof,
        ensures
            final(self).wf(),
            final(self).tokens == old(self).tokens,
            final(self).source == old(self).source,
            final(self).position == skip(old(self).tokens@, old(self).position as int, kind),
            token == if kind_at(old(self).tokens@, old(self).position as int) == kind {
                Some(old(self).tokens@[old(self).position as int])
            } else {
                None
            },
    {
        if self.at(kind) {
            Some(self.advance())
        } else {
            None
        }
    }

    fn expect(&mut self, kind: TokenKind, message: &str) -> (result: Result<Token, Diagnostic>)
        requires
            old(self).wf(),
            kind != TokenKind::Eof,
        ensures
            final(self).wf(),
            final(self).tokens == old(self).tokens,
            final(self).source == old(self).source,
            final(self).position == skip(old(self).tokens@, old(self).position as int, kind),
            match result {
                Ok(token) => {
                    &&& kind_at(old(self).tokens@, old(self).position as int) == kind
                    &&& token == old(self).tokens@[old(self).position as int]
                },
                Err(error) => {
                    &&& kind_at(old(self).tokens@, old(self).position as int) != kind
                    &&& error@ == (Report {
                        message: message@,
                        span: span_at(old(self).tokens@, old(self).position as int),
                    })
                    &&& is_token_span(old(self).tokens@, error@.span)
                },
            },
    {
        if self.at(kind) {
            Ok(self.advance())
        } else {
            Err(self.error(message))
        }
    }

    fn error(&self, message: &str) -> (diagnostic: Diagnostic)
        requires
            self.wf(),
        ensures
            diagnostic@ == (Report {
                message: message@,
                span: span_at(self.tokens@, self.position as int),
            }),
            is_token_span(self.tokens@, diagnostic@.span),
    {
        proof {
            lemma_token_span(self.tokens@, self.position as int);
        }
        Diagnostic::new(message, self.current().span)
    }
}

fn is_literal(value: &Expr) -> (result: bool)
    ensures
        result == literal(value.tree().form),
{
    match &value.kind {
        ExprKind::Number | ExprKind::String | ExprKind::Array(_) => true,
        _ => false,
    }
}

fn binary(op: BinaryOp, left: Expr, right: Expr) -> (value: Expr)
    ensures
        value.tree() == operation(op, left.tree(), right.tree()),
{
    let span = left.span.through(right.span);
    Expr { kind: ExprKind::Binary { op, left: Box::new(left), right: Box::new(right) }, span }
}

fn binary_operator(kind: TokenKind, level: usize, single_equal: bool) -> (op: Option<BinaryOp>)
    ensures
        op == operator(kind, level as int, single_equal),
{
    if level == 0 {
        match kind {
            TokenKind::LogicalOr => Some(BinaryOp::LogicalOr),
            _ => None,
        }
    } else if level == 1 {
        match kind {
            TokenKind::LogicalAnd => Some(BinaryOp::LogicalAnd),
            _ => None,
        }
    } else if level == 2 {
        match kind {
            TokenKind::LogicalXor => Some(BinaryOp::LogicalXor),
            _ => None,
        }
    } else if level == 3 {
        match kind {
            TokenKind::Equal => Some(BinaryOp::Equal),
            TokenKind::Assign => if single_equal {
                Some(BinaryOp::Equal)
            } else {
                None
            },
            TokenKind::NotEqual => Some(BinaryOp::NotEqual),
            TokenKind::Less => Some(BinaryOp::Less),
            TokenKind::LessEqual => Some(BinaryOp::LessEqual),
            TokenKind::Greater => Some(BinaryOp::Greater),
            TokenKind::GreaterEqual => Some(BinaryOp::GreaterEqual),
            _ => None,
        }
    } else if level == 4 {
        match kind {
            TokenKind::BitOr => Some(BinaryOp::BitOr),
            TokenKind::BitAnd => Some(BinaryOp::BitAnd),
            TokenKind::BitXor => Some(BinaryOp::BitXor),
            _ => None,
        }
    } else if level == 5 {
        match kind {
            TokenKind::ShiftLeft => Some(BinaryOp::ShiftLeft),
            TokenKind::ShiftRight => Some(BinaryOp::ShiftRight),
            _ => None,
        }
    } else if level == 6 {
        match kind {
            TokenKind::Add => Some(BinaryOp::Add),
            TokenKind::Subtract => Some(BinaryOp::Subtract),
            _ => None,
        }
    } else if level == 7 {
        match kind {
            TokenKind::Multiply => Some(BinaryOp::Multiply),
            TokenKind::Divide => Some(BinaryOp::Divide),
            TokenKind::IntegerDivide => Some(BinaryOp::IntegerDivide),
            TokenKind::Modulo => Some(BinaryOp::Modulo),
            _ => None,
        }
    } else {
        None
    }
}


/// Returns how messages name a token.
pub fn token_name(kind: TokenKind) -> (name: &'static str)
    ensures
        name@ == token_text(kind),
{
    match kind {
        TokenKind::Eof => "end of file",
        TokenKind::Identifier => "identifier",
        TokenKind::Number => "number",
        TokenKind::String => "string",
        TokenKind::Begin => "begin or '{'",
        TokenKind::End => "end or '}'",
        TokenKind::If => "if",
        TokenKind::Then => "then",
        TokenKind::Else => "else",
        TokenKind::While => "while",
        TokenKind::Do => "do",
        TokenKind::For => "for",
        TokenKind::Until => "until",
        TokenKind::Repeat => "repeat",
        TokenKind::Exit => "exit",
        TokenKind::Break => "break",
        TokenKind::Continue => "continue",
        TokenKind::With => "with",
        TokenKind::Return => "return",
        TokenKind::Switch => "switch",
        TokenKind::Case => "case",
        TokenKind::Default => "default",
        TokenKind::Var => "var",
        TokenKind::GlobalVar => "globalvar",
        TokenKind::Enum => "enum",
        TokenKind::Struct => "struct",
        TokenKind::LeftParen => "'('",
        TokenKind::RightParen => "')'",
        TokenKind::AccessorOpen(_) => "'['",
        TokenKind::RightBracket => "']'",
        TokenKind::Semicolon => "';'",
        TokenKind::Comma => "','",
        TokenKind::Dot => "'.'",
        TokenKind::Colon => "':'",
        TokenKind::Question => "'?'",
        TokenKind::Assign => "'='",
        TokenKind::AddAssign => "'+='",
        TokenKind::SubtractAssign => "'-='",
        TokenKind::MultiplyAssign => "'*='",
        TokenKind::DivideAssign => "'/='",
        TokenKind::ModuloAssign => "'%='",
        TokenKind::BitOrAssign => "'|='",
        TokenKind::BitAndAssign => "'&='",
        TokenKind::BitXorAssign => "'^='",
        TokenKind::LogicalOr => "logical or",
        TokenKind::LogicalAnd => "logical and",
        TokenKind::LogicalXor => "logical xor",
        TokenKind::Not => "not",
        TokenKind::Equal => "'=='",
        TokenKind::NotEqual => "'!='",
        TokenKind::Less => "'<'",
        TokenKind::LessEqual => "'<='",
        TokenKind::Greater => "'>'",
        TokenKind::GreaterEqual => "'>='",
        TokenKind::BitOr => "'|'",
        TokenKind::BitAnd => "'&'",
        TokenKind::BitXor => "'^'",
        TokenKind::BitNot => "'~'",
        TokenKind::ShiftLeft => "'<<'",
        TokenKind::ShiftRight => "'>>'",
        TokenKind::Add => "'+'",
        TokenKind::Subtract => "'-'",
        TokenKind::Multiply => "'*'",
        TokenKind::Divide => "'/'",
        TokenKind::IntegerDivide => "div",
        TokenKind::Modulo => "mod",
        TokenKind::Increment => "'++'",
        TokenKind::Decrement => "'--'",
    }
}

} // verus!
