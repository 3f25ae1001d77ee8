//! What a parsed tree says of the tokens that it was parsed from: it spells them
//! in order, and its operations bind as tightly as their operators do.

use vstd::prelude::*;

use crate::gml::ast::{
    Accessor, AssignOp, BinaryOp, ExprForm, ExprTree, PostfixOp, Span, StmtForm, StmtTree, UnaryOp,
    VarTree,
};
use crate::gml::lexer::{tokens_from, Token, TokenKind};
use crate::gml::parser::{
    assign_operator, assignment, block, closed_list, conditional, declarations, do_rest, expression,
    for_condition, for_initializer, for_rest, for_step, if_rest, initial_value, kind_at, list,
    literal, looseness, members, more_operations, named, operation, operations, operator, parsed,
    postfix, prefix_operator, primary, program, repeat_rest, skip, skip_semicolons, span_at,
    statement, suffixes, switch_rest, unary, var_rest, while_rest, with_rest, Parsed,
};

verus! {

/// How tightly an operator binds its operands.
pub open spec fn tightness(op: BinaryOp) -> int {
    match op {
        BinaryOp::Multiply => 8,
        BinaryOp::Divide => 8,
        BinaryOp::IntegerDivide => 8,
        BinaryOp::Modulo => 8,
        BinaryOp::Add => 7,
        BinaryOp::Subtract => 7,
        BinaryOp::ShiftLeft => 6,
        BinaryOp::ShiftRight => 6,
        BinaryOp::BitOr => 5,
        BinaryOp::BitAnd => 5,
        BinaryOp::BitXor => 5,
        BinaryOp::Equal => 4,
        BinaryOp::NotEqual => 4,
        BinaryOp::Less => 4,
        BinaryOp::LessEqual => 4,
        BinaryOp::Greater => 4,
        BinaryOp::GreaterEqual => 4,
        BinaryOp::LogicalXor => 3,
        BinaryOp::LogicalAnd => 2,
        BinaryOp::LogicalOr => 1,
    }
}

/// How tightly the parts of an expression hold together: an assignment least, then
/// a choice, then operations, prefix operators, and what needs no operator most.
pub open spec fn grip(value: ExprTree) -> int {
    match value.form {
        ExprForm::Assign { .. } => -1,
        ExprForm::Conditional { .. } => 0,
        ExprForm::Binary { op, .. } => tightness(op),
        ExprForm::Unary { .. } => 9,
        _ => 10,
    }
}

/// Whether every operand in an expression holds together more tightly than the
/// operator that it belongs to; the left operand of an operator may be an
/// operation that is as tight.
pub open spec fn is_bound(value: ExprTree) -> bool
    decreases value,
{
    match value.form {
        ExprForm::Identifier => true,
        ExprForm::Number => true,
        ExprForm::String => true,
        ExprForm::Group(inner) => grip(*inner) >= 0 && is_bound(*inner),
        ExprForm::Array(values) => are_bound(values),
        ExprForm::Unary { op, value } => grip(*value) >= 9 && is_bound(*value),
        ExprForm::Binary { op, left, right } => {
            &&& grip(*left) >= tightness(op)
            &&& grip(*right) > tightness(op)
            &&& is_bound(*left)
            &&& is_bound(*right)
        },
        ExprForm::Conditional { condition, then_value, else_value } => {
            &&& grip(*condition) > 0
            &&& grip(*then_value) >= 0
            &&& grip(*else_value) >= 0
            &&& is_bound(*condition)
            &&& is_bound(*then_value)
            &&& is_bound(*else_value)
        },
        ExprForm::Assign { op, target, value } => {
            &&& grip(*target) >= 0
            &&& is_bound(*target)
            &&& is_bound(*value)
        },
        ExprForm::Call { callee, arguments } => grip(*callee) >= 10 && is_bound(*callee)
            && are_bound(arguments),
        ExprForm::Index { target, accessor, indices } => grip(*target) >= 10 && is_bound(*target)
            && are_bound(indices),
        ExprForm::Member { target, name } => grip(*target) >= 10 && is_bound(*target),
        ExprForm::Postfix { op, target } => grip(*target) >= 10 && is_bound(*target),
    }
}

/// Whether all of some expressions are bound, and none of them assigns.
pub open spec fn are_bound(values: Seq<ExprTree>) -> bool
    decreases values,
{
    values.len() == 0 || (are_bound(values.drop_last()) && grip(values.last()) >= 0 && is_bound(
        values.last(),
    ))
}

/// Whether a token is an operator. Where an expression is compared, one equals sign
/// is as good as two.
pub open spec fn is_operator(kind: TokenKind, op: BinaryOp) -> bool {
    match op {
        BinaryOp::Multiply => kind is Multiply,
        BinaryOp::Divide => kind is Divide,
        BinaryOp::IntegerDivide => kind is IntegerDivide,
        BinaryOp::Modulo => kind is Modulo,
        BinaryOp::Add => kind is Add,
        BinaryOp::Subtract => kind is Subtract,
        BinaryOp::ShiftLeft => kind is ShiftLeft,
        BinaryOp::ShiftRight => kind is ShiftRight,
        BinaryOp::BitOr => kind is BitOr,
        BinaryOp::BitAnd => kind is BitAnd,
        BinaryOp::BitXor => kind is BitXor,
        BinaryOp::Equal => kind is Equal || kind is Assign,
        BinaryOp::NotEqual => kind is NotEqual,
        BinaryOp::Less => kind is Less,
        BinaryOp::LessEqual => kind is LessEqual,
        BinaryOp::Greater => kind is Greater,
        BinaryOp::GreaterEqual => kind is GreaterEqual,
        BinaryOp::LogicalXor => kind is LogicalXor,
        BinaryOp::LogicalAnd => kind is LogicalAnd,
        BinaryOp::LogicalOr => kind is LogicalOr,
    }
}

/// Whether a token is a prefix operator.
pub open spec fn is_prefix(kind: TokenKind, op: UnaryOp) -> bool {
    match op {
        UnaryOp::Positive => kind is Add,
        UnaryOp::Negative => kind is Subtract,
        UnaryOp::Not => kind is Not,
        UnaryOp::BitNot => kind is BitNot,
        UnaryOp::PreIncrement => kind is Increment,
        UnaryOp::PreDecrement => kind is Decrement,
    }
}

/// Whether a token is an assignment operator.
pub open spec fn is_assignment(kind: TokenKind, op: AssignOp) -> bool {
    match op {
        AssignOp::Assign => kind is Assign,
        AssignOp::Add => kind is AddAssign,
        AssignOp::Subtract => kind is SubtractAssign,
        AssignOp::Multiply => kind is MultiplyAssign,
        AssignOp::Divide => kind is DivideAssign,
        AssignOp::Modulo => kind is ModuloAssign,
        AssignOp::BitOr => kind is BitOrAssign,
        AssignOp::BitAnd => kind is BitAndAssign,
        AssignOp::BitXor => kind is BitXorAssign,
    }
}

/// Whether an expression spells the tokens from one position up to another: its
/// parts in order, with its operators between them.
pub open spec fn spells(tokens: Seq<Token>, from: int, to: int, value: ExprTree) -> bool
    decreases value, 0nat,
{
    &&& from < to
    &&& match value.form {
        ExprForm::Identifier => to == from + 1 && kind_at(tokens, from) is Identifier
            && value.span == span_at(tokens, from),
        ExprForm::Number => to == from + 1 && kind_at(tokens, from) is Number && value.span
            == span_at(tokens, from),
        ExprForm::String => to == from + 1 && kind_at(tokens, from) is String && value.span
            == span_at(tokens, from),
        ExprForm::Group(inner) => {
            &&& kind_at(tokens, from) is LeftParen
            &&& spells(tokens, from + 1, to - 1, *inner)
            &&& kind_at(tokens, to - 1) is RightParen
        },
        ExprForm::Array(values) => {
            &&& kind_at(tokens, from) == TokenKind::AccessorOpen(Accessor::Array)
            &&& spell_closed(tokens, from + 1, to - 1, values)
            &&& kind_at(tokens, to - 1) is RightBracket
        },
        ExprForm::Unary { op, value } => {
            &&& is_prefix(kind_at(tokens, from), op)
            &&& spells(tokens, from + 1, to, *value)
        },
        ExprForm::Binary { op, left, right } => exists|cut: int|
            {
                &&& spells(tokens, from, cut, *left)
                &&& is_operator(#[trigger] kind_at(tokens, cut), op)
                &&& spells(tokens, cut + 1, to, *right)
            },
        ExprForm::Conditional { condition, then_value, else_value } => exists|
            question: int,
            colon: int,
        |
            {
                &&& spells(tokens, from, question, *condition)
                &&& #[trigger] kind_at(tokens, question) is Question
                &&& spells(tokens, question + 1, colon, *then_value)
                &&& #[trigger] kind_at(tokens, colon) is Colon
                &&& spells(tokens, colon + 1, to, *else_value)
            },
        ExprForm::Assign { op, target, value } => exists|cut: int|
            {
                &&& spells(tokens, from, cut, *target)
                &&& is_assignment(#[trigger] kind_at(tokens, cut), op)
                &&& spells(tokens, cut + 1, to, *value)
            },
        ExprForm::Call { callee, arguments } => exists|open: int|
            {
                &&& spells(tokens, from, open, *callee)
                &&& #[trigger] kind_at(tokens, open) is LeftParen
                &&& spell_closed(tokens, open + 1, to - 1, arguments)
                &&& kind_at(tokens, to - 1) is RightParen
            },
        ExprForm::Index { target, accessor, indices } => exists|open: int|
            {
                &&& spells(tokens, from, open, *target)
                &&& #[trigger] kind_at(tokens, open) == TokenKind::AccessorOpen(accessor)
                &&& indices.len() > 0
                &&& spell_list(tokens, open + 1, to - 1, indices)
                &&& kind_at(tokens, to - 1) is RightBracket
            },
        ExprForm::Member { target, name } => {
            &&& spells(tokens, from, to - 2, *target)
            &&& kind_at(tokens, to - 2) is Dot
            &&& kind_at(tokens, to - 1) is Identifier
            &&& name == span_at(tokens, to - 1)
        },
        ExprForm::Postfix { op, target } => {
            &&& spells(tokens, from, to - 1, *target)
            &&& match op {
                PostfixOp::Increment => kind_at(tokens, to - 1) is Increment,
                PostfixOp::Decrement => kind_at(tokens, to - 1) is Decrement,
            }
        },
    }
}

/// Whether expressions spell the tokens from one position up to another, with a
/// comma between each two.
pub open spec fn spell_list(tokens: Seq<Token>, from: int, to: int, values: Seq<ExprTree>) -> bool
    decreases values, 0nat,
{
    if values.len() == 0 {
        from == to
    } else if values.len() == 1 {
        spells(tokens, from, to, values.last())
    } else {
        exists|comma: int|
            {
                &&& spell_list(tokens, from, comma, values.drop_last())
                &&& #[trigger] kind_at(tokens, comma) is Comma
                &&& spells(tokens, comma + 1, to, values.last())
            }
    }
}

/// The same of a list that may end with a comma.
pub open spec fn spell_closed(
    tokens: Seq<Token>,
    from: int,
    to: int,
    values: Seq<ExprTree>,
) -> bool
    decreases values, 1nat,
{
    ||| spell_list(tokens, from, to, values)
    ||| values.len() > 0 && kind_at(tokens, to - 1) is Comma && spell_list(
        tokens,
        from,
        to - 1,
        values,
    )
}

/// Whether a rule for expressions gives one that spells the tokens that the rule
/// took, is bound, and holds together tightly enough.
spec fn is_sound(tokens: Seq<Token>, at: int, parsed: Parsed<ExprTree>, least: int) -> bool {
    match parsed {
        Parsed::Failed(_) => true,
        Parsed::Done { value, next } => {
            &&& at < next
            &&& spells(tokens, at, next, value)
            &&& is_bound(value)
            &&& grip(value) >= least
        },
    }
}

proof fn lemma_operator(kind: TokenKind, level: int, single_equal: bool)
    requires
        operator(kind, level, single_equal) is Some,
    ensures
        tightness(operator(kind, level, single_equal)->0) == level + 1,
        is_operator(kind, operator(kind, level, single_equal)->0),
{
}

proof fn lemma_expression(tokens: Seq<Token>, at: int)
    ensures
        is_sound(tokens, at, expression(tokens, at), 0),
    decreases crate::gml::parser::left(tokens, at), 41int,
{
    lemma_conditional(tokens, at, true);
}

proof fn lemma_assignment(tokens: Seq<Token>, at: int)
    ensures
        is_sound(tokens, at, assignment(tokens, at), -1),
    decreases crate::gml::parser::left(tokens, at), 41int,
{
    lemma_conditional(tokens, at, false);
    if let Parsed::Done { value: target, next } = conditional(tokens, at, false) {
        if assign_operator(kind_at(tokens, next)) is Some {
            lemma_assignment(tokens, next + 1);
            if let Parsed::Done { value, next: end } = assignment(tokens, next + 1) {
                let op = assign_operator(kind_at(tokens, next))->0;
                assert(is_assignment(kind_at(tokens, next), op));
            }
        }
    }
}

proof fn lemma_conditional(tokens: Seq<Token>, at: int, single_equal: bool)
    ensures
        is_sound(tokens, at, conditional(tokens, at, single_equal), 0),
    decreases crate::gml::parser::left(tokens, at), 40int,
{
    lemma_operations(tokens, at, 0, single_equal);
    if let Parsed::Done { value: condition, next: question } = operations(
        tokens,
        at,
        0,
        single_equal,
    ) {
        if kind_at(tokens, question) == TokenKind::Question {
            lemma_expression(tokens, question + 1);
            if let Parsed::Done { value: then_value, next: colon } = expression(
                tokens,
                question + 1,
            ) {
                if kind_at(tokens, colon) == TokenKind::Colon {
                    lemma_conditional(tokens, colon + 1, single_equal);
                    if let Parsed::Done { value: else_value, next } = conditional(
                        tokens,
                        colon + 1,
                        single_equal,
                    ) {
                        assert(kind_at(tokens, question) is Question);
                        assert(kind_at(tokens, colon) is Colon);
                    }
                }
            }
        }
    }
}

proof fn lemma_operations(tokens: Seq<Token>, at: int, level: int, single_equal: bool)
    requires
        0 <= level <= 8,
    ensures
        is_sound(tokens, at, operations(tokens, at, level, single_equal), level + 1),
    decreases crate::gml::parser::left(tokens, at), looseness(level) + 1,
{
    if level == 8 {
        lemma_unary(tokens, at);
    } else {
        lemma_operations(tokens, at, level + 1, single_equal);
        if let Parsed::Done { value, next } = operations(tokens, at, level + 1, single_equal) {
            lemma_more_operations(tokens, at, next, level, single_equal, value);
        }
    }
}

proof fn lemma_more_operations(
    tokens: Seq<Token>,
    start: int,
    at: int,
    level: int,
    single_equal: bool,
    first: ExprTree,
)
    requires
        0 <= level < 8,
        start < at,
        spells(tokens, start, at, first),
        is_bound(first),
        grip(first) >= level + 1,
    ensures
        is_sound(tokens, start, more_operations(tokens, at, level, single_equal, first), level + 1),
        more_operations(tokens, at, level, single_equal, first) matches Parsed::Done {
            value,
            next,
        } ==> at <= next,
    decreases crate::gml::parser::left(tokens, at), looseness(level),
{
    let kind = kind_at(tokens, at);
    if operator(kind, level, single_equal) is Some {
        let op = operator(kind, level, single_equal)->0;
        lemma_operator(kind, level, single_equal);
        lemma_operations(tokens, at + 1, level + 1, single_equal);
        if let Parsed::Done { value: second, next } = operations(
            tokens,
            at + 1,
            level + 1,
            single_equal,
        ) {
            let both = operation(op, first, second);
            assert(is_operator(kind_at(tokens, at), op));
            assert(spells(tokens, start, next, both));
            assert(is_bound(both));
            lemma_more_operations(tokens, start, next, level, single_equal, both);
        }
    }
}

proof fn lemma_unary(tokens: Seq<Token>, at: int)
    ensures
        is_sound(tokens, at, unary(tokens, at), 9),
    decreases crate::gml::parser::left(tokens, at), 10int,
{
    if prefix_operator(kind_at(tokens, at)) is Some {
        lemma_unary(tokens, at + 1);
    } else {
        lemma_postfix(tokens, at);
    }
}

proof fn lemma_postfix(tokens: Seq<Token>, at: int)
    ensures
        is_sound(tokens, at, postfix(tokens, at), 10),
    decreases crate::gml::parser::left(tokens, at), 8int,
{
    lemma_primary(tokens, at);
    if let Parsed::Done { value, next } = primary(tokens, at) {
        lemma_suffixes(tokens, at, next, value);
    }
}

#[verifier::spinoff_prover]
proof fn lemma_suffixes(tokens: Seq<Token>, start: int, at: int, value: ExprTree)
    requires
        start < at,
        spells(tokens, start, at, value),
        is_bound(value),
        grip(value) >= 10,
    ensures
        is_sound(tokens, start, suffixes(tokens, at, value), 10),
    decreases crate::gml::parser::left(tokens, at), 7int,
{
    match kind_at(tokens, at) {
        TokenKind::LeftParen => {
            lemma_closed_list(tokens, at + 1, TokenKind::RightParen);
            if let Parsed::Done { value: arguments, next: close } = closed_list(
                tokens,
                at + 1,
                TokenKind::RightParen,
            ) {
                if kind_at(tokens, close) == TokenKind::RightParen {
                    let call = ExprTree {
                        form: ExprForm::Call { callee: Box::new(value), arguments },
                        span: value.span.joined(span_at(tokens, close)),
                    };
                    assert(kind_at(tokens, at) is LeftParen);
                    assert(spells(tokens, start, close + 1, call));
                    lemma_suffixes(tokens, start, close + 1, call);
                }
            }
        },
        TokenKind::AccessorOpen(accessor) => {
            if kind_at(tokens, at + 1) != TokenKind::RightBracket {
                lemma_list(tokens, at + 1, at + 1, None, seq![]);
                if let Parsed::Done { value: indices, next: close } = list(
                    tokens,
                    at + 1,
                    None,
                    seq![],
                ) {
                    if kind_at(tokens, close) == TokenKind::RightBracket {
                        let indexed = ExprTree {
                            form: ExprForm::Index { target: Box::new(value), accessor, indices },
                            span: value.span.joined(span_at(tokens, close)),
                        };
                        assert(kind_at(tokens, at) == TokenKind::AccessorOpen(accessor));
                        assert(spells(tokens, start, close + 1, indexed));
                        lemma_suffixes(tokens, start, close + 1, indexed);
                    }
                }
            }
        },
        TokenKind::Dot => {
            if kind_at(tokens, at + 1) == TokenKind::Identifier {
                let name = span_at(tokens, at + 1);
                lemma_suffixes(
                    tokens,
                    start,
                    at + 2,
                    ExprTree {
                        form: ExprForm::Member { target: Box::new(value), name },
                        span: value.span.joined(name),
                    },
                );
            }
        },
        TokenKind::Increment => {
            if !literal(value.form) {
                lemma_suffixes(
                    tokens,
                    start,
                    at + 1,
                    ExprTree {
                        form: ExprForm::Postfix {
                            op: PostfixOp::Increment,
                            target: Box::new(value),
                        },
                        span: value.span.joined(span_at(tokens, at)),
                    },
                );
            }
        },
        TokenKind::Decrement => {
            if !literal(value.form) {
                lemma_suffixes(
                    tokens,
                    start,
                    at + 1,
                    ExprTree {
                        form: ExprForm::Postfix {
                            op: PostfixOp::Decrement,
                            target: Box::new(value),
                        },
                        span: value.span.joined(span_at(tokens, at)),
                    },
                );
            }
        },
        _ => {},
    }
}

proof fn lemma_list(
    tokens: Seq<Token>,
    start: int,
    at: int,
    close: Option<TokenKind>,
    before: Seq<ExprTree>,
)
    requires
        before.len() == 0 ==> start == at,
        before.len() > 0 ==> start < at - 1 && kind_at(tokens, at - 1) is Comma && spell_list(
            tokens,
            start,
            at - 1,
            before,
        ),
        are_bound(before),
    ensures
        match list(tokens, at, close, before) {
            Parsed::Failed(_) => true,
            Parsed::Done { value, next } => {
                &&& at < next
                &&& value.len() > 0
                &&& are_bound(value)
                &&& if close is Some {
                    spell_closed(tokens, start, next, value)
                } else {
                    spell_list(tokens, start, next, value)
                }
            },
        },
    decreases crate::gml::parser::left(tokens, at), 50int,
{
    lemma_expression(tokens, at);
    if let Parsed::Done { value, next: comma } = expression(tokens, at) {
        let values = before.push(value);
        assert(values.drop_last() =~= before);
        assert(values.last() == value);
        if before.len() > 0 {
            assert(kind_at(tokens, at - 1) is Comma);
        }
        assert(spell_list(tokens, start, comma, values));
        assert(are_bound(values));
        if kind_at(tokens, comma) == TokenKind::Comma && close != Some(
            kind_at(tokens, comma + 1),
        ) {
            lemma_list(tokens, start, comma + 1, close, values);
        }
    }
}

proof fn lemma_closed_list(tokens: Seq<Token>, at: int, close: TokenKind)
    ensures
        match closed_list(tokens, at, close) {
            Parsed::Failed(_) => true,
            Parsed::Done { value, next } => {
                &&& at <= next
                &&& are_bound(value)
                &&& spell_closed(tokens, at, next, value)
            },
        },
    decreases crate::gml::parser::left(tokens, at), 51int,
{
    if kind_at(tokens, at) != close {
        lemma_list(tokens, at, at, Some(close), seq![]);
    }
}

#[verifier::spinoff_prover]
#[verifier::rlimit(40)]
proof fn lemma_primary(tokens: Seq<Token>, at: int)
    ensures
        is_sound(tokens, at, primary(tokens, at), 10),
    decreases crate::gml::parser::left(tokens, at), 4int,
{
    match kind_at(tokens, at) {
        TokenKind::LeftParen => {
            lemma_expression(tokens, at + 1);
        },
        TokenKind::AccessorOpen(Accessor::Array) => {
            lemma_closed_list(tokens, at + 1, TokenKind::RightBracket);
        },
        _ => {},
    }
}

/// Whether an expression spells the tokens from one position up to another, and is
/// bound; only where it may does it assign.
pub open spec fn reads(
    tokens: Seq<Token>,
    from: int,
    to: int,
    value: ExprTree,
    assigns: bool,
) -> bool {
    &&& spells(tokens, from, to, value)
    &&& is_bound(value)
    &&& grip(value) >= 0 || assigns
}

/// Whether a statement is the whole of what stands between two positions but for
/// one semicolon, which may end it.
pub open spec fn ends(tokens: Seq<Token>, end: int, to: int) -> bool {
    to == end || (to == end + 1 && kind_at(tokens, end) is Semicolon)
}

/// Whether names with optional values spell the tokens from one position up to
/// another, with a comma between each two.
pub open spec fn spell_names(tokens: Seq<Token>, from: int, to: int, names: Seq<VarTree>) -> bool
    decreases names.len(),
{
    if names.len() == 0 {
        false
    } else if names.len() == 1 {
        spells_name(tokens, from, to, names.last())
    } else {
        exists|comma: int|
            {
                &&& spell_names(tokens, from, comma, names.drop_last())
                &&& #[trigger] kind_at(tokens, comma) is Comma
                &&& spells_name(tokens, comma + 1, to, names.last())
            }
    }
}

/// Whether a name with an optional value spells the tokens from one position up to
/// another.
pub open spec fn spells_name(tokens: Seq<Token>, from: int, to: int, name: VarTree) -> bool {
    &&& kind_at(tokens, from) is Identifier
    &&& name.name == span_at(tokens, from)
    &&& match name.value {
        None => to == from + 1,
        Some(value) => kind_at(tokens, from + 1) is Assign && reads(
            tokens,
            from + 2,
            to,
            value,
            false,
        ),
    }
}

/// Whether the members of an enumeration spell the tokens from one position up to
/// another, each with a comma behind it, which the last one may lack.
pub open spec fn spell_members(
    tokens: Seq<Token>,
    from: int,
    to: int,
    members: Seq<VarTree>,
) -> bool
    decreases members.len(),
{
    if members.len() == 0 {
        from == to
    } else {
        exists|begin: int, end: int|
            {
                &&& #[trigger] spells_name(tokens, begin, end, members.last())
                &&& (to == end || (to == end + 1 && #[trigger] kind_at(tokens, end) is Comma))
                &&& spell_members(tokens, from, begin, members.drop_last())
                &&& members.len() > 1 ==> kind_at(tokens, begin - 1) is Comma
            }
    }
}

/// Whether an `else` behind a statement would belong to an `if` that ends it.
pub open spec fn is_open_ended(statement: StmtTree) -> bool
    decreases statement,
{
    match statement.form {
        StmtForm::If { else_branch, .. } => match else_branch {
            None => true,
            Some(branch) => is_open_ended(*branch),
        },
        StmtForm::While { body, .. } => is_open_ended(*body),
        StmtForm::For { body, .. } => is_open_ended(*body),
        StmtForm::Repeat { body, .. } => is_open_ended(*body),
        StmtForm::With { body, .. } => is_open_ended(*body),
        StmtForm::Switch { body, .. } => is_open_ended(*body),
        _ => false,
    }
}

/// The position behind a word that may stand at a position.
pub open spec fn behind_word(tokens: Seq<Token>, at: int, kind: TokenKind) -> int {
    if kind_at(tokens, at) == kind {
        at + 1
    } else {
        at
    }
}

/// Whether there are only semicolons from one position up to another.
pub open spec fn only_semicolons(tokens: Seq<Token>, from: int, to: int) -> bool {
    from <= to && forall|k: int| from <= k < to ==> #[trigger] kind_at(tokens, k) is Semicolon
}

/// Whether a statement spells the tokens from one position up to another: its
/// words, its expressions and its parts in order. An `else` belongs to the nearest
/// `if` before it.
pub open spec fn tells(tokens: Seq<Token>, from: int, to: int, statement: StmtTree) -> bool
    decreases statement,
{
    let kind = kind_at(tokens, from);
    &&& from < to
    &&& match statement.form {
        StmtForm::Empty => to == from + 1 && kind is Semicolon,
        StmtForm::Block(statements) => {
            &&& kind is Begin
            &&& all_tell(tokens, from + 1, to - 1, statements)
            &&& kind_at(tokens, to - 1) is End
        },
        StmtForm::Var { global, declarations } => exists|end: int|
            #![trigger kind_at(tokens, end)]
            {
                &&& kind == (if global {
                    TokenKind::GlobalVar
                } else {
                    TokenKind::Var
                })
                &&& spell_names(tokens, from + 1, end, declarations)
                &&& ends(tokens, end, to)
            },
        StmtForm::If { condition, then_branch, else_branch } => exists|
            test: int,
            body: int,
            branch: int,
        |
            #![trigger
                reads(tokens, from + 1, test, condition, false),
                kind_at(tokens, body),
                kind_at(tokens, branch)
            ]
            {
                &&& kind is If
                &&& reads(tokens, from + 1, test, condition, false)
                &&& body == behind_word(tokens, test, TokenKind::Then)
                &&& tells(tokens, body, branch, *then_branch)
                &&& match else_branch {
                    None => to == branch,
                    Some(other) => {
                        &&& !is_open_ended(*then_branch)
                        &&& kind_at(tokens, branch) is Else
                        &&& tells(tokens, branch + 1, to, *other)
                    },
                }
            },
        StmtForm::While { condition, body } => exists|test: int|
            {
                &&& kind is While
                &&& #[trigger] reads(tokens, from + 1, test, condition, false)
                &&& tells(tokens, behind_word(tokens, test, TokenKind::Do), to, *body)
            },
        StmtForm::DoUntil { body, condition } => exists|until: int, end: int|
            {
                &&& kind is Do
                &&& tells(tokens, from + 1, until, *body)
                &&& #[trigger] kind_at(tokens, until) is Until
                &&& #[trigger] reads(tokens, until + 1, end, condition, false)
                &&& ends(tokens, end, to)
            },
        StmtForm::For { initializer, condition, step, body } => exists|
            first: int,
            second: int,
            third: int,
            close: int,
        |
            {
                &&& kind is For
                &&& kind_at(tokens, from + 1) is LeftParen
                &&& match initializer {
                    None => first == from + 2,
                    Some(begin) => match begin.form {
                        StmtForm::Var { global, declarations } => {
                            &&& kind_at(tokens, from + 2) == (if global {
                                TokenKind::GlobalVar
                            } else {
                                TokenKind::Var
                            })
                            &&& spell_names(tokens, from + 3, first, declarations)
                        },
                        StmtForm::Expr(value) => reads(tokens, from + 2, first, value, true),
                        _ => false,
                    },
                }
                &&& #[trigger] kind_at(tokens, first) is Semicolon
                &&& match condition {
                    None => second == first + 1,
                    Some(value) => reads(tokens, first + 1, second, value, false),
                }
                &&& #[trigger] kind_at(tokens, second) is Semicolon
                &&& match step {
                    None => third == second + 1,
                    Some(value) => reads(tokens, second + 1, third, value, true),
                }
                &&& #[trigger] only_semicolons(tokens, third, close)
                &&& kind_at(tokens, close) is RightParen
                &&& tells(tokens, close + 1, to, *body)
            },
        StmtForm::Repeat { count, body } => exists|test: int|
            {
                &&& kind is Repeat
                &&& #[trigger] reads(tokens, from + 1, test, count, false)
                &&& tells(tokens, test, to, *body)
            },
        StmtForm::With { target, body } => exists|test: int|
            {
                &&& kind is With
                &&& #[trigger] reads(tokens, from + 1, test, target, false)
                &&& tells(tokens, behind_word(tokens, test, TokenKind::Do), to, *body)
            },
        StmtForm::Switch { value, body } => exists|test: int|
            {
                &&& kind is Switch
                &&& #[trigger] reads(tokens, from + 1, test, value, false)
                &&& tells(tokens, test, to, *body)
            },
        StmtForm::Case(value) => {
            &&& kind is Case
            &&& reads(tokens, from + 1, to - 1, value, false)
            &&& kind_at(tokens, to - 1) is Colon
        },
        StmtForm::Default => to == from + 2 && kind is Default && kind_at(tokens, from + 1)
            is Colon,
        StmtForm::Return(value) => {
            &&& kind is Return
            &&& match value {
                None => ends(tokens, from + 1, to),
                Some(value) => exists|end: int| #[trigger]
                    reads(tokens, from + 1, end, value, false) && ends(tokens, end, to),
            }
        },
        StmtForm::Exit => kind is Exit && ends(tokens, from + 1, to),
        StmtForm::Break => kind is Break && ends(tokens, from + 1, to),
        StmtForm::Continue => kind is Continue && ends(tokens, from + 1, to),
        StmtForm::Enum { name, members } => exists|end: int|
            {
                &&& kind is Enum
                &&& kind_at(tokens, from + 1) is Identifier
                &&& name == span_at(tokens, from + 1)
                &&& kind_at(tokens, from + 2) is Begin
                &&& spell_members(tokens, from + 3, end, members)
                &&& #[trigger] kind_at(tokens, end) is End
                &&& ends(tokens, end + 1, to)
            },
        StmtForm::Expr(value) => exists|end: int| #[trigger]
            reads(tokens, from, end, value, true) && ends(tokens, end, to),
    }
}

/// Whether statements spell the tokens from one position up to another.
pub open spec fn all_tell(
    tokens: Seq<Token>,
    from: int,
    to: int,
    statements: Seq<StmtTree>,
) -> bool
    decreases statements,
{
    if statements.len() == 0 {
        from == to
    } else {
        exists|cut: int|
            #![trigger kind_at(tokens, cut)]
            {
                &&& all_tell(tokens, from, cut, statements.drop_last())
                &&& tells(tokens, cut, to, statements.last())
            }
    }
}

/// Whether a rule for statements gives one that spells the tokens that the rule
/// took.
spec fn is_told(tokens: Seq<Token>, from: int, parsed: Parsed<StmtTree>) -> bool {
    match parsed {
        Parsed::Failed(_) => true,
        Parsed::Done { value, next } => {
            &&& from < next
            &&& tells(tokens, from, next, value)
            &&& is_open_ended(value) ==> !(kind_at(tokens, next) is Else)
        },
    }
}

proof fn lemma_reads(tokens: Seq<Token>, at: int)
    ensures
        expression(tokens, at) matches Parsed::Done { value, next } ==> at < next && reads(
            tokens,
            at,
            next,
            value,
            false,
        ),
        assignment(tokens, at) matches Parsed::Done { value, next } ==> at < next && reads(
            tokens,
            at,
            next,
            value,
            true,
        ),
{
    lemma_expression(tokens, at);
    lemma_assignment(tokens, at);
}

#[verifier::spinoff_prover]
proof fn lemma_statement(tokens: Seq<Token>, at: int)
    ensures
        is_told(tokens, at, statement(tokens, at)),
    decreases crate::gml::parser::left(tokens, at), 70int,
{
    let start = span_at(tokens, at);
    match kind_at(tokens, at) {
        TokenKind::Begin => {
            lemma_block(tokens, at, at + 1, start, seq![]);
        },
        TokenKind::If => {
            lemma_if(tokens, at, start);
        },
        TokenKind::While => {
            lemma_while(tokens, at, start);
        },
        TokenKind::Do => {
            lemma_do(tokens, at, start);
        },
        TokenKind::For => {
            lemma_for(tokens, at, start);
        },
        TokenKind::Repeat => {
            lemma_repeat(tokens, at, start);
        },
        TokenKind::With => {
            lemma_with(tokens, at, start);
        },
        TokenKind::Switch => {
            lemma_switch(tokens, at, start);
        },
        TokenKind::Case => {
            lemma_reads(tokens, at + 1);
        },
        TokenKind::Var => {
            lemma_var(tokens, at, start, false);
        },
        TokenKind::GlobalVar => {
            lemma_var(tokens, at, start, true);
        },
        TokenKind::Enum => {
            if kind_at(tokens, at + 1) == TokenKind::Identifier && kind_at(tokens, at + 2)
                == TokenKind::Begin {
                lemma_members(tokens, at, at + 3, start, span_at(tokens, at + 1), seq![]);
            }
        },
        TokenKind::Return => {
            lemma_reads(tokens, at + 1);
        },
        _ => {
            lemma_reads(tokens, at);
        },
    }
}

proof fn lemma_var(tokens: Seq<Token>, from: int, start: Span, global: bool)
    requires
        kind_at(tokens, from) == (if global {
            TokenKind::GlobalVar
        } else {
            TokenKind::Var
        }),
    ensures
        is_told(tokens, from, var_rest(tokens, from + 1, start, global, true)),
{
    lemma_declarations(tokens, from + 1, from + 1, seq![]);
    if let Parsed::Done { value: found, next } = declarations(tokens, from + 1, seq![]) {
        assert(spell_names(tokens, from + 1, next, found));
        if let Parsed::Done { value, next: to } = var_rest(tokens, from + 1, start, global, true) {
            let last = kind_at(tokens, next);
            assert(ends(tokens, next, to));
        }
    }
}

proof fn lemma_named(tokens: Seq<Token>, at: int)
    requires
        kind_at(tokens, at) is Identifier,
    ensures
        initial_value(tokens, at + 1) matches Parsed::Done { value, next } ==> at < next
            && spells_name(tokens, at, next, named(span_at(tokens, at), value)),
{
    lemma_reads(tokens, at + 2);
}

proof fn lemma_declarations(tokens: Seq<Token>, start: int, at: int, before: Seq<VarTree>)
    requires
        before.len() == 0 ==> start == at,
        before.len() > 0 ==> kind_at(tokens, at - 1) is Comma && spell_names(
            tokens,
            start,
            at - 1,
            before,
        ),
    ensures
        declarations(tokens, at, before) matches Parsed::Done { value, next } ==> at < next
            && spell_names(tokens, start, next, value),
    decreases crate::gml::parser::left(tokens, at),
{
    if kind_at(tokens, at) == TokenKind::Identifier {
        lemma_named(tokens, at);
        if let Parsed::Done { value, next: comma } = initial_value(tokens, at + 1) {
            let found = before.push(named(span_at(tokens, at), value));
            assert(found.drop_last() =~= before);
            if before.len() > 0 {
                assert(kind_at(tokens, at - 1) is Comma);
            }
            assert(spell_names(tokens, start, comma, found));
            if kind_at(tokens, comma) == TokenKind::Comma {
                lemma_declarations(tokens, start, comma + 1, found);
            }
        }
    }
}

proof fn lemma_members(
    tokens: Seq<Token>,
    from: int,
    at: int,
    start: Span,
    name: Span,
    before: Seq<VarTree>,
)
    requires
        from + 3 <= at,
        kind_at(tokens, from) is Enum,
        kind_at(tokens, from + 1) is Identifier,
        name == span_at(tokens, from + 1),
        kind_at(tokens, from + 2) is Begin,
        spell_members(tokens, from + 3, at, before),
        before.len() > 0 ==> kind_at(tokens, at - 1) is Comma || kind_at(tokens, at) is End,
    ensures
        is_told(tokens, from, members(tokens, at, start, name, before)),
    decreases crate::gml::parser::left(tokens, at),
{
    if kind_at(tokens, at) == TokenKind::Identifier {
        lemma_named(tokens, at);
        if let Parsed::Done { value, next: comma } = initial_value(tokens, at + 1) {
            if kind_at(tokens, comma) == TokenKind::Comma || kind_at(tokens, comma)
                == TokenKind::End {
                let member = named(span_at(tokens, at), value);
                let found = before.push(member);
                assert(found.drop_last() =~= before);
                assert(found.last() == member);
                let next = skip(tokens, comma, TokenKind::Comma);
                assert(spells_name(tokens, at, comma, found.last()));
                assert(next == comma || kind_at(tokens, comma) is Comma);
                assert(spell_members(tokens, from + 3, next, found));
                lemma_members(tokens, from, next, start, name, found);
            }
        }
    } else if kind_at(tokens, at) == TokenKind::End {
        assert(spell_members(tokens, from + 3, at, before));
        if let Parsed::Done { value, next } = members(tokens, at, start, name, before) {
            assert(ends(tokens, at + 1, next));
            assert(tells(tokens, from, next, value));
        }
    }
}

proof fn lemma_block(
    tokens: Seq<Token>,
    from: int,
    at: int,
    start: Span,
    before: Seq<StmtTree>,
)
    requires
        from < at,
        kind_at(tokens, from) is Begin,
        all_tell(tokens, from + 1, at, before),
    ensures
        is_told(tokens, from, block(tokens, at, start, before)),
    decreases crate::gml::parser::left(tokens, at), 80int,
{
    if kind_at(tokens, at) != TokenKind::End && kind_at(tokens, at) != TokenKind::Eof {
        lemma_statement(tokens, at);
        if let Parsed::Done { value, next } = statement(tokens, at) {
            let more = before.push(value);
            assert(more.drop_last() =~= before);
            assert(all_tell(tokens, from + 1, at, more.drop_last()));
            lemma_block(tokens, from, next, start, more);
        }
    }
}

#[verifier::spinoff_prover]
proof fn lemma_if(tokens: Seq<Token>, from: int, start: Span)
    requires
        kind_at(tokens, from) is If,
    ensures
        is_told(tokens, from, if_rest(tokens, from + 1, start)),
    decreases crate::gml::parser::left(tokens, from + 1), 72int,
{
    lemma_reads(tokens, from + 1);
    if let Parsed::Done { value: condition, next: test } = expression(tokens, from + 1) {
        let body = skip(tokens, test, TokenKind::Then);
        assert(body == behind_word(tokens, test, TokenKind::Then));
        lemma_statement(tokens, body);
        if let Parsed::Done { value: then_branch, next: branch } = statement(tokens, body) {
            assert(reads(tokens, from + 1, test, condition, false));
            assert(tells(tokens, body, branch, then_branch));
            let first = kind_at(tokens, body);
            if kind_at(tokens, branch) == TokenKind::Else {
                assert(!is_open_ended(then_branch));
                lemma_statement(tokens, branch + 1);
            }
        }
    }
}

proof fn lemma_while(tokens: Seq<Token>, from: int, start: Span)
    requires
        kind_at(tokens, from) is While,
    ensures
        is_told(tokens, from, while_rest(tokens, from + 1, start)),
    decreases crate::gml::parser::left(tokens, from + 1), 72int,
{
    lemma_reads(tokens, from + 1);
    if let Parsed::Done { value: condition, next: test } = expression(tokens, from + 1) {
        let inner = skip(tokens, test, TokenKind::Do);
        assert(inner == behind_word(tokens, test, TokenKind::Do));
        lemma_statement(tokens, inner);
        assert(reads(tokens, from + 1, test, condition, false));
    }
}

proof fn lemma_do(tokens: Seq<Token>, from: int, start: Span)
    requires
        kind_at(tokens, from) is Do,
    ensures
        is_told(tokens, from, do_rest(tokens, from + 1, start)),
    decreases crate::gml::parser::left(tokens, from + 1), 72int,
{
    lemma_statement(tokens, from + 1);
    if let Parsed::Done { value: body, next: until } = statement(tokens, from + 1) {
        if kind_at(tokens, until) == TokenKind::Until {
            lemma_reads(tokens, until + 1);
            assert(tells(tokens, from + 1, until, body));
        }
    }
}

proof fn lemma_repeat(tokens: Seq<Token>, from: int, start: Span)
    requires
        kind_at(tokens, from) is Repeat,
    ensures
        is_told(tokens, from, repeat_rest(tokens, from + 1, start)),
    decreases crate::gml::parser::left(tokens, from + 1), 72int,
{
    lemma_reads(tokens, from + 1);
    if let Parsed::Done { value: count, next: test } = expression(tokens, from + 1) {
        lemma_statement(tokens, test);
        assert(reads(tokens, from + 1, test, count, false));
    }
}

proof fn lemma_with(tokens: Seq<Token>, from: int, start: Span)
    requires
        kind_at(tokens, from) is With,
    ensures
        is_told(tokens, from, with_rest(tokens, from + 1, start)),
    decreases crate::gml::parser::left(tokens, from + 1), 72int,
{
    lemma_reads(tokens, from + 1);
    if let Parsed::Done { value: target, next: test } = expression(tokens, from + 1) {
        let inner = skip(tokens, test, TokenKind::Do);
        assert(inner == behind_word(tokens, test, TokenKind::Do));
        lemma_statement(tokens, inner);
        assert(reads(tokens, from + 1, test, target, false));
    }
}

proof fn lemma_switch(tokens: Seq<Token>, from: int, start: Span)
    requires
        kind_at(tokens, from) is Switch,
    ensures
        is_told(tokens, from, switch_rest(tokens, from + 1, start)),
    decreases crate::gml::parser::left(tokens, from + 1), 72int,
{
    lemma_reads(tokens, from + 1);
    if let Parsed::Done { value, next: test } = expression(tokens, from + 1) {
        lemma_statement(tokens, test);
        assert(reads(tokens, from + 1, test, value, false));
    }
}

proof fn lemma_semicolons(tokens: Seq<Token>, at: int)
    ensures
        only_semicolons(tokens, at, skip_semicolons(tokens, at)),
    decreases crate::gml::parser::left(tokens, at),
{
    if kind_at(tokens, at) == TokenKind::Semicolon {
        lemma_semicolons(tokens, at + 1);
    }
}

#[verifier::spinoff_prover]
#[verifier::rlimit(40)]
proof fn lemma_for(tokens: Seq<Token>, from: int, start: Span)
    requires
        kind_at(tokens, from) is For,
    ensures
        is_told(tokens, from, for_rest(tokens, from + 1, start)),
    decreases crate::gml::parser::left(tokens, from + 1), 72int,
{
    let at = from + 1;
    if kind_at(tokens, at) == TokenKind::LeftParen {
        lemma_reads(tokens, at + 1);
        lemma_declarations(tokens, at + 2, at + 2, seq![]);
        if let Parsed::Done { value: initializer, next: first } = for_initializer(tokens, at + 1) {
            assert(at < first);
            if kind_at(tokens, first) == TokenKind::Semicolon {
                lemma_reads(tokens, first + 1);
                if let Parsed::Done { value: condition, next: second } = for_condition(
                    tokens,
                    first + 1,
                ) {
                    assert(first < second);
                    if kind_at(tokens, second) == TokenKind::Semicolon {
                        lemma_reads(tokens, second + 1);
                        if let Parsed::Done { value: step, next: close } = for_step(
                            tokens,
                            second + 1,
                        ) {
                            let third = match assignment(tokens, second + 1) {
                                Parsed::Done { next, .. } => if step is Some {
                                    next
                                } else {
                                    second + 1
                                },
                                _ => second + 1,
                            };
                            lemma_semicolons(tokens, third);
                            assert(only_semicolons(tokens, third, close));
                            if kind_at(tokens, close) == TokenKind::RightParen {
                                lemma_statement(tokens, close + 1);
                                assert(kind_at(tokens, first) is Semicolon);
                                assert(kind_at(tokens, second) is Semicolon);
                            }
                        }
                    }
                }
            }
        }
    }
}

proof fn lemma_program(tokens: Seq<Token>, at: int, before: Seq<StmtTree>)
    requires
        all_tell(tokens, 0, at, before),
    ensures
        program(tokens, at, before) matches Parsed::Done { value, next } ==> all_tell(
            tokens,
            0,
            next,
            value,
        ) && kind_at(tokens, next) is Eof,
    decreases crate::gml::parser::left(tokens, at), 80int,
{
    if kind_at(tokens, at) != TokenKind::Eof {
        lemma_statement(tokens, at);
        if let Parsed::Done { value, next } = statement(tokens, at) {
            let more = before.push(value);
            assert(more.drop_last() =~= before);
            assert(all_tell(tokens, 0, at, more.drop_last()));
            lemma_program(tokens, next, more);
        }
    }
}

/// The tree of a source spells its tokens from the first up to the end: the
/// statements with their words, expressions and parts in order. In each expression
/// `*`, `/`, `div` and `mod` bind more tightly than `+` and `-`, those than shifts,
/// those than bitwise operators, those than comparisons, those than `^^`, `&&` and
/// `||` in this order, and operators that bind as tightly group to the left. An
/// `else` belongs to the nearest `if`.
pub proof fn law_trees_spell_their_tokens(source: Seq<char>)
    requires
        parsed(source) is Ok,
    ensures
        exists|end: int|
            {
                &&& #[trigger] all_tell(
                    tokens_from(source, 0),
                    0,
                    end,
                    parsed(source)->Ok_0.statements,
                )
                &&& kind_at(tokens_from(source, 0), end) is Eof
            },
{
    let tokens = tokens_from(source, 0);
    lemma_program(tokens, 0, seq![]);
    let next = program(tokens, 0, seq![])->next;
    assert(all_tell(tokens, 0, next, parsed(source)->Ok_0.statements));
}

/// The expression that tokens begin with spells them and is bound.
pub proof fn law_expressions_spell_their_tokens(tokens: Seq<Token>, at: int)
    ensures
        expression(tokens, at) matches Parsed::Done { value, next } ==> reads(
            tokens,
            at,
            next,
            value,
            false,
        ),
        assignment(tokens, at) matches Parsed::Done { value, next } ==> reads(
            tokens,
            at,
            next,
            value,
            true,
        ),
{
    lemma_reads(tokens, at);
}

/// The operands of `*`, `/`, `div` and `mod` in a tree that is bound are no sums,
/// shifts, bitwise operations, comparisons or logical operations; those of `+` and
/// `-` are no shifts, bitwise operations, comparisons or logical operations.
pub proof fn law_products_bind_before_sums(value: ExprTree)
    requires
        is_bound(value),
    ensures
        value.form matches ExprForm::Binary { op, left, right } ==> {
            &&& op is Multiply || op is Divide || op is IntegerDivide || op is Modulo ==> {
                &&& left.form matches ExprForm::Binary { op: inner, .. } ==> inner is Multiply
                    || inner is Divide || inner is IntegerDivide || inner is Modulo
                &&& !(right.form is Binary)
            }
            &&& op is Add || op is Subtract ==> {
                &&& left.form matches ExprForm::Binary { op: inner, .. } ==> inner is Multiply
                    || inner is Divide || inner is IntegerDivide || inner is Modulo || inner is Add
                    || inner is Subtract
                &&& right.form matches ExprForm::Binary { op: inner, .. } ==> inner is Multiply
                    || inner is Divide || inner is IntegerDivide || inner is Modulo
            }
            &&& op is LogicalOr ==> !(right.form matches ExprForm::Binary {
                op: BinaryOp::LogicalOr,
                ..
            })
            &&& op is LogicalAnd ==> !(left.form matches ExprForm::Binary {
                op: BinaryOp::LogicalOr,
                ..
            }) && !(right.form matches ExprForm::Binary { op: BinaryOp::LogicalOr, .. })
        },
{
}

} // verus!
