//! Spans and the source that they point into.

use vstd::prelude::*;
use vstd::utf8::*;

use crate::gml::ast::{ExprForm, ExprTree, ProgramTree, Span, StmtForm, StmtTree, VarTree};
use crate::text::{lemma_encode_concat, lemma_offset_bounds, offset_at};

verus! {

/// Whether a span covers the characters from `start` up to `end`.
pub open spec fn covers(source: Seq<char>, span: Span, start: int, end: int) -> bool {
    &&& 0 <= start <= end <= source.len()
    &&& span.start == offset_at(source, start)
    &&& span.end == offset_at(source, end)
}

/// Whether a span covers whole characters of the source.
#[verifier::opaque]
pub open spec fn in_source(source: Seq<char>, span: Span) -> bool {
    exists|start: int, end: int| #[trigger] covers(source, span, start, end)
}

/// A span that covers characters of the source is in the source.
pub proof fn lemma_covers(source: Seq<char>, span: Span, start: int, end: int)
    requires
        covers(source, span, start, end),
    ensures
        in_source(source, span),
{
    reveal(in_source);
}

/// The text that a span covers.
pub open spec fn span_text(source: Seq<char>, span: Span) -> Seq<char> {
    decode_utf8(encode_utf8(source).subrange(span.start as int, span.end as int))
}

/// The offset of a character is a boundary of the encoded text.
proof fn lemma_offset_is_boundary(source: Seq<char>, index: int)
    requires
        0 <= index <= source.len(),
    ensures
        is_char_boundary(encode_utf8(source), offset_at(source, index)),
        valid_utf8(encode_utf8(source)),
    decreases index,
{
    encode_utf8_valid_utf8(source);
    let bytes = encode_utf8(source);
    lemma_offset_bounds(source, 0, index);
    if index > 0 {
        let rest = source.drop_first();
        encode_utf8_first_scalar(source);
        assert(pop_first_scalar(bytes) =~= encode_utf8(rest));
        lemma_offset_is_boundary(rest, index - 1);
        let first = source.take(1);
        assert(source.take(index) =~= first + rest.take(index - 1));
        lemma_encode_concat(first, rest.take(index - 1));
        assert(first.drop_first() =~= seq![]);
        assert(encode_utf8(first.drop_first()) =~= seq![]);
        assert(encode_utf8(first) =~= encode_scalar(source[0] as u32));
        lemma_offset_bounds(source, 0, index);
        reveal_with_fuel(is_char_boundary, 2);
    }
}

/// The text that a span covers is the run of characters between its ends.
pub proof fn lemma_span_text(source: Seq<char>, span: Span, start: int, end: int)
    requires
        covers(source, span, start, end),
    ensures
        span_text(source, span) == source.subrange(start, end),
        encode_utf8(span_text(source, span)) == encode_utf8(source).subrange(
            span.start as int,
            span.end as int,
        ),
        span.start <= span.end <= encode_utf8(source).len(),
        is_char_boundary(encode_utf8(source), span.start as int),
        is_char_boundary(encode_utf8(source), span.end as int),
{
    let inner = source.subrange(start, end);
    lemma_offset_bounds(source, start, end);
    lemma_offset_is_boundary(source, start);
    lemma_offset_is_boundary(source, end);
    assert(source.take(end) =~= source.take(start) + inner);
    lemma_encode_concat(source.take(start), inner);
    assert(source =~= source.take(end) + source.skip(end));
    lemma_encode_concat(source.take(end), source.skip(end));
    assert(encode_utf8(source).subrange(span.start as int, span.end as int) =~= encode_utf8(
        inner,
    ));
    encode_utf8_decode_utf8(inner);
}

/// Returns the text that a span covers.
pub fn source_text(source: &str, span: Span) -> (text: &str)
    requires
        in_source(source@, span),
    ensures
        text@ == span_text(source@, span),
{
    proof {
        reveal(in_source);
        let (start, end) = choose|start: int, end: int| #[trigger]
            covers(source@, span, start, end);
        lemma_span_text(source@, span, start, end);
    }
    let ghost bytes = encode_utf8(source@);
    let (head, _) = source.split_at(span.end as usize);
    proof {
        let (start, end) = choose|start: int, end: int| #[trigger]
            covers(source@, span, start, end);
        lemma_offset_bounds(source@, start, end);
        assert(source@ =~= source@.take(end) + source@.skip(end));
        lemma_encode_concat(source@.take(end), source@.skip(end));
        assert(encode_utf8(head@) =~= encode_utf8(source@.take(end)));
        crate::text::lemma_bytes_determine_text(head@, source@.take(end));
        assert(source@.take(end).take(start) =~= source@.take(start));
        assert(source@.take(end).take(end) =~= source@.take(end));
        assert(covers(head@, span, start, end));
        lemma_span_text(head@, span, start, end);
    }
    let (_, text) = head.split_at(span.start as usize);
    proof {
        let (start, end) = choose|start: int, end: int| #[trigger]
            covers(source@, span, start, end);
        assert(encode_utf8(text@) =~= bytes.subrange(span.start as int, span.end as int));
        crate::text::lemma_bytes_determine_text(text@, span_text(source@, span));
    }
    text
}

/// Whether the spans of an expression cover whole characters of the source.
pub open spec fn expr_spanned(source: Seq<char>, value: ExprTree) -> bool
    decreases value,
{
    &&& in_source(source, value.span)
    &&& match value.form {
        ExprForm::Identifier => true,
        ExprForm::Number => true,
        ExprForm::String => true,
        ExprForm::Group(inner) => expr_spanned(source, *inner),
        ExprForm::Array(values) => exprs_spanned(source, values),
        ExprForm::Unary { value, .. } => expr_spanned(source, *value),
        ExprForm::Binary { left, right, .. } => expr_spanned(source, *left) && expr_spanned(
            source,
            *right,
        ),
        ExprForm::Conditional { condition, then_value, else_value } => expr_spanned(
            source,
            *condition,
        ) && expr_spanned(source, *then_value) && expr_spanned(source, *else_value),
        ExprForm::Assign { target, value, .. } => expr_spanned(source, *target) && expr_spanned(
            source,
            *value,
        ),
        ExprForm::Call { callee, arguments } => expr_spanned(source, *callee) && exprs_spanned(
            source,
            arguments,
        ),
        ExprForm::Index { target, indices, .. } => expr_spanned(source, *target) && exprs_spanned(
            source,
            indices,
        ),
        ExprForm::Member { target, name } => expr_spanned(source, *target) && in_source(
            source,
            name,
        ),
        ExprForm::Postfix { target, .. } => expr_spanned(source, *target),
    }
}

/// Whether the spans of a list of expressions cover whole characters.
pub open spec fn exprs_spanned(source: Seq<char>, values: Seq<ExprTree>) -> bool
    decreases values,
{
    values.len() == 0 || exprs_spanned(source, values.drop_last()) && expr_spanned(
        source,
        values.last(),
    )
}

/// Whether the spans of an optional expression cover whole characters.
pub open spec fn option_spanned(source: Seq<char>, value: Option<ExprTree>) -> bool {
    match value {
        None => true,
        Some(value) => expr_spanned(source, value),
    }
}

/// Whether the spans of a list of names with values cover whole characters.
pub open spec fn vars_spanned(source: Seq<char>, values: Seq<VarTree>) -> bool {
    forall|k: int|
        0 <= k < values.len() ==> {
            &&& in_source(source, (#[trigger] values[k]).name)
            &&& in_source(source, values[k].span)
            &&& option_spanned(source, values[k].value)
        }
}

/// Whether the spans of a statement cover whole characters of the source.
pub open spec fn stmt_spanned(source: Seq<char>, statement: StmtTree) -> bool
    decreases statement,
{
    &&& in_source(source, statement.span)
    &&& match statement.form {
        StmtForm::Empty => true,
        StmtForm::Block(statements) => stmts_spanned(source, statements),
        StmtForm::Var { declarations, .. } => vars_spanned(source, declarations),
        StmtForm::If { condition, then_branch, else_branch } => {
            &&& expr_spanned(source, condition)
            &&& stmt_spanned(source, *then_branch)
            &&& match else_branch {
                None => true,
                Some(branch) => stmt_spanned(source, *branch),
            }
        },
        StmtForm::While { condition, body } => expr_spanned(source, condition) && stmt_spanned(
            source,
            *body,
        ),
        StmtForm::DoUntil { body, condition } => stmt_spanned(source, *body) && expr_spanned(
            source,
            condition,
        ),
        StmtForm::For { initializer, condition, step, body } => {
            &&& match initializer {
                None => true,
                Some(initializer) => stmt_spanned(source, *initializer),
            }
            &&& option_spanned(source, condition)
            &&& option_spanned(source, step)
            &&& stmt_spanned(source, *body)
        },
        StmtForm::Repeat { count, body } => expr_spanned(source, count) && stmt_spanned(
            source,
            *body,
        ),
        StmtForm::With { target, body } => expr_spanned(source, target) && stmt_spanned(
            source,
            *body,
        ),
        StmtForm::Switch { value, body } => expr_spanned(source, value) && stmt_spanned(
            source,
            *body,
        ),
        StmtForm::Case(value) => expr_spanned(source, value),
        StmtForm::Default => true,
        StmtForm::Return(value) => option_spanned(source, value),
        StmtForm::Exit => true,
        StmtForm::Break => true,
        StmtForm::Continue => true,
        StmtForm::Enum { name, members } => in_source(source, name) && vars_spanned(
            source,
            members,
        ),
        StmtForm::Expr(value) => expr_spanned(source, value),
    }
}

/// Whether the spans of a list of statements cover whole characters.
pub open spec fn stmts_spanned(source: Seq<char>, statements: Seq<StmtTree>) -> bool
    decreases statements,
{
    statements.len() == 0 || stmts_spanned(source, statements.drop_last()) && stmt_spanned(
        source,
        statements.last(),
    )
}

/// Whether all spans of a program cover whole characters of its source.
pub open spec fn program_spanned(source: Seq<char>, program: ProgramTree) -> bool {
    stmts_spanned(source, program.statements)
}

/// Each expression of a spanned list is spanned.
pub proof fn lemma_exprs_spanned(source: Seq<char>, values: Seq<ExprTree>)
    requires
        exprs_spanned(source, values),
    ensures
        forall|k: int| 0 <= k < values.len() ==> expr_spanned(source, #[trigger] values[k]),
    decreases values.len(),
{
    if values.len() > 0 {
        lemma_exprs_spanned(source, values.drop_last());
        assert forall|k: int| 0 <= k < values.len() implies expr_spanned(
            source,
            #[trigger] values[k],
        ) by {
            if k < values.len() - 1 {
                assert(values.drop_last()[k] == values[k]);
            }
        }
    }
}

/// Each statement of a spanned list is spanned.
pub proof fn lemma_stmts_spanned(source: Seq<char>, statements: Seq<StmtTree>)
    requires
        stmts_spanned(source, statements),
    ensures
        forall|k: int|
            0 <= k < statements.len() ==> stmt_spanned(source, #[trigger] statements[k]),
    decreases statements.len(),
{
    if statements.len() > 0 {
        lemma_stmts_spanned(source, statements.drop_last());
        assert forall|k: int| 0 <= k < statements.len() implies stmt_spanned(
            source,
            #[trigger] statements[k],
        ) by {
            if k < statements.len() - 1 {
                assert(statements.drop_last()[k] == statements[k]);
            }
        }
    }
}

} // verus!
