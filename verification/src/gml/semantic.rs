//! The meaning of names: what each name in the code of a project stands for.

use vstd::prelude::*;

use crate::assets::Assets;
use crate::gml::ast::{
    expr_trees, lemma_expr_trees, lemma_stmt_trees, optional_tree, stmt_trees, AssignOp, EnumMember,
    Expr, ExprForm, ExprKind, ExprTree, Program, ProgramTree, Span, Stmt, StmtForm, StmtKind,
    StmtTree, UnaryOp, VarDecl, VarTree,
};
use crate::gml::parser::{parse, parsed};
use crate::gml::project::{
    code_reports, code_units, collect_code, collected_actions, dnd_reports, expand_code_macros,
    kind_name, machine_count, scripts_fit, statements_in_all, unit_texts, CheckSummary,
    CodeDiagnostic, CodeKind, CodeReport, CodeUnit, DndDiagnostic, DndReport, UnitText,
};
use crate::gml::spans::{
    expr_spanned, exprs_spanned, in_source, option_spanned, program_spanned, source_text, span_text,
    stmt_spanned, stmts_spanned, vars_spanned,
};
use crate::gml::symbols::{
    empty_table, last_place, law_interning_keeps_numbers, place_from, project_entries, with_entries,
    with_entry, Builtins, CallableSymbol, Entry, ResourceType, SymbolId, SymbolTable, Symbols,
    ValueSymbol,
};
use crate::gml::Report;
use crate::text::{decimal, digits, same_text};

verus! {

/// The names in an expression, in the order in which they are met.
pub open spec fn expr_names(value: ExprTree) -> Seq<Span>
    decreases value,
{
    match value.form {
        ExprForm::Identifier => seq![value.span],
        ExprForm::Number => seq![],
        ExprForm::String => seq![],
        ExprForm::Group(inner) => expr_names(*inner),
        ExprForm::Array(values) => exprs_names(values),
        ExprForm::Unary { value, .. } => expr_names(*value),
        ExprForm::Binary { left, right, .. } => expr_names(*left) + expr_names(*right),
        ExprForm::Conditional { condition, then_value, else_value } => expr_names(*condition)
            + expr_names(*then_value) + expr_names(*else_value),
        ExprForm::Assign { target, value, .. } => expr_names(*target) + expr_names(*value),
        ExprForm::Call { callee, arguments } => expr_names(*callee) + exprs_names(arguments),
        ExprForm::Index { target, indices, .. } => expr_names(*target) + exprs_names(indices),
        ExprForm::Member { target, name } => expr_names(*target) + seq![name],
        ExprForm::Postfix { target, .. } => expr_names(*target),
    }
}

/// The names in a list of expressions.
pub open spec fn exprs_names(values: Seq<ExprTree>) -> Seq<Span>
    decreases values,
{
    if values.len() == 0 {
        seq![]
    } else {
        exprs_names(values.drop_last()) + expr_names(values.last())
    }
}

/// The names in an optional expression.
pub open spec fn option_names(value: Option<ExprTree>) -> Seq<Span> {
    match value {
        Some(value) => expr_names(value),
        None => seq![],
    }
}

/// The names in a list of declarations or members.
pub open spec fn vars_names(values: Seq<VarTree>) -> Seq<Span>
    decreases values.len(),
{
    if values.len() == 0 {
        seq![]
    } else {
        vars_names(values.drop_last()) + seq![values.last().name] + option_names(
            values.last().value,
        )
    }
}

/// The names in a statement.
pub open spec fn stmt_names(statement: StmtTree) -> Seq<Span>
    decreases statement,
{
    match statement.form {
        StmtForm::Empty => seq![],
        StmtForm::Default => seq![],
        StmtForm::Exit => seq![],
        StmtForm::Break => seq![],
        StmtForm::Continue => seq![],
        StmtForm::Block(statements) => stmts_names(statements),
        StmtForm::Var { declarations, .. } => vars_names(declarations),
        StmtForm::If { condition, then_branch, else_branch } => expr_names(condition) + stmt_names(
            *then_branch,
        ) + (match else_branch {
            Some(branch) => stmt_names(*branch),
            None => seq![],
        }),
        StmtForm::While { condition, body } => expr_names(condition) + stmt_names(*body),
        StmtForm::DoUntil { body, condition } => stmt_names(*body) + expr_names(condition),
        StmtForm::For { initializer, condition, step, body } => (match initializer {
            Some(initializer) => stmt_names(*initializer),
            None => seq![],
        }) + option_names(condition) + option_names(step) + stmt_names(*body),
        StmtForm::Repeat { count, body } => expr_names(count) + stmt_names(*body),
        StmtForm::With { target, body } => expr_names(target) + stmt_names(*body),
        StmtForm::Switch { value, body } => expr_names(value) + stmt_names(*body),
        StmtForm::Case(value) => expr_names(value),
        StmtForm::Return(value) => option_names(value),
        StmtForm::Enum { name, members } => seq![name] + vars_names(members),
        StmtForm::Expr(value) => expr_names(value),
    }
}

/// The names in a list of statements.
pub open spec fn stmts_names(statements: Seq<StmtTree>) -> Seq<Span>
    decreases statements,
{
    if statements.len() == 0 {
        seq![]
    } else {
        stmts_names(statements.drop_last()) + stmt_names(statements.last())
    }
}

fn visit_expression_names(expression: &Expr, names: &mut Vec<Span>)
    ensures
        final(names)@ == old(names)@ + expr_names(expression.tree()),
    decreases expression,
{
    match &expression.kind {
        ExprKind::Identifier => {
            names.push(expression.span);
        },
        ExprKind::Number => {},
        ExprKind::String => {},
        ExprKind::Group(value) => visit_expression_names(value, names),
        ExprKind::Unary { value, .. } => visit_expression_names(value, names),
        ExprKind::Postfix { target, .. } => visit_expression_names(target, names),
        ExprKind::Array(values) => visit_list_names(values, names),
        ExprKind::Binary { left, right, .. } => {
            visit_expression_names(left, names);
            visit_expression_names(right, names);
        },
        ExprKind::Conditional { condition, then_value, else_value } => {
            visit_expression_names(condition, names);
            visit_expression_names(then_value, names);
            visit_expression_names(else_value, names);
        },
        ExprKind::Assign { target, value, .. } => {
            visit_expression_names(target, names);
            visit_expression_names(value, names);
        },
        ExprKind::Call { callee, arguments } => {
            visit_expression_names(callee, names);
            visit_list_names(arguments, names);
        },
        ExprKind::Index { target, indices, .. } => {
            visit_expression_names(target, names);
            visit_list_names(indices, names);
        },
        ExprKind::Member { target, name } => {
            visit_expression_names(target, names);
            names.push(*name);
        },
    }
    assert(names@ =~= old(names)@ + expr_names(expression.tree()));
}

fn visit_list_names(values: &Vec<Expr>, names: &mut Vec<Span>)
    ensures
        final(names)@ == old(names)@ + exprs_names(expr_trees(values@)),
    decreases values,
{
    let ghost trees = expr_trees(values@);
    let ghost begin = names@;
    proof {
        lemma_expr_trees(values@);
    }
    let mut index: usize = 0;
    assert(begin + exprs_names(trees.take(0)) =~= begin);
    while index < values.len()
        invariant
            index <= values.len(),
            trees.len() == values@.len(),
            forall|k: int| 0 <= k < values@.len() ==> (#[trigger] trees[k]) == values@[k].tree(),
            names@ == begin + exprs_names(trees.take(index as int)),
        decreases values.len() - index,
    {
        proof {
            assert(decreases_to!(values => values@[index as int]));
            assert(trees.take(index + 1).drop_last() =~= trees.take(index as int));
        }
        visit_expression_names(&values[index], names);
        assert(names@ =~= begin + exprs_names(trees.take(index + 1)));
        index += 1;
    }
    assert(trees.take(index as int) =~= trees);
}

fn visit_option_names(value: &Option<Expr>, names: &mut Vec<Span>)
    ensures
        final(names)@ == old(names)@ + option_names(optional_tree(*value)),
{
    match value {
        Some(value) => visit_expression_names(value, names),
        None => {},
    }
    assert(names@ =~= old(names)@ + option_names(optional_tree(*value)));
}

/// The trees of a list of declarations.
pub open spec fn declaration_trees(declarations: Seq<VarDecl>) -> Seq<VarTree> {
    declarations.map_values(|declaration: VarDecl| declaration.tree())
}

/// The trees of a list of members.
pub open spec fn member_trees(members: Seq<EnumMember>) -> Seq<VarTree> {
    members.map_values(|member: EnumMember| member.tree())
}

fn visit_declaration_names(declarations: &Vec<VarDecl>, names: &mut Vec<Span>)
    ensures
        final(names)@ == old(names)@ + vars_names(declaration_trees(declarations@)),
{
    let ghost trees = declaration_trees(declarations@);
    let ghost begin = names@;
    let mut index: usize = 0;
    assert(begin + vars_names(trees.take(0)) =~= begin);
    while index < declarations.len()
        invariant
            index <= declarations.len(),
            trees == declaration_trees(declarations@),
            names@ == begin + vars_names(trees.take(index as int)),
        decreases declarations.len() - index,
    {
        names.push(declarations[index].name);
        visit_option_names(&declarations[index].value, names);
        assert(trees.take(index + 1).drop_last() =~= trees.take(index as int));
        assert(names@ =~= begin + vars_names(trees.take(index + 1)));
        index += 1;
    }
    assert(trees.take(index as int) =~= trees);
}

fn visit_member_names(members: &Vec<EnumMember>, names: &mut Vec<Span>)
    ensures
        final(names)@ == old(names)@ + vars_names(member_trees(members@)),
{
    let ghost trees = member_trees(members@);
    let ghost begin = names@;
    let mut index: usize = 0;
    assert(begin + vars_names(trees.take(0)) =~= begin);
    while index < members.len()
        invariant
            index <= members.len(),
            trees == member_trees(members@),
            names@ == begin + vars_names(trees.take(index as int)),
        decreases members.len() - index,
    {
        names.push(members[index].name);
        visit_option_names(&members[index].value, names);
        assert(trees.take(index + 1).drop_last() =~= trees.take(index as int));
        assert(names@ =~= begin + vars_names(trees.take(index + 1)));
        index += 1;
    }
    assert(trees.take(index as int) =~= trees);
}

fn visit_statement_names(statement: &Stmt, names: &mut Vec<Span>)
    ensures
        final(names)@ == old(names)@ + stmt_names(statement.tree()),
    decreases statement,
{
    match &statement.kind {
        StmtKind::Empty => {},
        StmtKind::Default => {},
        StmtKind::Exit => {},
        StmtKind::Break => {},
        StmtKind::Continue => {},
        StmtKind::Block(statements) => visit_block_names(statements, names),
        StmtKind::Var { declarations, .. } => visit_declaration_names(declarations, names),
        StmtKind::If { condition, then_branch, else_branch } => {
            visit_expression_names(condition, names);
            visit_statement_names(then_branch, names);
            if let Some(branch) = else_branch {
                visit_statement_names(branch, names);
            }
        },
        StmtKind::While { condition, body } => {
            visit_expression_names(condition, names);
            visit_statement_names(body, names);
        },
        StmtKind::DoUntil { body, condition } => {
            visit_statement_names(body, names);
            visit_expression_names(condition, names);
        },
        StmtKind::For { initializer, condition, step, body } => {
            if let Some(initializer) = initializer {
                visit_statement_names(initializer, names);
            }
            visit_option_names(condition, names);
            visit_option_names(step, names);
            visit_statement_names(body, names);
        },
        StmtKind::Repeat { count, body } => {
            visit_expression_names(count, names);
            visit_statement_names(body, names);
        },
        StmtKind::With { target, body } => {
            visit_expression_names(target, names);
            visit_statement_names(body, names);
        },
        StmtKind::Switch { value, body } => {
            visit_expression_names(value, names);
            visit_statement_names(body, names);
        },
        StmtKind::Case(value) => visit_expression_names(value, names),
        StmtKind::Return(value) => visit_option_names(value, names),
        StmtKind::Enum { name, members } => {
            names.push(*name);
            visit_member_names(members, names);
        },
        StmtKind::Expr(value) => visit_expression_names(value, names),
    }
    assert(names@ =~= old(names)@ + stmt_names(statement.tree()));
}

fn visit_block_names(statements: &Vec<Stmt>, names: &mut Vec<Span>)
    ensures
        final(names)@ == old(names)@ + stmts_names(stmt_trees(statements@)),
    decreases statements,
{
    let ghost trees = stmt_trees(statements@);
    let ghost begin = names@;
    proof {
        lemma_stmt_trees(statements@);
    }
    let mut index: usize = 0;
    assert(begin + stmts_names(trees.take(0)) =~= begin);
    while index < statements.len()
        invariant
            index <= statements.len(),
            trees.len() == statements@.len(),
            forall|k: int|
                0 <= k < statements@.len() ==> (#[trigger] trees[k]) == statements@[k].tree(),
            names@ == begin + stmts_names(trees.take(index as int)),
        decreases statements.len() - index,
    {
        proof {
            assert(decreases_to!(statements => statements@[index as int]));
            assert(trees.take(index + 1).drop_last() =~= trees.take(index as int));
        }
        visit_statement_names(&statements[index], names);
        assert(names@ =~= begin + stmts_names(trees.take(index + 1)));
        index += 1;
    }
    assert(trees.take(index as int) =~= trees);
}

/// Whether names stand in the source and are numbered.
#[verifier::opaque]
pub open spec fn readable(names: Seq<Seq<char>>, source: Seq<char>, spans: Seq<Span>) -> bool {
    forall|k: int|
        0 <= k < spans.len() ==> in_source(source, #[trigger] spans[k]) && place_from(
            names,
            span_text(source, spans[k]),
            0,
        ) is Some
}

proof fn lemma_readable_concat(
    names: Seq<Seq<char>>,
    source: Seq<char>,
    first: Seq<Span>,
    second: Seq<Span>,
)
    ensures
        readable(names, source, first + second) <==> readable(names, source, first) && readable(
            names,
            source,
            second,
        ),
{
    reveal(readable);
    let both = first + second;
    if readable(names, source, both) {
        assert forall|k: int| 0 <= k < first.len() implies in_source(source, #[trigger] first[k])
            && place_from(names, span_text(source, first[k]), 0) is Some by {
            assert(both[k] == first[k]);
        }
        assert forall|k: int| 0 <= k < second.len() implies in_source(source, #[trigger] second[k])
            && place_from(names, span_text(source, second[k]), 0) is Some by {
            assert(both[first.len() + k] == second[k]);
        }
    }
}

proof fn lemma_readable_one(names: Seq<Seq<char>>, source: Seq<char>, span: Span)
    ensures
        readable(names, source, seq![span]) <==> in_source(source, span) && place_from(
            names,
            span_text(source, span),
            0,
        ) is Some,
{
    reveal(readable);
    assert(seq![span][0] == span);
}

proof fn lemma_readable_in_list(names: Seq<Seq<char>>, source: Seq<char>, values: Seq<ExprTree>)
    requires
        readable(names, source, exprs_names(values)),
    ensures
        forall|k: int|
            0 <= k < values.len() ==> readable(names, source, expr_names(#[trigger] values[k])),
    decreases values.len(),
{
    if values.len() > 0 {
        lemma_readable_concat(
            names,
            source,
            exprs_names(values.drop_last()),
            expr_names(values.last()),
        );
        lemma_readable_in_list(names, source, values.drop_last());
        assert forall|k: int| 0 <= k < values.len() implies readable(
            names,
            source,
            expr_names(#[trigger] values[k]),
        ) by {
            if k < values.len() - 1 {
                assert(values.drop_last()[k] == values[k]);
            }
        }
    }
}

proof fn lemma_readable_in_block(names: Seq<Seq<char>>, source: Seq<char>, statements: Seq<StmtTree>)
    requires
        readable(names, source, stmts_names(statements)),
    ensures
        forall|k: int|
            0 <= k < statements.len() ==> readable(
                names,
                source,
                stmt_names(#[trigger] statements[k]),
            ),
    decreases statements.len(),
{
    if statements.len() > 0 {
        lemma_readable_concat(
            names,
            source,
            stmts_names(statements.drop_last()),
            stmt_names(statements.last()),
        );
        lemma_readable_in_block(names, source, statements.drop_last());
        assert forall|k: int| 0 <= k < statements.len() implies readable(
            names,
            source,
            stmt_names(#[trigger] statements[k]),
        ) by {
            if k < statements.len() - 1 {
                assert(statements.drop_last()[k] == statements[k]);
            }
        }
    }
}

proof fn lemma_readable_in_vars(names: Seq<Seq<char>>, source: Seq<char>, values: Seq<VarTree>)
    requires
        readable(names, source, vars_names(values)),
    ensures
        forall|k: int|
            0 <= k < values.len() ==> in_source(source, (#[trigger] values[k]).name) && place_from(
                names,
                span_text(source, values[k].name),
                0,
            ) is Some && readable(names, source, option_names(values[k].value)),
    decreases values.len(),
{
    if values.len() > 0 {
        let last = values.last();
        let front = vars_names(values.drop_last());
        lemma_readable_concat(names, source, front + seq![last.name], option_names(last.value));
        lemma_readable_concat(names, source, front, seq![last.name]);
        lemma_readable_one(names, source, last.name);
        lemma_readable_in_vars(names, source, values.drop_last());
        assert forall|k: int| 0 <= k < values.len() implies in_source(
            source,
            (#[trigger] values[k]).name,
        ) && place_from(names, span_text(source, values[k].name), 0) is Some && readable(
            names,
            source,
            option_names(values[k].value),
        ) by {
            if k < values.len() - 1 {
                assert(values.drop_last()[k] == values[k]);
            }
        }
    }
}

/// Whether all spans of a list stand in the source.
pub open spec fn all_in_source(source: Seq<char>, spans: Seq<Span>) -> bool {
    forall|k: int| 0 <= k < spans.len() ==> in_source(source, #[trigger] spans[k])
}

proof fn lemma_expr_names_in_source(source: Seq<char>, value: ExprTree)
    requires
        expr_spanned(source, value),
    ensures
        all_in_source(source, expr_names(value)),
    decreases value,
{
    match value.form {
        ExprForm::Identifier => {},
        ExprForm::Number => {},
        ExprForm::String => {},
        ExprForm::Group(inner) => lemma_expr_names_in_source(source, *inner),
        ExprForm::Array(values) => lemma_list_names_in_source(source, values),
        ExprForm::Unary { value, .. } => lemma_expr_names_in_source(source, *value),
        ExprForm::Binary { left, right, .. } => {
            lemma_expr_names_in_source(source, *left);
            lemma_expr_names_in_source(source, *right);
        },
        ExprForm::Conditional { condition, then_value, else_value } => {
            lemma_expr_names_in_source(source, *condition);
            lemma_expr_names_in_source(source, *then_value);
            lemma_expr_names_in_source(source, *else_value);
        },
        ExprForm::Assign { target, value, .. } => {
            lemma_expr_names_in_source(source, *target);
            lemma_expr_names_in_source(source, *value);
        },
        ExprForm::Call { callee, arguments } => {
            lemma_expr_names_in_source(source, *callee);
            lemma_list_names_in_source(source, arguments);
        },
        ExprForm::Index { target, indices, .. } => {
            lemma_expr_names_in_source(source, *target);
            lemma_list_names_in_source(source, indices);
        },
        ExprForm::Member { target, name } => lemma_expr_names_in_source(source, *target),
        ExprForm::Postfix { target, .. } => lemma_expr_names_in_source(source, *target),
    }
}

proof fn lemma_list_names_in_source(source: Seq<char>, values: Seq<ExprTree>)
    requires
        exprs_spanned(source, values),
    ensures
        all_in_source(source, exprs_names(values)),
    decreases values,
{
    if values.len() > 0 {
        lemma_list_names_in_source(source, values.drop_last());
        lemma_expr_names_in_source(source, values.last());
    }
}

proof fn lemma_var_names_in_source(source: Seq<char>, values: Seq<VarTree>)
    requires
        vars_spanned(source, values),
    ensures
        all_in_source(source, vars_names(values)),
    decreases values.len(),
{
    if values.len() > 0 {
        let front = values.drop_last();
        assert forall|k: int| 0 <= k < front.len() implies {
            &&& in_source(source, (#[trigger] front[k]).name)
            &&& in_source(source, front[k].span)
            &&& option_spanned(source, front[k].value)
        } by {
            assert(front[k] == values[k]);
        }
        lemma_var_names_in_source(source, front);
        assert(values.last() == values[values.len() - 1]);
        if let Some(value) = values.last().value {
            lemma_expr_names_in_source(source, value);
        }
    }
}

proof fn lemma_option_names_in_source(source: Seq<char>, value: Option<ExprTree>)
    requires
        option_spanned(source, value),
    ensures
        all_in_source(source, option_names(value)),
{
    if let Some(value) = value {
        lemma_expr_names_in_source(source, value);
    }
}

proof fn lemma_stmt_names_in_source(source: Seq<char>, statement: StmtTree)
    requires
        stmt_spanned(source, statement),
    ensures
        all_in_source(source, stmt_names(statement)),
    decreases statement,
{
    match statement.form {
        StmtForm::Block(statements) => lemma_block_names_in_source(source, statements),
        StmtForm::Var { declarations, .. } => lemma_var_names_in_source(source, declarations),
        StmtForm::If { condition, then_branch, else_branch } => {
            lemma_expr_names_in_source(source, condition);
            lemma_stmt_names_in_source(source, *then_branch);
            if let Some(branch) = else_branch {
                lemma_stmt_names_in_source(source, *branch);
            }
        },
        StmtForm::While { condition, body } => {
            lemma_expr_names_in_source(source, condition);
            lemma_stmt_names_in_source(source, *body);
        },
        StmtForm::DoUntil { body, condition } => {
            lemma_expr_names_in_source(source, condition);
            lemma_stmt_names_in_source(source, *body);
        },
        StmtForm::For { initializer, condition, step, body } => {
            if let Some(initializer) = initializer {
                lemma_stmt_names_in_source(source, *initializer);
            }
            lemma_option_names_in_source(source, condition);
            lemma_option_names_in_source(source, step);
            lemma_stmt_names_in_source(source, *body);
        },
        StmtForm::Repeat { count, body } => {
            lemma_expr_names_in_source(source, count);
            lemma_stmt_names_in_source(source, *body);
        },
        StmtForm::With { target, body } => {
            lemma_expr_names_in_source(source, target);
            lemma_stmt_names_in_source(source, *body);
        },
        StmtForm::Switch { value, body } => {
            lemma_expr_names_in_source(source, value);
            lemma_stmt_names_in_source(source, *body);
        },
        StmtForm::Case(value) => lemma_expr_names_in_source(source, value),
        StmtForm::Return(value) => lemma_option_names_in_source(source, value),
        StmtForm::Enum { name, members } => lemma_var_names_in_source(source, members),
        StmtForm::Expr(value) => lemma_expr_names_in_source(source, value),
        _ => {},
    }
}

proof fn lemma_block_names_in_source(source: Seq<char>, statements: Seq<StmtTree>)
    requires
        stmts_spanned(source, statements),
    ensures
        all_in_source(source, stmts_names(statements)),
    decreases statements,
{
    if statements.len() > 0 {
        lemma_block_names_in_source(source, statements.drop_last());
        lemma_stmt_names_in_source(source, statements.last());
    }
}

/// The table with the first `count` names of a source numbered.
pub open spec fn with_names(
    table: SymbolTable,
    source: Seq<char>,
    spans: Seq<Span>,
    count: int,
) -> SymbolTable
    decreases count,
{
    if count <= 0 {
        table
    } else {
        with_names(table, source, spans, count - 1).interned(span_text(source, spans[count - 1]))
    }
}

/// Whether all names of a table are numbered in another.
pub open spec fn within(first: SymbolTable, second: SymbolTable) -> bool {
    forall|name: Seq<char>| #[trigger] first.knows(name) ==> second.knows(name)
}

proof fn lemma_within_readable(
    first: SymbolTable,
    second: SymbolTable,
    source: Seq<char>,
    spans: Seq<Span>,
)
    requires
        within(first, second),
        readable(first.names, source, spans),
    ensures
        readable(second.names, source, spans),
{
    reveal(readable);
    assert forall|k: int| 0 <= k < spans.len() implies in_source(source, #[trigger] spans[k])
        && place_from(second.names, span_text(source, spans[k]), 0) is Some by {
        assert(first.knows(span_text(source, spans[k])));
    }
}

/// Numbers all names of a program.
pub fn collect_names(symbols: &mut Symbols, source: &str, program: &Program)
    requires
        old(symbols)@.valid(),
        program_spanned(source@, program.tree()),
    ensures
        ({
            let spans = stmts_names(program.tree().statements);
            &&& final(symbols)@ == with_names(old(symbols)@, source@, spans, spans.len() as int)
            &&& final(symbols)@.valid()
            &&& within(old(symbols)@, final(symbols)@)
            &&& readable(final(symbols)@.names, source@, spans)
        }),
{
    let mut spans: Vec<Span> = Vec::new();
    visit_block_names(&program.statements, &mut spans);
    assert(spans@ =~= stmts_names(program.tree().statements));
    proof {
        lemma_block_names_in_source(source@, program.tree().statements);
    }
    let ghost begin = symbols@;
    let mut index: usize = 0;
    assert(readable(symbols@.names, source@, spans@.take(0))) by {
        reveal(readable);
    }
    while index < spans.len()
        invariant
            index <= spans.len(),
            symbols@.valid(),
            all_in_source(source@, spans@),
            within(begin, symbols@),
            readable(symbols@.names, source@, spans@.take(index as int)),
            symbols@ == with_names(begin, source@, spans@, index as int),
        decreases spans.len() - index,
    {
        let ghost before = symbols@;
        let name = source_text(source, spans[index]);
        symbols.intern(name);
        proof {
            assert forall|other: Seq<char>| #[trigger] before.knows(other) implies symbols@.knows(
                other,
            ) by {
                law_interning_keeps_numbers(before, name@, other);
            }
            lemma_within_readable(before, symbols@, source@, spans@.take(index as int));
            assert(spans@.take(index + 1) =~= spans@.take(index as int) + seq![
                spans@[index as int],
            ]);
            lemma_readable_one(symbols@.names, source@, spans@[index as int]);
            lemma_readable_concat(
                symbols@.names,
                source@,
                spans@.take(index as int),
                seq![spans@[index as int]],
            );
        }
        index += 1;
    }
    assert(spans@.take(index as int) =~= spans@);
}

/// What a project declares: the numbered names, and the global variables.
pub struct Declared {
    pub table: SymbolTable,
    pub globals: Seq<SymbolId>,
}

/// A list of numbers with another one, unless it is there.
pub open spec fn with_number(numbers: Seq<SymbolId>, id: SymbolId) -> Seq<SymbolId> {
    if numbers.contains(id) {
        numbers
    } else {
        numbers.push(id)
    }
}

/// The numbers of the names of declarations, as far as they are new.
pub open spec fn with_numbers(
    numbers: Seq<SymbolId>,
    table: SymbolTable,
    source: Seq<char>,
    values: Seq<VarTree>,
) -> Seq<SymbolId>
    decreases values.len(),
{
    if values.len() == 0 {
        numbers
    } else {
        with_number(
            with_numbers(numbers, table, source, values.drop_last()),
            table.number(span_text(source, values.last().name)),
        )
    }
}

/// The numbers of the names of members.
pub open spec fn member_numbers(
    table: SymbolTable,
    source: Seq<char>,
    members: Seq<VarTree>,
) -> Seq<SymbolId> {
    members.map_values(|member: VarTree| table.number(span_text(source, member.name)))
}

/// What is declared with a statement.
pub open spec fn with_statement(
    state: Declared,
    source: Seq<char>,
    statement: StmtTree,
) -> Declared
    decreases statement,
{
    match statement.form {
        StmtForm::Var { global: true, declarations } => Declared {
            globals: with_numbers(state.globals, state.table, source, declarations),
            ..state
        },
        StmtForm::Enum { name, members } => Declared {
            table: state.table.with_enum(
                state.table.number(span_text(source, name)),
                member_numbers(state.table, source, members),
            ),
            ..state
        },
        StmtForm::Block(statements) => with_statements(state, source, statements),
        StmtForm::If { then_branch, else_branch, .. } => {
            let after = with_statement(state, source, *then_branch);
            match else_branch {
                Some(branch) => with_statement(after, source, *branch),
                None => after,
            }
        },
        StmtForm::While { body, .. } => with_statement(state, source, *body),
        StmtForm::DoUntil { body, .. } => with_statement(state, source, *body),
        StmtForm::Repeat { body, .. } => with_statement(state, source, *body),
        StmtForm::With { body, .. } => with_statement(state, source, *body),
        StmtForm::Switch { body, .. } => with_statement(state, source, *body),
        StmtForm::For { initializer, body, .. } => {
            let before = match initializer {
                Some(initializer) => with_statement(state, source, *initializer),
                None => state,
            };
            with_statement(before, source, *body)
        },
        _ => state,
    }
}

/// What is declared with a list of statements.
pub open spec fn with_statements(
    state: Declared,
    source: Seq<char>,
    statements: Seq<StmtTree>,
) -> Declared
    decreases statements,
{
    if statements.len() == 0 {
        state
    } else {
        with_statement(
            with_statements(state, source, statements.drop_last()),
            source,
            statements.last(),
        )
    }
}

fn holds_number(numbers: &Vec<SymbolId>, id: SymbolId) -> (result: bool)
    ensures
        result == numbers@.contains(id),
{
    let mut index: usize = 0;
    while index < numbers.len()
        invariant
            index <= numbers.len(),
            forall|k: int| 0 <= k < index ==> numbers@[k] != id,
        decreases numbers.len() - index,
    {
        if numbers[index] == id {
            assert(numbers@[index as int] == id);
            return true;
        }
        index += 1;
    }
    false
}

fn number_of(symbols: &Symbols, source: &str, span: Span) -> (id: SymbolId)
    requires
        in_source(source@, span),
        symbols@.knows(span_text(source@, span)),
    ensures
        id == symbols@.number(span_text(source@, span)),
        id.0 < symbols@.names.len(),
        symbols@.names[id.0 as int] == span_text(source@, span),
{
    match symbols.id(source_text(source, span)) {
        Some(id) => id,
        None => {
            assert(false);
            SymbolId(0)
        },
    }
}

fn declare_globals(
    symbols: &Symbols,
    globals: &mut Vec<SymbolId>,
    source: &str,
    declarations: &Vec<VarDecl>,
)
    requires
        readable(symbols@.names, source@, vars_names(declaration_trees(declarations@))),
    ensures
        final(globals)@ == with_numbers(
            old(globals)@,
            symbols@,
            source@,
            declaration_trees(declarations@),
        ),
{
    let ghost trees = declaration_trees(declarations@);
    let ghost begin = globals@;
    proof {
        lemma_readable_in_vars(symbols@.names, source@, trees);
    }
    let mut index: usize = 0;
    while index < declarations.len()
        invariant
            index <= declarations.len(),
            trees == declaration_trees(declarations@),
            forall|k: int|
                0 <= k < trees.len() ==> in_source(source@, (#[trigger] trees[k]).name)
                    && place_from(symbols@.names, span_text(source@, trees[k].name), 0) is Some,
            globals@ == with_numbers(begin, symbols@, source@, trees.take(index as int)),
        decreases declarations.len() - index,
    {
        assert(trees[index as int] == declarations@[index as int].tree());
        let id = number_of(symbols, source, declarations[index].name);
        if !holds_number(globals, id) {
            globals.push(id);
        }
        assert(trees.take(index + 1).drop_last() =~= trees.take(index as int));
        index += 1;
    }
    assert(trees.take(index as int) =~= trees);
}

fn member_ids(symbols: &Symbols, source: &str, members: &Vec<EnumMember>) -> (ids: Vec<SymbolId>)
    requires
        readable(symbols@.names, source@, vars_names(member_trees(members@))),
    ensures
        ids@ == member_numbers(symbols@, source@, member_trees(members@)),
{
    let ghost trees = member_trees(members@);
    proof {
        lemma_readable_in_vars(symbols@.names, source@, trees);
    }
    let mut ids: Vec<SymbolId> = Vec::new();
    let mut index: usize = 0;
    while index < members.len()
        invariant
            index <= members.len(),
            ids@.len() == index,
            trees == member_trees(members@),
            forall|k: int|
                0 <= k < trees.len() ==> in_source(source@, (#[trigger] trees[k]).name)
                    && place_from(symbols@.names, span_text(source@, trees[k].name), 0) is Some,
            forall|k: int|
                0 <= k < index ==> (#[trigger] ids@[k]) == symbols@.number(
                    span_text(source@, trees[k].name),
                ),
        decreases members.len() - index,
    {
        assert(trees[index as int] == members@[index as int].tree());
        ids.push(number_of(symbols, source, members[index].name));
        index += 1;
    }
    assert(ids@ =~= member_numbers(symbols@, source@, trees));
    ids
}

fn declare_statement(
    symbols: &mut Symbols,
    globals: &mut Vec<SymbolId>,
    source: &str,
    statement: &Stmt,
)
    requires
        old(symbols)@.valid(),
        readable(old(symbols)@.names, source@, stmt_names(statement.tree())),
    ensures
        (Declared { table: final(symbols)@, globals: final(globals)@ }) == with_statement(
            (Declared { table: old(symbols)@, globals: old(globals)@ }),
            source@,
            statement.tree(),
        ),
        final(symbols)@.valid(),
        final(symbols)@.names == old(symbols)@.names,
    decreases statement,
{
    let ghost names = symbols@.names;
    match &statement.kind {
        StmtKind::Var { global, declarations } => {
            if *global {
                declare_globals(symbols, globals, source, declarations);
            }
        },
        StmtKind::Enum { name, members } => {
            proof {
                lemma_readable_concat(
                    names,
                    source@,
                    seq![*name],
                    vars_names(member_trees(members@)),
                );
                lemma_readable_one(names, source@, *name);
            }
            let id = number_of(symbols, source, *name);
            let ids = member_ids(symbols, source, members);
            symbols.define_enum(id, ids);
        },
        StmtKind::Block(statements) => {
            declare_statements(symbols, globals, source, statements);
        },
        StmtKind::If { condition, then_branch, else_branch } => {
            proof {
                let first = expr_names(condition.tree()) + stmt_names(then_branch.tree());
                if let Some(branch) = else_branch {
                    lemma_readable_concat(names, source@, first, stmt_names(branch.tree()));
                } else {
                    assert(first + seq![] =~= first);
                }
                lemma_readable_concat(
                    names,
                    source@,
                    expr_names(condition.tree()),
                    stmt_names(then_branch.tree()),
                );
            }
            declare_statement(symbols, globals, source, then_branch);
            if let Some(branch) = else_branch {
                declare_statement(symbols, globals, source, branch);
            }
        },
        StmtKind::While { condition, body } => {
            proof {
                lemma_readable_concat(
                    names,
                    source@,
                    expr_names(condition.tree()),
                    stmt_names(body.tree()),
                );
            }
            declare_statement(symbols, globals, source, body);
        },
        StmtKind::DoUntil { body, condition } => {
            proof {
                lemma_readable_concat(
                    names,
                    source@,
                    stmt_names(body.tree()),
                    expr_names(condition.tree()),
                );
            }
            declare_statement(symbols, globals, source, body);
        },
        StmtKind::Repeat { count, body } => {
            proof {
                lemma_readable_concat(
                    names,
                    source@,
                    expr_names(count.tree()),
                    stmt_names(body.tree()),
                );
            }
            declare_statement(symbols, globals, source, body);
        },
        StmtKind::With { target, body } => {
            proof {
                lemma_readable_concat(
                    names,
                    source@,
                    expr_names(target.tree()),
                    stmt_names(body.tree()),
                );
            }
            declare_statement(symbols, globals, source, body);
        },
        StmtKind::Switch { value, body } => {
            proof {
                lemma_readable_concat(
                    names,
                    source@,
                    expr_names(value.tree()),
                    stmt_names(body.tree()),
                );
            }
            declare_statement(symbols, globals, source, body);
        },
        StmtKind::For { initializer, condition, step, body } => {
            proof {
                let first = match initializer {
                    Some(initializer) => stmt_names(initializer.tree()),
                    None => seq![],
                };
                let second = option_names(optional_tree(*condition));
                let third = option_names(optional_tree(*step));
                lemma_readable_concat(
                    names,
                    source@,
                    first + second + third,
                    stmt_names(body.tree()),
                );
                lemma_readable_concat(names, source@, first + second, third);
                lemma_readable_concat(names, source@, first, second);
            }
            if let Some(initializer) = initializer {
                declare_statement(symbols, globals, source, initializer);
            }
            declare_statement(symbols, globals, source, body);
        },
        _ => {},
    }
}

fn declare_statements(
    symbols: &mut Symbols,
    globals: &mut Vec<SymbolId>,
    source: &str,
    statements: &Vec<Stmt>,
)
    requires
        old(symbols)@.valid(),
        readable(old(symbols)@.names, source@, stmts_names(stmt_trees(statements@))),
    ensures
        (Declared { table: final(symbols)@, globals: final(globals)@ }) == with_statements(
            (Declared { table: old(symbols)@, globals: old(globals)@ }),
            source@,
            stmt_trees(statements@),
        ),
        final(symbols)@.valid(),
        final(symbols)@.names == old(symbols)@.names,
    decreases statements,
{
    let ghost begin = Declared { table: symbols@, globals: globals@ };
    let ghost trees = stmt_trees(statements@);
    proof {
        lemma_stmt_trees(statements@);
        lemma_readable_in_block(symbols@.names, source@, trees);
    }
    let mut index: usize = 0;
    while index < statements.len()
        invariant
            index <= statements.len(),
            symbols@.valid(),
            symbols@.names == begin.table.names,
            trees.len() == statements@.len(),
            forall|k: int|
                0 <= k < statements@.len() ==> (#[trigger] trees[k]) == statements@[k].tree(),
            forall|k: int|
                0 <= k < trees.len() ==> readable(
                    begin.table.names,
                    source@,
                    stmt_names(#[trigger] trees[k]),
                ),
            (Declared { table: symbols@, globals: globals@ }) == with_statements(
                begin,
                source@,
                trees.take(index as int),
            ),
        decreases statements.len() - index,
    {
        proof {
            assert(decreases_to!(statements => statements@[index as int]));
            assert(trees[index as int] == statements@[index as int].tree());
            assert(trees.take(index + 1).drop_last() =~= trees.take(index as int));
        }
        declare_statement(symbols, globals, source, &statements[index]);
        index += 1;
    }
    assert(trees.take(index as int) =~= trees);
}

/// Enters the global variables and enumerations that a program declares.
pub fn collect_project_declarations(
    symbols: &mut Symbols,
    globals: &mut Vec<SymbolId>,
    source: &str,
    program: &Program,
)
    requires
        old(symbols)@.valid(),
        readable(old(symbols)@.names, source@, stmts_names(program.tree().statements)),
    ensures
        (Declared { table: final(symbols)@, globals: final(globals)@ }) == with_statements(
            (Declared { table: old(symbols)@, globals: old(globals)@ }),
            source@,
            program.tree().statements,
        ),
        final(symbols)@.valid(),
        final(symbols)@.names == old(symbols)@.names,
{
    declare_statements(symbols, globals, source, &program.statements);
}

/// How a name is used.
#[derive(Debug, Clone, Copy, PartialEq, Eq, Structural)]
pub enum NameAccess {
    Read,
    Write,
    ReadWrite,
    Call,
    Declare,
}

/// What a name stands for at one place.
#[derive(Debug, Clone, Copy, PartialEq, Eq, Structural)]
pub enum NameBinding {
    LocalVariable { slot: usize },
    GlobalVariable,
    InstanceVariable,
    BuiltinVariable,
    BuiltinConstant,
    ConfiguredConstant { index: usize },
    Resource { kind: ResourceType, index: usize },
    RoomInstance { id: i32 },
    Script { index: usize },
    BuiltinFunction,
    ExtensionFunction { id: i32 },
    Enum { index: usize },
    EnumMember { enum_symbol: SymbolId, member_index: usize },
}

/// Whether what a name stands for can be assigned.
pub open spec fn is_writable(binding: NameBinding) -> bool {
    binding is LocalVariable || binding is GlobalVariable || binding is InstanceVariable
        || binding is BuiltinVariable
}

/// Whether an access assigns.
pub open spec fn is_write(access: NameAccess) -> bool {
    access is Write || access is ReadWrite
}

impl NameBinding {
    fn writable(self) -> (result: bool)
        ensures
            result == is_writable(self),
    {
        match self {
            NameBinding::LocalVariable { .. } => true,
            NameBinding::GlobalVariable => true,
            NameBinding::InstanceVariable => true,
            NameBinding::BuiltinVariable => true,
            _ => false,
        }
    }
}

/// A name at one place with what it stands for there.
#[derive(Debug, Clone, Copy, PartialEq, Eq, Structural)]
pub struct NameResolution {
    pub symbol: SymbolId,
    pub binding: NameBinding,
    pub access: NameAccess,
    pub span: Span,
}

/// What the names of a unit are resolved by: the names of the project, its
/// global variables, the local variables of the unit and its source.
pub struct Scope {
    pub table: SymbolTable,
    pub globals: Seq<SymbolId>,
    pub locals: Seq<SymbolId>,
    pub source: Seq<char>,
}

impl Scope {
    /// The text of a name.
    pub open spec fn text(self, span: Span) -> Seq<char> {
        span_text(self.source, span)
    }

    /// The number of a name.
    pub open spec fn symbol(self, span: Span) -> SymbolId {
        self.table.number(self.text(span))
    }

    /// The place of a local variable.
    pub open spec fn slot(self, id: SymbolId) -> Option<int> {
        last_place(self.locals, id, self.locals.len() as int)
    }

    /// What a name stands for as a value, or else the variable that it names.
    pub open spec fn value_or_variable(self, id: SymbolId) -> NameBinding {
        let info = self.table.known(id);
        match info.value {
            Some(ValueSymbol::BuiltinConstant) => NameBinding::BuiltinConstant,
            Some(ValueSymbol::ConfiguredConstant { index, .. }) => NameBinding::ConfiguredConstant {
                index,
            },
            Some(ValueSymbol::Resource { kind, index }) => NameBinding::Resource { kind, index },
            Some(ValueSymbol::RoomInstance { id }) => NameBinding::RoomInstance { id },
            Some(ValueSymbol::Script { index }) => NameBinding::Script { index },
            Some(ValueSymbol::Enum { index }) => NameBinding::Enum { index },
            None => match self.slot(id) {
                Some(slot) => NameBinding::LocalVariable { slot: slot as usize },
                None => if self.globals.contains(id) {
                    NameBinding::GlobalVariable
                } else if info.builtin_variable {
                    NameBinding::BuiltinVariable
                } else {
                    NameBinding::InstanceVariable
                },
            },
        }
    }

    /// What a member stands for.
    pub open spec fn member(self, target: ExprTree, id: SymbolId) -> NameBinding {
        if target.form is Identifier {
            if self.text(target.span) == "global"@ {
                NameBinding::GlobalVariable
            } else if self.text(target.span) == "local"@ {
                match self.slot(id) {
                    Some(slot) => NameBinding::LocalVariable { slot: slot as usize },
                    None => NameBinding::InstanceVariable,
                }
            } else {
                let enum_symbol = self.symbol(target.span);
                match self.table.enumeration(enum_symbol) {
                    Some(info) => match info.member(id) {
                        Some(index) => NameBinding::EnumMember {
                            enum_symbol,
                            member_index: index as usize,
                        },
                        None => NameBinding::InstanceVariable,
                    },
                    None => NameBinding::InstanceVariable,
                }
            }
        } else {
            NameBinding::InstanceVariable
        }
    }
}

/// What is resolved so far: the names, and what is wrong.
pub struct Resolved {
    pub names: Seq<NameResolution>,
    pub errors: Seq<Report>,
}

impl Resolved {
    /// What is resolved with another name.
    pub open spec fn with_name(
        self,
        symbol: SymbolId,
        binding: NameBinding,
        access: NameAccess,
        span: Span,
    ) -> Resolved {
        Resolved {
            names: self.names.push(NameResolution { symbol, binding, access, span }),
            ..self
        }
    }

    /// What is resolved with another error if a condition holds.
    pub open spec fn with_error(
        self,
        condition: bool,
        span: Span,
        message: Seq<char>,
    ) -> Resolved {
        if condition {
            Resolved { errors: self.errors.push(Report { message, span }), ..self }
        } else {
            self
        }
    }
}

/// What is resolved with a name that stands alone.
pub open spec fn with_identifier(
    state: Resolved,
    scope: Scope,
    span: Span,
    access: NameAccess,
) -> Resolved {
    let id = scope.symbol(span);
    let binding = scope.value_or_variable(id);
    state.with_error(
        is_write(access) && !is_writable(binding),
        span,
        "cannot assign to "@ + scope.text(span),
    ).with_name(id, binding, access, span)
}

/// What is resolved with a name that is called.
pub open spec fn with_callee(state: Resolved, scope: Scope, span: Span) -> Resolved {
    let id = scope.symbol(span);
    let callable = scope.table.known(id).callable;
    let binding = match callable {
        Some(CallableSymbol::BuiltinFunction) => NameBinding::BuiltinFunction,
        Some(CallableSymbol::ExtensionFunction { id }) => NameBinding::ExtensionFunction { id },
        Some(CallableSymbol::Script { index }) => NameBinding::Script { index },
        None => scope.value_or_variable(id),
    };
    state.with_error(
        callable is None,
        span,
        "unknown function "@ + scope.text(span),
    ).with_name(id, binding, NameAccess::Call, span)
}

/// What is resolved with the name of a member.
pub open spec fn with_member(
    state: Resolved,
    scope: Scope,
    target: ExprTree,
    name: Span,
    access: NameAccess,
) -> Resolved {
    let id = scope.symbol(name);
    let binding = scope.member(target, id);
    state.with_error(
        is_write(access) && !is_writable(binding),
        name,
        "cannot assign to "@ + scope.text(name),
    ).with_name(id, binding, access, name)
}

/// What is resolved with an expression.
pub open spec fn with_expr(
    state: Resolved,
    scope: Scope,
    value: ExprTree,
    access: NameAccess,
) -> Resolved
    decreases value,
{
    match value.form {
        ExprForm::Identifier => with_identifier(state, scope, value.span, access),
        ExprForm::Number => state,
        ExprForm::String => state,
        ExprForm::Group(inner) => with_expr(state, scope, *inner, access),
        ExprForm::Array(values) => with_exprs(state, scope, values),
        ExprForm::Unary { op, value } => with_expr(
            state,
            scope,
            *value,
            if op is PreIncrement || op is PreDecrement {
                NameAccess::ReadWrite
            } else {
                NameAccess::Read
            },
        ),
        ExprForm::Binary { left, right, .. } => with_expr(
            with_expr(state, scope, *left, NameAccess::Read),
            scope,
            *right,
            NameAccess::Read,
        ),
        ExprForm::Conditional { condition, then_value, else_value } => with_expr(
            with_expr(
                with_expr(state, scope, *condition, NameAccess::Read),
                scope,
                *then_value,
                NameAccess::Read,
            ),
            scope,
            *else_value,
            NameAccess::Read,
        ),
        ExprForm::Assign { op, target, value } => with_expr(
            with_expr(
                state,
                scope,
                *target,
                if op is Assign {
                    NameAccess::Write
                } else {
                    NameAccess::ReadWrite
                },
            ),
            scope,
            *value,
            NameAccess::Read,
        ),
        ExprForm::Call { callee, arguments } => with_exprs(
            if callee.form is Identifier {
                with_callee(state, scope, callee.span)
            } else {
                with_expr(state, scope, *callee, NameAccess::Read)
            },
            scope,
            arguments,
        ),
        ExprForm::Index { target, indices, .. } => with_exprs(
            with_expr(state, scope, *target, access),
            scope,
            indices,
        ),
        ExprForm::Member { target, name } => with_member(
            with_expr(state, scope, *target, NameAccess::Read),
            scope,
            *target,
            name,
            access,
        ),
        ExprForm::Postfix { target, .. } => with_expr(
            state,
            scope,
            *target,
            NameAccess::ReadWrite,
        ),
    }
}

/// What is resolved with a list of expressions.
pub open spec fn with_exprs(state: Resolved, scope: Scope, values: Seq<ExprTree>) -> Resolved
    decreases values,
{
    if values.len() == 0 {
        state
    } else {
        with_expr(
            with_exprs(state, scope, values.drop_last()),
            scope,
            values.last(),
            NameAccess::Read,
        )
    }
}

/// What is resolved with an optional expression.
pub open spec fn with_option(state: Resolved, scope: Scope, value: Option<ExprTree>) -> Resolved {
    match value {
        Some(value) => with_expr(state, scope, value, NameAccess::Read),
        None => state,
    }
}

/// What is resolved with a declaration.
pub open spec fn with_declaration(
    state: Resolved,
    scope: Scope,
    global: bool,
    declaration: VarTree,
) -> Resolved {
    let id = scope.symbol(declaration.name);
    let info = scope.table.known(id);
    let binding = if global {
        NameBinding::GlobalVariable
    } else {
        NameBinding::LocalVariable {
            slot: match scope.slot(id) {
                Some(slot) => slot as usize,
                None => 0,
            },
        }
    };
    with_option(
        state.with_error(
            info.value is Some || info.callable is Some,
            declaration.name,
            scope.text(declaration.name)
                + " is a constant, resource, script, or function name"@,
        ).with_name(id, binding, NameAccess::Declare, declaration.name),
        scope,
        declaration.value,
    )
}

/// What is resolved with a list of declarations.
pub open spec fn with_declarations(
    state: Resolved,
    scope: Scope,
    global: bool,
    declarations: Seq<VarTree>,
) -> Resolved
    decreases declarations.len(),
{
    if declarations.len() == 0 {
        state
    } else {
        with_declaration(
            with_declarations(state, scope, global, declarations.drop_last()),
            scope,
            global,
            declarations.last(),
        )
    }
}

/// What is resolved with the members of an enumeration.
pub open spec fn with_members(
    state: Resolved,
    scope: Scope,
    enum_symbol: SymbolId,
    members: Seq<VarTree>,
) -> Resolved
    decreases members.len(),
{
    if members.len() == 0 {
        state
    } else {
        let member = members.last();
        let id = scope.symbol(member.name);
        let member_index = match scope.table.enumeration(enum_symbol) {
            Some(info) => match info.member(id) {
                Some(index) => index as usize,
                None => 0,
            },
            None => 0,
        };
        with_option(
            with_members(state, scope, enum_symbol, members.drop_last()).with_name(
                id,
                NameBinding::EnumMember { enum_symbol, member_index },
                NameAccess::Declare,
                member.name,
            ),
            scope,
            member.value,
        )
    }
}

/// What is resolved with a statement.
pub open spec fn with_stmt(state: Resolved, scope: Scope, statement: StmtTree) -> Resolved
    decreases statement,
{
    match statement.form {
        StmtForm::Empty => state,
        StmtForm::Default => state,
        StmtForm::Exit => state,
        StmtForm::Break => state,
        StmtForm::Continue => state,
        StmtForm::Block(statements) => with_stmts(state, scope, statements),
        StmtForm::Var { global, declarations } => with_declarations(
            state,
            scope,
            global,
            declarations,
        ),
        StmtForm::If { condition, then_branch, else_branch } => {
            let after = with_stmt(
                with_expr(state, scope, condition, NameAccess::Read),
                scope,
                *then_branch,
            );
            match else_branch {
                Some(branch) => with_stmt(after, scope, *branch),
                None => after,
            }
        },
        StmtForm::While { condition, body } => with_stmt(
            with_expr(state, scope, condition, NameAccess::Read),
            scope,
            *body,
        ),
        StmtForm::DoUntil { body, condition } => with_expr(
            with_stmt(state, scope, *body),
            scope,
            condition,
            NameAccess::Read,
        ),
        StmtForm::For { initializer, condition, step, body } => {
            let before = match initializer {
                Some(initializer) => with_stmt(state, scope, *initializer),
                None => state,
            };
            with_stmt(
                with_option(with_option(before, scope, condition), scope, step),
                scope,
                *body,
            )
        },
        StmtForm::Repeat { count, body } => with_stmt(
            with_expr(state, scope, count, NameAccess::Read),
            scope,
            *body,
        ),
        StmtForm::With { target, body } => with_stmt(
            with_expr(state, scope, target, NameAccess::Read),
            scope,
            *body,
        ),
        StmtForm::Switch { value, body } => with_stmt(
            with_expr(state, scope, value, NameAccess::Read),
            scope,
            *body,
        ),
        StmtForm::Case(value) => with_expr(state, scope, value, NameAccess::Read),
        StmtForm::Return(value) => with_option(state, scope, value),
        StmtForm::Enum { name, members } => {
            let enum_symbol = scope.symbol(name);
            let index = match scope.table.enumeration(enum_symbol) {
                Some(info) => info.index as usize,
                None => 0,
            };
            with_members(
                state.with_name(
                    enum_symbol,
                    NameBinding::Enum { index },
                    NameAccess::Declare,
                    name,
                ),
                scope,
                enum_symbol,
                members,
            )
        },
        StmtForm::Expr(value) => with_expr(state, scope, value, NameAccess::Read),
    }
}

/// What is resolved with a list of statements.
pub open spec fn with_stmts(state: Resolved, scope: Scope, statements: Seq<StmtTree>) -> Resolved
    decreases statements,
{
    if statements.len() == 0 {
        state
    } else {
        with_stmt(
            with_stmts(state, scope, statements.drop_last()),
            scope,
            statements.last(),
        )
    }
}

/// The local variables with those that a statement declares.
pub open spec fn with_locals(
    locals: Seq<SymbolId>,
    table: SymbolTable,
    source: Seq<char>,
    statement: StmtTree,
) -> Seq<SymbolId>
    decreases statement,
{
    match statement.form {
        StmtForm::Var { global: false, declarations } => with_numbers(
            locals,
            table,
            source,
            declarations,
        ),
        StmtForm::Block(statements) => with_all_locals(locals, table, source, statements),
        StmtForm::If { then_branch, else_branch, .. } => {
            let after = with_locals(locals, table, source, *then_branch);
            match else_branch {
                Some(branch) => with_locals(after, table, source, *branch),
                None => after,
            }
        },
        StmtForm::While { body, .. } => with_locals(locals, table, source, *body),
        StmtForm::DoUntil { body, .. } => with_locals(locals, table, source, *body),
        StmtForm::Repeat { body, .. } => with_locals(locals, table, source, *body),
        StmtForm::With { body, .. } => with_locals(locals, table, source, *body),
        StmtForm::Switch { body, .. } => with_locals(locals, table, source, *body),
        StmtForm::For { initializer, body, .. } => {
            let before = match initializer {
                Some(initializer) => with_locals(locals, table, source, *initializer),
                None => locals,
            };
            with_locals(before, table, source, *body)
        },
        _ => locals,
    }
}

/// The local variables with those that a list of statements declares.
pub open spec fn with_all_locals(
    locals: Seq<SymbolId>,
    table: SymbolTable,
    source: Seq<char>,
    statements: Seq<StmtTree>,
) -> Seq<SymbolId>
    decreases statements,
{
    if statements.len() == 0 {
        locals
    } else {
        with_locals(
            with_all_locals(locals, table, source, statements.drop_last()),
            table,
            source,
            statements.last(),
        )
    }
}

/// The scope of a unit: its local variables are those that it declares
/// anywhere.
pub open spec fn unit_scope(
    table: SymbolTable,
    globals: Seq<SymbolId>,
    source: Seq<char>,
    statements: Seq<StmtTree>,
) -> Scope {
    Scope { table, globals, locals: with_all_locals(seq![], table, source, statements), source }
}

/// The names of a unit, resolved.
pub open spec fn resolved_unit(
    table: SymbolTable,
    globals: Seq<SymbolId>,
    source: Seq<char>,
    statements: Seq<StmtTree>,
) -> Resolved {
    with_stmts(
        Resolved { names: seq![], errors: seq![] },
        unit_scope(table, globals, source, statements),
        statements,
    )
}

/// A message about a name.
#[derive(Debug, Clone, PartialEq, Eq)]
pub struct SemanticDiagnostic {
    pub kind: CodeKind,
    pub name: String,
    pub source: String,
    pub span: Span,
    pub message: String,
}

impl View for SemanticDiagnostic {
    type V = CodeReport;

    open spec fn view(&self) -> CodeReport {
        CodeReport {
            kind: self.kind,
            name: self.name@,
            source: self.source@,
            report: Report { message: self.message@, span: self.span },
        }
    }
}

/// What a list of diagnostics stands for.
pub open spec fn semantic_reports(diagnostics: Seq<SemanticDiagnostic>) -> Seq<CodeReport> {
    diagnostics.map_values(|diagnostic: SemanticDiagnostic| diagnostic@)
}

impl SemanticDiagnostic {
    /// Returns the message behind its place, kind and name.
    pub fn text(&self) -> (text: String)
        ensures
            text@ == self.source@ + ":"@ + digits(self.span.line as nat, 10) + ":"@ + digits(
                self.span.column as nat,
                10,
            ) + ": "@ + kind_name(self.kind) + " "@ + self.name@ + ": "@ + self.message@,
    {
        let mut text = self.source.clone();
        text.append(":");
        let line = decimal(self.span.line as u64);
        text.append(line.as_str());
        text.append(":");
        let column = decimal(self.span.column as u64);
        text.append(column.as_str());
        text.append(": ");
        text.append(self.kind.text());
        text.append(" ");
        text.append(self.name.as_str());
        text.append(": ");
        text.append(self.message.as_str());
        text
    }
}

/// What the resolution of a unit found.
#[derive(Debug)]
pub struct ResolveResult {
    pub names: Vec<NameResolution>,
    pub locals: Vec<SymbolId>,
    pub errors: Vec<SemanticDiagnostic>,
}

/// Resolves the names of a unit.
pub struct Resolver<'a> {
    symbols: &'a Symbols,
    globals: &'a Vec<SymbolId>,
    unit: &'a CodeUnit,
    program: &'a Program,
    locals: Vec<SymbolId>,
    names: Vec<NameResolution>,
    errors: Vec<SemanticDiagnostic>,
}

/// The errors of a unit as reports about its code.
pub open spec fn plain_reports(diagnostics: Seq<SemanticDiagnostic>) -> Seq<Report> {
    diagnostics.map_values(|diagnostic: SemanticDiagnostic| diagnostic@.report)
}

impl<'a> Resolver<'a> {
    spec fn scope(&self) -> Scope {
        Scope {
            table: self.symbols@,
            globals: self.globals@,
            locals: self.locals@,
            source: self.unit.code@,
        }
    }

    spec fn state(&self) -> Resolved {
        Resolved { names: self.names@, errors: plain_reports(self.errors@) }
    }

    spec fn reads(&self, spans: Seq<Span>) -> bool {
        &&& self.symbols@.valid()
        &&& readable(self.symbols@.names, self.unit.code@, spans)
    }

    spec fn errors_of_unit(&self) -> bool {
        forall|k: int|
            0 <= k < self.errors@.len() ==> {
                &&& (#[trigger] self.errors@[k]).kind == self.unit.kind
                &&& self.errors@[k].name@ == self.unit.name@
                &&& self.errors@[k].source@ == self.unit.source@
            }
    }

    /// Whether this resolver went on from another.
    spec fn follows(&self, from: &Self) -> bool {
        &&& self.symbols == from.symbols
        &&& self.globals == from.globals
        &&& self.unit == from.unit
        &&& self.program == from.program
        &&& self.locals == from.locals
        &&& from.errors_of_unit() ==> self.errors_of_unit()
    }

    /// What the names of a unit can be looked up in.
    pub closed spec fn names(&self) -> SymbolTable {
        self.symbols@
    }

    /// The global variables.
    pub closed spec fn global_variables(&self) -> Seq<SymbolId> {
        self.globals@
    }

    /// The unit whose names are resolved.
    pub closed spec fn resolved_code(&self) -> CodeUnit {
        *self.unit
    }

    /// The program of the unit.
    pub closed spec fn resolved_program(&self) -> Program {
        *self.program
    }

    /// Whether nothing is resolved yet.
    pub closed spec fn fresh(&self) -> bool {
        self.locals@.len() == 0 && self.names@.len() == 0 && self.errors@.len() == 0
    }

    /// Makes a resolver for a unit.
    pub fn new(
        symbols: &'a Symbols,
        globals: &'a Vec<SymbolId>,
        unit: &'a CodeUnit,
        program: &'a Program,
    ) -> (resolver: Self)
        ensures
            resolver.names() == symbols@,
            resolver.global_variables() == globals@,
            resolver.resolved_code() == *unit,
            resolver.resolved_program() == *program,
            resolver.fresh(),
    {
        Resolver {
            symbols,
            globals,
            unit,
            program,
            locals: Vec::new(),
            names: Vec::new(),
            errors: Vec::new(),
        }
    }

    fn symbol(&self, span: Span) -> (id: SymbolId)
        requires
            in_source(self.unit.code@, span),
            self.symbols@.knows(self.scope().text(span)),
        ensures
            id == self.scope().symbol(span),
            id.0 < self.symbols@.names.len(),
            self.symbols@.names[id.0 as int] == self.scope().text(span),
    {
        number_of(self.symbols, self.unit.code.as_str(), span)
    }

    fn local_slot(&self, id: SymbolId) -> (slot: Option<usize>)
        ensures
            match slot {
                Some(slot) => self.scope().slot(id) == Some(slot as int),
                None => self.scope().slot(id) is None,
            },
    {
        let mut count: usize = self.locals.len();
        while count > 0
            invariant
                count <= self.locals.len(),
                self.scope().slot(id) == last_place(self.locals@, id, count as int),
            decreases count,
        {
            if self.locals[count - 1] == id {
                return Some(count - 1);
            }
            count -= 1;
        }
        None
    }

    fn record(&mut self, symbol: SymbolId, binding: NameBinding, access: NameAccess, span: Span)
        ensures
            final(self).follows(old(self)),
            final(self).state() == old(self).state().with_name(symbol, binding, access, span),
    {
        self.names.push(NameResolution { symbol, binding, access, span });
    }

    fn error(&mut self, span: Span, message: String)
        ensures
            final(self).follows(old(self)),
            final(self).state() == old(self).state().with_error(true, span, message@),
    {
        let diagnostic = SemanticDiagnostic {
            kind: self.unit.kind,
            name: self.unit.name.clone(),
            source: self.unit.source.clone(),
            span,
            message,
        };
        let ghost before = self.errors@;
        self.errors.push(diagnostic);
        assert(plain_reports(self.errors@) =~= plain_reports(before).push(diagnostic@.report));
    }

    fn value_or_variable(&self, id: SymbolId) -> (binding: NameBinding)
        requires
            self.symbols@.valid(),
            id.0 < self.symbols@.names.len(),
        ensures
            binding == self.scope().value_or_variable(id),
    {
        let info = self.symbols.info(id);
        match info.value {
            Some(ValueSymbol::BuiltinConstant) => NameBinding::BuiltinConstant,
            Some(ValueSymbol::ConfiguredConstant { index, .. }) => NameBinding::ConfiguredConstant {
                index,
            },
            Some(ValueSymbol::Resource { kind, index }) => NameBinding::Resource { kind, index },
            Some(ValueSymbol::RoomInstance { id }) => NameBinding::RoomInstance { id },
            Some(ValueSymbol::Script { index }) => NameBinding::Script { index },
            Some(ValueSymbol::Enum { index }) => NameBinding::Enum { index },
            None => match self.local_slot(id) {
                Some(slot) => NameBinding::LocalVariable { slot },
                None => if holds_number(self.globals, id) {
                    NameBinding::GlobalVariable
                } else if info.builtin_variable {
                    NameBinding::BuiltinVariable
                } else {
                    NameBinding::InstanceVariable
                },
            },
        }
    }

    fn assign_message(&self, id: SymbolId) -> (message: String)
        requires
            id.0 < self.symbols@.names.len(),
        ensures
            message@ == "cannot assign to "@ + self.symbols@.names[id.0 as int],
    {
        let mut message = "cannot assign to ".to_owned();
        message.append(self.symbols.name(id));
        message
    }

    fn writes(access: NameAccess) -> (result: bool)
        ensures
            result == is_write(access),
    {
        match access {
            NameAccess::Write => true,
            NameAccess::ReadWrite => true,
            _ => false,
        }
    }

    fn identifier(&mut self, span: Span, access: NameAccess)
        requires
            old(self).reads(seq![span]),
        ensures
            final(self).follows(old(self)),
            final(self).state() == with_identifier(
                old(self).state(),
                old(self).scope(),
                span,
                access,
            ),
    {
        proof {
            lemma_readable_one(self.symbols@.names, self.unit.code@, span);
        }
        let id = self.symbol(span);
        let binding = self.value_or_variable(id);
        if Self::writes(access) && !binding.writable() {
            let message = self.assign_message(id);
            self.error(span, message);
        }
        self.record(id, binding, access, span);
    }

    fn callee(&mut self, span: Span)
        requires
            old(self).reads(seq![span]),
        ensures
            final(self).follows(old(self)),
            final(self).state() == with_callee(old(self).state(), old(self).scope(), span),
    {
        proof {
            lemma_readable_one(self.symbols@.names, self.unit.code@, span);
        }
        let id = self.symbol(span);
        let binding = match self.symbols.info(id).callable {
            Some(CallableSymbol::BuiltinFunction) => NameBinding::BuiltinFunction,
            Some(CallableSymbol::ExtensionFunction { id }) => NameBinding::ExtensionFunction { id },
            Some(CallableSymbol::Script { index }) => NameBinding::Script { index },
            None => {
                let mut message = "unknown function ".to_owned();
                message.append(self.symbols.name(id));
                self.error(span, message);
                self.value_or_variable(id)
            },
        };
        self.record(id, binding, NameAccess::Call, span);
    }

    fn member(&mut self, target: &Expr, name: Span, access: NameAccess)
        requires
            old(self).reads(seq![name]),
            old(self).reads(expr_names(target.tree())),
        ensures
            final(self).follows(old(self)),
            final(self).state() == with_member(
                old(self).state(),
                old(self).scope(),
                target.tree(),
                name,
                access,
            ),
    {
        proof {
            lemma_readable_one(self.symbols@.names, self.unit.code@, name);
            lemma_readable_one(self.symbols@.names, self.unit.code@, target.span);
        }
        let id = self.symbol(name);
        let binding = match &target.kind {
            ExprKind::Identifier => {
                let enum_symbol = self.symbol(target.span);
                let text = self.symbols.name(enum_symbol);
                if same_text(text, "global") {
                    NameBinding::GlobalVariable
                } else if same_text(text, "local") {
                    match self.local_slot(id) {
                        Some(slot) => NameBinding::LocalVariable { slot },
                        None => NameBinding::InstanceVariable,
                    }
                } else {
                    match self.symbols.enum_info(enum_symbol) {
                        Some(info) => match info.member(id) {
                            Some(member_index) => NameBinding::EnumMember {
                                enum_symbol,
                                member_index,
                            },
                            None => NameBinding::InstanceVariable,
                        },
                        None => NameBinding::InstanceVariable,
                    }
                }
            },
            _ => NameBinding::InstanceVariable,
        };
        if Self::writes(access) && !binding.writable() {
            let message = self.assign_message(id);
            self.error(name, message);
        }
        self.record(id, binding, access, name);
    }

    fn expression(&mut self, expression: &Expr, access: NameAccess)
        requires
            old(self).reads(expr_names(expression.tree())),
        ensures
            final(self).follows(old(self)),
            final(self).state() == with_expr(
                old(self).state(),
                old(self).scope(),
                expression.tree(),
                access,
            ),
        decreases expression,
    {
        let ghost names = self.symbols@.names;
        let ghost source = self.unit.code@;
        match &expression.kind {
            ExprKind::Identifier => self.identifier(expression.span, access),
            ExprKind::Number => {},
            ExprKind::String => {},
            ExprKind::Group(value) => self.expression(value, access),
            ExprKind::Array(values) => self.expressions(values),
            ExprKind::Unary { op, value } => {
                let access = match op {
                    UnaryOp::PreIncrement => NameAccess::ReadWrite,
                    UnaryOp::PreDecrement => NameAccess::ReadWrite,
                    _ => NameAccess::Read,
                };
                self.expression(value, access);
            },
            ExprKind::Binary { left, right, .. } => {
                proof {
                    lemma_readable_concat(
                        names,
                        source,
                        expr_names(left.tree()),
                        expr_names(right.tree()),
                    );
                }
                self.expression(left, NameAccess::Read);
                self.expression(right, NameAccess::Read);
            },
            ExprKind::Conditional { condition, then_value, else_value } => {
                proof {
                    let first = expr_names(condition.tree());
                    let second = expr_names(then_value.tree());
                    lemma_readable_concat(
                        names,
                        source,
                        first + second,
                        expr_names(else_value.tree()),
                    );
                    lemma_readable_concat(names, source, first, second);
                }
                self.expression(condition, NameAccess::Read);
                self.expression(then_value, NameAccess::Read);
                self.expression(else_value, NameAccess::Read);
            },
            ExprKind::Assign { op, target, value } => {
                proof {
                    lemma_readable_concat(
                        names,
                        source,
                        expr_names(target.tree()),
                        expr_names(value.tree()),
                    );
                }
                let target_access = match op {
                    AssignOp::Assign => NameAccess::Write,
                    _ => NameAccess::ReadWrite,
                };
                self.expression(target, target_access);
                self.expression(value, NameAccess::Read);
            },
            ExprKind::Call { callee, arguments } => {
                proof {
                    lemma_readable_concat(
                        names,
                        source,
                        expr_names(callee.tree()),
                        exprs_names(expr_trees(arguments@)),
                    );
                }
                match &callee.kind {
                    ExprKind::Identifier => self.callee(callee.span),
                    _ => self.expression(callee, NameAccess::Read),
                }
                self.expressions(arguments);
            },
            ExprKind::Index { target, indices, .. } => {
                proof {
                    lemma_readable_concat(
                        names,
                        source,
                        expr_names(target.tree()),
                        exprs_names(expr_trees(indices@)),
                    );
                }
                self.expression(target, access);
                self.expressions(indices);
            },
            ExprKind::Member { target, name } => {
                proof {
                    lemma_readable_concat(names, source, expr_names(target.tree()), seq![*name]);
                }
                self.expression(target, NameAccess::Read);
                self.member(target, *name, access);
            },
            ExprKind::Postfix { target, .. } => self.expression(target, NameAccess::ReadWrite),
        }
    }

    fn expressions(&mut self, values: &Vec<Expr>)
        requires
            old(self).reads(exprs_names(expr_trees(values@))),
        ensures
            final(self).follows(old(self)),
            final(self).state() == with_exprs(
                old(self).state(),
                old(self).scope(),
                expr_trees(values@),
            ),
        decreases values,
    {
        let ghost trees = expr_trees(values@);
        proof {
            lemma_expr_trees(values@);
            lemma_readable_in_list(self.symbols@.names, self.unit.code@, trees);
        }
        let ghost begin = self.state();
        let ghost scope = self.scope();
        let mut index: usize = 0;
        while index < values.len()
            invariant
                index <= values.len(),
                self.follows(old(self)),
                scope == old(self).scope(),
                scope.table.valid(),
                trees.len() == values@.len(),
                forall|k: int|
                    0 <= k < values@.len() ==> (#[trigger] trees[k]) == values@[k].tree(),
                forall|k: int|
                    0 <= k < trees.len() ==> readable(
                        scope.table.names,
                        scope.source,
                        expr_names(#[trigger] trees[k]),
                    ),
                self.state() == with_exprs(begin, scope, trees.take(index as int)),
            decreases values.len() - index,
        {
            proof {
                assert(decreases_to!(values => values@[index as int]));
                assert(trees[index as int] == values@[index as int].tree());
                assert(trees.take(index + 1).drop_last() =~= trees.take(index as int));
            }
            self.expression(&values[index], NameAccess::Read);
            index += 1;
        }
        assert(trees.take(index as int) =~= trees);
    }

    fn option(&mut self, value: &Option<Expr>)
        requires
            old(self).reads(option_names(optional_tree(*value))),
        ensures
            final(self).follows(old(self)),
            final(self).state() == with_option(
                old(self).state(),
                old(self).scope(),
                optional_tree(*value),
            ),
    {
        if let Some(value) = value {
            self.expression(value, NameAccess::Read);
        }
    }
}

impl<'a> Resolver<'a> {
    fn declaration(&mut self, global: bool, declaration: &VarDecl)
        requires
            old(self).reads(seq![declaration.name]),
            old(self).reads(option_names(declaration.tree().value)),
        ensures
            final(self).follows(old(self)),
            final(self).state() == with_declaration(
                old(self).state(),
                old(self).scope(),
                global,
                declaration.tree(),
            ),
    {
        proof {
            lemma_readable_one(self.symbols@.names, self.unit.code@, declaration.name);
        }
        let id = self.symbol(declaration.name);
        let binding = if global {
            NameBinding::GlobalVariable
        } else {
            NameBinding::LocalVariable {
                slot: match self.local_slot(id) {
                    Some(slot) => slot,
                    None => 0,
                },
            }
        };
        let info = self.symbols.info(id);
        if info.value.is_some() || info.callable.is_some() {
            let mut message = self.symbols.name(id).to_owned();
            message.append(" is a constant, resource, script, or function name");
            self.error(declaration.name, message);
        }
        self.record(id, binding, NameAccess::Declare, declaration.name);
        self.option(&declaration.value);
    }

    fn declarations(&mut self, global: bool, declarations: &Vec<VarDecl>)
        requires
            old(self).reads(vars_names(declaration_trees(declarations@))),
        ensures
            final(self).follows(old(self)),
            final(self).state() == with_declarations(
                old(self).state(),
                old(self).scope(),
                global,
                declaration_trees(declarations@),
            ),
    {
        let ghost trees = declaration_trees(declarations@);
        proof {
            lemma_readable_in_vars(self.symbols@.names, self.unit.code@, trees);
        }
        let ghost begin = self.state();
        let ghost scope = self.scope();
        let mut index: usize = 0;
        while index < declarations.len()
            invariant
                index <= declarations.len(),
                self.follows(old(self)),
                scope == old(self).scope(),
                scope.table.valid(),
                trees == declaration_trees(declarations@),
                forall|k: int|
                    0 <= k < trees.len() ==> in_source(scope.source, (#[trigger] trees[k]).name)
                        && place_from(
                        scope.table.names,
                        span_text(scope.source, trees[k].name),
                        0,
                    ) is Some && readable(
                        scope.table.names,
                        scope.source,
                        option_names(trees[k].value),
                    ),
                self.state() == with_declarations(begin, scope, global, trees.take(index as int)),
            decreases declarations.len() - index,
        {
            proof {
                assert(trees[index as int] == declarations@[index as int].tree());
                lemma_readable_one(
                    scope.table.names,
                    scope.source,
                    declarations@[index as int].name,
                );
                assert(trees.take(index + 1).drop_last() =~= trees.take(index as int));
            }
            self.declaration(global, &declarations[index]);
            index += 1;
        }
        assert(trees.take(index as int) =~= trees);
    }

    fn members(&mut self, enum_symbol: SymbolId, members: &Vec<EnumMember>)
        requires
            old(self).reads(vars_names(member_trees(members@))),
        ensures
            final(self).follows(old(self)),
            final(self).state() == with_members(
                old(self).state(),
                old(self).scope(),
                enum_symbol,
                member_trees(members@),
            ),
    {
        let ghost trees = member_trees(members@);
        proof {
            lemma_readable_in_vars(self.symbols@.names, self.unit.code@, trees);
        }
        let ghost begin = self.state();
        let ghost scope = self.scope();
        let mut index: usize = 0;
        while index < members.len()
            invariant
                index <= members.len(),
                self.follows(old(self)),
                scope == old(self).scope(),
                scope.table.valid(),
                trees == member_trees(members@),
                forall|k: int|
                    0 <= k < trees.len() ==> in_source(scope.source, (#[trigger] trees[k]).name)
                        && place_from(
                        scope.table.names,
                        span_text(scope.source, trees[k].name),
                        0,
                    ) is Some && readable(
                        scope.table.names,
                        scope.source,
                        option_names(trees[k].value),
                    ),
                self.state() == with_members(
                    begin,
                    scope,
                    enum_symbol,
                    trees.take(index as int),
                ),
            decreases members.len() - index,
        {
            let member = &members[index];
            proof {
                assert(trees[index as int] == member.tree());
                assert(trees.take(index + 1).drop_last() =~= trees.take(index as int));
            }
            let id = self.symbol(member.name);
            let member_index = match self.symbols.enum_info(enum_symbol) {
                Some(info) => match info.member(id) {
                    Some(index) => index,
                    None => 0,
                },
                None => 0,
            };
            self.record(
                id,
                NameBinding::EnumMember { enum_symbol, member_index },
                NameAccess::Declare,
                member.name,
            );
            self.option(&member.value);
            index += 1;
        }
        assert(trees.take(index as int) =~= trees);
    }

    fn statement(&mut self, statement: &Stmt)
        requires
            old(self).reads(stmt_names(statement.tree())),
        ensures
            final(self).follows(old(self)),
            final(self).state() == with_stmt(
                old(self).state(),
                old(self).scope(),
                statement.tree(),
            ),
        decreases statement,
    {
        let ghost names = self.symbols@.names;
        let ghost source = self.unit.code@;
        match &statement.kind {
            StmtKind::Empty => {},
            StmtKind::Default => {},
            StmtKind::Exit => {},
            StmtKind::Break => {},
            StmtKind::Continue => {},
            StmtKind::Block(statements) => self.statements(statements),
            StmtKind::Var { global, declarations } => self.declarations(*global, declarations),
            StmtKind::If { condition, then_branch, else_branch } => {
                proof {
                    let first = expr_names(condition.tree());
                    let second = stmt_names(then_branch.tree());
                    let third = match else_branch {
                        Some(branch) => stmt_names(branch.tree()),
                        None => seq![],
                    };
                    lemma_readable_concat(names, source, first + second, third);
                    lemma_readable_concat(names, source, first, second);
                }
                self.expression(condition, NameAccess::Read);
                self.statement(then_branch);
                if let Some(branch) = else_branch {
                    self.statement(branch);
                }
            },
            StmtKind::While { condition, body } => {
                proof {
                    lemma_readable_concat(names, source, expr_names(condition.tree()), stmt_names(body.tree()));
                }
                self.expression(condition, NameAccess::Read);
                self.statement(body);
            },
            StmtKind::DoUntil { body, condition } => {
                proof {
                    lemma_readable_concat(names, source, stmt_names(body.tree()), expr_names(condition.tree()));
                }
                self.statement(body);
                self.expression(condition, NameAccess::Read);
            },
            StmtKind::For { initializer, condition, step, body } => {
                proof {
                    let first = match initializer {
                        Some(initializer) => stmt_names(initializer.tree()),
                        None => seq![],
                    };
                    let second = option_names(optional_tree(*condition));
                    let third = option_names(optional_tree(*step));
                    lemma_readable_concat(
                        names,
                        source,
                        first + second + third,
                        stmt_names(body.tree()),
                    );
                    lemma_readable_concat(names, source, first + second, third);
                    lemma_readable_concat(names, source, first, second);
                }
                if let Some(initializer) = initializer {
                    self.statement(initializer);
                }
                self.option(condition);
                self.option(step);
                self.statement(body);
            },
            StmtKind::Repeat { count, body } => {
                proof {
                    lemma_readable_concat(names, source, expr_names(count.tree()), stmt_names(body.tree()));
                }
                self.expression(count, NameAccess::Read);
                self.statement(body);
            },
            StmtKind::With { target, body } => {
                proof {
                    lemma_readable_concat(names, source, expr_names(target.tree()), stmt_names(body.tree()));
                }
                self.expression(target, NameAccess::Read);
                self.statement(body);
            },
            StmtKind::Switch { value, body } => {
                proof {
                    lemma_readable_concat(names, source, expr_names(value.tree()), stmt_names(body.tree()));
                }
                self.expression(value, NameAccess::Read);
                self.statement(body);
            },
            StmtKind::Case(value) => self.expression(value, NameAccess::Read),
            StmtKind::Return(value) => self.option(value),
            StmtKind::Enum { name, members } => {
                proof {
                    lemma_readable_concat(
                        names,
                        source,
                        seq![*name],
                        vars_names(member_trees(members@)),
                    );
                    lemma_readable_one(names, source, *name);
                }
                let enum_symbol = self.symbol(*name);
                let index = match self.symbols.enum_info(enum_symbol) {
                    Some(info) => info.index,
                    None => 0,
                };
                self.record(enum_symbol, NameBinding::Enum { index }, NameAccess::Declare, *name);
                self.members(enum_symbol, members);
            },
            StmtKind::Expr(value) => self.expression(value, NameAccess::Read),
        }
    }

    fn statements(&mut self, statements: &Vec<Stmt>)
        requires
            old(self).reads(stmts_names(stmt_trees(statements@))),
        ensures
            final(self).follows(old(self)),
            final(self).state() == with_stmts(
                old(self).state(),
                old(self).scope(),
                stmt_trees(statements@),
            ),
        decreases statements,
    {
        let ghost trees = stmt_trees(statements@);
        proof {
            lemma_stmt_trees(statements@);
            lemma_readable_in_block(self.symbols@.names, self.unit.code@, trees);
        }
        let ghost begin = self.state();
        let ghost scope = self.scope();
        let mut index: usize = 0;
        while index < statements.len()
            invariant
                index <= statements.len(),
                self.follows(old(self)),
                scope == old(self).scope(),
                scope.table.valid(),
                trees.len() == statements@.len(),
                forall|k: int|
                    0 <= k < statements@.len() ==> (#[trigger] trees[k]) == statements@[k].tree(),
                forall|k: int|
                    0 <= k < trees.len() ==> readable(
                        scope.table.names,
                        scope.source,
                        stmt_names(#[trigger] trees[k]),
                    ),
                self.state() == with_stmts(begin, scope, trees.take(index as int)),
            decreases statements.len() - index,
        {
            proof {
                assert(decreases_to!(statements => statements@[index as int]));
                assert(trees[index as int] == statements@[index as int].tree());
                assert(trees.take(index + 1).drop_last() =~= trees.take(index as int));
            }
            self.statement(&statements[index]);
            index += 1;
        }
        assert(trees.take(index as int) =~= trees);
    }

    /// Resolves the names of the unit.
    pub fn run(self) -> (result: ResolveResult)
        requires
            self.fresh(),
            self.names().valid(),
            readable(
                self.names().names,
                self.resolved_code().code@,
                stmts_names(self.resolved_program().tree().statements),
            ),
        ensures
            ({
                let unit = self.resolved_code();
                let statements = self.resolved_program().tree().statements;
                let found = resolved_unit(
                    self.names(),
                    self.global_variables(),
                    unit.code@,
                    statements,
                );
                &&& result.names@ == found.names
                &&& result.locals@ == unit_scope(
                    self.names(),
                    self.global_variables(),
                    unit.code@,
                    statements,
                ).locals
                &&& semantic_reports(result.errors@) == crate::gml::project::unit_reports(
                    unit@,
                    found.errors,
                )
            }),
    {
        let mut resolver = self;
        resolver.locals = collect_locals(
            resolver.symbols,
            resolver.unit.code.as_str(),
            resolver.program,
        );
        assert(resolver.state().names =~= seq![]);
        assert(resolver.state().errors =~= seq![]);
        assert(resolver.locals@ == with_all_locals(
            seq![],
            self.symbols@,
            self.unit.code@,
            self.program.tree().statements,
        ));
        let program = resolver.program;
        resolver.statements(&program.statements);
        proof {
            let unit = resolver.unit@;
            let errors = resolver.errors@;
            let expected = crate::gml::project::unit_reports(unit, plain_reports(errors));
            assert forall|k: int| 0 <= k < errors.len() implies (#[trigger] semantic_reports(
                errors,
            )[k]) == expected[k] by {
                assert(resolver.errors_of_unit());
                assert(errors[k].kind == resolver.unit.kind);
            }
            assert(semantic_reports(errors) =~= expected);
        }
        ResolveResult { names: resolver.names, locals: resolver.locals, errors: resolver.errors }
    }
}

fn collect_locals(symbols: &Symbols, source: &str, program: &Program) -> (locals: Vec<SymbolId>)
    requires
        readable(symbols@.names, source@, stmts_names(program.tree().statements)),
    ensures
        locals@ == with_all_locals(seq![], symbols@, source@, program.tree().statements),
{
    let mut locals: Vec<SymbolId> = Vec::new();
    add_all_locals(&mut locals, symbols, source, &program.statements);
    locals
}

fn add_locals(locals: &mut Vec<SymbolId>, symbols: &Symbols, source: &str, statement: &Stmt)
    requires
        readable(symbols@.names, source@, stmt_names(statement.tree())),
    ensures
        final(locals)@ == with_locals(old(locals)@, symbols@, source@, statement.tree()),
    decreases statement,
{
    let ghost names = symbols@.names;
    match &statement.kind {
        StmtKind::Var { global, declarations } => {
            if !*global {
                declare_globals(symbols, locals, source, declarations);
            }
        },
        StmtKind::Block(statements) => add_all_locals(locals, symbols, source, statements),
        StmtKind::If { condition, then_branch, else_branch } => {
            proof {
                let first = expr_names(condition.tree());
                let second = stmt_names(then_branch.tree());
                let third = match else_branch {
                    Some(branch) => stmt_names(branch.tree()),
                    None => seq![],
                };
                lemma_readable_concat(names, source@, first + second, third);
                lemma_readable_concat(names, source@, first, second);
            }
            add_locals(locals, symbols, source, then_branch);
            if let Some(branch) = else_branch {
                add_locals(locals, symbols, source, branch);
            }
        },
        StmtKind::While { condition, body } => {
            proof {
                lemma_readable_concat(
                    names,
                    source@,
                    expr_names(condition.tree()),
                    stmt_names(body.tree()),
                );
            }
            add_locals(locals, symbols, source, body);
        },
        StmtKind::DoUntil { body, condition } => {
            proof {
                lemma_readable_concat(
                    names,
                    source@,
                    stmt_names(body.tree()),
                    expr_names(condition.tree()),
                );
            }
            add_locals(locals, symbols, source, body);
        },
        StmtKind::Repeat { count, body } => {
            proof {
                lemma_readable_concat(
                    names,
                    source@,
                    expr_names(count.tree()),
                    stmt_names(body.tree()),
                );
            }
            add_locals(locals, symbols, source, body);
        },
        StmtKind::With { target, body } => {
            proof {
                lemma_readable_concat(
                    names,
                    source@,
                    expr_names(target.tree()),
                    stmt_names(body.tree()),
                );
            }
            add_locals(locals, symbols, source, body);
        },
        StmtKind::Switch { value, body } => {
            proof {
                lemma_readable_concat(
                    names,
                    source@,
                    expr_names(value.tree()),
                    stmt_names(body.tree()),
                );
            }
            add_locals(locals, symbols, source, body);
        },
        StmtKind::For { initializer, condition, step, body } => {
            proof {
                let first = match initializer {
                    Some(initializer) => stmt_names(initializer.tree()),
                    None => seq![],
                };
                let second = option_names(optional_tree(*condition));
                let third = option_names(optional_tree(*step));
                lemma_readable_concat(
                    names,
                    source@,
                    first + second + third,
                    stmt_names(body.tree()),
                );
                lemma_readable_concat(names, source@, first + second, third);
                lemma_readable_concat(names, source@, first, second);
            }
            if let Some(initializer) = initializer {
                add_locals(locals, symbols, source, initializer);
            }
            add_locals(locals, symbols, source, body);
        },
        _ => {},
    }
}

fn add_all_locals(
    locals: &mut Vec<SymbolId>,
    symbols: &Symbols,
    source: &str,
    statements: &Vec<Stmt>,
)
    requires
        readable(symbols@.names, source@, stmts_names(stmt_trees(statements@))),
    ensures
        final(locals)@ == with_all_locals(
            old(locals)@,
            symbols@,
            source@,
            stmt_trees(statements@),
        ),
    decreases statements,
{
    let ghost trees = stmt_trees(statements@);
    let ghost begin = locals@;
    proof {
        lemma_stmt_trees(statements@);
        lemma_readable_in_block(symbols@.names, source@, trees);
    }
    let mut index: usize = 0;
    while index < statements.len()
        invariant
            index <= statements.len(),
            trees.len() == statements@.len(),
            forall|k: int|
                0 <= k < statements@.len() ==> (#[trigger] trees[k]) == statements@[k].tree(),
            forall|k: int|
                0 <= k < trees.len() ==> readable(
                    symbols@.names,
                    source@,
                    stmt_names(#[trigger] trees[k]),
                ),
            locals@ == with_all_locals(begin, symbols@, source@, trees.take(index as int)),
        decreases statements.len() - index,
    {
        proof {
            assert(decreases_to!(statements => statements@[index as int]));
            assert(trees[index as int] == statements@[index as int].tree());
            assert(trees.take(index + 1).drop_last() =~= trees.take(index as int));
        }
        add_locals(locals, symbols, source, &statements[index]);
        index += 1;
    }
    assert(trees.take(index as int) =~= trees);
}

/// A unit of code with what its names stand for.
#[derive(Debug)]
pub struct AnalyzedUnit {
    pub kind: CodeKind,
    pub name: String,
    pub vm_name: String,
    pub source: String,
    pub code: String,
    pub program: Program,
    pub names: Vec<NameResolution>,
    pub locals: Vec<SymbolId>,
}

/// How much a project has of what the analysis counts.
#[derive(Debug, Clone, Copy, PartialEq, Eq, Structural)]
pub struct SemanticSummary {
    pub syntax: CheckSummary,
    pub symbols: usize,
    pub names: usize,
    pub locals: usize,
    pub global_variables: usize,
}

/// The code of a project with what its names stand for.
#[derive(Debug)]
pub struct ProjectAnalysis {
    pub symbols: Symbols,
    pub units: Vec<AnalyzedUnit>,
    pub summary: SemanticSummary,
}

/// What is wrong with the code of a project.
#[derive(Debug, Clone, PartialEq, Eq)]
pub enum AnalysisDiagnostic {
    Syntax(CodeDiagnostic),
    Dnd(DndDiagnostic),
    Semantic(SemanticDiagnostic),
}

/// An [`AnalysisDiagnostic`] as sequences of characters.
pub enum AnalysisReport {
    Syntax(CodeReport),
    Dnd(DndReport),
    Semantic(CodeReport),
}

impl View for AnalysisDiagnostic {
    type V = AnalysisReport;

    open spec fn view(&self) -> AnalysisReport {
        match self {
            AnalysisDiagnostic::Syntax(error) => AnalysisReport::Syntax(error@),
            AnalysisDiagnostic::Dnd(error) => AnalysisReport::Dnd(error@),
            AnalysisDiagnostic::Semantic(error) => AnalysisReport::Semantic(error@),
        }
    }
}

/// What a list of diagnostics stands for.
pub open spec fn analysis_reports(diagnostics: Seq<AnalysisDiagnostic>) -> Seq<AnalysisReport> {
    diagnostics.map_values(|diagnostic: AnalysisDiagnostic| diagnostic@)
}

/// The message of a report about the code of a unit.
pub open spec fn code_report_text(report: CodeReport) -> Seq<char> {
    report.source + ":"@ + digits(report.report.span.line as nat, 10) + ":"@ + digits(
        report.report.span.column as nat,
        10,
    ) + ": "@ + kind_name(report.kind) + " "@ + report.name + ": "@ + report.report.message
}

/// The message of a report about a list of actions.
pub open spec fn dnd_report_text(report: DndReport) -> Seq<char> {
    report.source + ": "@ + kind_name(report.kind) + " "@ + report.name + ": "@ + ("action "@
        + digits(report.error.action as nat, 10) + ": "@ + report.error.message)
}

impl AnalysisDiagnostic {
    /// Returns the message.
    pub fn text(&self) -> (text: String)
        ensures
            text@ == match self@ {
                AnalysisReport::Syntax(report) => code_report_text(report),
                AnalysisReport::Dnd(report) => dnd_report_text(report),
                AnalysisReport::Semantic(report) => code_report_text(report),
            },
    {
        match self {
            AnalysisDiagnostic::Syntax(error) => error.text(),
            AnalysisDiagnostic::Dnd(error) => error.text(),
            AnalysisDiagnostic::Semantic(error) => error.text(),
        }
    }
}

/// The program of a unit that can be parsed.
pub open spec fn program_of(unit: UnitText) -> ProgramTree {
    parsed(unit.code)->Ok_0
}

/// The names in the program of a unit.
pub open spec fn unit_names(unit: UnitText) -> Seq<Span> {
    stmts_names(program_of(unit).statements)
}

/// The table with the generated scripts among the first `count` units.
pub open spec fn with_generated_scripts(
    table: SymbolTable,
    units: Seq<UnitText>,
    count: int,
) -> SymbolTable
    decreases count,
{
    if count <= 0 {
        table
    } else {
        let before = with_generated_scripts(table, units, count - 1);
        match units[count - 1].kind {
            CodeKind::GeneratedScript { index } => with_entry(
                before,
                Entry::Script { name: units[count - 1].name, index },
            ),
            _ => before,
        }
    }
}

/// The table with the names in the first `count` units.
pub open spec fn with_unit_names(
    table: SymbolTable,
    units: Seq<UnitText>,
    count: int,
) -> SymbolTable
    decreases count,
{
    if count <= 0 {
        table
    } else {
        let unit = units[count - 1];
        let spans = unit_names(unit);
        with_names(
            with_unit_names(table, units, count - 1),
            unit.code,
            spans,
            spans.len() as int,
        )
    }
}

/// What is declared with the first `count` units.
pub open spec fn with_unit_declarations(
    state: Declared,
    units: Seq<UnitText>,
    count: int,
) -> Declared
    decreases count,
{
    if count <= 0 {
        state
    } else {
        let unit = units[count - 1];
        with_statements(
            with_unit_declarations(state, units, count - 1),
            unit.code,
            program_of(unit).statements,
        )
    }
}

/// What the units of a project declare.
pub open spec fn project_declarations(
    assets: Assets,
    builtins: Builtins,
    units: Seq<UnitText>,
) -> Declared {
    let count = units.len() as int;
    let defined = with_entries(empty_table(), project_entries(assets, builtins));
    let table = with_unit_names(with_generated_scripts(defined, units, count), units, count);
    with_unit_declarations(Declared { table, globals: seq![] }, units, count)
}

/// The names of a unit, resolved by what the project declares.
pub open spec fn resolution(declared: Declared, unit: UnitText) -> Resolved {
    resolved_unit(declared.table, declared.globals, unit.code, program_of(unit).statements)
}

/// The local variables of a unit.
pub open spec fn unit_locals(declared: Declared, unit: UnitText) -> Seq<SymbolId> {
    with_all_locals(seq![], declared.table, unit.code, program_of(unit).statements)
}

/// What is wrong with the names of the first `count` units.
pub open spec fn name_reports(
    declared: Declared,
    units: Seq<UnitText>,
    count: int,
) -> Seq<CodeReport>
    decreases count,
{
    if count <= 0 {
        seq![]
    } else {
        let unit = units[count - 1];
        name_reports(declared, units, count - 1) + crate::gml::project::unit_reports(
            unit,
            resolution(declared, unit).errors,
        )
    }
}

/// The number of names in the first `count` units.
pub open spec fn names_in_units(declared: Declared, units: Seq<UnitText>, count: int) -> nat
    decreases count,
{
    if count <= 0 {
        0
    } else {
        names_in_units(declared, units, count - 1) + resolution(
            declared,
            units[count - 1],
        ).names.len()
    }
}

/// The number of local variables in the first `count` units.
pub open spec fn locals_in_units(declared: Declared, units: Seq<UnitText>, count: int) -> nat
    decreases count,
{
    if count <= 0 {
        0
    } else {
        locals_in_units(declared, units, count - 1) + unit_locals(
            declared,
            units[count - 1],
        ).len()
    }
}

/// The units of a project with their macros expanded.
pub open spec fn expanded_units(assets: Assets) -> Seq<UnitText> {
    let table = crate::gml::macros::definitions(assets.constants@);
    code_units(assets).map_values(
        |unit: UnitText| crate::gml::project::expanded_unit(table, unit),
    )
}

/// What is wrong with the code of a project: with its actions, or else with
/// its macros, its syntax or its names.
pub open spec fn analysis_faults(assets: Assets, builtins: Builtins) -> Seq<AnalysisReport> {
    let actions = collected_actions(assets).faults;
    let plain = code_units(assets);
    let table = crate::gml::macros::definitions(assets.constants@);
    let units = expanded_units(assets);
    let macros = crate::gml::project::macro_reports(table, plain, plain.len() as int);
    let syntax = crate::gml::project::syntax_reports(units, units.len() as int);
    if actions.len() > 0 {
        actions.map_values(|report: DndReport| AnalysisReport::Dnd(report))
    } else if macros.len() > 0 {
        macros.map_values(|report: CodeReport| AnalysisReport::Syntax(report))
    } else if syntax.len() > 0 {
        syntax.map_values(|report: CodeReport| AnalysisReport::Syntax(report))
    } else {
        name_reports(
            project_declarations(assets, builtins, units),
            units,
            units.len() as int,
        ).map_values(|report: CodeReport| AnalysisReport::Semantic(report))
    }
}

/// Whether an analyzed unit is a unit with its program, names and locals.
pub open spec fn is_analyzed(
    analyzed: AnalyzedUnit,
    unit: UnitText,
    declared: Declared,
) -> bool {
    &&& analyzed.kind == unit.kind
    &&& analyzed.name@ == unit.name
    &&& analyzed.vm_name@ == unit.vm_name
    &&& analyzed.source@ == unit.source
    &&& analyzed.code@ == unit.code
    &&& analyzed.program.tree() == program_of(unit)
    &&& program_spanned(unit.code, program_of(unit))
    &&& analyzed.names@ == resolution(declared, unit).names
    &&& analyzed.locals@ == unit_locals(declared, unit)
}

/// Whether an analysis is that of the units of a project.
pub open spec fn is_analysis(
    analysis: ProjectAnalysis,
    units: Seq<UnitText>,
    declared: Declared,
) -> bool {
    let count = units.len() as int;
    let summary = analysis.summary;
    &&& analysis.symbols@ == declared.table
    &&& analysis.symbols@.valid()
    &&& analysis.units@.len() == units.len()
    &&& forall|k: int|
        0 <= k < count ==> is_analyzed(#[trigger] analysis.units@[k], units[k], declared)
    &&& summary.syntax.units == count
    &&& summary.syntax.tokens == machine_count(crate::gml::project::tokens_in_units(units, count))
    &&& summary.syntax.statements == machine_count(
        crate::gml::project::statements_in_units(units, count),
    )
    &&& summary.symbols == declared.table.names.len()
    &&& summary.names == machine_count(names_in_units(declared, units, count))
    &&& summary.locals == machine_count(locals_in_units(declared, units, count))
    &&& summary.global_variables == declared.globals.len()
}

fn dnd_errors(errors: Vec<DndDiagnostic>) -> (result: Vec<AnalysisDiagnostic>)
    ensures
        analysis_reports(result@) == dnd_reports(errors@).map_values(
            |report: DndReport| AnalysisReport::Dnd(report),
        ),
{
    let ghost all = errors@;
    let mut errors = errors;
    let mut reversed: Vec<AnalysisDiagnostic> = Vec::new();
    while errors.len() > 0
        invariant
            errors@.len() <= all.len(),
            errors@ == all.take(errors@.len() as int),
            reversed@.len() == all.len() - errors@.len(),
            forall|k: int|
                0 <= k < reversed@.len() ==> (#[trigger] reversed@[k])@ == AnalysisReport::Dnd(
                    all[all.len() - 1 - k]@,
                ),
        decreases errors.len(),
    {
        let ghost before = errors@;
        match errors.pop() {
            Some(error) => {
                assert(error == all[before.len() - 1]);
                assert(errors@ =~= all.take(errors@.len() as int));
                reversed.push(AnalysisDiagnostic::Dnd(error));
            },
            None => {},
        }
    }
    let result = backwards(reversed);
    assert(analysis_reports(result@) =~= dnd_reports(all).map_values(
        |report: DndReport| AnalysisReport::Dnd(report),
    ));
    result
}

fn syntax_errors(errors: Vec<CodeDiagnostic>) -> (result: Vec<AnalysisDiagnostic>)
    ensures
        analysis_reports(result@) == code_reports(errors@).map_values(
            |report: CodeReport| AnalysisReport::Syntax(report),
        ),
{
    let ghost all = errors@;
    let mut errors = errors;
    let mut reversed: Vec<AnalysisDiagnostic> = Vec::new();
    while errors.len() > 0
        invariant
            errors@.len() <= all.len(),
            errors@ == all.take(errors@.len() as int),
            reversed@.len() == all.len() - errors@.len(),
            forall|k: int|
                0 <= k < reversed@.len() ==> (#[trigger] reversed@[k])@ == AnalysisReport::Syntax(
                    all[all.len() - 1 - k]@,
                ),
        decreases errors.len(),
    {
        let ghost before = errors@;
        match errors.pop() {
            Some(error) => {
                assert(error == all[before.len() - 1]);
                assert(errors@ =~= all.take(errors@.len() as int));
                reversed.push(AnalysisDiagnostic::Syntax(error));
            },
            None => {},
        }
    }
    let result = backwards(reversed);
    assert(analysis_reports(result@) =~= code_reports(all).map_values(
        |report: CodeReport| AnalysisReport::Syntax(report),
    ));
    result
}

fn backwards<T>(items: Vec<T>) -> (result: Vec<T>)
    ensures
        result@ == items@.reverse(),
{
    let ghost all = items@;
    let mut items = items;
    let mut result: Vec<T> = Vec::new();
    while items.len() > 0
        invariant
            items@.len() <= all.len(),
            items@ == all.take(items@.len() as int),
            result@.len() == all.len() - items@.len(),
            forall|k: int|
                0 <= k < result@.len() ==> (#[trigger] result@[k]) == all[all.len() - 1 - k],
        decreases items.len(),
    {
        let ghost before = items@;
        match items.pop() {
            Some(item) => {
                assert(item == all[before.len() - 1]);
                assert(items@ =~= all.take(items@.len() as int));
                result.push(item);
            },
            None => {},
        }
    }
    assert(result@ =~= all.reverse());
    result
}

/// Whether the programs of units are there with their spans in the code.
spec fn are_programs(programs: Seq<Program>, units: Seq<UnitText>) -> bool {
    &&& programs.len() == units.len()
    &&& forall|k: int|
        0 <= k < units.len() ==> {
            &&& (#[trigger] programs[k]).tree() == program_of(units[k])
            &&& program_spanned(units[k].code, program_of(units[k]))
        }
}

/// The programs of units, or what is wrong with their syntax.
fn parse_units(units: &Vec<CodeUnit>) -> (result: Result<Vec<Program>, Vec<CodeDiagnostic>>)
    ensures
        ({
            let texts = unit_texts(units@);
            let faults = crate::gml::project::syntax_reports(texts, texts.len() as int);
            match result {
                Ok(programs) => faults.len() == 0 && are_programs(programs@, texts) && forall|k: int|
                    0 <= k < texts.len() ==> parsed((#[trigger] texts[k]).code) is Ok,
                Err(errors) => errors@.len() > 0 && code_reports(errors@) == faults,
            }
        }),
{
    let ghost texts = unit_texts(units@);
    let mut programs: Vec<Program> = Vec::new();
    let mut errors: Vec<CodeDiagnostic> = Vec::new();
    let mut index: usize = 0;
    assert(code_reports(errors@) =~= seq![]);
    while index < units.len()
        invariant
            index <= units.len(),
            texts == unit_texts(units@),
            code_reports(errors@) == crate::gml::project::syntax_reports(texts, index as int),
            errors@.len() == 0 ==> programs@.len() == index && forall|k: int|
                0 <= k < index ==> {
                    &&& (#[trigger] programs@[k]).tree() == program_of(texts[k])
                    &&& program_spanned(texts[k].code, program_of(texts[k]))
                },
            errors@.len() == 0 ==> forall|k: int|
                0 <= k < index ==> parsed((#[trigger] texts[k]).code) is Ok,
        decreases units.len() - index,
    {
        assert(texts[index as int] == units@[index as int]@);
        let ghost before = code_reports(errors@);
        match parse(units[index].code.as_str()) {
            Ok(program) => {
                programs.push(program);
                assert(before + seq![] =~= before);
            },
            Err(diagnostics) => {
                crate::gml::project::report_all(&mut errors, &units[index], diagnostics);
                proof {
                    lemma_parse_errors(texts[index as int].code);
                    assert(code_reports(errors@).len() == errors@.len());
                }
            },
        }
        index += 1;
    }
    assert(code_reports(errors@).len() == errors@.len());
    if errors.len() > 0 {
        return Err(errors);
    }
    Ok(programs)
}

proof fn lemma_parse_errors(source: Seq<char>)
    ensures
        parsed(source) matches Err(faults) ==> faults.len() > 0,
{
}

/// Whether the names of the first `count` units are numbered.
spec fn all_readable(names: Seq<Seq<char>>, units: Seq<UnitText>, count: int) -> bool {
    forall|k: int|
        0 <= k < count ==> readable(names, (#[trigger] units[k]).code, unit_names(units[k]))
}

fn enter_units(symbols: &mut Symbols, units: &Vec<CodeUnit>, programs: &Vec<Program>)
    requires
        old(symbols)@.valid(),
        are_programs(programs@, unit_texts(units@)),
    ensures
        ({
            let texts = unit_texts(units@);
            let count = texts.len() as int;
            &&& final(symbols)@ == with_unit_names(
                with_generated_scripts(old(symbols)@, texts, count),
                texts,
                count,
            )
            &&& final(symbols)@.valid()
            &&& all_readable(final(symbols)@.names, texts, count)
        }),
{
    let ghost texts = unit_texts(units@);
    let ghost begin = symbols@;
    let mut index: usize = 0;
    while index < units.len()
        invariant
            index <= units.len(),
            texts == unit_texts(units@),
            symbols@.valid(),
            symbols@ == with_generated_scripts(begin, texts, index as int),
        decreases units.len() - index,
    {
        assert(texts[index as int] == units@[index as int]@);
        if let CodeKind::GeneratedScript { index: script } = units[index].kind {
            symbols.add_script(units[index].name.as_str(), script);
        }
        index += 1;
    }
    let ghost middle = symbols@;
    let mut index: usize = 0;
    while index < units.len()
        invariant
            index <= units.len(),
            texts == unit_texts(units@),
            are_programs(programs@, texts),
            symbols@.valid(),
            symbols@ == with_unit_names(middle, texts, index as int),
            all_readable(symbols@.names, texts, index as int),
        decreases units.len() - index,
    {
        assert(texts[index as int] == units@[index as int]@);
        let ghost before = symbols@;
        assert(programs@[index as int].tree() == program_of(texts[index as int]));
        collect_names(symbols, units[index].code.as_str(), &programs[index]);
        proof {
            assert forall|k: int| 0 <= k < index + 1 implies readable(
                symbols@.names,
                (#[trigger] texts[k]).code,
                unit_names(texts[k]),
            ) by {
                if k < index {
                    lemma_within_readable(before, symbols@, texts[k].code, unit_names(texts[k]));
                }
            }
        }
        index += 1;
    }
}

fn declare_units(
    symbols: &mut Symbols,
    units: &Vec<CodeUnit>,
    programs: &Vec<Program>,
) -> (globals: Vec<SymbolId>)
    requires
        old(symbols)@.valid(),
        are_programs(programs@, unit_texts(units@)),
        all_readable(old(symbols)@.names, unit_texts(units@), units@.len() as int),
    ensures
        (Declared { table: final(symbols)@, globals: globals@ }) == with_unit_declarations(
            (Declared { table: old(symbols)@, globals: seq![] }),
            unit_texts(units@),
            units@.len() as int,
        ),
        final(symbols)@.valid(),
        final(symbols)@.names == old(symbols)@.names,
{
    let ghost texts = unit_texts(units@);
    let ghost begin = Declared { table: symbols@, globals: seq![] };
    let mut globals: Vec<SymbolId> = Vec::new();
    let mut index: usize = 0;
    assert(globals@ =~= seq![]);
    while index < units.len()
        invariant
            index <= units.len(),
            texts == unit_texts(units@),
            are_programs(programs@, texts),
            symbols@.valid(),
            symbols@.names == begin.table.names,
            all_readable(begin.table.names, texts, units@.len() as int),
            (Declared { table: symbols@, globals: globals@ }) == with_unit_declarations(
                begin,
                texts,
                index as int,
            ),
        decreases units.len() - index,
    {
        assert(texts[index as int] == units@[index as int]@);
        assert(programs@[index as int].tree() == program_of(texts[index as int]));
        collect_project_declarations(
            symbols,
            &mut globals,
            units[index].code.as_str(),
            &programs[index],
        );
        index += 1;
    }
    globals
}

fn resolve_units(
    symbols: &Symbols,
    globals: &Vec<SymbolId>,
    units: &Vec<CodeUnit>,
    programs: &Vec<Program>,
) -> (results: Vec<ResolveResult>)
    requires
        symbols@.valid(),
        are_programs(programs@, unit_texts(units@)),
        all_readable(symbols@.names, unit_texts(units@), units@.len() as int),
    ensures
        results@.len() == units@.len(),
        forall|k: int|
            0 <= k < units@.len() ==> is_result(
                #[trigger] results@[k],
                Declared { table: symbols@, globals: globals@ },
                units@[k]@,
            ),
{
    let ghost texts = unit_texts(units@);
    let ghost declared = Declared { table: symbols@, globals: globals@ };
    let mut results: Vec<ResolveResult> = Vec::new();
    let mut index: usize = 0;
    while index < units.len()
        invariant
            index <= units.len(),
            texts == unit_texts(units@),
            declared == (Declared { table: symbols@, globals: globals@ }),
            symbols@.valid(),
            are_programs(programs@, texts),
            all_readable(symbols@.names, texts, units@.len() as int),
            results@.len() == index,
            forall|k: int|
                0 <= k < index ==> is_result(#[trigger] results@[k], declared, units@[k]@),
        decreases units.len() - index,
    {
        assert(texts[index as int] == units@[index as int]@);
        assert(programs@[index as int].tree() == program_of(texts[index as int]));
        let resolver = Resolver::new(symbols, globals, &units[index], &programs[index]);
        results.push(resolver.run());
        index += 1;
    }
    results
}

/// Whether a result is the resolution of a unit.
spec fn is_result(result: ResolveResult, declared: Declared, unit: UnitText) -> bool {
    &&& result.names@ == resolution(declared, unit).names
    &&& result.locals@ == unit_locals(declared, unit)
    &&& semantic_reports(result.errors@) == crate::gml::project::unit_reports(
        unit,
        resolution(declared, unit).errors,
    )
}

fn copy_error(error: &SemanticDiagnostic) -> (copy: SemanticDiagnostic)
    ensures
        copy@ == error@,
{
    SemanticDiagnostic {
        kind: error.kind,
        name: error.name.clone(),
        source: error.source.clone(),
        span: error.span,
        message: error.message.clone(),
    }
}

fn semantic_errors(
    results: &Vec<ResolveResult>,
    Ghost(declared): Ghost<Declared>,
    Ghost(units): Ghost<Seq<UnitText>>,
) -> (errors: Vec<AnalysisDiagnostic>)
    requires
        results@.len() == units.len(),
        forall|k: int|
            0 <= k < units.len() ==> is_result(#[trigger] results@[k], declared, units[k]),
    ensures
        analysis_reports(errors@) == name_reports(declared, units, units.len() as int).map_values(
            |report: CodeReport| AnalysisReport::Semantic(report),
        ),
{
    let mut errors: Vec<AnalysisDiagnostic> = Vec::new();
    let mut index: usize = 0;
    assert(analysis_reports(errors@) =~= seq![]);
    while index < results.len()
        invariant
            index <= results.len(),
            results@.len() == units.len(),
            forall|k: int|
                0 <= k < units.len() ==> is_result(#[trigger] results@[k], declared, units[k]),
            analysis_reports(errors@) =~= name_reports(
                declared,
                units,
                index as int,
            ).map_values(|report: CodeReport| AnalysisReport::Semantic(report)),
        decreases results.len() - index,
    {
        let ghost before = analysis_reports(errors@);
        let found = &results[index].errors;
        assert(is_result(results@[index as int], declared, units[index as int]));
        let mut at: usize = 0;
        while at < found.len()
            invariant
                at <= found.len(),
                analysis_reports(errors@) =~= before + semantic_reports(found@).take(
                    at as int,
                ).map_values(|report: CodeReport| AnalysisReport::Semantic(report)),
            decreases found.len() - at,
        {
            let ghost held = errors@;
            let error = AnalysisDiagnostic::Semantic(copy_error(&found[at]));
            errors.push(error);
            assert(analysis_reports(errors@) =~= analysis_reports(held).push(error@));
            assert(semantic_reports(found@).take(at + 1) =~= semantic_reports(found@).take(
                at as int,
            ).push(found@[at as int]@));
            at += 1;
        }
        assert(semantic_reports(found@).take(at as int) =~= semantic_reports(found@));
        index += 1;
    }
    errors
}

fn count_results(
    programs: &Vec<Program>,
    results: &Vec<ResolveResult>,
    Ghost(declared): Ghost<Declared>,
    Ghost(units): Ghost<Seq<UnitText>>,
) -> (counts: (usize, usize, usize, usize))
    requires
        are_programs(programs@, units),
        forall|k: int| 0 <= k < units.len() ==> parsed((#[trigger] units[k]).code) is Ok,
        results@.len() == units.len(),
        forall|k: int|
            0 <= k < units.len() ==> is_result(#[trigger] results@[k], declared, units[k]),
    ensures
        counts.0 == machine_count(
            crate::gml::project::tokens_in_units(units, units.len() as int),
        ),
        counts.1 == machine_count(
            crate::gml::project::statements_in_units(units, units.len() as int),
        ),
        counts.2 == machine_count(names_in_units(declared, units, units.len() as int)),
        counts.3 == machine_count(locals_in_units(declared, units, units.len() as int)),
{
    let mut tokens: usize = 0;
    let mut statements: usize = 0;
    let mut names: usize = 0;
    let mut locals: usize = 0;
    let mut index: usize = 0;
    proof {
        crate::gml::project::lemma_counts(0, 0);
    }
    while index < programs.len()
        invariant
            index <= programs.len(),
            are_programs(programs@, units),
            forall|k: int| 0 <= k < units.len() ==> parsed((#[trigger] units[k]).code) is Ok,
            results@.len() == units.len(),
            forall|k: int|
                0 <= k < units.len() ==> is_result(#[trigger] results@[k], declared, units[k]),
            tokens == machine_count(crate::gml::project::tokens_in_units(units, index as int)),
            statements == machine_count(
                crate::gml::project::statements_in_units(units, index as int),
            ),
            names == machine_count(names_in_units(declared, units, index as int)),
            locals == machine_count(locals_in_units(declared, units, index as int)),
        decreases programs.len() - index,
    {
        let program = &programs[index];
        let result = &results[index];
        let more = crate::gml::project::count_statements(&program.statements);
        proof {
            let unit = units[index as int];
            assert(parsed(unit.code) is Ok);
            assert(is_result(results@[index as int], declared, unit));
            assert(program.tree() == program_of(unit));
            crate::gml::project::lemma_counts(
                crate::gml::project::tokens_in_units(units, index as int),
                program.token_count as nat,
            );
            crate::gml::project::lemma_counts(
                crate::gml::project::statements_in_units(units, index as int),
                statements_in_all(program.tree().statements),
            );
            crate::gml::project::lemma_counts(
                names_in_units(declared, units, index as int),
                result.names@.len(),
            );
            crate::gml::project::lemma_counts(
                locals_in_units(declared, units, index as int),
                result.locals@.len(),
            );
            let modulus = usize::MAX as nat + 1;
            vstd::arithmetic::div_mod::lemma_small_mod(program.token_count as nat, modulus);
            assert(result.names.len() <= usize::MAX);
            assert(result.locals.len() <= usize::MAX);
            vstd::arithmetic::div_mod::lemma_small_mod(result.names@.len(), modulus);
            vstd::arithmetic::div_mod::lemma_small_mod(result.locals@.len(), modulus);
        }
        tokens = crate::gml::project::add_counts(tokens, program.token_count);
        statements = crate::gml::project::add_counts(statements, more);
        names = crate::gml::project::add_counts(names, result.names.len());
        locals = crate::gml::project::add_counts(locals, result.locals.len());
        index += 1;
    }
    (tokens, statements, names, locals)
}

fn join_units(
    units: Vec<CodeUnit>,
    programs: Vec<Program>,
    results: Vec<ResolveResult>,
    Ghost(declared): Ghost<Declared>,
) -> (analyzed: Vec<AnalyzedUnit>)
    requires
        are_programs(programs@, unit_texts(units@)),
        results@.len() == units@.len(),
        forall|k: int|
            0 <= k < units@.len() ==> is_result(#[trigger] results@[k], declared, units@[k]@),
    ensures
        analyzed@.len() == units@.len(),
        forall|k: int|
            0 <= k < units@.len() ==> is_analyzed(
                #[trigger] analyzed@[k],
                units@[k]@,
                declared,
            ),
{
    let ghost texts = unit_texts(units@);
    let ghost all_units = units@;
    let ghost all_programs = programs@;
    let ghost all_results = results@;
    let mut units = units;
    let mut programs = programs;
    let mut results = results;
    let mut reversed: Vec<AnalyzedUnit> = Vec::new();
    while units.len() > 0
        invariant
            texts == unit_texts(all_units),
            are_programs(all_programs, texts),
            all_results.len() == texts.len(),
            forall|k: int|
                0 <= k < texts.len() ==> is_result(#[trigger] all_results[k], declared, texts[k]),
            units@.len() <= texts.len(),
            units@ == all_units.take(units@.len() as int),
            programs@ == all_programs.take(units@.len() as int),
            results@ == all_results.take(units@.len() as int),
            reversed@.len() == texts.len() - units@.len(),
            forall|k: int|
                0 <= k < reversed@.len() ==> is_analyzed(
                    #[trigger] reversed@[k],
                    texts[texts.len() - 1 - k],
                    declared,
                ),
        decreases units.len(),
    {
        let ghost last = units@.len() - 1;
        assert(programs@.len() == units@.len() && results@.len() == units@.len());
        if let (Some(unit), Some(program), Some(result)) = (
            units.pop(),
            programs.pop(),
            results.pop(),
        ) {
            proof {
                assert(unit == all_units[last]);
                assert(program == all_programs[last]);
                assert(result == all_results[last]);
                assert(texts[last] == unit@);
                assert(is_result(all_results[last], declared, texts[last]));
                assert(all_programs[last].tree() == program_of(texts[last]));
                assert(units@ =~= all_units.take(last));
                assert(programs@ =~= all_programs.take(last));
                assert(results@ =~= all_results.take(last));
            }
            reversed.push(
                AnalyzedUnit {
                    kind: unit.kind,
                    name: unit.name,
                    vm_name: unit.vm_name,
                    source: unit.source,
                    code: unit.code,
                    program,
                    names: result.names,
                    locals: result.locals,
                },
            );
        }
    }
    let analyzed = backwards(reversed);
    assert forall|k: int| 0 <= k < all_units.len() implies is_analyzed(
        #[trigger] analyzed@[k],
        all_units[k]@,
        declared,
    ) by {
        assert(analyzed@[k] == reversed@[reversed@.len() - 1 - k]);
        assert(texts[k] == all_units[k]@);
    }
    analyzed
}

/// Analyzes the code of a project: resolves all names, or returns what is
/// wrong.
pub fn analyze_assets(assets: &Assets, builtins: &Builtins) -> (result: Result<
    ProjectAnalysis,
    Vec<AnalysisDiagnostic>,
>)
    requires
        scripts_fit(*assets),
    ensures
        match result {
            Ok(analysis) => {
                &&& analysis_faults(*assets, *builtins).len() == 0
                &&& is_analysis(
                    analysis,
                    expanded_units(*assets),
                    project_declarations(*assets, *builtins, expanded_units(*assets)),
                )
            },
            Err(errors) => {
                &&& errors@.len() > 0
                &&& analysis_reports(errors@) == analysis_faults(*assets, *builtins)
            },
        },
{
    let mut units = match collect_code(assets) {
        Ok(units) => units,
        Err(errors) => {
            let result = dnd_errors(errors);
            assert(analysis_reports(result@).len() == result@.len());
            assert(dnd_reports(errors@).len() == errors@.len());
            return Err(result);
        },
    };
    let errors = expand_code_macros(assets, &mut units);
    assert(code_reports(errors@).len() == errors@.len());
    if errors.len() > 0 {
        let result = syntax_errors(errors);
        assert(analysis_reports(result@).len() == result@.len());
        return Err(result);
    }
    let ghost texts = unit_texts(units@);
    assert(texts == expanded_units(*assets));
    let programs = match parse_units(&units) {
        Ok(programs) => programs,
        Err(errors) => {
            let result = syntax_errors(errors);
            assert(analysis_reports(result@).len() == result@.len());
            assert(code_reports(errors@).len() == errors@.len());
            return Err(result);
        },
    };
    let mut symbols = Symbols::from_assets(assets, builtins);
    enter_units(&mut symbols, &units, &programs);
    let globals = declare_units(&mut symbols, &units, &programs);
    let ghost declared = Declared { table: symbols@, globals: globals@ };
    assert(declared == project_declarations(*assets, *builtins, texts));
    let results = resolve_units(&symbols, &globals, &units, &programs);
    assert forall|k: int| 0 <= k < texts.len() implies is_result(
        #[trigger] results@[k],
        declared,
        texts[k],
    ) by {
        assert(texts[k] == units@[k]@);
    }
    let errors = semantic_errors(&results, Ghost(declared), Ghost(texts));
    assert(analysis_reports(errors@).len() == errors@.len());
    if errors.len() > 0 {
        return Err(errors);
    }
    let (tokens, statements, names, locals) = count_results(
        &programs,
        &results,
        Ghost(declared),
        Ghost(texts),
    );
    let summary = SemanticSummary {
        syntax: CheckSummary { units: units.len(), tokens, statements },
        symbols: symbols.len(),
        names,
        locals,
        global_variables: globals.len(),
    };
    let units = join_units(units, programs, results, Ghost(declared));
    Ok(ProjectAnalysis { symbols, units, summary })
}

/// The places of the names that are resolved so far.
pub open spec fn resolved_spans(state: Resolved) -> Seq<Span> {
    state.names.map_values(|name: NameResolution| name.span)
}

proof fn lemma_resolved_name(
    state: Resolved,
    condition: bool,
    message: Seq<char>,
    symbol: SymbolId,
    binding: NameBinding,
    access: NameAccess,
    span: Span,
)
    ensures
        resolved_spans(
            state.with_error(condition, span, message).with_name(symbol, binding, access, span),
        ) == resolved_spans(state) + seq![span],
        resolved_spans(state.with_name(symbol, binding, access, span)) == resolved_spans(state)
            + seq![span],
{
    assert(resolved_spans(state.with_name(symbol, binding, access, span)) =~= resolved_spans(state)
        + seq![span]);
    assert(resolved_spans(
        state.with_error(condition, span, message).with_name(symbol, binding, access, span),
    ) =~= resolved_spans(state) + seq![span]);
}

proof fn lemma_expr_resolves_each_name(
    state: Resolved,
    scope: Scope,
    value: ExprTree,
    access: NameAccess,
)
    ensures
        resolved_spans(with_expr(state, scope, value, access)) == resolved_spans(state)
            + expr_names(value),
    decreases value,
{
    let begin = resolved_spans(state);
    let after = resolved_spans(with_expr(state, scope, value, access));
    match value.form {
        ExprForm::Identifier => {
            let id = scope.symbol(value.span);
            let binding = scope.value_or_variable(id);
            lemma_resolved_name(
                state,
                is_write(access) && !is_writable(binding),
                "cannot assign to "@ + scope.text(value.span),
                id,
                binding,
                access,
                value.span,
            );
        },
        ExprForm::Number => {
            assert(after =~= begin + expr_names(value));
        },
        ExprForm::String => {
            assert(after =~= begin + expr_names(value));
        },
        ExprForm::Group(inner) => lemma_expr_resolves_each_name(state, scope, *inner, access),
        ExprForm::Array(values) => lemma_list_resolves_each_name(state, scope, values),
        ExprForm::Unary { op, value } => lemma_expr_resolves_each_name(
            state,
            scope,
            *value,
            if op is PreIncrement || op is PreDecrement {
                NameAccess::ReadWrite
            } else {
                NameAccess::Read
            },
        ),
        ExprForm::Binary { left, right, .. } => {
            let first = with_expr(state, scope, *left, NameAccess::Read);
            lemma_expr_resolves_each_name(state, scope, *left, NameAccess::Read);
            lemma_expr_resolves_each_name(first, scope, *right, NameAccess::Read);
            assert(after =~= begin + expr_names(value));
        },
        ExprForm::Conditional { condition, then_value, else_value } => {
            let first = with_expr(state, scope, *condition, NameAccess::Read);
            let second = with_expr(first, scope, *then_value, NameAccess::Read);
            lemma_expr_resolves_each_name(state, scope, *condition, NameAccess::Read);
            lemma_expr_resolves_each_name(first, scope, *then_value, NameAccess::Read);
            lemma_expr_resolves_each_name(second, scope, *else_value, NameAccess::Read);
            assert(after =~= begin + expr_names(value));
        },
        ExprForm::Assign { op, target, value: assigned } => {
            let access = if op is Assign {
                NameAccess::Write
            } else {
                NameAccess::ReadWrite
            };
            let first = with_expr(state, scope, *target, access);
            lemma_expr_resolves_each_name(state, scope, *target, access);
            lemma_expr_resolves_each_name(first, scope, *assigned, NameAccess::Read);
            assert(after =~= begin + expr_names(value));
        },
        ExprForm::Call { callee, arguments } => {
            let called = if callee.form is Identifier {
                with_callee(state, scope, callee.span)
            } else {
                with_expr(state, scope, *callee, NameAccess::Read)
            };
            if callee.form is Identifier {
                assert(expr_names(*callee) == seq![callee.span]);
                let id = scope.symbol(callee.span);
                let callable = scope.table.known(id).callable;
                let binding = match callable {
                    Some(CallableSymbol::BuiltinFunction) => NameBinding::BuiltinFunction,
                    Some(
                        CallableSymbol::ExtensionFunction { id },
                    ) => NameBinding::ExtensionFunction { id },
                    Some(CallableSymbol::Script { index }) => NameBinding::Script { index },
                    None => scope.value_or_variable(id),
                };
                lemma_resolved_name(
                    state,
                    callable is None,
                    "unknown function "@ + scope.text(callee.span),
                    id,
                    binding,
                    NameAccess::Call,
                    callee.span,
                );
            } else {
                lemma_expr_resolves_each_name(state, scope, *callee, NameAccess::Read);
            }
            lemma_list_resolves_each_name(called, scope, arguments);
            assert(after =~= begin + expr_names(value));
        },
        ExprForm::Index { target, indices, .. } => {
            let first = with_expr(state, scope, *target, access);
            lemma_expr_resolves_each_name(state, scope, *target, access);
            lemma_list_resolves_each_name(first, scope, indices);
            assert(after =~= begin + expr_names(value));
        },
        ExprForm::Member { target, name } => {
            let first = with_expr(state, scope, *target, NameAccess::Read);
            lemma_expr_resolves_each_name(state, scope, *target, NameAccess::Read);
            let id = scope.symbol(name);
            let binding = scope.member(*target, id);
            lemma_resolved_name(
                first,
                is_write(access) && !is_writable(binding),
                "cannot assign to "@ + scope.text(name),
                id,
                binding,
                access,
                name,
            );
            assert(after =~= begin + expr_names(value));
        },
        ExprForm::Postfix { target, .. } => lemma_expr_resolves_each_name(
            state,
            scope,
            *target,
            NameAccess::ReadWrite,
        ),
    }
}

proof fn lemma_list_resolves_each_name(state: Resolved, scope: Scope, values: Seq<ExprTree>)
    ensures
        resolved_spans(with_exprs(state, scope, values)) == resolved_spans(state) + exprs_names(
            values,
        ),
    decreases values,
{
    if values.len() > 0 {
        let first = with_exprs(state, scope, values.drop_last());
        lemma_list_resolves_each_name(state, scope, values.drop_last());
        lemma_expr_resolves_each_name(first, scope, values.last(), NameAccess::Read);
    }
    assert(resolved_spans(with_exprs(state, scope, values)) =~= resolved_spans(state)
        + exprs_names(values));
}

proof fn lemma_option_resolves_each_name(state: Resolved, scope: Scope, value: Option<ExprTree>)
    ensures
        resolved_spans(with_option(state, scope, value)) == resolved_spans(state) + option_names(
            value,
        ),
{
    if let Some(value) = value {
        lemma_expr_resolves_each_name(state, scope, value, NameAccess::Read);
    }
    assert(resolved_spans(with_option(state, scope, value)) =~= resolved_spans(state)
        + option_names(value));
}

proof fn lemma_declarations_resolve_each_name(
    state: Resolved,
    scope: Scope,
    global: bool,
    values: Seq<VarTree>,
)
    ensures
        resolved_spans(with_declarations(state, scope, global, values)) == resolved_spans(state)
            + vars_names(values),
    decreases values.len(),
{
    if values.len() > 0 {
        let before = with_declarations(state, scope, global, values.drop_last());
        lemma_declarations_resolve_each_name(state, scope, global, values.drop_last());
        let value = values.last();
        let id = scope.symbol(value.name);
        let info = scope.table.known(id);
        let binding = if global {
            NameBinding::GlobalVariable
        } else {
            NameBinding::LocalVariable {
                slot: match scope.slot(id) {
                    Some(slot) => slot as usize,
                    None => 0,
                },
            }
        };
        let condition = info.value is Some || info.callable is Some;
        let message = scope.text(value.name)
            + " is a constant, resource, script, or function name"@;
        lemma_resolved_name(
            before,
            condition,
            message,
            id,
            binding,
            NameAccess::Declare,
            value.name,
        );
        lemma_option_resolves_each_name(
            before.with_error(condition, value.name, message).with_name(
                id,
                binding,
                NameAccess::Declare,
                value.name,
            ),
            scope,
            value.value,
        );
    }
    assert(resolved_spans(with_declarations(state, scope, global, values)) =~= resolved_spans(state)
        + vars_names(values));
}

proof fn lemma_members_resolve_each_name(
    state: Resolved,
    scope: Scope,
    enum_symbol: SymbolId,
    values: Seq<VarTree>,
)
    ensures
        resolved_spans(with_members(state, scope, enum_symbol, values)) == resolved_spans(state)
            + vars_names(values),
    decreases values.len(),
{
    if values.len() > 0 {
        let before = with_members(state, scope, enum_symbol, values.drop_last());
        lemma_members_resolve_each_name(state, scope, enum_symbol, values.drop_last());
        let value = values.last();
        let id = scope.symbol(value.name);
        let member_index = match scope.table.enumeration(enum_symbol) {
            Some(info) => match info.member(id) {
                Some(index) => index as usize,
                None => 0,
            },
            None => 0,
        };
        let binding = NameBinding::EnumMember { enum_symbol, member_index };
        lemma_resolved_name(
            before,
            false,
            seq![],
            id,
            binding,
            NameAccess::Declare,
            value.name,
        );
        lemma_option_resolves_each_name(
            before.with_name(id, binding, NameAccess::Declare, value.name),
            scope,
            value.value,
        );
    }
    assert(resolved_spans(with_members(state, scope, enum_symbol, values)) =~= resolved_spans(state)
        + vars_names(values));
}

proof fn lemma_stmt_resolves_each_name(state: Resolved, scope: Scope, statement: StmtTree)
    ensures
        resolved_spans(with_stmt(state, scope, statement)) == resolved_spans(state) + stmt_names(
            statement,
        ),
    decreases statement,
{
    let read = NameAccess::Read;
    match statement.form {
        StmtForm::Block(statements) => law_each_name_is_resolved_once(state, scope, statements),
        StmtForm::Var { global, declarations } => lemma_declarations_resolve_each_name(
            state,
            scope,
            global,
            declarations,
        ),
        StmtForm::If { condition, then_branch, else_branch } => {
            let first = with_expr(state, scope, condition, read);
            let second = with_stmt(first, scope, *then_branch);
            lemma_expr_resolves_each_name(state, scope, condition, read);
            lemma_stmt_resolves_each_name(first, scope, *then_branch);
            if let Some(branch) = else_branch {
                lemma_stmt_resolves_each_name(second, scope, *branch);
            }
        },
        StmtForm::While { condition, body } => {
            lemma_expr_resolves_each_name(state, scope, condition, read);
            lemma_stmt_resolves_each_name(with_expr(state, scope, condition, read), scope, *body);
        },
        StmtForm::DoUntil { body, condition } => {
            lemma_stmt_resolves_each_name(state, scope, *body);
            lemma_expr_resolves_each_name(
                with_stmt(state, scope, *body),
                scope,
                condition,
                read,
            );
        },
        StmtForm::For { initializer, condition, step, body } => {
            let first = match initializer {
                Some(initializer) => with_stmt(state, scope, *initializer),
                None => state,
            };
            if let Some(initializer) = initializer {
                lemma_stmt_resolves_each_name(state, scope, *initializer);
            }
            let second = with_option(first, scope, condition);
            lemma_option_resolves_each_name(first, scope, condition);
            lemma_option_resolves_each_name(second, scope, step);
            lemma_stmt_resolves_each_name(with_option(second, scope, step), scope, *body);
        },
        StmtForm::Repeat { count, body } => {
            lemma_expr_resolves_each_name(state, scope, count, read);
            lemma_stmt_resolves_each_name(with_expr(state, scope, count, read), scope, *body);
        },
        StmtForm::With { target, body } => {
            lemma_expr_resolves_each_name(state, scope, target, read);
            lemma_stmt_resolves_each_name(with_expr(state, scope, target, read), scope, *body);
        },
        StmtForm::Switch { value, body } => {
            lemma_expr_resolves_each_name(state, scope, value, read);
            lemma_stmt_resolves_each_name(with_expr(state, scope, value, read), scope, *body);
        },
        StmtForm::Case(value) => lemma_expr_resolves_each_name(state, scope, value, read),
        StmtForm::Return(value) => lemma_option_resolves_each_name(state, scope, value),
        StmtForm::Enum { name, members } => {
            let enum_symbol = scope.symbol(name);
            let index = match scope.table.enumeration(enum_symbol) {
                Some(info) => info.index as usize,
                None => 0,
            };
            let binding = NameBinding::Enum { index };
            lemma_resolved_name(
                state,
                false,
                seq![],
                enum_symbol,
                binding,
                NameAccess::Declare,
                name,
            );
            lemma_members_resolve_each_name(
                state.with_name(enum_symbol, binding, NameAccess::Declare, name),
                scope,
                enum_symbol,
                members,
            );
        },
        StmtForm::Expr(value) => lemma_expr_resolves_each_name(state, scope, value, read),
        _ => {},
    }
    assert(resolved_spans(with_stmt(state, scope, statement)) =~= resolved_spans(state)
        + stmt_names(statement));
}

/// The resolution of statements resolves each of their names once, in the
/// order in which they stand there.
pub proof fn law_each_name_is_resolved_once(
    state: Resolved,
    scope: Scope,
    statements: Seq<StmtTree>,
)
    ensures
        resolved_spans(with_stmts(state, scope, statements)) == resolved_spans(state)
            + stmts_names(statements),
    decreases statements,
{
    if statements.len() > 0 {
        let first = with_stmts(state, scope, statements.drop_last());
        law_each_name_is_resolved_once(state, scope, statements.drop_last());
        lemma_stmt_resolves_each_name(first, scope, statements.last());
    }
    assert(resolved_spans(with_stmts(state, scope, statements)) =~= resolved_spans(state)
        + stmts_names(statements));
}

/// Whether a list of numbers went on from another, without a number twice.
pub open spec fn goes_on(first: Seq<SymbolId>, second: Seq<SymbolId>) -> bool {
    &&& first.len() <= second.len()
    &&& second.take(first.len() as int) == first
    &&& first.no_duplicates() ==> second.no_duplicates()
}

proof fn lemma_goes_on(first: Seq<SymbolId>, second: Seq<SymbolId>, third: Seq<SymbolId>)
    requires
        goes_on(first, second),
        goes_on(second, third),
    ensures
        goes_on(first, third),
{
    assert(third.take(first.len() as int) =~= second.take(first.len() as int)) by {
        assert(third.take(second.len() as int).take(first.len() as int) =~= third.take(
            first.len() as int,
        ));
    }
}

proof fn lemma_numbers_go_on(
    numbers: Seq<SymbolId>,
    table: SymbolTable,
    source: Seq<char>,
    values: Seq<VarTree>,
)
    ensures
        goes_on(numbers, with_numbers(numbers, table, source, values)),
    decreases values.len(),
{
    if values.len() > 0 {
        let before = with_numbers(numbers, table, source, values.drop_last());
        let id = table.number(span_text(source, values.last().name));
        lemma_numbers_go_on(numbers, table, source, values.drop_last());
        if !before.contains(id) {
            assert(before.push(id).take(before.len() as int) =~= before);
            assert(goes_on(before, before.push(id)));
            lemma_goes_on(numbers, before, before.push(id));
        }
    } else {
        assert(numbers.take(numbers.len() as int) =~= numbers);
    }
}

proof fn lemma_locals_go_on(
    locals: Seq<SymbolId>,
    table: SymbolTable,
    source: Seq<char>,
    statement: StmtTree,
)
    ensures
        goes_on(locals, with_locals(locals, table, source, statement)),
    decreases statement,
{
    assert(locals.take(locals.len() as int) =~= locals);
    match statement.form {
        StmtForm::Var { global: false, declarations } => lemma_numbers_go_on(
            locals,
            table,
            source,
            declarations,
        ),
        StmtForm::Block(statements) => law_locals_are_numbered_once(
            locals,
            table,
            source,
            statements,
        ),
        StmtForm::If { then_branch, else_branch, .. } => {
            let after = with_locals(locals, table, source, *then_branch);
            lemma_locals_go_on(locals, table, source, *then_branch);
            if let Some(branch) = else_branch {
                lemma_locals_go_on(after, table, source, *branch);
                lemma_goes_on(locals, after, with_locals(after, table, source, *branch));
            }
        },
        StmtForm::While { body, .. } => lemma_locals_go_on(locals, table, source, *body),
        StmtForm::DoUntil { body, .. } => lemma_locals_go_on(locals, table, source, *body),
        StmtForm::Repeat { body, .. } => lemma_locals_go_on(locals, table, source, *body),
        StmtForm::With { body, .. } => lemma_locals_go_on(locals, table, source, *body),
        StmtForm::Switch { body, .. } => lemma_locals_go_on(locals, table, source, *body),
        StmtForm::For { initializer, body, .. } => {
            let before = match initializer {
                Some(initializer) => with_locals(locals, table, source, *initializer),
                None => locals,
            };
            if let Some(initializer) = initializer {
                lemma_locals_go_on(locals, table, source, *initializer);
            }
            lemma_locals_go_on(before, table, source, *body);
            lemma_goes_on(locals, before, with_locals(before, table, source, *body));
        },
        _ => {},
    }
}

/// Declaring local variables keeps the slots of those before, and gives no
/// variable two.
pub proof fn law_locals_are_numbered_once(
    locals: Seq<SymbolId>,
    table: SymbolTable,
    source: Seq<char>,
    statements: Seq<StmtTree>,
)
    ensures
        goes_on(locals, with_all_locals(locals, table, source, statements)),
    decreases statements,
{
    if statements.len() > 0 {
        let before = with_all_locals(locals, table, source, statements.drop_last());
        law_locals_are_numbered_once(locals, table, source, statements.drop_last());
        lemma_locals_go_on(before, table, source, statements.last());
        lemma_goes_on(
            locals,
            before,
            with_locals(before, table, source, statements.last()),
        );
    } else {
        assert(locals.take(locals.len() as int) =~= locals);
    }
}

} // verus!
