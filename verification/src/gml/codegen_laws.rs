//! What generated code does: how it grows, where its branches lead, and what its
//! operations compute.

use vstd::prelude::*;

use crate::gml::ast::{
    Accessor, AssignOp, BinaryOp, ExprForm, ExprTree, Span, StmtForm, StmtTree, VarTree,
};
use crate::gml::codegen::{
    accessor_names, base_of, case_count, cleaned, coerced, coerced_assigned,
    gen_accessor_assignment, gen_accessor_increment, gen_address, gen_alone, gen_arguments,
    gen_assignment, gen_binary, gen_bodies, gen_call, gen_cases, gen_chain, gen_combined,
    gen_condition, gen_conditional, gen_declarations, gen_expr, gen_increment, gen_index, gen_name,
    gen_plain_assignment, gen_plain_increment, gen_plain_read, gen_plain_write, gen_read, gen_stmt,
    gen_stmts, gen_tests, gen_with_target, gen_write, indices_of, lemma_base_weight, lemma_chain,
    lemma_place_weight, lemma_weights, name_tree, operands, place_of, place_weight, weight, weights,
    Address, Cleanup, Gen, Place, Surroundings, Target,
};
use crate::gml::constants::Context;
use crate::gml::floats::is_more_than_half;
use crate::gml::folding::Folded;
use crate::gml::vm::{Condition, Opcode, VariableKind, VmType};

verus! {

/// Whether code continues other code: everything that was generated is still
/// there, and no label that was marked has moved unless there is another error.
#[verifier::opaque]
pub open spec fn extends(before: Gen, after: Gen) -> bool {
    &&& before.vm.bytes.len() <= after.vm.bytes.len()
    &&& forall|k: int|
        0 <= k < before.vm.bytes.len() ==> #[trigger] after.vm.bytes[k] == before.vm.bytes[k]
    &&& before.vm.branches.len() <= after.vm.branches.len()
    &&& forall|k: int|
        0 <= k < before.vm.branches.len() ==> #[trigger] after.vm.branches[k]
            == before.vm.branches[k]
    &&& before.vm.labels.len() <= after.vm.labels.len()
    &&& before.errors.len() <= after.errors.len()
    &&& before.errors.len() == after.errors.len() ==> forall|k: int|
        0 <= k < before.vm.labels.len() && before.vm.labels[k] is Some
            ==> #[trigger] after.vm.labels[k] == before.vm.labels[k]
}

pub proof fn lemma_same(state: Gen)
    ensures
        extends(state, state),
{
    reveal(extends);
}

pub proof fn lemma_chained(first: Gen, second: Gen, third: Gen)
    requires
        extends(first, second),
        extends(second, third),
    ensures
        extends(first, third),
{
    reveal(extends);
    assert forall|k: int| 0 <= k < first.vm.bytes.len() implies #[trigger] third.vm.bytes[k]
        == first.vm.bytes[k] by {
        assert(third.vm.bytes[k] == second.vm.bytes[k]);
    }
    assert forall|k: int| 0 <= k < first.vm.branches.len() implies #[trigger] third.vm.branches[k]
        == first.vm.branches[k] by {
        assert(third.vm.branches[k] == second.vm.branches[k]);
    }
    if first.errors.len() == third.errors.len() {
        assert forall|k: int|
            0 <= k < first.vm.labels.len() && first.vm.labels[k] is Some implies
            #[trigger] third.vm.labels[k] == first.vm.labels[k] by {
            assert(second.vm.labels[k] == first.vm.labels[k]);
        }
    }
}

pub broadcast proof fn lemma_more_labels(first: Gen, second: Gen)
    requires
        #[trigger] extends(first, second),
    ensures
        first.next_label() <= second.next_label(),
{
    reveal(extends);
}

pub broadcast proof fn lemma_label_count(state: Gen)
    ensures
        (#[trigger] state.labelled()).next_label() == state.next_label() + 1,
{
    reveal(Gen::labelled);
}

pub broadcast proof fn lemma_error_extends(base: Gen, state: Gen, span: Span, message: Seq<char>)
    requires
        #[trigger] extends(base, state),
    ensures
        extends(base, #[trigger] state.error(span, message)),
{
    reveal(extends);
}

pub broadcast proof fn lemma_emit_extends(base: Gen, state: Gen, opcode: Opcode, value_type: VmType)
    requires
        #[trigger] extends(base, state),
    ensures
        extends(base, #[trigger] state.emit(opcode, value_type)),
{
    reveal(extends);
    reveal(Gen::emit);
}

pub broadcast proof fn lemma_types_extends(
    base: Gen,
    state: Gen,
    opcode: Opcode,
    first: VmType,
    second: VmType,
)
    requires
        #[trigger] extends(base, state),
    ensures
        extends(base, #[trigger] state.types(opcode, first, second)),
{
    reveal(extends);
    reveal(Gen::types);
}

pub broadcast proof fn lemma_compare_extends(
    base: Gen,
    state: Gen,
    first: VmType,
    second: VmType,
    condition: Condition,
)
    requires
        #[trigger] extends(base, state),
    ensures
        extends(base, #[trigger] state.compare(first, second, condition)),
{
    reveal(extends);
    reveal(Gen::compare);
}

pub broadcast proof fn lemma_dup_extends(base: Gen, state: Gen, value_type: VmType, count: int)
    requires
        #[trigger] extends(base, state),
    ensures
        extends(base, #[trigger] state.dup(value_type, count)),
{
    reveal(extends);
    reveal(Gen::dup);
}

pub broadcast proof fn lemma_immediate_extends(base: Gen, state: Gen, value: i16)
    requires
        #[trigger] extends(base, state),
    ensures
        extends(base, #[trigger] state.immediate(value)),
{
    reveal(extends);
    reveal(Gen::immediate);
}

pub broadcast proof fn lemma_short_extends(base: Gen, state: Gen, value: u16)
    requires
        #[trigger] extends(base, state),
    ensures
        extends(base, #[trigger] state.short(value)),
{
    reveal(extends);
    reveal(Gen::short);
}

pub broadcast proof fn lemma_word_extends(base: Gen, state: Gen, value: i32)
    requires
        #[trigger] extends(base, state),
    ensures
        extends(base, #[trigger] state.word(value)),
{
    reveal(extends);
    reveal(Gen::word);
}

pub broadcast proof fn lemma_long_extends(base: Gen, state: Gen, value: i64)
    requires
        #[trigger] extends(base, state),
    ensures
        extends(base, #[trigger] state.long(value)),
{
    reveal(extends);
    reveal(Gen::long);
}

pub broadcast proof fn lemma_double_extends(base: Gen, state: Gen, bits: u64)
    requires
        #[trigger] extends(base, state),
    ensures
        extends(base, #[trigger] state.double(bits)),
{
    reveal(extends);
    reveal(Gen::double);
}

pub broadcast proof fn lemma_hook_extends(base: Gen, state: Gen, value: u16)
    requires
        #[trigger] extends(base, state),
    ensures
        extends(base, #[trigger] state.hook(value)),
{
    reveal(extends);
    reveal(Gen::hook);
}

pub broadcast proof fn lemma_reorder_extends(base: Gen, state: Gen, depth: u16)
    requires
        #[trigger] extends(base, state),
    ensures
        extends(base, #[trigger] state.reorder(depth)),
{
    reveal(extends);
    reveal(Gen::reorder);
}

pub broadcast proof fn lemma_text_extends(base: Gen, state: Gen, value: Seq<char>, span: Span)
    requires
        #[trigger] extends(base, state),
    ensures
        extends(base, #[trigger] state.text(value, span)),
{
    reveal(extends);
    reveal(Gen::text);
}

pub broadcast proof fn lemma_call_extends(
    base: Gen,
    state: Gen,
    name: Seq<char>,
    count: u16,
    span: Span,
)
    requires
        #[trigger] extends(base, state),
    ensures
        extends(base, #[trigger] state.call(name, count, span)),
{
    reveal(extends);
    reveal(Gen::call);
}

pub broadcast proof fn lemma_labelled_extends(base: Gen, state: Gen)
    requires
        #[trigger] extends(base, state),
    ensures
        extends(base, #[trigger] state.labelled()),
{
    reveal(extends);
    reveal(Gen::labelled);
}

pub broadcast proof fn lemma_branch_extends(
    base: Gen,
    state: Gen,
    opcode: Opcode,
    label: nat,
    span: Span,
)
    requires
        #[trigger] extends(base, state),
    ensures
        extends(base, #[trigger] state.branch(opcode, label, span)),
{
    reveal(extends);
    reveal(Gen::branch);
}

pub broadcast proof fn lemma_variable_extends(
    base: Gen,
    state: Gen,
    opcode: Opcode,
    instance: i16,
    target_type: Option<VmType>,
    source_type: Option<VmType>,
    name: Seq<char>,
    kind: VariableKind,
    flags: u32,
)
    requires
        #[trigger] extends(base, state),
    ensures
        extends(
            base,
            #[trigger] state.variable(
                opcode,
                instance,
                target_type,
                source_type,
                name,
                kind,
                flags,
            ),
        ),
{
    reveal(extends);
    reveal(Gen::variable);
}

pub broadcast proof fn lemma_mark_extends(base: Gen, state: Gen, label: nat, span: Span)
    requires
        #[trigger] extends(base, state),
        label < state.next_label(),
    ensures
        extends(base, #[trigger] state.mark(label, span)),
{
    reveal(extends);
    reveal(Gen::mark);
}

pub broadcast group group_extends {
    lemma_more_labels,
    lemma_label_count,
    lemma_variable_extends,
    lemma_mark_extends,
    lemma_error_extends,
    lemma_emit_extends,
    lemma_types_extends,
    lemma_compare_extends,
    lemma_dup_extends,
    lemma_immediate_extends,
    lemma_short_extends,
    lemma_word_extends,
    lemma_long_extends,
    lemma_double_extends,
    lemma_hook_extends,
    lemma_reorder_extends,
    lemma_text_extends,
    lemma_call_extends,
    lemma_labelled_extends,
    lemma_branch_extends,
}

#[verifier::spinoff_prover]
pub proof fn lemma_expr(root: Gen, context: Context, value: ExprTree, state: Gen)
    requires
        extends(root, state),
    ensures
        extends(root, gen_expr(context, value, state).state),
    decreases weight(value), 10nat,
{
    broadcast use group_extends;

    reveal(gen_expr);
    if context.folded(value) is None {
        match value.form {
            ExprForm::Identifier => {
                lemma_name(root, context, value, state);
            },
            ExprForm::Group(inner) => {
                lemma_expr(root, context, *inner, state);
            },
            ExprForm::Unary { op, value: inner } => {
                if op is PreIncrement || op is PreDecrement {
                    lemma_increment(root, context, *inner, op is PreIncrement, true, true, state);
                } else {
                    lemma_expr(root, context, *inner, state);
                }
            },
            ExprForm::Binary { op, left, right } => {
                lemma_binary(root, context, op, *left, *right, state);
            },
            ExprForm::Conditional { condition, then_value, else_value } => {
                lemma_conditional(root, context, *condition, *then_value, *else_value, state);
            },
            ExprForm::Assign { op, target, value: assigned } => {
                lemma_assignment(root, context, op, *target, *assigned, true, state);
            },
            ExprForm::Call { callee, arguments } => {
                lemma_call(root, context, *callee, arguments, value.span, state);
            },
            ExprForm::Index { target, accessor, indices } => {
                lemma_index(root, context, *target, accessor, indices, value.span, state);
            },
            ExprForm::Member { .. } => {
                lemma_read(root, context, value, seq![], state);
            },
            ExprForm::Postfix { op, target } => {
                lemma_increment(root, context, *target, op is Increment, false, true, state);
            },
            _ => {},
        }
    }
}

#[verifier::spinoff_prover]
proof fn lemma_name(root: Gen, context: Context, value: ExprTree, state: Gen)
    requires
        extends(root, state),
    ensures
        extends(root, gen_name(context, value, state).state),
    decreases weight(value), 9nat,
{
    broadcast use group_extends;

    reveal(gen_name);
    lemma_read(root, context, value, seq![], state);
}

#[verifier::spinoff_prover]
proof fn lemma_binary(
    root: Gen,
    context: Context,
    op: BinaryOp,
    left: ExprTree,
    right: ExprTree,
    state: Gen,
)
    requires
        extends(root, state),
    ensures
        extends(root, gen_binary(context, op, left, right, state).state),
    decreases weight(left) + weight(right) + 1, 9nat,
{
    broadcast use group_extends;

    reveal(gen_binary);
    if op is LogicalAnd || op is LogicalOr {
        lemma_chain_extends(root, context, op, left, right, state);
    } else {
        lemma_expr(root, context, left, state);
        let first = gen_expr(context, left, state);
        let first = coerced(first.state, op, first.value_type);
        lemma_expr(root, context, right, first.state);
    }
}

#[verifier::spinoff_prover]
pub proof fn lemma_tests(
    root: Gen,
    context: Context,
    tests: Seq<ExprTree>,
    opcode: Opcode,
    label: nat,
    state: Gen,
)
    requires
        extends(root, state),
    ensures
        extends(root, gen_tests(context, tests, opcode, label, state)),
    decreases weights(tests) + 1, 3nat,
{
    broadcast use group_extends;

    reveal(gen_tests);
    if tests.len() > 0 {
        lemma_weights(tests, tests.len() - 1);
        lemma_tests(root, context, tests.drop_last(), opcode, label, state);
        let before = gen_tests(context, tests.drop_last(), opcode, label, state);
        lemma_expr(root, context, tests.last(), before);
    }
}

#[verifier::spinoff_prover]
proof fn lemma_chain_extends(
    root: Gen,
    context: Context,
    op: BinaryOp,
    left: ExprTree,
    right: ExprTree,
    state: Gen,
)
    requires
        extends(root, state),
    ensures
        extends(root, gen_chain(context, op, left, right, state).state),
    decreases weight(left) + weight(right) + 1, 8nat,
{
    broadcast use group_extends;

    reveal(gen_chain);
    lemma_chain(op, left, right);
    let all = operands(op, left) + operands(op, right);
    let opcode = if op is LogicalAnd {
        Opcode::BranchFalse
    } else {
        Opcode::BranchTrue
    };
    let ready = state.labelled().labelled();
    lemma_same(ready);
    lemma_tests(ready, context, all.drop_last(), opcode, state.next_label(), ready);
    let tested = gen_tests(context, all.drop_last(), opcode, state.next_label(), ready);
    lemma_expr(ready, context, all.last(), tested);
    let end = gen_chain(context, op, left, right, state).state;
    assert(extends(ready, end));
    lemma_chained(root, ready, end);
}

#[verifier::spinoff_prover]
proof fn lemma_conditional(
    root: Gen,
    context: Context,
    condition: ExprTree,
    then_value: ExprTree,
    else_value: ExprTree,
    state: Gen,
)
    requires
        extends(root, state),
    ensures
        extends(root, gen_conditional(context, condition, then_value, else_value, state).state),
    decreases weight(condition) + weight(then_value) + weight(else_value) + 1, 9nat,
{
    broadcast use group_extends;

    reveal(gen_conditional);
    let otherwise = state.next_label();
    let ready = state.labelled().labelled();
    lemma_same(ready);
    lemma_expr(ready, context, condition, ready);
    let test = gen_expr(context, condition, ready);
    let tested = test.state.convert(test.value_type, VmType::Bool).branch(
        Opcode::BranchFalse,
        otherwise,
        condition.span,
    );
    lemma_expr(ready, context, then_value, tested);
    let first = gen_expr(context, then_value, tested);
    let second = first.state.convert(first.value_type, VmType::Variable).branch(
        Opcode::Branch,
        otherwise + 1,
        then_value.span,
    ).mark(otherwise, else_value.span);
    lemma_expr(ready, context, else_value, second);
    let end = gen_conditional(context, condition, then_value, else_value, state).state;
    assert(extends(ready, end));
    lemma_chained(root, ready, end);
}

#[verifier::spinoff_prover]
proof fn lemma_arguments(root: Gen, context: Context, arguments: Seq<ExprTree>, state: Gen)
    requires
        extends(root, state),
    ensures
        extends(root, gen_arguments(context, arguments, state)),
    decreases weights(arguments) + 1, 3nat,
{
    broadcast use group_extends;

    reveal(gen_arguments);
    if arguments.len() > 0 {
        lemma_weights(arguments, arguments.len() - 1);
        lemma_expr(root, context, arguments.last(), state);
        let last = gen_expr(context, arguments.last(), state);
        lemma_arguments(
            root, context,
            arguments.drop_last(),
            last.state.convert(last.value_type, VmType::Variable),
        );
    }
}

#[verifier::spinoff_prover]
proof fn lemma_call(
    root: Gen,
    context: Context,
    callee: ExprTree,
    arguments: Seq<ExprTree>,
    span: Span,
    state: Gen,
)
    requires
        extends(root, state),
    ensures
        extends(root, gen_call(context, callee, arguments, span, state).state),
    decreases weights(arguments) + 1, 9nat,
{
    broadcast use group_extends;

    reveal(gen_call);
    lemma_arguments(root, context, arguments, state);
}

#[verifier::spinoff_prover]
proof fn lemma_index(
    root: Gen,
    context: Context,
    target: ExprTree,
    accessor: Accessor,
    indices: Seq<ExprTree>,
    span: Span,
    state: Gen,
)
    requires
        extends(root, state),
    ensures
        extends(root, gen_index(context, target, accessor, indices, span, state).state),
    decreases weight(target) + weights(indices) + 1, 9nat,
{
    broadcast use group_extends;

    reveal(gen_index);
    if accessor is Array {
        lemma_read(root, context, target, indices, state);
    } else {
        lemma_arguments(root, context, indices, state);
        lemma_expr(root, context, target, gen_arguments(context, indices, state));
    }
}

#[verifier::spinoff_prover]
proof fn lemma_address(
    root: Gen,
    context: Context,
    place: Place,
    indices: Seq<ExprTree>,
    state: Gen,
)
    requires
        extends(root, state),
    ensures
        extends(root, gen_address(context, place, indices, state)),
    decreases place_weight(place) + weights(indices) + 1, 4nat,
{
    broadcast use group_extends;

    reveal(gen_address);
    let owned = match place.address {
        Address::Simple { instance, .. } => state.immediate(instance),
        Address::Stack(object) => {
            let value = gen_expr(context, object, state);
            value.state.convert(value.value_type, VmType::Int)
        },
    };
    if let Address::Stack(object) = place.address {
        lemma_expr(root, context, object, state);
    }
    assert(extends(root, owned));
    if indices.len() > 0 {
        lemma_weights(indices, 0);
        lemma_expr(root, context, indices[0], owned);
        let first = gen_expr(context, indices[0], owned);
        let row = first.state.convert(first.value_type, VmType::Int);
        if indices.len() > 1 {
            lemma_weights(indices, 1);
            lemma_expr(
                root, context,
                indices[1],
                row.hook(u16::MAX).word(crate::gml::codegen::ARRAY_DIMENSION).types(
                    Opcode::Mul,
                    VmType::Int,
                    VmType::Int,
                ),
            );
        }
    }
}

#[verifier::spinoff_prover]
proof fn lemma_plain_read(root: Gen, context: Context, place: Place, specialized: bool, state: Gen)
    requires
        extends(root, state),
    ensures
        extends(root, gen_plain_read(context, place, specialized, state)),
    decreases place_weight(place) + 1, 5nat,
{
    broadcast use group_extends;

    reveal(gen_plain_read);
    if place.implicit_array {
        lemma_address(root, context, place, seq![], state);
    } else if let Address::Stack(object) = place.address {
        lemma_expr(root, context, object, state);
    }
}

#[verifier::spinoff_prover]
proof fn lemma_plain_write(
    root: Gen,
    context: Context,
    place: Place,
    value_type: VmType,
    state: Gen,
)
    requires
        extends(root, state),
    ensures
        extends(root, gen_plain_write(context, place, value_type, state)),
    decreases place_weight(place) + 1, 5nat,
{
    broadcast use group_extends;

    reveal(gen_plain_write);
    if place.implicit_array {
        lemma_address(root, context, place, seq![], state);
    }
}

#[verifier::spinoff_prover]
proof fn lemma_read(
    root: Gen,
    context: Context,
    target: ExprTree,
    indices: Seq<ExprTree>,
    state: Gen,
)
    requires
        extends(root, state),
    ensures
        extends(root, gen_read(context, target, indices, state).state),
    decreases weight(target) + weights(indices), 7nat,
{
    broadcast use group_extends;

    reveal(gen_read);
    let base = if indices.len() == 0 {
        base_of(target)
    } else {
        target
    };
    let nested = if indices.len() == 0 {
        indices_of(target)
    } else {
        indices
    };
    if let Some(place) = place_of(context, base) {
        lemma_base_weight(target);
        lemma_place_weight(context, base);
        if nested.len() == 0 && !place.implicit_array {
            lemma_plain_read(root, context, place, true, state);
        } else {
            lemma_address(root, context, place, nested, state);
        }
    }
}

#[verifier::spinoff_prover]
proof fn lemma_write(root: Gen, context: Context, target: ExprTree, value_type: VmType, state: Gen)
    requires
        extends(root, state),
    ensures
        extends(root, gen_write(context, target, value_type, state)),
    decreases weight(target), 7nat,
{
    broadcast use group_extends;

    reveal(gen_write);
    let base = base_of(target);
    let nested = indices_of(target);
    if let Some(place) = place_of(context, base) {
        lemma_base_weight(target);
        lemma_place_weight(context, base);
        if nested.len() == 0 && !place.implicit_array && place.address is Simple {
            lemma_plain_write(root, context, place, value_type, state);
        } else {
            lemma_address(root, context, place, nested, state);
        }
    }
}

#[verifier::spinoff_prover]
proof fn lemma_assignment(
    root: Gen,
    context: Context,
    op: AssignOp,
    target: ExprTree,
    value: ExprTree,
    keep: bool,
    state: Gen,
)
    requires
        extends(root, state),
    ensures
        extends(root, gen_assignment(context, op, target, value, keep, state).state),
    decreases weight(target) + weight(value) + 1, 9nat,
{
    broadcast use group_extends;

    reveal(gen_assignment);
    match target.form {
        ExprForm::Index { target: base, accessor, indices } => {
            if accessor is Array {
                lemma_plain_assignment(root, context, op, target, value, keep, state);
            } else {
                lemma_accessor_assignment(
                    root, context,
                    accessor,
                    *base,
                    indices,
                    op,
                    value,
                    keep,
                    target.span,
                    state,
                );
            }
        },
        _ => {
            lemma_plain_assignment(root, context, op, target, value, keep, state);
        },
    }
}

#[verifier::spinoff_prover]
proof fn lemma_plain_assignment(
    root: Gen,
    context: Context,
    op: AssignOp,
    target: ExprTree,
    value: ExprTree,
    keep: bool,
    state: Gen,
)
    requires
        extends(root, state),
    ensures
        extends(root, gen_plain_assignment(context, op, target, value, keep, state).state),
    decreases weight(target) + weight(value) + 1, 8nat,
{
    broadcast use group_extends;

    reveal(gen_plain_assignment);
    if op is Assign {
        lemma_expr(root, context, value, state);
        let assigned = gen_expr(context, value, state);
        lemma_write(
            root, context,
            target,
            VmType::Variable,
            assigned.state.convert(assigned.value_type, VmType::Variable).dup(
                VmType::Variable,
                1,
            ),
        );
        lemma_write(root, context, target, assigned.value_type, assigned.state);
    } else {
        lemma_combined(root, context, op, target, value, keep, state);
    }
}

#[verifier::spinoff_prover]
proof fn lemma_combined(
    root: Gen,
    context: Context,
    op: AssignOp,
    target: ExprTree,
    value: ExprTree,
    keep: bool,
    state: Gen,
)
    requires
        extends(root, state),
    ensures
        extends(root, gen_combined(context, op, target, value, keep, state)),
    decreases weight(target) + weight(value) + 1, 7nat,
{
    broadcast use group_extends;

    reveal(gen_combined);
    let base = base_of(target);
    let indices = indices_of(target);
    if let Some(place) = place_of(context, base) {
        lemma_base_weight(target);
        lemma_place_weight(context, base);
        let plain = indices.len() == 0 && !place.implicit_array && place.address is Simple;
        let indexed = indices.len() > 0;
        let read = if plain {
            gen_plain_read(context, place, false, state)
        } else {
            crate::gml::codegen::stack_read(
                gen_address(context, place, indices, state).dup(
                    VmType::Int,
                    if indexed || place.implicit_array {
                        2
                    } else {
                        1
                    },
                ),
                place,
                indexed,
            )
        };
        if plain {
            lemma_plain_read(root, context, place, false, state);
        } else {
            lemma_address(root, context, place, indices, state);
        }
        assert(extends(root, read));
        lemma_expr(root, context, value, read);
        let right = gen_expr(context, value, read);
        let right = coerced_assigned(right.state, op, right.value_type);
        let computed = crate::gml::codegen::kept(
            right.state.types(
                crate::gml::codegen::assignment_code(op),
                right.value_type,
                VmType::Variable,
            ),
            keep,
        );
        assert(extends(root, computed));
        if plain {
            lemma_plain_write(root, context, place, VmType::Variable, computed);
        }
    }
}

#[verifier::spinoff_prover]
proof fn lemma_accessor_assignment(
    root: Gen,
    context: Context,
    accessor: Accessor,
    target: ExprTree,
    indices: Seq<ExprTree>,
    op: AssignOp,
    value: ExprTree,
    keep: bool,
    span: Span,
    state: Gen,
)
    requires
        extends(root, state),
    ensures
        extends(
            root,
            gen_accessor_assignment(
                context,
                accessor,
                target,
                indices,
                op,
                value,
                keep,
                span,
                state,
            ).state,
        ),
    decreases weight(target) + weights(indices) + weight(value) + 1, 8nat,
{
    broadcast use group_extends;

    reveal(gen_accessor_assignment);
    if accessor_names(accessor, indices.len() as int) is Some {
        let assigned = if op is Assign {
            gen_expr(context, value, state)
        } else {
            let current = gen_index(context, target, accessor, indices, span, state);
            let right = gen_expr(context, value, current.state);
            let right = coerced_assigned(right.state, op, right.value_type);
            crate::gml::codegen::valued(
                right.state.types(
                    crate::gml::codegen::assignment_code(op),
                    right.value_type,
                    current.value_type,
                ),
                crate::gml::codegen::wider_type(right.value_type, current.value_type),
            )
        };
        if op is Assign {
            lemma_expr(root, context, value, state);
        } else {
            lemma_index(root, context, target, accessor, indices, span, state);
            let current = gen_index(context, target, accessor, indices, span, state);
            lemma_expr(root, context, value, current.state);
        }
        assert(extends(root, assigned.state));
        let ready = crate::gml::codegen::kept(
            assigned.state.convert(assigned.value_type, VmType::Variable),
            keep,
        );
        assert(extends(root, ready));
        lemma_arguments(root, context, indices, ready);
        lemma_expr(root, context, target, gen_arguments(context, indices, ready));
    }
}

#[verifier::spinoff_prover]
proof fn lemma_increment(
    root: Gen,
    context: Context,
    target: ExprTree,
    increment: bool,
    prefix: bool,
    keep: bool,
    state: Gen,
)
    requires
        extends(root, state),
    ensures
        extends(root, gen_increment(context, target, increment, prefix, keep, state).state),
    decreases weight(target), 11nat,
{
    broadcast use group_extends;

    reveal(gen_increment);
    match target.form {
        ExprForm::Index { target: base, accessor, indices } => {
            if accessor is Array {
                lemma_plain_increment(root, context, target, increment, prefix, keep, state);
            } else {
                lemma_accessor_increment(
                    root, context,
                    accessor,
                    *base,
                    indices,
                    increment,
                    prefix,
                    keep,
                    target.span,
                    state,
                );
            }
        },
        _ => {
            lemma_plain_increment(root, context, target, increment, prefix, keep, state);
        },
    }
}

#[verifier::spinoff_prover]
proof fn lemma_plain_increment(
    root: Gen,
    context: Context,
    target: ExprTree,
    increment: bool,
    prefix: bool,
    keep: bool,
    state: Gen,
)
    requires
        extends(root, state),
    ensures
        extends(root, gen_plain_increment(context, target, increment, prefix, keep, state).state),
    decreases weight(target), 7nat,
{
    broadcast use group_extends;

    reveal(gen_plain_increment);
    let base = base_of(target);
    let indices = indices_of(target);
    if let Some(place) = place_of(context, base) {
        lemma_base_weight(target);
        lemma_place_weight(context, base);
        let indexed = indices.len() > 0 || place.implicit_array;
        if indexed || !(place.address is Simple) {
            lemma_address(root, context, place, indices, state);
        } else {
            lemma_plain_read(root, context, place, false, state);
            let read = gen_plain_read(context, place, false, state);
            let changed = crate::gml::codegen::stepped(
                crate::gml::codegen::kept(read, keep && !prefix),
                increment,
                VmType::Variable,
            );
            assert(extends(root, changed));
            lemma_plain_write(
                root, context,
                place,
                VmType::Variable,
                crate::gml::codegen::kept(changed, keep && prefix),
            );
        }
    }
}

#[verifier::spinoff_prover]
proof fn lemma_accessor_increment(
    root: Gen,
    context: Context,
    accessor: Accessor,
    target: ExprTree,
    indices: Seq<ExprTree>,
    increment: bool,
    prefix: bool,
    keep: bool,
    span: Span,
    state: Gen,
)
    requires
        extends(root, state),
    ensures
        extends(
            root,
            gen_accessor_increment(
                context,
                accessor,
                target,
                indices,
                increment,
                prefix,
                keep,
                span,
                state,
            ).state,
        ),
    decreases weight(target) + weights(indices) + 1, 10nat,
{
    broadcast use group_extends;

    reveal(gen_accessor_increment);
    if accessor_names(accessor, indices.len() as int) is Some {
        lemma_index(root, context, target, accessor, indices, span, state);
        let current = gen_index(context, target, accessor, indices, span, state);
        let changed = crate::gml::codegen::stepped(
            current.state,
            increment,
            current.value_type,
        );
        assert(extends(root, changed));
        lemma_arguments(root, context, indices, changed);
        lemma_expr(root, context, target, gen_arguments(context, indices, changed));
    }
}

#[verifier::spinoff_prover]
pub proof fn lemma_alone(root: Gen, context: Context, value: ExprTree, state: Gen)
    requires
        extends(root, state),
    ensures
        extends(root, gen_alone(context, value, state)),
{
    broadcast use group_extends;

    reveal(gen_alone);
    match value.form {
        ExprForm::Assign { op, target, value: assigned } => {
            lemma_assignment(root, context, op, *target, *assigned, false, state);
        },
        ExprForm::Unary { op, value: inner } => {
            if op is PreIncrement || op is PreDecrement {
                lemma_increment(root, context, *inner, op is PreIncrement, true, false, state);
            } else {
                lemma_expr(root, context, value, state);
            }
        },
        ExprForm::Postfix { op, target } => {
            lemma_increment(root, context, *target, op is Increment, false, false, state);
        },
        _ => {
            lemma_expr(root, context, value, state);
        },
    }
}

#[verifier::spinoff_prover]
proof fn lemma_declarations(root: Gen, context: Context, declarations: Seq<VarTree>, state: Gen)
    requires
        extends(root, state),
    ensures
        extends(root, gen_declarations(context, declarations, state)),
    decreases declarations.len(),
{
    broadcast use group_extends;

    reveal(gen_declarations);
    if declarations.len() > 0 {
        lemma_declarations(root, context, declarations.drop_last(), state);
        let before = gen_declarations(context, declarations.drop_last(), state);
        if let Some(value) = declarations.last().value {
            lemma_expr(root, context, value, before);
            let result = gen_expr(context, value, before);
            lemma_write(
                root, context,
                name_tree(declarations.last().name),
                result.value_type,
                result.state,
            );
        }
    }
}

pub proof fn lemma_condition(root: Gen, context: Context, condition: ExprTree, state: Gen)
    requires
        extends(root, state),
    ensures
        extends(root, gen_condition(context, condition, state)),
{
    broadcast use group_extends;

    lemma_expr(root, context, condition, state);
}

pub proof fn lemma_with_target(root: Gen, context: Context, target: ExprTree, state: Gen)
    requires
        extends(root, state),
    ensures
        extends(root, gen_with_target(context, target, state)),
{
    broadcast use group_extends;

    lemma_expr(root, context, target, state);
}

pub proof fn lemma_cleaned(root: Gen, state: Gen, cleanup: Seq<Cleanup>, depth: nat)
    requires
        extends(root, state),
    ensures
        extends(root, cleaned(state, cleanup, depth)),
    decreases cleanup.len(),
{
    broadcast use group_extends;

    if cleanup.len() > depth {
        lemma_cleaned(
            root,
            match cleanup.last() {
                Cleanup::Switch(value_type) => state.emit(Opcode::PopNull, value_type),
                Cleanup::With => state.types(Opcode::PopEnv, VmType::Double, VmType::Error),
            },
            cleanup.drop_last(),
            depth,
        );
    }
}

#[verifier::spinoff_prover]
pub proof fn lemma_cases(
    root: Gen,
    context: Context,
    statements: Seq<StmtTree>,
    value_type: VmType,
    state: Gen,
)
    requires
        extends(root, state),
    ensures
        ({
            let cases = gen_cases(context, statements, value_type, state);
            &&& extends(root, cases.state)
            &&& cases.labels.len() == case_count(statements)
            &&& forall|k: int|
                0 <= k < cases.labels.len() ==> (#[trigger] cases.labels[k])
                    < cases.state.next_label()
        }),
    decreases statements.len(),
{
    broadcast use group_extends;

    reveal(gen_cases);
    if statements.len() > 0 {
        lemma_cases(root, context, statements.drop_last(), value_type, state);
        let before = gen_cases(context, statements.drop_last(), value_type, state);
        let cases = gen_cases(context, statements, value_type, state);
        match statements.last().form {
            StmtForm::Case(case) => {
                let begun = before.state.labelled();
                let duplicated = begun.dup(value_type, 1);
                lemma_same(begun);
                lemma_expr(root, context, case, duplicated);
                lemma_expr(begun, context, case, duplicated);
                let result = gen_expr(context, case, duplicated);
                let label = before.state.next_label();
                let compared = result.state.compare(
                    result.value_type,
                    value_type,
                    Condition::Equal,
                );
                let end = compared.branch(Opcode::BranchTrue, label, case.span);
                assert(cases.state == end);
                assert(extends(begun, end));
                assert(cases.labels == before.labels.push(label));
            },
            StmtForm::Default => {
                assert(cases.labels == before.labels.push(before.state.next_label()));
            },
            _ => {},
        }
    }
}

proof fn lemma_case_count(statements: Seq<StmtTree>)
    requires
        statements.len() > 0,
        statements.last().form is Case || statements.last().form is Default,
    ensures
        case_count(statements) == case_count(statements.drop_last()) + 1,
{
}

#[verifier::spinoff_prover]
proof fn lemma_if(
    root: Gen,
    context: Context,
    around: Surroundings,
    statement: StmtTree,
    state: Gen,
)
    requires
        extends(root, state),
        statement.form is If,
    ensures
        extends(root, gen_stmt(context, around, statement, state)),
    decreases statement, 0nat,
{
    broadcast use group_extends;

    reveal(gen_stmt);
    let end = gen_stmt(context, around, statement, state);
    if let StmtForm::If { condition, then_branch, else_branch } = statement.form {
        match context.folded(condition) {
            Some(Folded::Number { bits, .. }) => {
                if is_more_than_half(bits) {
                    lemma_statement(root, context, around, *then_branch, state);
                } else if let Some(branch) = else_branch {
                    lemma_statement(root, context, around, *branch, state);
                }
            },
            _ => {
                let otherwise = state.next_label();
                let ready = state.labelled().labelled();
                lemma_same(ready);
                lemma_condition(ready, context, condition, ready);
                let tested = gen_condition(context, condition, ready).branch(
                    Opcode::BranchFalse,
                    otherwise,
                    condition.span,
                );
                lemma_statement(ready, context, around, *then_branch, tested);
                let first = gen_stmt(context, around, *then_branch, tested);
                if let Some(branch) = else_branch {
                    let other = first.branch(
                        Opcode::Branch,
                        otherwise + 1,
                        then_branch.span,
                    ).mark(otherwise, condition.span);
                    lemma_statement(ready, context, around, *branch, other);
                }
                assert(extends(ready, end));
                lemma_chained(root, ready, end);
            },
        }
    }
}

#[verifier::spinoff_prover]
proof fn lemma_while(
    root: Gen,
    context: Context,
    around: Surroundings,
    statement: StmtTree,
    state: Gen,
)
    requires
        extends(root, state),
        statement.form is While,
    ensures
        extends(root, gen_stmt(context, around, statement, state)),
    decreases statement, 0nat,
{
    broadcast use group_extends;

    reveal(gen_stmt);
    let end = gen_stmt(context, around, statement, state);
    if let StmtForm::While { condition, body } = statement.form {
        let start = state.next_label();
        let ready = state.labelled().labelled();
        lemma_same(ready);
        let marked = ready.mark(start, condition.span);
        lemma_condition(ready, context, condition, marked);
        let tested = gen_condition(context, condition, marked).branch(
            Opcode::BranchFalse,
            start + 1,
            condition.span,
        );
        lemma_statement(ready, context, around.with_loop(start + 1, start), *body, tested);
        assert(extends(ready, end));
        lemma_chained(root, ready, end);
    }
}

#[verifier::spinoff_prover]
proof fn lemma_do(
    root: Gen,
    context: Context,
    around: Surroundings,
    statement: StmtTree,
    state: Gen,
)
    requires
        extends(root, state),
        statement.form is DoUntil,
    ensures
        extends(root, gen_stmt(context, around, statement, state)),
    decreases statement, 0nat,
{
    broadcast use group_extends;

    reveal(gen_stmt);
    let end = gen_stmt(context, around, statement, state);
    if let StmtForm::DoUntil { body, condition } = statement.form {
        let start = state.next_label();
        let ready = state.labelled().labelled().labelled();
        lemma_same(ready);
        let inside = around.with_loop(start + 2, start + 1);
        let marked = ready.mark(start, body.span);
        lemma_statement(ready, context, inside, *body, marked);
        let done = gen_stmt(context, inside, *body, marked).mark(start + 1, condition.span);
        lemma_condition(ready, context, condition, done);
        assert(extends(ready, end));
        lemma_chained(root, ready, end);
    }
}

#[verifier::spinoff_prover]
proof fn lemma_for(
    root: Gen,
    context: Context,
    around: Surroundings,
    statement: StmtTree,
    state: Gen,
)
    requires
        extends(root, state),
        statement.form is For,
    ensures
        extends(root, gen_stmt(context, around, statement, state)),
    decreases statement, 0nat,
{
    broadcast use group_extends;

    reveal(gen_stmt);
    let end = gen_stmt(context, around, statement, state);
    if let StmtForm::For { initializer, condition, step, body } = statement.form {
        if let Some(initializer) = initializer {
            lemma_statement(root, context, around, *initializer, state);
        }
        let begun = match initializer {
            Some(initializer) => gen_stmt(context, around, *initializer, state),
            None => state,
        };
        assert(extends(root, begun));
        let start = begun.next_label();
        let ready = begun.labelled().labelled().labelled();
        lemma_same(ready);
        let marked = ready.mark(start, body.span);
        if let Some(condition) = condition {
            lemma_condition(ready, context, condition, marked);
        }
        let tested = match condition {
            Some(condition) => gen_condition(context, condition, marked).branch(
                Opcode::BranchFalse,
                start + 2,
                condition.span,
            ),
            None => marked,
        };
        assert(extends(ready, tested));
        let inside = around.with_loop(start + 2, start + 1);
        lemma_statement(ready, context, inside, *body, tested);
        let done = gen_stmt(context, inside, *body, tested).mark(start + 1, body.span);
        assert(extends(ready, done));
        if let Some(step) = step {
            lemma_alone(ready, context, step, done);
        }
        assert(extends(ready, end));
        lemma_chained(root, ready, end);
    }
}

#[verifier::spinoff_prover]
proof fn lemma_repeat(
    root: Gen,
    context: Context,
    around: Surroundings,
    statement: StmtTree,
    state: Gen,
)
    requires
        extends(root, state),
        statement.form is Repeat,
    ensures
        extends(root, gen_stmt(context, around, statement, state)),
    decreases statement, 0nat,
{
    broadcast use group_extends;

    reveal(gen_stmt);
    let end = gen_stmt(context, around, statement, state);
    if let StmtForm::Repeat { count, body } = statement.form {
        let start = state.next_label();
        let ready = state.labelled().labelled().labelled();
        lemma_same(ready);
        lemma_expr(ready, context, count, ready);
        let result = gen_expr(context, count, ready);
        let counted = result.state.convert(result.value_type, VmType::Int).dup(
            VmType::Int,
            1,
        ).word(0).compare(VmType::Int, VmType::Int, Condition::LessEqual).branch(
            Opcode::BranchTrue,
            start + 2,
            count.span,
        ).mark(start, body.span);
        assert(extends(ready, counted));
        lemma_statement(ready, context, around.with_loop(start + 2, start + 1), *body, counted);
        assert(extends(ready, end));
        lemma_chained(root, ready, end);
    }
}

#[verifier::spinoff_prover]
proof fn lemma_with(
    root: Gen,
    context: Context,
    around: Surroundings,
    statement: StmtTree,
    state: Gen,
)
    requires
        extends(root, state),
        statement.form is With,
    ensures
        extends(root, gen_stmt(context, around, statement, state)),
    decreases statement, 0nat,
{
    broadcast use group_extends;

    reveal(gen_stmt);
    let end = gen_stmt(context, around, statement, state);
    if let StmtForm::With { target, body } = statement.form {
        let start = state.next_label();
        let ready = state.labelled().labelled().labelled();
        lemma_same(ready);
        lemma_with_target(ready, context, target, ready);
        let entered = gen_with_target(context, target, ready).branch(
            Opcode::PushEnv,
            start + 1,
            target.span,
        ).mark(start, body.span);
        assert(extends(ready, entered));
        let depth = around.cleanup.len();
        let inside = Surroundings {
            cleanup: around.cleanup.push(Cleanup::With),
            breaks: around.breaks.push(Target { label: start + 2, depth }),
            continues: around.continues.push(Target { label: start + 1, depth: depth + 1 }),
        };
        lemma_statement(ready, context, inside, *body, entered);
        assert(extends(ready, end));
        lemma_chained(root, ready, end);
    }
}

#[verifier::spinoff_prover]
proof fn lemma_switch(
    root: Gen,
    context: Context,
    around: Surroundings,
    statement: StmtTree,
    state: Gen,
)
    requires
        extends(root, state),
        statement.form is Switch,
    ensures
        extends(root, gen_stmt(context, around, statement, state)),
    decreases statement, 0nat,
{
    broadcast use group_extends;

    reveal(gen_stmt);
    let end = gen_stmt(context, around, statement, state);
    if let StmtForm::Switch { value, body } = statement.form {
        if let StmtForm::Block(statements) = body.form {
            lemma_expr(root, context, value, state);
            let result = gen_expr(context, value, state);
            let value_type = result.value_type;
            lemma_cases(root, context, statements, value_type, result.state);
            let cases = gen_cases(context, statements, value_type, result.state);
            let last = cases.state.next_label();
            let ready = cases.state.labelled();
            lemma_same(ready);
            let chosen = match cases.default {
                Some(label) => ready.branch(Opcode::Branch, label, statement.span),
                None => ready,
            }.branch(Opcode::Branch, last, statement.span);
            assert(extends(ready, chosen));
            let cleanup = around.cleanup.push(Cleanup::Switch(value_type));
            let depth = cleanup.len();
            let breaks = around.breaks.push(Target { label: last, depth });
            if around.continues.len() == 0 {
                let inside = Surroundings { cleanup, breaks, continues: around.continues };
                lemma_bodies(ready, context, inside, statements, cases.labels, chosen);
                assert(extends(ready, end));
            } else {
                let label = chosen.next_label();
                let inside = Surroundings {
                    cleanup,
                    breaks,
                    continues: around.continues.push(Target { label, depth }),
                };
                let begun = chosen.labelled();
                lemma_same(begun);
                lemma_bodies(ready, context, inside, statements, cases.labels, begun);
                lemma_bodies(begun, context, inside, statements, cases.labels, begun);
                assert(extends(ready, end));
            }
            lemma_chained(root, ready, end);
        }
    }
}

#[verifier::spinoff_prover]
pub proof fn lemma_statement(
    root: Gen,
    context: Context,
    around: Surroundings,
    statement: StmtTree,
    state: Gen,
)
    requires
        extends(root, state),
    ensures
        extends(root, gen_stmt(context, around, statement, state)),
    decreases statement, 1nat,
{
    broadcast use group_extends;

    reveal(gen_stmt);
    match statement.form {
        StmtForm::Block(statements) => {
            lemma_statements(root, context, around, statements, state);
        },
        StmtForm::Var { declarations, .. } => {
            lemma_declarations(root, context, declarations, state);
        },
        StmtForm::If { .. } => {
            lemma_if(root, context, around, statement, state);
        },
        StmtForm::While { .. } => {
            lemma_while(root, context, around, statement, state);
        },
        StmtForm::DoUntil { .. } => {
            lemma_do(root, context, around, statement, state);
        },
        StmtForm::For { .. } => {
            lemma_for(root, context, around, statement, state);
        },
        StmtForm::Repeat { .. } => {
            lemma_repeat(root, context, around, statement, state);
        },
        StmtForm::With { .. } => {
            lemma_with(root, context, around, statement, state);
        },
        StmtForm::Switch { .. } => {
            lemma_switch(root, context, around, statement, state);
        },
        StmtForm::Return(value) => {
            match value {
                None => {
                    lemma_cleaned(root, state, around.cleanup, 0);
                },
                Some(value) => {
                    lemma_expr(root, context, value, state);
                    let result = gen_expr(context, value, state);
                    let ready = result.state.convert(result.value_type, VmType::Variable);
                    let stored = crate::gml::codegen::temporary(
                        ready,
                        Opcode::Pop,
                        Some(VmType::Variable),
                    );
                    lemma_cleaned(root, stored, around.cleanup, 0);
                },
            }
        },
        StmtForm::Exit => {
            lemma_cleaned(root, state, around.cleanup, 0);
        },
        StmtForm::Break => {
            if around.breaks.len() > 0 {
                lemma_cleaned(root, state, around.cleanup, around.breaks.last().depth);
            }
        },
        StmtForm::Continue => {
            if around.continues.len() > 0 {
                let counted = Gen { continues: state.continues.wrapping_add(1), ..state };
                assert(extends(root, counted)) by {
                    reveal(extends);
                }
                lemma_cleaned(root, counted, around.cleanup, around.continues.last().depth);
            }
        },
        StmtForm::Expr(value) => {
            lemma_alone(root, context, value, state);
        },
        _ => {},
    }
}

proof fn lemma_statements(
    root: Gen,
    context: Context,
    around: Surroundings,
    statements: Seq<StmtTree>,
    state: Gen,
)
    requires
        extends(root, state),
    ensures
        extends(root, gen_stmts(context, around, statements, state)),
    decreases statements, 0nat,
{
    reveal(gen_stmts);
    if statements.len() > 0 {
        lemma_statements(root, context, around, statements.drop_last(), state);
        lemma_statement(
            root,
            context,
            around,
            statements.last(),
            gen_stmts(context, around, statements.drop_last(), state),
        );
        lemma_last_statement(context, around, statements, state);
    }
}

proof fn lemma_last_statement(
    context: Context,
    around: Surroundings,
    statements: Seq<StmtTree>,
    state: Gen,
)
    requires
        statements.len() > 0,
    ensures
        gen_stmts(context, around, statements, state) == gen_stmt(
            context,
            around,
            statements.last(),
            gen_stmts(context, around, statements.drop_last(), state),
        ),
{
    reveal(gen_stmts);
    reveal(gen_stmt);
}

pub proof fn lemma_last_body(
    context: Context,
    around: Surroundings,
    statements: Seq<StmtTree>,
    labels: Seq<nat>,
    state: Gen,
)
    requires
        statements.len() > 0,
    ensures
        ({
            let before = gen_bodies(context, around, statements.drop_last(), labels, state);
            gen_bodies(context, around, statements, labels, state) == (if statements.last().form
                is Case || statements.last().form is Default {
                before.mark(
                    labels[case_count(statements.drop_last()) as int],
                    statements.last().span,
                )
            } else {
                gen_stmt(context, around, statements.last(), before)
            })
        }),
{
    reveal(gen_bodies);
    reveal(gen_stmt);
}

pub proof fn lemma_bodies(
    root: Gen,
    context: Context,
    around: Surroundings,
    statements: Seq<StmtTree>,
    labels: Seq<nat>,
    state: Gen,
)
    requires
        extends(root, state),
        case_count(statements) <= labels.len(),
        forall|k: int| 0 <= k < labels.len() ==> (#[trigger] labels[k]) < root.next_label(),
    ensures
        extends(root, gen_bodies(context, around, statements, labels, state)),
    decreases statements, 0nat,
{
    broadcast use group_extends;

    reveal(gen_bodies);
    if statements.len() > 0 {
        lemma_bodies(root, context, around, statements.drop_last(), labels, state);
        let before = gen_bodies(context, around, statements.drop_last(), labels, state);
        let statement = statements.last();
        lemma_last_body(context, around, statements, labels, state);
        if statement.form is Case || statement.form is Default {
            lemma_case_count(statements);
            assert(labels[case_count(statements.drop_last()) as int] < before.next_label());
        } else {
            lemma_statement(root, context, around, statement, before);
        }
    }
}

/// What is generated for a statement continues what was generated before it.
pub proof fn law_statements_continue_the_code(
    context: Context,
    around: Surroundings,
    statement: StmtTree,
    state: Gen,
)
    ensures
        extends(state, gen_stmt(context, around, statement, state)),
{
    lemma_same(state);
    lemma_statement(state, context, around, statement, state);
}

/// What is generated for statements continues what was generated for the first of
/// them.
pub proof fn law_later_statements_continue_the_code(
    context: Context,
    around: Surroundings,
    statements: Seq<StmtTree>,
    count: int,
    state: Gen,
)
    requires
        0 <= count <= statements.len(),
    ensures
        extends(
            gen_stmts(context, around, statements.take(count), state),
            gen_stmts(context, around, statements, state),
        ),
    decreases statements.len(),
{
    let first = gen_stmts(context, around, statements.take(count), state);
    if count == statements.len() {
        assert(statements.take(count) =~= statements);
        lemma_same(first);
    } else {
        reveal(gen_stmts);
        assert(statements.drop_last().take(count) =~= statements.take(count));
        law_later_statements_continue_the_code(
            context,
            around,
            statements.drop_last(),
            count,
            state,
        );
        let before = gen_stmts(context, around, statements.drop_last(), state);
        lemma_statement(first, context, around, statements.last(), before);
        lemma_last_statement(context, around, statements, state);
    }
}

} // verus!
