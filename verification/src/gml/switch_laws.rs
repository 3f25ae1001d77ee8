//! Which of its bodies a `switch` runs.

use vstd::prelude::*;

use crate::gml::ast::{ExprTree, StmtForm, StmtTree};
use crate::gml::branch_laws::{
    chooses, code_word, finished, is_finished, jumps, lemma_branch, lemma_code_word,
    lemma_labelled, lemma_mark, size,
};
use crate::gml::codegen::{
    case_count, gen_bodies, gen_cases, gen_expr, gen_stmt, Cleanup, Gen, Surroundings, Target,
};
use crate::gml::codegen_laws::{
    extends, group_extends, lemma_bodies, lemma_cases, lemma_chained, lemma_expr, lemma_last_body,
    lemma_same, lemma_statement,
};
use crate::gml::constants::Context;
use crate::gml::vm::{le32, Condition, Opcode, VmType};

verus! {

/// Whether a statement is the label of a body.
pub open spec fn is_case(statement: StmtTree) -> bool {
    statement.form is Case || statement.form is Default
}

proof fn lemma_case_label(
    context: Context,
    statements: Seq<StmtTree>,
    value_type: VmType,
    state: Gen,
    k: int,
)
    requires
        0 <= k < statements.len(),
        is_case(statements[k]),
    ensures
        ({
            let cases = gen_cases(context, statements, value_type, state);
            let before = gen_cases(context, statements.take(k), value_type, state);
            let index = case_count(statements.take(k)) as int;
            &&& index < cases.labels.len()
            &&& cases.labels[index] == before.state.next_label()
        }),
    decreases statements.len(),
{
    reveal(gen_cases);
    let fewer = statements.drop_last();
    lemma_same(state);
    lemma_cases(state, context, fewer, value_type, state);
    if k == statements.len() - 1 {
        assert(statements.take(k) =~= fewer);
    } else {
        assert(fewer.take(k) =~= statements.take(k));
        lemma_case_label(context, fewer, value_type, state, k);
    }
}

/// Whether a statement is the last default among statements.
pub open spec fn is_last_default(statements: Seq<StmtTree>, k: int) -> bool {
    &&& 0 <= k < statements.len()
    &&& statements[k].form is Default
    &&& forall|j: int| k < j < statements.len() ==> !((#[trigger] statements[j]).form is Default)
}

/// Whether there is no default among statements.
pub open spec fn has_no_default(statements: Seq<StmtTree>) -> bool {
    forall|j: int| 0 <= j < statements.len() ==> !((#[trigger] statements[j]).form is Default)
}

proof fn lemma_default(
    context: Context,
    statements: Seq<StmtTree>,
    value_type: VmType,
    state: Gen,
    k: int,
)
    ensures
        is_last_default(statements, k) ==> gen_cases(
            context,
            statements,
            value_type,
            state,
        ).default == Some(
            gen_cases(context, statements.take(k), value_type, state).state.next_label(),
        ),
        has_no_default(statements) == (gen_cases(
            context,
            statements,
            value_type,
            state,
        ).default is None),
    decreases statements.len(),
{
    reveal(gen_cases);
    if statements.len() > 0 {
        let fewer = statements.drop_last();
        if has_no_default(statements) {
            assert forall|j: int| 0 <= j < fewer.len() implies !((#[trigger] fewer[j]).form
                is Default) by {
                assert(fewer[j] == statements[j]);
            }
            assert(!(statements[statements.len() - 1].form is Default));
        } else {
            let j = choose|j: int|
                0 <= j < statements.len() && (#[trigger] statements[j]).form is Default;
            if j < fewer.len() {
                assert(fewer[j].form is Default);
            }
        }
        if is_last_default(statements, k) {
            if k == statements.len() - 1 {
                assert(statements.take(k) =~= fewer);
            } else {
                assert(fewer.take(k) =~= statements.take(k));
                assert forall|j: int| k < j < fewer.len() implies !((#[trigger] fewer[j]).form
                    is Default) by {
                    assert(fewer[j] == statements[j]);
                }
                assert(is_last_default(fewer, k));
                assert(!(statements[statements.len() - 1].form is Default));
            }
        }
        lemma_default(context, fewer, value_type, state, k);
    }
}

#[verifier::spinoff_prover]
proof fn lemma_later_cases(
    context: Context,
    statements: Seq<StmtTree>,
    value_type: VmType,
    state: Gen,
    k: int,
)
    requires
        0 <= k <= statements.len(),
    ensures
        extends(
            gen_cases(context, statements.take(k), value_type, state).state,
            gen_cases(context, statements, value_type, state).state,
        ),
    decreases statements.len(),
{
    broadcast use group_extends;

    reveal(gen_cases);
    let root = gen_cases(context, statements.take(k), value_type, state).state;
    lemma_same(root);
    if k == statements.len() {
        assert(statements.take(k) =~= statements);
    } else {
        let fewer = statements.drop_last();
        assert(fewer.take(k) =~= statements.take(k));
        lemma_later_cases(context, fewer, value_type, state, k);
        let before = gen_cases(context, fewer, value_type, state).state;
        if let StmtForm::Case(case) = statements.last().form {
            lemma_expr(root, context, case, before.labelled().dup(value_type, 1));
        }
    }
}

#[verifier::spinoff_prover]
proof fn lemma_later_bodies(
    context: Context,
    inside: Surroundings,
    statements: Seq<StmtTree>,
    labels: Seq<nat>,
    state: Gen,
    k: int,
)
    requires
        0 <= k <= statements.len(),
        case_count(statements) <= labels.len(),
        forall|j: int| 0 <= j < labels.len() ==> (#[trigger] labels[j]) < state.next_label(),
    ensures
        extends(
            gen_bodies(context, inside, statements.take(k), labels, state),
            gen_bodies(context, inside, statements, labels, state),
        ),
    decreases statements.len(),
{
    broadcast use group_extends;

    let root = gen_bodies(context, inside, statements.take(k), labels, state);
    lemma_same(root);
    if k == statements.len() {
        assert(statements.take(k) =~= statements);
    } else {
        let fewer = statements.drop_last();
        assert(fewer.take(k) =~= statements.take(k));
        lemma_later_bodies(context, inside, fewer, labels, state, k);
        lemma_same(state);
        lemma_bodies(state, context, inside, fewer, labels, state);
        let before = gen_bodies(context, inside, fewer, labels, state);
        lemma_last_body(context, inside, statements, labels, state);
        if is_case(statements.last()) {
            assert(labels[case_count(fewer) as int] < before.next_label());
        } else {
            lemma_statement(root, context, inside, statements.last(), before);
        }
    }
}

#[verifier::spinoff_prover]
proof fn lemma_compared(before: Gen, first: VmType, second: VmType, code: Gen)
    requires
        extends(before.compare(first, second, Condition::Equal), code),
    ensures
        size(before.compare(first, second, Condition::Equal)) == size(before) + 4,
        code_word(code.vm.bytes, size(before)) == 0x1500_0300 + 0x10_0000 * second.tag()
            + 0x1_0000 * first.tag(),
{
    reveal(Gen::compare);
    reveal(extends);
    let at = size(before);
    let word = 0x1500_0300 + 0x10_0000 * second.tag() + 0x1_0000 * first.tag();
    let all = before.compare(first, second, Condition::Equal);
    assert(all.vm.bytes.subrange(at, at + 4) =~= le32(word));
    lemma_code_word(all.vm.bytes, at, word, code.vm.bytes);
}

#[verifier::spinoff_prover]
proof fn lemma_doubled(before: Gen, value_type: VmType, code: Gen)
    requires
        extends(before.dup(value_type, 1), code),
    ensures
        size(before.dup(value_type, 1)) == size(before) + 4,
        code_word(code.vm.bytes, size(before)) == 0x8600_0000 + 0x1_0000 * value_type.tag(),
{
    reveal(Gen::dup);
    reveal(extends);
    let at = size(before);
    let word = 0x8600_0000 + 0x1_0000 * value_type.tag();
    let all = before.dup(value_type, 1);
    assert(all.vm.bytes.subrange(at, at + 4) =~= le32(word));
    lemma_code_word(all.vm.bytes, at, word, code.vm.bytes);
}

#[verifier::spinoff_prover]
proof fn lemma_dropped(before: Gen, value_type: VmType, code: Gen)
    requires
        extends(before.emit(Opcode::PopNull, value_type), code),
    ensures
        size(before.emit(Opcode::PopNull, value_type)) == size(before) + 4,
        code_word(code.vm.bytes, size(before)) == 0x9e00_0000 + 0x1_0000 * value_type.tag(),
{
    reveal(Gen::emit);
    reveal(extends);
    let at = size(before);
    let word = 0x9e00_0000 + 0x1_0000 * value_type.tag();
    let all = before.emit(Opcode::PopNull, value_type);
    assert(all.vm.bytes.subrange(at, at + 4) =~= le32(word));
    lemma_code_word(all.vm.bytes, at, word, code.vm.bytes);
}

/// Whether code tests a case: it doubles the value on the stack, computes that of
/// the case, asks whether they are equal, and goes on at an offset if they are and
/// with what follows if they are not.
pub open spec fn tests_case(
    context: Context,
    case: ExprTree,
    value_type: VmType,
    before: Gen,
    asked: Gen,
    after: Gen,
    code: Gen,
    to: int,
) -> bool {
    let compared = gen_expr(context, case, asked);
    &&& size(asked) == size(before) + 4
    &&& code_word(code.vm.bytes, size(before)) == 0x8600_0000 + 0x1_0000 * value_type.tag()
    &&& code_word(code.vm.bytes, size(compared.state)) == 0x1500_0300 + 0x10_0000
        * value_type.tag() + 0x1_0000 * compared.value_type.tag()
    &&& size(after) == size(compared.state) + 8
    &&& chooses(finished(code), size(compared.state) + 4, to, size(after))
}

#[verifier::spinoff_prover]
proof fn lemma_case_test(
    context: Context,
    statements: Seq<StmtTree>,
    value_type: VmType,
    state: Gen,
    k: int,
    code: Gen,
)
    requires
        is_finished(code),
        0 <= k < statements.len(),
        statements[k].form is Case,
        extends(gen_cases(context, statements, value_type, state).state, code),
    ensures
        ({
            let before = gen_cases(context, statements.take(k), value_type, state).state;
            let label = before.next_label();
            &&& label < code.vm.labels.len()
            &&& code.vm.labels[label as int] is Some
            &&& tests_case(
                context,
                statements[k].form->Case_0,
                value_type,
                before,
                before.labelled().dup(value_type, 1),
                gen_cases(context, statements.take(k + 1), value_type, state).state,
                code,
                code.vm.labels[label as int]->0 as int,
            )
        }),
{
    broadcast use group_extends;

    reveal(gen_cases);
    let more = statements.take(k + 1);
    assert(more.drop_last() =~= statements.take(k));
    let before = gen_cases(context, statements.take(k), value_type, state).state;
    let after = gen_cases(context, more, value_type, state).state;
    let all = gen_cases(context, statements, value_type, state).state;
    lemma_later_cases(context, statements, value_type, state, k + 1);
    lemma_chained(after, all, code);
    if let StmtForm::Case(case) = more.last().form {
        let label = before.next_label();
        let begun = before.labelled();
        let asked = begun.dup(value_type, 1);
        lemma_labelled(before);
        lemma_same(asked);
        lemma_expr(asked, context, case, asked);
        let result = gen_expr(context, case, asked);
        lemma_same(result.state);
        let compared = result.state.compare(result.value_type, value_type, Condition::Equal);
        lemma_same(compared);
        assert(after == compared.branch(Opcode::BranchTrue, label, case.span));
        lemma_chained(asked, after, code);
        lemma_chained(compared, after, code);
        lemma_doubled(begun, value_type, code);
        lemma_compared(result.state, result.value_type, value_type, code);
        lemma_branch(compared, Opcode::BranchTrue, label, case.span, code);
    }
}

#[verifier::spinoff_prover]
proof fn lemma_body_place(
    context: Context,
    inside: Surroundings,
    statements: Seq<StmtTree>,
    labels: Seq<nat>,
    state: Gen,
    k: int,
    code: Gen,
)
    requires
        is_finished(code),
        0 <= k < statements.len(),
        is_case(statements[k]),
        case_count(statements) <= labels.len(),
        forall|j: int| 0 <= j < labels.len() ==> (#[trigger] labels[j]) < state.next_label(),
        case_count(statements.take(k)) < labels.len(),
        extends(gen_bodies(context, inside, statements, labels, state), code),
    ensures
        ({
            let before = gen_bodies(context, inside, statements.take(k), labels, state);
            let label = labels[case_count(statements.take(k)) as int];
            &&& size(before) <= u32::MAX
            &&& label < code.vm.labels.len()
            &&& code.vm.labels[label as int] == Some(size(before) as u32)
        }),
{
    broadcast use group_extends;

    let more = statements.take(k + 1);
    let fewer = statements.take(k);
    assert(more.drop_last() =~= fewer);
    assert(more.last() == statements[k]);
    lemma_later_bodies(context, inside, statements, labels, state, k + 1);
    let all = gen_bodies(context, inside, statements, labels, state);
    let after = gen_bodies(context, inside, more, labels, state);
    let before = gen_bodies(context, inside, fewer, labels, state);
    lemma_last_body(context, inside, more, labels, state);
    lemma_chained(after, all, code);
    lemma_case_counts(statements, k);
    lemma_same(state);
    lemma_bodies(state, context, inside, fewer, labels, state);
    lemma_mark(before, labels[case_count(fewer) as int], statements[k].span, code);
}

proof fn lemma_case_counts(statements: Seq<StmtTree>, k: int)
    requires
        0 <= k <= statements.len(),
    ensures
        case_count(statements.take(k)) <= case_count(statements),
    decreases statements.len(),
{
    if k == statements.len() {
        assert(statements.take(k) =~= statements);
    } else {
        assert(statements.drop_last().take(k) =~= statements.take(k));
        lemma_case_counts(statements.drop_last(), k);
    }
}

/// Whether the code of a `switch` runs the body of the statement at an index exactly
/// if it is to be run: of a case, if the value equals that of the case, and of the
/// last default, if no case equals it. If there is no default, the machine goes on
/// behind the bodies, where the value is taken away and where a `break` leads.
pub open spec fn runs_equal_case(
    context: Context,
    around: Surroundings,
    statement: StmtTree,
    state: Gen,
    code: Gen,
    k: int,
    inside: Surroundings,
    labels: Seq<nat>,
    begun: Gen,
) -> bool {
    let statements = statement.form->Switch_body.form->Block_0;
    let value = gen_expr(context, statement.form->Switch_value, state);
    let before = gen_cases(context, statements.take(k), value.value_type, value.state).state;
    let tested = gen_cases(context, statements, value.value_type, value.state).state;
    let after = gen_stmt(context, around, statement, state);
    let place = size(gen_bodies(context, inside, statements.take(k), labels, begun));
    &&& size(begun) == size(tested) + (if has_no_default(statements) {
        4int
    } else {
        8
    })
    &&& extends(gen_bodies(context, inside, statements, labels, begun), after)
    &&& inside.cleanup == around.cleanup.push(Cleanup::Switch(value.value_type))
    &&& inside.breaks.drop_last() == around.breaks
    &&& inside.breaks.last().depth == inside.cleanup.len()
    &&& statements[k].form is Case ==> exists|asked: Gen|
        #[trigger] tests_case(
            context,
            statements[k].form->Case_0,
            value.value_type,
            before,
            asked,
            gen_cases(
                context,
                statements.take(k + 1),
                value.value_type,
                value.state,
            ).state,
            code,
            place,
        )
    &&& is_last_default(statements, k) ==> jumps(finished(code), size(tested), place)
    &&& has_no_default(statements) ==> jumps(
        finished(code),
        size(tested),
        size(after) - 4,
    )
    &&& code_word(code.vm.bytes, size(after) - 4) == 0x9e00_0000 + 0x1_0000
        * value.value_type.tag()
    &&& inside.breaks.len() > 0
    &&& inside.breaks.last().label < code.vm.labels.len()
    &&& code.vm.labels[inside.breaks.last().label as int] == Some(
        (size(after) - 4) as u32,
    )
}

/// A `switch`, seen at one of its cases. The value is computed once, and the cases
/// are tested in order: if the value equals that of the case, the machine goes on
/// with the body behind the case. If no case equals it, the machine goes on with the
/// body behind the last default, or behind the statement if there is none. There the
/// value is taken away, and a `break` leads there.
#[verifier::spinoff_prover]
#[verifier::rlimit(80)]
pub proof fn law_switch_runs_the_body_of_the_case_that_is_equal(
    context: Context,
    around: Surroundings,
    statement: StmtTree,
    state: Gen,
    code: Gen,
    k: int,
)
    requires
        is_finished(code),
        extends(gen_stmt(context, around, statement, state), code),
        statement.form is Switch,
        statement.form->Switch_body.form is Block,
        0 <= k < statement.form->Switch_body.form->Block_0.len(),
    ensures
        exists|inside: Surroundings, labels: Seq<nat>, begun: Gen|
            #[trigger] runs_equal_case(
                context,
                around,
                statement,
                state,
                code,
                k,
                inside,
                labels,
                begun,
            ),
{
    broadcast use group_extends;

    reveal(gen_stmt);
    let after = gen_stmt(context, around, statement, state);
    if let StmtForm::Switch { value: switched, body } = statement.form {
        if let StmtForm::Block(statements) = body.form {
            let value = gen_expr(context, switched, state);
            let value_type = value.value_type;
            let cases = gen_cases(context, statements, value_type, value.state);
            lemma_same(value.state);
            lemma_cases(value.state, context, statements, value_type, value.state);
            let end = cases.state.next_label();
            let ready = cases.state.labelled();
            lemma_labelled(cases.state);
            let first = match cases.default {
                Some(label) => ready.branch(Opcode::Branch, label, statement.span),
                None => ready,
            };
            let chosen = first.branch(Opcode::Branch, end, statement.span);
            let cleanup = around.cleanup.push(Cleanup::Switch(value_type));
            let depth = cleanup.len();
            let breaks = around.breaks.push(Target { label: end, depth });
            let plain = around.continues.len() == 0;
            let label = chosen.next_label();
            let inside = Surroundings {
                cleanup,
                breaks,
                continues: if plain {
                    around.continues
                } else {
                    around.continues.push(Target { label, depth })
                },
            };
            let begun = if plain {
                chosen
            } else {
                chosen.labelled()
            };
            let done = gen_bodies(context, inside, statements, cases.labels, begun);
            let left = if !plain && done.continues != chosen.continues {
                done.branch(Opcode::Branch, end, statement.span).mark(label, statement.span).emit(
                    Opcode::PopNull,
                    value_type,
                ).branch(Opcode::Branch, around.continues.last().label, statement.span)
            } else {
                done
            };
            let marked = left.mark(end, statement.span);
            assert(after == marked.emit(Opcode::PopNull, value_type));
            lemma_same(cases.state);
            lemma_same(ready);
            lemma_same(first);
            lemma_same(chosen);
            lemma_same(begun);
            assert(extends(cases.state, begun));
            assert(extends(ready, begun));
            assert(extends(first, begun));
            assert(extends(chosen, begun));
            lemma_bodies(cases.state, context, inside, statements, cases.labels, begun);
            lemma_bodies(begun, context, inside, statements, cases.labels, begun);
            lemma_same(done);
            assert(extends(begun, left));
            assert(extends(done, left));
            lemma_same(marked);
            assert(extends(begun, marked));
            assert(extends(done, marked));
            assert(extends(done, after));
            assert(extends(begun, after));
            assert(extends(marked, after));
            lemma_chained(done, after, code);
            lemma_chained(begun, after, code);
            lemma_chained(marked, after, code);
            lemma_chained(cases.state, begun, code);
            lemma_chained(first, begun, code);
            lemma_chained(chosen, begun, code);
            lemma_mark(left, end, statement.span, code);
            lemma_dropped(marked, value_type, code);
            lemma_default(context, statements, value_type, value.state, k);
            assert(first.branch(Opcode::Branch, end, statement.span) == chosen);
            lemma_branch(first, Opcode::Branch, end, statement.span, code);
            if let Some(default) = cases.default {
                lemma_branch(ready, Opcode::Branch, default, statement.span, code);
            }
            if is_case(statements[k]) {
                lemma_case_label(context, statements, value_type, value.state, k);
                lemma_body_place(context, inside, statements, cases.labels, begun, k, code);
            }
            if statements[k].form is Case {
                lemma_case_test(context, statements, value_type, value.state, k, code);
            }
            lemma_labelled(chosen);
            assert(inside.breaks.drop_last() =~= around.breaks);
            assert(runs_equal_case(
                context,
                around,
                statement,
                state,
                code,
                k,
                inside,
                cases.labels,
                begun,
            ));
        }
    }
}

} // verus!
