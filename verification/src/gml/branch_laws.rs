//! Where the machine goes on in finished code: which branch of a choice it runs,
//! when it runs the body of a loop again, and when it leaves the loop.

use vstd::prelude::*;

use crate::gml::ast::{BinaryOp, ExprTree, Span, StmtForm, StmtTree};
use crate::gml::codegen::{
    gen_alone, gen_chain, gen_condition, gen_conditional, gen_expr, gen_stmt, gen_tests,
    lemma_chain, operands, Gen, Surroundings,
};
use crate::gml::codegen_laws::{
    extends, group_extends, lemma_alone, lemma_chained, lemma_condition, lemma_expr, lemma_same,
    lemma_statement, lemma_tests,
};
use crate::gml::constants::Context;
use crate::gml::floats::is_more_than_half;
use crate::gml::folding::Folded;
use crate::gml::vm::{
    law_resolved_branches_reach_their_labels, law_word_reads_back, le32, resolvable,
    resolved_branch, with_branches, word_at, Condition, Opcode, VmType,
};

verus! {

/// The word at an offset of code.
pub open spec fn code_word(bytes: Seq<u8>, at: int) -> int {
    bytes[at] + bytes[at + 1] * 0x100 + bytes[at + 2] * 0x1_0000 + bytes[at + 3] * 0x100_0000
}

/// The offset that a branch word leads to: its low 23 bits count words from the
/// branch word itself, and are negative from half of their range on.
pub open spec fn target_of(bytes: Seq<u8>, at: int) -> int {
    let low = code_word(bytes, at) % 0x80_0000;
    if low < 0x40_0000 {
        at + 4 * low
    } else {
        at + 4 * (low - 0x80_0000)
    }
}

/// The offset at which the machine goes on behind a word, given the truth value on
/// the top of its stack: a branch is always taken, a branch on true if the value is
/// true, and a branch on false if it is false. Behind any other word it goes on
/// with the next one.
pub open spec fn goes_on(bytes: Seq<u8>, at: int, truth: bool) -> int {
    let opcode = code_word(bytes, at) / 0x100_0000;
    if opcode == 0xb6 || (opcode == 0xb7 && truth) || (opcode == 0xb8 && !truth) {
        target_of(bytes, at)
    } else {
        at + 4
    }
}

/// Whether the machine goes on at one offset if a value is true, and at another if
/// it is false.
pub open spec fn chooses(bytes: Seq<u8>, at: int, yes: int, no: int) -> bool {
    goes_on(bytes, at, true) == yes && goes_on(bytes, at, false) == no
}

/// Whether the machine goes on at an offset in any case.
pub open spec fn jumps(bytes: Seq<u8>, at: int, to: int) -> bool {
    goes_on(bytes, at, true) == to && goes_on(bytes, at, false) == to
}

/// The offset behind generated code.
pub open spec fn size(code: Gen) -> int {
    code.vm.bytes.len() as int
}

/// Code with its branches filled in.
pub open spec fn finished(code: Gen) -> Seq<u8> {
    with_branches(code.vm.bytes, code.vm.labels, code.vm.branches, code.vm.branches.len())
}

/// Whether code is that of a whole unit in which nothing went wrong.
pub open spec fn is_finished(code: Gen) -> bool {
    &&& code.errors.len() == 0
    &&& code.vm.valid()
    &&& resolvable(code.vm.labels, code.vm.branches, code.vm.branches.len())
}

pub proof fn lemma_branch(state: Gen, opcode: Opcode, label: nat, span: Span, code: Gen)
    requires
        is_finished(code),
        extends(state.branch(opcode, label, span), code),
    ensures
        ({
            let bytes = finished(code);
            let at = size(state);
            &&& at <= u32::MAX
            &&& size(state.branch(opcode, label, span)) == at + 4
            &&& label < code.vm.labels.len()
            &&& code.vm.labels[label as int] is Some
            &&& code_word(bytes, at) / 0x100_0000 == opcode.byte()
            &&& target_of(bytes, at) == code.vm.labels[label as int]->0
            &&& opcode is Branch ==> jumps(bytes, at, code.vm.labels[label as int]->0 as int)
            &&& opcode is BranchTrue ==> chooses(
                bytes,
                at,
                code.vm.labels[label as int]->0 as int,
                at + 4,
            )
            &&& opcode is BranchFalse ==> chooses(
                bytes,
                at,
                at + 4,
                code.vm.labels[label as int]->0 as int,
            )
        }),
{
    reveal(Gen::branch);
    reveal(extends);
    let index = state.vm.branches.len() as int;
    let branched = state.branch(opcode, label, span);
    assert(size(state) <= u32::MAX);
    assert(branched.vm.branches[index].label == label);
    assert(code.vm.branches[index] == branched.vm.branches[index]);
    assert(resolved_branch(code.vm.labels, code.vm.branches[index]) is Ok);
    law_resolved_branches_reach_their_labels(code.vm, code.vm.branches.len(), index);
    let bytes = finished(code);
    assert(code_word(bytes, size(state)) == word_at(bytes, size(state)));
}

pub proof fn lemma_mark(state: Gen, label: nat, span: Span, code: Gen)
    requires
        is_finished(code),
        label < state.next_label(),
        extends(state.mark(label, span), code),
    ensures
        size(state) <= u32::MAX,
        size(state.mark(label, span)) == size(state),
        label < code.vm.labels.len(),
        code.vm.labels[label as int] == Some(size(state) as u32),
{
    reveal(Gen::mark);
    reveal(extends);
    assert(size(state) <= u32::MAX);
    let marked = state.mark(label, span);
    assert(marked.vm.labels[label as int] == Some(size(state) as u32));
}

pub proof fn lemma_labelled(state: Gen)
    ensures
        size(state.labelled()) == size(state),
{
    reveal(Gen::labelled);
}

proof fn lemma_sizes(first: Gen, second: Gen)
    requires
        extends(first, second),
    ensures
        size(first) <= size(second),
{
    reveal(extends);
}

/// An `if` whose condition is not constant: if the condition leaves true, the code
/// of its first branch is run and that of the other one is not; if the condition
/// leaves false, it is the other way round. Behind either, the machine goes on
/// behind the statement.
#[verifier::spinoff_prover]
#[verifier::rlimit(60)]
pub proof fn law_if_runs_the_branch_of_its_condition(
    context: Context,
    around: Surroundings,
    statement: StmtTree,
    state: Gen,
    code: Gen,
)
    requires
        is_finished(code),
        extends(gen_stmt(context, around, statement, state), code),
        statement.form is If,
        !(context.folded(statement.form->If_condition) matches Some(Folded::Number { .. })),
    ensures
        exists|ready: Gen, tested: Gen, other: Gen|
            {
                let bytes = finished(code);
                let after = gen_stmt(context, around, statement, state);
                let condition = #[trigger] gen_condition(
                    context,
                    statement.form->If_condition,
                    ready,
                );
                let first = #[trigger] gen_stmt(
                    context,
                    around,
                    *statement.form->then_branch,
                    tested,
                );
                &&& size(ready) == size(state)
                &&& extends(condition, after)
                &&& extends(first, after)
                &&& size(tested) == size(condition) + 4
                &&& chooses(bytes, size(condition), size(tested), size(other))
                &&& #[trigger] extends(state, other)
                &&& match statement.form->else_branch {
                    None => size(other) == size(first) && size(after) == size(first),
                    Some(branch) => {
                        let second = gen_stmt(context, around, *branch, other);
                        &&& extends(second, after)
                        &&& size(other) == size(first) + 4
                        &&& jumps(bytes, size(first), size(second))
                        &&& size(after) == size(second)
                    },
                }
            },
{
    broadcast use group_extends;

    reveal(gen_stmt);
    if let StmtForm::If { condition, then_branch, else_branch } = statement.form {
        let after = gen_stmt(context, around, statement, state);
        let otherwise = state.next_label();
        let end = otherwise + 1;
        let ready = state.labelled().labelled();
        lemma_labelled(state);
        lemma_labelled(state.labelled());
        lemma_same(state);
        lemma_same(ready);
        lemma_condition(ready, context, condition, ready);
        let asked = gen_condition(context, condition, ready);
        let tested = asked.branch(Opcode::BranchFalse, otherwise, condition.span);
        lemma_statement(ready, context, around, *then_branch, tested);
        lemma_same(tested);
        lemma_statement(tested, context, around, *then_branch, tested);
        let first = gen_stmt(context, around, *then_branch, tested);
        lemma_same(asked);
        lemma_statement(asked, context, around, *then_branch, tested);
        lemma_same(first);
        match else_branch {
            None => {
                let other = first.mark(otherwise, condition.span);
                lemma_same(other);
                assert(extends(other, after));
                assert(extends(tested, after));
                assert(extends(state, ready));
                lemma_chained(state, ready, other);
                lemma_chained(tested, after, code);
                lemma_chained(other, after, code);
                lemma_branch(asked, Opcode::BranchFalse, otherwise, condition.span, code);
                lemma_mark(first, otherwise, condition.span, code);
                lemma_mark(other, end, then_branch.span, code);
                assert(extends(state, other));
                assert(gen_condition(context, condition, ready) == asked);
                assert(gen_stmt(context, around, *then_branch, tested) == first);
            },
            Some(branch) => {
                let jump = first.branch(Opcode::Branch, end, then_branch.span);
                let other = jump.mark(otherwise, condition.span);
                lemma_statement(ready, context, around, *branch, other);
                lemma_statement(tested, context, around, *branch, other);
                lemma_same(jump);
                lemma_statement(jump, context, around, *branch, other);
                lemma_same(other);
                lemma_statement(other, context, around, *branch, other);
                lemma_statement(asked, context, around, *branch, other);
                lemma_statement(first, context, around, *branch, other);
                let second = gen_stmt(context, around, *branch, other);
                lemma_same(second);
                assert(after == second.mark(end, then_branch.span));
                assert(extends(state, ready));
                lemma_chained(state, ready, other);
                lemma_chained(tested, after, code);
                lemma_chained(jump, after, code);
                lemma_chained(other, after, code);
                lemma_branch(asked, Opcode::BranchFalse, otherwise, condition.span, code);
                lemma_branch(first, Opcode::Branch, end, then_branch.span, code);
                lemma_mark(jump, otherwise, condition.span, code);
                lemma_mark(second, end, then_branch.span, code);
                assert(extends(state, other));
                assert(gen_condition(context, condition, ready) == asked);
                assert(gen_stmt(context, around, *then_branch, tested) == first);
            },
        }
    }
}

/// An `if` whose condition is a constant number: the code is that of the first
/// branch alone if the number counts as true, that of the other branch alone if it
/// does not, and nothing if there is no other branch.
pub proof fn law_if_keeps_the_branch_of_a_constant_condition(
    context: Context,
    around: Surroundings,
    statement: StmtTree,
    state: Gen,
)
    requires
        statement.form is If,
        context.folded(statement.form->If_condition) matches Some(Folded::Number { .. }),
    ensures
        ({
            let after = gen_stmt(context, around, statement, state);
            let bits = context.folded(statement.form->If_condition)->0->Number_bits;
            &&& is_more_than_half(bits) ==> after == gen_stmt(
                context,
                around,
                *statement.form->then_branch,
                state,
            )
            &&& !is_more_than_half(bits) && statement.form->else_branch is Some ==> after
                == gen_stmt(context, around, *statement.form->else_branch->0, state)
            &&& !is_more_than_half(bits) && statement.form->else_branch is None ==> after == state
        }),
{
    reveal(gen_stmt);
}

/// A `while`: if its condition leaves true, the body is run and then the condition
/// again; if it leaves false, the machine goes on behind the statement. A `break`
/// in the body leads behind the statement, and a `continue` to the condition.
#[verifier::spinoff_prover]
#[verifier::rlimit(60)]
pub proof fn law_while_runs_its_body_as_long_as_its_condition_holds(
    context: Context,
    around: Surroundings,
    statement: StmtTree,
    state: Gen,
    code: Gen,
)
    requires
        is_finished(code),
        extends(gen_stmt(context, around, statement, state), code),
        statement.form is While,
    ensures
        exists|ready: Gen, tested: Gen, breaks: nat, repeats: nat|
            {
                let bytes = finished(code);
                let after = gen_stmt(context, around, statement, state);
                let condition = #[trigger] gen_condition(
                    context,
                    statement.form->While_condition,
                    ready,
                );
                let body = #[trigger] gen_stmt(
                    context,
                    around.with_loop(breaks, repeats),
                    *statement.form->While_body,
                    tested,
                );
                &&& size(ready) == size(state)
                &&& extends(condition, after)
                &&& extends(body, after)
                &&& size(tested) == size(condition) + 4
                &&& chooses(bytes, size(condition), size(tested), size(after))
                &&& jumps(bytes, size(body), size(state))
                &&& size(after) == size(body) + 4
                &&& breaks < code.vm.labels.len()
                &&& repeats < code.vm.labels.len()
                &&& code.vm.labels[breaks as int] == Some(size(after) as u32)
                &&& code.vm.labels[repeats as int] == Some(size(state) as u32)
            },
{
    broadcast use group_extends;

    reveal(gen_stmt);
    if let StmtForm::While { condition, body } = statement.form {
        let after = gen_stmt(context, around, statement, state);
        let start = state.next_label();
        let end = start + 1;
        let begun = state.labelled().labelled();
        lemma_labelled(state);
        lemma_labelled(state.labelled());
        lemma_same(begun);
        let ready = begun.mark(start, condition.span);
        lemma_condition(begun, context, condition, ready);
        lemma_same(ready);
        lemma_condition(ready, context, condition, ready);
        let asked = gen_condition(context, condition, ready);
        let tested = asked.branch(Opcode::BranchFalse, end, condition.span);
        let inside = around.with_loop(end, start);
        lemma_statement(begun, context, inside, *body, tested);
        lemma_statement(ready, context, inside, *body, tested);
        lemma_same(tested);
        lemma_statement(tested, context, inside, *body, tested);
        let done = gen_stmt(context, inside, *body, tested);
        lemma_same(asked);
        lemma_statement(asked, context, inside, *body, tested);
        lemma_same(done);
        let jump = done.branch(Opcode::Branch, start, body.span);
        lemma_same(jump);
        assert(after == jump.mark(end, body.span));
        assert(extends(ready, after));
        assert(extends(tested, after));
        assert(extends(jump, after));
        lemma_chained(ready, after, code);
        lemma_chained(tested, after, code);
        lemma_chained(jump, after, code);
        lemma_branch(asked, Opcode::BranchFalse, end, condition.span, code);
        lemma_branch(done, Opcode::Branch, start, body.span, code);
        lemma_mark(begun, start, condition.span, code);
        lemma_mark(jump, end, body.span, code);
        assert(gen_condition(context, condition, ready) == asked);
        assert(gen_stmt(context, around.with_loop(end, start), *body, tested) == done);
    }
}

/// A `do`: its body is run, and again if the condition behind it leaves false; if
/// it leaves true, the machine goes on behind the statement. A `break` in the body
/// leads behind the statement, and a `continue` to the condition.
#[verifier::spinoff_prover]
#[verifier::rlimit(60)]
pub proof fn law_do_runs_its_body_until_its_condition_holds(
    context: Context,
    around: Surroundings,
    statement: StmtTree,
    state: Gen,
    code: Gen,
)
    requires
        is_finished(code),
        extends(gen_stmt(context, around, statement, state), code),
        statement.form is DoUntil,
    ensures
        exists|ready: Gen, tested: Gen, breaks: nat, repeats: nat|
            {
                let bytes = finished(code);
                let after = gen_stmt(context, around, statement, state);
                let body = #[trigger] gen_stmt(
                    context,
                    around.with_loop(breaks, repeats),
                    *statement.form->DoUntil_body,
                    ready,
                );
                let condition = #[trigger] gen_condition(
                    context,
                    statement.form->DoUntil_condition,
                    tested,
                );
                &&& size(ready) == size(state)
                &&& extends(body, after)
                &&& extends(condition, after)
                &&& size(tested) == size(body)
                &&& chooses(bytes, size(condition), size(after), size(state))
                &&& size(after) == size(condition) + 4
                &&& breaks < code.vm.labels.len()
                &&& repeats < code.vm.labels.len()
                &&& code.vm.labels[breaks as int] == Some(size(after) as u32)
                &&& code.vm.labels[repeats as int] == Some(size(body) as u32)
            },
{
    broadcast use group_extends;

    reveal(gen_stmt);
    if let StmtForm::DoUntil { body, condition } = statement.form {
        let after = gen_stmt(context, around, statement, state);
        let start = state.next_label();
        let begun = state.labelled().labelled().labelled();
        lemma_labelled(state);
        lemma_labelled(state.labelled());
        lemma_labelled(state.labelled().labelled());
        lemma_same(begun);
        let ready = begun.mark(start, body.span);
        let inside = around.with_loop(start + 2, start + 1);
        lemma_statement(begun, context, inside, *body, ready);
        lemma_same(ready);
        lemma_statement(ready, context, inside, *body, ready);
        let done = gen_stmt(context, inside, *body, ready);
        let tested = done.mark(start + 1, condition.span);
        lemma_condition(begun, context, condition, tested);
        lemma_condition(ready, context, condition, tested);
        lemma_same(tested);
        lemma_condition(tested, context, condition, tested);
        let asked = gen_condition(context, condition, tested);
        lemma_same(done);
        lemma_condition(done, context, condition, tested);
        lemma_same(asked);
        let jump = asked.branch(Opcode::BranchFalse, start, condition.span);
        lemma_same(jump);
        assert(after == jump.mark(start + 2, condition.span));
        assert(extends(ready, after));
        assert(extends(tested, after));
        assert(extends(jump, after));
        lemma_chained(ready, after, code);
        lemma_chained(tested, after, code);
        lemma_chained(jump, after, code);
        lemma_branch(asked, Opcode::BranchFalse, start, condition.span, code);
        lemma_mark(begun, start, body.span, code);
        lemma_mark(done, start + 1, condition.span, code);
        lemma_mark(jump, start + 2, condition.span, code);
        assert(gen_condition(context, condition, tested) == asked);
        assert(gen_stmt(context, around.with_loop(start + 2, start + 1), *body, ready) == done);
    }
}

/// A `for` with a condition and a step: the first clause is run once; if the
/// condition leaves true, the body is run, then the step, and then the condition
/// again; if it leaves false, the machine goes on behind the statement. A `break`
/// in the body leads behind the statement, and a `continue` to the step.
#[verifier::spinoff_prover]
#[verifier::rlimit(60)]
pub proof fn law_for_runs_its_body_and_step_as_long_as_its_condition_holds(
    context: Context,
    around: Surroundings,
    statement: StmtTree,
    state: Gen,
    code: Gen,
)
    requires
        is_finished(code),
        extends(gen_stmt(context, around, statement, state), code),
        statement.form is For,
        statement.form->For_condition is Some,
        statement.form->step is Some,
    ensures
        exists|
            begun: Gen,
            ready: Gen,
            tested: Gen,
            stepping: Gen,
            breaks: nat,
            repeats: nat,
        |
            {
                let bytes = finished(code);
                let after = gen_stmt(context, around, statement, state);
                let condition = #[trigger] gen_condition(
                    context,
                    statement.form->For_condition->0,
                    ready,
                );
                let body = #[trigger] gen_stmt(
                    context,
                    around.with_loop(breaks, repeats),
                    *statement.form->For_body,
                    tested,
                );
                let stepped = #[trigger] gen_alone(context, statement.form->step->0, stepping);
                &&& begun == match statement.form->initializer {
                    Some(initializer) => gen_stmt(context, around, *initializer, state),
                    None => state,
                }
                &&& size(ready) == size(begun)
                &&& extends(condition, after)
                &&& extends(body, after)
                &&& extends(stepped, after)
                &&& size(tested) == size(condition) + 4
                &&& chooses(bytes, size(condition), size(tested), size(after))
                &&& size(stepping) == size(body)
                &&& jumps(bytes, size(stepped), size(begun))
                &&& size(after) == size(stepped) + 4
                &&& breaks < code.vm.labels.len()
                &&& repeats < code.vm.labels.len()
                &&& code.vm.labels[breaks as int] == Some(size(after) as u32)
                &&& code.vm.labels[repeats as int] == Some(size(body) as u32)
                &&& #[trigger] begun.next_label() <= breaks
            },
{
    broadcast use group_extends;

    reveal(gen_stmt);
    if let StmtForm::For { initializer, condition, step, body } = statement.form {
        let condition = condition->0;
        let step = step->0;
        let after = gen_stmt(context, around, statement, state);
        let first = match initializer {
            Some(initializer) => gen_stmt(context, around, *initializer, state),
            None => state,
        };
        let start = first.next_label();
        let begun = first.labelled().labelled().labelled();
        lemma_labelled(first);
        lemma_labelled(first.labelled());
        lemma_labelled(first.labelled().labelled());
        lemma_same(begun);
        let ready = begun.mark(start, body.span);
        lemma_same(ready);
        lemma_condition(begun, context, condition, ready);
        lemma_condition(ready, context, condition, ready);
        let asked = gen_condition(context, condition, ready);
        let tested = asked.branch(Opcode::BranchFalse, start + 2, condition.span);
        let inside = around.with_loop(start + 2, start + 1);
        lemma_statement(begun, context, inside, *body, tested);
        lemma_statement(ready, context, inside, *body, tested);
        lemma_same(tested);
        lemma_statement(tested, context, inside, *body, tested);
        let done = gen_stmt(context, inside, *body, tested);
        let stepping = done.mark(start + 1, body.span);
        lemma_same(stepping);
        lemma_alone(begun, context, step, stepping);
        lemma_alone(ready, context, step, stepping);
        lemma_alone(tested, context, step, stepping);
        lemma_alone(stepping, context, step, stepping);
        let stepped = gen_alone(context, step, stepping);
        lemma_same(asked);
        lemma_statement(asked, context, inside, *body, tested);
        lemma_alone(asked, context, step, stepping);
        lemma_same(done);
        lemma_alone(done, context, step, stepping);
        lemma_same(stepped);
        let jump = stepped.branch(Opcode::Branch, start, body.span);
        lemma_same(jump);
        assert(after == jump.mark(start + 2, body.span));
        assert(extends(ready, after));
        assert(extends(tested, after));
        assert(extends(stepping, after));
        assert(extends(jump, after));
        lemma_chained(ready, after, code);
        lemma_chained(tested, after, code);
        lemma_chained(stepping, after, code);
        lemma_chained(jump, after, code);
        lemma_branch(asked, Opcode::BranchFalse, start + 2, condition.span, code);
        lemma_branch(stepped, Opcode::Branch, start, body.span, code);
        lemma_mark(begun, start, body.span, code);
        lemma_mark(done, start + 1, body.span, code);
        lemma_mark(jump, start + 2, body.span, code);
        assert(gen_condition(context, condition, ready) == asked);
        assert(gen_stmt(context, around.with_loop(start + 2, start + 1), *body, tested) == done);
        assert(gen_alone(context, step, stepping) == stepped);
        assert(first.next_label() == start);
    }
}

/// A `repeat`: the number is computed once. If it is not greater than zero, the
/// machine goes on behind the body; otherwise the body is run, the number is made
/// less by one, and the body is run again unless nothing is left of it. The number
/// is taken off the stack at the end. A `break` in the body leads behind it, and a
/// `continue` to where the number is made less.
#[verifier::spinoff_prover]
#[verifier::rlimit(60)]
pub proof fn law_repeat_runs_its_body_as_often_as_it_says(
    context: Context,
    around: Surroundings,
    statement: StmtTree,
    state: Gen,
    code: Gen,
)
    requires
        is_finished(code),
        extends(gen_stmt(context, around, statement, state), code),
        statement.form is Repeat,
    ensures
        exists|counted: Gen, ready: Gen, breaks: nat, repeats: nat|
            {
                let bytes = finished(code);
                let after = gen_stmt(context, around, statement, state);
                let body = #[trigger] gen_stmt(
                    context,
                    around.with_loop(breaks, repeats),
                    *statement.form->Repeat_body,
                    ready,
                );
                &&& #[trigger] extends(state, counted)
                &&& counted == {
                    let count = gen_expr(
                        context,
                        statement.form->Repeat_count,
                        state.labelled().labelled().labelled(),
                    );
                    count.state.convert(count.value_type, VmType::Int)
                }
                &&& extends(counted, after)
                &&& extends(body, after)
                &&& size(ready) == size(counted) + 20
                &&& code_word(code.vm.bytes, size(counted)) == 0x8602_0000
                &&& code_word(code.vm.bytes, size(counted) + 4) == 0xc002_0000
                &&& code_word(code.vm.bytes, size(counted) + 8) == 0
                &&& code_word(code.vm.bytes, size(counted) + 12) == 0x1522_0200
                &&& chooses(bytes, size(counted) + 16, size(after) - 4, size(ready))
                &&& code_word(code.vm.bytes, size(body)) == 0xc002_0000
                &&& code_word(code.vm.bytes, size(body) + 4) == 1
                &&& code_word(code.vm.bytes, size(body) + 8) == 0x0d22_0000
                &&& code_word(code.vm.bytes, size(body) + 12) == 0x8602_0000
                &&& code_word(code.vm.bytes, size(body) + 16) == 0x0742_0000
                &&& chooses(bytes, size(body) + 20, size(ready), size(after) - 4)
                &&& code_word(code.vm.bytes, size(after) - 4) == 0x9e02_0000
                &&& size(after) == size(body) + 28
                &&& breaks < code.vm.labels.len()
                &&& repeats < code.vm.labels.len()
                &&& code.vm.labels[breaks as int] == Some((size(after) - 4) as u32)
                &&& code.vm.labels[repeats as int] == Some(size(body) as u32)
            },
{
    broadcast use group_extends;

    reveal(gen_stmt);
    if let StmtForm::Repeat { count, body } = statement.form {
        let after = gen_stmt(context, around, statement, state);
        let start = state.next_label();
        let begun = state.labelled().labelled().labelled();
        lemma_same(state);
        lemma_same(begun);
        lemma_expr(begun, context, count, begun);
        let result = gen_expr(context, count, begun);
        let counted = result.state.convert(result.value_type, VmType::Int);
        let tested = counted.dup(VmType::Int, 1).word(0).compare(
            VmType::Int,
            VmType::Int,
            Condition::LessEqual,
        );
        let asked = tested.branch(Opcode::BranchTrue, start + 2, count.span);
        let ready = asked.mark(start, body.span);
        let inside = around.with_loop(start + 2, start + 1);
        lemma_statement(begun, context, inside, *body, ready);
        lemma_same(tested);
        lemma_statement(tested, context, inside, *body, ready);
        lemma_same(asked);
        lemma_statement(asked, context, inside, *body, ready);
        lemma_same(ready);
        lemma_statement(ready, context, inside, *body, ready);
        let done = gen_stmt(context, inside, *body, ready);
        lemma_same(counted);
        lemma_statement(counted, context, inside, *body, ready);
        lemma_same(done);
        let marked = done.mark(start + 1, body.span);
        let less = marked.word(1).types(Opcode::Sub, VmType::Int, VmType::Int).dup(
            VmType::Int,
            1,
        ).types(Opcode::Conv, VmType::Int, VmType::Bool);
        let again = less.branch(Opcode::BranchTrue, start, body.span);
        let left = again.mark(start + 2, body.span);
        lemma_same(marked);
        lemma_same(less);
        lemma_same(again);
        lemma_same(left);
        lemma_same(after);
        assert(after == left.emit(Opcode::PopNull, VmType::Int));
        assert(extends(begun, counted));
        lemma_chained(state, begun, counted);
        lemma_chained(tested, after, code);
        lemma_chained(asked, after, code);
        lemma_chained(ready, after, code);
        lemma_chained(marked, after, code);
        lemma_chained(less, after, code);
        lemma_chained(again, after, code);
        lemma_chained(left, after, code);
        lemma_branch(tested, Opcode::BranchTrue, start + 2, count.span, code);
        lemma_branch(less, Opcode::BranchTrue, start, body.span, code);
        lemma_mark(asked, start, body.span, code);
        lemma_mark(done, start + 1, body.span, code);
        lemma_mark(again, start + 2, body.span, code);
        lemma_repeat_test(counted, code);
        lemma_repeat_step(marked, code);
        lemma_repeat_end(left, code);
        assert(gen_stmt(context, around.with_loop(start + 2, start + 1), *body, ready) == done);
        assert(extends(state, counted));
    }
}

pub proof fn lemma_code_word(bytes: Seq<u8>, at: int, word: int, more: Seq<u8>)
    requires
        0 <= at,
        at + 4 <= bytes.len() <= more.len(),
        0 <= word < 0x1_0000_0000,
        bytes.subrange(at, at + 4) == le32(word),
        forall|k: int| 0 <= k < bytes.len() ==> #[trigger] more[k] == bytes[k],
    ensures
        code_word(more, at) == word,
{
    let part = le32(word);
    assert(bytes.subrange(at, at + 4)[0] == part[0]);
    assert(bytes.subrange(at, at + 4)[1] == part[1]);
    assert(bytes.subrange(at, at + 4)[2] == part[2]);
    assert(bytes.subrange(at, at + 4)[3] == part[3]);
    assert(more[at] == bytes[at] && more[at + 1] == bytes[at + 1] && more[at + 2] == bytes[at + 2]
        && more[at + 3] == bytes[at + 3]);
    law_word_reads_back(word);
}

#[verifier::spinoff_prover]
proof fn lemma_repeat_test(counted: Gen, code: Gen)
    requires
        extends(
            counted.dup(VmType::Int, 1).word(0).compare(
                VmType::Int,
                VmType::Int,
                Condition::LessEqual,
            ),
            code,
        ),
    ensures
        size(
            counted.dup(VmType::Int, 1).word(0).compare(
                VmType::Int,
                VmType::Int,
                Condition::LessEqual,
            ),
        ) == size(counted) + 16,
        code_word(code.vm.bytes, size(counted)) == 0x8602_0000,
        code_word(code.vm.bytes, size(counted) + 4) == 0xc002_0000,
        code_word(code.vm.bytes, size(counted) + 8) == 0,
        code_word(code.vm.bytes, size(counted) + 12) == 0x1522_0200,
{
    reveal(Gen::dup);
    reveal(Gen::word);
    reveal(Gen::compare);
    reveal(extends);
    let all = counted.dup(VmType::Int, 1).word(0).compare(
        VmType::Int,
        VmType::Int,
        Condition::LessEqual,
    );
    let at = size(counted);
    let bytes = all.vm.bytes;
    assert(bytes.subrange(at, at + 4) =~= le32(0x8602_0000));
    assert(bytes.subrange(at + 4, at + 8) =~= le32(0xc002_0000));
    assert(bytes.subrange(at + 8, at + 12) =~= le32(0));
    assert(bytes.subrange(at + 12, at + 16) =~= le32(0x1522_0200));
    lemma_code_word(bytes, at, 0x8602_0000, code.vm.bytes);
    lemma_code_word(bytes, at + 4, 0xc002_0000, code.vm.bytes);
    lemma_code_word(bytes, at + 8, 0, code.vm.bytes);
    lemma_code_word(bytes, at + 12, 0x1522_0200, code.vm.bytes);
}

#[verifier::spinoff_prover]
proof fn lemma_repeat_step(marked: Gen, code: Gen)
    requires
        extends(
            marked.word(1).types(Opcode::Sub, VmType::Int, VmType::Int).dup(VmType::Int, 1).types(
                Opcode::Conv,
                VmType::Int,
                VmType::Bool,
            ),
            code,
        ),
    ensures
        size(
            marked.word(1).types(Opcode::Sub, VmType::Int, VmType::Int).dup(VmType::Int, 1).types(
                Opcode::Conv,
                VmType::Int,
                VmType::Bool,
            ),
        ) == size(marked) + 20,
        code_word(code.vm.bytes, size(marked)) == 0xc002_0000,
        code_word(code.vm.bytes, size(marked) + 4) == 1,
        code_word(code.vm.bytes, size(marked) + 8) == 0x0d22_0000,
        code_word(code.vm.bytes, size(marked) + 12) == 0x8602_0000,
        code_word(code.vm.bytes, size(marked) + 16) == 0x0742_0000,
{
    reveal(Gen::dup);
    reveal(Gen::word);
    reveal(Gen::types);
    reveal(extends);
    let all = marked.word(1).types(Opcode::Sub, VmType::Int, VmType::Int).dup(
        VmType::Int,
        1,
    ).types(Opcode::Conv, VmType::Int, VmType::Bool);
    let at = size(marked);
    let bytes = all.vm.bytes;
    assert(bytes.subrange(at, at + 4) =~= le32(0xc002_0000));
    assert(bytes.subrange(at + 4, at + 8) =~= le32(1));
    assert(bytes.subrange(at + 8, at + 12) =~= le32(0x0d22_0000));
    assert(bytes.subrange(at + 12, at + 16) =~= le32(0x8602_0000));
    assert(bytes.subrange(at + 16, at + 20) =~= le32(0x0742_0000));
    lemma_code_word(bytes, at, 0xc002_0000, code.vm.bytes);
    lemma_code_word(bytes, at + 4, 1, code.vm.bytes);
    lemma_code_word(bytes, at + 8, 0x0d22_0000, code.vm.bytes);
    lemma_code_word(bytes, at + 12, 0x8602_0000, code.vm.bytes);
    lemma_code_word(bytes, at + 16, 0x0742_0000, code.vm.bytes);
}

proof fn lemma_repeat_end(left: Gen, code: Gen)
    requires
        extends(left.emit(Opcode::PopNull, VmType::Int), code),
    ensures
        size(left.emit(Opcode::PopNull, VmType::Int)) == size(left) + 4,
        code_word(code.vm.bytes, size(left)) == 0x9e02_0000,
{
    reveal(Gen::emit);
    reveal(extends);
    let all = left.emit(Opcode::PopNull, VmType::Int);
    let at = size(left);
    assert(all.vm.bytes.subrange(at, at + 4) =~= le32(0x9e02_0000));
    lemma_code_word(all.vm.bytes, at, 0x9e02_0000, code.vm.bytes);
}

/// A choice between two values: if its condition leaves true, the code of the first
/// value is run and that of the second is not; if it leaves false, it is the other
/// way round.
#[verifier::spinoff_prover]
#[verifier::rlimit(60)]
pub proof fn law_choices_compute_the_value_of_their_condition(
    context: Context,
    condition: ExprTree,
    then_value: ExprTree,
    else_value: ExprTree,
    state: Gen,
    code: Gen,
)
    requires
        is_finished(code),
        extends(gen_conditional(context, condition, then_value, else_value, state).state, code),
    ensures
        exists|ready: Gen, tested: Gen, other: Gen|
            {
                let bytes = finished(code);
                let after =
                    gen_conditional(context, condition, then_value, else_value, state).state;
                let asked = #[trigger] gen_condition(context, condition, ready);
                let first = #[trigger] gen_expr(context, then_value, tested);
                let second = #[trigger] gen_expr(context, else_value, other);
                &&& size(ready) == size(state)
                &&& extends(asked, after)
                &&& extends(first.state, after)
                &&& extends(second.state, after)
                &&& size(tested) == size(asked) + 4
                &&& chooses(bytes, size(asked), size(tested), size(other))
                &&& size(first.state.convert(first.value_type, VmType::Variable)) + 4 == size(
                    other,
                )
                &&& jumps(bytes, size(other) - 4, size(after))
                &&& size(second.state.convert(second.value_type, VmType::Variable)) == size(after)
            },
{
    broadcast use group_extends;

    reveal(gen_conditional);
    let after = gen_conditional(context, condition, then_value, else_value, state).state;
    let otherwise = state.next_label();
    let end = otherwise + 1;
    let ready = state.labelled().labelled();
    lemma_labelled(state);
    lemma_labelled(state.labelled());
    lemma_same(ready);
    lemma_condition(ready, context, condition, ready);
    let asked = gen_condition(context, condition, ready);
    let tested = asked.branch(Opcode::BranchFalse, otherwise, condition.span);
    lemma_expr(ready, context, then_value, tested);
    lemma_same(tested);
    lemma_expr(tested, context, then_value, tested);
    let first = gen_expr(context, then_value, tested);
    let valued = first.state.convert(first.value_type, VmType::Variable);
    let jump = valued.branch(Opcode::Branch, end, then_value.span);
    let other = jump.mark(otherwise, else_value.span);
    lemma_expr(ready, context, else_value, other);
    lemma_expr(tested, context, else_value, other);
    lemma_same(jump);
    lemma_expr(jump, context, else_value, other);
    lemma_same(other);
    lemma_expr(other, context, else_value, other);
    let second = gen_expr(context, else_value, other);
    lemma_same(asked);
    lemma_expr(asked, context, then_value, tested);
    lemma_expr(asked, context, else_value, other);
    lemma_same(first.state);
    lemma_expr(first.state, context, else_value, other);
    lemma_same(second.state);
    let last = second.state.convert(second.value_type, VmType::Variable);
    assert(after == last.mark(end, else_value.span));
    assert(extends(tested, after));
    assert(extends(jump, after));
    assert(extends(other, after));
    lemma_chained(tested, after, code);
    lemma_chained(jump, after, code);
    lemma_chained(other, after, code);
    lemma_branch(asked, Opcode::BranchFalse, otherwise, condition.span, code);
    lemma_branch(valued, Opcode::Branch, end, then_value.span, code);
    lemma_mark(jump, otherwise, else_value.span, code);
    lemma_mark(last, end, else_value.span, code);
    assert(gen_condition(context, condition, ready) == asked);
    assert(gen_expr(context, then_value, tested) == first);
    assert(gen_expr(context, else_value, other) == second);
}

/// The offset of the word that leads behind the value that ends a chain early.
pub open spec fn end_of_last(shortcut: int) -> int {
    shortcut - 4
}

/// A test of a chain of logical operations: an operand of `&&` that leaves false
/// ends the chain, and so does an operand of `||` that leaves true; otherwise the
/// next operand is computed.
#[verifier::spinoff_prover]
#[verifier::rlimit(60)]
pub proof fn law_chains_end_with_the_first_operand_that_decides(
    context: Context,
    op: BinaryOp,
    left: ExprTree,
    right: ExprTree,
    state: Gen,
    code: Gen,
    at: int,
)
    requires
        is_finished(code),
        op is LogicalAnd || op is LogicalOr,
        extends(gen_chain(context, op, left, right, state).state, code),
        0 <= at < (operands(op, left) + operands(op, right)).len() - 1,
    ensures
        ({
            let operand = (operands(op, left) + operands(op, right))[at];
            let after = gen_chain(context, op, left, right, state).state;
            exists|shortcut: int, before: Gen|
                #![trigger
                    jumps(finished(code), end_of_last(shortcut), size(after)),
                    gen_condition(context, operand, before)
                ]
                {
                    let bytes = finished(code);
                    let asked = gen_condition(context, operand, before);
                    &&& size(state) <= size(asked)
                    &&& if op is LogicalAnd {
                        chooses(bytes, size(asked), size(asked) + 4, shortcut)
                    } else {
                        chooses(bytes, size(asked), shortcut, size(asked) + 4)
                    }
                    &&& jumps(bytes, end_of_last(shortcut), size(after))
                    &&& size(after) == shortcut + 4
                    &&& code_word(code.vm.bytes, shortcut) == (if op is LogicalAnd {
                        0xc00f_0000int
                    } else {
                        0xc00f_0001
                    })
                }
        }),
{
    broadcast use group_extends;

    reveal(gen_chain);
    lemma_chain(op, left, right);
    let all = operands(op, left) + operands(op, right);
    let after = gen_chain(context, op, left, right, state).state;
    let shortcut = state.next_label();
    let end = shortcut + 1;
    let opcode = if op is LogicalAnd {
        Opcode::BranchFalse
    } else {
        Opcode::BranchTrue
    };
    let ready = state.labelled().labelled();
    lemma_labelled(state);
    lemma_labelled(state.labelled());
    lemma_same(ready);
    lemma_tests(ready, context, all.drop_last(), opcode, shortcut, ready);
    let tested = gen_tests(context, all.drop_last(), opcode, shortcut, ready);
    lemma_expr(ready, context, all.last(), tested);
    lemma_same(tested);
    lemma_expr(tested, context, all.last(), tested);
    let last = gen_expr(context, all.last(), tested);
    let valued = last.state.convert(last.value_type, VmType::Bool);
    let jump = valued.branch(Opcode::Branch, end, all.last().span);
    let marked = jump.mark(shortcut, left.span);
    let decided = marked.short(
        if op is LogicalOr {
            1
        } else {
            0
        },
    );
    lemma_same(jump);
    lemma_same(marked);
    lemma_same(decided);
    assert(after == decided.mark(end, all.last().span));
    assert(extends(tested, after));
    assert(extends(jump, after));
    assert(extends(marked, after));
    lemma_chained(tested, after, code);
    lemma_chained(jump, after, code);
    lemma_chained(marked, after, code);
    lemma_branch(valued, Opcode::Branch, end, all.last().span, code);
    lemma_mark(jump, shortcut, left.span, code);
    lemma_mark(decided, end, all.last().span, code);
    let answer = if op is LogicalOr {
        1u16
    } else {
        0u16
    };
    lemma_chained(decided, after, code);
    lemma_answer(marked, answer, code);
    let place = size(marked);
    assert(jumps(finished(code), end_of_last(place), size(after)));
    lemma_tested(context, all.drop_last(), opcode, shortcut, ready, code, at);
    let before = gen_tests(context, all.drop_last().take(at), opcode, shortcut, ready);
    assert(all.drop_last()[at] == all[at]);
    let asked = gen_condition(context, all[at], before);
}

proof fn lemma_answer(state: Gen, value: u16, code: Gen)
    requires
        extends(state.short(value), code),
    ensures
        size(state.short(value)) == size(state) + 4,
        code_word(code.vm.bytes, size(state)) == 0xc00f_0000 + value,
{
    reveal(Gen::short);
    reveal(extends);
    let all = state.short(value);
    let at = size(state);
    assert(all.vm.bytes.subrange(at, at + 4) =~= le32(0xc00f_0000 + value));
    lemma_code_word(all.vm.bytes, at, 0xc00f_0000 + value, code.vm.bytes);
}

#[verifier::spinoff_prover]
proof fn lemma_tested(
    context: Context,
    tests: Seq<ExprTree>,
    opcode: Opcode,
    label: nat,
    state: Gen,
    code: Gen,
    at: int,
)
    requires
        is_finished(code),
        0 <= at < tests.len(),
        extends(gen_tests(context, tests, opcode, label, state), code),
        opcode is BranchTrue || opcode is BranchFalse,
    ensures
        ({
            let bytes = finished(code);
            let before = gen_tests(context, tests.take(at), opcode, label, state);
            let asked = gen_condition(context, tests[at], before);
            let place = code.vm.labels[label as int]->0 as int;
            &&& size(state) <= size(asked)
            &&& opcode is BranchFalse ==> chooses(bytes, size(asked), size(asked) + 4, place)
            &&& opcode is BranchTrue ==> chooses(bytes, size(asked), place, size(asked) + 4)
        }),
    decreases tests.len(),
{
    broadcast use group_extends;

    reveal(gen_tests);
    let earlier = tests.drop_last();
    let before = gen_tests(context, earlier, opcode, label, state);
    lemma_same(state);
    lemma_same(before);
    lemma_tests(state, context, earlier, opcode, label, state);
    lemma_condition(state, context, tests.last(), before);
    lemma_condition(before, context, tests.last(), before);
    let asked = gen_condition(context, tests.last(), before);
    let all = gen_tests(context, tests, opcode, label, state);
    reveal(gen_expr);
    assert(all == asked.branch(opcode, label, tests.last().span));
    if at == tests.len() - 1 {
        assert(tests.take(at) =~= earlier);
        lemma_sizes(state, asked);
        lemma_branch(asked, opcode, label, tests.last().span, code);
    } else {
        assert(extends(before, all));
        lemma_chained(before, all, code);
        assert(earlier.take(at) =~= tests.take(at));
        assert(earlier[at] == tests[at]);
        lemma_tested(context, earlier, opcode, label, state, code, at);
    }
}

} // verus!
