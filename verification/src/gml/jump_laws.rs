//! Where `with`, `break` and `continue` lead in finished code, and with which words
//! code is left.

use vstd::prelude::*;

use crate::gml::ast::{StmtForm, StmtTree};
use crate::gml::branch_laws::{
    code_word, finished, is_finished, jumps, lemma_branch, lemma_code_word, lemma_labelled,
    lemma_mark, size, target_of,
};
use crate::gml::codegen::{
    cleaned, gen_expr, gen_stmt, gen_with_target, Cleanup, Gen, Surroundings, Target,
};
use crate::gml::codegen_laws::{
    extends, group_extends, lemma_chained, lemma_cleaned, lemma_same, lemma_statement,
    lemma_with_target,
};
use crate::gml::constants::Context;
use crate::gml::vm::{le32, Opcode, VmType};

verus! {

/// What is in force inside the body of a `with`, given where its `break` and its
/// `continue` lead.
pub open spec fn within(around: Surroundings, breaks: nat, continues: nat) -> Surroundings {
    Surroundings {
        cleanup: around.cleanup.push(Cleanup::With),
        breaks: around.breaks.push(Target { label: breaks, depth: around.cleanup.len() }),
        continues: around.continues.push(
            Target { label: continues, depth: around.cleanup.len() + 1 },
        ),
    }
}

/// A `with`: behind the code of its target stands the word that enters the first
/// instance, or leads to the word behind the body if there is none. The word behind
/// the body leads back to the start of the body for the next instance. A `continue`
/// in the body leads to that word, and a `break` behind the statement.
#[verifier::spinoff_prover]
#[verifier::rlimit(60)]
pub proof fn law_with_runs_its_body_for_each_instance(
    context: Context,
    around: Surroundings,
    statement: StmtTree,
    state: Gen,
    code: Gen,
)
    requires
        is_finished(code),
        extends(gen_stmt(context, around, statement, state), code),
        statement.form is With,
    ensures
        exists|ready: Gen, entered: Gen, breaks: nat, continues: nat|
            {
                let bytes = finished(code);
                let after = gen_stmt(context, around, statement, state);
                let target = #[trigger] gen_with_target(
                    context,
                    statement.form->With_target,
                    ready,
                );
                let body = #[trigger] gen_stmt(
                    context,
                    within(around, breaks, continues),
                    *statement.form->With_body,
                    entered,
                );
                &&& size(ready) == size(state)
                &&& extends(target, after)
                &&& extends(body, after)
                &&& size(entered) == size(target) + 4
                &&& code_word(bytes, size(target)) / 0x100_0000 == 0xba
                &&& target_of(bytes, size(target)) == size(body)
                &&& code_word(bytes, size(body)) / 0x100_0000 == 0xbb
                &&& target_of(bytes, size(body)) == size(entered)
                &&& size(after) == size(body) + 4
                &&& breaks < code.vm.labels.len()
                &&& continues < code.vm.labels.len()
                &&& code.vm.labels[breaks as int] == Some(size(after) as u32)
                &&& code.vm.labels[continues as int] == Some(size(body) as u32)
            },
{
    broadcast use group_extends;

    reveal(gen_stmt);
    if let StmtForm::With { target, body } = statement.form {
        let after = gen_stmt(context, around, statement, state);
        let start = state.next_label();
        let ready = state.labelled().labelled().labelled();
        lemma_labelled(state);
        lemma_labelled(state.labelled());
        lemma_labelled(state.labelled().labelled());
        lemma_same(ready);
        lemma_with_target(ready, context, target, ready);
        let reached = gen_with_target(context, target, ready);
        let pushed = reached.branch(Opcode::PushEnv, start + 1, target.span);
        let entered = pushed.mark(start, body.span);
        let inside = within(around, start + 2, start + 1);
        lemma_statement(ready, context, inside, *body, entered);
        lemma_same(pushed);
        assert(extends(pushed, entered));
        lemma_statement(pushed, context, inside, *body, entered);
        lemma_same(entered);
        lemma_statement(entered, context, inside, *body, entered);
        let done = gen_stmt(context, inside, *body, entered);
        lemma_same(reached);
        lemma_statement(reached, context, inside, *body, entered);
        lemma_same(done);
        let left = done.mark(start + 1, body.span);
        lemma_same(left);
        let popped = left.branch(Opcode::PopEnv, start, body.span);
        lemma_same(popped);
        assert(after == popped.mark(start + 2, body.span));
        lemma_chained(pushed, after, code);
        lemma_chained(entered, after, code);
        lemma_chained(left, after, code);
        lemma_chained(popped, after, code);
        lemma_branch(reached, Opcode::PushEnv, start + 1, target.span, code);
        lemma_branch(left, Opcode::PopEnv, start, body.span, code);
        lemma_mark(pushed, start, body.span, code);
        lemma_mark(done, start + 1, body.span, code);
        lemma_mark(popped, start + 2, body.span, code);
        assert(gen_with_target(context, target, ready) == reached);
        assert(gen_stmt(context, within(around, start + 2, start + 1), *body, entered) == done);
    }
}

/// The word that takes away what stands on the stack for a statement around.
pub open spec fn cleanup_word(cleanup: Cleanup) -> int {
    match cleanup {
        Cleanup::Switch(value_type) => 0x9e00_0000 + 0x1_0000 * value_type.tag(),
        Cleanup::With => 0xbbf0_0000,
    }
}

proof fn lemma_clean_word(state: Gen, cleanup: Cleanup, next: Gen, code: Gen)
    requires
        next == (match cleanup {
            Cleanup::Switch(value_type) => state.emit(Opcode::PopNull, value_type),
            Cleanup::With => state.types(Opcode::PopEnv, VmType::Double, VmType::Error),
        }),
        extends(next, code),
    ensures
        size(next) == size(state) + 4,
        code_word(code.vm.bytes, size(state)) == cleanup_word(cleanup),
{
    reveal(Gen::emit);
    reveal(Gen::types);
    reveal(extends);
    let at = size(state);
    assert(next.vm.bytes.subrange(at, at + 4) =~= le32(cleanup_word(cleanup)));
    lemma_code_word(next.vm.bytes, at, cleanup_word(cleanup), code.vm.bytes);
}

proof fn lemma_clean_words(state: Gen, cleanup: Seq<Cleanup>, depth: nat, code: Gen, k: int)
    requires
        extends(cleaned(state, cleanup, depth), code),
    ensures
        depth <= cleanup.len() ==> size(cleaned(state, cleanup, depth)) == size(state) + 4 * (
        cleanup.len() - depth),
        0 <= k < cleanup.len() - depth ==> code_word(code.vm.bytes, size(state) + 4 * k)
            == cleanup_word(cleanup[cleanup.len() - 1 - k]),
    decreases cleanup.len(),
{
    if cleanup.len() > depth {
        let next = match cleanup.last() {
            Cleanup::Switch(value_type) => state.emit(Opcode::PopNull, value_type),
            Cleanup::With => state.types(Opcode::PopEnv, VmType::Double, VmType::Error),
        };
        lemma_clean_words(next, cleanup.drop_last(), depth, code, k - 1);
        lemma_same(next);
        lemma_cleaned(next, next, cleanup.drop_last(), depth);
        lemma_chained(next, cleaned(state, cleanup, depth), code);
        lemma_clean_word(state, cleanup.last(), next, code);
    }
}

/// A `break` or a `continue`: what the statements between it and the one that it
/// leaves have put on the stack is taken away, the innermost first, and the last
/// word leads where the statement that it leaves wants it.
#[verifier::spinoff_prover]
pub proof fn law_breaks_and_continues_clean_up_and_leave(
    context: Context,
    around: Surroundings,
    statement: StmtTree,
    state: Gen,
    code: Gen,
    k: int,
)
    requires
        is_finished(code),
        extends(gen_stmt(context, around, statement, state), code),
        statement.form is Break || statement.form is Continue,
        statement.form is Break ==> around.breaks.len() > 0 && around.breaks.last().depth
            <= around.cleanup.len(),
        statement.form is Continue ==> around.continues.len() > 0
            && around.continues.last().depth <= around.cleanup.len(),
    ensures
        ({
            let left = if statement.form is Break {
                around.breaks.last()
            } else {
                around.continues.last()
            };
            let after = gen_stmt(context, around, statement, state);
            let count = around.cleanup.len() - left.depth;
            &&& size(after) == size(state) + 4 * count + 4
            &&& 0 <= k < count ==> code_word(code.vm.bytes, size(state) + 4 * k) == cleanup_word(
                around.cleanup[around.cleanup.len() - 1 - k],
            )
            &&& left.label < code.vm.labels.len()
            &&& code.vm.labels[left.label as int] is Some
            &&& jumps(
                finished(code),
                size(state) + 4 * count,
                code.vm.labels[left.label as int]->0 as int,
            )
        }),
{
    broadcast use group_extends;

    reveal(gen_stmt);
    let left = if statement.form is Break {
        around.breaks.last()
    } else {
        around.continues.last()
    };
    let begun = if statement.form is Break {
        state
    } else {
        Gen { continues: state.continues.wrapping_add(1), ..state }
    };
    let clean = cleaned(begun, around.cleanup, left.depth);
    lemma_same(clean);
    let after = gen_stmt(context, around, statement, state);
    assert(after == clean.branch(Opcode::Branch, left.label, statement.span));
    lemma_chained(clean, after, code);
    lemma_clean_words(begun, around.cleanup, left.depth, code, k);
    lemma_branch(clean, Opcode::Branch, left.label, statement.span, code);
}

proof fn lemma_emitted(state: Gen, opcode: Opcode, value_type: VmType, code: Gen)
    requires
        extends(state.emit(opcode, value_type), code),
    ensures
        size(state.emit(opcode, value_type)) == size(state) + 4,
        code_word(code.vm.bytes, size(state)) == 0x100_0000 * opcode.byte() + 0x1_0000
            * value_type.tag(),
{
    reveal(Gen::emit);
    reveal(extends);
    let at = size(state);
    let word = 0x100_0000 * opcode.byte() + 0x1_0000 * value_type.tag();
    let all = state.emit(opcode, value_type);
    assert(all.vm.bytes.subrange(at, at + 4) =~= le32(word));
    lemma_code_word(all.vm.bytes, at, word, code.vm.bytes);
}

/// An `exit`, and a `return` without a value: everything that the statements around
/// have put on the stack is taken away, the innermost first, and the last word
/// leaves the code without a value.
#[verifier::spinoff_prover]
pub proof fn law_exits_clean_up_and_leave(
    context: Context,
    around: Surroundings,
    statement: StmtTree,
    state: Gen,
    code: Gen,
    k: int,
)
    requires
        extends(gen_stmt(context, around, statement, state), code),
        statement.form is Exit || statement.form == StmtForm::Return(None),
    ensures
        ({
            let after = gen_stmt(context, around, statement, state);
            let count = around.cleanup.len() as int;
            &&& size(after) == size(state) + 4 * count + 4
            &&& 0 <= k < count ==> code_word(code.vm.bytes, size(state) + 4 * k) == cleanup_word(
                around.cleanup[count - 1 - k],
            )
            &&& code_word(code.vm.bytes, size(state) + 4 * count) == 0x9d02_0000
        }),
{
    broadcast use group_extends;

    reveal(gen_stmt);
    let clean = cleaned(state, around.cleanup, 0);
    let after = gen_stmt(context, around, statement, state);
    assert(after == clean.emit(Opcode::Exit, VmType::Int));
    lemma_same(clean);
    lemma_chained(clean, after, code);
    lemma_clean_words(state, around.cleanup, 0, code, k);
    lemma_emitted(clean, Opcode::Exit, VmType::Int, code);
}

/// A `return` with a value, outside of anything that has put something on the
/// stack: the code of the value, made a value of any type, and then the word that
/// leaves the code with it.
#[verifier::spinoff_prover]
pub proof fn law_returns_leave_with_their_value(
    context: Context,
    around: Surroundings,
    statement: StmtTree,
    state: Gen,
    code: Gen,
)
    requires
        extends(gen_stmt(context, around, statement, state), code),
        statement.form is Return,
        statement.form->Return_0 is Some,
        around.cleanup.len() == 0,
    ensures
        ({
            let value = gen_expr(context, statement.form->Return_0->0, state);
            let after = gen_stmt(context, around, statement, state);
            &&& extends(value.state, after)
            &&& value.value_type == VmType::Variable ==> size(after) == size(value.state) + 4
            &&& value.value_type != VmType::Variable ==> {
                &&& size(after) == size(value.state) + 8
                &&& code_word(code.vm.bytes, size(value.state)) == 0x0750_0000 + 0x1_0000
                    * value.value_type.tag()
            }
            &&& code_word(code.vm.bytes, size(after) - 4) == 0x9c05_0000
        }),
{
    broadcast use group_extends;

    reveal(gen_stmt);
    let value = gen_expr(context, statement.form->Return_0->0, state);
    let after = gen_stmt(context, around, statement, state);
    lemma_same(value.state);
    let ready = value.state.convert(value.value_type, VmType::Variable);
    assert(after == ready.emit(Opcode::Return, VmType::Variable));
    lemma_emitted(ready, Opcode::Return, VmType::Variable, code);
    lemma_same(ready);
    lemma_chained(ready, after, code);
    if value.value_type != VmType::Variable {
        lemma_converted(value.state, value.value_type, VmType::Variable, code);
    }
}

proof fn lemma_converted(state: Gen, from: VmType, to: VmType, code: Gen)
    requires
        extends(state.types(Opcode::Conv, from, to), code),
    ensures
        size(state.types(Opcode::Conv, from, to)) == size(state) + 4,
        code_word(code.vm.bytes, size(state)) == 0x0700_0000 + 0x10_0000 * to.tag() + 0x1_0000
            * from.tag(),
{
    reveal(Gen::types);
    reveal(extends);
    let at = size(state);
    let word = 0x0700_0000 + 0x10_0000 * to.tag() + 0x1_0000 * from.tag();
    let all = state.types(Opcode::Conv, from, to);
    assert(all.vm.bytes.subrange(at, at + 4) =~= le32(word));
    lemma_code_word(all.vm.bytes, at, word, code.vm.bytes);
}

} // verus!
