//! What the words of operations compute.

use vstd::prelude::*;

use crate::gml::ast::{AssignOp, BinaryOp, ExprTree, Span, UnaryOp};
use crate::gml::branch_laws::{code_word, size};
use crate::gml::codegen::{
    assignment_code, coerced, gen_arguments, gen_binary, gen_expr, operated, operated_unary,
    push_whole, stepped, Gen,
};
use crate::gml::codegen_laws::{extends, group_extends, lemma_same};
use crate::gml::constants::Context;
use crate::gml::vm::{
    instruction, le32, le64, type_pair, unsigned16, unsigned32, unsigned64, Condition, Opcode,
    VmType,
};

verus! {

/// What an operation on two numbers gives: a number, or the exact quotient of two.
pub enum Outcome {
    Number(int),
    Quotient { dividend: int, divisor: int },
    Unknown,
}

/// A truth value as a number.
pub open spec fn truth(value: bool) -> Outcome {
    if value {
        Outcome::Number(1)
    } else {
        Outcome::Number(0)
    }
}

/// What the machine computes at a word from two numbers on its stack, of which the
/// second one is on the top.
pub open spec fn computes(word: int, first: int, second: int) -> Outcome {
    let opcode = word / 0x100_0000;
    let test = word / 0x100 % 0x100;
    if opcode == 0x08 {
        Outcome::Number(first * second)
    } else if opcode == 0x09 {
        Outcome::Quotient { dividend: first, divisor: second }
    } else if opcode == 0x0a {
        Outcome::Number(first / second)
    } else if opcode == 0x0b {
        Outcome::Number(first % second)
    } else if opcode == 0x0c {
        Outcome::Number(first + second)
    } else if opcode == 0x0d {
        Outcome::Number(first - second)
    } else if opcode == 0x0e {
        Outcome::Number((first as i64 & second as i64) as int)
    } else if opcode == 0x0f {
        Outcome::Number((first as i64 | second as i64) as int)
    } else if opcode == 0x10 {
        Outcome::Number((first as i64 ^ second as i64) as int)
    } else if opcode == 0x13 {
        Outcome::Number(((first as i64) << (second as i64)) as int)
    } else if opcode == 0x14 {
        Outcome::Number(((first as i64) >> (second as i64)) as int)
    } else if opcode == 0x15 && test == 1 {
        truth(first < second)
    } else if opcode == 0x15 && test == 2 {
        truth(first <= second)
    } else if opcode == 0x15 && test == 3 {
        truth(first == second)
    } else if opcode == 0x15 && test == 4 {
        truth(first != second)
    } else if opcode == 0x15 && test == 5 {
        truth(first >= second)
    } else if opcode == 0x15 && test == 6 {
        truth(first > second)
    } else {
        Outcome::Unknown
    }
}

/// What an operator means.
pub open spec fn meaning(op: BinaryOp, left: int, right: int) -> Outcome {
    match op {
        BinaryOp::Add => Outcome::Number(left + right),
        BinaryOp::Subtract => Outcome::Number(left - right),
        BinaryOp::Multiply => Outcome::Number(left * right),
        BinaryOp::Divide => Outcome::Quotient { dividend: left, divisor: right },
        BinaryOp::IntegerDivide => Outcome::Number(left / right),
        BinaryOp::Modulo => Outcome::Number(left % right),
        BinaryOp::Equal => truth(left == right),
        BinaryOp::NotEqual => truth(left != right),
        BinaryOp::Less => truth(left < right),
        BinaryOp::LessEqual => truth(left <= right),
        BinaryOp::Greater => truth(left > right),
        BinaryOp::GreaterEqual => truth(left >= right),
        BinaryOp::BitAnd => Outcome::Number((left as i64 & right as i64) as int),
        BinaryOp::BitOr => Outcome::Number((left as i64 | right as i64) as int),
        BinaryOp::BitXor => Outcome::Number((left as i64 ^ right as i64) as int),
        BinaryOp::LogicalXor => Outcome::Number((left as i64 ^ right as i64) as int),
        BinaryOp::ShiftLeft => Outcome::Number(((left as i64) << (right as i64)) as int),
        BinaryOp::ShiftRight => Outcome::Number(((left as i64) >> (right as i64)) as int),
        _ => Outcome::Unknown,
    }
}

/// What an assignment that computes means.
pub open spec fn assigned(op: AssignOp, old_value: int, value: int) -> Outcome {
    match op {
        AssignOp::Assign => Outcome::Unknown,
        AssignOp::Add => Outcome::Number(old_value + value),
        AssignOp::Subtract => Outcome::Number(old_value - value),
        AssignOp::Multiply => Outcome::Number(old_value * value),
        AssignOp::Divide => Outcome::Quotient { dividend: old_value, divisor: value },
        AssignOp::Modulo => Outcome::Number(old_value % value),
        AssignOp::BitAnd => Outcome::Number((old_value as i64 & value as i64) as int),
        AssignOp::BitOr => Outcome::Number((old_value as i64 | value as i64) as int),
        AssignOp::BitXor => Outcome::Number((old_value as i64 ^ value as i64) as int),
    }
}

proof fn lemma_written(state: Gen, opcode: Opcode, argument: int, operand: int)
    requires
        0 <= argument < 0x100,
        0 <= operand < 0x1_0000,
    ensures
        ({
            let word = instruction(opcode, argument, operand);
            let after = state.written(le32(word));
            &&& size(after) == size(state) + 4
            &&& code_word(after.vm.bytes, size(state)) == word
            &&& word / 0x100_0000 == opcode.byte()
            &&& word / 0x1_0000 % 0x100 == argument
            &&& word % 0x1_0000 == operand
            &&& word / 0x100 % 0x100 == operand / 0x100
        }),
{
    let word = instruction(opcode, argument, operand);
    let after = state.written(le32(word));
    let at = size(state);
    let bytes = le32(word);
    assert(after.vm.bytes[at] == bytes[0]);
    assert(after.vm.bytes[at + 1] == bytes[1]);
    assert(after.vm.bytes[at + 2] == bytes[2]);
    assert(after.vm.bytes[at + 3] == bytes[3]);
    crate::gml::vm::law_word_reads_back(word);
}

proof fn lemma_types(state: Gen, opcode: Opcode, first: VmType, second: VmType)
    ensures
        ({
            let after = state.types(opcode, first, second);
            let word = code_word(after.vm.bytes, size(state));
            &&& size(after) == size(state) + 4
            &&& word / 0x100_0000 == opcode.byte()
            &&& word / 0x1_0000 % 0x100 == type_pair(first, second)
        }),
{
    reveal(Gen::types);
    lemma_written(state, opcode, type_pair(first, second), 0);
}

proof fn lemma_compare(state: Gen, first: VmType, second: VmType, condition: Condition)
    ensures
        ({
            let after = state.compare(first, second, condition);
            let word = code_word(after.vm.bytes, size(state));
            &&& size(after) == size(state) + 4
            &&& word / 0x100_0000 == 0x15
            &&& word / 0x100 % 0x100 == condition.number()
        }),
{
    reveal(Gen::compare);
    lemma_written(
        state,
        Opcode::SetValue,
        type_pair(first, second),
        256 * condition.number(),
    );
}

/// The word of an operator computes what the operator means, with the left operand
/// below the right one.
#[verifier::spinoff_prover]
pub proof fn law_words_compute_what_operators_mean(
    state: Gen,
    op: BinaryOp,
    left: VmType,
    right: VmType,
    first: int,
    second: int,
)
    requires
        !(op is LogicalAnd),
        !(op is LogicalOr),
    ensures
        ({
            let after = operated(state, op, left, right).state;
            &&& size(after) == size(state) + 4
            &&& computes(code_word(after.vm.bytes, size(state)), first, second) == meaning(
                op,
                first,
                second,
            )
        }),
{
    match op {
        BinaryOp::Equal => {
            lemma_compare(state, right, left, Condition::Equal);
        },
        BinaryOp::NotEqual => {
            lemma_compare(state, right, left, Condition::NotEqual);
        },
        BinaryOp::Less => {
            lemma_compare(state, right, left, Condition::Less);
        },
        BinaryOp::LessEqual => {
            lemma_compare(state, right, left, Condition::LessEqual);
        },
        BinaryOp::Greater => {
            lemma_compare(state, right, left, Condition::Greater);
        },
        BinaryOp::GreaterEqual => {
            lemma_compare(state, right, left, Condition::GreaterEqual);
        },
        BinaryOp::Add => {
            lemma_types(state, Opcode::Add, right, left);
        },
        BinaryOp::Subtract => {
            lemma_types(state, Opcode::Sub, right, left);
        },
        BinaryOp::Multiply => {
            lemma_types(state, Opcode::Mul, right, left);
        },
        BinaryOp::Divide => {
            lemma_types(state, Opcode::Div, right, left);
        },
        BinaryOp::IntegerDivide => {
            lemma_types(state, Opcode::Rem, right, left);
        },
        BinaryOp::Modulo => {
            lemma_types(state, Opcode::Mod, right, left);
        },
        BinaryOp::LogicalXor => {
            lemma_types(state, Opcode::Xor, right, left);
        },
        BinaryOp::BitXor => {
            lemma_types(state, Opcode::Xor, right, left);
        },
        BinaryOp::BitOr => {
            lemma_types(state, Opcode::Or, right, left);
        },
        BinaryOp::BitAnd => {
            lemma_types(state, Opcode::And, right, left);
        },
        BinaryOp::ShiftLeft => {
            lemma_types(state, Opcode::Shl, right, left);
        },
        BinaryOp::ShiftRight => {
            lemma_types(state, Opcode::Shr, right, left);
        },
        _ => {},
    }
}

/// The code of a binary operation is that of its left operand, then that of its
/// right one, each converted where the operator needs it, and at the end a word
/// that computes what the operator means.
#[verifier::spinoff_prover]
pub proof fn law_operations_compute_on_both_operands(
    context: Context,
    op: BinaryOp,
    left: ExprTree,
    right: ExprTree,
    state: Gen,
    first: int,
    second: int,
)
    requires
        !(op is LogicalAnd),
        !(op is LogicalOr),
    ensures
        ({
            let after = gen_binary(context, op, left, right, state).state;
            exists|middle: Gen, last: Gen|
                {
                    &&& #[trigger] extends(gen_expr(context, left, state).state, middle)
                    &&& #[trigger] extends(gen_expr(context, right, middle).state, last)
                    &&& extends(last, after)
                    &&& size(after) == size(last) + 4
                    &&& computes(code_word(after.vm.bytes, size(last)), first, second) == meaning(
                        op,
                        first,
                        second,
                    )
                }
        }),
{
    broadcast use group_extends;

    reveal(gen_binary);
    let after = gen_binary(context, op, left, right, state).state;
    let a = gen_expr(context, left, state);
    let b = coerced(a.state, op, a.value_type);
    let c = gen_expr(context, right, b.state);
    let d = coerced(c.state, op, c.value_type);
    lemma_same(a.state);
    lemma_same(c.state);
    lemma_same(d.state);
    assert(extends(a.state, b.state));
    assert(extends(c.state, d.state));
    reveal(gen_expr);
    assert(after == operated(d.state, op, b.value_type, d.value_type).state);
    law_words_compute_what_operators_mean(
        d.state,
        op,
        b.value_type,
        d.value_type,
        first,
        second,
    );
    assert(extends(d.state, after));
    assert(extends(gen_expr(context, left, state).state, b.state));
    assert(extends(gen_expr(context, right, b.state).state, d.state));
}

/// The word of an assignment that computes gives what the assignment means, with
/// the old value below the assigned one.
pub proof fn law_assignments_compute_what_they_mean(
    state: Gen,
    op: AssignOp,
    value_type: VmType,
    first: int,
    second: int,
)
    requires
        !(op is Assign),
    ensures
        ({
            let after = state.types(assignment_code(op), value_type, VmType::Variable);
            computes(code_word(after.vm.bytes, size(state)), first, second) == assigned(
                op,
                first,
                second,
            )
        }),
{
    lemma_types(state, assignment_code(op), value_type, VmType::Variable);
}

/// An increment adds one, and a decrement subtracts one.
pub proof fn law_steps_add_or_subtract_one(
    state: Gen,
    increment: bool,
    value_type: VmType,
    value: int,
)
    ensures
        ({
            let after = stepped(state, increment, value_type);
            &&& size(after) == size(state) + 8
            &&& code_word(after.vm.bytes, size(state)) == 0xc00f_0001
            &&& computes(code_word(after.vm.bytes, size(state) + 4), value, 1) == Outcome::Number(
                if increment {
                    value + 1
                } else {
                    value - 1
                },
            )
        }),
{
    reveal(Gen::short);
    lemma_written(state, Opcode::Push, VmType::Error.tag() as int, 1);
    let pushed = state.short(1);
    let opcode = if increment {
        Opcode::Add
    } else {
        Opcode::Sub
    };
    lemma_types(pushed, opcode, VmType::Int, value_type);
    let after = stepped(state, increment, value_type);
    assert(after == pushed.types(opcode, VmType::Int, value_type));
    reveal(Gen::types);
    let at = size(state);
    assert(after.vm.bytes[at] == pushed.vm.bytes[at]);
    assert(after.vm.bytes[at + 1] == pushed.vm.bytes[at + 1]);
    assert(after.vm.bytes[at + 2] == pushed.vm.bytes[at + 2]);
    assert(after.vm.bytes[at + 3] == pushed.vm.bytes[at + 3]);
}

/// The word of a prefix operator: a minus negates, and the negations are those of
/// truth values and of bits.
pub proof fn law_words_negate(state: Gen)
    ensures
        ({
            let negative = operated_unary(state, UnaryOp::Negative, VmType::Variable).state;
            let not = operated_unary(state, UnaryOp::Not, VmType::Bool).state;
            let inverted = operated_unary(state, UnaryOp::BitNot, VmType::Int).state;
            &&& code_word(negative.vm.bytes, size(state)) / 0x100_0000 == 0x11
            &&& code_word(not.vm.bytes, size(state)) == 0x1204_0000
            &&& code_word(inverted.vm.bytes, size(state)) == 0x1202_0000
            &&& operated_unary(state, UnaryOp::Positive, VmType::Variable).state == state
        }),
{
    reveal(Gen::emit);
    lemma_written(state, Opcode::Neg, VmType::Variable.tag() as int, 0);
    lemma_written(state, Opcode::Not, VmType::Bool.tag() as int, 0);
    lemma_written(state, Opcode::Not, VmType::Int.tag() as int, 0);
}

/// The signed number that the low bits of a word hold.
pub open spec fn signed(value: int, range: int) -> int {
    if value < range / 2 {
        value
    } else {
        value - range
    }
}

/// The number that the machine pushes at an offset: one in the word itself, or one
/// in the one or two words behind it.
pub open spec fn pushed(bytes: Seq<u8>, at: int) -> int {
    let word = code_word(bytes, at);
    if word / 0x1_0000 == 0x840f {
        signed(word % 0x1_0000, 0x1_0000)
    } else if word / 0x1_0000 == 0xc002 {
        signed(code_word(bytes, at + 4), 0x1_0000_0000)
    } else {
        signed(
            code_word(bytes, at + 4) + code_word(bytes, at + 8) * 0x1_0000_0000,
            0x1_0000_0000_0000_0000,
        )
    }
}

/// A whole number is pushed as it is, however many bits it needs.
#[verifier::spinoff_prover]
pub proof fn law_whole_numbers_are_pushed(state: Gen, value: i64)
    ensures
        ({
            let after = push_whole(state, value);
            &&& pushed(after.state.vm.bytes, size(state)) == value
            &&& value < -0x8000_0000 || value > 0x7fff_ffff ==> code_word(
                after.state.vm.bytes,
                size(state),
            ) == 0xc003_0000
        }),
{
    let at = size(state);
    let after = push_whole(state, value).state;
    if i16::MIN <= value <= i16::MAX {
        reveal(Gen::immediate);
        lemma_written(
            state,
            Opcode::PushImmediate,
            VmType::Error.tag() as int,
            unsigned16(value as i16),
        );
    } else if i32::MIN <= value <= i32::MAX {
        reveal(Gen::word);
        let head = instruction(Opcode::Push, VmType::Int.tag() as int, 0);
        let low = unsigned32(value as i32);
        lemma_two_words(state, head, low, seq![]);
        assert(after == state.written(le32(head) + le32(low)));
        assert(le32(head) + le32(low) + Seq::<u8>::empty() =~= le32(head) + le32(low));
    } else {
        reveal(Gen::long);
        let head = instruction(Opcode::Push, VmType::Long.tag() as int, 0);
        let all = unsigned64(value);
        let low = all % 0x1_0000_0000;
        let high = all / 0x1_0000_0000;
        lemma_two_words(state, head, low, le32(high));
        assert(le32(head) + le32(low) + le32(high) =~= le32(head) + le64(all));
        assert(after == state.written(le32(head) + le32(low) + le32(high)));
        let bytes = after.vm.bytes;
        let last = le32(high);
        assert(bytes[at + 8] == last[0]);
        assert(bytes[at + 9] == last[1]);
        assert(bytes[at + 10] == last[2]);
        assert(bytes[at + 11] == last[3]);
        crate::gml::vm::law_word_reads_back(high);
        assert(code_word(bytes, at + 8) == high);
    }
}

pub proof fn lemma_two_words(state: Gen, first: int, second: int, rest: Seq<u8>)
    requires
        0 <= first < 0x1_0000_0000,
        0 <= second < 0x1_0000_0000,
    ensures
        ({
            let after = state.written(le32(first) + le32(second) + rest);
            &&& code_word(after.vm.bytes, size(state)) == first
            &&& code_word(after.vm.bytes, size(state) + 4) == second
        }),
{
    let after = state.written(le32(first) + le32(second) + rest);
    let at = size(state);
    let a = le32(first);
    let b = le32(second);
    assert(after.vm.bytes[at] == a[0] && after.vm.bytes[at + 1] == a[1] && after.vm.bytes[at + 2]
        == a[2] && after.vm.bytes[at + 3] == a[3]);
    assert(after.vm.bytes[at + 4] == b[0] && after.vm.bytes[at + 5] == b[1] && after.vm.bytes[at
        + 6] == b[2] && after.vm.bytes[at + 7] == b[3]);
    crate::gml::vm::law_word_reads_back(first);
    crate::gml::vm::law_word_reads_back(second);
}

/// The bytes of the operations that begin and end calls, environments and codes.
pub proof fn law_operations_have_their_bytes()
    ensures
        Opcode::Call.byte() == 0xd9,
        Opcode::Return.byte() == 0x9c,
        Opcode::Exit.byte() == 0x9d,
        Opcode::PopNull.byte() == 0x9e,
        Opcode::PushEnv.byte() == 0xba,
        Opcode::PopEnv.byte() == 0xbb,
        Opcode::Push.byte() == 0xc0,
        Opcode::PushLocal.byte() == 0xc1,
        Opcode::PushGlobal.byte() == 0xc2,
        Opcode::PushBuiltin.byte() == 0xc3,
        Opcode::Pop.byte() == 0x45,
        Opcode::Dup.byte() == 0x86,
        Opcode::Conv.byte() == 0x07,
        Opcode::Break.byte() == 0xff,
{
}

/// A call holds the number of its arguments and refers to its function.
pub proof fn law_calls_name_their_functions(state: Gen, name: Seq<char>, count: u16, span: Span)
    requires
        size(state) + 4 <= u32::MAX,
    ensures
        ({
            let after = state.call(name, count, span);
            &&& size(after) == size(state) + 8
            &&& code_word(after.vm.bytes, size(state)) == 0xd902_0000 + count
            &&& after.vm.functions.len() == state.vm.functions.len() + 1
            &&& after.vm.functions.last().name == name
            &&& after.vm.functions.last().offset == size(state) + 4
        }),
{
    reveal(Gen::call);
    let word = instruction(Opcode::Call, VmType::Int.tag() as int, count as int);
    lemma_two_words(state, word, 0, seq![]);
    let after = state.call(name, count, span);
    assert(state.vm.bytes + le32(word) + le32(0) =~= state.vm.bytes + (le32(word) + le32(0)
        + Seq::<u8>::empty()));
    assert(after.vm.bytes == state.written(le32(word) + le32(0) + Seq::<u8>::empty()).vm.bytes);
}

/// The arguments of a call are computed from the last to the first, so that the
/// first one is on the top of the stack.
pub proof fn law_arguments_are_computed_from_the_last(
    context: Context,
    arguments: Seq<ExprTree>,
    state: Gen,
)
    requires
        arguments.len() > 0,
    ensures
        ({
            let last = gen_expr(context, arguments.last(), state);
            &&& gen_arguments(context, seq![], state) == state
            &&& gen_arguments(context, arguments, state) == gen_arguments(
                context,
                arguments.drop_last(),
                last.state.convert(last.value_type, VmType::Variable),
            )
        }),
{
    reveal(gen_arguments);
    reveal(gen_expr);
}

} // verus!
