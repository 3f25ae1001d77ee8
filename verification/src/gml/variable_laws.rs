//! How variables are read and written, and how two indices make one.

use vstd::prelude::*;

use crate::gml::ast::ExprTree;
use crate::gml::branch_laws::{code_word, lemma_code_word, size};
use crate::gml::codegen::{
    base_of, gen_address, gen_expr, gen_plain_read, gen_plain_write, gen_read, gen_write,
    indices_of, place_of, Address, Gen, Place,
};
use crate::gml::codegen_laws::{extends, group_extends, lemma_expr, lemma_same};
use crate::gml::constants::{lists, Context};
use crate::gml::operation_laws::lemma_two_words;
use crate::gml::vm::{instruction, le32, type_pair, unsigned16, Opcode, VariableKind, VmType};

verus! {

/// Whether code ends with an access to a variable that is not on the stack: the
/// word that says how and of which instance, and the reference to the name.
pub open spec fn accesses(
    state: Gen,
    after: Gen,
    word: int,
    name: Seq<char>,
    kind: VariableKind,
) -> bool {
    &&& size(after) == size(state) + 8
    &&& code_word(after.vm.bytes, size(state)) == word
    &&& code_word(after.vm.bytes, size(state) + 4) == 0xa000_0000
    &&& after.vm.variables.len() == state.vm.variables.len() + 1
    &&& after.vm.variables.last().name == name
    &&& after.vm.variables.last().kind == kind
    &&& after.vm.variables.last().offset == size(state) + 4
}

proof fn lemma_variable(
    state: Gen,
    opcode: Opcode,
    instance: i16,
    target_type: Option<VmType>,
    name: Seq<char>,
    kind: VariableKind,
)
    requires
        size(state) + 4 <= u32::MAX,
    ensures
        accesses(
            state,
            state.variable(opcode, instance, target_type, None, name, kind, 0xa000_0000),
            0x100_0000 * opcode.byte() + (match target_type {
                None => 0x5_0000int,
                Some(target) => 0x5_0000 + 0x10_0000 * target.tag(),
            }) + (if instance < 0 {
                0x1_0000 + instance
            } else {
                instance as int
            }),
            name,
            kind,
        ),
{
    reveal(Gen::variable);
    let argument = match target_type {
        None => VmType::Variable.tag() as int,
        Some(target) => type_pair(VmType::Variable, target),
    };
    let word = instruction(opcode, argument, unsigned16(instance));
    lemma_two_words(state, word, 0xa000_0000, seq![]);
    let after = state.variable(opcode, instance, target_type, None, name, kind, 0xa000_0000);
    assert(state.vm.bytes + le32(word) + le32(0xa000_0000) =~= state.vm.bytes + (le32(word) + le32(
        0xa000_0000,
    ) + Seq::<u8>::empty()));
    assert(after.vm.bytes == state.written(
        le32(word) + le32(0xa000_0000) + Seq::<u8>::empty(),
    ).vm.bytes);
}

/// A name that stands for a variable is read from where the variable is: a local
/// one from the code itself, a global one from the globals, and any other from the
/// instance that runs the code.
pub proof fn law_variables_are_read_by_name(context: Context, value: ExprTree, state: Gen)
    requires
        size(state) + 4 <= u32::MAX,
        value.form is Identifier,
        context.resolution(value.span) is Some,
    ensures
        ({
            let resolution = context.resolution(value.span)->0;
            let name = context.name(resolution.symbol);
            let after = gen_read(context, value, seq![], state).state;
            &&& resolution.binding is LocalVariable ==> accesses(
                state,
                after,
                0xc105_fff9,
                name,
                VariableKind::Local,
            )
            &&& resolution.binding is GlobalVariable ==> accesses(
                state,
                after,
                0xc205_fffb,
                name,
                VariableKind::Global,
            )
            &&& resolution.binding is InstanceVariable ==> accesses(
                state,
                after,
                0xc005_ffff,
                name,
                VariableKind::Instance,
            )
            &&& resolution.binding is BuiltinVariable && !lists(
                context.builtins.array_variables@,
                name,
            ) ==> accesses(
                state,
                after,
                if lists(context.builtins.instance_variables@, name) {
                    0xc005_ffffint
                } else {
                    0xc305_ffff
                },
                name,
                VariableKind::Builtin,
            )
        }),
{
    reveal(gen_read);
    reveal(gen_plain_read);
    assert(base_of(value) == value);
    assert(indices_of(value) =~= Seq::<ExprTree>::empty());
    if let Some(place) = place_of(context, value) {
        if let Address::Simple { instance, opcode } = place.address {
            lemma_variable(state, opcode, instance, None, place.name, place.kind);
        }
    }
}

/// A name that stands for a variable is written where the variable is, as a value
/// of the type that stands on the stack.
pub proof fn law_variables_are_written_by_name(
    context: Context,
    target: ExprTree,
    value_type: VmType,
    state: Gen,
)
    requires
        size(state) + 4 <= u32::MAX,
        target.form is Identifier,
        context.resolution(target.span) is Some,
    ensures
        ({
            let resolution = context.resolution(target.span)->0;
            let name = context.name(resolution.symbol);
            let after = gen_write(context, target, value_type, state);
            let stored = 0x4505_0000 + 0x10_0000 * value_type.tag();
            &&& resolution.binding is LocalVariable ==> accesses(
                state,
                after,
                stored + 0xfff9,
                name,
                VariableKind::Local,
            )
            &&& resolution.binding is GlobalVariable ==> accesses(
                state,
                after,
                stored + 0xfffb,
                name,
                VariableKind::Global,
            )
            &&& resolution.binding is InstanceVariable ==> accesses(
                state,
                after,
                stored + 0xffff,
                name,
                VariableKind::Instance,
            )
        }),
{
    reveal(gen_write);
    reveal(gen_plain_write);
    assert(base_of(target) == target);
    assert(indices_of(target) =~= Seq::<ExprTree>::empty());
    if let Some(place) = place_of(context, target) {
        if let Address::Simple { instance, .. } = place.address {
            lemma_variable(state, Opcode::Pop, instance, Some(value_type), place.name, place.kind);
        }
    }
}

/// A member of an instance that is named by a word is read from that instance: of
/// `self`, of `other`, of the globals or of the code itself.
pub proof fn law_members_are_read_from_their_instance(
    context: Context,
    value: ExprTree,
    state: Gen,
)
    requires
        size(state) + 4 <= u32::MAX,
        value.form is Member,
        value.form->Member_target.form is Identifier,
        context.resolution(value.form->Member_name) is Some,
        context.resolution(value.form->Member_name)->0.binding is InstanceVariable,
        !lists(
            context.builtins.array_variables@,
            context.name(context.resolution(value.form->Member_name)->0.symbol),
        ),
    ensures
        ({
            let word = context.text(value.form->Member_target.span);
            let name = context.name(context.resolution(value.form->Member_name)->0.symbol);
            let after = gen_read(context, value, seq![], state).state;
            let kind = VariableKind::Instance;
            &&& word == "self"@ ==> accesses(state, after, 0xc005_ffff, name, kind)
            &&& word == "other"@ ==> accesses(state, after, 0xc005_fffe, name, kind)
            &&& word == "global"@ ==> accesses(state, after, 0xc205_fffb, name, kind)
            &&& word == "local"@ ==> accesses(state, after, 0xc105_fff9, name, kind)
        }),
{
    reveal(gen_read);
    reveal(gen_plain_read);
    reveal_strlit("self");
    reveal_strlit("other");
    reveal_strlit("global");
    reveal_strlit("local");
    assert("self"@[0] == 's' && "other"@[0] == 'o' && "global"@[0] == 'g' && "local"@[0] == 'l');
    assert(base_of(value) == value);
    assert(indices_of(value) =~= Seq::<ExprTree>::empty());
    if let Some(place) = place_of(context, value) {
        if let Address::Simple { instance, opcode } = place.address {
            lemma_variable(state, opcode, instance, None, place.name, place.kind);
        }
    }
}

/// What stands behind a row to make room for a column: the row is checked and
/// multiplied by the greatest number of columns.
pub open spec fn widened(row: Gen) -> Gen {
    row.hook(u16::MAX).word(32_000).types(Opcode::Mul, VmType::Int, VmType::Int)
}

#[verifier::spinoff_prover]
proof fn lemma_widened(row: Gen, code: Gen)
    requires
        extends(widened(row), code),
    ensures
        size(widened(row)) == size(row) + 16,
        code_word(code.vm.bytes, size(row)) == 0xff0f_ffff,
        code_word(code.vm.bytes, size(row) + 4) == 0xc002_0000,
        code_word(code.vm.bytes, size(row) + 8) == 32_000,
        code_word(code.vm.bytes, size(row) + 12) == 0x0822_0000,
{
    reveal(Gen::hook);
    reveal(Gen::word);
    reveal(Gen::types);
    reveal(extends);
    let at = size(row);
    let bytes = widened(row).vm.bytes;
    assert(bytes.subrange(at, at + 4) =~= le32(0xff0f_ffff));
    assert(bytes.subrange(at + 4, at + 8) =~= le32(0xc002_0000));
    assert(bytes.subrange(at + 8, at + 12) =~= le32(32_000));
    assert(bytes.subrange(at + 12, at + 16) =~= le32(0x0822_0000));
    lemma_code_word(bytes, at, 0xff0f_ffff, code.vm.bytes);
    lemma_code_word(bytes, at + 4, 0xc002_0000, code.vm.bytes);
    lemma_code_word(bytes, at + 8, 32_000, code.vm.bytes);
    lemma_code_word(bytes, at + 12, 0x0822_0000, code.vm.bytes);
}

#[verifier::spinoff_prover]
proof fn lemma_summed(column: Gen, code: Gen)
    requires
        extends(column.hook(u16::MAX).types(Opcode::Add, VmType::Int, VmType::Int), code),
    ensures
        size(column.hook(u16::MAX).types(Opcode::Add, VmType::Int, VmType::Int)) == size(column)
            + 8,
        code_word(code.vm.bytes, size(column)) == 0xff0f_ffff,
        code_word(code.vm.bytes, size(column) + 4) == 0x0c22_0000,
{
    reveal(Gen::hook);
    reveal(Gen::types);
    reveal(extends);
    let at = size(column);
    let bytes = column.hook(u16::MAX).types(Opcode::Add, VmType::Int, VmType::Int).vm.bytes;
    assert(bytes.subrange(at, at + 4) =~= le32(0xff0f_ffff));
    assert(bytes.subrange(at + 4, at + 8) =~= le32(0x0c22_0000));
    lemma_code_word(bytes, at, 0xff0f_ffff, code.vm.bytes);
    lemma_code_word(bytes, at + 4, 0x0c22_0000, code.vm.bytes);
}

proof fn lemma_owner(state: Gen, instance: i16, code: Gen)
    requires
        extends(state.immediate(instance), code),
    ensures
        size(state.immediate(instance)) == size(state) + 4,
        code_word(code.vm.bytes, size(state)) == 0x840f_0000 + (if instance < 0 {
            0x1_0000 + instance
        } else {
            instance as int
        }),
{
    reveal(Gen::immediate);
    reveal(extends);
    let at = size(state);
    let word = 0x840f_0000 + (if instance < 0 {
        0x1_0000 + instance
    } else {
        instance as int
    });
    let after = state.immediate(instance);
    assert(after.vm.bytes.subrange(at, at + 4) =~= le32(word));
    lemma_code_word(after.vm.bytes, at, word, code.vm.bytes);
}

/// The place of an element of an array with two indices: the instance, and then
/// one index, the row times the greatest number of columns plus the column.
#[verifier::spinoff_prover]
#[verifier::rlimit(40)]
pub proof fn law_two_indices_make_one(
    context: Context,
    place: Place,
    indices: Seq<ExprTree>,
    state: Gen,
)
    requires
        place.address is Simple,
        indices.len() == 2,
    ensures
        ({
            let after = gen_address(context, place, indices, state);
            let instance = place.address->Simple_instance;
            exists|owned: Gen, widened: Gen|
                {
                    let first = #[trigger] gen_expr(context, indices[0], owned);
                    let second = #[trigger] gen_expr(context, indices[1], widened);
                    let row = first.state.convert(first.value_type, VmType::Int);
                    let column = second.state.convert(second.value_type, VmType::Int);
                    &&& size(owned) == size(state) + 4
                    &&& code_word(after.vm.bytes, size(state)) == 0x840f_0000 + (if instance < 0 {
                        0x1_0000 + instance
                    } else {
                        instance as int
                    })
                    &&& extends(row, after)
                    &&& code_word(after.vm.bytes, size(row) + 4) == 0xc002_0000
                    &&& code_word(after.vm.bytes, size(row) + 8) == 32_000
                    &&& code_word(after.vm.bytes, size(row) + 12) == 0x0822_0000
                    &&& size(widened) == size(row) + 16
                    &&& extends(column, after)
                    &&& code_word(after.vm.bytes, size(column) + 4) == 0x0c22_0000
                    &&& size(after) == size(column) + 8
                }
        }),
{
    broadcast use group_extends;

    reveal(gen_address);
    reveal(gen_expr);
    let after = gen_address(context, place, indices, state);
    let instance = place.address->Simple_instance;
    let owned = state.immediate(instance);
    lemma_same(owned);
    let first = gen_expr(context, indices[0], owned);
    lemma_expr(owned, context, indices[0], owned);
    let row = first.state.convert(first.value_type, VmType::Int);
    lemma_same(row);
    let wide = widened(row);
    lemma_same(wide);
    lemma_expr(owned, context, indices[1], wide);
    lemma_expr(row, context, indices[1], wide);
    lemma_expr(wide, context, indices[1], wide);
    let second = gen_expr(context, indices[1], wide);
    let column = second.state.convert(second.value_type, VmType::Int);
    lemma_same(column);
    assert(after == column.hook(u16::MAX).types(Opcode::Add, VmType::Int, VmType::Int));
    lemma_same(after);
    lemma_owner(state, instance, after);
    lemma_widened(row, after);
    lemma_summed(column, after);
    assert(gen_expr(context, indices[0], owned) == first);
    assert(gen_expr(context, indices[1], wide) == second);
}

} // verus!
