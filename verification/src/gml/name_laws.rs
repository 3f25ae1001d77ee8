//! What names stand for, and what the members of enumerations are worth.

use vstd::prelude::*;

use crate::gml::ast::{BinaryOp, Span, VarTree};
use crate::gml::constants::{with_member, with_members, Collected, Context, EnumValue};
use crate::gml::semantic::{with_identifier, NameAccess, Resolved, Scope};
use crate::gml::symbols::{last_place, SymbolId};

verus! {

proof fn lemma_last_place(ids: Seq<SymbolId>, id: SymbolId, count: int)
    requires
        0 <= count <= ids.len(),
    ensures
        match last_place(ids, id, count) {
            Some(place) => 0 <= place < count && ids[place] == id,
            None => forall|k: int| 0 <= k < count ==> #[trigger] ids[k] != id,
        },
    decreases count,
{
    if count > 0 {
        lemma_last_place(ids, id, count - 1);
    }
}

/// A name that stands for no value names a variable: a local one if the unit has
/// declared it, else a global one if the project has, else one of the runner, and
/// else one of the instance.
pub proof fn law_variables_are_found_from_the_inside_out(scope: Scope, id: SymbolId)
    requires
        scope.table.known(id).value is None,
        scope.locals.len() <= usize::MAX,
    ensures
        ({
            let binding = scope.value_or_variable(id);
            &&& scope.locals.contains(id) ==> binding is LocalVariable && scope.locals[binding->slot
                as int] == id
            &&& !scope.locals.contains(id) && scope.globals.contains(id) ==> binding
                is GlobalVariable
            &&& !scope.locals.contains(id) && !scope.globals.contains(id) && scope.table.known(
                id,
            ).builtin_variable ==> binding is BuiltinVariable
            &&& !scope.locals.contains(id) && !scope.globals.contains(id) && !scope.table.known(
                id,
            ).builtin_variable ==> binding is InstanceVariable
        }),
{
    lemma_last_place(scope.locals, id, scope.locals.len() as int);
}

/// A name that stands for a value is never a variable, and nothing is written to
/// it without an error.
pub proof fn law_values_are_not_written(
    state: Resolved,
    scope: Scope,
    span: Span,
    access: NameAccess,
)
    requires
        scope.table.known(scope.symbol(span)).value is Some,
    ensures
        ({
            let after = with_identifier(state, scope, span, access);
            let binding = after.names.last().binding;
            &&& after.names.len() == state.names.len() + 1
            &&& !(binding is LocalVariable || binding is GlobalVariable || binding
                is InstanceVariable || binding is BuiltinVariable)
            &&& (access is Write || access is ReadWrite) ==> after.errors.len()
                == state.errors.len() + 1
            &&& !(access is Write || access is ReadWrite) ==> after.errors == state.errors
        }),
{
}

/// The value of the members of an enumeration that are given none.
pub open spec fn counted_members(
    context: Context,
    enum_symbol: SymbolId,
    members: Seq<VarTree>,
) -> Seq<EnumValue> {
    Seq::new(
        members.len(),
        |k: int|
            EnumValue {
                enum_symbol,
                member_index: context.resolution(members[k].name)->0.binding->member_index,
                value: k as i64,
            },
    )
}

/// The members of an enumeration that are given no value count from zero.
pub proof fn law_members_count_from_zero(
    state: Collected,
    context: Context,
    enum_symbol: SymbolId,
    members: Seq<VarTree>,
)
    requires
        members.len() <= i64::MAX,
        forall|k: int|
            0 <= k < members.len() ==> {
                &&& (#[trigger] members[k]).value is None
                &&& context.resolution(members[k].name) is Some
                &&& context.resolution(members[k].name)->0.binding is EnumMember
            },
    ensures
        ({
            let (after, next) = with_members(state, context, enum_symbol, members);
            &&& after.values == state.values + counted_members(context, enum_symbol, members)
            &&& members.len() < i64::MAX ==> next == members.len()
        }),
    decreases members.len(),
{
    if members.len() > 0 {
        let fewer = members.drop_last();
        assert forall|k: int| 0 <= k < fewer.len() implies {
            &&& (#[trigger] fewer[k]).value is None
            &&& context.resolution(fewer[k].name) is Some
            &&& context.resolution(fewer[k].name)->0.binding is EnumMember
        } by {
            assert(fewer[k] == members[k]);
        }
        law_members_count_from_zero(state, context, enum_symbol, fewer);
        let last = members[members.len() - 1];
        assert(last.value is None);
        let (before, next) = with_members(state, context, enum_symbol, fewer);
        let (after, following) = with_member(before, next, context, enum_symbol, last);
        assert(after.values =~= state.values + counted_members(context, enum_symbol, members));
    } else {
        assert(state.values =~= state.values + counted_members(context, enum_symbol, members));
    }
}

/// A member behind one that is given a value counts on from it.
pub proof fn law_members_count_on(
    state: Collected,
    next: i64,
    context: Context,
    enum_symbol: SymbolId,
    member: VarTree,
)
    requires
        member.value is Some,
        (Context { values: state.values, ..context }).enum_constant(member.value->0) is Some,
        (Context { values: state.values, ..context }).enum_constant(member.value->0)->0 < i64::MAX,
        context.resolution(member.name) is Some,
        context.resolution(member.name)->0.binding is EnumMember,
    ensures
        ({
            let value = (Context { values: state.values, ..context }).enum_constant(
                member.value->0,
            )->0;
            let (after, following) = with_member(state, next, context, enum_symbol, member);
            &&& after.values.len() == state.values.len() + 1
            &&& after.values.last().value == value
            &&& after.errors == state.errors
            &&& following == value + 1
        }),
{
}

/// What the value of a member is computed to: sums, differences and products are
/// those of the numbers where they fit, and comparisons are one or zero.
pub proof fn law_members_are_computed(context: Context, left: i64, right: i64)
    ensures
        i64::MIN <= left + right <= i64::MAX ==> context.enum_binary(BinaryOp::Add, left, right)
            == Some((left + right) as i64),
        i64::MIN <= left - right <= i64::MAX ==> context.enum_binary(
            BinaryOp::Subtract,
            left,
            right,
        ) == Some((left - right) as i64),
        i64::MIN <= left * right <= i64::MAX ==> context.enum_binary(
            BinaryOp::Multiply,
            left,
            right,
        ) == Some((left * right) as i64),
        right == 0 ==> context.enum_binary(BinaryOp::Divide, left, right) is None,
        left < right ==> context.enum_binary(BinaryOp::Less, left, right) == Some(1i64)
            && context.enum_binary(BinaryOp::LessEqual, left, right) == Some(1i64)
            && context.enum_binary(BinaryOp::Greater, left, right) == Some(0i64)
            && context.enum_binary(BinaryOp::GreaterEqual, left, right) == Some(0i64)
            && context.enum_binary(BinaryOp::Equal, left, right) == Some(0i64)
            && context.enum_binary(BinaryOp::NotEqual, left, right) == Some(1i64),
        left > right ==> context.enum_binary(BinaryOp::Less, left, right) == Some(0i64)
            && context.enum_binary(BinaryOp::LessEqual, left, right) == Some(0i64)
            && context.enum_binary(BinaryOp::Greater, left, right) == Some(1i64)
            && context.enum_binary(BinaryOp::GreaterEqual, left, right) == Some(1i64)
            && context.enum_binary(BinaryOp::Equal, left, right) == Some(0i64)
            && context.enum_binary(BinaryOp::NotEqual, left, right) == Some(1i64),
        left == right ==> context.enum_binary(BinaryOp::Less, left, right) == Some(0i64)
            && context.enum_binary(BinaryOp::LessEqual, left, right) == Some(1i64)
            && context.enum_binary(BinaryOp::Greater, left, right) == Some(0i64)
            && context.enum_binary(BinaryOp::GreaterEqual, left, right) == Some(1i64)
            && context.enum_binary(BinaryOp::Equal, left, right) == Some(1i64)
            && context.enum_binary(BinaryOp::NotEqual, left, right) == Some(0i64),
{
}

} // verus!
