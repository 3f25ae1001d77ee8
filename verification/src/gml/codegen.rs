//! Code generation: the bytecode of a unit.
//!
//! [`Gen`] is what is generated so far, and its methods are the instructions
//! that the scheme below is made of: what is generated for an expression is
//! [`gen_expr`], and for a statement [`gen_stmt`].

use vstd::prelude::*;

use crate::gml::ast::{
    Accessor, AssignOp, BinaryOp, ExprForm, ExprTree, Span, StmtForm, StmtTree, UnaryOp, VarTree,
};
use crate::gml::constants::{lists, between_quotes, is_quoted, unquoted_text, Context};
use crate::gml::floats::{integral_value, is_more_than_half, truncated};
use crate::gml::folding::Folded;
use crate::gml::numbers::{hexadecimal, integer_value};
use crate::gml::semantic::NameBinding;
use crate::gml::symbols::{ResourceType, SymbolId};
use crate::gml::vm::{
    branch_word, error_text, instruction, le32, le64, type_pair, unsigned16, unsigned32, unsigned64,
    Condition, FunctionUse, Opcode, PendingBranch, StringUse, VariableKind, VariableUse, VmError,
    VmState, VmType,
};
use crate::gml::Report;
use crate::text::{debug_spelling, trimmed};

verus! {

/// The flags of an access to a variable of an instance that the instruction
/// names.
pub const SIMPLE_VARIABLE_FLAGS: u32 = 0xa000_0000;

/// The flags of an access to a variable of an instance on the stack.
pub const STACK_INSTANCE_FLAGS: u32 = 0x8000_0000;

/// The number of columns of an array.
pub const ARRAY_DIMENSION: i32 = 32_000;

/// The number of the current instance.
pub const SELF_INSTANCE: i16 = -1;

/// The number of the other instance.
pub const OTHER_INSTANCE: i16 = -2;

/// The number of the instance that holds the global variables.
pub const GLOBAL_INSTANCE: i16 = -5;

/// The number of the instance that holds the local variables.
pub const LOCAL_INSTANCE: i16 = -7;

/// What is generated so far: the instructions, what is wrong, and how often
/// the code goes on with a loop.
pub struct Gen {
    pub vm: VmState,
    pub errors: Seq<Report>,
    pub continues: u32,
}

/// The span of a message that belongs to no place.
pub open spec fn no_span() -> Span {
    Span { start: 0, end: 0, line: 0, column: 0 }
}

impl Gen {
    /// With an error.
    pub open spec fn error(self, span: Span, message: Seq<char>) -> Gen {
        Gen { errors: self.errors.push(Report { message, span }), ..self }
    }

    /// With some bytes.
    pub open spec fn written(self, bytes: Seq<u8>) -> Gen {
        Gen { vm: self.vm.written(bytes), ..self }
    }

    /// With an instruction with one type.
    #[verifier::opaque]
    pub open spec fn emit(self, opcode: Opcode, value_type: VmType) -> Gen {
        self.written(le32(instruction(opcode, value_type.tag() as int, 0)))
    }

    /// With an instruction with two types.
    #[verifier::opaque]
    pub open spec fn types(self, opcode: Opcode, first: VmType, second: VmType) -> Gen {
        self.written(le32(instruction(opcode, type_pair(first, second), 0)))
    }

    /// With a comparison.
    #[verifier::opaque]
    pub open spec fn compare(self, first: VmType, second: VmType, condition: Condition) -> Gen {
        self.written(
            le32(
                instruction(
                    Opcode::SetValue,
                    type_pair(first, second),
                    256 * condition.number(),
                ),
            ),
        )
    }

    /// With a duplication of the topmost values.
    #[verifier::opaque]
    pub open spec fn dup(self, value_type: VmType, count: int) -> Gen {
        self.written(le32(instruction(Opcode::Dup, value_type.tag() as int, count - 1)))
    }

    /// With a push of a 16-bit number.
    #[verifier::opaque]
    pub open spec fn immediate(self, value: i16) -> Gen {
        self.written(
            le32(
                instruction(
                    Opcode::PushImmediate,
                    VmType::Error.tag() as int,
                    unsigned16(value),
                ),
            ),
        )
    }

    /// With a push of a number without a payload.
    #[verifier::opaque]
    pub open spec fn short(self, value: u16) -> Gen {
        self.written(le32(instruction(Opcode::Push, VmType::Error.tag() as int, value as int)))
    }

    /// With a push of a 32-bit number.
    #[verifier::opaque]
    pub open spec fn word(self, value: i32) -> Gen {
        self.written(
            le32(instruction(Opcode::Push, VmType::Int.tag() as int, 0)) + le32(unsigned32(value)),
        )
    }

    /// With a push of a 64-bit number.
    #[verifier::opaque]
    pub open spec fn long(self, value: i64) -> Gen {
        self.written(
            le32(instruction(Opcode::Push, VmType::Long.tag() as int, 0)) + le64(unsigned64(value)),
        )
    }

    /// With a push of a double.
    #[verifier::opaque]
    pub open spec fn double(self, bits: u64) -> Gen {
        self.written(
            le32(instruction(Opcode::Push, VmType::Double.tag() as int, 0)) + le64(bits as int),
        )
    }

    /// With a hook of the runner.
    #[verifier::opaque]
    pub open spec fn hook(self, value: u16) -> Gen {
        self.written(le32(instruction(Opcode::Break, VmType::Error.tag() as int, value as int)))
    }

    /// With a pop that moves a value below the operands of a store.
    #[verifier::opaque]
    pub open spec fn reorder(self, depth: u16) -> Gen {
        self.written(
            le32(
                instruction(
                    Opcode::Pop,
                    type_pair(VmType::Error, VmType::Variable),
                    depth as int,
                ),
            ),
        )
    }

    /// With a push of a text.
    #[verifier::opaque]
    pub open spec fn text(self, value: Seq<char>, span: Span) -> Gen {
        let start = self.vm.written(
            le32(instruction(Opcode::Push, VmType::String.tag() as int, 0)),
        );
        if start.bytes.len() > u32::MAX {
            Gen { vm: start, ..self }.error(span, error_text(VmError::CodeTooLarge))
        } else {
            Gen {
                vm: VmState {
                    bytes: start.bytes + le32(0),
                    strings: start.strings.push(
                        StringUse { offset: start.bytes.len() as u32, value },
                    ),
                    ..start
                },
                ..self
            }
        }
    }

    /// With an access to a variable.
    #[verifier::opaque]
    pub open spec fn variable(
        self,
        opcode: Opcode,
        instance: i16,
        target_type: Option<VmType>,
        source_type: Option<VmType>,
        name: Seq<char>,
        kind: VariableKind,
        flags: u32,
    ) -> Gen {
        let argument = match target_type {
            None => VmType::Variable.tag() as int,
            Some(target) => match source_type {
                None => type_pair(VmType::Variable, target),
                Some(source) => type_pair(source, target),
            },
        };
        let start = self.vm.written(le32(instruction(opcode, argument, unsigned16(instance))));
        if start.bytes.len() > u32::MAX {
            Gen { vm: start, ..self }.error(no_span(), error_text(VmError::CodeTooLarge))
        } else {
            Gen {
                vm: VmState {
                    bytes: start.bytes + le32(flags as int),
                    variables: start.variables.push(
                        VariableUse {
                            offset: start.bytes.len() as u32,
                            name,
                            kind,
                            flags,
                            local_slot: None,
                        },
                    ),
                    ..start
                },
                ..self
            }
        }
    }

    /// With a call.
    #[verifier::opaque]
    pub open spec fn call(self, name: Seq<char>, count: u16, span: Span) -> Gen {
        let start = self.vm.written(
            le32(instruction(Opcode::Call, VmType::Int.tag() as int, count as int)),
        );
        if start.bytes.len() > u32::MAX {
            Gen { vm: start, ..self }.error(span, error_text(VmError::CodeTooLarge))
        } else {
            Gen {
                vm: VmState {
                    bytes: start.bytes + le32(0),
                    functions: start.functions.push(
                        FunctionUse { offset: start.bytes.len() as u32, name },
                    ),
                    ..start
                },
                ..self
            }
        }
    }

    /// The number of the next label.
    pub open spec fn next_label(self) -> nat {
        self.vm.labels.len()
    }

    /// With another label.
    #[verifier::opaque]
    pub open spec fn labelled(self) -> Gen {
        Gen { vm: VmState { labels: self.vm.labels.push(None), ..self.vm }, ..self }
    }

    /// With a label marked.
    #[verifier::opaque]
    pub open spec fn mark(self, label: nat, span: Span) -> Gen {
        if self.vm.bytes.len() > u32::MAX {
            self.error(span, error_text(VmError::CodeTooLarge))
        } else {
            let marked = Gen {
                vm: VmState {
                    labels: self.vm.labels.update(
                        label as int,
                        Some(self.vm.bytes.len() as u32),
                    ),
                    ..self.vm
                },
                ..self
            };
            if self.vm.labels[label as int] is Some {
                marked.error(span, error_text(VmError::LabelAlreadyMarked))
            } else {
                marked
            }
        }
    }

    /// With a branch to a label.
    #[verifier::opaque]
    pub open spec fn branch(self, opcode: Opcode, label: nat, span: Span) -> Gen {
        if self.vm.bytes.len() > u32::MAX {
            self.error(span, error_text(VmError::CodeTooLarge))
        } else {
            Gen {
                vm: VmState {
                    bytes: self.vm.bytes + le32(branch_word(opcode, 0)),
                    branches: self.vm.branches.push(
                        PendingBranch { offset: self.vm.bytes.len() as u32, opcode, label },
                    ),
                    ..self.vm
                },
                ..self
            }
        }
    }

    /// With a conversion, if the types differ.
    pub open spec fn convert(self, from: VmType, to: VmType) -> Gen {
        if from == to {
            self
        } else {
            self.types(Opcode::Conv, from, to)
        }
    }
}

/// What is generated for a value, and the type of the value.
pub struct Valued {
    pub state: Gen,
    pub value_type: VmType,
}

/// What is generated for a value of a type.
pub open spec fn valued(state: Gen, value_type: VmType) -> Valued {
    Valued { state, value_type }
}

/// The push of a whole number, in as few bits as hold it.
pub open spec fn push_whole(state: Gen, value: i64) -> Valued {
    if i16::MIN <= value <= i16::MAX {
        valued(state.immediate(value as i16), VmType::Int)
    } else if i32::MIN <= value <= i32::MAX {
        valued(state.word(value as i32), VmType::Int)
    } else {
        valued(state.long(value), VmType::Long)
    }
}

/// The push of a double, as a whole number if it is one.
pub open spec fn push_double(state: Gen, bits: u64, boolean: bool) -> Valued {
    if boolean {
        valued(
            state.immediate(truncated(bits, i16::MIN as int, i16::MAX as int) as i16),
            VmType::Bool,
        )
    } else {
        match integral_value(bits) {
            Some(value) => push_whole(state, value as i64),
            None => valued(state.double(bits), VmType::Double),
        }
    }
}

/// The push of a constant.
pub open spec fn push_constant(state: Gen, value: Folded, span: Span) -> Valued {
    match value {
        Folded::Number { bits, boolean } => push_double(state, bits, boolean),
        Folded::Int64(value) => valued(state.long(value), VmType::Long),
        Folded::Text(text) => valued(state.text(text, span), VmType::String),
    }
}

/// A zero in the place of what cannot be generated.
pub open spec fn push_nothing(state: Gen, span: Span, message: Seq<char>) -> Valued {
    valued(state.error(span, message).immediate(0), VmType::Int)
}

/// The push of the value of a member of an enumeration.
pub open spec fn push_member(
    state: Gen,
    context: Context,
    enum_symbol: SymbolId,
    member_index: usize,
    span: Span,
) -> Valued {
    match context.enum_value(enum_symbol, member_index) {
        Some(value) => push_whole(state, value),
        None => push_whole(
            state.error(span, "missing folded value for enum member"@),
            member_index as i64,
        ),
    }
}

/// The push of what the text of a configured constant stands for.
pub open spec fn push_configured(state: Gen, context: Context, text: Seq<char>, span: Span) -> Valued {
    let inner = trimmed(text);
    if is_quoted(inner) {
        valued(state.text(unquoted_text(inner), span), VmType::String)
    } else if inner.len() > 0 && inner[0] == '$' && integer_value(inner.skip(1), 16) is Some {
        push_whole(state, integer_value(inner.skip(1), 16).unwrap() as i64)
    } else {
        match (context.numbers)(inner) {
            Some(bits) => push_double(state, bits, false),
            None => match context.builtin(inner) {
                Some(bits) => push_double(state, bits, false),
                None => push_nothing(
                    state,
                    span,
                    "configured constant expression "@ + debug_spelling(inner)
                        + " is not yet foldable"@,
                ),
            },
        }
    }
}

/// The push of a number in the code.
pub open spec fn push_number(state: Gen, context: Context, span: Span) -> Valued {
    let text = context.text(span);
    match hexadecimal(text) {
        Some(digits) => match integer_value(digits, 16) {
            Some(value) => push_whole(state, value as i64),
            None => push_nothing(state, span, "invalid hexadecimal number "@ + text),
        },
        None => match (context.numbers)(text) {
            Some(bits) => push_double(state, bits, false),
            None => push_nothing(state, span, "invalid number "@ + text),
        },
    }
}

/// A text without a quote at both ends, or as it is.
pub open spec fn literal_text(text: Seq<char>) -> Seq<char> {
    match between_quotes(text) {
        Some(inner) => inner,
        None => text,
    }
}

/// The number of bytes of a value of a type.
pub open spec fn type_size(value_type: VmType) -> int {
    match value_type {
        VmType::Double => 8,
        VmType::Long => 8,
        VmType::Variable => 12,
        VmType::Float => 4,
        VmType::Int => 4,
        VmType::Bool => 4,
        VmType::String => 4,
        _ => 0,
    }
}

/// The type of the result of an operation on two types: the larger one, or of
/// two of the same size the one with the lesser tag.
pub open spec fn wider_type(first: VmType, second: VmType) -> VmType {
    if type_size(first) > type_size(second) {
        first
    } else if type_size(second) > type_size(first) {
        second
    } else if first.tag() < second.tag() {
        first
    } else {
        second
    }
}

/// The conversion of an operand that an operation calls for.
pub open spec fn coerced(state: Gen, op: BinaryOp, value_type: VmType) -> Valued {
    match op {
        BinaryOp::Divide => if value_type is Double || value_type is Variable {
            valued(state, value_type)
        } else {
            valued(state.convert(value_type, VmType::Double), VmType::Double)
        },
        BinaryOp::Add | BinaryOp::Subtract | BinaryOp::Multiply | BinaryOp::IntegerDivide
        | BinaryOp::Modulo => if value_type is Bool {
            valued(state.convert(value_type, VmType::Int), VmType::Int)
        } else {
            valued(state, value_type)
        },
        BinaryOp::LogicalXor => if value_type is Bool {
            valued(state, value_type)
        } else {
            valued(state.convert(value_type, VmType::Bool), VmType::Bool)
        },
        BinaryOp::BitOr | BinaryOp::BitAnd | BinaryOp::BitXor => if value_type is Int {
            valued(state, VmType::Int)
        } else if value_type is Variable || value_type is Double || value_type is Long {
            valued(state.convert(value_type, VmType::Long), VmType::Long)
        } else {
            valued(state.convert(value_type, VmType::Int), VmType::Int)
        },
        BinaryOp::ShiftLeft | BinaryOp::ShiftRight => valued(
            state.convert(value_type, VmType::Long),
            VmType::Long,
        ),
        _ => valued(state, value_type),
    }
}

/// The conversion of the right side of an assignment that computes.
pub open spec fn coerced_assigned(state: Gen, op: AssignOp, value_type: VmType) -> Valued {
    if op is BitOr || op is BitAnd || op is BitXor {
        if value_type is Int || value_type is Long {
            valued(state, value_type)
        } else {
            valued(state.convert(value_type, VmType::Int), VmType::Int)
        }
    } else if value_type is Bool {
        valued(state.convert(value_type, VmType::Int), VmType::Int)
    } else {
        valued(state, value_type)
    }
}

/// The instruction of an assignment that computes.
pub open spec fn assignment_code(op: AssignOp) -> Opcode {
    match op {
        AssignOp::Assign => Opcode::Add,
        AssignOp::Add => Opcode::Add,
        AssignOp::Subtract => Opcode::Sub,
        AssignOp::Multiply => Opcode::Mul,
        AssignOp::Divide => Opcode::Div,
        AssignOp::Modulo => Opcode::Mod,
        AssignOp::BitOr => Opcode::Or,
        AssignOp::BitAnd => Opcode::And,
        AssignOp::BitXor => Opcode::Xor,
    }
}

/// A binary operation on the two topmost values.
pub open spec fn operated(state: Gen, op: BinaryOp, left: VmType, right: VmType) -> Valued {
    let result = wider_type(left, right);
    match op {
        BinaryOp::Equal => valued(state.compare(right, left, Condition::Equal), VmType::Bool),
        BinaryOp::NotEqual => valued(
            state.compare(right, left, Condition::NotEqual),
            VmType::Bool,
        ),
        BinaryOp::Less => valued(state.compare(right, left, Condition::Less), VmType::Bool),
        BinaryOp::LessEqual => valued(
            state.compare(right, left, Condition::LessEqual),
            VmType::Bool,
        ),
        BinaryOp::Greater => valued(state.compare(right, left, Condition::Greater), VmType::Bool),
        BinaryOp::GreaterEqual => valued(
            state.compare(right, left, Condition::GreaterEqual),
            VmType::Bool,
        ),
        BinaryOp::Add => valued(state.types(Opcode::Add, right, left), result),
        BinaryOp::Subtract => valued(state.types(Opcode::Sub, right, left), result),
        BinaryOp::Multiply => valued(state.types(Opcode::Mul, right, left), result),
        BinaryOp::Divide => valued(state.types(Opcode::Div, right, left), result),
        BinaryOp::IntegerDivide => valued(state.types(Opcode::Rem, right, left), result),
        BinaryOp::Modulo => valued(state.types(Opcode::Mod, right, left), result),
        BinaryOp::LogicalXor => valued(state.types(Opcode::Xor, right, left), result),
        BinaryOp::BitXor => valued(state.types(Opcode::Xor, right, left), result),
        BinaryOp::BitOr => valued(state.types(Opcode::Or, right, left), result),
        BinaryOp::BitAnd => valued(state.types(Opcode::And, right, left), result),
        BinaryOp::ShiftLeft => valued(state.types(Opcode::Shl, right, left), result),
        BinaryOp::ShiftRight => valued(state.types(Opcode::Shr, right, left), result),
        BinaryOp::LogicalAnd => valued(state, result),
        BinaryOp::LogicalOr => valued(state, result),
    }
}

/// A unary operation on the topmost value.
pub open spec fn operated_unary(state: Gen, op: UnaryOp, value_type: VmType) -> Valued {
    match op {
        UnaryOp::Negative => if value_type is Bool {
            valued(
                state.convert(value_type, VmType::Int).emit(Opcode::Neg, VmType::Int),
                VmType::Int,
            )
        } else {
            valued(state.emit(Opcode::Neg, value_type), value_type)
        },
        UnaryOp::Not => valued(
            state.convert(value_type, VmType::Bool).emit(Opcode::Not, VmType::Bool),
            VmType::Bool,
        ),
        UnaryOp::BitNot => if value_type is Double || value_type is Float || value_type is Variable {
            valued(
                state.convert(value_type, VmType::Int).emit(Opcode::Not, VmType::Int),
                VmType::Int,
            )
        } else {
            valued(state.emit(Opcode::Not, value_type), value_type)
        },
        _ => valued(state, value_type),
    }
}

/// The functions that stand for an access through a typed accessor.
pub struct AccessorNames {
    pub get: Seq<char>,
    pub set: Seq<char>,
    pub set_pre: Seq<char>,
    pub set_post: Seq<char>,
}

/// The functions of an accessor with a number of dimensions.
pub open spec fn accessor_names(accessor: Accessor, dimensions: int) -> Option<AccessorNames> {
    if accessor is DsMap && dimensions == 1 {
        Some(
            AccessorNames {
                get: "ds_map_find_value"@,
                set: "ds_map_set"@,
                set_pre: "ds_map_set_pre"@,
                set_post: "ds_map_set_post"@,
            },
        )
    } else if accessor is List && dimensions == 1 {
        Some(
            AccessorNames {
                get: "ds_list_find_value"@,
                set: "ds_list_set"@,
                set_pre: "ds_list_set_pre"@,
                set_post: "ds_list_set_post"@,
            },
        )
    } else if accessor is Grid && dimensions == 2 {
        Some(
            AccessorNames {
                get: "ds_grid_get"@,
                set: "ds_grid_set"@,
                set_pre: "ds_grid_set_pre"@,
                set_post: "ds_grid_set_post"@,
            },
        )
    } else if accessor is ArrayDirect && dimensions == 1 {
        Some(
            AccessorNames {
                get: "array_get"@,
                set: "array_set"@,
                set_pre: "array_set_pre"@,
                set_post: "array_set_post"@,
            },
        )
    } else if accessor is ArrayDirect && dimensions == 2 {
        Some(
            AccessorNames {
                get: "array_get_2D"@,
                set: "array_set_2D"@,
                set_pre: "array_set_2D_pre"@,
                set_post: "array_set_2D_post"@,
            },
        )
    } else {
        None
    }
}

/// The number of nodes of an expression.
pub open spec fn weight(value: ExprTree) -> nat
    decreases value,
{
    1 + match value.form {
        ExprForm::Identifier => 0,
        ExprForm::Number => 0,
        ExprForm::String => 0,
        ExprForm::Group(inner) => weight(*inner),
        ExprForm::Array(values) => weights(values),
        ExprForm::Unary { value, .. } => weight(*value),
        ExprForm::Binary { left, right, .. } => weight(*left) + weight(*right),
        ExprForm::Conditional { condition, then_value, else_value } => weight(*condition) + weight(
            *then_value,
        ) + weight(*else_value),
        ExprForm::Assign { target, value, .. } => weight(*target) + weight(*value),
        ExprForm::Call { callee, arguments } => weight(*callee) + weights(arguments),
        ExprForm::Index { target, indices, .. } => weight(*target) + weights(indices),
        ExprForm::Member { target, .. } => weight(*target),
        ExprForm::Postfix { target, .. } => weight(*target),
    }
}

/// The number of nodes of a list of expressions.
pub open spec fn weights(values: Seq<ExprTree>) -> nat
    decreases values,
{
    if values.len() == 0 {
        0
    } else {
        weights(values.drop_last()) + weight(values.last())
    }
}

/// Each expression of a list weighs no more than the list.
pub proof fn lemma_weights(values: Seq<ExprTree>, index: int)
    requires
        0 <= index < values.len(),
    ensures
        1 <= weight(values[index]) <= weights(values),
    decreases values.len(),
{
    if index < values.len() - 1 {
        lemma_weights(values.drop_last(), index);
        assert(values.drop_last()[index] == values[index]);
    }
}

/// Where a variable is: in an instance that the instruction names, or in one
/// that is computed.
pub enum Address {
    Simple { instance: i16, opcode: Opcode },
    Stack(ExprTree),
}

/// A variable: its name and kind, whether it is an array of the runner that
/// needs an index, and where it is.
pub struct Place {
    pub name: Seq<char>,
    pub kind: VariableKind,
    pub implicit_array: bool,
    pub address: Address,
}

/// The kind, instance and instruction of the variable that a name stands for.
pub open spec fn variable_of(binding: NameBinding) -> Option<(VariableKind, i16, Opcode)> {
    match binding {
        NameBinding::LocalVariable { .. } => Some((VariableKind::Local, LOCAL_INSTANCE, Opcode::PushLocal)),
        NameBinding::GlobalVariable => Some((VariableKind::Global, GLOBAL_INSTANCE, Opcode::PushGlobal)),
        NameBinding::InstanceVariable => Some((VariableKind::Instance, SELF_INSTANCE, Opcode::Push)),
        NameBinding::BuiltinVariable => Some((VariableKind::Builtin, SELF_INSTANCE, Opcode::PushBuiltin)),
        _ => None,
    }
}

/// The instruction that reads a variable. Those of the runner that belong to
/// instances are read like any other.
pub open spec fn reading_code(
    context: Context,
    name: Seq<char>,
    kind: VariableKind,
    opcode: Opcode,
) -> Opcode {
    if kind is Builtin && lists(context.builtins.instance_variables@, name) {
        Opcode::Push
    } else {
        opcode
    }
}

/// The instance of an object that is named before a member, with the
/// instruction that reads it.
pub open spec fn named_instance(context: Context, object: ExprTree, opcode: Opcode) -> Option<
    (i16, Opcode),
> {
    if object.form is Identifier {
        let word = context.text(object.span);
        if word == "self"@ {
            Some((SELF_INSTANCE, opcode))
        } else if word == "other"@ {
            Some((OTHER_INSTANCE, Opcode::Push))
        } else if word == "global"@ {
            Some((GLOBAL_INSTANCE, Opcode::PushGlobal))
        } else if word == "local"@ {
            Some((LOCAL_INSTANCE, Opcode::PushLocal))
        } else {
            match context.resolution(object.span) {
                Some(resolution) => match resolution.binding {
                    NameBinding::Resource { kind: ResourceType::Object, index } => if index
                        <= i16::MAX {
                        Some((index as i16, Opcode::Push))
                    } else {
                        None
                    },
                    _ => None,
                },
                None => None,
            }
        }
    } else {
        None
    }
}

/// The variable that an expression is.
pub open spec fn place_of(context: Context, target: ExprTree) -> Option<Place>
    decreases target,
{
    match target.form {
        ExprForm::Group(inner) => place_of(context, *inner),
        ExprForm::Identifier => match context.resolution(target.span) {
            None => None,
            Some(resolution) => match variable_of(resolution.binding) {
                None => None,
                Some((kind, instance, opcode)) => {
                    let name = context.name(resolution.symbol);
                    Some(
                        Place {
                            name,
                            kind,
                            implicit_array: kind is Builtin && lists(
                                context.builtins.array_variables@,
                                name,
                            ),
                            address: Address::Simple {
                                instance,
                                opcode: reading_code(context, name, kind, opcode),
                            },
                        },
                    )
                },
            },
        },
        ExprForm::Member { target: object, name: span } => match context.resolution(span) {
            None => None,
            Some(resolution) => match variable_of(resolution.binding) {
                None => None,
                Some((kind, _, opcode)) => {
                    let name = context.name(resolution.symbol);
                    let reading = reading_code(context, name, kind, opcode);
                    Some(
                        Place {
                            name,
                            kind,
                            implicit_array: lists(context.builtins.array_variables@, name),
                            address: match named_instance(context, *object, reading) {
                                Some((instance, opcode)) => Address::Simple { instance, opcode },
                                None => Address::Stack(*object),
                            },
                        },
                    )
                },
            },
        },
        _ => None,
    }
}

/// The number of nodes of what computes the instance of a variable.
pub open spec fn place_weight(place: Place) -> nat {
    match place.address {
        Address::Simple { .. } => 0,
        Address::Stack(object) => weight(object),
    }
}

/// What computes the instance of a variable is part of the variable.
pub proof fn lemma_place_weight(context: Context, target: ExprTree)
    ensures
        place_of(context, target) matches Some(place) ==> place_weight(place) < weight(target),
    decreases target,
{
    if let ExprForm::Group(inner) = target.form {
        lemma_place_weight(context, *inner);
    }
}

/// An indexed variable without its indices.
pub open spec fn base_of(target: ExprTree) -> ExprTree {
    match target.form {
        ExprForm::Index { target: base, accessor: Accessor::Array, .. } => *base,
        _ => target,
    }
}

/// The indices of an indexed variable.
pub open spec fn indices_of(target: ExprTree) -> Seq<ExprTree> {
    match target.form {
        ExprForm::Index { accessor: Accessor::Array, indices, .. } => indices,
        _ => seq![],
    }
}

/// An indexed variable weighs as much as its base and its indices, or more.
pub proof fn lemma_base_weight(target: ExprTree)
    ensures
        weight(base_of(target)) + weights(indices_of(target)) <= weight(target),
{
}

/// The flags of an access to a variable on the stack.
pub open spec fn stack_flags(place: Place, indexed: bool) -> u32 {
    if indexed || place.implicit_array {
        0
    } else {
        STACK_INSTANCE_FLAGS
    }
}

/// The read of a variable whose address is on the stack.
pub open spec fn stack_read(state: Gen, place: Place, indexed: bool) -> Gen {
    state.variable(
        Opcode::Push,
        0,
        None,
        None,
        place.name,
        place.kind,
        stack_flags(place, indexed),
    )
}

/// The write of a variable whose address is on the stack. A combined one finds
/// the address below the value.
pub open spec fn stack_write(
    state: Gen,
    place: Place,
    indexed: bool,
    value_type: VmType,
    combined: bool,
) -> Gen {
    state.variable(
        Opcode::Pop,
        0,
        Some(
            if combined {
                VmType::Variable
            } else {
                value_type
            },
        ),
        if combined {
            Some(VmType::Int)
        } else {
            None
        },
        place.name,
        place.kind,
        stack_flags(place, indexed),
    )
}

/// The operands of a chain of the same logical operation.
pub open spec fn operands(op: BinaryOp, value: ExprTree) -> Seq<ExprTree>
    decreases value,
{
    match value.form {
        ExprForm::Binary { op: inner, left, right } => if inner == op {
            operands(op, *left) + operands(op, *right)
        } else {
            seq![value]
        },
        _ => seq![value],
    }
}

/// The weight of two lists is that of both.
pub proof fn lemma_weights_concat(first: Seq<ExprTree>, second: Seq<ExprTree>)
    ensures
        weights(first + second) == weights(first) + weights(second),
    decreases second.len(),
{
    if second.len() == 0 {
        assert(first + second =~= first);
    } else {
        assert((first + second).drop_last() =~= first + second.drop_last());
        lemma_weights_concat(first, second.drop_last());
    }
}

/// The operands of a chain weigh no more than the chain, and there is one at
/// least.
pub proof fn lemma_operands(op: BinaryOp, value: ExprTree)
    ensures
        weights(operands(op, value)) <= weight(value),
        operands(op, value).len() > 0,
    decreases value,
{
    match value.form {
        ExprForm::Binary { op: inner, left, right } => if inner == op {
            lemma_operands(op, *left);
            lemma_operands(op, *right);
            lemma_weights_concat(operands(op, *left), operands(op, *right));
        } else {
            lemma_one_weight(value);
        },
        _ => lemma_one_weight(value),
    }
}

pub proof fn lemma_one_weight(value: ExprTree)
    ensures
        weights(seq![value]) == weight(value),
{
    assert(seq![value].drop_last() =~= seq![]);
    assert(weights(seq![value].drop_last()) == 0);
}

/// What is generated for an expression: a constant if it is one, and else its
/// operation behind its operands.
#[verifier::opaque]
pub open spec fn gen_expr(context: Context, value: ExprTree, state: Gen) -> Valued
    decreases weight(value), 10nat,
{
    match context.folded(value) {
        Some(constant) => push_constant(state, constant, value.span),
        None => match value.form {
            ExprForm::Identifier => gen_name(context, value, state),
            ExprForm::Number => push_number(state, context, value.span),
            ExprForm::String => valued(
                state.text(literal_text(context.text(value.span)), value.span),
                VmType::String,
            ),
            ExprForm::Group(inner) => gen_expr(context, *inner, state),
            ExprForm::Array(_) => push_nothing(
                state,
                value.span,
                "GMS 1.4 array literals are not supported by this VM pass"@,
            ),
            ExprForm::Unary { op, value: inner } => if op is PreIncrement || op is PreDecrement {
                gen_increment(context, *inner, op is PreIncrement, true, true, state)
            } else {
                let operand = gen_expr(context, *inner, state);
                operated_unary(operand.state, op, operand.value_type)
            },
            ExprForm::Binary { op, left, right } => gen_binary(context, op, *left, *right, state),
            ExprForm::Conditional { condition, then_value, else_value } => gen_conditional(
                context,
                *condition,
                *then_value,
                *else_value,
                state,
            ),
            ExprForm::Assign { op, target, value: assigned } => gen_assignment(
                context,
                op,
                *target,
                *assigned,
                true,
                state,
            ),
            ExprForm::Call { callee, arguments } => gen_call(
                context,
                *callee,
                arguments,
                value.span,
                state,
            ),
            ExprForm::Index { target, accessor, indices } => gen_index(
                context,
                *target,
                accessor,
                indices,
                value.span,
                state,
            ),
            ExprForm::Member { name, .. } => match context.resolution(name) {
                Some(resolution) => match resolution.binding {
                    NameBinding::EnumMember { enum_symbol, member_index } => push_member(
                        state,
                        context,
                        enum_symbol,
                        member_index,
                        value.span,
                    ),
                    _ => gen_read(context, value, seq![], state),
                },
                None => gen_read(context, value, seq![], state),
            },
            ExprForm::Postfix { op, target } => gen_increment(
                context,
                *target,
                op is Increment,
                false,
                true,
                state,
            ),
        },
    }
}

/// The instance that `self` or `other` names, read by its identifier.
pub open spec fn read_instance(state: Gen, instance: i16) -> Gen {
    state.variable(
        Opcode::Push,
        instance,
        None,
        None,
        "id"@,
        VariableKind::Builtin,
        SIMPLE_VARIABLE_FLAGS,
    )
}

/// What is generated for a name.
#[verifier::opaque]
pub open spec fn gen_name(context: Context, value: ExprTree, state: Gen) -> Valued
    decreases weight(value), 9nat,
{
    match context.resolution(value.span) {
        None => push_nothing(
            state,
            value.span,
            "missing semantic resolution for "@ + context.text(value.span),
        ),
        Some(resolution) => match resolution.binding {
            NameBinding::LocalVariable { .. } => gen_read(context, value, seq![], state),
            NameBinding::GlobalVariable => gen_read(context, value, seq![], state),
            NameBinding::InstanceVariable => gen_read(context, value, seq![], state),
            NameBinding::BuiltinVariable => gen_read(context, value, seq![], state),
            NameBinding::BuiltinConstant => {
                let name = context.name(resolution.symbol);
                if name == "self"@ {
                    valued(read_instance(state, SELF_INSTANCE), VmType::Variable)
                } else if name == "other"@ {
                    valued(read_instance(state, OTHER_INSTANCE), VmType::Variable)
                } else {
                    match context.builtin(name) {
                        Some(bits) => push_double(state, bits, false),
                        None => push_double(
                            state.error(
                                value.span,
                                "missing value for built-in constant "@ + name,
                            ),
                            0,
                            false,
                        ),
                    }
                }
            },
            NameBinding::ConfiguredConstant { index } => push_configured(
                state,
                context,
                context.configured(index),
                value.span,
            ),
            NameBinding::Resource { index, .. } => push_whole(state, index as i64),
            NameBinding::RoomInstance { id } => push_whole(state, id as i64),
            NameBinding::Script { index } => push_whole(state, index as i64),
            NameBinding::EnumMember { enum_symbol, member_index } => push_member(
                state,
                context,
                enum_symbol,
                member_index,
                value.span,
            ),
            NameBinding::Enum { index } => push_whole(state, index as i64),
            NameBinding::BuiltinFunction => push_nothing(
                state,
                value.span,
                "function name used without a call"@,
            ),
            NameBinding::ExtensionFunction { .. } => push_nothing(
                state,
                value.span,
                "function name used without a call"@,
            ),
        },
    }
}

/// What is generated for a binary operation.
#[verifier::opaque]
pub open spec fn gen_binary(
    context: Context,
    op: BinaryOp,
    left: ExprTree,
    right: ExprTree,
    state: Gen,
) -> Valued
    decreases weight(left) + weight(right) + 1, 9nat,
{
    if op is LogicalAnd || op is LogicalOr {
        gen_chain(context, op, left, right, state)
    } else {
        let first = gen_expr(context, left, state);
        let first = coerced(first.state, op, first.value_type);
        let second = gen_expr(context, right, first.state);
        let second = coerced(second.state, op, second.value_type);
        operated(second.state, op, first.value_type, second.value_type)
    }
}

/// The tests of a chain of logical operations: each leaves it by a branch.
#[verifier::opaque]
pub open spec fn gen_tests(
    context: Context,
    tests: Seq<ExprTree>,
    opcode: Opcode,
    label: nat,
    state: Gen,
) -> Gen
    decreases weights(tests) + 1, 3nat,
{
    if tests.len() == 0 {
        state
    } else {
        proof {
            lemma_weights(tests, tests.len() - 1);
        }
        let before = gen_tests(context, tests.drop_last(), opcode, label, state);
        let test = gen_expr(context, tests.last(), before);
        test.state.convert(test.value_type, VmType::Bool).branch(opcode, label, tests.last().span)
    }
}

/// What is generated for a chain of logical operations.
#[verifier::opaque]
pub open spec fn gen_chain(
    context: Context,
    op: BinaryOp,
    left: ExprTree,
    right: ExprTree,
    state: Gen,
) -> Valued
    decreases weight(left) + weight(right) + 1, 8nat,
{
    proof {
        lemma_chain(op, left, right);
    }
    let all = operands(op, left) + operands(op, right);
    let shortcut = state.next_label();
    let end = shortcut + 1;
    let opcode = if op is LogicalAnd {
        Opcode::BranchFalse
    } else {
        Opcode::BranchTrue
    };
    let tested = gen_tests(
        context,
        all.drop_last(),
        opcode,
        shortcut,
        state.labelled().labelled(),
    );
    let last = gen_expr(context, all.last(), tested);
    let state = last.state.convert(last.value_type, VmType::Bool).branch(
        Opcode::Branch,
        end,
        all.last().span,
    ).mark(shortcut, left.span).short(
        if op is LogicalOr {
            1
        } else {
            0
        },
    ).mark(end, all.last().span);
    valued(state, VmType::Bool)
}

pub proof fn lemma_chain(op: BinaryOp, left: ExprTree, right: ExprTree)
    ensures
        ({
            let all = operands(op, left) + operands(op, right);
            &&& all.len() > 1
            &&& weights(all) <= weight(left) + weight(right)
            &&& weights(all.drop_last()) <= weights(all)
            &&& weight(all.last()) <= weights(all)
        }),
{
    lemma_operands(op, left);
    lemma_operands(op, right);
    lemma_weights_concat(operands(op, left), operands(op, right));
}

/// What is generated for a conditional expression.
#[verifier::opaque]
pub open spec fn gen_conditional(
    context: Context,
    condition: ExprTree,
    then_value: ExprTree,
    else_value: ExprTree,
    state: Gen,
) -> Valued
    decreases weight(condition) + weight(then_value) + weight(else_value) + 1, 9nat,
{
    let otherwise = state.next_label();
    let end = otherwise + 1;
    let test = gen_expr(context, condition, state.labelled().labelled());
    let first = gen_expr(
        context,
        then_value,
        test.state.convert(test.value_type, VmType::Bool).branch(
            Opcode::BranchFalse,
            otherwise,
            condition.span,
        ),
    );
    let second = gen_expr(
        context,
        else_value,
        first.state.convert(first.value_type, VmType::Variable).branch(
            Opcode::Branch,
            end,
            then_value.span,
        ).mark(otherwise, else_value.span),
    );
    valued(
        second.state.convert(second.value_type, VmType::Variable).mark(end, else_value.span),
        VmType::Variable,
    )
}

/// What is generated for arguments: the last one first, each as a variable.
#[verifier::opaque]
pub open spec fn gen_arguments(context: Context, arguments: Seq<ExprTree>, state: Gen) -> Gen
    decreases weights(arguments) + 1, 3nat,
{
    if arguments.len() == 0 {
        state
    } else {
        proof {
            lemma_weights(arguments, arguments.len() - 1);
        }
        let last = gen_expr(context, arguments.last(), state);
        gen_arguments(
            context,
            arguments.drop_last(),
            last.state.convert(last.value_type, VmType::Variable),
        )
    }
}

/// The text of a literal, if an expression is one.
pub open spec fn literal_of(context: Context, value: ExprTree) -> Option<Seq<char>>
    decreases value,
{
    match value.form {
        ExprForm::Group(inner) => literal_of(context, *inner),
        ExprForm::String => between_quotes(context.text(value.span)),
        _ => None,
    }
}

/// The number of arguments of a call as the instruction holds it.
pub open spec fn argument_count(arguments: Seq<ExprTree>) -> u16 {
    if arguments.len() <= u16::MAX {
        arguments.len() as u16
    } else {
        u16::MAX
    }
}

/// What is generated for a call.
#[verifier::opaque]
pub open spec fn gen_call(
    context: Context,
    callee: ExprTree,
    arguments: Seq<ExprTree>,
    span: Span,
    state: Gen,
) -> Valued
    decreases weights(arguments) + 1, 9nat,
{
    if !(callee.form is Identifier) {
        push_nothing(
            state,
            span,
            "indirect function calls are not part of the GMS 1.4 VM backend yet"@,
        )
    } else {
        let name = context.text(callee.span);
        if name == "ord"@ && arguments.len() == 1 && literal_of(context, arguments[0]) is Some {
            let text = literal_of(context, arguments[0]).unwrap();
            push_whole(
                state,
                if text.len() == 0 {
                    0
                } else {
                    text[0] as i64
                },
            )
        } else {
            let before = gen_arguments(context, arguments, state);
            let counted = if arguments.len() <= u16::MAX {
                before
            } else {
                before.error(span, "function call has more than 65535 arguments"@)
            };
            valued(
                counted.call(name, argument_count(arguments), span),
                VmType::Variable,
            )
        }
    }
}

/// What is generated for the read of an indexed value.
#[verifier::opaque]
pub open spec fn gen_index(
    context: Context,
    target: ExprTree,
    accessor: Accessor,
    indices: Seq<ExprTree>,
    span: Span,
    state: Gen,
) -> Valued
    decreases weight(target) + weights(indices) + 1, 9nat,
{
    if accessor is Array {
        gen_read(context, target, indices, state)
    } else {
        match accessor_names(accessor, indices.len() as int) {
            None => push_nothing(
                state,
                span,
                "unsupported accessor or accessor dimension count"@,
            ),
            Some(names) => {
                let indexed = gen_arguments(context, indices, state);
                let object = gen_expr(context, target, indexed);
                valued(
                    object.state.convert(object.value_type, VmType::Variable).call(
                        names.get,
                        (indices.len() + 1) as u16,
                        span,
                    ),
                    VmType::Variable,
                )
            },
        }
    }
}

/// The address of a variable on the stack: its instance and its index.
#[verifier::opaque]
pub open spec fn gen_address(
    context: Context,
    place: Place,
    indices: Seq<ExprTree>,
    state: Gen,
) -> Gen
    decreases place_weight(place) + weights(indices) + 1, 4nat,
{
    let owned = match place.address {
        Address::Simple { instance, .. } => state.immediate(instance),
        Address::Stack(object) => {
            let value = gen_expr(context, object, state);
            value.state.convert(value.value_type, VmType::Int)
        },
    };
    if indices.len() == 0 {
        if place.implicit_array {
            owned.long(0).convert(VmType::Long, VmType::Int)
        } else {
            owned
        }
    } else {
        proof {
            lemma_weights(indices, 0);
        }
        let first = gen_expr(context, indices[0], owned);
        let row = first.state.convert(first.value_type, VmType::Int);
        let column = if indices.len() > 1 {
            proof {
                lemma_weights(indices, 1);
            }
            let second = gen_expr(
                context,
                indices[1],
                row.hook(u16::MAX).word(ARRAY_DIMENSION).types(
                    Opcode::Mul,
                    VmType::Int,
                    VmType::Int,
                ),
            );
            second.state.convert(second.value_type, VmType::Int).hook(u16::MAX).types(
                Opcode::Add,
                VmType::Int,
                VmType::Int,
            )
        } else {
            row
        };
        if indices.len() > 2 {
            column.error(
                indices[2].span,
                "GMS 1.4 VM arrays support at most two dimensions"@,
            )
        } else {
            column
        }
    }
}

/// The read of a variable without an index.
#[verifier::opaque]
pub open spec fn gen_plain_read(
    context: Context,
    place: Place,
    specialized: bool,
    state: Gen,
) -> Gen
    decreases place_weight(place) + 1, 5nat,
{
    if place.implicit_array {
        stack_read(gen_address(context, place, seq![], state), place, false)
    } else {
        match place.address {
            Address::Simple { instance, opcode } => state.variable(
                if specialized {
                    opcode
                } else {
                    Opcode::Push
                },
                instance,
                None,
                None,
                place.name,
                place.kind,
                SIMPLE_VARIABLE_FLAGS,
            ),
            Address::Stack(object) => {
                let value = gen_expr(context, object, state);
                value.state.convert(value.value_type, VmType::Int).variable(
                    Opcode::Push,
                    0,
                    None,
                    None,
                    place.name,
                    place.kind,
                    STACK_INSTANCE_FLAGS,
                )
            },
        }
    }
}

/// The write of a variable without an index. One whose instance is computed
/// finds it on the stack.
#[verifier::opaque]
pub open spec fn gen_plain_write(
    context: Context,
    place: Place,
    value_type: VmType,
    state: Gen,
) -> Gen
    decreases place_weight(place) + 1, 5nat,
{
    if place.implicit_array {
        stack_write(
            gen_address(context, place, seq![], state),
            place,
            false,
            value_type,
            false,
        )
    } else {
        match place.address {
            Address::Simple { instance, .. } => state.variable(
                Opcode::Pop,
                instance,
                Some(value_type),
                None,
                place.name,
                place.kind,
                SIMPLE_VARIABLE_FLAGS,
            ),
            Address::Stack(_) => stack_write(state, place, false, value_type, false),
        }
    }
}

/// The read of a variable.
#[verifier::opaque]
pub open spec fn gen_read(
    context: Context,
    target: ExprTree,
    indices: Seq<ExprTree>,
    state: Gen,
) -> Valued
    decreases weight(target) + weights(indices), 7nat,
{
    let base = if indices.len() == 0 {
        base_of(target)
    } else {
        target
    };
    let nested = if indices.len() == 0 {
        indices_of(target)
    } else {
        indices
    };
    match place_of(context, base) {
        None => push_nothing(state, target.span, "expression is not a VM variable"@),
        Some(place) => {
            proof {
                lemma_base_weight(target);
                lemma_place_weight(context, base);
            }
            valued(
                if nested.len() == 0 && !place.implicit_array {
                    gen_plain_read(context, place, true, state)
                } else {
                    stack_read(
                        gen_address(context, place, nested, state),
                        place,
                        nested.len() > 0,
                    )
                },
                VmType::Variable,
            )
        },
    }
}

/// The write of a variable.
#[verifier::opaque]
pub open spec fn gen_write(
    context: Context,
    target: ExprTree,
    value_type: VmType,
    state: Gen,
) -> Gen
    decreases weight(target), 7nat,
{
    let base = base_of(target);
    let nested = indices_of(target);
    match place_of(context, base) {
        None => state.error(target.span, "assignment target is not a VM variable"@),
        Some(place) => {
            proof {
                lemma_base_weight(target);
                lemma_place_weight(context, base);
            }
            if nested.len() == 0 && !place.implicit_array && place.address is Simple {
                gen_plain_write(context, place, value_type, state)
            } else {
                stack_write(
                    gen_address(context, place, nested, state),
                    place,
                    nested.len() > 0,
                    value_type,
                    false,
                )
            }
        },
    }
}

/// What is generated for an assignment.
#[verifier::opaque]
pub open spec fn gen_assignment(
    context: Context,
    op: AssignOp,
    target: ExprTree,
    value: ExprTree,
    keep: bool,
    state: Gen,
) -> Valued
    decreases weight(target) + weight(value) + 1, 9nat,
{
    match target.form {
        ExprForm::Index { target: base, accessor, indices } => if accessor is Array {
            gen_plain_assignment(context, op, target, value, keep, state)
        } else {
            gen_accessor_assignment(
                context,
                accessor,
                *base,
                indices,
                op,
                value,
                keep,
                target.span,
                state,
            )
        },
        _ => gen_plain_assignment(context, op, target, value, keep, state),
    }
}

/// What is generated for an assignment to a variable.
#[verifier::opaque]
pub open spec fn gen_plain_assignment(
    context: Context,
    op: AssignOp,
    target: ExprTree,
    value: ExprTree,
    keep: bool,
    state: Gen,
) -> Valued
    decreases weight(target) + weight(value) + 1, 8nat,
{
    if op is Assign {
        let assigned = gen_expr(context, value, state);
        if keep {
            valued(
                gen_write(
                    context,
                    target,
                    VmType::Variable,
                    assigned.state.convert(assigned.value_type, VmType::Variable).dup(
                        VmType::Variable,
                        1,
                    ),
                ),
                VmType::Variable,
            )
        } else {
            valued(
                gen_write(context, target, assigned.value_type, assigned.state),
                assigned.value_type,
            )
        }
    } else {
        valued(gen_combined(context, op, target, value, keep, state), VmType::Variable)
    }
}

/// A value duplicated if it is kept.
pub open spec fn kept(state: Gen, keep: bool) -> Gen {
    if keep {
        state.dup(VmType::Variable, 1)
    } else {
        state
    }
}

/// What is generated for an assignment that computes with the old value.
#[verifier::opaque]
pub open spec fn gen_combined(
    context: Context,
    op: AssignOp,
    target: ExprTree,
    value: ExprTree,
    keep: bool,
    state: Gen,
) -> Gen
    decreases weight(target) + weight(value) + 1, 7nat,
{
    let base = base_of(target);
    let indices = indices_of(target);
    match place_of(context, base) {
        None => state.error(target.span, "assignment target is not a VM variable"@),
        Some(place) => {
            proof {
                lemma_base_weight(target);
                lemma_place_weight(context, base);
            }
            let plain = indices.len() == 0 && !place.implicit_array && place.address is Simple;
            let indexed = indices.len() > 0;
            let read = if plain {
                gen_plain_read(context, place, false, state)
            } else {
                stack_read(
                    gen_address(context, place, indices, state).dup(
                        VmType::Int,
                        if indexed || place.implicit_array {
                            2
                        } else {
                            1
                        },
                    ),
                    place,
                    indexed,
                )
            };
            let right = gen_expr(context, value, read);
            let right = coerced_assigned(right.state, op, right.value_type);
            let computed = kept(
                right.state.types(assignment_code(op), right.value_type, VmType::Variable),
                keep,
            );
            if plain {
                gen_plain_write(context, place, VmType::Variable, computed)
            } else {
                stack_write(computed, place, indexed, VmType::Variable, true)
            }
        },
    }
}

/// What is generated for an assignment through a typed accessor.
#[verifier::opaque]
pub open spec fn gen_accessor_assignment(
    context: Context,
    accessor: Accessor,
    target: ExprTree,
    indices: Seq<ExprTree>,
    op: AssignOp,
    value: ExprTree,
    keep: bool,
    span: Span,
    state: Gen,
) -> Valued
    decreases weight(target) + weights(indices) + weight(value) + 1, 8nat,
{
    match accessor_names(accessor, indices.len() as int) {
        None => valued(
            state.error(span, "unsupported accessor or accessor dimension count"@),
            VmType::Variable,
        ),
        Some(names) => {
            let assigned = if op is Assign {
                gen_expr(context, value, state)
            } else {
                let current = gen_index(context, target, accessor, indices, span, state);
                let right = gen_expr(context, value, current.state);
                let right = coerced_assigned(right.state, op, right.value_type);
                valued(
                    right.state.types(assignment_code(op), right.value_type, current.value_type),
                    wider_type(right.value_type, current.value_type),
                )
            };
            let ready = kept(
                assigned.state.convert(assigned.value_type, VmType::Variable),
                keep,
            );
            let object = gen_expr(context, target, gen_arguments(context, indices, ready));
            valued(
                object.state.convert(object.value_type, VmType::Variable).call(
                    names.set,
                    (indices.len() + 2) as u16,
                    span,
                ).emit(Opcode::PopNull, VmType::Variable),
                if keep {
                    VmType::Variable
                } else {
                    assigned.value_type
                },
            )
        },
    }
}

/// A value duplicated below the address of an increment.
pub open spec fn kept_below(state: Gen, indexed: bool) -> Gen {
    state.dup(VmType::Variable, 1).reorder(
        if indexed {
            5
        } else {
            6
        },
    )
}

/// The addition or subtraction of one.
pub open spec fn stepped(state: Gen, increment: bool, value_type: VmType) -> Gen {
    state.short(1).types(
        if increment {
            Opcode::Add
        } else {
            Opcode::Sub
        },
        VmType::Int,
        value_type,
    )
}

/// What is generated for an increment or a decrement.
#[verifier::opaque]
pub open spec fn gen_increment(
    context: Context,
    target: ExprTree,
    increment: bool,
    prefix: bool,
    keep: bool,
    state: Gen,
) -> Valued
    decreases weight(target), 11nat,
{
    match target.form {
        ExprForm::Index { target: base, accessor, indices } => if accessor is Array {
            gen_plain_increment(context, target, increment, prefix, keep, state)
        } else {
            gen_accessor_increment(
                context,
                accessor,
                *base,
                indices,
                increment,
                prefix,
                keep,
                target.span,
                state,
            )
        },
        _ => gen_plain_increment(context, target, increment, prefix, keep, state),
    }
}

/// What is generated for an increment or a decrement of a variable.
#[verifier::opaque]
pub open spec fn gen_plain_increment(
    context: Context,
    target: ExprTree,
    increment: bool,
    prefix: bool,
    keep: bool,
    state: Gen,
) -> Valued
    decreases weight(target), 7nat,
{
    let base = base_of(target);
    let indices = indices_of(target);
    match place_of(context, base) {
        None => valued(
            state.error(target.span, "increment target is not a VM variable"@),
            VmType::Variable,
        ),
        Some(place) => {
            proof {
                lemma_base_weight(target);
                lemma_place_weight(context, base);
            }
            let indexed = indices.len() > 0 || place.implicit_array;
            if indexed || !(place.address is Simple) {
                let addressed = gen_address(context, place, indices, state).dup(
                    if indexed {
                        VmType::Long
                    } else {
                        VmType::Int
                    },
                    1,
                );
                let read = stack_read(addressed, place, indices.len() > 0);
                let before = if keep && !prefix {
                    kept_below(read, indexed)
                } else {
                    read
                };
                let changed = stepped(before, increment, VmType::Variable);
                let after = if keep && prefix {
                    kept_below(changed, indexed)
                } else {
                    changed
                };
                valued(
                    stack_write(after, place, indices.len() > 0, VmType::Variable, true),
                    VmType::Variable,
                )
            } else {
                let read = gen_plain_read(context, place, false, state);
                let changed = stepped(kept(read, keep && !prefix), increment, VmType::Variable);
                valued(
                    gen_plain_write(
                        context,
                        place,
                        VmType::Variable,
                        kept(changed, keep && prefix),
                    ),
                    VmType::Variable,
                )
            }
        },
    }
}

/// What is generated for an increment or a decrement through a typed accessor.
#[verifier::opaque]
pub open spec fn gen_accessor_increment(
    context: Context,
    accessor: Accessor,
    target: ExprTree,
    indices: Seq<ExprTree>,
    increment: bool,
    prefix: bool,
    keep: bool,
    span: Span,
    state: Gen,
) -> Valued
    decreases weight(target) + weights(indices) + 1, 10nat,
{
    match accessor_names(accessor, indices.len() as int) {
        None => push_nothing(state, span, "unsupported accessor increment"@),
        Some(names) => {
            let current = gen_index(context, target, accessor, indices, span, state);
            let changed = stepped(current.state, increment, current.value_type);
            let object = gen_expr(context, target, gen_arguments(context, indices, changed));
            let called = object.state.convert(object.value_type, VmType::Variable).call(
                if prefix {
                    names.set_pre
                } else {
                    names.set_post
                },
                (indices.len() + 2) as u16,
                span,
            );
            valued(
                if keep {
                    called
                } else {
                    called.emit(Opcode::PopNull, VmType::Variable)
                },
                VmType::Variable,
            )
        },
    }
}

/// What the stack holds that a jump out of a construct has to take away.
#[derive(Debug, Clone, Copy, PartialEq, Eq, Structural)]
pub enum Cleanup {
    Switch(VmType),
    With,
}

/// A label that a jump leads to, and how much of the stack is taken away before
/// it.
pub struct Target {
    pub label: nat,
    pub depth: nat,
}

/// What a statement stands in: what the stack holds, and where `break` and
/// `continue` lead to.
pub struct Surroundings {
    pub cleanup: Seq<Cleanup>,
    pub breaks: Seq<Target>,
    pub continues: Seq<Target>,
}

impl Surroundings {
    /// With targets for `break` and `continue`.
    pub open spec fn with_loop(self, end: nat, repeat: nat) -> Surroundings {
        Surroundings {
            breaks: self.breaks.push(Target { label: end, depth: self.cleanup.len() }),
            continues: self.continues.push(Target { label: repeat, depth: self.cleanup.len() }),
            ..self
        }
    }
}

/// What takes the stack down to a depth.
pub open spec fn cleaned(state: Gen, cleanup: Seq<Cleanup>, depth: nat) -> Gen
    decreases cleanup.len(),
{
    if cleanup.len() <= depth {
        state
    } else {
        cleaned(
            match cleanup.last() {
                Cleanup::Switch(value_type) => state.emit(Opcode::PopNull, value_type),
                Cleanup::With => state.types(Opcode::PopEnv, VmType::Double, VmType::Error),
            },
            cleanup.drop_last(),
            depth,
        )
    }
}

/// An access to the variable that holds a result while the stack is taken
/// down.
pub open spec fn temporary(state: Gen, opcode: Opcode, target_type: Option<VmType>) -> Gen {
    state.variable(
        opcode,
        LOCAL_INSTANCE,
        target_type,
        None,
        "$$$$temp$$$$"@,
        VariableKind::Local,
        SIMPLE_VARIABLE_FLAGS,
    )
}

/// What is generated for an expression that stands alone.
#[verifier::opaque]
pub open spec fn gen_alone(context: Context, value: ExprTree, state: Gen) -> Gen {
    match value.form {
        ExprForm::Assign { op, target, value: assigned } => gen_assignment(
            context,
            op,
            *target,
            *assigned,
            false,
            state,
        ).state,
        ExprForm::Unary { op, value: inner } => if op is PreIncrement || op is PreDecrement {
            gen_increment(context, *inner, op is PreIncrement, true, false, state).state
        } else {
            let result = gen_expr(context, value, state);
            result.state.emit(Opcode::PopNull, result.value_type)
        },
        ExprForm::Postfix { op, target } => gen_increment(
            context,
            *target,
            op is Increment,
            false,
            false,
            state,
        ).state,
        _ => {
            let result = gen_expr(context, value, state);
            result.state.emit(Opcode::PopNull, result.value_type)
        },
    }
}

/// The tree of a name.
pub open spec fn name_tree(span: Span) -> ExprTree {
    ExprTree { form: ExprForm::Identifier, span }
}

/// What is generated for declarations: the assignments of their values.
#[verifier::opaque]
pub open spec fn gen_declarations(
    context: Context,
    declarations: Seq<VarTree>,
    state: Gen,
) -> Gen
    decreases declarations.len(),
{
    if declarations.len() == 0 {
        state
    } else {
        let before = gen_declarations(context, declarations.drop_last(), state);
        match declarations.last().value {
            None => before,
            Some(value) => {
                let result = gen_expr(context, value, before);
                gen_write(
                    context,
                    name_tree(declarations.last().name),
                    result.value_type,
                    result.state,
                )
            },
        }
    }
}

/// A condition as a truth value.
pub open spec fn gen_condition(context: Context, condition: ExprTree, state: Gen) -> Gen {
    let result = gen_expr(context, condition, state);
    result.state.convert(result.value_type, VmType::Bool)
}

/// An expression without the groups around it.
pub open spec fn ungrouped(value: ExprTree) -> ExprTree
    decreases value,
{
    match value.form {
        ExprForm::Group(inner) => ungrouped(*inner),
        _ => value,
    }
}

/// The target of a `with` statement as a number.
pub open spec fn gen_with_target(context: Context, target: ExprTree, state: Gen) -> Gen {
    let direct = ungrouped(target);
    let word = context.text(direct.span);
    if direct.form is Identifier && word == "self"@ {
        read_instance(state, SELF_INSTANCE).convert(VmType::Variable, VmType::Int)
    } else if direct.form is Identifier && word == "other"@ {
        read_instance(state, OTHER_INSTANCE).convert(VmType::Variable, VmType::Int)
    } else {
        let result = gen_expr(context, target, state);
        result.state.convert(result.value_type, VmType::Int)
    }
}

/// What is generated for the labels of a switch: the tests of its cases, the
/// labels of cases and defaults in order, and the last default.
pub struct Cases {
    pub state: Gen,
    pub labels: Seq<nat>,
    pub default: Option<nat>,
}

/// The tests of the cases of a switch.
#[verifier::opaque]
pub open spec fn gen_cases(
    context: Context,
    statements: Seq<StmtTree>,
    value_type: VmType,
    state: Gen,
) -> Cases
    decreases statements.len(),
{
    if statements.len() == 0 {
        Cases { state, labels: seq![], default: None }
    } else {
        let before = gen_cases(context, statements.drop_last(), value_type, state);
        let label = before.state.next_label();
        match statements.last().form {
            StmtForm::Case(case) => {
                let result = gen_expr(
                    context,
                    case,
                    before.state.labelled().dup(value_type, 1),
                );
                Cases {
                    state: result.state.compare(
                        result.value_type,
                        value_type,
                        Condition::Equal,
                    ).branch(Opcode::BranchTrue, label, case.span),
                    labels: before.labels.push(label),
                    ..before
                }
            },
            StmtForm::Default => Cases {
                state: before.state.labelled(),
                labels: before.labels.push(label),
                default: Some(label),
            },
            _ => before,
        }
    }
}

/// The number of cases and defaults among statements.
pub open spec fn case_count(statements: Seq<StmtTree>) -> nat
    decreases statements.len(),
{
    if statements.len() == 0 {
        0
    } else {
        case_count(statements.drop_last()) + (if statements.last().form is Case
            || statements.last().form is Default {
            1nat
        } else {
            0
        })
    }
}

/// What is generated for a statement.
#[verifier::opaque]
pub open spec fn gen_stmt(
    context: Context,
    around: Surroundings,
    statement: StmtTree,
    state: Gen,
) -> Gen
    decreases statement,
{
    match statement.form {
        StmtForm::Empty => state,
        StmtForm::Enum { .. } => state,
        StmtForm::Block(statements) => gen_stmts(context, around, statements, state),
        StmtForm::Var { declarations, .. } => gen_declarations(context, declarations, state),
        StmtForm::If { condition, then_branch, else_branch } => match context.folded(condition) {
            Some(Folded::Number { bits, .. }) => if is_more_than_half(bits) {
                gen_stmt(context, around, *then_branch, state)
            } else {
                match else_branch {
                    Some(branch) => gen_stmt(context, around, *branch, state),
                    None => state,
                }
            },
            _ => {
                let otherwise = state.next_label();
                let end = otherwise + 1;
                let tested = gen_condition(context, condition, state.labelled().labelled()).branch(
                    Opcode::BranchFalse,
                    otherwise,
                    condition.span,
                );
                let first = gen_stmt(context, around, *then_branch, tested);
                match else_branch {
                    Some(branch) => gen_stmt(
                        context,
                        around,
                        *branch,
                        first.branch(Opcode::Branch, end, then_branch.span).mark(
                            otherwise,
                            condition.span,
                        ),
                    ).mark(end, then_branch.span),
                    None => first.mark(otherwise, condition.span).mark(end, then_branch.span),
                }
            },
        },
        StmtForm::While { condition, body } => {
            let start = state.next_label();
            let end = start + 1;
            let tested = gen_condition(
                context,
                condition,
                state.labelled().labelled().mark(start, condition.span),
            ).branch(Opcode::BranchFalse, end, condition.span);
            gen_stmt(context, around.with_loop(end, start), *body, tested).branch(
                Opcode::Branch,
                start,
                body.span,
            ).mark(end, body.span)
        },
        StmtForm::DoUntil { body, condition } => {
            let start = state.next_label();
            let repeat = start + 1;
            let end = start + 2;
            let done = gen_stmt(
                context,
                around.with_loop(end, repeat),
                *body,
                state.labelled().labelled().labelled().mark(start, body.span),
            ).mark(repeat, condition.span);
            gen_condition(context, condition, done).branch(
                Opcode::BranchFalse,
                start,
                condition.span,
            ).mark(end, condition.span)
        },
        StmtForm::For { initializer, condition, step, body } => {
            let begun = match initializer {
                Some(initializer) => gen_stmt(context, around, *initializer, state),
                None => state,
            };
            let start = begun.next_label();
            let repeat = start + 1;
            let end = start + 2;
            let marked = begun.labelled().labelled().labelled().mark(start, body.span);
            let tested = match condition {
                Some(condition) => gen_condition(context, condition, marked).branch(
                    Opcode::BranchFalse,
                    end,
                    condition.span,
                ),
                None => marked,
            };
            let done = gen_stmt(
                context,
                around.with_loop(end, repeat),
                *body,
                tested,
            ).mark(repeat, body.span);
            let next = match step {
                Some(step) => gen_alone(context, step, done),
                None => done,
            };
            next.branch(Opcode::Branch, start, body.span).mark(end, body.span)
        },
        StmtForm::Repeat { count, body } => {
            let start = state.next_label();
            let repeat = start + 1;
            let end = start + 2;
            let result = gen_expr(
                context,
                count,
                state.labelled().labelled().labelled(),
            );
            let counted = result.state.convert(result.value_type, VmType::Int).dup(
                VmType::Int,
                1,
            ).word(0).compare(VmType::Int, VmType::Int, Condition::LessEqual).branch(
                Opcode::BranchTrue,
                end,
                count.span,
            ).mark(start, body.span);
            gen_stmt(context, around.with_loop(end, repeat), *body, counted).mark(
                repeat,
                body.span,
            ).word(1).types(Opcode::Sub, VmType::Int, VmType::Int).dup(VmType::Int, 1).types(
                Opcode::Conv,
                VmType::Int,
                VmType::Bool,
            ).branch(Opcode::BranchTrue, start, body.span).mark(end, body.span).emit(
                Opcode::PopNull,
                VmType::Int,
            )
        },
        StmtForm::With { target, body } => {
            let start = state.next_label();
            let leave = start + 1;
            let end = start + 2;
            let entered = gen_with_target(
                context,
                target,
                state.labelled().labelled().labelled(),
            ).branch(Opcode::PushEnv, leave, target.span).mark(start, body.span);
            let depth = around.cleanup.len();
            let inside = Surroundings {
                cleanup: around.cleanup.push(Cleanup::With),
                breaks: around.breaks.push(Target { label: end, depth }),
                continues: around.continues.push(Target { label: leave, depth: depth + 1 }),
            };
            gen_stmt(context, inside, *body, entered).mark(leave, body.span).branch(
                Opcode::PopEnv,
                start,
                body.span,
            ).mark(end, body.span)
        },
        StmtForm::Switch { value, body } => match body.form {
            StmtForm::Block(statements) => {
                let result = gen_expr(context, value, state);
                let value_type = result.value_type;
                let cases = gen_cases(context, statements, value_type, result.state);
                let end = cases.state.next_label();
                let chosen = match cases.default {
                    Some(label) => cases.state.labelled().branch(
                        Opcode::Branch,
                        label,
                        statement.span,
                    ),
                    None => cases.state.labelled(),
                }.branch(Opcode::Branch, end, statement.span);
                let cleanup = around.cleanup.push(Cleanup::Switch(value_type));
                let depth = cleanup.len();
                let breaks = around.breaks.push(Target { label: end, depth });
                if around.continues.len() == 0 {
                    let inside = Surroundings { cleanup, breaks, continues: around.continues };
                    gen_bodies(context, inside, statements, cases.labels, chosen).mark(
                        end,
                        statement.span,
                    ).emit(Opcode::PopNull, value_type)
                } else {
                    let label = chosen.next_label();
                    let inside = Surroundings {
                        cleanup,
                        breaks,
                        continues: around.continues.push(Target { label, depth }),
                    };
                    let done = gen_bodies(
                        context,
                        inside,
                        statements,
                        cases.labels,
                        chosen.labelled(),
                    );
                    let left = if done.continues != chosen.continues {
                        done.branch(Opcode::Branch, end, statement.span).mark(
                            label,
                            statement.span,
                        ).emit(Opcode::PopNull, value_type).branch(
                            Opcode::Branch,
                            around.continues.last().label,
                            statement.span,
                        )
                    } else {
                        done
                    };
                    left.mark(end, statement.span).emit(Opcode::PopNull, value_type)
                }
            },
            _ => state.error(body.span, "switch body must be a block"@),
        },
        StmtForm::Case(_) => state.error(
            statement.span,
            "case/default used outside a switch block"@,
        ),
        StmtForm::Default => state.error(
            statement.span,
            "case/default used outside a switch block"@,
        ),
        StmtForm::Return(value) => match value {
            None => cleaned(state, around.cleanup, 0).emit(Opcode::Exit, VmType::Int),
            Some(value) => {
                let result = gen_expr(context, value, state);
                let ready = result.state.convert(result.value_type, VmType::Variable);
                if around.cleanup.len() == 0 {
                    ready.emit(Opcode::Return, VmType::Variable)
                } else {
                    temporary(
                        cleaned(
                            temporary(ready, Opcode::Pop, Some(VmType::Variable)),
                            around.cleanup,
                            0,
                        ),
                        Opcode::Push,
                        None,
                    ).emit(Opcode::Return, VmType::Variable)
                }
            },
        },
        StmtForm::Exit => cleaned(state, around.cleanup, 0).emit(Opcode::Exit, VmType::Int),
        StmtForm::Break => if around.breaks.len() == 0 {
            state.error(
                statement.span,
                "break used without a loop, switch, or with context"@,
            )
        } else {
            let target = around.breaks.last();
            cleaned(state, around.cleanup, target.depth).branch(
                Opcode::Branch,
                target.label,
                statement.span,
            )
        },
        StmtForm::Continue => if around.continues.len() == 0 {
            state.error(statement.span, "continue used without a loop or with context"@)
        } else {
            let target = around.continues.last();
            let counted = Gen { continues: state.continues.wrapping_add(1), ..state };
            cleaned(counted, around.cleanup, target.depth).branch(
                Opcode::Branch,
                target.label,
                statement.span,
            )
        },
        StmtForm::Expr(value) => gen_alone(context, value, state),
    }
}

/// What is generated for a list of statements.
#[verifier::opaque]
pub open spec fn gen_stmts(
    context: Context,
    around: Surroundings,
    statements: Seq<StmtTree>,
    state: Gen,
) -> Gen
    decreases statements,
{
    if statements.len() == 0 {
        state
    } else {
        gen_stmt(
            context,
            around,
            statements.last(),
            gen_stmts(context, around, statements.drop_last(), state),
        )
    }
}

/// What is generated for the statements of a switch: those behind a case or a
/// default stand behind its label.
#[verifier::opaque]
pub open spec fn gen_bodies(
    context: Context,
    around: Surroundings,
    statements: Seq<StmtTree>,
    labels: Seq<nat>,
    state: Gen,
) -> Gen
    decreases statements,
{
    if statements.len() == 0 {
        state
    } else {
        let before = gen_bodies(context, around, statements.drop_last(), labels, state);
        let statement = statements.last();
        if statement.form is Case || statement.form is Default {
            before.mark(labels[case_count(statements.drop_last()) as int], statement.span)
        } else {
            gen_stmt(context, around, statement, before)
        }
    }
}

/// What is generated before the first statement.
pub open spec fn no_code() -> Gen {
    Gen {
        vm: VmState {
            bytes: seq![],
            labels: seq![],
            branches: seq![],
            variables: seq![],
            functions: seq![],
            strings: seq![],
        },
        errors: seq![],
        continues: 0,
    }
}

/// What is generated for the code of a unit.
pub open spec fn unit_code(context: Context, statements: Seq<StmtTree>) -> Gen {
    gen_stmts(
        context,
        Surroundings { cleanup: seq![], breaks: seq![], continues: seq![] },
        statements,
        no_code(),
    )
}

} // verus!
