//! The compiler: from the analyzed units of a project to their bytecode.

use vstd::prelude::*;

use crate::gml::ast::{
    expr_trees, lemma_expr_trees, lemma_stmt_trees, stmt_trees, Accessor, AssignOp, BinaryOp, Expr,
    ExprForm, ExprKind, ExprTree, PostfixOp, Span, Stmt, StmtKind, StmtTree, UnaryOp, VarDecl,
};
use crate::gml::codegen::{
    accessor_names, assignment_code, base_of, case_count, cleaned, coerced, coerced_assigned,
    gen_accessor_assignment, gen_accessor_increment, gen_address, gen_alone, gen_arguments,
    gen_assignment, gen_binary, gen_bodies, gen_call, gen_cases, gen_chain, gen_combined,
    gen_condition, gen_conditional, gen_declarations, gen_expr, gen_increment, gen_index, gen_name,
    gen_plain_assignment, gen_plain_increment, gen_plain_read, gen_plain_write, gen_read, gen_stmt,
    gen_stmts, gen_tests, gen_with_target, gen_write, indices_of, kept, kept_below, no_code,
    unit_code, lemma_base_weight, lemma_chain, lemma_place_weight, lemma_weights, literal_of,
    literal_text, name_tree, named_instance, operands, operated, operated_unary, place_of,
    place_weight, push_configured, push_constant, push_double, push_member, push_nothing,
    push_number, push_whole, read_instance, reading_code, stack_read, stack_write, stepped,
    temporary, type_size, ungrouped, valued, variable_of, weight, weights, wider_type, Address,
    Cases, Cleanup, Gen, Place, Surroundings, Target, ARRAY_DIMENSION, GLOBAL_INSTANCE,
    LOCAL_INSTANCE, OTHER_INSTANCE, SELF_INSTANCE, SIMPLE_VARIABLE_FLAGS, STACK_INSTANCE_FLAGS,
};
use crate::gml::constants::{is_identifier, listed, quoted_text, strip_quotes, Constants, Context};
use crate::gml::floats::{integral, more_than_half, to_i16, FloatOperation};
use crate::gml::folding::{scalar_of, FoldedConstant};
use crate::gml::numbers::{hexadecimal, hexadecimal_digits, read_double, read_integer};
use crate::gml::semantic::NameBinding;
use crate::gml::spans::{
    expr_spanned, exprs_spanned, in_source, lemma_exprs_spanned, lemma_stmts_spanned,
    program_spanned, source_text, stmt_spanned, stmts_spanned, vars_spanned,
};
use crate::gml::symbols::{ResourceType, SymbolId};
use crate::gml::vm::{Condition, Label, Opcode, VariableKind, VmBuffer, VmError, VmType};
use crate::gml::{reports, Diagnostic};
use crate::text::{characters, debug_quoted, same_text, trim};

verus! {

#[derive(Clone, Copy)]
struct JumpTarget {
    label: Label,
    depth: usize,
}

impl JumpTarget {
    spec fn target(self) -> Target {
        Target { label: self.label.index(), depth: self.depth as nat }
    }
}

spec fn targets(list: Seq<JumpTarget>) -> Seq<Target> {
    list.map_values(|target: JumpTarget| target.target())
}

struct Compiler<
    'a,
    A: Fn(FloatOperation, u64, u64) -> u64,
    D: Fn(u64) -> String,
    P: Fn(&str) -> Option<u64>,
> {
    constants: Constants<'a, A, D, P>,
    vm: VmBuffer,
    cleanup: Vec<Cleanup>,
    breaks: Vec<JumpTarget>,
    continues: Vec<JumpTarget>,
    continue_count: u32,
    errors: Vec<Diagnostic>,
}

enum VariableAddress<'e> {
    Simple { instance: i16, opcode: Opcode },
    Stack(&'e Expr),
}

struct VariableSpec<'e> {
    name: String,
    kind: VariableKind,
    implicit_array: bool,
    address: VariableAddress<'e>,
}

impl<'e> View for VariableSpec<'e> {
    type V = Place;

    closed spec fn view(&self) -> Place {
        Place {
            name: self.name@,
            kind: self.kind,
            implicit_array: self.implicit_array,
            address: match self.address {
                VariableAddress::Simple { instance, opcode } => Address::Simple { instance, opcode },
                VariableAddress::Stack(object) => Address::Stack(object.tree()),
            },
        }
    }
}

/// The trees of indices, of which there may be none.
spec fn index_trees(indices: Option<&Vec<Expr>>) -> Seq<ExprTree> {
    match indices {
        Some(indices) => expr_trees(indices@),
        None => seq![],
    }
}

impl<
    'a,
    A: Fn(FloatOperation, u64, u64) -> u64,
    D: Fn(u64) -> String,
    P: Fn(&str) -> Option<u64>,
> Compiler<'a, A, D, P> {
    spec fn context(&self) -> Context {
        self.constants.context()
    }

    spec fn source(&self) -> Seq<char> {
        self.constants.unit.code@
    }

    #[verifier::opaque]
    spec fn state(&self) -> Gen {
        Gen {
            vm: self.vm@,
            errors: reports(self.errors@),
            continues: self.continue_count,
        }
    }

    spec fn around(&self) -> Surroundings {
        Surroundings {
            cleanup: self.cleanup@,
            breaks: targets(self.breaks@),
            continues: targets(self.continues@),
        }
    }

    spec fn fits(&self, target: JumpTarget) -> bool {
        target.label.index() < self.vm@.labels.len() && target.depth <= self.cleanup@.len()
    }

    #[verifier::opaque]
    spec fn wf(&self) -> bool {
        &&& self.constants.valid()
        &&& self.vm@.valid()
        &&& forall|k: int| 0 <= k < self.breaks@.len() ==> self.fits(#[trigger] self.breaks@[k])
        &&& forall|k: int|
            0 <= k < self.continues@.len() ==> self.fits(#[trigger] self.continues@[k])
    }

    /// Whether this compiler went on from another.
    spec fn follows(&self, from: &Self) -> bool {
        &&& self.wf()
        &&& self.constants == from.constants
        &&& self.cleanup@ == from.cleanup@
        &&& self.breaks@ == from.breaks@
        &&& self.continues@ == from.continues@
        &&& self.vm@.labels.len() >= from.vm@.labels.len()
    }

    fn error(&mut self, span: Span, message: &str)
        requires
            old(self).wf(),
        ensures
            final(self).follows(old(self)),
            final(self).state() == old(self).state().error(span, message@),
    {
        reveal(Compiler::state);
        reveal(Compiler::wf);
        let diagnostic = Diagnostic::new(message, span);
        let ghost before = self.errors@;
        self.errors.push(diagnostic);
        assert(reports(self.errors@) =~= reports(before).push(diagnostic@));
    }

    fn report(&mut self, result: Result<(), VmError>, span: Span)
        requires
            old(self).wf(),
        ensures
            final(self).follows(old(self)),
            final(self).state() == match result {
                Ok(_) => old(self).state(),
                Err(error) => old(self).state().error(span, crate::gml::vm::error_text(error)),
            },
    {
        match result {
            Ok(_) => {},
            Err(error) => {
                let text = error.text();
                self.error(span, text.as_str());
            },
        }
    }

    fn emit(&mut self, opcode: Opcode, value_type: VmType)
        requires
            old(self).wf(),
        ensures
            final(self).follows(old(self)),
            final(self).state() == old(self).state().emit(opcode, value_type),
    {
        reveal(Gen::emit);
        reveal(Compiler::state);
        reveal(Compiler::wf);
        self.vm.emit(opcode, value_type);
    }

    fn types(&mut self, opcode: Opcode, first: VmType, second: VmType)
        requires
            old(self).wf(),
        ensures
            final(self).follows(old(self)),
            final(self).state() == old(self).state().types(opcode, first, second),
    {
        reveal(Gen::types);
        reveal(Compiler::state);
        reveal(Compiler::wf);
        self.vm.emit_types(opcode, first, second);
    }

    fn compare(&mut self, first: VmType, second: VmType, condition: Condition)
        requires
            old(self).wf(),
        ensures
            final(self).follows(old(self)),
            final(self).state() == old(self).state().compare(first, second, condition),
    {
        reveal(Gen::compare);
        reveal(Compiler::state);
        reveal(Compiler::wf);
        self.vm.emit_condition(Opcode::SetValue, first, second, condition);
    }

    fn dup(&mut self, value_type: VmType, count: u16)
        requires
            old(self).wf(),
            count != 0,
        ensures
            final(self).follows(old(self)),
            final(self).state() == old(self).state().dup(value_type, count as int),
    {
        reveal(Gen::dup);
        reveal(Compiler::state);
        reveal(Compiler::wf);
        self.vm.emit_dup(value_type, count);
    }

    fn immediate(&mut self, value: i16)
        requires
            old(self).wf(),
        ensures
            final(self).follows(old(self)),
            final(self).state() == old(self).state().immediate(value),
    {
        reveal(Gen::immediate);
        reveal(Compiler::state);
        reveal(Compiler::wf);
        self.vm.emit_push_immediate(value);
    }

    fn short(&mut self, value: u16)
        requires
            old(self).wf(),
        ensures
            final(self).follows(old(self)),
            final(self).state() == old(self).state().short(value),
    {
        reveal(Gen::short);
        reveal(Compiler::state);
        reveal(Compiler::wf);
        self.vm.emit_push_error(value);
    }

    fn word(&mut self, value: i32)
        requires
            old(self).wf(),
        ensures
            final(self).follows(old(self)),
            final(self).state() == old(self).state().word(value),
    {
        reveal(Gen::word);
        reveal(Compiler::state);
        reveal(Compiler::wf);
        self.vm.emit_push_i32(value);
    }

    fn long(&mut self, value: i64)
        requires
            old(self).wf(),
        ensures
            final(self).follows(old(self)),
            final(self).state() == old(self).state().long(value),
    {
        reveal(Gen::long);
        reveal(Compiler::state);
        reveal(Compiler::wf);
        self.vm.emit_push_i64(value);
    }

    fn double(&mut self, bits: u64)
        requires
            old(self).wf(),
        ensures
            final(self).follows(old(self)),
            final(self).state() == old(self).state().double(bits),
    {
        reveal(Gen::double);
        reveal(Compiler::state);
        reveal(Compiler::wf);
        self.vm.emit_push_f64(bits);
    }

    fn hook(&mut self, value: u16)
        requires
            old(self).wf(),
        ensures
            final(self).follows(old(self)),
            final(self).state() == old(self).state().hook(value),
    {
        reveal(Gen::hook);
        reveal(Compiler::state);
        reveal(Compiler::wf);
        self.vm.emit_break(value);
    }

    fn reorder(&mut self, depth: u16)
        requires
            old(self).wf(),
        ensures
            final(self).follows(old(self)),
            final(self).state() == old(self).state().reorder(depth),
    {
        reveal(Gen::reorder);
        reveal(Compiler::state);
        reveal(Compiler::wf);
        self.vm.emit_pop_reorder(depth);
    }

    fn text(&mut self, value: &str, span: Span)
        requires
            old(self).wf(),
        ensures
            final(self).follows(old(self)),
            final(self).state() == old(self).state().text(value@, span),
    {
        reveal(Gen::text);
        reveal(Compiler::state);
        reveal(Compiler::wf);
        let result = self.vm.emit_push_string(value);
        self.report(result, span);
    }

    fn variable(
        &mut self,
        opcode: Opcode,
        instance: i16,
        target_type: Option<VmType>,
        source_type: Option<VmType>,
        name: &str,
        kind: VariableKind,
        flags: u32,
    )
        requires
            old(self).wf(),
            source_type is Some ==> target_type is Some,
        ensures
            final(self).follows(old(self)),
            final(self).state() == old(self).state().variable(
                opcode,
                instance,
                target_type,
                source_type,
                name@,
                kind,
                flags,
            ),
    {
        reveal(Gen::variable);
        reveal(Compiler::state);
        reveal(Compiler::wf);
        let result = self.vm.emit_variable(
            opcode,
            instance,
            target_type,
            source_type,
            name,
            kind,
            flags,
            None,
        );
        self.report(result, Span::default());
    }

    fn call_function(&mut self, name: &str, count: u16, span: Span)
        requires
            old(self).wf(),
        ensures
            final(self).follows(old(self)),
            final(self).state() == old(self).state().call(name@, count, span),
    {
        reveal(Gen::call);
        reveal(Compiler::state);
        reveal(Compiler::wf);
        let result = self.vm.emit_call(name, count);
        self.report(result, span);
    }

    fn label(&mut self) -> (label: Label)
        requires
            old(self).wf(),
        ensures
            final(self).follows(old(self)),
            final(self).state() == old(self).state().labelled(),
            label.index() == old(self).state().next_label(),
            final(self).state().next_label() == old(self).state().next_label() + 1,
            label.index() < final(self).vm@.labels.len(),
    {
        reveal(Gen::labelled);
        reveal(Compiler::state);
        reveal(Compiler::wf);
        self.vm.label()
    }

    fn mark(&mut self, label: Label, span: Span)
        requires
            old(self).wf(),
            label.index() < old(self).vm@.labels.len(),
        ensures
            final(self).follows(old(self)),
            final(self).state() == old(self).state().mark(label.index(), span),
    {
        reveal(Gen::mark);
        reveal(Compiler::state);
        reveal(Compiler::wf);
        let result = self.vm.mark(label);
        self.report(result, span);
    }

    fn branch(&mut self, opcode: Opcode, label: Label, span: Span)
        requires
            old(self).wf(),
            opcode.jumps(),
        ensures
            final(self).follows(old(self)),
            final(self).state() == old(self).state().branch(opcode, label.index(), span),
    {
        reveal(Gen::branch);
        reveal(Compiler::state);
        reveal(Compiler::wf);
        let result = self.vm.emit_branch(opcode, label);
        self.report(result, span);
    }

    fn convert(&mut self, from: VmType, to: VmType)
        requires
            old(self).wf(),
        ensures
            final(self).follows(old(self)),
            final(self).state() == old(self).state().convert(from, to),
    {
        if from != to {
            self.types(Opcode::Conv, from, to);
        }
    }

    fn push_whole(&mut self, value: i64) -> (value_type: VmType)
        requires
            old(self).wf(),
        ensures
            final(self).follows(old(self)),
            valued(final(self).state(), value_type) == push_whole(old(self).state(), value),
    {
        if i16::MIN as i64 <= value && value <= i16::MAX as i64 {
            self.immediate(value as i16);
            VmType::Int
        } else if i32::MIN as i64 <= value && value <= i32::MAX as i64 {
            self.word(value as i32);
            VmType::Int
        } else {
            self.long(value);
            VmType::Long
        }
    }

    fn push_double(&mut self, bits: u64, boolean: bool) -> (value_type: VmType)
        requires
            old(self).wf(),
        ensures
            final(self).follows(old(self)),
            valued(final(self).state(), value_type) == push_double(
                old(self).state(),
                bits,
                boolean,
            ),
    {
        if boolean {
            self.immediate(to_i16(bits));
            return VmType::Bool;
        }
        match integral(bits) {
            Some(value) => self.push_whole(value),
            None => {
                self.double(bits);
                VmType::Double
            },
        }
    }

    fn push_folded(&mut self, value: FoldedConstant, span: Span) -> (value_type: VmType)
        requires
            old(self).wf(),
        ensures
            final(self).follows(old(self)),
            valued(final(self).state(), value_type) == push_constant(
                old(self).state(),
                value@,
                span,
            ),
    {
        match value {
            FoldedConstant::Number { bits, boolean } => self.push_double(bits, boolean),
            FoldedConstant::Int64(value) => {
                self.long(value);
                VmType::Long
            },
            FoldedConstant::Text(text) => {
                self.text(text.as_str(), span);
                VmType::String
            },
        }
    }

    fn push_nothing(&mut self, span: Span, message: &str) -> (value_type: VmType)
        requires
            old(self).wf(),
        ensures
            final(self).follows(old(self)),
            valued(final(self).state(), value_type) == push_nothing(
                old(self).state(),
                span,
                message@,
            ),
    {
        self.error(span, message);
        self.immediate(0);
        VmType::Int
    }

    fn push_member(
        &mut self,
        enum_symbol: SymbolId,
        member_index: usize,
        span: Span,
    ) -> (value_type: VmType)
        requires
            old(self).wf(),
        ensures
            final(self).follows(old(self)),
            valued(final(self).state(), value_type) == push_member(
                old(self).state(),
                old(self).context(),
                enum_symbol,
                member_index,
                span,
            ),
    {
        match self.constants.enum_value(enum_symbol, member_index) {
            Some(value) => self.push_whole(value),
            None => {
                self.error(span, "missing folded value for enum member");
                self.push_whole(member_index as i64)
            },
        }
    }

    fn push_configured(&mut self, index: usize, span: Span) -> (value_type: VmType)
        requires
            old(self).wf(),
        ensures
            final(self).follows(old(self)),
            valued(final(self).state(), value_type) == push_configured(
                old(self).state(),
                old(self).context(),
                old(self).context().configured(index),
                span,
            ),
    {
        assert(self.constants.valid()) by {
            reveal(Compiler::wf);
        }
        let inner = trim(self.constants.configured(index));
        if let Some(text) = quoted_text(inner.as_str()) {
            self.text(text.as_str(), span);
            return VmType::String;
        }
        let letters = characters(inner.as_str());
        if letters.len() > 0 && letters[0] == '$' {
            let digits = vstd::slice::slice_subrange(letters.as_slice(), 1, letters.len());
            assert(digits@ =~= letters@.skip(1));
            if let Some(value) = read_integer(digits, 16) {
                return self.push_whole(value);
            }
        }
        if let Some(bits) = read_double(self.constants.read, inner.as_str()) {
            return self.push_double(bits, false);
        }
        if let Some(bits) = self.constants.builtin(inner.as_str()) {
            return self.push_double(bits, false);
        }
        let mut message = "configured constant expression ".to_owned();
        let shown = debug_quoted(inner.as_str());
        message.append(shown.as_str());
        message.append(" is not yet foldable");
        self.push_nothing(span, message.as_str())
    }

    fn push_number(&mut self, span: Span) -> (value_type: VmType)
        requires
            old(self).wf(),
            in_source(old(self).source(), span),
        ensures
            final(self).follows(old(self)),
            valued(final(self).state(), value_type) == push_number(
                old(self).state(),
                old(self).context(),
                span,
            ),
    {
        assert(self.constants.valid()) by {
            reveal(Compiler::wf);
        }
        let text = source_text(self.constants.unit.code.as_str(), span);
        let letters = characters(text);
        match hexadecimal_digits(letters.as_slice()) {
            Some(digits) => match read_integer(digits, 16) {
                Some(value) => self.push_whole(value),
                None => {
                    let mut message = "invalid hexadecimal number ".to_owned();
                    message.append(text);
                    self.push_nothing(span, message.as_str())
                },
            },
            None => match read_double(self.constants.read, text) {
                Some(bits) => self.push_double(bits, false),
                None => {
                    let mut message = "invalid number ".to_owned();
                    message.append(text);
                    self.push_nothing(span, message.as_str())
                },
            },
        }
    }

    fn push_literal(&mut self, span: Span) -> (value_type: VmType)
        requires
            old(self).wf(),
            in_source(old(self).source(), span),
        ensures
            final(self).follows(old(self)),
            valued(final(self).state(), value_type) == valued(
                old(self).state().text(literal_text(old(self).context().text(span)), span),
                VmType::String,
            ),
    {
        let text = source_text(self.constants.unit.code.as_str(), span);
        match strip_quotes(text) {
            Some(inner) => self.text(inner.as_str(), span),
            None => self.text(text, span),
        }
        VmType::String
    }

    fn coerce_operand(&mut self, op: BinaryOp, value_type: VmType) -> (result: VmType)
        requires
            old(self).wf(),
        ensures
            final(self).follows(old(self)),
            valued(final(self).state(), result) == coerced(old(self).state(), op, value_type),
    {
        match op {
            BinaryOp::Divide => match value_type {
                VmType::Double => value_type,
                VmType::Variable => value_type,
                _ => {
                    self.convert(value_type, VmType::Double);
                    VmType::Double
                },
            },
            BinaryOp::Add | BinaryOp::Subtract | BinaryOp::Multiply | BinaryOp::IntegerDivide
            | BinaryOp::Modulo => match value_type {
                VmType::Bool => {
                    self.convert(value_type, VmType::Int);
                    VmType::Int
                },
                _ => value_type,
            },
            BinaryOp::LogicalXor => match value_type {
                VmType::Bool => value_type,
                _ => {
                    self.convert(value_type, VmType::Bool);
                    VmType::Bool
                },
            },
            BinaryOp::BitOr | BinaryOp::BitAnd | BinaryOp::BitXor => match value_type {
                VmType::Int => VmType::Int,
                VmType::Variable | VmType::Double | VmType::Long => {
                    self.convert(value_type, VmType::Long);
                    VmType::Long
                },
                _ => {
                    self.convert(value_type, VmType::Int);
                    VmType::Int
                },
            },
            BinaryOp::ShiftLeft | BinaryOp::ShiftRight => {
                self.convert(value_type, VmType::Long);
                VmType::Long
            },
            _ => value_type,
        }
    }

    fn coerce_assigned(&mut self, op: AssignOp, value_type: VmType) -> (result: VmType)
        requires
            old(self).wf(),
        ensures
            final(self).follows(old(self)),
            valued(final(self).state(), result) == coerced_assigned(
                old(self).state(),
                op,
                value_type,
            ),
    {
        match op {
            AssignOp::BitOr | AssignOp::BitAnd | AssignOp::BitXor => match value_type {
                VmType::Int => value_type,
                VmType::Long => value_type,
                _ => {
                    self.convert(value_type, VmType::Int);
                    VmType::Int
                },
            },
            _ => match value_type {
                VmType::Bool => {
                    self.convert(value_type, VmType::Int);
                    VmType::Int
                },
                _ => value_type,
            },
        }
    }

    fn operate(&mut self, op: BinaryOp, left: VmType, right: VmType) -> (result: VmType)
        requires
            old(self).wf(),
        ensures
            final(self).follows(old(self)),
            valued(final(self).state(), result) == operated(old(self).state(), op, left, right),
    {
        let wider = wider(left, right);
        match op {
            BinaryOp::Equal => {
                self.compare(right, left, Condition::Equal);
                VmType::Bool
            },
            BinaryOp::NotEqual => {
                self.compare(right, left, Condition::NotEqual);
                VmType::Bool
            },
            BinaryOp::Less => {
                self.compare(right, left, Condition::Less);
                VmType::Bool
            },
            BinaryOp::LessEqual => {
                self.compare(right, left, Condition::LessEqual);
                VmType::Bool
            },
            BinaryOp::Greater => {
                self.compare(right, left, Condition::Greater);
                VmType::Bool
            },
            BinaryOp::GreaterEqual => {
                self.compare(right, left, Condition::GreaterEqual);
                VmType::Bool
            },
            BinaryOp::Add => {
                self.types(Opcode::Add, right, left);
                wider
            },
            BinaryOp::Subtract => {
                self.types(Opcode::Sub, right, left);
                wider
            },
            BinaryOp::Multiply => {
                self.types(Opcode::Mul, right, left);
                wider
            },
            BinaryOp::Divide => {
                self.types(Opcode::Div, right, left);
                wider
            },
            BinaryOp::IntegerDivide => {
                self.types(Opcode::Rem, right, left);
                wider
            },
            BinaryOp::Modulo => {
                self.types(Opcode::Mod, right, left);
                wider
            },
            BinaryOp::LogicalXor | BinaryOp::BitXor => {
                self.types(Opcode::Xor, right, left);
                wider
            },
            BinaryOp::BitOr => {
                self.types(Opcode::Or, right, left);
                wider
            },
            BinaryOp::BitAnd => {
                self.types(Opcode::And, right, left);
                wider
            },
            BinaryOp::ShiftLeft => {
                self.types(Opcode::Shl, right, left);
                wider
            },
            BinaryOp::ShiftRight => {
                self.types(Opcode::Shr, right, left);
                wider
            },
            BinaryOp::LogicalAnd | BinaryOp::LogicalOr => wider,
        }
    }

    fn operate_unary(&mut self, op: UnaryOp, value_type: VmType) -> (result: VmType)
        requires
            old(self).wf(),
        ensures
            final(self).follows(old(self)),
            valued(final(self).state(), result) == operated_unary(
                old(self).state(),
                op,
                value_type,
            ),
    {
        match op {
            UnaryOp::Negative => match value_type {
                VmType::Bool => {
                    self.convert(value_type, VmType::Int);
                    self.emit(Opcode::Neg, VmType::Int);
                    VmType::Int
                },
                _ => {
                    self.emit(Opcode::Neg, value_type);
                    value_type
                },
            },
            UnaryOp::Not => {
                self.convert(value_type, VmType::Bool);
                self.emit(Opcode::Not, VmType::Bool);
                VmType::Bool
            },
            UnaryOp::BitNot => match value_type {
                VmType::Double | VmType::Float | VmType::Variable => {
                    self.convert(value_type, VmType::Int);
                    self.emit(Opcode::Not, VmType::Int);
                    VmType::Int
                },
                _ => {
                    self.emit(Opcode::Not, value_type);
                    value_type
                },
            },
            _ => value_type,
        }
    }
}

fn size_of_type(value_type: VmType) -> (size: u8)
    ensures
        size == type_size(value_type),
{
    match value_type {
        VmType::Double => 8,
        VmType::Long => 8,
        VmType::Variable => 12,
        VmType::Float => 4,
        VmType::Int => 4,
        VmType::Bool => 4,
        VmType::String => 4,
        _ => 0,
    }
}

fn wider(first: VmType, second: VmType) -> (result: VmType)
    ensures
        result == wider_type(first, second),
{
    let first_size = size_of_type(first);
    let second_size = size_of_type(second);
    if first_size > second_size {
        first
    } else if second_size > first_size {
        second
    } else if first.code() < second.code() {
        first
    } else {
        second
    }
}

fn assignment_opcode(op: AssignOp) -> (opcode: Opcode)
    ensures
        opcode == assignment_code(op),
{
    match op {
        AssignOp::Assign => Opcode::Add,
        AssignOp::Add => Opcode::Add,
        AssignOp::Subtract => Opcode::Sub,
        AssignOp::Multiply => Opcode::Mul,
        AssignOp::Divide => Opcode::Div,
        AssignOp::Modulo => Opcode::Mod,
        AssignOp::BitOr => Opcode::Or,
        AssignOp::BitAnd => Opcode::And,
        AssignOp::BitXor => Opcode::Xor,
    }
}

/// The trees of some expressions.
spec fn ref_trees(values: Seq<&Expr>) -> Seq<ExprTree> {
    values.map_values(|value: &Expr| value.tree())
}

fn collect_operands<'e>(op: BinaryOp, expression: &'e Expr, all: &mut Vec<&'e Expr>)
    ensures
        ref_trees(final(all)@) == ref_trees(old(all)@) + operands(op, expression.tree()),
    decreases expression,
{
    let ghost before = all@;
    match &expression.kind {
        ExprKind::Binary { op: inner, left, right } => {
            if *inner == op {
                collect_operands(op, left, all);
                collect_operands(op, right, all);
                assert(ref_trees(all@) =~= ref_trees(before) + operands(op, expression.tree()));
                return;
            }
        },
        _ => {},
    }
    all.push(expression);
    assert(ref_trees(all@) =~= ref_trees(before) + operands(op, expression.tree()));
}

proof fn lemma_operands_spanned(source: Seq<char>, op: BinaryOp, value: ExprTree)
    requires
        expr_spanned(source, value),
    ensures
        forall|k: int|
            0 <= k < operands(op, value).len() ==> expr_spanned(
                source,
                #[trigger] operands(op, value)[k],
            ),
    decreases value,
{
    if let ExprForm::Binary { op: inner, left, right } = value.form {
        if inner == op {
            lemma_operands_spanned(source, op, *left);
            lemma_operands_spanned(source, op, *right);
            let first = operands(op, *left);
            let second = operands(op, *right);
            assert forall|k: int| 0 <= k < operands(op, value).len() implies expr_spanned(
                source,
                #[trigger] operands(op, value)[k],
            ) by {
                if k < first.len() {
                    assert(operands(op, value)[k] == first[k]);
                } else {
                    assert(operands(op, value)[k] == second[k - first.len()]);
                }
            }
        }
    }
}

/// Whether what computes the instance of a variable is spanned.
spec fn place_spanned(source: Seq<char>, place: Place) -> bool {
    match place.address {
        Address::Simple { .. } => true,
        Address::Stack(object) => expr_spanned(source, object),
    }
}

struct Accessors {
    get: &'static str,
    set: &'static str,
    set_pre: &'static str,
    set_post: &'static str,
}

fn accessor_functions(accessor: Accessor, dimensions: usize) -> (names: Option<Accessors>)
    ensures
        match names {
            Some(names) => {
                &&& accessor_names(accessor, dimensions as int) matches Some(expected)
                &&& names.get@ == expected.get
                &&& names.set@ == expected.set
                &&& names.set_pre@ == expected.set_pre
                &&& names.set_post@ == expected.set_post
                &&& 1 <= dimensions <= 2
            },
            None => accessor_names(accessor, dimensions as int) is None,
        },
{
    match accessor {
        Accessor::DsMap => if dimensions == 1 {
            Some(
                Accessors {
                    get: "ds_map_find_value",
                    set: "ds_map_set",
                    set_pre: "ds_map_set_pre",
                    set_post: "ds_map_set_post",
                },
            )
        } else {
            None
        },
        Accessor::List => if dimensions == 1 {
            Some(
                Accessors {
                    get: "ds_list_find_value",
                    set: "ds_list_set",
                    set_pre: "ds_list_set_pre",
                    set_post: "ds_list_set_post",
                },
            )
        } else {
            None
        },
        Accessor::Grid => if dimensions == 2 {
            Some(
                Accessors {
                    get: "ds_grid_get",
                    set: "ds_grid_set",
                    set_pre: "ds_grid_set_pre",
                    set_post: "ds_grid_set_post",
                },
            )
        } else {
            None
        },
        Accessor::ArrayDirect => if dimensions == 1 {
            Some(
                Accessors {
                    get: "array_get",
                    set: "array_set",
                    set_pre: "array_set_pre",
                    set_post: "array_set_post",
                },
            )
        } else if dimensions == 2 {
            Some(
                Accessors {
                    get: "array_get_2D",
                    set: "array_set_2D",
                    set_pre: "array_set_2D_pre",
                    set_post: "array_set_2D_post",
                },
            )
        } else {
            None
        },
        _ => None,
    }
}

fn binding_variable(binding: NameBinding) -> (result: Option<(VariableKind, i16, Opcode)>)
    ensures
        result == variable_of(binding),
{
    match binding {
        NameBinding::LocalVariable { .. } => Some(
            (VariableKind::Local, LOCAL_INSTANCE, Opcode::PushLocal),
        ),
        NameBinding::GlobalVariable => Some(
            (VariableKind::Global, GLOBAL_INSTANCE, Opcode::PushGlobal),
        ),
        NameBinding::InstanceVariable => Some(
            (VariableKind::Instance, SELF_INSTANCE, Opcode::Push),
        ),
        NameBinding::BuiltinVariable => Some(
            (VariableKind::Builtin, SELF_INSTANCE, Opcode::PushBuiltin),
        ),
        _ => None,
    }
}

fn without_indices<'e>(target: &'e Expr) -> (result: (&'e Expr, Option<&'e Vec<Expr>>))
    ensures
        result.0.tree() == base_of(target.tree()),
        index_trees(result.1) == indices_of(target.tree()),
{
    match &target.kind {
        ExprKind::Index { target: base, accessor: Accessor::Array, indices } => (
            base,
            Some(indices),
        ),
        _ => (target, None),
    }
}

fn has_indices(indices: Option<&Vec<Expr>>) -> (result: bool)
    ensures
        result == (index_trees(indices).len() > 0),
{
    match indices {
        Some(indices) => {
            proof {
                lemma_expr_trees(indices@);
            }
            indices.len() > 0
        },
        None => false,
    }
}

fn without_groups<'e>(expression: &'e Expr) -> (result: &'e Expr)
    ensures
        result.tree() == ungrouped(expression.tree()),
    decreases expression,
{
    match &expression.kind {
        ExprKind::Group(inner) => without_groups(inner),
        _ => expression,
    }
}

proof fn lemma_ungrouped_spanned(source: Seq<char>, value: ExprTree)
    requires
        expr_spanned(source, value),
    ensures
        expr_spanned(source, ungrouped(value)),
    decreases value,
{
    if let ExprForm::Group(inner) = value.form {
        lemma_ungrouped_spanned(source, *inner);
    }
}

impl<
    'a,
    A: Fn(FloatOperation, u64, u64) -> u64,
    D: Fn(u64) -> String,
    P: Fn(&str) -> Option<u64>,
> Compiler<'a, A, D, P> {
    fn word_at(&self, span: Span) -> (text: &'a str)
        requires
            in_source(self.source(), span),
        ensures
            text@ == self.context().text(span),
    {
        source_text(self.constants.unit.code.as_str(), span)
    }

    fn reading_opcode(&self, name: &str, kind: VariableKind, opcode: Opcode) -> (result: Opcode)
        ensures
            result == reading_code(self.context(), name@, kind, opcode),
    {
        if matches!(kind, VariableKind::Builtin) && listed(
            &self.constants.builtins.instance_variables,
            name,
        ) {
            Opcode::Push
        } else {
            opcode
        }
    }

    fn instance_before(&self, object: &Expr, opcode: Opcode) -> (result: Option<(i16, Opcode)>)
        requires
            expr_spanned(self.source(), object.tree()),
        ensures
            result == named_instance(self.context(), object.tree(), opcode),
    {
        if !is_identifier(object) {
            return None;
        }
        let word = self.word_at(object.span);
        if same_text(word, "self") {
            Some((SELF_INSTANCE, opcode))
        } else if same_text(word, "other") {
            Some((OTHER_INSTANCE, Opcode::Push))
        } else if same_text(word, "global") {
            Some((GLOBAL_INSTANCE, Opcode::PushGlobal))
        } else if same_text(word, "local") {
            Some((LOCAL_INSTANCE, Opcode::PushLocal))
        } else {
            match self.constants.resolution(object.span) {
                Some(resolution) => match resolution.binding {
                    NameBinding::Resource { kind: ResourceType::Object, index } => {
                        if index <= i16::MAX as usize {
                            Some((index as i16, Opcode::Push))
                        } else {
                            None
                        }
                    },
                    _ => None,
                },
                None => None,
            }
        }
    }

    fn place<'e>(&self, target: &'e Expr) -> (place: Option<VariableSpec<'e>>)
        requires
            expr_spanned(self.source(), target.tree()),
        ensures
            match place {
                Some(place) => place_of(self.context(), target.tree()) == Some(place@)
                    && place_spanned(self.source(), place@),
                None => place_of(self.context(), target.tree()) is None,
            },
        decreases target,
    {
        match &target.kind {
            ExprKind::Group(inner) => self.place(inner),
            ExprKind::Identifier => match self.constants.resolution(target.span) {
                None => None,
                Some(resolution) => match binding_variable(resolution.binding) {
                    None => None,
                    Some((kind, instance, opcode)) => {
                        let name = self.constants.name(resolution.symbol);
                        let opcode = self.reading_opcode(name, kind, opcode);
                        Some(
                            VariableSpec {
                                name: name.to_owned(),
                                kind,
                                implicit_array: matches!(kind, VariableKind::Builtin) && listed(
                                    &self.constants.builtins.array_variables,
                                    name,
                                ),
                                address: VariableAddress::Simple { instance, opcode },
                            },
                        )
                    },
                },
            },
            ExprKind::Member { target: object, name: span } => match self.constants.resolution(
                *span,
            ) {
                None => None,
                Some(resolution) => match binding_variable(resolution.binding) {
                    None => None,
                    Some((kind, _, opcode)) => {
                        let name = self.constants.name(resolution.symbol);
                        let reading = self.reading_opcode(name, kind, opcode);
                        let address = match self.instance_before(object, reading) {
                            Some((instance, opcode)) => VariableAddress::Simple {
                                instance,
                                opcode,
                            },
                            None => VariableAddress::Stack(object),
                        };
                        Some(
                            VariableSpec {
                                name: name.to_owned(),
                                kind,
                                implicit_array: listed(
                                    &self.constants.builtins.array_variables,
                                    name,
                                ),
                                address,
                            },
                        )
                    },
                },
            },
            _ => None,
        }
    }

    fn read_stack<'e>(&mut self, place: &VariableSpec<'e>, indexed: bool)
        requires
            old(self).wf(),
        ensures
            final(self).follows(old(self)),
            final(self).state() == stack_read(old(self).state(), place@, indexed),
    {
        let flags = if indexed || place.implicit_array {
            0
        } else {
            STACK_INSTANCE_FLAGS
        };
        self.variable(Opcode::Push, 0, None, None, place.name.as_str(), place.kind, flags);
    }

    fn write_stack<'e>(
        &mut self,
        place: &VariableSpec<'e>,
        indexed: bool,
        value_type: VmType,
        combined: bool,
    )
        requires
            old(self).wf(),
        ensures
            final(self).follows(old(self)),
            final(self).state() == stack_write(
                old(self).state(),
                place@,
                indexed,
                value_type,
                combined,
            ),
    {
        let flags = if indexed || place.implicit_array {
            0
        } else {
            STACK_INSTANCE_FLAGS
        };
        let (target, source) = if combined {
            (VmType::Variable, Some(VmType::Int))
        } else {
            (value_type, None)
        };
        self.variable(Opcode::Pop, 0, Some(target), source, place.name.as_str(), place.kind, flags);
    }

    fn instance_id(&mut self, instance: i16)
        requires
            old(self).wf(),
        ensures
            final(self).follows(old(self)),
            final(self).state() == read_instance(old(self).state(), instance),
    {
        self.variable(
            Opcode::Push,
            instance,
            None,
            None,
            "id",
            VariableKind::Builtin,
            SIMPLE_VARIABLE_FLAGS,
        );
    }

    fn keep_value(&mut self, keep: bool)
        requires
            old(self).wf(),
        ensures
            final(self).follows(old(self)),
            final(self).state() == kept(old(self).state(), keep),
    {
        if keep {
            self.dup(VmType::Variable, 1);
        }
    }

    fn keep_value_below(&mut self, indexed: bool)
        requires
            old(self).wf(),
        ensures
            final(self).follows(old(self)),
            final(self).state() == kept_below(old(self).state(), indexed),
    {
        self.dup(VmType::Variable, 1);
        self.reorder(
            if indexed {
                5
            } else {
                6
            },
        );
    }

    fn step(&mut self, increment: bool, value_type: VmType)
        requires
            old(self).wf(),
        ensures
            final(self).follows(old(self)),
            final(self).state() == stepped(old(self).state(), increment, value_type),
    {
        self.short(1);
        self.types(
            if increment {
                Opcode::Add
            } else {
                Opcode::Sub
            },
            VmType::Int,
            value_type,
        );
    }

    fn literal(&self, expression: &Expr) -> (text: Option<String>)
        requires
            expr_spanned(self.source(), expression.tree()),
        ensures
            match text {
                Some(text) => literal_of(self.context(), expression.tree()) == Some(text@),
                None => literal_of(self.context(), expression.tree()) is None,
            },
        decreases expression,
    {
        match &expression.kind {
            ExprKind::Group(inner) => self.literal(inner),
            ExprKind::String => strip_quotes(self.word_at(expression.span)),
            _ => None,
        }
    }
}

/// The number of nodes of an expression.
#[verifier::opaque]
spec fn size(value: ExprTree) -> nat {
    weight(value)
}

/// The number of nodes of a list of expressions.
#[verifier::opaque]
spec fn sizes(values: Seq<ExprTree>) -> nat {
    weights(values)
}

/// The number of nodes of what computes the instance of a variable.
#[verifier::opaque]
spec fn place_size(place: Place) -> nat {
    place_weight(place)
}

/// The parts of an expression are smaller than it.
proof fn lemma_size(value: ExprTree)
    ensures
        size(value) >= 1,
        match value.form {
            ExprForm::Identifier => true,
            ExprForm::Number => true,
            ExprForm::String => true,
            ExprForm::Group(inner) => size(*inner) < size(value),
            ExprForm::Array(_) => true,
            ExprForm::Unary { value: inner, .. } => size(*inner) < size(value),
            ExprForm::Binary { left, right, .. } => size(*left) + size(*right) + 1 == size(value),
            ExprForm::Conditional { condition, then_value, else_value } => size(*condition) + size(
                *then_value,
            ) + size(*else_value) + 1 == size(value),
            ExprForm::Assign { target, value: assigned, .. } => size(*target) + size(*assigned) + 1
                == size(value),
            ExprForm::Call { callee, arguments } => sizes(arguments) + 1 < size(value),
            ExprForm::Index { target, indices, .. } => size(*target) + sizes(indices) + 1 == size(
                value,
            ),
            ExprForm::Member { target, .. } => size(*target) < size(value),
            ExprForm::Postfix { target, .. } => size(*target) < size(value),
        },
{
    reveal(size);
    reveal(sizes);
    if let ExprForm::Call { callee, arguments } = value.form {
        assert(weight(*callee) >= 1);
    }
}

proof fn lemma_sizes(values: Seq<ExprTree>, index: int)
    requires
        0 <= index < values.len(),
    ensures
        1 <= size(values[index]) <= sizes(values),
{
    reveal(size);
    reveal(sizes);
    lemma_weights(values, index);
}

proof fn lemma_no_sizes()
    ensures
        sizes(seq![]) == 0,
        sizes(index_trees(None)) == 0,
{
    reveal(sizes);
    assert(weights(seq![]) == 0);
}

proof fn lemma_place_size(place: Place)
    ensures
        place.address matches Address::Stack(object) ==> size(object) == place_size(place),
{
    reveal(size);
    reveal(place_size);
}

/// The base and the indices of a variable are no larger than it, and what
/// computes its instance is smaller than the base.
proof fn lemma_target_size(context: Context, target: ExprTree)
    ensures
        size(base_of(target)) + sizes(indices_of(target)) <= size(target),
        place_of(context, base_of(target)) matches Some(place) ==> place_size(place) < size(
            base_of(target),
        ),
        place_of(context, target) matches Some(place) ==> place_size(place) < size(target),
{
    reveal(size);
    reveal(sizes);
    reveal(place_size);
    lemma_base_weight(target);
    lemma_place_weight(context, base_of(target));
    lemma_place_weight(context, target);
}

proof fn lemma_chain_size(op: BinaryOp, left: ExprTree, right: ExprTree)
    ensures
        (operands(op, left) + operands(op, right)).len() > 1,
        sizes(operands(op, left) + operands(op, right)) <= size(left) + size(right),
{
    reveal(size);
    reveal(sizes);
    lemma_chain(op, left, right);
}

impl<
    'a,
    A: Fn(FloatOperation, u64, u64) -> u64,
    D: Fn(u64) -> String,
    P: Fn(&str) -> Option<u64>,
> Compiler<'a, A, D, P> {
    #[verifier::spinoff_prover]
    fn expression(&mut self, expression: &Expr) -> (value_type: VmType)
        requires
            old(self).wf(),
            expr_spanned(old(self).source(), expression.tree()),
        ensures
            final(self).follows(old(self)),
            valued(final(self).state(), value_type) == gen_expr(
                old(self).context(),
                expression.tree(),
                old(self).state(),
            ),
        decreases size(expression.tree()), 10nat,
    {
        reveal(gen_expr);
        proof {
            lemma_size(expression.tree());
            lemma_no_sizes();
        }
        assert(self.constants.valid()) by {
            reveal(Compiler::wf);
        }
        let span = expression.span;
        if let Some(constant) = self.constants.fold_constant(expression) {
            return self.push_folded(constant, span);
        }
        match &expression.kind {
            ExprKind::Identifier => self.name(expression),
            ExprKind::Number => self.push_number(span),
            ExprKind::String => self.push_literal(span),
            ExprKind::Group(inner) => self.expression(inner),
            ExprKind::Array(_) => self.push_nothing(
                span,
                "GMS 1.4 array literals are not supported by this VM pass",
            ),
            ExprKind::Unary { op, value } => match *op {
                UnaryOp::PreIncrement => self.increment(value, true, true, true),
                UnaryOp::PreDecrement => self.increment(value, false, true, true),
                _ => {
                    let value_type = self.expression(value);
                    self.operate_unary(*op, value_type)
                },
            },
            ExprKind::Binary { op, left, right } => self.binary(*op, left, right),
            ExprKind::Conditional { condition, then_value, else_value } => self.conditional(
                condition,
                then_value,
                else_value,
            ),
            ExprKind::Assign { op, target, value } => self.assignment(*op, target, value, true),
            ExprKind::Call { callee, arguments } => self.call(callee, arguments, span),
            ExprKind::Index { target, accessor, indices } => self.index(
                target,
                *accessor,
                indices,
                span,
            ),
            ExprKind::Member { name, .. } => {
                match self.constants.resolution(*name) {
                    Some(resolution) => match resolution.binding {
                        NameBinding::EnumMember { enum_symbol, member_index } => self.push_member(
                            enum_symbol,
                            member_index,
                            span,
                        ),
                        _ => self.read(expression, None),
                    },
                    None => self.read(expression, None),
                }
            },
            ExprKind::Postfix { op, target } => self.increment(
                target,
                matches!(op, PostfixOp::Increment),
                false,
                true,
            ),
        }
    }

    #[verifier::spinoff_prover]
    fn name(&mut self, expression: &Expr) -> (value_type: VmType)
        requires
            old(self).wf(),
            expr_spanned(old(self).source(), expression.tree()),
        ensures
            final(self).follows(old(self)),
            valued(final(self).state(), value_type) == gen_name(
                old(self).context(),
                expression.tree(),
                old(self).state(),
            ),
        decreases size(expression.tree()), 9nat,
    {
        reveal(gen_name);
        proof {
            lemma_no_sizes();
        }
        let span = expression.span;
        let resolution = match self.constants.resolution(span) {
            Some(resolution) => resolution,
            None => {
                let mut message = "missing semantic resolution for ".to_owned();
                message.append(self.word_at(span));
                return self.push_nothing(span, message.as_str());
            },
        };
        match resolution.binding {
            NameBinding::LocalVariable { .. } => self.read(expression, None),
            NameBinding::GlobalVariable => self.read(expression, None),
            NameBinding::InstanceVariable => self.read(expression, None),
            NameBinding::BuiltinVariable => self.read(expression, None),
            NameBinding::BuiltinConstant => {
                let name = self.constants.name(resolution.symbol);
                if same_text(name, "self") {
                    self.instance_id(SELF_INSTANCE);
                    return VmType::Variable;
                }
                if same_text(name, "other") {
                    self.instance_id(OTHER_INSTANCE);
                    return VmType::Variable;
                }
                match self.constants.builtin(name) {
                    Some(bits) => self.push_double(bits, false),
                    None => {
                        let mut message = "missing value for built-in constant ".to_owned();
                        message.append(name);
                        self.error(span, message.as_str());
                        self.push_double(0, false)
                    },
                }
            },
            NameBinding::ConfiguredConstant { index } => self.push_configured(index, span),
            NameBinding::Resource { index, .. } => self.push_whole(index as i64),
            NameBinding::RoomInstance { id } => self.push_whole(id as i64),
            NameBinding::Script { index } => self.push_whole(index as i64),
            NameBinding::EnumMember { enum_symbol, member_index } => self.push_member(
                enum_symbol,
                member_index,
                span,
            ),
            NameBinding::Enum { index } => self.push_whole(index as i64),
            NameBinding::BuiltinFunction => self.push_nothing(
                span,
                "function name used without a call",
            ),
            NameBinding::ExtensionFunction { .. } => self.push_nothing(
                span,
                "function name used without a call",
            ),
        }
    }

    #[verifier::spinoff_prover]
    fn binary(&mut self, op: BinaryOp, left: &Expr, right: &Expr) -> (value_type: VmType)
        requires
            old(self).wf(),
            expr_spanned(old(self).source(), left.tree()),
            expr_spanned(old(self).source(), right.tree()),
        ensures
            final(self).follows(old(self)),
            valued(final(self).state(), value_type) == gen_binary(
                old(self).context(),
                op,
                left.tree(),
                right.tree(),
                old(self).state(),
            ),
        decreases size(left.tree()) + size(right.tree()) + 1, 9nat,
    {
        reveal(gen_binary);
        if matches!(op, BinaryOp::LogicalAnd | BinaryOp::LogicalOr) {
            return self.chain(op, left, right);
        }
        let first = self.expression(left);
        let first = self.coerce_operand(op, first);
        let second = self.expression(right);
        let second = self.coerce_operand(op, second);
        self.operate(op, first, second)
    }

    #[verifier::spinoff_prover]
    fn chain(&mut self, op: BinaryOp, left: &Expr, right: &Expr) -> (value_type: VmType)
        requires
            old(self).wf(),
            op is LogicalAnd || op is LogicalOr,
            expr_spanned(old(self).source(), left.tree()),
            expr_spanned(old(self).source(), right.tree()),
        ensures
            final(self).follows(old(self)),
            valued(final(self).state(), value_type) == gen_chain(
                old(self).context(),
                op,
                left.tree(),
                right.tree(),
                old(self).state(),
            ),
        decreases size(left.tree()) + size(right.tree()) + 1, 8nat,
    {
        let mut all: Vec<&Expr> = Vec::new();
        let ghost context = self.context();
        let ghost source = self.source();
        collect_operands(op, left, &mut all);
        collect_operands(op, right, &mut all);
        let ghost trees = operands(op, left.tree()) + operands(op, right.tree());
        proof {
            assert(ref_trees(all@) =~= trees);
            lemma_chain_size(op, left.tree(), right.tree());
            lemma_operands_spanned(source, op, left.tree());
            lemma_operands_spanned(source, op, right.tree());
            let first = operands(op, left.tree());
            let second = operands(op, right.tree());
            assert forall|k: int| 0 <= k < trees.len() implies expr_spanned(
                source,
                #[trigger] trees[k],
            ) by {
                if k < first.len() {
                    assert(trees[k] == first[k]);
                } else {
                    assert(trees[k] == second[k - first.len()]);
                }
            }
        }
        let shortcut = self.label();
        let end = self.label();
        let opcode = if matches!(op, BinaryOp::LogicalAnd) {
            Opcode::BranchFalse
        } else {
            Opcode::BranchTrue
        };
        let ghost start = self.state();
        let last = all.len() - 1;
        let mut index: usize = 0;
        assert(gen_tests(context, trees.take(0), opcode, shortcut.index(), start) == start) by {
            reveal(gen_tests);
        }
        while index < last
            invariant
                index <= last,
                last + 1 == all.len(),
                ref_trees(all@) == trees,
                sizes(trees) <= size(left.tree()) + size(right.tree()),
                forall|k: int| 0 <= k < trees.len() ==> expr_spanned(source, #[trigger] trees[k]),
                self.follows(old(self)),
                context == old(self).context(),
                source == old(self).source(),
                opcode.jumps(),
                shortcut.index() < self.vm@.labels.len(),
                end.index() < self.vm@.labels.len(),
                self.state() == gen_tests(
                    context,
                    trees.take(index as int),
                    opcode,
                    shortcut.index(),
                    start,
                ),
            decreases last - index,
        {
            let value = all[index];
            proof {
                assert(trees[index as int] == value.tree());
                lemma_sizes(trees, index as int);
            }
            let value_type = self.expression(value);
            self.convert(value_type, VmType::Bool);
            self.branch(opcode, shortcut, value.span);
            proof {
                reveal(gen_tests);
                assert(trees.take(index + 1).drop_last() =~= trees.take(index as int));
                assert(trees.take(index + 1).last() == value.tree());
            }
            index += 1;
        }
        let value = all[last];
        proof {
            assert(trees.take(last as int) =~= trees.drop_last());
            assert(trees[last as int] == value.tree());
            assert(trees.last() == value.tree());
            lemma_sizes(trees, last as int);
        }
        let ghost tested = self.state();
        let value_type = self.expression(value);
        let ghost tail = gen_expr(context, trees.last(), tested);
        assert(tail == valued(self.state(), value_type));
        self.convert(value_type, VmType::Bool);
        self.branch(Opcode::Branch, end, value.span);
        self.mark(shortcut, left.span);
        self.short(
            if matches!(op, BinaryOp::LogicalOr) {
                1
            } else {
                0
            },
        );
        self.mark(end, value.span);
        proof {
            reveal(gen_chain);
            reveal(gen_tests);
            assert(tested == gen_tests(
                context,
                trees.drop_last(),
                opcode,
                shortcut.index(),
                start,
            ));
        }
        VmType::Bool
    }

    #[verifier::spinoff_prover]
    fn conditional(
        &mut self,
        condition: &Expr,
        then_value: &Expr,
        else_value: &Expr,
    ) -> (value_type: VmType)
        requires
            old(self).wf(),
            expr_spanned(old(self).source(), condition.tree()),
            expr_spanned(old(self).source(), then_value.tree()),
            expr_spanned(old(self).source(), else_value.tree()),
        ensures
            final(self).follows(old(self)),
            valued(final(self).state(), value_type) == gen_conditional(
                old(self).context(),
                condition.tree(),
                then_value.tree(),
                else_value.tree(),
                old(self).state(),
            ),
        decreases
            size(condition.tree()) + size(then_value.tree()) + size(else_value.tree()) + 1,
            9nat,
    {
        reveal(gen_conditional);
        let otherwise = self.label();
        let end = self.label();
        let test = self.expression(condition);
        self.convert(test, VmType::Bool);
        self.branch(Opcode::BranchFalse, otherwise, condition.span);
        let first = self.expression(then_value);
        self.convert(first, VmType::Variable);
        self.branch(Opcode::Branch, end, then_value.span);
        self.mark(otherwise, else_value.span);
        let second = self.expression(else_value);
        self.convert(second, VmType::Variable);
        self.mark(end, else_value.span);
        VmType::Variable
    }

    #[verifier::spinoff_prover]
    fn arguments(&mut self, arguments: &Vec<Expr>)
        requires
            old(self).wf(),
            exprs_spanned(old(self).source(), expr_trees(arguments@)),
        ensures
            final(self).follows(old(self)),
            final(self).state() == gen_arguments(
                old(self).context(),
                expr_trees(arguments@),
                old(self).state(),
            ),
        decreases sizes(expr_trees(arguments@)) + 1, 3nat,
    {
        let ghost trees = expr_trees(arguments@);
        let ghost context = self.context();
        let ghost source = self.source();
        proof {
            lemma_expr_trees(arguments@);
            lemma_exprs_spanned(source, trees);
            assert(trees.take(trees.len() as int) =~= trees);
        }
        let mut count = arguments.len();
        while count > 0
            invariant
                count <= arguments.len(),
                trees == expr_trees(arguments@),
                trees.len() == arguments.len(),
                forall|k: int|
                    0 <= k < trees.len() ==> (#[trigger] trees[k]) == arguments@[k].tree(),
                forall|k: int| 0 <= k < trees.len() ==> expr_spanned(source, #[trigger] trees[k]),
                self.follows(old(self)),
                context == old(self).context(),
                source == old(self).source(),
                gen_arguments(context, trees, old(self).state()) == gen_arguments(
                    context,
                    trees.take(count as int),
                    self.state(),
                ),
            decreases count,
        {
            let value = &arguments[count - 1];
            proof {
                assert(trees[count - 1] == value.tree());
                lemma_sizes(trees, count - 1);
            }
            let value_type = self.expression(value);
            self.convert(value_type, VmType::Variable);
            proof {
                reveal(gen_arguments);
                assert(trees.take(count as int).drop_last() =~= trees.take(count - 1));
                assert(trees.take(count as int).last() == value.tree());
            }
            count -= 1;
        }
        assert(gen_arguments(context, trees.take(0), self.state()) == self.state()) by {
            reveal(gen_arguments);
        }
    }

    #[verifier::spinoff_prover]
    fn call(&mut self, callee: &Expr, arguments: &Vec<Expr>, span: Span) -> (value_type: VmType)
        requires
            old(self).wf(),
            expr_spanned(old(self).source(), callee.tree()),
            exprs_spanned(old(self).source(), expr_trees(arguments@)),
        ensures
            final(self).follows(old(self)),
            valued(final(self).state(), value_type) == gen_call(
                old(self).context(),
                callee.tree(),
                expr_trees(arguments@),
                span,
                old(self).state(),
            ),
        decreases sizes(expr_trees(arguments@)) + 1, 9nat,
    {
        reveal(gen_call);
        if !is_identifier(callee) {
            return self.push_nothing(
                span,
                "indirect function calls are not part of the GMS 1.4 VM backend yet",
            );
        }
        let name = self.word_at(callee.span);
        proof {
            lemma_expr_trees(arguments@);
            lemma_exprs_spanned(self.source(), expr_trees(arguments@));
        }
        if same_text(name, "ord") && arguments.len() == 1 {
            assert(expr_trees(arguments@)[0] == arguments@[0].tree());
            if let Some(text) = self.literal(&arguments[0]) {
                let letters = characters(text.as_str());
                let value: i64 = if letters.len() == 0 {
                    0
                } else {
                    scalar_of(letters[0]) as i64
                };
                return self.push_whole(value);
            }
        }
        self.arguments(arguments);
        let count: u16 = if arguments.len() <= u16::MAX as usize {
            arguments.len() as u16
        } else {
            self.error(span, "function call has more than 65535 arguments");
            u16::MAX
        };
        self.call_function(name, count, span);
        VmType::Variable
    }

    #[verifier::spinoff_prover]
    fn index(
        &mut self,
        target: &Expr,
        accessor: Accessor,
        indices: &Vec<Expr>,
        span: Span,
    ) -> (value_type: VmType)
        requires
            old(self).wf(),
            expr_spanned(old(self).source(), target.tree()),
            exprs_spanned(old(self).source(), expr_trees(indices@)),
        ensures
            final(self).follows(old(self)),
            valued(final(self).state(), value_type) == gen_index(
                old(self).context(),
                target.tree(),
                accessor,
                expr_trees(indices@),
                span,
                old(self).state(),
            ),
        decreases size(target.tree()) + sizes(expr_trees(indices@)) + 1, 9nat,
    {
        reveal(gen_index);
        if matches!(accessor, Accessor::Array) {
            return self.read(target, Some(indices));
        }
        proof {
            lemma_expr_trees(indices@);
        }
        match accessor_functions(accessor, indices.len()) {
            None => self.push_nothing(span, "unsupported accessor or accessor dimension count"),
            Some(names) => {
                self.arguments(indices);
                let object = self.expression(target);
                self.convert(object, VmType::Variable);
                self.call_function(names.get, (indices.len() + 1) as u16, span);
                VmType::Variable
            },
        }
    }

    #[verifier::spinoff_prover]
    fn address<'e>(&mut self, place: &VariableSpec<'e>, indices: Option<&Vec<Expr>>)
        requires
            old(self).wf(),
            place_spanned(old(self).source(), place@),
            exprs_spanned(old(self).source(), index_trees(indices)),
        ensures
            final(self).follows(old(self)),
            final(self).state() == gen_address(
                old(self).context(),
                place@,
                index_trees(indices),
                old(self).state(),
            ),
        decreases place_size(place@) + sizes(index_trees(indices)) + 1, 4nat,
    {
        reveal(gen_address);
        proof {
            lemma_place_size(place@);
        }
        match place.address {
            VariableAddress::Simple { instance, .. } => self.immediate(instance),
            VariableAddress::Stack(object) => {
                let value_type = self.expression(object);
                self.convert(value_type, VmType::Int);
            },
        }
        let indices = match indices {
            Some(indices) => indices,
            None => {
                if place.implicit_array {
                    self.long(0);
                    self.convert(VmType::Long, VmType::Int);
                }
                return;
            },
        };
        let ghost trees = expr_trees(indices@);
        proof {
            lemma_expr_trees(indices@);
            lemma_exprs_spanned(self.source(), trees);
        }
        if indices.len() == 0 {
            if place.implicit_array {
                self.long(0);
                self.convert(VmType::Long, VmType::Int);
            }
            return;
        }
        proof {
            lemma_sizes(trees, 0);
            assert(trees[0] == indices@[0].tree());
        }
        let value_type = self.expression(&indices[0]);
        self.convert(value_type, VmType::Int);
        if indices.len() > 1 {
            proof {
                lemma_sizes(trees, 1);
                assert(trees[1] == indices@[1].tree());
            }
            self.hook(u16::MAX);
            self.word(ARRAY_DIMENSION);
            self.types(Opcode::Mul, VmType::Int, VmType::Int);
            let value_type = self.expression(&indices[1]);
            self.convert(value_type, VmType::Int);
            self.hook(u16::MAX);
            self.types(Opcode::Add, VmType::Int, VmType::Int);
        }
        if indices.len() > 2 {
            assert(trees[2] == indices@[2].tree());
            self.error(
                indices[2].span,
                "GMS 1.4 VM arrays support at most two dimensions",
            );
        }
    }

    #[verifier::spinoff_prover]
    fn plain_read<'e>(&mut self, place: &VariableSpec<'e>, specialized: bool)
        requires
            old(self).wf(),
            place_spanned(old(self).source(), place@),
        ensures
            final(self).follows(old(self)),
            final(self).state() == gen_plain_read(
                old(self).context(),
                place@,
                specialized,
                old(self).state(),
            ),
        decreases place_size(place@) + 1, 5nat,
    {
        reveal(gen_plain_read);
        proof {
            lemma_place_size(place@);
            lemma_no_sizes();
        }
        if place.implicit_array {
            self.address(place, None);
            self.read_stack(place, false);
            return;
        }
        match place.address {
            VariableAddress::Simple { instance, opcode } => {
                let opcode = if specialized {
                    opcode
                } else {
                    Opcode::Push
                };
                self.variable(
                    opcode,
                    instance,
                    None,
                    None,
                    place.name.as_str(),
                    place.kind,
                    SIMPLE_VARIABLE_FLAGS,
                );
            },
            VariableAddress::Stack(object) => {
                let value_type = self.expression(object);
                self.convert(value_type, VmType::Int);
                self.variable(
                    Opcode::Push,
                    0,
                    None,
                    None,
                    place.name.as_str(),
                    place.kind,
                    STACK_INSTANCE_FLAGS,
                );
            },
        }
    }

    #[verifier::spinoff_prover]
    fn plain_write<'e>(&mut self, place: &VariableSpec<'e>, value_type: VmType)
        requires
            old(self).wf(),
            place_spanned(old(self).source(), place@),
        ensures
            final(self).follows(old(self)),
            final(self).state() == gen_plain_write(
                old(self).context(),
                place@,
                value_type,
                old(self).state(),
            ),
        decreases place_size(place@) + 1, 5nat,
    {
        reveal(gen_plain_write);
        proof {
            lemma_place_size(place@);
            lemma_no_sizes();
        }
        if place.implicit_array {
            self.address(place, None);
            self.write_stack(place, false, value_type, false);
            return;
        }
        match place.address {
            VariableAddress::Simple { instance, .. } => self.variable(
                Opcode::Pop,
                instance,
                Some(value_type),
                None,
                place.name.as_str(),
                place.kind,
                SIMPLE_VARIABLE_FLAGS,
            ),
            VariableAddress::Stack(_) => self.write_stack(place, false, value_type, false),
        }
    }

    #[verifier::spinoff_prover]
    fn read(&mut self, target: &Expr, indices: Option<&Vec<Expr>>) -> (value_type: VmType)
        requires
            old(self).wf(),
            expr_spanned(old(self).source(), target.tree()),
            exprs_spanned(old(self).source(), index_trees(indices)),
        ensures
            final(self).follows(old(self)),
            valued(final(self).state(), value_type) == gen_read(
                old(self).context(),
                target.tree(),
                index_trees(indices),
                old(self).state(),
            ),
        decreases size(target.tree()) + sizes(index_trees(indices)), 7nat,
    {
        reveal(gen_read);
        let (base, nested) = if has_indices(indices) {
            (target, indices)
        } else {
            without_indices(target)
        };
        proof {
            if index_trees(indices).len() == 0 {
                assert(index_trees(indices) =~= seq![]);
            }
            lemma_target_size(self.context(), target.tree());
            lemma_no_sizes();
            assert(exprs_spanned(self.source(), seq![]));
        }
        match self.place(base) {
            None => self.push_nothing(target.span, "expression is not a VM variable"),
            Some(place) => {
                let indexed = has_indices(nested);
                if !indexed && !place.implicit_array {
                    self.plain_read(&place, true);
                } else {
                    self.address(&place, nested);
                    self.read_stack(&place, indexed);
                }
                VmType::Variable
            },
        }
    }

    #[verifier::spinoff_prover]
    fn write(&mut self, target: &Expr, value_type: VmType)
        requires
            old(self).wf(),
            expr_spanned(old(self).source(), target.tree()),
        ensures
            final(self).follows(old(self)),
            final(self).state() == gen_write(
                old(self).context(),
                target.tree(),
                value_type,
                old(self).state(),
            ),
        decreases size(target.tree()), 7nat,
    {
        reveal(gen_write);
        let (base, nested) = without_indices(target);
        proof {
            lemma_target_size(self.context(), target.tree());
            lemma_no_sizes();
            assert(exprs_spanned(self.source(), seq![]));
        }
        match self.place(base) {
            None => self.error(target.span, "assignment target is not a VM variable"),
            Some(place) => {
                let indexed = has_indices(nested);
                let simple = matches!(place.address, VariableAddress::Simple { .. });
                if !indexed && !place.implicit_array && simple {
                    self.plain_write(&place, value_type);
                } else {
                    self.address(&place, nested);
                    self.write_stack(&place, indexed, value_type, false);
                }
            },
        }
    }

    #[verifier::spinoff_prover]
    fn assignment(
        &mut self,
        op: AssignOp,
        target: &Expr,
        value: &Expr,
        keep: bool,
    ) -> (value_type: VmType)
        requires
            old(self).wf(),
            expr_spanned(old(self).source(), target.tree()),
            expr_spanned(old(self).source(), value.tree()),
        ensures
            final(self).follows(old(self)),
            valued(final(self).state(), value_type) == gen_assignment(
                old(self).context(),
                op,
                target.tree(),
                value.tree(),
                keep,
                old(self).state(),
            ),
        decreases size(target.tree()) + size(value.tree()) + 1, 9nat,
    {
        reveal(gen_assignment);
        proof {
            lemma_size(target.tree());
        }
        match &target.kind {
            ExprKind::Index { target: base, accessor, indices } => {
                if !matches!(*accessor, Accessor::Array) {
                    return self.accessor_assignment(
                        *accessor,
                        base,
                        indices,
                        op,
                        value,
                        keep,
                        target.span,
                    );
                }
            },
            _ => {},
        }
        self.plain_assignment(op, target, value, keep)
    }

    #[verifier::spinoff_prover]
    fn plain_assignment(
        &mut self,
        op: AssignOp,
        target: &Expr,
        value: &Expr,
        keep: bool,
    ) -> (value_type: VmType)
        requires
            old(self).wf(),
            expr_spanned(old(self).source(), target.tree()),
            expr_spanned(old(self).source(), value.tree()),
        ensures
            final(self).follows(old(self)),
            valued(final(self).state(), value_type) == gen_plain_assignment(
                old(self).context(),
                op,
                target.tree(),
                value.tree(),
                keep,
                old(self).state(),
            ),
        decreases size(target.tree()) + size(value.tree()) + 1, 8nat,
    {
        reveal(gen_plain_assignment);
        if matches!(op, AssignOp::Assign) {
            let assigned = self.expression(value);
            if keep {
                self.convert(assigned, VmType::Variable);
                self.dup(VmType::Variable, 1);
                self.write(target, VmType::Variable);
                VmType::Variable
            } else {
                self.write(target, assigned);
                assigned
            }
        } else {
            self.combined(op, target, value, keep);
            VmType::Variable
        }
    }

    #[verifier::spinoff_prover]
    fn combined(&mut self, op: AssignOp, target: &Expr, value: &Expr, keep: bool)
        requires
            old(self).wf(),
            expr_spanned(old(self).source(), target.tree()),
            expr_spanned(old(self).source(), value.tree()),
        ensures
            final(self).follows(old(self)),
            final(self).state() == gen_combined(
                old(self).context(),
                op,
                target.tree(),
                value.tree(),
                keep,
                old(self).state(),
            ),
        decreases size(target.tree()) + size(value.tree()) + 1, 7nat,
    {
        reveal(gen_combined);
        let (base, indices) = without_indices(target);
        proof {
            lemma_target_size(self.context(), target.tree());
            lemma_no_sizes();
            assert(exprs_spanned(self.source(), seq![]));
        }
        let place = match self.place(base) {
            Some(place) => place,
            None => {
                self.error(target.span, "assignment target is not a VM variable");
                return;
            },
        };
        let indexed = has_indices(indices);
        let simple = matches!(place.address, VariableAddress::Simple { .. });
        let plain = !indexed && !place.implicit_array && simple;
        if plain {
            self.plain_read(&place, false);
        } else {
            self.address(&place, indices);
            let count: u16 = if indexed || place.implicit_array {
                2
            } else {
                1
            };
            self.dup(VmType::Int, count);
            self.read_stack(&place, indexed);
        }
        let right = self.expression(value);
        let right = self.coerce_assigned(op, right);
        self.types(assignment_opcode(op), right, VmType::Variable);
        self.keep_value(keep);
        if plain {
            self.plain_write(&place, VmType::Variable);
        } else {
            self.write_stack(&place, indexed, VmType::Variable, true);
        }
    }

    #[verifier::spinoff_prover]
    fn accessor_assignment(
        &mut self,
        accessor: Accessor,
        target: &Expr,
        indices: &Vec<Expr>,
        op: AssignOp,
        value: &Expr,
        keep: bool,
        span: Span,
    ) -> (value_type: VmType)
        requires
            old(self).wf(),
            expr_spanned(old(self).source(), target.tree()),
            exprs_spanned(old(self).source(), expr_trees(indices@)),
            expr_spanned(old(self).source(), value.tree()),
        ensures
            final(self).follows(old(self)),
            valued(final(self).state(), value_type) == gen_accessor_assignment(
                old(self).context(),
                accessor,
                target.tree(),
                expr_trees(indices@),
                op,
                value.tree(),
                keep,
                span,
                old(self).state(),
            ),
        decreases
            size(target.tree()) + sizes(expr_trees(indices@)) + size(value.tree()) + 1,
            8nat,
    {
        reveal(gen_accessor_assignment);
        proof {
            lemma_size(value.tree());
            lemma_expr_trees(indices@);
        }
        let names = match accessor_functions(accessor, indices.len()) {
            Some(names) => names,
            None => {
                self.error(span, "unsupported accessor or accessor dimension count");
                return VmType::Variable;
            },
        };
        let assigned = if matches!(op, AssignOp::Assign) {
            self.expression(value)
        } else {
            let current = self.index(target, accessor, indices, span);
            let right = self.expression(value);
            let right = self.coerce_assigned(op, right);
            self.types(assignment_opcode(op), right, current);
            wider(right, current)
        };
        self.convert(assigned, VmType::Variable);
        self.keep_value(keep);
        self.arguments(indices);
        let object = self.expression(target);
        self.convert(object, VmType::Variable);
        self.call_function(names.set, (indices.len() + 2) as u16, span);
        self.emit(Opcode::PopNull, VmType::Variable);
        if keep {
            VmType::Variable
        } else {
            assigned
        }
    }

    #[verifier::spinoff_prover]
    fn increment(
        &mut self,
        target: &Expr,
        increment: bool,
        prefix: bool,
        keep: bool,
    ) -> (value_type: VmType)
        requires
            old(self).wf(),
            expr_spanned(old(self).source(), target.tree()),
        ensures
            final(self).follows(old(self)),
            valued(final(self).state(), value_type) == gen_increment(
                old(self).context(),
                target.tree(),
                increment,
                prefix,
                keep,
                old(self).state(),
            ),
        decreases size(target.tree()), 11nat,
    {
        reveal(gen_increment);
        proof {
            lemma_size(target.tree());
        }
        match &target.kind {
            ExprKind::Index { target: base, accessor, indices } => {
                if !matches!(*accessor, Accessor::Array) {
                    return self.accessor_increment(
                        *accessor,
                        base,
                        indices,
                        increment,
                        prefix,
                        keep,
                        target.span,
                    );
                }
            },
            _ => {},
        }
        self.plain_increment(target, increment, prefix, keep)
    }

    #[verifier::spinoff_prover]
    fn plain_increment(
        &mut self,
        target: &Expr,
        increment: bool,
        prefix: bool,
        keep: bool,
    ) -> (value_type: VmType)
        requires
            old(self).wf(),
            expr_spanned(old(self).source(), target.tree()),
        ensures
            final(self).follows(old(self)),
            valued(final(self).state(), value_type) == gen_plain_increment(
                old(self).context(),
                target.tree(),
                increment,
                prefix,
                keep,
                old(self).state(),
            ),
        decreases size(target.tree()), 7nat,
    {
        reveal(gen_plain_increment);
        let (base, indices) = without_indices(target);
        proof {
            lemma_target_size(self.context(), target.tree());
            lemma_no_sizes();
            assert(exprs_spanned(self.source(), seq![]));
        }
        let place = match self.place(base) {
            Some(place) => place,
            None => {
                self.error(target.span, "increment target is not a VM variable");
                return VmType::Variable;
            },
        };
        let listed_indices = has_indices(indices);
        let indexed = listed_indices || place.implicit_array;
        let simple = matches!(place.address, VariableAddress::Simple { .. });
        if indexed || !simple {
            self.address(&place, indices);
            let address_type = if indexed {
                VmType::Long
            } else {
                VmType::Int
            };
            self.dup(address_type, 1);
            self.read_stack(&place, listed_indices);
            if keep && !prefix {
                self.keep_value_below(indexed);
            }
            self.step(increment, VmType::Variable);
            if keep && prefix {
                self.keep_value_below(indexed);
            }
            self.write_stack(&place, listed_indices, VmType::Variable, true);
        } else {
            self.plain_read(&place, false);
            self.keep_value(keep && !prefix);
            self.step(increment, VmType::Variable);
            self.keep_value(keep && prefix);
            self.plain_write(&place, VmType::Variable);
        }
        VmType::Variable
    }

    #[verifier::spinoff_prover]
    fn accessor_increment(
        &mut self,
        accessor: Accessor,
        target: &Expr,
        indices: &Vec<Expr>,
        increment: bool,
        prefix: bool,
        keep: bool,
        span: Span,
    ) -> (value_type: VmType)
        requires
            old(self).wf(),
            expr_spanned(old(self).source(), target.tree()),
            exprs_spanned(old(self).source(), expr_trees(indices@)),
        ensures
            final(self).follows(old(self)),
            valued(final(self).state(), value_type) == gen_accessor_increment(
                old(self).context(),
                accessor,
                target.tree(),
                expr_trees(indices@),
                increment,
                prefix,
                keep,
                span,
                old(self).state(),
            ),
        decreases size(target.tree()) + sizes(expr_trees(indices@)) + 1, 10nat,
    {
        reveal(gen_accessor_increment);
        proof {
            lemma_expr_trees(indices@);
        }
        let names = match accessor_functions(accessor, indices.len()) {
            Some(names) => names,
            None => {
                return self.push_nothing(span, "unsupported accessor increment");
            },
        };
        let current = self.index(target, accessor, indices, span);
        self.step(increment, current);
        self.arguments(indices);
        let object = self.expression(target);
        self.convert(object, VmType::Variable);
        let name = if prefix {
            names.set_pre
        } else {
            names.set_post
        };
        self.call_function(name, (indices.len() + 2) as u16, span);
        if !keep {
            self.emit(Opcode::PopNull, VmType::Variable);
        }
        VmType::Variable
    }
}

/// The numbers of some labels.
spec fn label_numbers(labels: Seq<Label>) -> Seq<nat> {
    labels.map_values(|label: Label| label.index())
}

spec fn label_number(label: Option<Label>) -> Option<nat> {
    match label {
        Some(label) => Some(label.index()),
        None => None,
    }
}

proof fn lemma_case_count(context: Context, statements: Seq<StmtTree>, value_type: VmType, state: Gen)
    ensures
        gen_cases(context, statements, value_type, state).labels.len() == case_count(statements),
    decreases statements.len(),
{
    reveal(gen_cases);
    if statements.len() > 0 {
        lemma_case_count(context, statements.drop_last(), value_type, state);
    }
}

proof fn lemma_case_count_grows(statements: Seq<StmtTree>, count: int)
    requires
        0 <= count <= statements.len(),
    ensures
        case_count(statements.take(count)) <= case_count(statements),
    decreases statements.len() - count,
{
    if count == statements.len() {
        assert(statements.take(count) =~= statements);
    } else {
        lemma_case_count_grows(statements, count + 1);
        assert(statements.take(count + 1).drop_last() =~= statements.take(count));
    }
}

impl<
    'a,
    A: Fn(FloatOperation, u64, u64) -> u64,
    D: Fn(u64) -> String,
    P: Fn(&str) -> Option<u64>,
> Compiler<'a, A, D, P> {
    /// Whether only the surroundings differ.
    spec fn kept_from(&self, from: &Self) -> bool {
        &&& self.wf()
        &&& self.constants == from.constants
        &&& self.vm@ == from.vm@
        &&& self.state() == from.state()
    }

    /// Whether no jump needs more of the stack than a depth.
    spec fn below(&self, depth: nat) -> bool {
        &&& forall|k: int|
            0 <= k < self.breaks@.len() ==> (#[trigger] self.breaks@[k]).depth <= depth
        &&& forall|k: int|
            0 <= k < self.continues@.len() ==> (#[trigger] self.continues@[k]).depth <= depth
    }

    fn push_break(&mut self, label: Label, depth: usize)
        requires
            old(self).wf(),
            label.index() < old(self).vm@.labels.len(),
            depth <= old(self).cleanup@.len(),
        ensures
            final(self).kept_from(old(self)),
            final(self).cleanup@ == old(self).cleanup@,
            final(self).continues@ == old(self).continues@,
            final(self).breaks@ == old(self).breaks@.push(JumpTarget { label, depth }),
            targets(final(self).breaks@) == targets(old(self).breaks@).push(
                (Target { label: label.index(), depth: depth as nat }),
            ),
    {
        reveal(Compiler::wf);
        reveal(Compiler::state);
        let ghost before = self.breaks@;
        self.breaks.push(JumpTarget { label, depth });
        assert(targets(self.breaks@) =~= targets(before).push(
            Target { label: label.index(), depth: depth as nat },
        ));
    }

    fn push_continue(&mut self, label: Label, depth: usize)
        requires
            old(self).wf(),
            label.index() < old(self).vm@.labels.len(),
            depth <= old(self).cleanup@.len(),
        ensures
            final(self).kept_from(old(self)),
            final(self).cleanup@ == old(self).cleanup@,
            final(self).breaks@ == old(self).breaks@,
            final(self).continues@ == old(self).continues@.push(JumpTarget { label, depth }),
            targets(final(self).continues@) == targets(old(self).continues@).push(
                (Target { label: label.index(), depth: depth as nat }),
            ),
    {
        reveal(Compiler::wf);
        reveal(Compiler::state);
        let ghost before = self.continues@;
        self.continues.push(JumpTarget { label, depth });
        assert(targets(self.continues@) =~= targets(before).push(
            Target { label: label.index(), depth: depth as nat },
        ));
    }

    fn pop_break(&mut self)
        requires
            old(self).wf(),
            old(self).breaks@.len() > 0,
        ensures
            final(self).kept_from(old(self)),
            final(self).cleanup@ == old(self).cleanup@,
            final(self).continues@ == old(self).continues@,
            final(self).breaks@ == old(self).breaks@.drop_last(),
    {
        reveal(Compiler::wf);
        reveal(Compiler::state);
        self.breaks.pop();
    }

    fn pop_continue(&mut self)
        requires
            old(self).wf(),
            old(self).continues@.len() > 0,
        ensures
            final(self).kept_from(old(self)),
            final(self).cleanup@ == old(self).cleanup@,
            final(self).breaks@ == old(self).breaks@,
            final(self).continues@ == old(self).continues@.drop_last(),
    {
        reveal(Compiler::wf);
        reveal(Compiler::state);
        self.continues.pop();
    }

    fn push_cleanup(&mut self, cleanup: Cleanup)
        requires
            old(self).wf(),
        ensures
            final(self).kept_from(old(self)),
            final(self).breaks@ == old(self).breaks@,
            final(self).continues@ == old(self).continues@,
            final(self).cleanup@ == old(self).cleanup@.push(cleanup),
    {
        reveal(Compiler::wf);
        reveal(Compiler::state);
        self.cleanup.push(cleanup);
    }

    fn pop_cleanup(&mut self)
        requires
            old(self).wf(),
            old(self).cleanup@.len() > 0,
            old(self).below((old(self).cleanup@.len() - 1) as nat),
        ensures
            final(self).kept_from(old(self)),
            final(self).breaks@ == old(self).breaks@,
            final(self).continues@ == old(self).continues@,
            final(self).cleanup@ == old(self).cleanup@.drop_last(),
    {
        reveal(Compiler::wf);
        reveal(Compiler::state);
        self.cleanup.pop();
    }

    fn enter_loop(&mut self, end: Label, repeat: Label)
        requires
            old(self).wf(),
            end.index() < old(self).vm@.labels.len(),
            repeat.index() < old(self).vm@.labels.len(),
        ensures
            final(self).kept_from(old(self)),
            final(self).cleanup@ == old(self).cleanup@,
            final(self).breaks@.len() > 0,
            final(self).breaks@.drop_last() == old(self).breaks@,
            final(self).continues@.len() > 0,
            final(self).continues@.drop_last() == old(self).continues@,
            final(self).around() == old(self).around().with_loop(end.index(), repeat.index()),
    {
        let depth = self.cleanup.len();
        self.push_break(end, depth);
        self.push_continue(repeat, depth);
        assert(self.breaks@.drop_last() =~= old(self).breaks@);
        assert(self.continues@.drop_last() =~= old(self).continues@);
    }

    fn leave_loop(&mut self)
        requires
            old(self).wf(),
            old(self).breaks@.len() > 0,
            old(self).continues@.len() > 0,
        ensures
            final(self).kept_from(old(self)),
            final(self).cleanup@ == old(self).cleanup@,
            final(self).breaks@ == old(self).breaks@.drop_last(),
            final(self).continues@ == old(self).continues@.drop_last(),
    {
        self.pop_break();
        self.pop_continue();
    }

    #[verifier::spinoff_prover]
    fn clean(&mut self, depth: usize)
        requires
            old(self).wf(),
        ensures
            final(self).follows(old(self)),
            final(self).state() == cleaned(
                old(self).state(),
                old(self).cleanup@,
                depth as nat,
            ),
    {
        let mut count = self.cleanup.len();
        assert(self.cleanup@.take(count as int) =~= self.cleanup@);
        while count > depth
            invariant
                count <= self.cleanup@.len(),
                self.follows(old(self)),
                cleaned(old(self).state(), old(self).cleanup@, depth as nat) == cleaned(
                    self.state(),
                    old(self).cleanup@.take(count as int),
                    depth as nat,
                ),
            decreases count,
        {
            let cleanup = self.cleanup[count - 1];
            let ghost all = self.cleanup@;
            match cleanup {
                Cleanup::Switch(value_type) => self.emit(Opcode::PopNull, value_type),
                Cleanup::With => self.types(Opcode::PopEnv, VmType::Double, VmType::Error),
            }
            assert(all.take(count as int).drop_last() =~= all.take(count - 1));
            assert(all.take(count as int).last() == cleanup);
            count -= 1;
        }
    }

    fn temporary_result(&mut self, opcode: Opcode, target_type: Option<VmType>)
        requires
            old(self).wf(),
        ensures
            final(self).follows(old(self)),
            final(self).state() == temporary(old(self).state(), opcode, target_type),
    {
        self.variable(
            opcode,
            LOCAL_INSTANCE,
            target_type,
            None,
            "$$$$temp$$$$",
            VariableKind::Local,
            SIMPLE_VARIABLE_FLAGS,
        );
    }

    #[verifier::spinoff_prover]
    fn alone(&mut self, expression: &Expr)
        requires
            old(self).wf(),
            expr_spanned(old(self).source(), expression.tree()),
        ensures
            final(self).follows(old(self)),
            final(self).state() == gen_alone(
                old(self).context(),
                expression.tree(),
                old(self).state(),
            ),
    {
        reveal(gen_alone);
        match &expression.kind {
            ExprKind::Assign { op, target, value } => {
                self.assignment(*op, target, value, false);
                return;
            },
            ExprKind::Unary { op, value } => match *op {
                UnaryOp::PreIncrement => {
                    self.increment(value, true, true, false);
                    return;
                },
                UnaryOp::PreDecrement => {
                    self.increment(value, false, true, false);
                    return;
                },
                _ => {},
            },
            ExprKind::Postfix { op, target } => {
                self.increment(target, matches!(op, PostfixOp::Increment), false, false);
                return;
            },
            _ => {},
        }
        let value_type = self.expression(expression);
        self.emit(Opcode::PopNull, value_type);
    }

    #[verifier::spinoff_prover]
    fn declarations(&mut self, declarations: &Vec<VarDecl>)
        requires
            old(self).wf(),
            vars_spanned(
                old(self).source(),
                declarations@.map_values(|declaration: VarDecl| declaration.tree()),
            ),
        ensures
            final(self).follows(old(self)),
            final(self).state() == gen_declarations(
                old(self).context(),
                declarations@.map_values(|declaration: VarDecl| declaration.tree()),
                old(self).state(),
            ),
    {
        let ghost trees = declarations@.map_values(|declaration: VarDecl| declaration.tree());
        let ghost context = self.context();
        let ghost source = self.source();
        let mut index: usize = 0;
        assert(gen_declarations(context, trees.take(0), self.state()) == self.state()) by {
            reveal(gen_declarations);
        }
        while index < declarations.len()
            invariant
                index <= declarations.len(),
                trees == declarations@.map_values(|declaration: VarDecl| declaration.tree()),
                vars_spanned(source, trees),
                self.follows(old(self)),
                context == old(self).context(),
                source == old(self).source(),
                self.state() == gen_declarations(
                    context,
                    trees.take(index as int),
                    old(self).state(),
                ),
            decreases declarations.len() - index,
        {
            let declaration = &declarations[index];
            let ghost before = self.state();
            proof {
                assert(trees[index as int] == declaration.tree());
                assert(trees.take(index + 1).drop_last() =~= trees.take(index as int));
                assert(trees.take(index + 1).last() == declaration.tree());
            }
            if let Some(value) = &declaration.value {
                let value_type = self.expression(value);
                let name = Expr { kind: ExprKind::Identifier, span: declaration.name };
                assert(name.tree() == name_tree(declaration.name));
                self.write(&name, value_type);
            }
            proof {
                reveal(gen_declarations);
            }
            index += 1;
        }
        assert(trees.take(index as int) =~= trees);
    }

    fn condition(&mut self, condition: &Expr)
        requires
            old(self).wf(),
            expr_spanned(old(self).source(), condition.tree()),
        ensures
            final(self).follows(old(self)),
            final(self).state() == gen_condition(
                old(self).context(),
                condition.tree(),
                old(self).state(),
            ),
    {
        let value_type = self.expression(condition);
        self.convert(value_type, VmType::Bool);
    }

    #[verifier::spinoff_prover]
    fn with_target(&mut self, target: &Expr)
        requires
            old(self).wf(),
            expr_spanned(old(self).source(), target.tree()),
        ensures
            final(self).follows(old(self)),
            final(self).state() == gen_with_target(
                old(self).context(),
                target.tree(),
                old(self).state(),
            ),
    {
        let direct = without_groups(target);
        proof {
            lemma_ungrouped_spanned(self.source(), target.tree());
        }
        if is_identifier(direct) {
            let word = self.word_at(direct.span);
            if same_text(word, "self") {
                self.instance_id(SELF_INSTANCE);
                self.convert(VmType::Variable, VmType::Int);
                return;
            }
            if same_text(word, "other") {
                self.instance_id(OTHER_INSTANCE);
                self.convert(VmType::Variable, VmType::Int);
                return;
            }
        }
        let value_type = self.expression(target);
        self.convert(value_type, VmType::Int);
    }

    #[verifier::spinoff_prover]
    fn cases(&mut self, statements: &Vec<Stmt>, value_type: VmType) -> (result: (
        Vec<Label>,
        Option<Label>,
    ))
        requires
            old(self).wf(),
            stmts_spanned(old(self).source(), stmt_trees(statements@)),
        ensures
            final(self).follows(old(self)),
            (Cases {
                state: final(self).state(),
                labels: label_numbers(result.0@),
                default: label_number(result.1),
            }) == gen_cases(
                old(self).context(),
                stmt_trees(statements@),
                value_type,
                old(self).state(),
            ),
            forall|k: int|
                0 <= k < result.0@.len() ==> (#[trigger] result.0@[k]).index()
                    < final(self).vm@.labels.len(),
    {
        let ghost trees = stmt_trees(statements@);
        let ghost context = self.context();
        let ghost source = self.source();
        let ghost start = self.state();
        let mut labels: Vec<Label> = Vec::new();
        let mut default: Option<Label> = None;
        let mut index: usize = 0;
        proof {
            lemma_stmt_trees(statements@);
            lemma_stmts_spanned(source, trees);
            reveal(gen_cases);
            assert(label_numbers(labels@) =~= seq![]);
        }
        while index < statements.len()
            invariant
                index <= statements.len(),
                trees == stmt_trees(statements@),
                trees.len() == statements@.len(),
                forall|k: int|
                    0 <= k < trees.len() ==> (#[trigger] trees[k]) == statements@[k].tree(),
                forall|k: int| 0 <= k < trees.len() ==> stmt_spanned(source, #[trigger] trees[k]),
                self.follows(old(self)),
                context == old(self).context(),
                source == old(self).source(),
                start == old(self).state(),
                (Cases {
                    state: self.state(),
                    labels: label_numbers(labels@),
                    default: label_number(default),
                }) == gen_cases(context, trees.take(index as int), value_type, start),
                forall|k: int|
                    0 <= k < labels@.len() ==> (#[trigger] labels@[k]).index()
                        < self.vm@.labels.len(),
            decreases statements.len() - index,
        {
            let statement = &statements[index];
            let ghost before = label_numbers(labels@);
            proof {
                reveal(gen_cases);
                assert(trees[index as int] == statement.tree());
                assert(trees.take(index + 1).drop_last() =~= trees.take(index as int));
                assert(trees.take(index + 1).last() == statement.tree());
            }
            match &statement.kind {
                StmtKind::Case(value) => {
                    let label = self.label();
                    self.dup(value_type, 1);
                    let case_type = self.expression(value);
                    self.compare(case_type, value_type, Condition::Equal);
                    self.branch(Opcode::BranchTrue, label, value.span);
                    labels.push(label);
                    assert(label_numbers(labels@) =~= before.push(label.index()));
                },
                StmtKind::Default => {
                    let label = self.label();
                    labels.push(label);
                    default = Some(label);
                    assert(label_numbers(labels@) =~= before.push(label.index()));
                },
                _ => {},
            }
            index += 1;
        }
        assert(trees.take(index as int) =~= trees);
        (labels, default)
    }
}

impl<
    'a,
    A: Fn(FloatOperation, u64, u64) -> u64,
    D: Fn(u64) -> String,
    P: Fn(&str) -> Option<u64>,
> Compiler<'a, A, D, P> {
    #[verifier::spinoff_prover]
    fn statement(&mut self, statement: &Stmt)
        requires
            old(self).wf(),
            stmt_spanned(old(self).source(), statement.tree()),
        ensures
            final(self).follows(old(self)),
            final(self).state() == gen_stmt(
                old(self).context(),
                old(self).around(),
                statement.tree(),
                old(self).state(),
            ),
        decreases statement, 1nat,
    {
        reveal(gen_stmt);
        let span = statement.span;
        match &statement.kind {
            StmtKind::Empty => {},
            StmtKind::Enum { .. } => {},
            StmtKind::Block(statements) => self.statements(statements),
            StmtKind::Var { declarations, .. } => self.declarations(declarations),
            StmtKind::If { condition, then_branch, else_branch } => {
                self.if_statement(statement, condition, then_branch, else_branch);
            },
            StmtKind::While { condition, body } => {
                let start = self.label();
                let end = self.label();
                self.mark(start, condition.span);
                self.condition(condition);
                self.branch(Opcode::BranchFalse, end, condition.span);
                self.enter_loop(end, start);
                self.statement(body);
                self.leave_loop();
                self.branch(Opcode::Branch, start, body.span);
                self.mark(end, body.span);
            },
            StmtKind::DoUntil { body, condition } => {
                let start = self.label();
                let repeat = self.label();
                let end = self.label();
                self.mark(start, body.span);
                self.enter_loop(end, repeat);
                self.statement(body);
                self.leave_loop();
                self.mark(repeat, condition.span);
                self.condition(condition);
                self.branch(Opcode::BranchFalse, start, condition.span);
                self.mark(end, condition.span);
            },
            StmtKind::For { initializer, condition, step, body } => {
                self.for_statement(statement, initializer, condition, step, body);
            },
            StmtKind::Repeat { count, body } => self.repeat_statement(statement, count, body),
            StmtKind::With { target, body } => self.with_statement(statement, target, body),
            StmtKind::Switch { value, body } => self.switch_statement(statement, value, body),
            StmtKind::Case(_) => self.error(span, "case/default used outside a switch block"),
            StmtKind::Default => self.error(span, "case/default used outside a switch block"),
            StmtKind::Return(value) => match value {
                None => {
                    self.clean(0);
                    self.emit(Opcode::Exit, VmType::Int);
                },
                Some(value) => {
                    let value_type = self.expression(value);
                    self.convert(value_type, VmType::Variable);
                    if self.cleanup.len() == 0 {
                        self.emit(Opcode::Return, VmType::Variable);
                    } else {
                        self.temporary_result(Opcode::Pop, Some(VmType::Variable));
                        self.clean(0);
                        self.temporary_result(Opcode::Push, None);
                        self.emit(Opcode::Return, VmType::Variable);
                    }
                },
            },
            StmtKind::Exit => {
                self.clean(0);
                self.emit(Opcode::Exit, VmType::Int);
            },
            StmtKind::Break => {
                if self.breaks.len() == 0 {
                    self.error(span, "break used without a loop, switch, or with context");
                } else {
                    let target = self.breaks[self.breaks.len() - 1];
                    assert(self.around().breaks.last() == target.target());
                    self.clean(target.depth);
                    self.branch(Opcode::Branch, target.label, span);
                }
            },
            StmtKind::Continue => {
                if self.continues.len() == 0 {
                    self.error(span, "continue used without a loop or with context");
                } else {
                    let target = self.continues[self.continues.len() - 1];
                    assert(self.around().continues.last() == target.target());
                    self.count_continue();
                    self.clean(target.depth);
                    self.branch(Opcode::Branch, target.label, span);
                }
            },
            StmtKind::Expr(value) => self.alone(value),
        }
    }

    fn count_continue(&mut self)
        requires
            old(self).wf(),
        ensures
            final(self).follows(old(self)),
            final(self).state() == (Gen {
                continues: old(self).state().continues.wrapping_add(1),
                ..old(self).state()
            }),
    {
        reveal(Compiler::wf);
        reveal(Compiler::state);
        self.continue_count = self.continue_count.wrapping_add(1);
    }

    #[verifier::spinoff_prover]
    fn if_statement(
        &mut self,
        statement: &Stmt,
        condition: &Expr,
        then_branch: &Box<Stmt>,
        else_branch: &Option<Box<Stmt>>,
    )
        requires
            old(self).wf(),
            stmt_spanned(old(self).source(), statement.tree()),
            statement.kind == (StmtKind::If {
                condition: *condition,
                then_branch: *then_branch,
                else_branch: *else_branch,
            }),
        ensures
            final(self).follows(old(self)),
            final(self).state() == gen_stmt(
                old(self).context(),
                old(self).around(),
                statement.tree(),
                old(self).state(),
            ),
        decreases statement, 0nat,
    {
        reveal(gen_stmt);
        assert(self.constants.valid()) by {
            reveal(Compiler::wf);
        }
        if let Some(FoldedConstant::Number { bits, .. }) = self.constants.fold_constant(condition) {
            if more_than_half(bits) {
                self.statement(then_branch);
            } else if let Some(branch) = else_branch {
                self.statement(branch);
            }
            return;
        }
        let otherwise = self.label();
        let end = self.label();
        self.condition(condition);
        self.branch(Opcode::BranchFalse, otherwise, condition.span);
        self.statement(then_branch);
        if let Some(branch) = else_branch {
            self.branch(Opcode::Branch, end, then_branch.span);
            self.mark(otherwise, condition.span);
            self.statement(branch);
            self.mark(end, then_branch.span);
        } else {
            self.mark(otherwise, condition.span);
            self.mark(end, then_branch.span);
        }
    }

    #[verifier::spinoff_prover]
    fn for_statement(
        &mut self,
        statement: &Stmt,
        initializer: &Option<Box<Stmt>>,
        condition: &Option<Expr>,
        step: &Option<Expr>,
        body: &Box<Stmt>,
    )
        requires
            old(self).wf(),
            stmt_spanned(old(self).source(), statement.tree()),
            statement.kind == (StmtKind::For {
                initializer: *initializer,
                condition: *condition,
                step: *step,
                body: *body,
            }),
        ensures
            final(self).follows(old(self)),
            final(self).state() == gen_stmt(
                old(self).context(),
                old(self).around(),
                statement.tree(),
                old(self).state(),
            ),
        decreases statement, 0nat,
    {
        reveal(gen_stmt);
        if let Some(initializer) = initializer {
            self.statement(initializer);
        }
        let start = self.label();
        let repeat = self.label();
        let end = self.label();
        self.mark(start, body.span);
        if let Some(condition) = condition {
            self.condition(condition);
            self.branch(Opcode::BranchFalse, end, condition.span);
        }
        self.enter_loop(end, repeat);
        self.statement(body);
        self.leave_loop();
        self.mark(repeat, body.span);
        if let Some(step) = step {
            self.alone(step);
        }
        self.branch(Opcode::Branch, start, body.span);
        self.mark(end, body.span);
    }

    #[verifier::spinoff_prover]
    fn repeat_statement(&mut self, statement: &Stmt, count: &Expr, body: &Box<Stmt>)
        requires
            old(self).wf(),
            stmt_spanned(old(self).source(), statement.tree()),
            statement.kind == (StmtKind::Repeat { count: *count, body: *body }),
        ensures
            final(self).follows(old(self)),
            final(self).state() == gen_stmt(
                old(self).context(),
                old(self).around(),
                statement.tree(),
                old(self).state(),
            ),
        decreases statement, 0nat,
    {
        reveal(gen_stmt);
        let start = self.label();
        let repeat = self.label();
        let end = self.label();
        let value_type = self.expression(count);
        self.convert(value_type, VmType::Int);
        self.dup(VmType::Int, 1);
        self.word(0);
        self.compare(VmType::Int, VmType::Int, Condition::LessEqual);
        self.branch(Opcode::BranchTrue, end, count.span);
        self.mark(start, body.span);
        self.enter_loop(end, repeat);
        self.statement(body);
        self.leave_loop();
        self.mark(repeat, body.span);
        self.word(1);
        self.types(Opcode::Sub, VmType::Int, VmType::Int);
        self.dup(VmType::Int, 1);
        self.types(Opcode::Conv, VmType::Int, VmType::Bool);
        self.branch(Opcode::BranchTrue, start, body.span);
        self.mark(end, body.span);
        self.emit(Opcode::PopNull, VmType::Int);
    }

    #[verifier::spinoff_prover]
    fn with_statement(&mut self, statement: &Stmt, target: &Expr, body: &Box<Stmt>)
        requires
            old(self).wf(),
            stmt_spanned(old(self).source(), statement.tree()),
            statement.kind == (StmtKind::With { target: *target, body: *body }),
        ensures
            final(self).follows(old(self)),
            final(self).state() == gen_stmt(
                old(self).context(),
                old(self).around(),
                statement.tree(),
                old(self).state(),
            ),
        decreases statement, 0nat,
    {
        reveal(gen_stmt);
        assert(self.below(self.cleanup@.len())) by {
            reveal(Compiler::wf);
        }
        let start = self.label();
        let leave = self.label();
        let end = self.label();
        self.with_target(target);
        self.branch(Opcode::PushEnv, leave, target.span);
        self.mark(start, body.span);
        let depth = self.cleanup.len();
        self.push_cleanup(Cleanup::With);
        self.push_break(end, depth);
        let inside = self.cleanup.len();
        self.push_continue(leave, inside);
        self.statement(body);
        self.pop_continue();
        self.pop_break();
        proof {
            assert(self.breaks@ =~= old(self).breaks@);
            assert(self.continues@ =~= old(self).continues@);
        }
        self.pop_cleanup();
        assert(self.cleanup@ =~= old(self).cleanup@);
        self.mark(leave, body.span);
        self.branch(Opcode::PopEnv, start, body.span);
        self.mark(end, body.span);
    }

    #[verifier::spinoff_prover]
    fn switch_statement(&mut self, statement: &Stmt, value: &Expr, body: &Box<Stmt>)
        requires
            old(self).wf(),
            stmt_spanned(old(self).source(), statement.tree()),
            statement.kind == (StmtKind::Switch { value: *value, body: *body }),
        ensures
            final(self).follows(old(self)),
            final(self).state() == gen_stmt(
                old(self).context(),
                old(self).around(),
                statement.tree(),
                old(self).state(),
            ),
        decreases statement, 0nat,
    {
        reveal(gen_stmt);
        assert(self.below(self.cleanup@.len())) by {
            reveal(Compiler::wf);
        }
        let span = statement.span;
        match &body.kind {
            StmtKind::Block(statements) => {
                assert(stmt_spanned(self.source(), body.tree()));
                let value_type = self.expression(value);
                let ghost before = self.state();
                let (labels, default) = self.cases(statements, value_type);
                let end = self.label();
                if let Some(label) = default {
                    self.branch(Opcode::Branch, label, span);
                }
                self.branch(Opcode::Branch, end, span);
                let counted = self.continue_count;
                assert(counted == self.state().continues) by {
                    reveal(Compiler::state);
                }
                let inner = self.continues.len() > 0;
                self.push_cleanup(Cleanup::Switch(value_type));
                let depth = self.cleanup.len();
                self.push_break(end, depth);
                let around = if inner {
                    let target = self.continues[self.continues.len() - 1];
                    assert(targets(self.continues@).last() == target.target());
                    let label = self.label();
                    self.push_continue(label, depth);
                    Some((label, target.label))
                } else {
                    None
                };
                proof {
                    lemma_case_count(
                        self.context(),
                        stmt_trees(statements@),
                        value_type,
                        before,
                    );
                    assert(decreases_to!(statement => body));
                    assert(decreases_to!(statement => statements));
                }
                self.bodies(statements, &labels);
                if inner {
                    self.pop_continue();
                }
                self.pop_break();
                proof {
                    assert(self.breaks@ =~= old(self).breaks@);
                    assert(self.continues@ =~= old(self).continues@);
                }
                self.pop_cleanup();
                assert(self.cleanup@ =~= old(self).cleanup@);
                if let Some((label, outer)) = around {
                    let now = self.continue_count;
                    assert(now == self.state().continues) by {
                        reveal(Compiler::state);
                    }
                    if now != counted {
                        self.branch(Opcode::Branch, end, span);
                        self.mark(label, span);
                        self.emit(Opcode::PopNull, value_type);
                        self.branch(Opcode::Branch, outer, span);
                    }
                }
                self.mark(end, span);
                self.emit(Opcode::PopNull, value_type);
            },
            _ => self.error(body.span, "switch body must be a block"),
        }
    }

    #[verifier::spinoff_prover]
    fn statements(&mut self, statements: &Vec<Stmt>)
        requires
            old(self).wf(),
            stmts_spanned(old(self).source(), stmt_trees(statements@)),
        ensures
            final(self).follows(old(self)),
            final(self).state() == gen_stmts(
                old(self).context(),
                old(self).around(),
                stmt_trees(statements@),
                old(self).state(),
            ),
        decreases statements, 2nat,
    {
        let ghost trees = stmt_trees(statements@);
        let ghost context = self.context();
        let ghost source = self.source();
        let ghost around = self.around();
        let mut index: usize = 0;
        proof {
            lemma_stmt_trees(statements@);
            lemma_stmts_spanned(source, trees);
            reveal(gen_stmts);
        }
        while index < statements.len()
            invariant
                index <= statements.len(),
                trees == stmt_trees(statements@),
                trees.len() == statements@.len(),
                forall|k: int|
                    0 <= k < trees.len() ==> (#[trigger] trees[k]) == statements@[k].tree(),
                forall|k: int| 0 <= k < trees.len() ==> stmt_spanned(source, #[trigger] trees[k]),
                self.follows(old(self)),
                context == old(self).context(),
                source == old(self).source(),
                around == old(self).around(),
                self.state() == gen_stmts(
                    context,
                    around,
                    trees.take(index as int),
                    old(self).state(),
                ),
            decreases statements.len() - index,
        {
            let statement = &statements[index];
            proof {
                assert(trees[index as int] == statement.tree());
                assert(trees.take(index + 1).drop_last() =~= trees.take(index as int));
                assert(trees.take(index + 1).last() == statement.tree());
                assert(decreases_to!(statements => statements@[index as int]));
            }
            self.statement(statement);
            proof {
                reveal(gen_stmts);
            }
            index += 1;
        }
        assert(trees.take(index as int) =~= trees);
    }

    #[verifier::spinoff_prover]
    fn bodies(&mut self, statements: &Vec<Stmt>, labels: &Vec<Label>)
        requires
            old(self).wf(),
            stmts_spanned(old(self).source(), stmt_trees(statements@)),
            labels@.len() == case_count(stmt_trees(statements@)),
            forall|k: int|
                0 <= k < labels@.len() ==> (#[trigger] labels@[k]).index()
                    < old(self).vm@.labels.len(),
        ensures
            final(self).follows(old(self)),
            final(self).state() == gen_bodies(
                old(self).context(),
                old(self).around(),
                stmt_trees(statements@),
                label_numbers(labels@),
                old(self).state(),
            ),
        decreases statements, 2nat,
    {
        let ghost trees = stmt_trees(statements@);
        let ghost context = self.context();
        let ghost source = self.source();
        let ghost around = self.around();
        let ghost numbers = label_numbers(labels@);
        let mut index: usize = 0;
        let mut position: usize = 0;
        proof {
            lemma_stmt_trees(statements@);
            lemma_stmts_spanned(source, trees);
            reveal(gen_bodies);
        }
        while index < statements.len()
            invariant
                index <= statements.len(),
                trees == stmt_trees(statements@),
                trees.len() == statements@.len(),
                forall|k: int|
                    0 <= k < trees.len() ==> (#[trigger] trees[k]) == statements@[k].tree(),
                forall|k: int| 0 <= k < trees.len() ==> stmt_spanned(source, #[trigger] trees[k]),
                labels@.len() == case_count(trees),
                numbers == label_numbers(labels@),
                forall|k: int|
                    0 <= k < labels@.len() ==> (#[trigger] labels@[k]).index()
                        < old(self).vm@.labels.len(),
                position == case_count(trees.take(index as int)),
                self.follows(old(self)),
                context == old(self).context(),
                source == old(self).source(),
                around == old(self).around(),
                self.state() == gen_bodies(
                    context,
                    around,
                    trees.take(index as int),
                    numbers,
                    old(self).state(),
                ),
            decreases statements.len() - index,
        {
            let statement = &statements[index];
            proof {
                assert(trees[index as int] == statement.tree());
                assert(trees.take(index + 1).drop_last() =~= trees.take(index as int));
                assert(trees.take(index + 1).last() == statement.tree());
                assert(decreases_to!(statements => statements@[index as int]));
                lemma_case_count_grows(trees, index + 1);
            }
            let labelled = matches!(&statement.kind, StmtKind::Case(_) | StmtKind::Default);
            if labelled {
                assert(numbers[position as int] == labels@[position as int].index());
                self.mark(labels[position], statement.span);
                assert(position < labels.len());
                position += 1;
            } else {
                self.statement(statement);
            }
            proof {
                reveal(gen_bodies);
            }
            index += 1;
        }
        assert(trees.take(index as int) =~= trees);
    }
}

/// Generates the code of a unit: the instructions, and what is wrong.
pub fn generate<
    'a,
    A: Fn(FloatOperation, u64, u64) -> u64,
    D: Fn(u64) -> String,
    P: Fn(&str) -> Option<u64>,
>(constants: Constants<'a, A, D, P>) -> (result: (VmBuffer, Vec<Diagnostic>))
    requires
        constants.valid(),
        program_spanned(constants.unit.code@, constants.unit.program.tree()),
    ensures
        result.0@.valid(),
        ({
            let state = unit_code(
                constants.context(),
                constants.unit.program.tree().statements,
            );
            result.0@ == state.vm && reports(result.1@) == state.errors
        }),
{
    let unit = constants.unit;
    let mut compiler = Compiler {
        constants,
        vm: VmBuffer::new(),
        cleanup: Vec::new(),
        breaks: Vec::new(),
        continues: Vec::new(),
        continue_count: 0,
        errors: Vec::new(),
    };
    proof {
        reveal(Compiler::wf);
        reveal(Compiler::state);
        assert(reports(compiler.errors@) =~= seq![]);
        assert(targets(compiler.breaks@) =~= seq![]);
        assert(targets(compiler.continues@) =~= seq![]);
        assert(compiler.state() == no_code());
    }
    compiler.statements(&unit.program.statements);
    (compiler.vm, compiler.errors)
}

} // verus!
