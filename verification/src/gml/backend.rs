//! The compiled project: the bytecode of all units, with the slots of their
//! local variables.

use vstd::prelude::*;

use crate::assets::Assets;
use crate::gml::codegen::{no_span, unit_code};
use crate::gml::compiler::generate;
use crate::gml::constants::{with_stmts, Collected, Constants, Context, EnumCollector, EnumValue};
use crate::gml::floats::FloatOperation;
use crate::gml::folding::{computed_by, is_arithmetic, is_display, shown_by};
use crate::gml::numbers::{is_reader, read_by};
use crate::gml::project::{add_counts, kind_name, lemma_counts, machine_count, CodeKind, CodeReport};
use crate::gml::semantic::{AnalyzedUnit, NameAccess, NameBinding, ProjectAnalysis};
use crate::gml::spans::program_spanned;
use crate::gml::symbols::{Builtins, FunctionClass, SymbolId, SymbolTable};
use crate::gml::vm::{
    error_text, first_unresolved, function_uses, resolvable, resolved_branch, string_uses,
    variable_uses, with_branches, FunctionReference, VariableKind, VariableReference, VariableUse,
    VmBytecode, VmError, VmState,
};
use crate::gml::{reports, Diagnostic, Report};
use crate::settings::CompileConstant;
use crate::gml::ast::Span;
use crate::text::{decimal, digits, same_text};

verus! {

/// A local variable of a unit with its slot.
#[derive(Debug, Clone, PartialEq, Eq)]
pub struct LocalVariable {
    pub slot: u32,
    pub name: String,
}

/// The bytecode of a unit.
#[derive(Debug, Clone, PartialEq, Eq)]
pub struct CompiledCode {
    pub kind: CodeKind,
    pub name: String,
    pub vm_name: String,
    pub bytecode: VmBytecode,
    pub local_count: usize,
    pub locals: Vec<LocalVariable>,
}

/// How much bytecode a project has.
#[derive(Debug, Clone, Copy, PartialEq, Eq, Structural)]
pub struct VmSummary {
    pub code_units: usize,
    pub bytecode_bytes: usize,
    pub variable_references: usize,
    pub function_references: usize,
    pub string_references: usize,
}

/// The bytecode of a project.
#[derive(Debug, Clone, PartialEq, Eq)]
pub struct CompiledProject {
    pub codes: Vec<CompiledCode>,
    pub summary: VmSummary,
    /// The classes of all functions of the runner that the code calls, also of
    /// those that no instruction of the bytecode names.
    pub function_classifications: i64,
}

/// What is wrong with the code of a unit.
#[derive(Debug, Clone, PartialEq, Eq)]
pub struct CodegenDiagnostic {
    pub kind: CodeKind,
    pub name: String,
    pub source: String,
    pub span: Span,
    pub message: String,
}

impl View for CodegenDiagnostic {
    type V = CodeReport;

    open spec fn view(&self) -> CodeReport {
        CodeReport {
            kind: self.kind,
            name: self.name@,
            source: self.source@,
            report: Report { message: self.message@, span: self.span },
        }
    }
}

/// What a list of diagnostics stands for.
pub open spec fn codegen_reports(diagnostics: Seq<CodegenDiagnostic>) -> Seq<CodeReport> {
    diagnostics.map_values(|diagnostic: CodegenDiagnostic| diagnostic@)
}

impl CodegenDiagnostic {
    /// Returns the message behind its place, kind and name.
    pub fn text(&self) -> (text: String)
        ensures
            text@ == self.source@ + ":"@ + digits(self.span.line as nat, 10) + ":"@ + digits(
                self.span.column as nat,
                10,
            ) + ": "@ + kind_name(self.kind) + " "@ + self.name@ + ": "@ + self.message@,
    {
        let mut text = self.source.clone();
        text.append(":");
        let line = decimal(self.span.line as u64);
        text.append(line.as_str());
        text.append(":");
        let column = decimal(self.span.column as u64);
        text.append(column.as_str());
        text.append(": ");
        text.append(self.kind.text());
        text.append(" ");
        text.append(self.name.as_str());
        text.append(": ");
        text.append(self.message.as_str());
        text
    }
}

/// Whether a name is that of a local variable.
pub open spec fn is_local(variables: Seq<VariableUse>, name: Seq<char>) -> bool {
    exists|k: int|
        0 <= k < variables.len() && (#[trigger] variables[k]).kind is Local && variables[k].name
            == name
}

/// The names of the local variables in the order of their slots: `arguments`,
/// and then those that the first `count` uses name, of whatever kind the first
/// use of a name is.
pub open spec fn local_names(variables: Seq<VariableUse>, count: int) -> Seq<Seq<char>>
    decreases count,
{
    if count <= 0 {
        seq!["arguments"@]
    } else {
        let before = local_names(variables, count - 1);
        let name = variables[count - 1].name;
        if is_local(variables, name) && !before.contains(name) {
            before.push(name)
        } else {
            before
        }
    }
}

/// The first position of a name in a list, from an index on.
pub open spec fn position_from(names: Seq<Seq<char>>, name: Seq<char>, index: int) -> int
    decreases names.len() - index,
{
    if index < 0 || index >= names.len() || names[index] == name {
        index
    } else {
        position_from(names, name, index + 1)
    }
}

/// A use of a variable with its slot, if it is a local one.
pub open spec fn slotted(names: Seq<Seq<char>>, variable: VariableUse) -> VariableUse {
    if variable.kind is Local {
        VariableUse {
            local_slot: Some(position_from(names, variable.name, 0) as u32),
            ..variable
        }
    } else {
        variable
    }
}

/// The uses of variables with the slots of the local ones.
pub open spec fn with_slots(variables: Seq<VariableUse>) -> Seq<VariableUse> {
    let names = local_names(variables, variables.len() as int);
    variables.map_values(|variable: VariableUse| slotted(names, variable))
}

proof fn lemma_position(names: Seq<Seq<char>>, name: Seq<char>, index: int)
    requires
        0 <= index <= names.len(),
        exists|k: int| index <= k < names.len() && names[k] == name,
    ensures
        index <= position_from(names, name, index) < names.len(),
        names[position_from(names, name, index)] == name,
    decreases names.len() - index,
{
    if names[index] != name {
        lemma_position(names, name, index + 1);
    }
}

proof fn lemma_local_names(variables: Seq<VariableUse>, count: int)
    requires
        0 <= count <= variables.len(),
    ensures
        local_names(variables, count).no_duplicates(),
        local_names(variables, count).len() > 0,
        local_names(variables, count)[0] == "arguments"@,
        forall|k: int|
            0 <= k < count && (#[trigger] variables[k]).kind is Local ==> local_names(
                variables,
                count,
            ).contains(variables[k].name),
    decreases count,
{
    if count > 0 {
        lemma_local_names(variables, count - 1);
        let before = local_names(variables, count - 1);
        let now = local_names(variables, count);
        let name = variables[count - 1].name;
        assert forall|k: int| 0 <= k < count && (#[trigger] variables[k]).kind is Local implies now
            .contains(variables[k].name) by {
            if k < count - 1 {
                let at = choose|at: int|
                    0 <= at < before.len() && before[at] == variables[k].name;
                assert(now[at] == variables[k].name);
            } else {
                assert(is_local(variables, name));
                if before.contains(name) {
                    assert(now == before);
                } else {
                    assert(now.last() == name);
                }
            }
        }
    }
}

/// Each local variable has the slot that holds its name, no two names have the
/// same slot, and the first slot is that of `arguments`.
pub proof fn law_local_slots_hold_their_names(variables: Seq<VariableUse>, index: int)
    requires
        0 <= index < variables.len(),
        variables[index].kind is Local,
    ensures
        ({
            let names = local_names(variables, variables.len() as int);
            let position = position_from(names, variables[index].name, 0);
            &&& names.no_duplicates()
            &&& names[0] == "arguments"@
            &&& 0 <= position < names.len()
            &&& names[position] == variables[index].name
            &&& with_slots(variables)[index].local_slot == Some(position as u32)
        }),
{
    let names = local_names(variables, variables.len() as int);
    lemma_local_names(variables, variables.len() as int);
    assert(names.contains(variables[index].name));
    lemma_position(names, variables[index].name, 0);
}

/// Whether a list of local variables is that of some names.
pub open spec fn are_locals(locals: Seq<LocalVariable>, names: Seq<Seq<char>>) -> bool {
    &&& locals.len() == names.len()
    &&& forall|k: int|
        0 <= k < locals.len() ==> (#[trigger] locals[k]).slot == k as u32 && locals[k].name@
            == names[k]
}

/// The variable that holds a result while the stack is taken down.
pub open spec fn temporary_name() -> Seq<char> {
    "$$$$temp$$$$"@
}

/// The number of local variables of a unit: those that it declares, the
/// arguments, and the one for results if only generated code uses it.
pub open spec fn local_total(
    context: Context,
    declared: Seq<SymbolId>,
    variables: Seq<VariableUse>,
) -> nat {
    let generated = local_names(variables, variables.len() as int).contains(temporary_name())
        && !(exists|k: int|
        0 <= k < declared.len() && context.name(#[trigger] declared[k]) == temporary_name());
    declared.len() + 1 + (if generated {
        1nat
    } else {
        0
    })
}

/// Whether some bytecode is what is generated for a unit.
pub open spec fn is_compiled(code: CompiledCode, unit: AnalyzedUnit, context: Context) -> bool {
    let vm = unit_code(context, unit.program.tree().statements).vm;
    &&& code.kind == unit.kind
    &&& code.name@ == unit.name@
    &&& code.vm_name@ == unit.vm_name@
    &&& code.bytecode.bytes@ == with_branches(vm.bytes, vm.labels, vm.branches, vm.branches.len())
    &&& variable_uses(code.bytecode.variable_references@) == with_slots(vm.variables)
    &&& function_uses(code.bytecode.function_references@) == vm.functions
    &&& string_uses(code.bytecode.string_references@) == vm.strings
    &&& code.local_count == machine_count(local_total(context, unit.locals@, vm.variables))
    &&& are_locals(code.locals@, local_names(vm.variables, vm.variables.len() as int))
}

/// The first branch that cannot be filled in.
pub open spec fn unresolved_branch(vm: VmState) -> nat {
    choose|at: nat| #[trigger] first_unresolved(vm.labels, vm.branches, at)
}

/// What is wrong with the code of a unit.
pub open spec fn unit_faults(context: Context, unit: AnalyzedUnit) -> Seq<Report> {
    let state = unit_code(context, unit.program.tree().statements);
    if state.errors.len() > 0 {
        state.errors
    } else if resolvable(state.vm.labels, state.vm.branches, state.vm.branches.len()) {
        seq![]
    } else {
        match resolved_branch(
            state.vm.labels,
            state.vm.branches[unresolved_branch(state.vm) as int],
        ) {
            Ok(_) => seq![],
            Err(error) => seq![Report { message: error_text(error), span: no_span() }],
        }
    }
}

fn holds_text(names: &Vec<LocalVariable>, name: &str, Ghost(texts): Ghost<Seq<Seq<char>>>) -> (result: Option<usize>)
    requires
        are_locals(names@, texts),
    ensures
        match result {
            Some(position) => position < names@.len() && position == position_from(texts, name@, 0)
                && texts[position as int] == name@,
            None => !texts.contains(name@),
        },
{
    let mut index: usize = 0;
    while index < names.len()
        invariant
            index <= names.len(),
            are_locals(names@, texts),
            position_from(texts, name@, 0) == position_from(texts, name@, index as int),
            forall|k: int| 0 <= k < index ==> texts[k] != name@,
        decreases names.len() - index,
    {
        if same_text(names[index].name.as_str(), name) {
            return Some(index);
        }
        index += 1;
    }
    None
}

fn names_local(references: &Vec<VariableReference>, name: &str) -> (result: bool)
    ensures
        result == is_local(variable_uses(references@), name@),
{
    let ghost variables = variable_uses(references@);
    let mut index: usize = 0;
    while index < references.len()
        invariant
            index <= references.len(),
            variables == variable_uses(references@),
            forall|k: int|
                0 <= k < index ==> !((#[trigger] variables[k]).kind is Local && variables[k].name
                    == name@),
        decreases references.len() - index,
    {
        let reference = &references[index];
        assert(variables[index as int] == reference@);
        if matches!(reference.kind, VariableKind::Local) && same_text(
            reference.name.as_str(),
            name,
        ) {
            return true;
        }
        index += 1;
    }
    false
}

fn local_variables(references: &Vec<VariableReference>) -> (locals: Vec<LocalVariable>)
    ensures
        are_locals(
            locals@,
            local_names(variable_uses(references@), references@.len() as int),
        ),
{
    let ghost variables = variable_uses(references@);
    let mut locals: Vec<LocalVariable> = Vec::new();
    locals.push(LocalVariable { slot: 0, name: "arguments".to_owned() });
    let mut index: usize = 0;
    while index < references.len()
        invariant
            index <= references.len(),
            variables == variable_uses(references@),
            are_locals(locals@, local_names(variables, index as int)),
        decreases references.len() - index,
    {
        let reference = &references[index];
        let ghost before = local_names(variables, index as int);
        assert(variables[index as int] == reference@);
        let held = holds_text(&locals, reference.name.as_str(), Ghost(before));
        if names_local(references, reference.name.as_str()) {
            if held.is_none() {
                let slot = locals.len() as u32;
                locals.push(LocalVariable { slot, name: reference.name.clone() });
            } else {
                assert(before.contains(reference.name@));
            }
        }
        index += 1;
    }
    locals
}

fn with_local_slots(
    references: Vec<VariableReference>,
    locals: &Vec<LocalVariable>,
) -> (result: Vec<VariableReference>)
    requires
        are_locals(
            locals@,
            local_names(variable_uses(references@), references@.len() as int),
        ),
    ensures
        variable_uses(result@) == with_slots(variable_uses(references@)),
{
    let ghost variables = variable_uses(references@);
    let ghost names = local_names(variables, variables.len() as int);
    let mut result: Vec<VariableReference> = Vec::new();
    let mut index: usize = 0;
    proof {
        lemma_local_names(variables, variables.len() as int);
    }
    while index < references.len()
        invariant
            index <= references.len(),
            variables == variable_uses(references@),
            names == local_names(variables, variables.len() as int),
            are_locals(locals@, names),
            forall|k: int|
                0 <= k < variables.len() && (#[trigger] variables[k]).kind is Local
                    ==> names.contains(variables[k].name),
            result@.len() == index,
            forall|k: int|
                0 <= k < index ==> (#[trigger] result@[k])@ == slotted(names, variables[k]),
        decreases references.len() - index,
    {
        let reference = &references[index];
        assert(variables[index as int] == reference@);
        let local_slot = if matches!(reference.kind, VariableKind::Local) {
            match holds_text(locals, reference.name.as_str(), Ghost(names)) {
                Some(position) => Some(position as u32),
                None => {
                    assert(false);
                    None
                },
            }
        } else {
            reference.local_slot
        };
        result.push(
            VariableReference {
                offset: reference.offset,
                name: reference.name.clone(),
                kind: reference.kind,
                flags: reference.flags,
                local_slot,
            },
        );
        index += 1;
    }
    assert(variable_uses(result@) =~= with_slots(variables));
    result
}

/// What a project is compiled from: the names and units of its analysis, its
/// constants, what the runner defines, and how doubles are read, computed with
/// and shown.
pub struct Input {
    pub table: SymbolTable,
    pub units: Seq<AnalyzedUnit>,
    pub constants: Seq<CompileConstant>,
    pub builtins: Builtins,
    pub numbers: spec_fn(Seq<char>) -> Option<u64>,
    pub compute: spec_fn(FloatOperation, u64, u64) -> u64,
    pub shown: spec_fn(u64) -> Seq<char>,
}

impl Input {
    /// What the constants of a unit are made of.
    pub open spec fn context(self, unit: AnalyzedUnit, values: Seq<EnumValue>) -> Context {
        Context {
            table: self.table,
            names: unit.names@,
            source: unit.code@,
            constants: self.constants,
            builtins: self.builtins,
            numbers: self.numbers,
            values,
            compute: self.compute,
            shown: self.shown,
        }
    }

    /// What the enumerations of a unit add to values.
    pub open spec fn unit_enums(self, values: Seq<EnumValue>, unit: AnalyzedUnit) -> Collected {
        with_stmts(
            Collected { values, errors: seq![] },
            self.context(unit, values),
            unit.program.tree().statements,
        )
    }

    /// The values of the enumerations of the first units.
    pub open spec fn enum_values(self, count: int) -> Seq<EnumValue>
        decreases count,
    {
        if count <= 0 {
            seq![]
        } else {
            self.unit_enums(self.enum_values(count - 1), self.units[count - 1]).values
        }
    }

    /// What is wrong with the enumerations of the first units.
    pub open spec fn enum_faults(self, count: int) -> Seq<CodeReport>
        decreases count,
    {
        if count <= 0 {
            seq![]
        } else {
            self.enum_faults(count - 1) + of_unit(
                self.units[count - 1],
                self.unit_enums(self.enum_values(count - 1), self.units[count - 1]).errors,
            )
        }
    }

    /// The values of all enumerations.
    pub open spec fn values(self) -> Seq<EnumValue> {
        self.enum_values(self.units.len() as int)
    }

    /// What is wrong with the code of the first units.
    pub open spec fn code_faults(self, count: int) -> Seq<CodeReport>
        decreases count,
    {
        if count <= 0 {
            seq![]
        } else {
            let unit = self.units[count - 1];
            self.code_faults(count - 1) + of_unit(
                unit,
                unit_faults(self.context(unit, self.values()), unit),
            )
        }
    }

    /// What is wrong with a project: its enumerations, or else its code.
    pub open spec fn faults(self) -> Seq<CodeReport> {
        let count = self.units.len() as int;
        if self.enum_faults(count).len() > 0 {
            self.enum_faults(count)
        } else {
            self.code_faults(count)
        }
    }

    /// The classes of the functions that the first names of a unit call.
    pub open spec fn called_classes(self, unit: AnalyzedUnit, count: int) -> u64
        decreases count,
    {
        if count <= 0 {
            0
        } else {
            let name = unit.names@[count - 1];
            let before = self.called_classes(unit, count - 1);
            if name.access is Call && name.binding is BuiltinFunction {
                before | class_from(
                    self.builtins.function_classes@,
                    self.context(unit, seq![]).name(name.symbol),
                    0,
                )
            } else {
                before
            }
        }
    }

    /// The classes of the functions that the first units call.
    pub open spec fn classes(self, count: int) -> u64
        decreases count,
    {
        if count <= 0 {
            0
        } else {
            self.classes(count - 1) | self.called_classes(
                self.units[count - 1],
                self.units[count - 1].names@.len() as int,
            )
        }
    }
}

/// The reports about a unit.
pub open spec fn of_unit(unit: AnalyzedUnit, faults: Seq<Report>) -> Seq<CodeReport> {
    faults.map_values(
        |report: Report|
            CodeReport { kind: unit.kind, name: unit.name@, source: unit.source@, report },
    )
}

/// The classes of a function in a table, from an index on.
pub open spec fn class_from(classes: Seq<FunctionClass>, name: Seq<char>, index: int) -> u64
    decreases classes.len() - index,
{
    if index < 0 || index >= classes.len() {
        0
    } else if classes[index].name@ == name {
        classes[index].flags
    } else {
        class_from(classes, name, index + 1)
    }
}

/// The sum of what is counted in the first codes.
pub open spec fn total(
    codes: Seq<CompiledCode>,
    counted: spec_fn(CompiledCode) -> nat,
    count: int,
) -> nat
    decreases count,
{
    if count <= 0 {
        0
    } else {
        total(codes, counted, count - 1) + counted(codes[count - 1])
    }
}

/// Whether a summary counts some codes.
pub open spec fn summarizes(summary: VmSummary, codes: Seq<CompiledCode>) -> bool {
    let count = codes.len() as int;
    &&& summary.code_units == count
    &&& summary.bytecode_bytes == machine_count(
        total(codes, |code: CompiledCode| code.bytecode.bytes@.len(), count),
    )
    &&& summary.variable_references == machine_count(
        total(codes, |code: CompiledCode| code.bytecode.variable_references@.len(), count),
    )
    &&& summary.function_references == machine_count(
        total(codes, |code: CompiledCode| code.bytecode.function_references@.len(), count),
    )
    &&& summary.string_references == machine_count(
        total(codes, |code: CompiledCode| code.bytecode.string_references@.len(), count),
    )
}

/// Whether a compiled project is what an input compiles to.
pub open spec fn is_project(project: CompiledProject, input: Input) -> bool {
    &&& project.codes@.len() == input.units.len()
    &&& forall|k: int|
        0 <= k < input.units.len() ==> is_compiled(
            #[trigger] project.codes@[k],
            input.units[k],
            input.context(input.units[k], input.values()),
        )
    &&& summarizes(project.summary, project.codes@)
    &&& project.function_classifications == input.classes(input.units.len() as int) as i64
}

fn tag(unit: &AnalyzedUnit, diagnostics: &Vec<Diagnostic>, errors: &mut Vec<CodegenDiagnostic>)
    ensures
        codegen_reports(final(errors)@) == codegen_reports(old(errors)@) + of_unit(
            *unit,
            reports(diagnostics@),
        ),
{
    let ghost start = codegen_reports(errors@);
    let ghost all = of_unit(*unit, reports(diagnostics@));
    let mut index: usize = 0;
    assert(codegen_reports(errors@) =~= start + all.take(0));
    while index < diagnostics.len()
        invariant
            index <= diagnostics.len(),
            all == of_unit(*unit, reports(diagnostics@)),
            codegen_reports(errors@) == start + all.take(index as int),
        decreases diagnostics.len() - index,
    {
        let diagnostic = &diagnostics[index];
        let ghost before = codegen_reports(errors@);
        let error = CodegenDiagnostic {
            kind: unit.kind,
            name: unit.name.clone(),
            source: unit.source.clone(),
            span: diagnostic.span,
            message: diagnostic.message.clone(),
        };
        proof {
            assert(reports(diagnostics@)[index as int] == diagnostic@);
            assert(all[index as int] == error@);
        }
        errors.push(error);
        proof {
            assert(codegen_reports(errors@) =~= before.push(error@));
            assert(all.take(index + 1) =~= all.take(index as int).push(error@));
            assert(start + all.take(index + 1) =~= (start + all.take(index as int)).push(error@));
        }
        index += 1;
    }
    assert(all.take(index as int) =~= all);
}

fn find_class(classes: &Vec<FunctionClass>, name: &str) -> (flags: u64)
    ensures
        flags == class_from(classes@, name@, 0),
{
    let mut index: usize = 0;
    while index < classes.len()
        invariant
            index <= classes.len(),
            class_from(classes@, name@, 0) == class_from(classes@, name@, index as int),
        decreases classes.len() - index,
    {
        if same_text(classes[index].name.as_str(), name) {
            return classes[index].flags;
        }
        index += 1;
    }
    0
}

proof fn lemma_unresolved(vm: VmState, at: nat)
    requires
        first_unresolved(vm.labels, vm.branches, at),
    ensures
        unresolved_branch(vm) == at,
        !resolvable(vm.labels, vm.branches, vm.branches.len()),
{
    let chosen = unresolved_branch(vm);
    assert(first_unresolved(vm.labels, vm.branches, chosen));
    if chosen < at {
        assert(resolved_branch(vm.labels, vm.branches[chosen as int]) is Ok);
    } else if at < chosen {
        assert(resolved_branch(vm.labels, vm.branches[at as int]) is Ok);
    }
    if resolvable(vm.labels, vm.branches, vm.branches.len()) {
        assert(resolved_branch(vm.labels, vm.branches[at as int]) is Ok);
    }
}

fn declares_temporary<
    'a,
    A: Fn(FloatOperation, u64, u64) -> u64,
    D: Fn(u64) -> String,
    P: Fn(&str) -> Option<u64>,
>(constants: &Constants<'a, A, D, P>) -> (result: bool)
    ensures
        result == (exists|k: int|
            0 <= k < constants.unit.locals@.len() && constants.context().name(
                #[trigger] constants.unit.locals@[k],
            ) == temporary_name()),
{
    let mut index: usize = 0;
    while index < constants.unit.locals.len()
        invariant
            index <= constants.unit.locals@.len(),
            forall|k: int|
                0 <= k < index ==> constants.context().name(#[trigger] constants.unit.locals@[k])
                    != temporary_name(),
        decreases constants.unit.locals.len() - index,
    {
        let name = constants.name(constants.unit.locals[index]);
        if same_text(name, "$$$$temp$$$$") {
            assert(constants.context().name(constants.unit.locals@[index as int])
                == temporary_name());
            return true;
        }
        index += 1;
    }
    false
}

/// Compiles the code of a unit.
pub fn compile_unit<
    'a,
    A: Fn(FloatOperation, u64, u64) -> u64,
    D: Fn(u64) -> String,
    P: Fn(&str) -> Option<u64>,
>(constants: Constants<'a, A, D, P>) -> (result: Result<CompiledCode, Vec<Diagnostic>>)
    requires
        constants.valid(),
        program_spanned(constants.unit.code@, constants.unit.program.tree()),
    ensures
        match result {
            Ok(code) => unit_faults(constants.context(), *constants.unit).len() == 0
                && is_compiled(code, *constants.unit, constants.context()),
            Err(errors) => errors@.len() > 0 && reports(errors@) == unit_faults(
                constants.context(),
                *constants.unit,
            ),
        },
{
    let unit = constants.unit;
    let ghost context = constants.context();
    let declared = declares_temporary(&constants);
    let (vm, mut errors) = generate(constants);
    let ghost state = unit_code(context, unit.program.tree().statements);
    assert(reports(errors@).len() == errors@.len());
    if errors.len() > 0 {
        return Err(errors);
    }
    let bytecode = match vm.finish() {
        Ok(bytecode) => bytecode,
        Err(error) => {
            let message = error.text();
            let diagnostic = Diagnostic::new(message.as_str(), Span::default());
            proof {
                let at = choose|at: nat| #[trigger]
                    first_unresolved(state.vm.labels, state.vm.branches, at) && resolved_branch(
                        state.vm.labels,
                        state.vm.branches[at as int],
                    ) == Err::<int, VmError>(error);
                lemma_unresolved(state.vm, at);
            }
            errors.push(diagnostic);
            assert(reports(errors@) =~= unit_faults(context, *unit));
            return Err(errors);
        },
    };
    let locals = local_variables(&bytecode.variable_references);
    let ghost names = local_names(state.vm.variables, state.vm.variables.len() as int);
    proof {
        assert(bytecode.variable_references@.len() == state.vm.variables.len());
    }
    let generated = match holds_text(&locals, "$$$$temp$$$$", Ghost(names)) {
        Some(position) => {
            assert(names[position as int] == temporary_name());
            !declared
        },
        None => false,
    };
    let references = with_local_slots(bytecode.variable_references, &locals);
    proof {
        lemma_counts(unit.locals@.len() + 1, 1);
        lemma_counts(unit.locals@.len() + 1, 0);
    }
    let counted = add_counts(unit.locals.len(), 1);
    let local_count = if generated {
        add_counts(counted, 1)
    } else {
        counted
    };
    Ok(
        CompiledCode {
            kind: unit.kind,
            name: unit.name.clone(),
            vm_name: unit.vm_name.clone(),
            bytecode: VmBytecode {
                bytes: bytecode.bytes,
                variable_references: references,
                function_references: bytecode.function_references,
                string_references: bytecode.string_references,
            },
            local_count,
            locals,
        },
    )
}

fn called_flags(
    analysis: &ProjectAnalysis,
    builtins: &Builtins,
    Ghost(input): Ghost<Input>,
) -> (flags: u64)
    requires
        input.table == analysis.symbols@,
        input.units == analysis.units@,
        input.builtins == *builtins,
    ensures
        flags == input.classes(input.units.len() as int),
{
    let mut flags: u64 = 0;
    let mut index: usize = 0;
    while index < analysis.units.len()
        invariant
            index <= analysis.units@.len(),
            input.table == analysis.symbols@,
            input.units == analysis.units@,
            input.builtins == *builtins,
            flags == input.classes(index as int),
        decreases analysis.units.len() - index,
    {
        let unit = &analysis.units[index];
        let mut called: u64 = 0;
        let mut position: usize = 0;
        while position < unit.names.len()
            invariant
                position <= unit.names@.len(),
                input.table == analysis.symbols@,
                input.builtins == *builtins,
                called == input.called_classes(*unit, position as int),
            decreases unit.names.len() - position,
        {
            let name = unit.names[position];
            if matches!(name.access, NameAccess::Call) && matches!(
                name.binding,
                NameBinding::BuiltinFunction
            ) {
                let text = if name.symbol.0 < analysis.symbols.len() {
                    analysis.symbols.name(name.symbol)
                } else {
                    proof {
                        reveal_strlit("");
                        assert(""@ =~= input.context(*unit, seq![]).name(name.symbol));
                    }
                    ""
                };
                called = called | find_class(&builtins.function_classes, text);
            }
            position += 1;
        }
        flags = flags | called;
        index += 1;
    }
    flags
}

fn sum_up(codes: &Vec<CompiledCode>) -> (summary: VmSummary)
    ensures
        summarizes(summary, codes@),
{
    let ghost bytes = |code: CompiledCode| code.bytecode.bytes@.len();
    let ghost variables = |code: CompiledCode| code.bytecode.variable_references@.len();
    let ghost functions = |code: CompiledCode| code.bytecode.function_references@.len();
    let ghost strings = |code: CompiledCode| code.bytecode.string_references@.len();
    let mut byte_count: usize = 0;
    let mut variable_count: usize = 0;
    let mut function_count: usize = 0;
    let mut string_count: usize = 0;
    let mut index: usize = 0;
    proof {
        lemma_counts(0, 0);
    }
    while index < codes.len()
        invariant
            index <= codes.len(),
            bytes == (|code: CompiledCode| code.bytecode.bytes@.len()),
            variables == (|code: CompiledCode| code.bytecode.variable_references@.len()),
            functions == (|code: CompiledCode| code.bytecode.function_references@.len()),
            strings == (|code: CompiledCode| code.bytecode.string_references@.len()),
            byte_count == machine_count(total(codes@, bytes, index as int)),
            variable_count == machine_count(total(codes@, variables, index as int)),
            function_count == machine_count(total(codes@, functions, index as int)),
            string_count == machine_count(total(codes@, strings, index as int)),
        decreases codes.len() - index,
    {
        let code = &codes[index].bytecode;
        proof {
            lemma_counts(code.bytes@.len(), total(codes@, bytes, index as int));
            lemma_counts(code.variable_references@.len(), total(codes@, variables, index as int));
            lemma_counts(code.function_references@.len(), total(codes@, functions, index as int));
            lemma_counts(code.string_references@.len(), total(codes@, strings, index as int));
        }
        byte_count = add_counts(code.bytes.len(), byte_count);
        variable_count = add_counts(code.variable_references.len(), variable_count);
        function_count = add_counts(code.function_references.len(), function_count);
        string_count = add_counts(code.string_references.len(), string_count);
        index += 1;
    }
    VmSummary {
        code_units: codes.len(),
        bytecode_bytes: byte_count,
        variable_references: variable_count,
        function_references: function_count,
        string_references: string_count,
    }
}

/// What the code of a project is compiled from.
pub open spec fn compile_input<
    A: Fn(FloatOperation, u64, u64) -> u64,
    D: Fn(u64) -> String,
    P: Fn(&str) -> Option<u64>,
>(
    assets: Assets,
    analysis: ProjectAnalysis,
    builtins: Builtins,
    compute: A,
    show: D,
    read: P,
) -> Input {
    Input {
        table: analysis.symbols@,
        units: analysis.units@,
        constants: assets.constants@,
        builtins,
        numbers: read_by(read),
        compute: computed_by(compute),
        shown: shown_by(show),
    }
}

/// Whether the code of each unit is spanned.
pub open spec fn units_spanned(units: Seq<AnalyzedUnit>) -> bool {
    forall|k: int|
        0 <= k < units.len() ==> program_spanned(
            (#[trigger] units[k]).code@,
            units[k].program.tree(),
        )
}

fn collect_enum_values<
    A: Fn(FloatOperation, u64, u64) -> u64,
    D: Fn(u64) -> String,
    P: Fn(&str) -> Option<u64>,
>(
    assets: &Assets,
    analysis: &ProjectAnalysis,
    builtins: &Builtins,
    compute: &A,
    show: &D,
    read: &P,
) -> (result: Result<Vec<EnumValue>, Vec<CodegenDiagnostic>>)
    requires
        is_arithmetic(*compute),
        is_display(*show),
        is_reader(*read),
        units_spanned(analysis.units@),
    ensures
        ({
            let input = compile_input(*assets, *analysis, *builtins, *compute, *show, *read);
            let faults = input.enum_faults(input.units.len() as int);
            match result {
                Ok(values) => faults.len() == 0 && values@ == input.values(),
                Err(errors) => errors@.len() > 0 && codegen_reports(errors@) == faults,
            }
        }),
{
    let ghost input = compile_input(*assets, *analysis, *builtins, *compute, *show, *read);
    let mut values: Vec<EnumValue> = Vec::new();
    let mut errors: Vec<CodegenDiagnostic> = Vec::new();
    let mut index: usize = 0;
    assert(codegen_reports(errors@) =~= seq![]);
    while index < analysis.units.len()
        invariant
            index <= analysis.units@.len(),
            is_arithmetic(*compute),
            is_display(*show),
            is_reader(*read),
            units_spanned(analysis.units@),
            input == compile_input(*assets, *analysis, *builtins, *compute, *show, *read),
            values@ == input.enum_values(index as int),
            codegen_reports(errors@) == input.enum_faults(index as int),
        decreases analysis.units.len() - index,
    {
        let unit = &analysis.units[index];
        let mut collector = EnumCollector {
            symbols: &analysis.symbols,
            unit,
            constants: &assets.constants,
            builtins,
            read,
            compute,
            show,
            values,
            errors: Vec::new(),
        };
        proof {
            assert(reports(collector.errors@) =~= seq![]);
            assert(collector.context() == input.context(*unit, input.enum_values(index as int)));
        }
        collector.run();
        tag(unit, &collector.errors, &mut errors);
        values = collector.values;
        index += 1;
    }
    assert(codegen_reports(errors@).len() == errors@.len());
    if errors.len() > 0 {
        Err(errors)
    } else {
        Ok(values)
    }
}

/// Compiles the code of a project: returns the bytecode of all units, or what
/// is wrong with them. The values of all enumerations are computed before any
/// unit is compiled.
#[verifier::spinoff_prover]
pub fn compile_vm<
    A: Fn(FloatOperation, u64, u64) -> u64,
    D: Fn(u64) -> String,
    P: Fn(&str) -> Option<u64>,
>(
    assets: &Assets,
    analysis: &ProjectAnalysis,
    builtins: &Builtins,
    compute: &A,
    show: &D,
    read: &P,
) -> (result: Result<CompiledProject, Vec<CodegenDiagnostic>>)
    requires
        is_arithmetic(*compute),
        is_display(*show),
        is_reader(*read),
        units_spanned(analysis.units@),
    ensures
        ({
            let input = compile_input(*assets, *analysis, *builtins, *compute, *show, *read);
            match result {
                Ok(project) => input.faults().len() == 0 && is_project(project, input),
                Err(errors) => errors@.len() > 0 && codegen_reports(errors@) == input.faults(),
            }
        }),
{
    let ghost input = compile_input(*assets, *analysis, *builtins, *compute, *show, *read);
    let flags = called_flags(analysis, builtins, Ghost(input));
    let values = match collect_enum_values(assets, analysis, builtins, compute, show, read) {
        Ok(values) => values,
        Err(errors) => {
            return Err(errors);
        },
    };
    let mut codes: Vec<CompiledCode> = Vec::new();
    let mut errors: Vec<CodegenDiagnostic> = Vec::new();
    let mut index: usize = 0;
    assert(codegen_reports(errors@) =~= seq![]);
    while index < analysis.units.len()
        invariant
            index <= analysis.units@.len(),
            is_arithmetic(*compute),
            is_display(*show),
            is_reader(*read),
            units_spanned(analysis.units@),
            input == compile_input(*assets, *analysis, *builtins, *compute, *show, *read),
            values@ == input.values(),
            codegen_reports(errors@) == input.code_faults(index as int),
            errors@.len() == 0 ==> codes@.len() == index,
            errors@.len() == 0 ==> forall|k: int|
                0 <= k < index ==> is_compiled(
                    #[trigger] codes@[k],
                    input.units[k],
                    input.context(input.units[k], input.values()),
                ),
        decreases analysis.units.len() - index,
    {
        let unit = &analysis.units[index];
        let constants = Constants {
            symbols: &analysis.symbols,
            unit,
            constants: &assets.constants,
            builtins,
            read,
            values: &values,
            compute,
            show,
        };
        assert(constants.context() == input.context(*unit, input.values()));
        match compile_unit(constants) {
            Ok(code) => {
                proof {
                    let none = of_unit(
                        *unit,
                        unit_faults(input.context(*unit, input.values()), *unit),
                    );
                    assert(none.len() == 0);
                    assert(codegen_reports(errors@) + none =~= codegen_reports(errors@));
                }
                codes.push(code);
            },
            Err(diagnostics) => {
                tag(unit, &diagnostics, &mut errors);
                proof {
                    assert(reports(diagnostics@).len() == diagnostics@.len());
                    assert(codegen_reports(errors@).len() == errors@.len());
                }
            },
        }
        index += 1;
    }
    assert(codegen_reports(errors@).len() == errors@.len());
    if errors.len() > 0 {
        return Err(errors);
    }
    let summary = sum_up(&codes);
    Ok(CompiledProject { codes, summary, function_classifications: flags as i64 })
}

/// The classes of the functions that the first references name.
pub open spec fn reference_classes(
    classes: Seq<FunctionClass>,
    references: Seq<FunctionReference>,
    count: int,
) -> u64
    decreases count,
{
    if count <= 0 {
        0
    } else {
        reference_classes(classes, references, count - 1) | class_from(
            classes,
            references[count - 1].name@,
            0,
        )
    }
}

/// The classes of the functions that the first codes name.
pub open spec fn code_classes(
    classes: Seq<FunctionClass>,
    codes: Seq<CompiledCode>,
    count: int,
) -> u64
    decreases count,
{
    if count <= 0 {
        0
    } else {
        let references = codes[count - 1].bytecode.function_references@;
        code_classes(classes, codes, count - 1) | reference_classes(
            classes,
            references,
            references.len() as int,
        )
    }
}

/// Returns the classes of all functions that a project uses, with those that
/// every project has.
pub fn function_classifications(project: &CompiledProject, builtins: &Builtins) -> (flags: i64)
    ensures
        flags == (builtins.baseline as i64) | project.function_classifications | (code_classes(
            builtins.function_classes@,
            project.codes@,
            project.codes@.len() as int,
        ) as i64),
{
    let mut flags: u64 = 0;
    let mut index: usize = 0;
    while index < project.codes.len()
        invariant
            index <= project.codes@.len(),
            flags == code_classes(
                builtins.function_classes@,
                project.codes@,
                index as int,
            ),
        decreases project.codes.len() - index,
    {
        let references = &project.codes[index].bytecode.function_references;
        let mut named: u64 = 0;
        let mut position: usize = 0;
        while position < references.len()
            invariant
                position <= references@.len(),
                named == reference_classes(
                    builtins.function_classes@,
                    references@,
                    position as int,
                ),
            decreases references.len() - position,
        {
            let name = references[position].name.as_str();
            named = named | find_class(&builtins.function_classes, name);
            position += 1;
        }
        flags = flags | named;
        index += 1;
    }
    (builtins.baseline as i64) | project.function_classifications | (flags as i64)
}

} // verus!
