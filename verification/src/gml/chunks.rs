//! The chunks of the bytecode: the code itself, and the variables and functions
//! with the chains of the words that refer to them.

use vstd::prelude::*;

use crate::gml::backend::{CompiledCode, CompiledProject, LocalVariable};
use crate::gml::constants::{listed, lists};
use crate::gml::symbols::Builtins;
use crate::gml::vm::{VariableKind, VariableReference};
use crate::text::{decimal, digits, number_text, same_text, spelled};
use crate::wad::{invalid, number_of, overflow, Wad, WadWriter, WriteError, WriteFault};

verus! {

/// The name of the chunk of the code.
pub const CODE: [u8; 4] = [0x43, 0x4f, 0x44, 0x45];

/// The name of the chunk of the variables.
pub const VARI: [u8; 4] = [0x56, 0x41, 0x52, 0x49];

/// The name of the chunk of the functions.
pub const FUNC: [u8; 4] = [0x46, 0x55, 0x4e, 0x43];

/// What names of the bytecode are still to be listed: how many references of
/// each kind are.
pub struct Listed {
    pub variables: int,
    pub functions: int,
    pub strings: int,
}

/// The file with the names and texts of a code in its list of texts, in the
/// order in which the code refers to them.
pub open spec fn with_names(wad: Wad, code: CompiledCode, listed: Listed) -> Wad
    decreases
        code.bytecode.variable_references@.len() - listed.variables
            + code.bytecode.function_references@.len() - listed.functions
            + code.bytecode.string_references@.len() - listed.strings,
{
    let variables = code.bytecode.variable_references@;
    let functions = code.bytecode.function_references@;
    let strings = code.bytecode.string_references@;
    let has_variable = 0 <= listed.variables < variables.len();
    let has_function = 0 <= listed.functions < functions.len();
    let has_string = 0 <= listed.strings < strings.len();
    if listed.variables > variables.len() || listed.functions > functions.len() || listed.strings
        > strings.len() {
        wad
    } else if has_variable && (has_function ==> variables[listed.variables].offset
        <= functions[listed.functions].offset) && (has_string ==> variables[listed.variables].offset
        <= strings[listed.strings].offset) {
        with_names(
            wad.with_text(variables[listed.variables].name@),
            code,
            Listed { variables: listed.variables + 1, ..listed },
        )
    } else if has_function && (has_variable ==> functions[listed.functions].offset
        < variables[listed.variables].offset) && (has_string ==> functions[listed.functions].offset
        <= strings[listed.strings].offset) {
        with_names(
            wad.with_text(functions[listed.functions].name@),
            code,
            Listed { functions: listed.functions + 1, ..listed },
        )
    } else if has_string {
        with_names(
            wad.with_text(strings[listed.strings].value@),
            code,
            Listed { strings: listed.strings + 1, ..listed },
        )
    } else {
        wad
    }
}

/// The file with the names and texts of the first codes in its list of texts.
pub open spec fn with_all_names(wad: Wad, codes: Seq<CompiledCode>, count: int) -> Wad
    decreases count,
{
    if count <= 0 {
        wad.with_text("prototype"@).with_text("@@array@@"@).with_text("arguments"@)
    } else {
        with_names(
            with_all_names(wad, codes, count - 1),
            codes[count - 1],
            Listed { variables: 0, functions: 0, strings: 0 },
        )
    }
}

fn list_names(writer: &mut WadWriter, code: &CompiledCode)
    requires
        old(writer).wf(),
    ensures
        final(writer).wf(),
        final(writer)@ == with_names(
            old(writer)@,
            *code,
            Listed { variables: 0, functions: 0, strings: 0 },
        ),
{
    let variables = &code.bytecode.variable_references;
    let functions = &code.bytecode.function_references;
    let strings = &code.bytecode.string_references;
    let mut variable: usize = 0;
    let mut function: usize = 0;
    let mut string: usize = 0;
    let ghost goal = with_names(
        writer@,
        *code,
        Listed { variables: 0, functions: 0, strings: 0 },
    );
    while variable < variables.len() || function < functions.len() || string < strings.len()
        invariant
            variable <= variables.len(),
            function <= functions.len(),
            string <= strings.len(),
            variables == code.bytecode.variable_references,
            functions == code.bytecode.function_references,
            strings == code.bytecode.string_references,
            writer.wf(),
            goal == with_names(
                writer@,
                *code,
                Listed {
                    variables: variable as int,
                    functions: function as int,
                    strings: string as int,
                },
            ),
        decreases
            variables.len() - variable + functions.len() - function + strings.len() - string,
    {
        let has_variable = variable < variables.len();
        let has_function = function < functions.len();
        let has_string = string < strings.len();
        if has_variable && (!has_function || variables[variable].offset
            <= functions[function].offset) && (!has_string || variables[variable].offset
            <= strings[string].offset) {
            writer.intern(variables[variable].name.as_str());
            variable += 1;
        } else if has_function && (!has_variable || functions[function].offset
            < variables[variable].offset) && (!has_string || functions[function].offset
            <= strings[string].offset) {
            writer.intern(functions[function].name.as_str());
            function += 1;
        } else {
            assert(has_string);
            writer.intern(strings[string].value.as_str());
            string += 1;
        }
    }
}

/// Adds the names and texts of the code to the list of texts.
pub fn intern_vm_strings(writer: &mut WadWriter, project: &CompiledProject)
    requires
        old(writer).wf(),
    ensures
        final(writer).wf(),
        final(writer)@ == with_all_names(
            old(writer)@,
            project.codes@,
            project.codes@.len() as int,
        ),
{
    let ghost start = writer@;
    writer.intern("prototype");
    writer.intern("@@array@@");
    writer.intern("arguments");
    let mut index: usize = 0;
    while index < project.codes.len()
        invariant
            index <= project.codes@.len(),
            writer.wf(),
            writer@ == with_all_names(start, project.codes@, index as int),
        decreases project.codes.len() - index,
    {
        list_names(writer, &project.codes[index]);
        index += 1;
    }
}

/// Whether a reference lies within a code, behind its first word.
pub open spec fn is_inside(length: int, offset: u32) -> bool {
    4 <= offset && offset + 4 <= length
}

/// The message about a reference that lies outside a code.
pub open spec fn outside(
    kind: Seq<char>,
    offset: u32,
    code_index: int,
    length: int,
) -> Seq<char> {
    kind + " reference at byte "@ + digits(offset as nat, 10) + " is outside CODE entry "@ + digits(
        code_index as nat,
        10,
    ) + " ("@ + digits(length as nat, 10) + " bytes)"@
}

fn inside(length: usize, offset: u32) -> (result: bool)
    ensures
        result == is_inside(length as int, offset),
{
    offset >= 4 && offset as u64 + 4 <= length as u64
}

fn outside_text(kind: &str, offset: u32, code_index: usize, length: usize) -> (text: String)
    ensures
        text@ == outside(kind@, offset, code_index as int, length as int),
{
    let mut text = kind.to_owned();
    text.append(" reference at byte ");
    let offset = decimal(offset as u64);
    text.append(offset.as_str());
    text.append(" is outside CODE entry ");
    let index = decimal(code_index as u64);
    text.append(index.as_str());
    text.append(" (");
    let length = decimal(length as u64);
    text.append(length.as_str());
    text.append(" bytes)");
    text
}

/// The beginning of a message about a code.
pub open spec fn entry_text(code_index: int, code: CompiledCode) -> Seq<char> {
    "CODE entry "@ + digits(code_index as nat, 10) + " ("@ + code.vm_name@ + ")"@
}

fn entry_message(code_index: usize, code: &CompiledCode, rest: &str) -> (text: String)
    ensures
        text@ == entry_text(code_index as int, *code) + rest@,
{
    let mut text = "CODE entry ".to_owned();
    let index = decimal(code_index as u64);
    text.append(index.as_str());
    text.append(" (");
    text.append(code.vm_name.as_str());
    text.append(")");
    text.append(rest);
    text
}

/// The file with the first texts of a code in place of the words that refer to
/// them: such a word holds the number of its text.
pub open spec fn with_string_numbers(
    wad: Wad,
    code_index: int,
    code: CompiledCode,
    base: int,
    count: int,
) -> Wad
    decreases count,
{
    if count <= 0 {
        wad
    } else {
        let before = with_string_numbers(wad, code_index, code, base, count - 1);
        let reference = code.bytecode.string_references@[count - 1];
        let length = code.bytecode.bytes@.len() as int;
        if before.fault is Some {
            before
        } else if !is_inside(length, reference.offset) {
            before.failed(invalid(outside("string"@, reference.offset, code_index, length)))
        } else {
            let listed = before.with_text(reference.value@);
            let number = number_of(listed.texts, reference.value@);
            if number <= u32::MAX {
                listed.patched(base + reference.offset, number as u32)
            } else {
                listed.failed(overflow("VM string index"@, number))
            }
        }
    }
}

/// The file with the bytes of the first codes, and where each of them begins.
pub struct CodeLayout {
    pub wad: Wad,
    pub bases: Seq<usize>,
}

/// The file with the bytes of a code.
pub open spec fn with_code_bytes(wad: Wad, code_index: int, code: CompiledCode) -> Wad {
    let base = wad.bytes.len() as int;
    if wad.fault is Some {
        wad
    } else if code.bytecode.bytes@.len() % 4 != 0 {
        wad.failed(
            invalid(
                entry_text(code_index, code) + " has a byte length that is not word-aligned"@,
            ),
        )
    } else if base > u32::MAX {
        wad.failed(overflow("file position"@, base))
    } else {
        with_string_numbers(
            wad.raw(code.bytecode.bytes@),
            code_index,
            code,
            base,
            code.bytecode.string_references@.len() as int,
        )
    }
}

/// The file with the bytes of the first codes.
pub open spec fn with_codes(wad: Wad, codes: Seq<CompiledCode>, count: int) -> CodeLayout
    decreases count,
{
    if count <= 0 {
        CodeLayout { wad, bases: seq![] }
    } else {
        let before = with_codes(wad, codes, count - 1);
        CodeLayout {
            wad: with_code_bytes(before.wad, count - 1, codes[count - 1]),
            bases: before.bases.push(before.wad.bytes.len() as usize),
        }
    }
}

/// The file with the record of a code: its name, its length, its local
/// variables, and how far it is from here.
pub open spec fn with_code_record(
    wad: Wad,
    code_index: int,
    code: CompiledCode,
    base: int,
) -> Wad {
    let named = wad.text(code.vm_name@).count(
        code.bytecode.bytes@.len(),
        "CODE bytecode length"@,
    );
    let counted = if code.local_count <= u16::MAX {
        named.short(code.local_count as u16)
    } else {
        named.failed(
            invalid(entry_text(code_index, code) + " has more than 65535 locals"@),
        )
    };
    let flagged = counted.short(
        if code.local_count == 0 {
            0x8000
        } else {
            0
        },
    );
    let distance = base - flagged.bytes.len();
    if i32::MIN <= distance <= i32::MAX {
        flagged.integer(distance as i32).integer(0)
    } else {
        flagged.failed(
            invalid(entry_text(code_index, code) + " relative offset does not fit i32"@),
        )
    }
}

/// The file with the records of the first codes, each with its position in a
/// table.
pub open spec fn with_code_records(
    wad: Wad,
    codes: Seq<CompiledCode>,
    bases: Seq<usize>,
    table: int,
    count: int,
) -> Wad
    decreases count,
{
    if count <= 0 {
        wad
    } else {
        with_code_record(
            with_code_records(wad, codes, bases, table, count - 1).here(table + 4 * (count - 1)),
            count - 1,
            codes[count - 1],
            bases[count - 1] as int,
        )
    }
}

/// The chunk of the code, without its head.
pub open spec fn code_chunk(wad: Wad, codes: Seq<CompiledCode>) -> CodeLayout {
    let counted = wad.count(codes.len(), "CODE record count"@);
    if counted.fault is Some {
        CodeLayout { wad: counted, bases: seq![] }
    } else {
        let layout = with_codes(counted.reserved(codes.len()), codes, codes.len() as int);
        CodeLayout {
            wad: with_code_records(
                layout.wad.aligned(4),
                codes,
                layout.bases,
                wad.bytes.len() as int + 4,
                codes.len() as int,
            ),
            bases: layout.bases,
        }
    }
}

proof fn lemma_texts_keep_bytes(wad: Wad, text: Seq<char>)
    ensures
        wad.with_text(text).bytes == wad.bytes,
        wad.fault is None ==> wad.with_text(text).texts.contains(text),
{
    if wad.fault is None && !wad.texts.contains(text) {
        assert(wad.with_text(text).texts.last() == text);
    }
}

fn write_string_numbers(
    writer: &mut WadWriter,
    code_index: usize,
    code: &CompiledCode,
    base: usize,
)
    requires
        old(writer).wf(),
        old(writer)@.fault is None ==> base + code.bytecode.bytes@.len()
            <= old(writer)@.bytes.len(),
    ensures
        final(writer).wf(),
        final(writer)@ == with_string_numbers(
            old(writer)@,
            code_index as int,
            *code,
            base as int,
            code.bytecode.string_references@.len() as int,
        ),
{
    let ghost start = writer@;
    let references = &code.bytecode.string_references;
    let length = code.bytecode.bytes.len();
    let mut index: usize = 0;
    while index < references.len()
        invariant
            index <= references@.len(),
            references == code.bytecode.string_references,
            length == code.bytecode.bytes@.len(),
            writer.wf(),
            writer@.fault is None ==> base + length <= writer@.bytes.len(),
            writer@ == with_string_numbers(
                start,
                code_index as int,
                *code,
                base as int,
                index as int,
            ),
        decreases references.len() - index,
    {
        let reference = &references[index];
        let ghost before = writer@;
        if !writer.is_faulty() {
            if !inside(length, reference.offset) {
                let message = outside_text("string", reference.offset, code_index, length);
                writer.fail_invalid(message.as_str());
            } else {
                writer.intern(reference.value.as_str());
                proof {
                    lemma_texts_keep_bytes(before, reference.value@);
                    reveal(Wad::patched);
                }
                let end = writer.position();
                assert(base + reference.offset <= end);
                if let Some(number) = writer.text_number(reference.value.as_str()) {
                    if number as u64 <= u32::MAX as u64 {
                        writer.patch_u32_at(base + reference.offset as usize, number as u32);
                    } else {
                        writer.fail_overflow("VM string index", number);
                    }
                }
            }
        }
        index += 1;
    }
}

fn write_code_bytes(writer: &mut WadWriter, code_index: usize, code: &CompiledCode)
    requires
        old(writer).wf(),
    ensures
        final(writer).wf(),
        final(writer)@ == with_code_bytes(old(writer)@, code_index as int, *code),
{
    if writer.is_faulty() {
        return;
    }
    let base = writer.position();
    if code.bytecode.bytes.len() % 4 != 0 {
        let message = entry_message(
            code_index,
            code,
            " has a byte length that is not word-aligned",
        );
        writer.fail_invalid(message.as_str());
    } else if base as u64 > u32::MAX as u64 {
        writer.fail_overflow("file position", base);
    } else {
        proof {
            reveal(Wad::raw);
        }
        writer.write_all(code.bytecode.bytes.as_slice());
        write_string_numbers(writer, code_index, code, base);
    }
}

fn write_code_record(writer: &mut WadWriter, code_index: usize, code: &CompiledCode, base: usize)
    requires
        old(writer).wf(),
    ensures
        final(writer).wf(),
        final(writer)@ == with_code_record(old(writer)@, code_index as int, *code, base as int),
{
    writer.write_reference(code.vm_name.as_str());
    writer.write_count(code.bytecode.bytes.len(), "CODE bytecode length");
    if code.local_count <= u16::MAX as usize {
        writer.write_u16(code.local_count as u16);
    } else {
        let message = entry_message(code_index, code, " has more than 65535 locals");
        writer.fail_invalid(message.as_str());
    }
    writer.write_u16(
        if code.local_count == 0 {
            0x8000
        } else {
            0
        },
    );
    let distance = base as i128 - writer.position() as i128;
    if i32::MIN as i128 <= distance && distance <= i32::MAX as i128 {
        writer.write_i32(distance as i32);
        writer.write_i32(0);
    } else {
        let message = entry_message(code_index, code, " relative offset does not fit i32");
        writer.fail_invalid(message.as_str());
    }
}

/// Writes the chunk of the code without its head, and returns where each code
/// begins.
pub fn write_code(writer: &mut WadWriter, project: &CompiledProject) -> (bases: Vec<usize>)
    requires
        old(writer).wf(),
    ensures
        final(writer).wf(),
        (CodeLayout { wad: final(writer)@, bases: bases@ }) == code_chunk(
            old(writer)@,
            project.codes@,
        ),
{
    let codes = &project.codes;
    let ghost table = writer@.bytes.len() as int + 4;
    let mut bases: Vec<usize> = Vec::new();
    let slots = match writer.reserve_table(codes.len(), "CODE record count") {
        Some(slots) => slots,
        None => {
            return bases;
        },
    };
    let ghost reserved = writer@;
    let mut index: usize = 0;
    while index < codes.len()
        invariant
            index <= codes@.len(),
            writer.wf(),
            bases@.len() == index,
            (CodeLayout { wad: writer@, bases: bases@ }) == with_codes(
                reserved,
                codes@,
                index as int,
            ),
        decreases codes.len() - index,
    {
        bases.push(writer.position());
        write_code_bytes(writer, index, &codes[index]);
        index += 1;
    }
    writer.align(4);
    let ghost aligned = writer@;
    index = 0;
    while index < codes.len()
        invariant
            index <= codes@.len(),
            writer.wf(),
            slots@.len() == codes@.len(),
            bases@.len() == codes@.len(),
            forall|k: int| 0 <= k < codes@.len() ==> (#[trigger] slots@[k]) == table + 4 * k,
            writer@ == with_code_records(aligned, codes@, bases@, table, index as int),
        decreases codes.len() - index,
    {
        writer.patch_position(slots[index]);
        write_code_record(writer, index, &codes[index], bases[index]);
        index += 1;
    }
    bases
}

/// A word of the bytecode that refers to a variable or a function: where its
/// instruction and the word itself are, and the flags of the access.
#[derive(Debug, Clone, Copy, PartialEq, Eq, Structural)]
pub struct ReferenceLocation {
    pub instruction: u32,
    pub payload: u32,
    pub flags: u32,
}

/// Which variable a reference means: local variables belong to their code.
pub struct VariableKey {
    pub name: Seq<char>,
    pub kind: VariableKind,
    pub code_index: Option<usize>,
}

/// A variable with its place at run time and the words that refer to it.
pub struct VariableRecord {
    pub key: VariableKey,
    pub instance: i32,
    pub index: i32,
    pub references: Seq<ReferenceLocation>,
}

/// The variables of the code, how many of them are numbered, and what went
/// wrong.
pub struct Variables {
    pub records: Seq<VariableRecord>,
    pub next_index: i32,
    pub fault: Option<WriteFault>,
}

/// The first position of a variable, from an index on.
pub open spec fn variable_from(
    records: Seq<VariableRecord>,
    key: VariableKey,
    index: int,
) -> int
    decreases records.len() - index,
{
    if index < 0 || index >= records.len() || records[index].key == key {
        index
    } else {
        variable_from(records, key, index + 1)
    }
}

impl Variables {
    /// With a fault.
    pub open spec fn failed(self, fault: WriteFault) -> Variables {
        Variables { fault: Some(fault), ..self }
    }

    /// With another variable.
    pub open spec fn with_record(self, key: VariableKey, instance: i32, index: i32) -> Variables {
        Variables {
            records: self.records.push(
                VariableRecord { key, instance, index, references: seq![] },
            ),
            ..self
        }
    }

    /// With another numbered variable.
    pub open spec fn with_numbered(self, key: VariableKey, instance: i32) -> Variables {
        if self.next_index == i32::MAX {
            self.failed(invalid("more than i32::MAX instance/global variables"@))
        } else {
            Variables {
                next_index: (self.next_index + 1) as i32,
                ..self.with_record(key, instance, self.next_index)
            }
        }
    }

    /// With a variable, if it is not there yet.
    pub open spec fn with_variable(
        self,
        builtins: Builtins,
        key: VariableKey,
        local_slot: Option<u32>,
    ) -> Variables {
        if self.fault is Some || variable_from(self.records, key, 0) < self.records.len() {
            self
        } else {
            match key.kind {
                VariableKind::Global => self.with_numbered(key, -5i32),
                VariableKind::Instance => if lists(builtins.variables@, key.name) {
                    self.with_record(key, -1i32, -6i32)
                } else {
                    self.with_numbered(key, -1i32)
                },
                VariableKind::Builtin => self.with_record(key, -1i32, -6i32),
                VariableKind::Local => match local_slot {
                    None => self.failed(
                        invalid("local variable "@ + key.name + " has no slot"@),
                    ),
                    Some(slot) => if slot <= i32::MAX {
                        self.with_record(key, -7i32, slot as i32)
                    } else {
                        self.failed(
                            invalid(
                                "local slot "@ + digits(slot as nat, 10) + " does not fit i32"@,
                            ),
                        )
                    },
                },
                VariableKind::Unknown => self.with_record(key, -6i32, 0),
            }
        }
    }

    /// With a word that refers to a variable.
    pub open spec fn with_location(
        self,
        key: VariableKey,
        location: ReferenceLocation,
    ) -> Variables {
        let at = variable_from(self.records, key, 0);
        if self.fault is Some || at >= self.records.len() {
            self
        } else {
            Variables {
                records: self.records.update(
                    at,
                    VariableRecord {
                        references: self.records[at].references.push(location),
                        ..self.records[at]
                    },
                ),
                ..self
            }
        }
    }

    /// With a reference of a code.
    pub open spec fn with_reference(
        self,
        builtins: Builtins,
        code_index: usize,
        code: CompiledCode,
        base: usize,
        reference: VariableReference,
    ) -> Variables {
        let key = key_of(code_index, reference);
        let ensured = self.with_variable(builtins, key, reference.local_slot);
        let length = code.bytecode.bytes@.len() as int;
        if ensured.fault is Some {
            ensured
        } else {
            match location_of(
                "variable"@,
                code_index as int,
                length,
                base,
                reference.offset,
                reference.flags,
            ) {
                Ok(location) => ensured.with_location(key, location),
                Err(fault) => ensured.failed(fault),
            }
        }
    }

    /// With the first references of a code that have a name.
    pub open spec fn with_group(
        self,
        builtins: Builtins,
        code_index: usize,
        code: CompiledCode,
        base: usize,
        name: Seq<char>,
        count: int,
    ) -> Variables
        decreases count,
    {
        if count <= 0 {
            self
        } else {
            let before = self.with_group(builtins, code_index, code, base, name, count - 1);
            let reference = code.bytecode.variable_references@[count - 1];
            if reference.name@ == name {
                before.with_reference(builtins, code_index, code, base, reference)
            } else {
                before
            }
        }
    }

    /// With the references of a code that have one of the first names.
    pub open spec fn with_groups(
        self,
        builtins: Builtins,
        code_index: usize,
        code: CompiledCode,
        base: usize,
        names: Seq<Seq<char>>,
        count: int,
    ) -> Variables
        decreases count,
    {
        if count <= 0 {
            self
        } else {
            self.with_groups(builtins, code_index, code, base, names, count - 1).with_group(
                builtins,
                code_index,
                code,
                base,
                names[count - 1],
                code.bytecode.variable_references@.len() as int,
            )
        }
    }

    /// With the variables of a code: its first local variable, and then those
    /// that it refers to, name by name.
    pub open spec fn with_code(
        self,
        builtins: Builtins,
        code_index: usize,
        code: CompiledCode,
        base: usize,
    ) -> Variables {
        let begun = if code.locals@.len() > 0 {
            self.with_variable(
                builtins,
                VariableKey {
                    name: code.locals@[0].name@,
                    kind: VariableKind::Local,
                    code_index: Some(code_index),
                },
                Some(code.locals@[0].slot),
            )
        } else {
            self
        };
        let references = code.bytecode.variable_references@;
        let names = reference_names(references, references.len() as int);
        begun.with_groups(builtins, code_index, code, base, names, names.len() as int)
    }

    /// With the variables of the first codes.
    pub open spec fn with_codes(
        self,
        builtins: Builtins,
        codes: Seq<CompiledCode>,
        bases: Seq<usize>,
        count: int,
    ) -> Variables
        decreases count,
    {
        if count <= 0 {
            self
        } else {
            self.with_codes(builtins, codes, bases, count - 1).with_code(
                builtins,
                (count - 1) as usize,
                codes[count - 1],
                bases[count - 1],
            )
        }
    }
}

/// The variable that a reference means. Those of the runner are variables of
/// instances.
pub open spec fn key_of(code_index: usize, reference: VariableReference) -> VariableKey {
    VariableKey {
        name: reference.name@,
        kind: if reference.kind is Builtin {
            VariableKind::Instance
        } else {
            reference.kind
        },
        code_index: if reference.kind is Local {
            Some(code_index)
        } else {
            None
        },
    }
}

/// Where a reference is in the file.
pub open spec fn location_of(
    kind: Seq<char>,
    code_index: int,
    length: int,
    base: usize,
    offset: u32,
    flags: u32,
) -> Result<ReferenceLocation, WriteFault> {
    if !is_inside(length, offset) {
        Err(invalid(outside(kind, offset, code_index, length)))
    } else if base + offset > u32::MAX {
        Err(invalid(kind + " reference address overflows u32"@))
    } else {
        Ok(
            ReferenceLocation {
                instruction: (base + offset - 4) as u32,
                payload: (base + offset) as u32,
                flags,
            },
        )
    }
}

/// The names of the first references, each once.
pub open spec fn reference_names(references: Seq<VariableReference>, count: int) -> Seq<Seq<char>>
    decreases count,
{
    if count <= 0 {
        seq![]
    } else {
        let before = reference_names(references, count - 1);
        let name = references[count - 1].name@;
        if before.contains(name) {
            before
        } else {
            before.push(name)
        }
    }
}

/// The variables that every file has.
pub open spec fn first_variables(builtins: Builtins) -> Variables {
    Variables { records: seq![], next_index: 0, fault: None }.with_variable(
        builtins,
        VariableKey { name: "prototype"@, kind: VariableKind::Instance, code_index: None },
        None,
    ).with_variable(
        builtins,
        VariableKey { name: "@@array@@"@, kind: VariableKind::Instance, code_index: None },
        None,
    )
}

/// The largest number of local variables of the first codes.
pub open spec fn most_locals(codes: Seq<CompiledCode>, count: int) -> nat
    decreases count,
{
    if count <= 0 {
        0
    } else {
        let before = most_locals(codes, count - 1);
        let locals = codes[count - 1].locals@.len();
        if locals > before {
            locals
        } else {
            before
        }
    }
}

/// The file with a chain through the first references: each word holds how far
/// the next instruction is, and the flags of its access.
pub open spec fn with_variable_links(
    wad: Wad,
    references: Seq<ReferenceLocation>,
    count: int,
) -> Wad
    decreases count,
{
    if count <= 0 {
        wad
    } else {
        let before = with_variable_links(wad, references, count - 1);
        let current = references[count - 1];
        let next = references[count];
        if next.instruction < current.instruction {
            before.failed(invalid("VARI references are not in ascending order"@))
        } else if next.instruction - current.instruction > 0x0fff_ffff {
            before.failed(
                invalid(
                    "VARI reference link from 0x"@ + digits(current.instruction as nat, 16)
                        + " to 0x"@ + digits(next.instruction as nat, 16) + " exceeds 28 bits"@,
                ),
            )
        } else {
            before.patched(
                current.payload as int,
                (current.flags / 0x1000_0000 * 0x1000_0000 + (next.instruction
                    - current.instruction)) as u32,
            )
        }
    }
}

/// The number of links of a chain.
pub open spec fn link_count(references: Seq<ReferenceLocation>) -> int {
    if references.len() == 0 {
        0
    } else {
        references.len() - 1
    }
}

/// The file with the record of a variable.
pub open spec fn with_variable_record(wad: Wad, record: VariableRecord) -> Wad {
    let counted = wad.text(record.key.name).integer(record.instance).integer(record.index).count(
        record.references.len(),
        "VARI reference count"@,
    );
    let begun = if record.references.len() > 0 {
        counted.word(record.references[0].instruction)
    } else {
        counted.integer(-1i32)
    };
    with_variable_links(begun, record.references, link_count(record.references))
}

/// The file with the records of the first variables.
pub open spec fn with_variable_records(
    wad: Wad,
    records: Seq<VariableRecord>,
    count: int,
) -> Wad
    decreases count,
{
    if count <= 0 {
        wad
    } else {
        with_variable_record(with_variable_records(wad, records, count - 1), records[count - 1])
    }
}

/// The chunk of the variables, without its head.
pub open spec fn variable_chunk(
    wad: Wad,
    builtins: Builtins,
    codes: Seq<CompiledCode>,
    bases: Seq<usize>,
) -> Wad {
    let count = codes.len() as int;
    let variables = first_variables(builtins).with_codes(builtins, codes, bases, count);
    let locals = most_locals(codes, count);
    if wad.fault is Some {
        wad
    } else if bases.len() != codes.len() {
        wad.failed(invalid("CODE base count does not match compiled code"@))
    } else {
        match variables.fault {
            Some(fault) => wad.failed(fault),
            None => {
                let numbered = wad.integer(variables.next_index).integer(variables.next_index);
                let counted = if locals <= i32::MAX {
                    numbered.integer(locals as i32)
                } else {
                    numbered.failed(
                        invalid(
                            "maximum local count "@ + digits(locals, 10) + " does not fit i32"@,
                        ),
                    )
                };
                with_variable_records(
                    counted,
                    variables.records,
                    variables.records.len() as int,
                )
            },
        }
    }
}

struct VariableEntry {
    name: String,
    kind: VariableKind,
    code_index: Option<usize>,
    instance: i32,
    index: i32,
    references: Vec<ReferenceLocation>,
}

impl View for VariableEntry {
    type V = VariableRecord;

    closed spec fn view(&self) -> VariableRecord {
        VariableRecord {
            key: VariableKey {
                name: self.name@,
                kind: self.kind,
                code_index: self.code_index,
            },
            instance: self.instance,
            index: self.index,
            references: self.references@,
        }
    }
}

spec fn record_views(entries: Seq<VariableEntry>) -> Seq<VariableRecord> {
    entries.map_values(|entry: VariableEntry| entry@)
}

struct VariableTable {
    entries: Vec<VariableEntry>,
    next_index: i32,
    fault: Option<WriteError>,
}

impl View for VariableTable {
    type V = Variables;

    closed spec fn view(&self) -> Variables {
        Variables {
            records: record_views(self.entries@),
            next_index: self.next_index,
            fault: crate::wad::fault_view(self.fault),
        }
    }
}

fn locate(
    kind: &str,
    code_index: usize,
    length: usize,
    base: usize,
    offset: u32,
    flags: u32,
) -> (result: Result<ReferenceLocation, WriteError>)
    ensures
        match result {
            Ok(location) => location_of(
                kind@,
                code_index as int,
                length as int,
                base,
                offset,
                flags,
            ) == Ok::<ReferenceLocation, WriteFault>(location),
            Err(error) => location_of(
                kind@,
                code_index as int,
                length as int,
                base,
                offset,
                flags,
            ) == Err::<ReferenceLocation, WriteFault>(error@),
        },
{
    if !inside(length, offset) {
        let message = outside_text(kind, offset, code_index, length);
        return Err(WriteError::InvalidVmData { message });
    }
    let payload = base as u128 + offset as u128;
    if payload > u32::MAX as u128 {
        let mut message = kind.to_owned();
        message.append(" reference address overflows u32");
        return Err(WriteError::InvalidVmData { message });
    }
    Ok(
        ReferenceLocation {
            instruction: (payload - 4) as u32,
            payload: payload as u32,
            flags,
        },
    )
}

impl VariableTable {
    fn find(
        &self,
        name: &str,
        kind: VariableKind,
        code_index: Option<usize>,
    ) -> (position: Option<usize>)
        ensures
            ({
                let at = variable_from(
                    self@.records,
                    VariableKey { name: name@, kind, code_index },
                    0,
                );
                match position {
                    Some(position) => position == at && at < self@.records.len(),
                    None => at >= self@.records.len(),
                }
            }),
    {
        let ghost key = VariableKey { name: name@, kind, code_index };
        let mut index: usize = 0;
        while index < self.entries.len()
            invariant
                index <= self.entries@.len(),
                key == (VariableKey { name: name@, kind, code_index }),
                variable_from(self@.records, key, 0) == variable_from(
                    self@.records,
                    key,
                    index as int,
                ),
            decreases self.entries.len() - index,
        {
            let entry = &self.entries[index];
            assert(self@.records[index as int] == entry@);
            let same_code = match (entry.code_index, code_index) {
                (None, None) => true,
                (Some(first), Some(second)) => first == second,
                _ => false,
            };
            if entry.kind == kind && same_code && same_text(entry.name.as_str(), name) {
                return Some(index);
            }
            index += 1;
        }
        None
    }

    fn add(
        &mut self,
        name: &str,
        kind: VariableKind,
        code_index: Option<usize>,
        instance: i32,
        index: i32,
    )
        ensures
            final(self)@ == old(self)@.with_record(
                VariableKey { name: name@, kind, code_index },
                instance,
                index,
            ),
    {
        let ghost before = self@.records;
        let entry = VariableEntry {
            name: name.to_owned(),
            kind,
            code_index,
            instance,
            index,
            references: Vec::new(),
        };
        let ghost added = entry@;
        assert(added.references =~= seq![]);
        self.entries.push(entry);
        assert(self@.records =~= before.push(added));
    }

    fn add_numbered(
        &mut self,
        name: &str,
        kind: VariableKind,
        code_index: Option<usize>,
        instance: i32,
    )
        ensures
            final(self)@ == old(self)@.with_numbered(
                VariableKey { name: name@, kind, code_index },
                instance,
            ),
    {
        if self.next_index == i32::MAX {
            self.fault = Some(
                WriteError::InvalidVmData {
                    message: "more than i32::MAX instance/global variables".to_owned(),
                },
            );
        } else {
            let index = self.next_index;
            self.add(name, kind, code_index, instance, index);
            self.next_index = index + 1;
        }
    }

    #[verifier::spinoff_prover]
    fn ensure(
        &mut self,
        builtins: &Builtins,
        name: &str,
        kind: VariableKind,
        code_index: Option<usize>,
        local_slot: Option<u32>,
    )
        ensures
            final(self)@ == old(self)@.with_variable(
                *builtins,
                VariableKey { name: name@, kind, code_index },
                local_slot,
            ),
    {
        if self.fault.is_some() || self.find(name, kind, code_index).is_some() {
            return;
        }
        match kind {
            VariableKind::Global => self.add_numbered(name, kind, code_index, -5),
            VariableKind::Instance => {
                if listed(&builtins.variables, name) {
                    self.add(name, kind, code_index, -1, -6);
                } else {
                    self.add_numbered(name, kind, code_index, -1);
                }
            },
            VariableKind::Builtin => self.add(name, kind, code_index, -1, -6),
            VariableKind::Local => match local_slot {
                None => {
                    let mut message = "local variable ".to_owned();
                    message.append(name);
                    message.append(" has no slot");
                    self.fault = Some(WriteError::InvalidVmData { message });
                },
                Some(slot) => {
                    if slot <= i32::MAX as u32 {
                        self.add(name, kind, code_index, -7, slot as i32);
                    } else {
                        let mut message = "local slot ".to_owned();
                        let shown = decimal(slot as u64);
                        message.append(shown.as_str());
                        message.append(" does not fit i32");
                        self.fault = Some(WriteError::InvalidVmData { message });
                    }
                },
            },
            VariableKind::Unknown => self.add(name, kind, code_index, -6, 0),
        }
    }

    #[verifier::spinoff_prover]
    fn add_reference(
        &mut self,
        builtins: &Builtins,
        code_index: usize,
        code: &CompiledCode,
        base: usize,
        reference: &VariableReference,
    )
        ensures
            final(self)@ == old(self)@.with_reference(
                *builtins,
                code_index,
                *code,
                base,
                *reference,
            ),
    {
        let kind = if matches!(reference.kind, VariableKind::Builtin) {
            VariableKind::Instance
        } else {
            reference.kind
        };
        let owner = if matches!(reference.kind, VariableKind::Local) {
            Some(code_index)
        } else {
            None
        };
        let name = reference.name.as_str();
        self.ensure(builtins, name, kind, owner, reference.local_slot);
        if self.fault.is_some() {
            return;
        }
        match locate(
            "variable",
            code_index,
            code.bytecode.bytes.len(),
            base,
            reference.offset,
            reference.flags,
        ) {
            Ok(location) => {
                if let Some(at) = self.find(name, kind, owner) {
                    let ghost before = self.entries@;
                    let ghost records = self@.records;
                    self.entries[at].references.push(location);
                    proof {
                        assert(record_views(before)[at as int] == before[at as int]@);
                        assert(self@.records =~= records.update(
                            at as int,
                            VariableRecord {
                                references: records[at as int].references.push(location),
                                ..records[at as int]
                            },
                        ));
                    }
                }
            },
            Err(error) => {
                self.fault = Some(error);
            },
        }
    }
}

fn distinct_names(references: &Vec<VariableReference>) -> (names: Vec<String>)
    ensures
        spelled(names@) == reference_names(references@, references@.len() as int),
{
    let mut names: Vec<String> = Vec::new();
    let mut index: usize = 0;
    assert(spelled(names@) =~= seq![]);
    while index < references.len()
        invariant
            index <= references@.len(),
            spelled(names@) == reference_names(references@, index as int),
        decreases references.len() - index,
    {
        let name = &references[index].name;
        let ghost before = spelled(names@);
        if listed(&names, name.as_str()) {
            let ghost at = choose|k: int| 0 <= k < names@.len() && names@[k]@ == name@;
            assert(before[at] == name@);
        } else {
            proof {
                if before.contains(name@) {
                    let at = choose|k: int| 0 <= k < before.len() && before[k] == name@;
                    assert(names@[at]@ == name@);
                }
            }
            names.push(name.clone());
            assert(spelled(names@) =~= before.push(name@));
        }
        index += 1;
    }
    names
}

impl VariableTable {
    #[verifier::spinoff_prover]
    fn add_group(
        &mut self,
        builtins: &Builtins,
        code_index: usize,
        code: &CompiledCode,
        base: usize,
        name: &str,
    )
        ensures
            final(self)@ == old(self)@.with_group(
                *builtins,
                code_index,
                *code,
                base,
                name@,
                code.bytecode.variable_references@.len() as int,
            ),
    {
        let ghost start = self@;
        let references = &code.bytecode.variable_references;
        let mut index: usize = 0;
        while index < references.len()
            invariant
                index <= references@.len(),
                references == code.bytecode.variable_references,
                self@ == start.with_group(
                    *builtins,
                    code_index,
                    *code,
                    base,
                    name@,
                    index as int,
                ),
            decreases references.len() - index,
        {
            let reference = &references[index];
            if same_text(reference.name.as_str(), name) {
                self.add_reference(builtins, code_index, code, base, reference);
            }
            index += 1;
        }
    }

    #[verifier::spinoff_prover]
    fn add_code(
        &mut self,
        builtins: &Builtins,
        code_index: usize,
        code: &CompiledCode,
        base: usize,
    )
        ensures
            final(self)@ == old(self)@.with_code(*builtins, code_index, *code, base),
    {
        if code.locals.len() > 0 {
            let local = &code.locals[0];
            self.ensure(
                builtins,
                local.name.as_str(),
                VariableKind::Local,
                Some(code_index),
                Some(local.slot),
            );
        }
        let ghost begun = self@;
        let names = distinct_names(&code.bytecode.variable_references);
        let ghost texts = spelled(names@);
        let mut index: usize = 0;
        while index < names.len()
            invariant
                index <= names@.len(),
                texts == spelled(names@),
                self@ == begun.with_groups(
                    *builtins,
                    code_index,
                    *code,
                    base,
                    texts,
                    index as int,
                ),
            decreases names.len() - index,
        {
            assert(texts[index as int] == names@[index as int]@);
            self.add_group(builtins, code_index, code, base, names[index].as_str());
            index += 1;
        }
    }
}

fn write_variable_links(writer: &mut WadWriter, references: &Vec<ReferenceLocation>)
    requires
        old(writer).wf(),
    ensures
        final(writer).wf(),
        final(writer)@ == with_variable_links(
            old(writer)@,
            references@,
            link_count(references@),
        ),
{
    let ghost start = writer@;
    let mut index: usize = 1;
    while index < references.len()
        invariant
            1 <= index,
            references@.len() > 0 ==> index <= references@.len(),
            references@.len() == 0 ==> index == 1,
            writer.wf(),
            writer@ == with_variable_links(start, references@, index - 1),
        decreases references.len() - index,
    {
        let current = references[index - 1];
        let next = references[index];
        if next.instruction < current.instruction {
            writer.fail_invalid("VARI references are not in ascending order");
        } else {
            let distance = next.instruction - current.instruction;
            if distance > 0x0fff_ffff {
                let mut message = "VARI reference link from 0x".to_owned();
                let from = number_text(current.instruction as u64, 16);
                message.append(from.as_str());
                message.append(" to 0x");
                let to = number_text(next.instruction as u64, 16);
                message.append(to.as_str());
                message.append(" exceeds 28 bits");
                writer.fail_invalid(message.as_str());
            } else {
                writer.patch_u32_at(
                    current.payload as usize,
                    current.flags / 0x1000_0000 * 0x1000_0000 + distance,
                );
            }
        }
        index += 1;
    }
}

fn write_variable_record(writer: &mut WadWriter, entry: &VariableEntry)
    requires
        old(writer).wf(),
    ensures
        final(writer).wf(),
        final(writer)@ == with_variable_record(old(writer)@, entry@),
{
    writer.write_reference(entry.name.as_str());
    writer.write_i32(entry.instance);
    writer.write_i32(entry.index);
    writer.write_count(entry.references.len(), "VARI reference count");
    if entry.references.len() > 0 {
        writer.write_u32(entry.references[0].instruction);
    } else {
        writer.write_i32(-1);
    }
    write_variable_links(writer, &entry.references);
}

fn locals_at_most(codes: &Vec<CompiledCode>) -> (count: usize)
    ensures
        count == most_locals(codes@, codes@.len() as int),
{
    let mut most: usize = 0;
    let mut index: usize = 0;
    while index < codes.len()
        invariant
            index <= codes@.len(),
            most == most_locals(codes@, index as int),
        decreases codes.len() - index,
    {
        let locals = codes[index].locals.len();
        if locals > most {
            most = locals;
        }
        index += 1;
    }
    most
}

/// Writes the chunk of the variables without its head: the variables of the
/// code with their places at run time, and a chain through the words that refer
/// to each of them.
#[verifier::spinoff_prover]
pub fn write_variables(
    writer: &mut WadWriter,
    builtins: &Builtins,
    project: &CompiledProject,
    bases: &Vec<usize>,
)
    requires
        old(writer).wf(),
    ensures
        final(writer).wf(),
        final(writer)@ == variable_chunk(old(writer)@, *builtins, project.codes@, bases@),
{
    if writer.is_faulty() {
        return;
    }
    if bases.len() != project.codes.len() {
        writer.fail_invalid("CODE base count does not match compiled code");
        return;
    }
    let mut table = VariableTable { entries: Vec::new(), next_index: 0, fault: None };
    assert(table@.records =~= seq![]);
    table.ensure(builtins, "prototype", VariableKind::Instance, None, None);
    table.ensure(builtins, "@@array@@", VariableKind::Instance, None, None);
    let ghost first = first_variables(*builtins);
    assert(table@ == first);
    let mut index: usize = 0;
    while index < project.codes.len()
        invariant
            index <= project.codes@.len(),
            bases@.len() == project.codes@.len(),
            table@ == first.with_codes(*builtins, project.codes@, bases@, index as int),
        decreases project.codes.len() - index,
    {
        table.add_code(builtins, index, &project.codes[index], bases[index]);
        index += 1;
    }
    if let Some(error) = table.fault {
        writer.fail(error);
        return;
    }
    writer.write_i32(table.next_index);
    writer.write_i32(table.next_index);
    let locals = locals_at_most(&project.codes);
    if locals as u64 <= i32::MAX as u64 {
        writer.write_i32(locals as i32);
    } else {
        let mut message = "maximum local count ".to_owned();
        let shown = decimal(locals as u64);
        message.append(shown.as_str());
        message.append(" does not fit i32");
        writer.fail_invalid(message.as_str());
    }
    let ghost counted = writer@;
    let ghost records = table@.records;
    index = 0;
    while index < table.entries.len()
        invariant
            index <= table.entries@.len(),
            records == record_views(table.entries@),
            writer.wf(),
            writer@ == with_variable_records(counted, records, index as int),
        decreases table.entries.len() - index,
    {
        assert(records[index as int] == table.entries@[index as int]@);
        write_variable_record(writer, &table.entries[index]);
        index += 1;
    }
}

/// A function with the words that refer to it.
pub struct FunctionRecord {
    pub name: Seq<char>,
    pub references: Seq<ReferenceLocation>,
}

/// The functions of the code, and what went wrong.
pub struct Functions {
    pub records: Seq<FunctionRecord>,
    pub fault: Option<WriteFault>,
}

/// The first position of a function, from an index on.
pub open spec fn function_from(
    records: Seq<FunctionRecord>,
    name: Seq<char>,
    index: int,
) -> int
    decreases records.len() - index,
{
    if index < 0 || index >= records.len() || records[index].name == name {
        index
    } else {
        function_from(records, name, index + 1)
    }
}

impl Functions {
    /// With a word that refers to a function.
    pub open spec fn with_location(
        self,
        name: Seq<char>,
        location: ReferenceLocation,
    ) -> Functions {
        let at = function_from(self.records, name, 0);
        if at < self.records.len() {
            Functions {
                records: self.records.update(
                    at,
                    FunctionRecord {
                        references: self.records[at].references.push(location),
                        ..self.records[at]
                    },
                ),
                ..self
            }
        } else {
            Functions {
                records: self.records.push(FunctionRecord { name, references: seq![location] }),
                ..self
            }
        }
    }

    /// With the first references of a code.
    pub open spec fn with_references(
        self,
        code_index: int,
        code: CompiledCode,
        base: usize,
        count: int,
    ) -> Functions
        decreases count,
    {
        if count <= 0 {
            self
        } else {
            let before = self.with_references(code_index, code, base, count - 1);
            let reference = code.bytecode.function_references@[count - 1];
            if before.fault is Some {
                before
            } else {
                match location_of(
                    "function"@,
                    code_index,
                    code.bytecode.bytes@.len() as int,
                    base,
                    reference.offset,
                    0,
                ) {
                    Ok(location) => before.with_location(reference.name@, location),
                    Err(fault) => Functions { fault: Some(fault), ..before },
                }
            }
        }
    }

    /// With the references of the first codes.
    pub open spec fn with_codes(
        self,
        codes: Seq<CompiledCode>,
        bases: Seq<usize>,
        count: int,
    ) -> Functions
        decreases count,
    {
        if count <= 0 {
            self
        } else {
            self.with_codes(codes, bases, count - 1).with_references(
                count - 1,
                codes[count - 1],
                bases[count - 1],
                codes[count - 1].bytecode.function_references@.len() as int,
            )
        }
    }
}

/// The file with a chain through the first references: each word holds how far
/// the next instruction is.
pub open spec fn with_function_links(
    wad: Wad,
    references: Seq<ReferenceLocation>,
    count: int,
) -> Wad
    decreases count,
{
    if count <= 0 {
        wad
    } else {
        let before = with_function_links(wad, references, count - 1);
        let current = references[count - 1];
        let next = references[count];
        if next.instruction < current.instruction {
            before.failed(invalid("FUNC references are not in ascending order"@))
        } else {
            before.patched(
                current.payload as int,
                (next.instruction - current.instruction) as u32,
            )
        }
    }
}

/// The file with the records of the first functions.
pub open spec fn with_function_records(
    wad: Wad,
    records: Seq<FunctionRecord>,
    count: int,
) -> Wad
    decreases count,
{
    if count <= 0 {
        wad
    } else {
        let record = records[count - 1];
        with_function_links(
            with_function_records(wad, records, count - 1).text(record.name).count(
                record.references.len(),
                "FUNC reference count"@,
            ).word(record.references[0].instruction),
            record.references,
            link_count(record.references),
        )
    }
}

/// The file with the first local variables of a code.
pub open spec fn with_locals(wad: Wad, locals: Seq<LocalVariable>, count: int) -> Wad
    decreases count,
{
    if count <= 0 {
        wad
    } else {
        with_locals(wad, locals, count - 1).word(locals[count - 1].slot).text(
            locals[count - 1].name@,
        )
    }
}

/// The file with the local variables of the first codes.
pub open spec fn with_all_locals(wad: Wad, codes: Seq<CompiledCode>, count: int) -> Wad
    decreases count,
{
    if count <= 0 {
        wad
    } else {
        let code = codes[count - 1];
        with_locals(
            with_all_locals(wad, codes, count - 1).count(
                code.locals@.len(),
                "FUNC local count"@,
            ).text(code.vm_name@),
            code.locals@,
            code.locals@.len() as int,
        )
    }
}

/// The chunk of the functions, without its head.
pub open spec fn function_chunk(wad: Wad, codes: Seq<CompiledCode>, bases: Seq<usize>) -> Wad {
    let count = codes.len() as int;
    let functions = Functions { records: seq![], fault: None }.with_codes(codes, bases, count);
    if wad.fault is Some {
        wad
    } else if bases.len() != codes.len() {
        wad.failed(invalid("CODE base count does not match compiled code"@))
    } else {
        match functions.fault {
            Some(fault) => wad.failed(fault),
            None => with_all_locals(
                with_function_records(
                    wad.count(functions.records.len(), "FUNC record count"@),
                    functions.records,
                    functions.records.len() as int,
                ).count(codes.len(), "FUNC local table count"@),
                codes,
                count,
            ),
        }
    }
}

struct FunctionEntry {
    name: String,
    references: Vec<ReferenceLocation>,
}

impl View for FunctionEntry {
    type V = FunctionRecord;

    closed spec fn view(&self) -> FunctionRecord {
        FunctionRecord { name: self.name@, references: self.references@ }
    }
}

spec fn function_views(entries: Seq<FunctionEntry>) -> Seq<FunctionRecord> {
    entries.map_values(|entry: FunctionEntry| entry@)
}

struct FunctionTable {
    entries: Vec<FunctionEntry>,
    fault: Option<WriteError>,
}

impl View for FunctionTable {
    type V = Functions;

    closed spec fn view(&self) -> Functions {
        Functions {
            records: function_views(self.entries@),
            fault: crate::wad::fault_view(self.fault),
        }
    }
}

impl FunctionTable {
    spec fn referenced(&self) -> bool {
        forall|k: int|
            0 <= k < self.entries@.len() ==> (#[trigger] self.entries@[k]).references@.len() > 0
    }

    fn add_location(&mut self, name: &str, location: ReferenceLocation)
        requires
            old(self).referenced(),
        ensures
            final(self).referenced(),
            final(self)@ == old(self)@.with_location(name@, location),
    {
        let ghost records = self@.records;
        let mut index: usize = 0;
        while index < self.entries.len()
            invariant
                index <= self.entries@.len(),
                records == function_views(self.entries@),
                *self == *old(self),
                self.referenced(),
                function_from(records, name@, 0) == function_from(records, name@, index as int),
            decreases self.entries.len() - index,
        {
            assert(records[index as int] == self.entries@[index as int]@);
            if same_text(self.entries[index].name.as_str(), name) {
                let ghost before = self.entries@;
                self.entries[index].references.push(location);
                proof {
                    assert(self@.records =~= records.update(
                        index as int,
                        FunctionRecord {
                            references: records[index as int].references.push(location),
                            ..records[index as int]
                        },
                    ));
                    assert forall|k: int| 0 <= k < self.entries@.len() implies (
                    #[trigger] self.entries@[k]).references@.len() > 0 by {
                        if k != index {
                            assert(self.entries@[k] == before[k]);
                        } else {
                            assert(self.entries@[k].references@ == before[k].references@.push(
                                location,
                            ));
                        }
                    }
                }
                return;
            }
            index += 1;
        }
        let mut references: Vec<ReferenceLocation> = Vec::new();
        references.push(location);
        assert(references@ =~= seq![location]);
        let entry = FunctionEntry { name: name.to_owned(), references };
        let ghost added = entry@;
        let ghost before = self.entries@;
        self.entries.push(entry);
        proof {
            assert(self@.records =~= records.push(added));
            assert forall|k: int| 0 <= k < self.entries@.len() implies (
            #[trigger] self.entries@[k]).references@.len() > 0 by {
                if k < before.len() {
                    assert(self.entries@[k] == before[k]);
                }
            }
        }
    }

    fn add_references(&mut self, code_index: usize, code: &CompiledCode, base: usize)
        requires
            old(self).referenced(),
        ensures
            final(self).referenced(),
            final(self)@ == old(self)@.with_references(
                code_index as int,
                *code,
                base,
                code.bytecode.function_references@.len() as int,
            ),
    {
        let ghost start = self@;
        let references = &code.bytecode.function_references;
        let mut index: usize = 0;
        while index < references.len()
            invariant
                index <= references@.len(),
                references == code.bytecode.function_references,
                self.referenced(),
                self@ == start.with_references(code_index as int, *code, base, index as int),
            decreases references.len() - index,
        {
            let reference = &references[index];
            if self.fault.is_none() {
                match locate(
                    "function",
                    code_index,
                    code.bytecode.bytes.len(),
                    base,
                    reference.offset,
                    0,
                ) {
                    Ok(location) => self.add_location(reference.name.as_str(), location),
                    Err(error) => {
                        self.fault = Some(error);
                    },
                }
            }
            index += 1;
        }
    }
}

fn write_function_links(writer: &mut WadWriter, references: &Vec<ReferenceLocation>)
    requires
        old(writer).wf(),
    ensures
        final(writer).wf(),
        final(writer)@ == with_function_links(
            old(writer)@,
            references@,
            link_count(references@),
        ),
{
    let ghost start = writer@;
    let mut index: usize = 1;
    while index < references.len()
        invariant
            1 <= index,
            references@.len() > 0 ==> index <= references@.len(),
            references@.len() == 0 ==> index == 1,
            writer.wf(),
            writer@ == with_function_links(start, references@, index - 1),
        decreases references.len() - index,
    {
        let current = references[index - 1];
        let next = references[index];
        if next.instruction < current.instruction {
            writer.fail_invalid("FUNC references are not in ascending order");
        } else {
            writer.patch_u32_at(
                current.payload as usize,
                next.instruction - current.instruction,
            );
        }
        index += 1;
    }
}

fn write_all_locals(writer: &mut WadWriter, codes: &Vec<CompiledCode>)
    requires
        old(writer).wf(),
    ensures
        final(writer).wf(),
        final(writer)@ == with_all_locals(old(writer)@, codes@, codes@.len() as int),
{
    let ghost start = writer@;
    let mut index: usize = 0;
    while index < codes.len()
        invariant
            index <= codes@.len(),
            writer.wf(),
            writer@ == with_all_locals(start, codes@, index as int),
        decreases codes.len() - index,
    {
        let code = &codes[index];
        writer.write_count(code.locals.len(), "FUNC local count");
        writer.write_reference(code.vm_name.as_str());
        let ghost named = writer@;
        let mut position: usize = 0;
        while position < code.locals.len()
            invariant
                position <= code.locals@.len(),
                writer.wf(),
                writer@ == with_locals(named, code.locals@, position as int),
            decreases code.locals.len() - position,
        {
            let local = &code.locals[position];
            writer.write_u32(local.slot);
            writer.write_reference(local.name.as_str());
            position += 1;
        }
        index += 1;
    }
}

/// Writes the chunk of the functions without its head: the functions that the
/// code calls with a chain through the words that refer to each of them, and
/// the local variables of all codes.
#[verifier::spinoff_prover]
pub fn write_functions(writer: &mut WadWriter, project: &CompiledProject, bases: &Vec<usize>)
    requires
        old(writer).wf(),
    ensures
        final(writer).wf(),
        final(writer)@ == function_chunk(old(writer)@, project.codes@, bases@),
{
    if writer.is_faulty() {
        return;
    }
    if bases.len() != project.codes.len() {
        writer.fail_invalid("CODE base count does not match compiled code");
        return;
    }
    let mut table = FunctionTable { entries: Vec::new(), fault: None };
    let ghost none = Functions { records: seq![], fault: None };
    assert(table@.records =~= seq![]);
    let mut index: usize = 0;
    while index < project.codes.len()
        invariant
            index <= project.codes@.len(),
            bases@.len() == project.codes@.len(),
            table.referenced(),
            table@ == none.with_codes(project.codes@, bases@, index as int),
        decreases project.codes.len() - index,
    {
        table.add_references(index, &project.codes[index], bases[index]);
        index += 1;
    }
    if let Some(error) = table.fault {
        writer.fail(error);
        return;
    }
    writer.write_count(table.entries.len(), "FUNC record count");
    let ghost counted = writer@;
    let ghost records = table@.records;
    index = 0;
    while index < table.entries.len()
        invariant
            index <= table.entries@.len(),
            records == function_views(table.entries@),
            table.referenced(),
            writer.wf(),
            writer@ == with_function_records(counted, records, index as int),
        decreases table.entries.len() - index,
    {
        let entry = &table.entries[index];
        assert(records[index as int] == entry@);
        writer.write_reference(entry.name.as_str());
        writer.write_count(entry.references.len(), "FUNC reference count");
        writer.write_u32(entry.references[0].instruction);
        write_function_links(writer, &entry.references);
        index += 1;
    }
    writer.write_count(project.codes.len(), "FUNC local table count");
    write_all_locals(writer, &project.codes);
}

/// The three chunks of the bytecode.
pub open spec fn vm_chunks(wad: Wad, builtins: Builtins, codes: Seq<CompiledCode>) -> Wad {
    let layout = code_chunk(wad.opened(CODE@), codes);
    let code = layout.wad.closed(wad.bytes.len() as int);
    let variables = variable_chunk(code.opened(VARI@), builtins, codes, layout.bases).closed(
        code.bytes.len() as int,
    );
    function_chunk(variables.opened(FUNC@), codes, layout.bases).closed(
        variables.bytes.len() as int,
    )
}

/// Writes the chunks of the bytecode: the code, and then the variables and the
/// functions, whose chains go through the code that is written.
pub fn add_vm_chunks(writer: &mut WadWriter, builtins: &Builtins, project: &CompiledProject)
    requires
        old(writer).wf(),
    ensures
        final(writer).wf(),
        final(writer)@ == vm_chunks(old(writer)@, *builtins, project.codes@),
{
    let code = writer.open_chunk(CODE);
    let bases = write_code(writer, project);
    writer.close_chunk(code);
    let variables = writer.open_chunk(VARI);
    write_variables(writer, builtins, project, &bases);
    writer.close_chunk(variables);
    let functions = writer.open_chunk(FUNC);
    write_functions(writer, project, &bases);
    writer.close_chunk(functions);
}

} // verus!
