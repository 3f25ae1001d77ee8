//! The instruction buffer: little-endian bytecode, the labels that branches
//! jump to, and the words that later passes link to variables, functions and
//! strings.

use vstd::prelude::*;

use crate::text::{digits, number_text};

verus! {

/// Value tags stored in the high argument byte of GMS 1.4 VM instructions.
#[derive(Debug, Clone, Copy, PartialEq, Eq, Structural)]
pub enum VmType {
    Double,
    Float,
    Int,
    Long,
    Bool,
    Variable,
    String,
    Instance,
    Delete,
    Undefined,
    UnsignedInt,
    Error,
}

impl VmType {
    /// The four-bit tag of the type.
    pub open spec fn tag(self) -> u8 {
        match self {
            VmType::Double => 0,
            VmType::Float => 1,
            VmType::Int => 2,
            VmType::Long => 3,
            VmType::Bool => 4,
            VmType::Variable => 5,
            VmType::String => 6,
            VmType::Instance => 7,
            VmType::Delete => 8,
            VmType::Undefined => 9,
            VmType::UnsignedInt => 10,
            VmType::Error => 15,
        }
    }

    /// Returns the tag of the type as instructions store it.
    pub fn code(self) -> (code: u8)
        ensures
            code == self.tag(),
            code < 16,
    {
        match self {
            VmType::Double => 0,
            VmType::Float => 1,
            VmType::Int => 2,
            VmType::Long => 3,
            VmType::Bool => 4,
            VmType::Variable => 5,
            VmType::String => 6,
            VmType::Instance => 7,
            VmType::Delete => 8,
            VmType::Undefined => 9,
            VmType::UnsignedInt => 10,
            VmType::Error => 15,
        }
    }
}

/// The operation of an instruction.
#[derive(Debug, Clone, Copy, PartialEq, Eq, Structural)]
pub enum Opcode {
    PushV,
    Push,
    PushLocal,
    PushGlobal,
    PushBuiltin,
    PushImmediate,
    Pop,
    PopV,
    Dup,
    Conv,
    Mul,
    Div,
    Rem,
    Mod,
    Add,
    Sub,
    And,
    Or,
    Xor,
    Neg,
    Not,
    Shl,
    Shr,
    SetValue,
    Branch,
    BranchTrue,
    BranchFalse,
    Call,
    CallV,
    PushEnv,
    PopEnv,
    Return,
    Exit,
    PopNull,
    Break,
}

impl Opcode {
    /// The byte that stands for the operation.
    pub open spec fn byte(self) -> u8 {
        match self {
            Opcode::PushV => 128,
            Opcode::Push => 192,
            Opcode::PushLocal => 193,
            Opcode::PushGlobal => 194,
            Opcode::PushBuiltin => 195,
            Opcode::PushImmediate => 132,
            Opcode::Pop => 69,
            Opcode::PopV => 5,
            Opcode::Dup => 134,
            Opcode::Conv => 7,
            Opcode::Mul => 8,
            Opcode::Div => 9,
            Opcode::Rem => 10,
            Opcode::Mod => 11,
            Opcode::Add => 12,
            Opcode::Sub => 13,
            Opcode::And => 14,
            Opcode::Or => 15,
            Opcode::Xor => 16,
            Opcode::Neg => 17,
            Opcode::Not => 18,
            Opcode::Shl => 19,
            Opcode::Shr => 20,
            Opcode::SetValue => 21,
            Opcode::Branch => 182,
            Opcode::BranchTrue => 183,
            Opcode::BranchFalse => 184,
            Opcode::Call => 217,
            Opcode::CallV => 153,
            Opcode::PushEnv => 186,
            Opcode::PopEnv => 187,
            Opcode::Return => 156,
            Opcode::Exit => 157,
            Opcode::PopNull => 158,
            Opcode::Break => 255,
        }
    }

    /// Whether the operation carries a jump distance.
    pub open spec fn jumps(self) -> bool {
        self is Branch || self is BranchTrue || self is BranchFalse || self is PushEnv
            || self is PopEnv
    }

    /// Returns the byte that stands for the operation.
    pub fn code(self) -> (code: u8)
        ensures
            code == self.byte(),
    {
        match self {
            Opcode::PushV => 128,
            Opcode::Push => 192,
            Opcode::PushLocal => 193,
            Opcode::PushGlobal => 194,
            Opcode::PushBuiltin => 195,
            Opcode::PushImmediate => 132,
            Opcode::Pop => 69,
            Opcode::PopV => 5,
            Opcode::Dup => 134,
            Opcode::Conv => 7,
            Opcode::Mul => 8,
            Opcode::Div => 9,
            Opcode::Rem => 10,
            Opcode::Mod => 11,
            Opcode::Add => 12,
            Opcode::Sub => 13,
            Opcode::And => 14,
            Opcode::Or => 15,
            Opcode::Xor => 16,
            Opcode::Neg => 17,
            Opcode::Not => 18,
            Opcode::Shl => 19,
            Opcode::Shr => 20,
            Opcode::SetValue => 21,
            Opcode::Branch => 182,
            Opcode::BranchTrue => 183,
            Opcode::BranchFalse => 184,
            Opcode::Call => 217,
            Opcode::CallV => 153,
            Opcode::PushEnv => 186,
            Opcode::PopEnv => 187,
            Opcode::Return => 156,
            Opcode::Exit => 157,
            Opcode::PopNull => 158,
            Opcode::Break => 255,
        }
    }
}

/// What a comparison instruction tests.
#[derive(Debug, Clone, Copy, PartialEq, Eq, Structural)]
pub enum Condition {
    NoTest,
    Less,
    LessEqual,
    Equal,
    NotEqual,
    GreaterEqual,
    Greater,
}

impl Condition {
    /// The number that stands for the test.
    pub open spec fn number(self) -> u8 {
        match self {
            Condition::NoTest => 0,
            Condition::Less => 1,
            Condition::LessEqual => 2,
            Condition::Equal => 3,
            Condition::NotEqual => 4,
            Condition::GreaterEqual => 5,
            Condition::Greater => 6,
        }
    }

    /// Returns the number that stands for the test.
    pub fn code(self) -> (code: u8)
        ensures
            code == self.number(),
            code < 7,
    {
        match self {
            Condition::NoTest => 0,
            Condition::Less => 1,
            Condition::LessEqual => 2,
            Condition::Equal => 3,
            Condition::NotEqual => 4,
            Condition::GreaterEqual => 5,
            Condition::Greater => 6,
        }
    }
}

/// Where a variable lives.
#[derive(Debug, Clone, Copy, PartialEq, Eq, Hash, Structural)]
pub enum VariableKind {
    Global,
    Instance,
    Local,
    Builtin,
    Unknown,
}

/// One word in the bytecode whose low 28 bits are linked by `VARI`.
#[derive(Debug, Clone, PartialEq, Eq)]
pub struct VariableReference {
    pub offset: u32,
    pub name: String,
    pub kind: VariableKind,
    pub flags: u32,
    pub local_slot: Option<u32>,
}

/// A [`VariableReference`] with its name as a sequence of characters.
pub struct VariableUse {
    pub offset: u32,
    pub name: Seq<char>,
    pub kind: VariableKind,
    pub flags: u32,
    pub local_slot: Option<u32>,
}

impl View for VariableReference {
    type V = VariableUse;

    open spec fn view(&self) -> VariableUse {
        VariableUse {
            offset: self.offset,
            name: self.name@,
            kind: self.kind,
            flags: self.flags,
            local_slot: self.local_slot,
        }
    }
}

/// One word in the bytecode whose low 28 bits are linked by `FUNC`.
#[derive(Debug, Clone, PartialEq, Eq)]
pub struct FunctionReference {
    pub offset: u32,
    pub name: String,
}

/// A [`FunctionReference`] with its name as a sequence of characters.
pub struct FunctionUse {
    pub offset: u32,
    pub name: Seq<char>,
}

impl View for FunctionReference {
    type V = FunctionUse;

    open spec fn view(&self) -> FunctionUse {
        FunctionUse { offset: self.offset, name: self.name@ }
    }
}

/// A string payload word patched to its zero-based entry index in `STRG`.
#[derive(Debug, Clone, PartialEq, Eq)]
pub struct StringReference {
    pub offset: u32,
    pub value: String,
}

/// A [`StringReference`] with its text as a sequence of characters.
pub struct StringUse {
    pub offset: u32,
    pub value: Seq<char>,
}

impl View for StringReference {
    type V = StringUse;

    open spec fn view(&self) -> StringUse {
        StringUse { offset: self.offset, value: self.value@ }
    }
}

/// The variable uses that a list of references stands for.
pub open spec fn variable_uses(references: Seq<VariableReference>) -> Seq<VariableUse> {
    references.map_values(|reference: VariableReference| reference@)
}

/// The function uses that a list of references stands for.
pub open spec fn function_uses(references: Seq<FunctionReference>) -> Seq<FunctionUse> {
    references.map_values(|reference: FunctionReference| reference@)
}

/// The string uses that a list of references stands for.
pub open spec fn string_uses(references: Seq<StringReference>) -> Seq<StringUse> {
    references.map_values(|reference: StringReference| reference@)
}

/// Finished bytecode with the words that are still to be linked.
#[derive(Debug, Clone, PartialEq, Eq)]
pub struct VmBytecode {
    pub bytes: Vec<u8>,
    pub variable_references: Vec<VariableReference>,
    pub function_references: Vec<FunctionReference>,
    pub string_references: Vec<StringReference>,
}

/// A place in the bytecode that branches can name before it is known.
#[derive(Debug, Clone, Copy, PartialEq, Eq, Hash, Structural)]
pub struct Label(usize);

impl Label {
    /// The position of the label in its buffer's table.
    pub closed spec fn index(self) -> nat {
        self.0 as nat
    }
}

/// Why bytecode could not be finished.
#[derive(Debug, Clone, PartialEq, Eq, Structural)]
pub enum VmError {
    CodeTooLarge,
    LabelAlreadyMarked,
    UnmarkedLabel,
    BranchNotAligned { from: u32, to: u32 },
    BranchOutOfRange { from: u32, to: u32 },
}

/// The message of an error.
pub open spec fn error_text(error: VmError) -> Seq<char> {
    match error {
        VmError::CodeTooLarge => "VM bytecode is larger than 4 GiB"@,
        VmError::LabelAlreadyMarked => "VM label was marked more than once"@,
        VmError::UnmarkedLabel => "VM bytecode contains an unmarked label"@,
        VmError::BranchNotAligned { from, to } => "VM branch from 0x"@ + digits(from as nat, 16)
            + " to 0x"@ + digits(to as nat, 16) + " is not 4-byte aligned"@,
        VmError::BranchOutOfRange { from, to } => "VM branch from 0x"@ + digits(from as nat, 16)
            + " to 0x"@ + digits(to as nat, 16) + " exceeds 23 bits"@,
    }
}

impl VmError {
    /// Returns the message of the error.
    pub fn text(&self) -> (text: String)
        ensures
            text@ == error_text(*self),
    {
        match self {
            VmError::CodeTooLarge => "VM bytecode is larger than 4 GiB".to_owned(),
            VmError::LabelAlreadyMarked => "VM label was marked more than once".to_owned(),
            VmError::UnmarkedLabel => "VM bytecode contains an unmarked label".to_owned(),
            VmError::BranchNotAligned { from, to } => {
                let mut text = branch_text(*from, *to);
                text.append(" is not 4-byte aligned");
                text
            },
            VmError::BranchOutOfRange { from, to } => {
                let mut text = branch_text(*from, *to);
                text.append(" exceeds 23 bits");
                text
            },
        }
    }
}

fn branch_text(from: u32, to: u32) -> (text: String)
    ensures
        text@ == "VM branch from 0x"@ + digits(from as nat, 16) + " to 0x"@ + digits(
            to as nat,
            16,
        ),
{
    let mut text = "VM branch from 0x".to_owned();
    let start = number_text(from as u64, 16);
    text.append(start.as_str());
    text.append(" to 0x");
    let end = number_text(to as u64, 16);
    text.append(end.as_str());
    text
}

/// A branch instruction whose distance is still to be filled in.
#[derive(Debug, Clone, Copy)]
pub struct BranchPatch {
    pub offset: u32,
    pub opcode: Opcode,
    pub label: Label,
}

/// A [`BranchPatch`] with the number of its label.
pub struct PendingBranch {
    pub offset: u32,
    pub opcode: Opcode,
    pub label: nat,
}

impl BranchPatch {
    /// The branch with the number of its label.
    pub open spec fn pending(self) -> PendingBranch {
        PendingBranch { offset: self.offset, opcode: self.opcode, label: self.label.index() }
    }
}

/// Little-endian instruction buffer using the exact 1.4 `VMBuffer` encoding.
#[derive(Debug)]
pub struct VmBuffer {
    pub bytes: Vec<u8>,
    pub labels: Vec<Option<u32>>,
    pub branches: Vec<BranchPatch>,
    pub variable_references: Vec<VariableReference>,
    pub function_references: Vec<FunctionReference>,
    pub string_references: Vec<StringReference>,
}

/// What an instruction buffer holds.
pub struct VmState {
    pub bytes: Seq<u8>,
    pub labels: Seq<Option<u32>>,
    pub branches: Seq<PendingBranch>,
    pub variables: Seq<VariableUse>,
    pub functions: Seq<FunctionUse>,
    pub strings: Seq<StringUse>,
}

impl View for VmBuffer {
    type V = VmState;

    open spec fn view(&self) -> VmState {
        VmState {
            bytes: self.bytes@,
            labels: self.labels@,
            branches: self.branches@.map_values(|patch: BranchPatch| patch.pending()),
            variables: variable_uses(self.variable_references@),
            functions: function_uses(self.function_references@),
            strings: string_uses(self.string_references@),
        }
    }
}

/// The four bytes of a word, least significant first.
pub open spec fn le32(value: int) -> Seq<u8> {
    seq![
        (value % 256) as u8,
        ((value / 0x100) % 256) as u8,
        ((value / 0x1_0000) % 256) as u8,
        ((value / 0x100_0000) % 256) as u8,
    ]
}

/// The eight bytes of a double word, least significant first.
pub open spec fn le64(value: int) -> Seq<u8> {
    le32(value % 0x1_0000_0000) + le32(value / 0x1_0000_0000)
}

/// The unsigned reading of a signed 32-bit value.
pub open spec fn unsigned32(value: i32) -> int {
    if value < 0 {
        value + 0x1_0000_0000
    } else {
        value as int
    }
}

/// The unsigned reading of a signed 64-bit value.
pub open spec fn unsigned64(value: i64) -> int {
    if value < 0 {
        value + 0x1_0000_0000_0000_0000
    } else {
        value as int
    }
}

/// The unsigned reading of a signed 16-bit value.
pub open spec fn unsigned16(value: i16) -> int {
    if value < 0 {
        value + 0x1_0000
    } else {
        value as int
    }
}

/// The word at a byte offset.
pub open spec fn word_at(bytes: Seq<u8>, offset: int) -> int {
    bytes[offset] + bytes[offset + 1] * 0x100 + bytes[offset + 2] * 0x1_0000 + bytes[offset + 3]
        * 0x100_0000
}

/// The argument byte that names two types.
pub open spec fn type_pair(first: VmType, second: VmType) -> int {
    first.tag() + 16 * second.tag()
}

/// An instruction word: the operation, its argument byte and a 16-bit operand.
pub open spec fn instruction(opcode: Opcode, argument: int, operand: int) -> int {
    opcode.byte() * 0x100_0000 + argument * 0x1_0000 + operand
}

/// A branch word: the operation and its distance in words, modulo 2^23.
pub open spec fn branch_word(opcode: Opcode, distance: int) -> int {
    opcode.byte() * 0x100_0000 + distance % 0x80_0000
}

/// The distance in words that a branch word holds: its low 23 bits, read as a
/// signed number.
pub open spec fn branch_distance(word: int) -> int {
    let low = word % 0x80_0000;
    if low < 0x40_0000 {
        low
    } else {
        low - 0x80_0000
    }
}

/// The word that a pending branch becomes, or why it cannot be filled in.
pub open spec fn resolved_branch(labels: Seq<Option<u32>>, branch: PendingBranch) -> Result<
    int,
    VmError,
> {
    if branch.label >= labels.len() || labels[branch.label as int] is None {
        Err(VmError::UnmarkedLabel)
    } else {
        let target = labels[branch.label as int]->0;
        let delta = target - branch.offset;
        if delta % 4 != 0 {
            Err(VmError::BranchNotAligned { from: branch.offset, to: target })
        } else if !(-0x40_0000 <= delta / 4 <= 0x3f_ffff) {
            Err(VmError::BranchOutOfRange { from: branch.offset, to: target })
        } else {
            Ok(branch_word(branch.opcode, delta / 4))
        }
    }
}

/// Replaces the word at a byte offset.
pub open spec fn with_word(bytes: Seq<u8>, offset: int, word: int) -> Seq<u8> {
    bytes.subrange(0, offset) + le32(word) + bytes.subrange(offset + 4, bytes.len() as int)
}

/// The bytes once the first `count` branches are filled in.
pub open spec fn with_branches(
    bytes: Seq<u8>,
    labels: Seq<Option<u32>>,
    branches: Seq<PendingBranch>,
    count: nat,
) -> Seq<u8>
    decreases count,
{
    if count == 0 {
        bytes
    } else {
        let last = branches[count - 1];
        with_word(
            with_branches(bytes, labels, branches, (count - 1) as nat),
            last.offset as int,
            resolved_branch(labels, last)->Ok_0,
        )
    }
}

/// Whether each of the first `count` branches can be filled in.
pub open spec fn resolvable(
    labels: Seq<Option<u32>>,
    branches: Seq<PendingBranch>,
    count: nat,
) -> bool {
    forall|k: int| 0 <= k < count ==> (#[trigger] resolved_branch(labels, branches[k])) is Ok
}

/// Whether the branch numbered `at` is the first that cannot be filled in.
pub open spec fn first_unresolved(
    labels: Seq<Option<u32>>,
    branches: Seq<PendingBranch>,
    at: nat,
) -> bool {
    &&& at < branches.len()
    &&& resolvable(labels, branches, at)
    &&& resolved_branch(labels, branches[at as int]) is Err
}

/// Where the words that refer to variables are.
pub open spec fn variable_offsets(uses: Seq<VariableUse>) -> Seq<u32> {
    uses.map_values(|variable: VariableUse| variable.offset)
}

/// Where the words that refer to functions are.
pub open spec fn function_offsets(uses: Seq<FunctionUse>) -> Seq<u32> {
    uses.map_values(|function: FunctionUse| function.offset)
}

/// Where the words that refer to strings are.
pub open spec fn string_offsets(uses: Seq<StringUse>) -> Seq<u32> {
    uses.map_values(|string: StringUse| string.offset)
}

/// Whether offsets are those of distinct words of a code in ascending order, none
/// of them the first word.
pub open spec fn are_second_words(offsets: Seq<u32>, length: nat) -> bool {
    &&& forall|k: int|
        0 <= k < offsets.len() ==> {
            &&& 4 <= #[trigger] offsets[k]
            &&& offsets[k] % 4 == 0
            &&& offsets[k] + 4 <= length
        }
    &&& forall|j: int, k: int|
        0 <= j < k < offsets.len() ==> #[trigger] offsets[j] < #[trigger] offsets[k]
}

impl VmState {
    /// The state after a run of bytes was written.
    pub open spec fn written(self, more: Seq<u8>) -> VmState {
        VmState { bytes: self.bytes + more, ..self }
    }

    /// What every instruction buffer keeps: the code is a whole number of
    /// words, marked labels lie on words of it, the pending branches are
    /// distinct words of it in ascending order, and so are the words that refer to
    /// variables, to functions and to strings, each behind another word.
    pub open spec fn valid(self) -> bool {
        &&& self.bytes.len() % 4 == 0
        &&& are_second_words(variable_offsets(self.variables), self.bytes.len())
        &&& are_second_words(function_offsets(self.functions), self.bytes.len())
        &&& are_second_words(string_offsets(self.strings), self.bytes.len())
        &&& forall|k: int|
            0 <= k < self.labels.len() && (#[trigger] self.labels[k]) is Some ==> {
                &&& self.labels[k]->0 % 4 == 0
                &&& self.labels[k]->0 <= self.bytes.len()
            }
        &&& forall|k: int|
            0 <= k < self.branches.len() ==> {
                &&& (#[trigger] self.branches[k]).offset % 4 == 0
                &&& self.branches[k].offset + 4 <= self.bytes.len()
                &&& self.branches[k].opcode.jumps()
            }
        &&& forall|j: int, k: int|
            0 <= j < k < self.branches.len() ==> (#[trigger] self.branches[j]).offset < (
            #[trigger] self.branches[k]).offset
    }
}

impl VmBuffer {
    /// Makes an empty buffer.
    pub fn new() -> (buffer: Self)
        ensures
            buffer@.valid(),
            buffer@ == (VmState {
                bytes: seq![],
                labels: seq![],
                branches: seq![],
                variables: seq![],
                functions: seq![],
                strings: seq![],
            }),
    {
        let buffer = VmBuffer {
            bytes: Vec::new(),
            labels: Vec::new(),
            branches: Vec::new(),
            variable_references: Vec::new(),
            function_references: Vec::new(),
            string_references: Vec::new(),
        };
        proof {
            assert(buffer@.branches =~= seq![]);
            assert(buffer@.variables =~= seq![]);
            assert(buffer@.functions =~= seq![]);
            assert(buffer@.strings =~= seq![]);
        }
        buffer
    }

    /// Returns the offset of the next instruction.
    pub fn position(&self) -> (position: Result<u32, VmError>)
        ensures
            position == if self@.bytes.len() <= u32::MAX {
                Ok(self@.bytes.len() as u32)
            } else {
                Err(VmError::CodeTooLarge)
            },
    {
        let length: usize = self.bytes.len();
        if length as u64 <= u32::MAX as u64 {
            Ok(length as u32)
        } else {
            Err(VmError::CodeTooLarge)
        }
    }

    /// Returns the code written so far, with its branches as they stand.
    pub fn bytes(&self) -> (bytes: &[u8])
        ensures
            bytes@ == self@.bytes,
    {
        self.bytes.as_slice()
    }

    /// Fills in the branches and returns the code.
    pub fn into_bytes(self) -> (result: Result<Vec<u8>, VmError>)
        requires
            self@.valid(),
        ensures
            match result {
                Ok(bytes) => {
                    &&& resolvable(self@.labels, self@.branches, self@.branches.len())
                    &&& bytes@ == with_branches(
                        self@.bytes,
                        self@.labels,
                        self@.branches,
                        self@.branches.len(),
                    )
                },
                Err(error) => exists|at: nat| #[trigger]
                    first_unresolved(self@.labels, self@.branches, at) && resolved_branch(
                        self@.labels,
                        self@.branches[at as int],
                    ) == Err::<int, VmError>(error),
            },
    {
        let mut buffer = self;
        match buffer.resolve_branches() {
            Ok(()) => Ok(buffer.bytes),
            Err(error) => Err(error),
        }
    }

    /// Fills in the branches and returns the code with its references.
    pub fn finish(self) -> (result: Result<VmBytecode, VmError>)
        requires
            self@.valid(),
        ensures
            match result {
                Ok(code) => {
                    &&& resolvable(self@.labels, self@.branches, self@.branches.len())
                    &&& code.bytes@ == with_branches(
                        self@.bytes,
                        self@.labels,
                        self@.branches,
                        self@.branches.len(),
                    )
                    &&& variable_uses(code.variable_references@) == self@.variables
                    &&& function_uses(code.function_references@) == self@.functions
                    &&& string_uses(code.string_references@) == self@.strings
                },
                Err(error) => exists|at: nat| #[trigger]
                    first_unresolved(self@.labels, self@.branches, at) && resolved_branch(
                        self@.labels,
                        self@.branches[at as int],
                    ) == Err::<int, VmError>(error),
            },
    {
        let mut buffer = self;
        match buffer.resolve_branches() {
            Ok(()) => Ok(
                VmBytecode {
                    bytes: buffer.bytes,
                    variable_references: buffer.variable_references,
                    function_references: buffer.function_references,
                    string_references: buffer.string_references,
                },
            ),
            Err(error) => Err(error),
        }
    }

    /// Makes a label that is not marked yet.
    pub fn label(&mut self) -> (label: Label)
        requires
            old(self)@.valid(),
        ensures
            final(self)@.valid(),
            label.index() == old(self)@.labels.len(),
            final(self)@ == (VmState { labels: old(self)@.labels.push(None), ..old(self)@ }),
    {
        let label = Label(self.labels.len());
        self.labels.push(None);
        label
    }

    /// Marks a label of this buffer at the next instruction. A label that was
    /// marked before moves there too, and the call reports it.
    pub fn mark(&mut self, label: Label) -> (result: Result<(), VmError>)
        requires
            old(self)@.valid(),
            label.index() < old(self)@.labels.len(),
        ensures
            final(self)@.valid(),
            result == if old(self)@.bytes.len() > u32::MAX {
                Err(VmError::CodeTooLarge)
            } else if old(self)@.labels[label.index() as int] is Some {
                Err(VmError::LabelAlreadyMarked)
            } else {
                Ok(())
            },
            final(self)@ == if old(self)@.bytes.len() > u32::MAX {
                old(self)@
            } else {
                VmState {
                    labels: old(self)@.labels.update(
                        label.index() as int,
                        Some(old(self)@.bytes.len() as u32),
                    ),
                    ..old(self)@
                }
            },
    {
        let position: u32 = match self.position() {
            Ok(position) => position,
            Err(error) => {
                return Err(error);
            },
        };
        let marked = self.labels[label.0].is_some();
        self.labels.set(label.0, Some(position));
        if marked {
            return Err(VmError::LabelAlreadyMarked);
        }
        Ok(())
    }

    /// Writes an instruction with one type.
    pub fn emit(&mut self, opcode: Opcode, value_type: VmType)
        requires
            old(self)@.valid(),
        ensures
            final(self)@.valid(),
            final(self)@ == old(self)@.written(
                le32(instruction(opcode, value_type.tag() as int, 0)),
            ),
    {
        self.write_u32(encode_instruction_arg(opcode, value_type.code(), 0));
    }

    /// Writes an instruction with two types.
    pub fn emit_types(&mut self, opcode: Opcode, first: VmType, second: VmType)
        requires
            old(self)@.valid(),
        ensures
            final(self)@.valid(),
            final(self)@ == old(self)@.written(
                le32(instruction(opcode, type_pair(first, second), 0)),
            ),
    {
        self.write_u32(encode_instruction_arg(opcode, encode_types(first, second), 0));
    }

    /// Writes a comparison of two types.
    pub fn emit_condition(
        &mut self,
        opcode: Opcode,
        first: VmType,
        second: VmType,
        condition: Condition,
    )
        requires
            old(self)@.valid(),
        ensures
            final(self)@.valid(),
            final(self)@ == old(self)@.written(
                le32(instruction(opcode, type_pair(first, second), 256 * condition.number())),
            ),
    {
        let operand: u16 = 256 * condition.code() as u16;
        self.write_u32(encode_instruction_arg(opcode, encode_types(first, second), operand));
    }

    /// Writes a duplication of the topmost `count` values.
    pub fn emit_dup(&mut self, value_type: VmType, count: u16)
        requires
            old(self)@.valid(),
            count != 0,
        ensures
            final(self)@.valid(),
            final(self)@ == old(self)@.written(
                le32(instruction(Opcode::Dup, value_type.tag() as int, count - 1)),
            ),
    {
        self.write_u32(encode_instruction_arg(Opcode::Dup, value_type.code(), count - 1));
    }

    /// Writes a push of a 16-bit integer.
    pub fn emit_push_immediate(&mut self, value: i16)
        requires
            old(self)@.valid(),
        ensures
            final(self)@.valid(),
            final(self)@ == old(self)@.written(
                le32(
                    instruction(
                        Opcode::PushImmediate,
                        VmType::Error.tag() as int,
                        unsigned16(value),
                    ),
                ),
            ),
    {
        self.write_u32(
            encode_instruction_arg(Opcode::PushImmediate, VmType::Error.code(), bits16(value)),
        );
    }

    /// Writes the payload-less `push.e` form that the short-circuit and
    /// increment rewrites use.
    pub fn emit_push_error(&mut self, value: u16)
        requires
            old(self)@.valid(),
        ensures
            final(self)@.valid(),
            final(self)@ == old(self)@.written(
                le32(instruction(Opcode::Push, VmType::Error.tag() as int, value as int)),
            ),
    {
        self.write_u32(encode_instruction_arg(Opcode::Push, VmType::Error.code(), value));
    }

    /// Writes a push of a 32-bit integer.
    pub fn emit_push_i32(&mut self, value: i32)
        requires
            old(self)@.valid(),
        ensures
            final(self)@.valid(),
            final(self)@ == old(self)@.written(
                le32(instruction(Opcode::Push, VmType::Int.tag() as int, 0)) + le32(
                    unsigned32(value),
                ),
            ),
    {
        let ghost before = self@.bytes;
        self.emit(Opcode::Push, VmType::Int);
        self.write_i32(value);
        assert(self@.bytes =~= before + (le32(
            instruction(Opcode::Push, VmType::Int.tag() as int, 0),
        ) + le32(unsigned32(value))));
    }

    /// Writes a push of a 64-bit integer.
    pub fn emit_push_i64(&mut self, value: i64)
        requires
            old(self)@.valid(),
        ensures
            final(self)@.valid(),
            final(self)@ == old(self)@.written(
                le32(instruction(Opcode::Push, VmType::Long.tag() as int, 0)) + le64(
                    unsigned64(value),
                ),
            ),
    {
        let ghost before = self@.bytes;
        self.emit(Opcode::Push, VmType::Long);
        self.write_i64(value);
        assert(self@.bytes =~= before + (le32(
            instruction(Opcode::Push, VmType::Long.tag() as int, 0),
        ) + le64(unsigned64(value))));
    }

    /// Writes a push of a double, given by its bits.
    pub fn emit_push_f64(&mut self, bits: u64)
        requires
            old(self)@.valid(),
        ensures
            final(self)@.valid(),
            final(self)@ == old(self)@.written(
                le32(instruction(Opcode::Push, VmType::Double.tag() as int, 0)) + le64(
                    bits as int,
                ),
            ),
    {
        let ghost before = self@.bytes;
        self.emit(Opcode::Push, VmType::Double);
        self.write_u64(bits);
        assert(self@.bytes =~= before + (le32(
            instruction(Opcode::Push, VmType::Double.tag() as int, 0),
        ) + le64(bits as int)));
    }

    /// Writes a push of a string, whose payload word is linked later.
    pub fn emit_push_string(&mut self, value: &str) -> (result: Result<(), VmError>)
        requires
            old(self)@.valid(),
        ensures
            final(self)@.valid(),
            ({
                let start = old(self)@.written(
                    le32(instruction(Opcode::Push, VmType::String.tag() as int, 0)),
                );
                if start.bytes.len() > u32::MAX {
                    &&& result == Err::<(), VmError>(VmError::CodeTooLarge)
                    &&& final(self)@ == start
                } else {
                    &&& result == Ok::<(), VmError>(())
                    &&& final(self)@ == (VmState {
                        bytes: start.bytes + le32(0),
                        strings: start.strings.push(
                            StringUse { offset: start.bytes.len() as u32, value: value@ },
                        ),
                        ..start
                    })
                }
            }),
    {
        self.emit(Opcode::Push, VmType::String);
        let offset: u32 = match self.position() {
            Ok(position) => position,
            Err(error) => {
                return Err(error);
            },
        };
        self.write_u32(0);
        let ghost before = self.string_references@;
        self.string_references.push(StringReference { offset, value: value.to_owned() });
        proof {
            assert(string_uses(self.string_references@) =~= string_uses(before).push(
                StringUse { offset, value: value@ },
            ));
        }
        proof {
            let offsets = string_offsets(old(self)@.strings);
            assert(string_offsets(self@.strings) =~= offsets.push(offset));
        }
        Ok(())
    }

    /// Writes an access to a variable, whose second word is linked later. A
    /// source type is given only together with a target type.
    pub fn emit_variable(
        &mut self,
        opcode: Opcode,
        instance: i16,
        target_type: Option<VmType>,
        source_type: Option<VmType>,
        name: &str,
        kind: VariableKind,
        flags: u32,
        local_slot: Option<u32>,
    ) -> (result: Result<(), VmError>)
        requires
            old(self)@.valid(),
            source_type is Some ==> target_type is Some,
        ensures
            final(self)@.valid(),
            ({
                let argument = match target_type {
                    None => VmType::Variable.tag() as int,
                    Some(target) => match source_type {
                        None => type_pair(VmType::Variable, target),
                        Some(source) => type_pair(source, target),
                    },
                };
                let start = old(self)@.written(
                    le32(instruction(opcode, argument, unsigned16(instance))),
                );
                if start.bytes.len() > u32::MAX {
                    &&& result == Err::<(), VmError>(VmError::CodeTooLarge)
                    &&& final(self)@ == start
                } else {
                    &&& result == Ok::<(), VmError>(())
                    &&& final(self)@ == (VmState {
                        bytes: start.bytes + le32(flags as int),
                        variables: start.variables.push(
                            VariableUse {
                                offset: start.bytes.len() as u32,
                                name: name@,
                                kind,
                                flags,
                                local_slot,
                            },
                        ),
                        ..start
                    })
                }
            }),
    {
        let argument: u8 = match target_type {
            None => VmType::Variable.code(),
            Some(target) => match source_type {
                None => encode_types(VmType::Variable, target),
                Some(source) => encode_types(source, target),
            },
        };
        self.write_u32(encode_instruction_arg(opcode, argument, bits16(instance)));
        let offset: u32 = match self.position() {
            Ok(position) => position,
            Err(error) => {
                return Err(error);
            },
        };
        self.write_u32(flags);
        let ghost before = self.variable_references@;
        self.variable_references.push(
            VariableReference { offset, name: name.to_owned(), kind, flags, local_slot },
        );
        proof {
            assert(variable_uses(self.variable_references@) =~= variable_uses(before).push(
                VariableUse { offset, name: name@, kind, flags, local_slot },
            ));
        }
        proof {
            let offsets = variable_offsets(old(self)@.variables);
            assert(variable_offsets(self@.variables) =~= offsets.push(offset));
        }
        Ok(())
    }

    /// Writes a call, whose second word is linked later.
    pub fn emit_call(&mut self, name: &str, argument_count: u16) -> (result: Result<(), VmError>)
        requires
            old(self)@.valid(),
        ensures
            final(self)@.valid(),
            ({
                let start = old(self)@.written(
                    le32(
                        instruction(Opcode::Call, VmType::Int.tag() as int, argument_count as int),
                    ),
                );
                if start.bytes.len() > u32::MAX {
                    &&& result == Err::<(), VmError>(VmError::CodeTooLarge)
                    &&& final(self)@ == start
                } else {
                    &&& result == Ok::<(), VmError>(())
                    &&& final(self)@ == (VmState {
                        bytes: start.bytes + le32(0),
                        functions: start.functions.push(
                            FunctionUse { offset: start.bytes.len() as u32, name: name@ },
                        ),
                        ..start
                    })
                }
            }),
    {
        self.write_u32(encode_instruction_arg(Opcode::Call, VmType::Int.code(), argument_count));
        let offset: u32 = match self.position() {
            Ok(position) => position,
            Err(error) => {
                return Err(error);
            },
        };
        self.write_u32(0);
        let ghost before = self.function_references@;
        self.function_references.push(FunctionReference { offset, name: name.to_owned() });
        proof {
            assert(function_uses(self.function_references@) =~= function_uses(before).push(
                FunctionUse { offset, name: name@ },
            ));
        }
        proof {
            let offsets = function_offsets(old(self)@.functions);
            assert(function_offsets(self@.functions) =~= offsets.push(offset));
        }
        Ok(())
    }

    /// Writes a runtime hook.
    pub fn emit_break(&mut self, value: u16)
        requires
            old(self)@.valid(),
        ensures
            final(self)@.valid(),
            final(self)@ == old(self)@.written(
                le32(instruction(Opcode::Break, VmType::Error.tag() as int, value as int)),
            ),
    {
        self.write_u32(encode_instruction_arg(Opcode::Break, VmType::Error.code(), value));
    }

    /// Writes a runtime hook with an integer payload.
    pub fn emit_break_i32(&mut self, value: u16, payload: i32)
        requires
            old(self)@.valid(),
        ensures
            final(self)@.valid(),
            final(self)@ == old(self)@.written(
                le32(instruction(Opcode::Break, VmType::Int.tag() as int, value as int)) + le32(
                    unsigned32(payload),
                ),
            ),
    {
        let ghost before = self@.bytes;
        self.write_u32(encode_instruction_arg(Opcode::Break, VmType::Int.code(), value));
        self.write_i32(payload);
        assert(self@.bytes =~= before + (le32(
            instruction(Opcode::Break, VmType::Int.tag() as int, value as int),
        ) + le32(unsigned32(payload))));
    }

    /// Writes the payload-less pop that moves a value below the operands of an
    /// array store.
    pub fn emit_pop_reorder(&mut self, depth: u16)
        requires
            old(self)@.valid(),
        ensures
            final(self)@.valid(),
            final(self)@ == old(self)@.written(
                le32(
                    instruction(
                        Opcode::Pop,
                        type_pair(VmType::Error, VmType::Variable),
                        depth as int,
                    ),
                ),
            ),
    {
        self.write_u32(
            encode_instruction_arg(
                Opcode::Pop,
                encode_types(VmType::Error, VmType::Variable),
                depth,
            ),
        );
    }

    /// Writes a branch, whose distance is filled in once its label is marked.
    pub fn emit_branch(&mut self, opcode: Opcode, label: Label) -> (result: Result<(), VmError>)
        requires
            old(self)@.valid(),
            opcode.jumps(),
        ensures
            final(self)@.valid(),
            if old(self)@.bytes.len() > u32::MAX {
                &&& result == Err::<(), VmError>(VmError::CodeTooLarge)
                &&& final(self)@ == old(self)@
            } else {
                &&& result == Ok::<(), VmError>(())
                &&& final(self)@ == (VmState {
                    bytes: old(self)@.bytes + le32(branch_word(opcode, 0)),
                    branches: old(self)@.branches.push(
                        PendingBranch {
                            offset: old(self)@.bytes.len() as u32,
                            opcode,
                            label: label.index(),
                        },
                    ),
                    ..old(self)@
                })
            },
    {
        let offset: u32 = match self.position() {
            Ok(position) => position,
            Err(error) => {
                return Err(error);
            },
        };
        let ghost before = self@;
        let patch = BranchPatch { offset, opcode, label };
        let word: u32 = encode_instruction_branch(opcode, 0);
        self.push_word(word);
        self.branches.push(patch);
        proof {
            assert(self@.branches =~= before.branches.push(patch.pending()));
            assert(self@.bytes =~= before.bytes + le32(branch_word(opcode, 0)));
        }
        Ok(())
    }

    /// Fills in the branches in the order in which they were written, up to
    /// the first that cannot be filled in.
    pub fn resolve_branches(&mut self) -> (result: Result<(), VmError>)
        requires
            old(self)@.valid(),
        ensures
            final(self)@.valid(),
            match result {
                Ok(()) => {
                    &&& resolvable(
                        old(self)@.labels,
                        old(self)@.branches,
                        old(self)@.branches.len(),
                    )
                    &&& final(self)@ == (VmState {
                        bytes: with_branches(
                            old(self)@.bytes,
                            old(self)@.labels,
                            old(self)@.branches,
                            old(self)@.branches.len(),
                        ),
                        ..old(self)@
                    })
                },
                Err(error) => exists|at: nat|
                    {
                        &&& #[trigger] first_unresolved(old(self)@.labels, old(self)@.branches, at)
                        &&& resolved_branch(old(self)@.labels, old(self)@.branches[at as int])
                            == Err::<int, VmError>(error)
                        &&& final(self)@ == (VmState {
                            bytes: with_branches(
                                old(self)@.bytes,
                                old(self)@.labels,
                                old(self)@.branches,
                                at,
                            ),
                            ..old(self)@
                        })
                    },
            },
    {
        let ghost start = self@;
        let mut index: usize = 0;
        while index < self.branches.len()
            invariant
                start.valid(),
                start == old(self)@,
                index <= self.branches.len(),
                self.branches == old(self).branches,
                self.labels == old(self).labels,
                self.variable_references == old(self).variable_references,
                self.function_references == old(self).function_references,
                self.string_references == old(self).string_references,
                self.bytes@.len() == start.bytes.len(),
                self.bytes@ == with_branches(
                    start.bytes,
                    start.labels,
                    start.branches,
                    index as nat,
                ),
                resolvable(start.labels, start.branches, index as nat),
            decreases self.branches.len() - index,
        {
            let patch = self.branches[index];
            let ghost pending = start.branches[index as int];
            assert(pending == patch.pending());
            assert(self@ == (VmState { bytes: self.bytes@, ..start }));
            let resolved = resolve_branch(&self.labels, patch);
            match resolved {
                Ok(word) => {
                    let at: usize = patch.offset as usize;
                    let ghost bytes = self.bytes@;
                    self.bytes.set(at, (word % 256) as u8);
                    self.bytes.set(at + 1, ((word / 0x100) % 256) as u8);
                    self.bytes.set(at + 2, ((word / 0x1_0000) % 256) as u8);
                    self.bytes.set(at + 3, ((word / 0x100_0000) % 256) as u8);
                    assert(self.bytes@ =~= with_word(bytes, at as int, word as int));
                },
                Err(error) => {
                    assert(first_unresolved(start.labels, start.branches, index as nat));
                    return Err(error);
                },
            }
            index += 1;
        }
        Ok(())
    }

    fn push_word(&mut self, value: u32)
        ensures
            final(self)@ == old(self)@.written(le32(value as int)),
            final(self).branches == old(self).branches,
            final(self).labels == old(self).labels,
    {
        let ghost before = self.bytes@;
        self.bytes.push((value % 256) as u8);
        self.bytes.push(((value / 0x100) % 256) as u8);
        self.bytes.push(((value / 0x1_0000) % 256) as u8);
        self.bytes.push(((value / 0x100_0000) % 256) as u8);
        assert(self.bytes@ =~= before + le32(value as int));
    }

    fn write_u32(&mut self, value: u32)
        requires
            old(self)@.valid(),
        ensures
            final(self)@.valid(),
            final(self)@ == old(self)@.written(le32(value as int)),
    {
        self.push_word(value);
    }

    fn write_i32(&mut self, value: i32)
        requires
            old(self)@.valid(),
        ensures
            final(self)@.valid(),
            final(self)@ == old(self)@.written(le32(unsigned32(value))),
    {
        self.write_u32(bits32(value));
    }

    fn write_i64(&mut self, value: i64)
        requires
            old(self)@.valid(),
        ensures
            final(self)@.valid(),
            final(self)@ == old(self)@.written(le64(unsigned64(value))),
    {
        self.write_u64(bits64(value));
    }

    fn write_u64(&mut self, value: u64)
        requires
            old(self)@.valid(),
        ensures
            final(self)@.valid(),
            final(self)@ == old(self)@.written(le64(value as int)),
    {
        let ghost before = self.bytes@;
        self.write_u32((value % 0x1_0000_0000) as u32);
        self.write_u32((value / 0x1_0000_0000) as u32);
        assert(self.bytes@ =~= before + le64(value as int));
    }
}

pub(crate) fn bits16(value: i16) -> (bits: u16)
    ensures
        bits == unsigned16(value),
{
    if value < 0 {
        (value as i32 + 0x1_0000) as u16
    } else {
        value as u16
    }
}

pub(crate) fn bits32(value: i32) -> (bits: u32)
    ensures
        bits == unsigned32(value),
{
    if value < 0 {
        (value as i64 + 0x1_0000_0000) as u32
    } else {
        value as u32
    }
}

pub(crate) fn bits64(value: i64) -> (bits: u64)
    ensures
        bits == unsigned64(value),
{
    if value < 0 {
        (value as i128 + 0x1_0000_0000_0000_0000) as u64
    } else {
        value as u64
    }
}

fn encode_types(first: VmType, second: VmType) -> (argument: u8)
    ensures
        argument == type_pair(first, second),
{
    first.code() + 16 * second.code()
}

fn encode_instruction_arg(opcode: Opcode, argument: u8, operand: u16) -> (word: u32)
    ensures
        word == instruction(opcode, argument as int, operand as int),
{
    opcode.code() as u32 * 0x100_0000 + argument as u32 * 0x1_0000 + operand as u32
}

fn encode_instruction_branch(opcode: Opcode, words: i32) -> (word: u32)
    requires
        -0x40_0000 <= words <= 0x3f_ffff,
    ensures
        word == branch_word(opcode, words as int),
{
    let low: u32 = if words < 0 {
        (words + 0x80_0000) as u32
    } else {
        words as u32
    };
    opcode.code() as u32 * 0x100_0000 + low
}

fn resolve_branch(labels: &Vec<Option<u32>>, patch: BranchPatch) -> (result: Result<u32, VmError>)
    ensures
        match result {
            Ok(word) => resolved_branch(labels@, patch.pending()) == Ok::<int, VmError>(
                word as int,
            ),
            Err(error) => resolved_branch(labels@, patch.pending()) == Err::<int, VmError>(error),
        },
{
    if patch.label.0 >= labels.len() {
        return Err(VmError::UnmarkedLabel);
    }
    let target: u32 = match labels[patch.label.0] {
        None => {
            return Err(VmError::UnmarkedLabel);
        },
        Some(target) => target,
    };
    let delta: i64 = target as i64 - patch.offset as i64;
    if delta % 4 != 0 {
        return Err(VmError::BranchNotAligned { from: patch.offset, to: target });
    }
    let words: i64 = delta / 4;
    if words < -0x40_0000 || words > 0x3f_ffff {
        return Err(VmError::BranchOutOfRange { from: patch.offset, to: target });
    }
    Ok(encode_instruction_branch(patch.opcode, words as i32))
}

/// A word that was written reads back.
pub proof fn law_word_reads_back(word: int)
    requires
        0 <= word < 0x1_0000_0000,
    ensures
        word_at(le32(word), 0) == word,
{
}

/// A branch word gives back the distance that it was made from.
pub proof fn law_branch_distance_reads_back(opcode: Opcode, distance: int)
    requires
        -0x40_0000 <= distance <= 0x3f_ffff,
    ensures
        branch_distance(branch_word(opcode, distance)) == distance,
        0 <= branch_word(opcode, distance) < 0x1_0000_0000,
        branch_word(opcode, distance) / 0x100_0000 == opcode.byte(),
{
}

/// The words that are still to be linked are aligned, behind the first word and
/// within the code, and the lists of them are in ascending order.
pub proof fn law_references_are_words_of_the_code(buffer: &VmBuffer, at: int)
    requires
        buffer@.valid(),
    ensures
        buffer@.bytes.len() % 4 == 0,
        0 <= at < buffer.variable_references@.len() ==> {
            let offset = buffer.variable_references@[at].offset;
            &&& 4 <= offset && offset % 4 == 0 && offset + 4 <= buffer@.bytes.len()
            &&& 0 < at ==> buffer.variable_references@[at - 1].offset < offset
        },
        0 <= at < buffer.function_references@.len() ==> {
            let offset = buffer.function_references@[at].offset;
            &&& 4 <= offset && offset % 4 == 0 && offset + 4 <= buffer@.bytes.len()
            &&& 0 < at ==> buffer.function_references@[at - 1].offset < offset
        },
        0 <= at < buffer.string_references@.len() ==> {
            let offset = buffer.string_references@[at].offset;
            &&& 4 <= offset && offset % 4 == 0 && offset + 4 <= buffer@.bytes.len()
            &&& 0 < at ==> buffer.string_references@[at - 1].offset < offset
        },
{
    let variables = variable_offsets(buffer@.variables);
    let functions = function_offsets(buffer@.functions);
    let strings = string_offsets(buffer@.strings);
    if 0 <= at < variables.len() {
        assert(variables[at] == buffer.variable_references@[at].offset);
        if 0 < at {
            assert(variables[at - 1] == buffer.variable_references@[at - 1].offset);
        }
    }
    if 0 <= at < functions.len() {
        assert(functions[at] == buffer.function_references@[at].offset);
        if 0 < at {
            assert(functions[at - 1] == buffer.function_references@[at - 1].offset);
        }
    }
    if 0 <= at < strings.len() {
        assert(strings[at] == buffer.string_references@[at].offset);
        if 0 < at {
            assert(strings[at - 1] == buffer.string_references@[at - 1].offset);
        }
    }
}

/// No branch of an instruction buffer is ever reported as unaligned.
pub proof fn law_branches_are_aligned(state: VmState, at: int)
    requires
        state.valid(),
        0 <= at < state.branches.len(),
    ensures
        !(resolved_branch(state.labels, state.branches[at]) matches Err(
            VmError::BranchNotAligned { .. },
        )),
{
    let branch = state.branches[at];
    if branch.label < state.labels.len() && state.labels[branch.label as int] is Some {
        let target = state.labels[branch.label as int]->0;
        assert(target % 4 == 0);
        assert(branch.offset % 4 == 0);
    }
}

/// Filling in branches keeps the length of the code and every byte that is not
/// part of a branch instruction.
pub proof fn law_resolving_keeps_other_bytes(state: VmState, count: nat, index: int)
    requires
        state.valid(),
        count <= state.branches.len(),
        0 <= index < state.bytes.len(),
        forall|k: int|
            0 <= k < count ==> !((#[trigger] state.branches[k]).offset <= index
                < state.branches[k].offset + 4),
    ensures
        with_branches(state.bytes, state.labels, state.branches, count).len() == state.bytes.len(),
        with_branches(state.bytes, state.labels, state.branches, count)[index]
            == state.bytes[index],
    decreases count,
{
    if count > 0 {
        law_resolving_keeps_other_bytes(state, (count - 1) as nat, index);
        let last = state.branches[count - 1];
        assert(!(last.offset <= index < last.offset + 4));
    }
}

proof fn lemma_with_branches_len(state: VmState, count: nat)
    requires
        state.valid(),
        count <= state.branches.len(),
    ensures
        with_branches(state.bytes, state.labels, state.branches, count).len() == state.bytes.len(),
    decreases count,
{
    if count > 0 {
        lemma_with_branches_len(state, (count - 1) as nat);
        let last = state.branches[count - 1];
        assert(last.offset + 4 <= state.bytes.len());
    }
}

/// Once the branches are filled in, each branch instruction holds the distance
/// in words from itself to its label.
#[verifier::spinoff_prover]
#[verifier::rlimit(60)]
pub proof fn law_resolved_branches_reach_their_labels(state: VmState, count: nat, at: int)
    requires
        state.valid(),
        count <= state.branches.len(),
        resolvable(state.labels, state.branches, count),
        0 <= at < count,
    ensures
        ({
            let bytes = with_branches(state.bytes, state.labels, state.branches, count);
            let branch = state.branches[at];
            let target = state.labels[branch.label as int]->0;
            &&& word_at(bytes, branch.offset as int) / 0x100_0000 == branch.opcode.byte()
            &&& branch.offset + 4 * branch_distance(word_at(bytes, branch.offset as int)) == target
        }),
    decreases count,
{
    let bytes = with_branches(state.bytes, state.labels, state.branches, count);
    let before = with_branches(state.bytes, state.labels, state.branches, (count - 1) as nat);
    lemma_with_branches_len(state, (count - 1) as nat);
    let last = state.branches[count - 1];
    let word = resolved_branch(state.labels, last)->Ok_0;
    assert(resolved_branch(state.labels, state.branches[count - 1]) is Ok);
    assert(last.offset + 4 <= state.bytes.len());
    if at == count - 1 {
        let target = state.labels[last.label as int]->0;
        law_branch_distance_reads_back(last.opcode, (target - last.offset) / 4);
        law_word_reads_back(word);
        assert(bytes[last.offset as int] == le32(word)[0]);
        assert(bytes[last.offset + 1] == le32(word)[1]);
        assert(bytes[last.offset + 2] == le32(word)[2]);
        assert(bytes[last.offset + 3] == le32(word)[3]);
        assert(word_at(bytes, last.offset as int) == word_at(le32(word), 0));
    } else {
        assert(resolvable(state.labels, state.branches, (count - 1) as nat));
        law_resolved_branches_reach_their_labels(state, (count - 1) as nat, at);
        let branch = state.branches[at];
        assert(branch.offset < last.offset);
        assert(branch.offset % 4 == 0 && last.offset % 4 == 0);
        assert(bytes[branch.offset as int] == before[branch.offset as int]);
        assert(bytes[branch.offset + 1] == before[branch.offset + 1]);
        assert(bytes[branch.offset + 2] == before[branch.offset + 2]);
        assert(bytes[branch.offset + 3] == before[branch.offset + 3]);
        assert(word_at(bytes, branch.offset as int) == word_at(before, branch.offset as int));
    }
}

} // verus!
