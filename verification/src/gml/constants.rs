//! The constants in the code of a unit: what names, enumerations and constant
//! expressions stand for.

use vstd::prelude::*;

use crate::gml::ast::{
    expr_trees, lemma_expr_trees, lemma_stmt_trees, stmt_trees, BinaryOp, EnumMember, Expr,
    ExprForm, ExprKind, ExprTree, Span, Stmt, StmtForm, StmtKind, StmtTree, UnaryOp, VarTree,
};
use crate::gml::{reports, Diagnostic, Report};
use crate::gml::floats::{integral, integral_value, to_i64, FloatOperation};
use crate::gml::folding::{
    binary_folding, complete, completed, computed_by, cut64, fold_binary, fold_function, fold_unary,
    folded_view, from_integer, function_folding, is_arithmetic, is_display, shown_by, unary_folding,
    Folded, FoldedConstant, Folding, FoldingView, Use,
};
use crate::gml::numbers::{
    bits_from, hexadecimal, hexadecimal_digits, integer_value, is_reader, look_up, parse_integer,
    read_by, read_double, read_integer, whole_value,
};
use crate::gml::semantic::{member_trees, AnalyzedUnit, NameBinding, NameResolution};
use crate::gml::spans::{
    expr_spanned, lemma_exprs_spanned, lemma_stmts_spanned, program_spanned, source_text, span_text,
    stmt_spanned, stmts_spanned, vars_spanned,
};
use crate::gml::symbols::{Builtins, SymbolId, SymbolTable, Symbols};
use crate::settings::CompileConstant;
use crate::text::{characters, same_text, spell, trim, trimmed};

verus! {

/// The value of a member of an enumeration.
#[derive(Debug, Clone, Copy, PartialEq, Eq, Structural)]
pub struct EnumValue {
    pub enum_symbol: SymbolId,
    pub member_index: usize,
    pub value: i64,
}

/// What the constants of a unit are made of: the names of the project and of
/// the unit, its code, the configured constants, what the runner defines, the
/// doubles that texts stand for, the values of enumerations, and what computes
/// with doubles and shows them.
pub struct Context {
    pub table: SymbolTable,
    pub names: Seq<NameResolution>,
    pub source: Seq<char>,
    pub constants: Seq<CompileConstant>,
    pub builtins: Builtins,
    pub numbers: spec_fn(Seq<char>) -> Option<u64>,
    pub values: Seq<EnumValue>,
    pub compute: spec_fn(FloatOperation, u64, u64) -> u64,
    pub shown: spec_fn(u64) -> Seq<char>,
}

/// The last of the first `count` names that stands at a place.
pub open spec fn name_at(names: Seq<NameResolution>, span: Span, count: int) -> Option<
    NameResolution,
>
    decreases count,
{
    if count <= 0 {
        None
    } else if names[count - 1].span.start == span.start && names[count - 1].span.end == span.end {
        Some(names[count - 1])
    } else {
        name_at(names, span, count - 1)
    }
}

/// The last of the first `count` values of a member.
pub open spec fn value_at(
    values: Seq<EnumValue>,
    enum_symbol: SymbolId,
    member_index: usize,
    count: int,
) -> Option<i64>
    decreases count,
{
    if count <= 0 {
        None
    } else if values[count - 1].enum_symbol == enum_symbol && values[count - 1].member_index
        == member_index {
        Some(values[count - 1].value)
    } else {
        value_at(values, enum_symbol, member_index, count - 1)
    }
}

/// Whether a list of texts holds one.
pub open spec fn lists(texts: Seq<String>, text: Seq<char>) -> bool {
    exists|k: int| 0 <= k < texts.len() && (#[trigger] texts[k])@ == text
}

/// A text without its quotes, if it stands between two.
pub open spec fn between_quotes(text: Seq<char>) -> Option<Seq<char>> {
    if text.len() >= 2 && (text[0] == '\'' || text[0] == '"') && (text.last() == '\''
        || text.last() == '"') {
        Some(text.subrange(1, text.len() - 1))
    } else {
        None
    }
}

/// Whether a text stands between two quotes of the same kind.
pub open spec fn is_quoted(text: Seq<char>) -> bool {
    text.len() > 0 && (text[0] == '"' && text.last() == '"' || text[0] == '\'' && text.last()
        == '\'')
}

impl Context {
    /// What a name stands for at a place.
    pub open spec fn resolution(self, span: Span) -> Option<NameResolution> {
        name_at(self.names, span, self.names.len() as int)
    }

    /// The name with a number; empty if there is none.
    pub open spec fn name(self, id: SymbolId) -> Seq<char> {
        if id.0 < self.table.names.len() {
            self.table.names[id.0 as int]
        } else {
            seq![]
        }
    }

    /// The text at a place.
    pub open spec fn text(self, span: Span) -> Seq<char> {
        span_text(self.source, span)
    }

    /// The value of a constant of the runner.
    pub open spec fn builtin(self, name: Seq<char>) -> Option<u64> {
        bits_from(self.builtins.constant_values@, name, 0)
    }

    /// The text of a configured constant; empty if there is none.
    pub open spec fn configured(self, index: usize) -> Seq<char> {
        if index < self.constants.len() {
            self.constants[index as int].value@
        } else {
            seq![]
        }
    }

    /// The value of a member of an enumeration.
    pub open spec fn enum_value(self, enum_symbol: SymbolId, member_index: usize) -> Option<i64> {
        value_at(self.values, enum_symbol, member_index, self.values.len() as int)
    }

    /// The whole number that a constant of the runner is.
    pub open spec fn whole_builtin(self, name: Seq<char>) -> Option<int> {
        match self.builtin(name) {
            Some(bits) => integral_value(bits),
            None => None,
        }
    }

    /// The whole number that a name stands for.
    pub open spec fn whole_binding(self, resolution: NameResolution) -> Option<int> {
        match resolution.binding {
            NameBinding::BuiltinConstant => self.whole_builtin(self.name(resolution.symbol)),
            NameBinding::ConfiguredConstant { index } => {
                let text = trimmed(self.configured(index));
                match whole_value(self.numbers, text) {
                    Some(value) => Some(value),
                    None => self.whole_builtin(text),
                }
            },
            NameBinding::Resource { index, .. } => whole_index(index),
            NameBinding::Script { index } => whole_index(index),
            NameBinding::RoomInstance { id } => Some(id as int),
            NameBinding::Enum { index } => whole_index(index),
            NameBinding::EnumMember { enum_symbol, member_index } => match self.enum_value(
                enum_symbol,
                member_index,
            ) {
                Some(value) => Some(value as int),
                None => None,
            },
            _ => None,
        }
    }

    /// The whole number that a place stands for.
    pub open spec fn whole_name(self, span: Span) -> Option<int> {
        match self.resolution(span) {
            Some(resolution) => self.whole_binding(resolution),
            None => None,
        }
    }

    /// The quotient of two whole numbers, computed with doubles and cut.
    pub open spec fn quotient(self, left: i64, right: i64) -> i64 {
        let first = (self.compute)(FloatOperation::FromInteger, left as u64, 0);
        let second = (self.compute)(FloatOperation::FromInteger, right as u64, 0);
        cut64((self.compute)(FloatOperation::Divide, first, second))
    }

    /// A binary operation on the whole numbers of an enumeration.
    pub open spec fn enum_binary(self, op: BinaryOp, left: i64, right: i64) -> Option<i64> {
        match op {
            BinaryOp::LogicalOr => Some(flag(left != 0 || right != 0)),
            BinaryOp::LogicalAnd => Some(flag(left != 0 && right != 0)),
            BinaryOp::LogicalXor => Some(flag((left != 0) != (right != 0))),
            BinaryOp::Equal => Some(flag(left == right)),
            BinaryOp::NotEqual => Some(flag(left != right)),
            BinaryOp::Less => Some(flag(left < right)),
            BinaryOp::LessEqual => Some(flag(left <= right)),
            BinaryOp::Greater => Some(flag(left > right)),
            BinaryOp::GreaterEqual => Some(flag(left >= right)),
            BinaryOp::BitOr => Some(left | right),
            BinaryOp::BitAnd => Some(left & right),
            BinaryOp::BitXor => Some(left ^ right),
            BinaryOp::ShiftLeft => Some(left.wrapping_shl((right & 63) as u32)),
            BinaryOp::ShiftRight => Some(left.wrapping_shr((right & 63) as u32)),
            BinaryOp::Add => Some(left.wrapping_add(right)),
            BinaryOp::Subtract => Some(left.wrapping_sub(right)),
            BinaryOp::Multiply => Some(left.wrapping_mul(right)),
            BinaryOp::Divide => if right == 0 {
                None
            } else {
                Some(self.quotient(left, right))
            },
            BinaryOp::IntegerDivide => left.checked_div(right),
            BinaryOp::Modulo => left.checked_rem(right),
        }
    }

    /// The whole number that the value of a member is.
    pub open spec fn enum_constant(self, value: ExprTree) -> Option<i64>
        decreases value,
    {
        match value.form {
            ExprForm::Number => as_i64(whole_value(self.numbers, self.text(value.span))),
            ExprForm::Group(inner) => self.enum_constant(*inner),
            ExprForm::Identifier => as_i64(self.whole_name(value.span)),
            ExprForm::Member { name, .. } => as_i64(self.whole_name(name)),
            ExprForm::Unary { op, value } => match self.enum_constant(*value) {
                None => None,
                Some(value) => match op {
                    UnaryOp::Positive => Some(value),
                    UnaryOp::Negative => Some(0i64.wrapping_sub(value)),
                    UnaryOp::Not => Some(flag(value == 0)),
                    UnaryOp::BitNot => Some(!value),
                    UnaryOp::PreIncrement => None,
                    UnaryOp::PreDecrement => None,
                },
            },
            ExprForm::Binary { op, left, right } => match (
                self.enum_constant(*left),
                self.enum_constant(*right),
            ) {
                (Some(left), Some(right)) => self.enum_binary(op, left, right),
                _ => None,
            },
            ExprForm::Conditional { condition, then_value, else_value } => match self.enum_constant(
                *condition,
            ) {
                None => None,
                Some(condition) => if condition != 0 {
                    self.enum_constant(*then_value)
                } else {
                    self.enum_constant(*else_value)
                },
            },
            _ => None,
        }
    }

    /// The constant that a number in the code stands for.
    pub open spec fn number_folding(self, text: Seq<char>) -> FoldingView {
        match hexadecimal(text) {
            Some(digits) => match integer_value(digits, 16) {
                Some(value) => from_integer(value as i64, false),
                None => FoldingView::Nothing,
            },
            None => match (self.numbers)(text) {
                Some(bits) => FoldingView::Constant(Folded::Number { bits, boolean: false }),
                None => FoldingView::Nothing,
            },
        }
    }

    /// The constant that the text of a configured constant stands for.
    pub open spec fn text_folding(self, text: Seq<char>) -> FoldingView {
        let inner = trimmed(text);
        if is_quoted(inner) {
            FoldingView::Constant(Folded::Text(unquoted_text(inner)))
        } else if hexadecimal(inner) is Some {
            self.number_folding(inner)
        } else {
            match (self.numbers)(inner) {
                Some(bits) => FoldingView::Constant(Folded::Number { bits, boolean: false }),
                None => match self.builtin(inner) {
                    Some(bits) => FoldingView::Constant(Folded::Number { bits, boolean: false }),
                    None => FoldingView::Nothing,
                },
            }
        }
    }

    /// The constant that a name stands for.
    pub open spec fn binding_folding(self, resolution: NameResolution) -> FoldingView {
        match resolution.binding {
            NameBinding::BuiltinConstant => {
                let name = self.name(resolution.symbol);
                if name == "self"@ || name == "other"@ {
                    FoldingView::Nothing
                } else {
                    match self.builtin(name) {
                        Some(bits) => FoldingView::Constant(
                            Folded::Number { bits, boolean: false },
                        ),
                        None => FoldingView::Nothing,
                    }
                }
            },
            NameBinding::ConfiguredConstant { index } => self.text_folding(self.configured(index)),
            NameBinding::Resource { index, .. } => from_integer(index as i64, false),
            NameBinding::Script { index } => from_integer(index as i64, false),
            NameBinding::RoomInstance { id } => from_integer(id as i64, false),
            NameBinding::Enum { index } => from_integer(index as i64, false),
            NameBinding::EnumMember { enum_symbol, member_index } => match self.enum_value(
                enum_symbol,
                member_index,
            ) {
                Some(value) => from_integer(value, false),
                None => FoldingView::Nothing,
            },
            _ => FoldingView::Nothing,
        }
    }

    /// The constant that a folding leads to.
    pub open spec fn done(self, folding: FoldingView) -> Option<Folded> {
        completed(folding, self.compute)
    }

    /// The constant that an expression stands for.
    pub open spec fn folded(self, value: ExprTree) -> Option<Folded>
        decreases value,
    {
        match value.form {
            ExprForm::Number => self.done(self.number_folding(self.text(value.span))),
            ExprForm::String => match between_quotes(self.text(value.span)) {
                Some(text) => Some(Folded::Text(text)),
                None => None,
            },
            ExprForm::Group(inner) => self.folded(*inner),
            ExprForm::Identifier => match self.resolution(value.span) {
                Some(resolution) => self.done(self.binding_folding(resolution)),
                None => None,
            },
            ExprForm::Member { name, .. } => match self.resolution(name) {
                Some(resolution) => if resolution.binding is EnumMember {
                    self.done(self.binding_folding(resolution))
                } else {
                    None
                },
                None => None,
            },
            ExprForm::Unary { op, value } => match self.folded(*value) {
                Some(value) => self.done(unary_folding(op, value)),
                None => None,
            },
            ExprForm::Binary { op, left, right } => match (self.folded(*left), self.folded(*right)) {
                (Some(left), Some(right)) => self.done(binary_folding(op, left, right)),
                _ => None,
            },
            ExprForm::Call { callee, arguments } => if callee.form is Identifier && arguments.len()
                == 1 {
                match self.folded(arguments[0]) {
                    Some(argument) => self.done(
                        function_folding(
                            self.text(callee.span),
                            argument,
                            self.numbers,
                            self.shown,
                        ),
                    ),
                    None => None,
                }
            } else {
                None
            },
            _ => None,
        }
    }
}

/// A truth value as a whole number.
pub open spec fn flag(value: bool) -> i64 {
    if value {
        1
    } else {
        0
    }
}

/// A number within 64 bits.
pub open spec fn as_i64(value: Option<int>) -> Option<i64> {
    match value {
        Some(value) => Some(value as i64),
        None => None,
    }
}

/// An index as a whole number of 64 bits.
pub open spec fn whole_index(index: usize) -> Option<int> {
    if index <= i64::MAX {
        Some(index as int)
    } else {
        None
    }
}

/// A text without its first and last character; empty if there are not two.
pub open spec fn unquoted_text(text: Seq<char>) -> Seq<char> {
    if text.len() >= 2 {
        text.subrange(1, text.len() - 1)
    } else {
        seq![]
    }
}

/// What the constants of a unit are made of.
pub struct Constants<
    'a,
    A: Fn(FloatOperation, u64, u64) -> u64,
    D: Fn(u64) -> String,
    P: Fn(&str) -> Option<u64>,
> {
    pub symbols: &'a Symbols,
    pub unit: &'a AnalyzedUnit,
    pub constants: &'a Vec<CompileConstant>,
    pub builtins: &'a Builtins,
    pub read: &'a P,
    pub values: &'a Vec<EnumValue>,
    pub compute: &'a A,
    pub show: &'a D,
}

/// Returns whether a list of texts holds one.
pub fn listed(texts: &Vec<String>, text: &str) -> (result: bool)
    ensures
        result == lists(texts@, text@),
{
    let mut index: usize = 0;
    while index < texts.len()
        invariant
            index <= texts.len(),
            forall|k: int| 0 <= k < index ==> (#[trigger] texts@[k])@ != text@,
        decreases texts.len() - index,
    {
        if same_text(texts[index].as_str(), text) {
            assert(texts@[index as int]@ == text@);
            return true;
        }
        index += 1;
    }
    false
}

fn truth_flag(value: bool) -> (result: i64)
    ensures
        result == flag(value),
{
    if value {
        1
    } else {
        0
    }
}

fn index_value(index: usize) -> (value: Option<i64>)
    ensures
        match value {
            Some(value) => whole_index(index) == Some(value as int),
            None => whole_index(index) is None,
        },
{
    if index as u64 <= i64::MAX as u64 {
        Some(index as i64)
    } else {
        None
    }
}

/// Returns a text without its quotes, if it stands between two.
pub fn strip_quotes(text: &str) -> (result: Option<String>)
    ensures
        match result {
            Some(result) => between_quotes(text@) == Some(result@),
            None => between_quotes(text@) is None,
        },
{
    let letters = characters(text);
    let count = letters.len();
    if count >= 2 && (letters[0] == '\'' || letters[0] == '"') && (letters[count - 1] == '\''
        || letters[count - 1] == '"') {
        Some(spell(vstd::slice::slice_subrange(letters.as_slice(), 1, count - 1)))
    } else {
        None
    }
}

/// Returns what a text holds between two quotes of the same kind.
pub fn quoted_text(text: &str) -> (result: Option<String>)
    ensures
        match result {
            Some(result) => is_quoted(text@) && unquoted_text(text@) == result@,
            None => !is_quoted(text@),
        },
{
    let letters = characters(text);
    let count = letters.len();
    if count > 0 && (letters[0] == '"' && letters[count - 1] == '"' || letters[0] == '\''
        && letters[count - 1] == '\'') {
        if count >= 2 {
            Some(spell(vstd::slice::slice_subrange(letters.as_slice(), 1, count - 1)))
        } else {
            let empty = String::new();
            assert(empty@ =~= unquoted_text(text@));
            Some(empty)
        }
    } else {
        None
    }
}

fn number_constant(bits: Option<u64>) -> (folding: Folding)
    ensures
        folding@ == match bits {
            Some(bits) => FoldingView::Constant(Folded::Number { bits, boolean: false }),
            None => FoldingView::Nothing,
        },
{
    match bits {
        Some(bits) => Folding::Constant(FoldedConstant::Number { bits, boolean: false }),
        None => Folding::Nothing,
    }
}

fn integer_constant(value: i64) -> (folding: Folding)
    ensures
        folding@ == from_integer(value, false),
{
    Folding::Float {
        operation: FloatOperation::FromInteger,
        left: value as u64,
        right: 0,
        purpose: Use::Number { boolean: false },
    }
}

impl<
    'a,
    A: Fn(FloatOperation, u64, u64) -> u64,
    D: Fn(u64) -> String,
    P: Fn(&str) -> Option<u64>,
> Constants<'a, A, D, P> {
    /// What the constants are made of.
    pub open spec fn context(&self) -> Context {
        Context {
            table: self.symbols@,
            names: self.unit.names@,
            source: self.unit.code@,
            constants: self.constants@,
            builtins: *self.builtins,
            numbers: read_by(*self.read),
            values: self.values@,
            compute: computed_by(*self.compute),
            shown: shown_by(*self.show),
        }
    }

    /// Whether doubles are computed with and shown in one way.
    pub open spec fn valid(&self) -> bool {
        is_arithmetic(*self.compute) && is_display(*self.show) && is_reader(*self.read)
    }

    /// Returns what a name stands for at a place.
    pub fn resolution(&self, span: Span) -> (resolution: Option<NameResolution>)
        ensures
            resolution == self.context().resolution(span),
    {
        let mut count: usize = self.unit.names.len();
        while count > 0
            invariant
                count <= self.unit.names.len(),
                self.context().resolution(span) == name_at(self.unit.names@, span, count as int),
            decreases count,
        {
            let name = self.unit.names[count - 1];
            if name.span.start == span.start && name.span.end == span.end {
                return Some(name);
            }
            count -= 1;
        }
        None
    }

    /// Returns the name with a number.
    pub fn name(&self, id: SymbolId) -> (name: &'a str)
        ensures
            name@ == self.context().name(id),
    {
        if id.0 < self.symbols.len() {
            self.symbols.name(id)
        } else {
            proof {
                reveal_strlit("");
                assert(""@ =~= self.context().name(id));
            }
            ""
        }
    }

    pub(crate) fn configured(&self, index: usize) -> (text: &'a str)
        ensures
            text@ == self.context().configured(index),
    {
        if index < self.constants.len() {
            self.constants[index].value.as_str()
        } else {
            proof {
                reveal_strlit("");
                assert(""@ =~= self.context().configured(index));
            }
            ""
        }
    }

    /// Returns the value of a constant of the runner.
    pub fn builtin(&self, name: &str) -> (bits: Option<u64>)
        ensures
            bits == self.context().builtin(name@),
    {
        look_up(self.builtins.constant_values.as_slice(), name)
    }

    /// Returns the value of a member of an enumeration.
    pub fn enum_value(&self, enum_symbol: SymbolId, member_index: usize) -> (value: Option<i64>)
        ensures
            value == self.context().enum_value(enum_symbol, member_index),
    {
        let mut count: usize = self.values.len();
        while count > 0
            invariant
                count <= self.values.len(),
                self.context().enum_value(enum_symbol, member_index) == value_at(
                    self.values@,
                    enum_symbol,
                    member_index,
                    count as int,
                ),
            decreases count,
        {
            let entry = self.values[count - 1];
            if entry.enum_symbol == enum_symbol && entry.member_index == member_index {
                return Some(entry.value);
            }
            count -= 1;
        }
        None
    }

    fn whole_builtin(&self, name: &str) -> (value: Option<i64>)
        ensures
            value == as_i64(self.context().whole_builtin(name@)),
    {
        match self.builtin(name) {
            Some(bits) => integral(bits),
            None => None,
        }
    }

    fn whole_binding(&self, resolution: NameResolution) -> (value: Option<i64>)
        requires
            self.valid(),
        ensures
            value == as_i64(self.context().whole_binding(resolution)),
    {
        match resolution.binding {
            NameBinding::BuiltinConstant => self.whole_builtin(self.name(resolution.symbol)),
            NameBinding::ConfiguredConstant { index } => {
                let text = trim(self.configured(index));
                match parse_integer(self.read, text.as_str()) {
                    Some(value) => Some(value),
                    None => self.whole_builtin(text.as_str()),
                }
            },
            NameBinding::Resource { index, .. } => index_value(index),
            NameBinding::Script { index } => index_value(index),
            NameBinding::RoomInstance { id } => Some(id as i64),
            NameBinding::Enum { index } => index_value(index),
            NameBinding::EnumMember { enum_symbol, member_index } => self.enum_value(
                enum_symbol,
                member_index,
            ),
            _ => None,
        }
    }

    fn whole_name(&self, span: Span) -> (value: Option<i64>)
        requires
            self.valid(),
        ensures
            value == as_i64(self.context().whole_name(span)),
    {
        match self.resolution(span) {
            Some(resolution) => self.whole_binding(resolution),
            None => None,
        }
    }

    fn enum_binary(&self, op: BinaryOp, left: i64, right: i64) -> (value: Option<i64>)
        requires
            self.valid(),
        ensures
            value == self.context().enum_binary(op, left, right),
    {
        match op {
            BinaryOp::LogicalOr => Some(truth_flag(left != 0 || right != 0)),
            BinaryOp::LogicalAnd => Some(truth_flag(left != 0 && right != 0)),
            BinaryOp::LogicalXor => Some(truth_flag((left != 0) != (right != 0))),
            BinaryOp::Equal => Some(truth_flag(left == right)),
            BinaryOp::NotEqual => Some(truth_flag(left != right)),
            BinaryOp::Less => Some(truth_flag(left < right)),
            BinaryOp::LessEqual => Some(truth_flag(left <= right)),
            BinaryOp::Greater => Some(truth_flag(left > right)),
            BinaryOp::GreaterEqual => Some(truth_flag(left >= right)),
            BinaryOp::BitOr => Some(left | right),
            BinaryOp::BitAnd => Some(left & right),
            BinaryOp::BitXor => Some(left ^ right),
            BinaryOp::ShiftLeft => Some(left.wrapping_shl((right & 63) as u32)),
            BinaryOp::ShiftRight => Some(left.wrapping_shr((right & 63) as u32)),
            BinaryOp::Add => Some(left.wrapping_add(right)),
            BinaryOp::Subtract => Some(left.wrapping_sub(right)),
            BinaryOp::Multiply => Some(left.wrapping_mul(right)),
            BinaryOp::Divide => if right == 0 {
                None
            } else {
                let compute = self.compute;
                let first = compute(FloatOperation::FromInteger, left as u64, 0);
                let second = compute(FloatOperation::FromInteger, right as u64, 0);
                Some(to_i64(compute(FloatOperation::Divide, first, second)))
            },
            BinaryOp::IntegerDivide => left.checked_div(right),
            BinaryOp::Modulo => left.checked_rem(right),
        }
    }

    /// Returns the whole number that the value of a member is.
    pub fn enum_constant(&self, expression: &Expr) -> (value: Option<i64>)
        requires
            self.valid(),
            expr_spanned(self.unit.code@, expression.tree()),
        ensures
            value == self.context().enum_constant(expression.tree()),
        decreases expression,
    {
        match &expression.kind {
            ExprKind::Number => parse_integer(
                self.read,
                source_text(self.unit.code.as_str(), expression.span),
            ),
            ExprKind::Group(value) => self.enum_constant(value),
            ExprKind::Identifier => self.whole_name(expression.span),
            ExprKind::Member { name, .. } => self.whole_name(*name),
            ExprKind::Unary { op, value } => match self.enum_constant(value) {
                None => None,
                Some(value) => match op {
                    UnaryOp::Positive => Some(value),
                    UnaryOp::Negative => Some(0i64.wrapping_sub(value)),
                    UnaryOp::Not => Some(truth_flag(value == 0)),
                    UnaryOp::BitNot => Some(!value),
                    UnaryOp::PreIncrement => None,
                    UnaryOp::PreDecrement => None,
                },
            },
            ExprKind::Binary { op, left, right } => match (
                self.enum_constant(left),
                self.enum_constant(right),
            ) {
                (Some(left), Some(right)) => self.enum_binary(*op, left, right),
                _ => None,
            },
            ExprKind::Conditional { condition, then_value, else_value } => match self.enum_constant(
                condition,
            ) {
                None => None,
                Some(condition) => if condition != 0 {
                    self.enum_constant(then_value)
                } else {
                    self.enum_constant(else_value)
                },
            },
            _ => None,
        }
    }

    fn fold_number(&self, text: &str) -> (folding: Folding)
        requires
            self.valid(),
        ensures
            folding@ == self.context().number_folding(text@),
    {
        let letters = characters(text);
        match hexadecimal_digits(letters.as_slice()) {
            Some(digits) => match read_integer(digits, 16) {
                Some(value) => integer_constant(value),
                None => Folding::Nothing,
            },
            None => number_constant(read_double(self.read, text)),
        }
    }

    fn fold_text(&self, text: &str) -> (folding: Folding)
        requires
            self.valid(),
        ensures
            folding@ == self.context().text_folding(text@),
    {
        let inner = trim(text);
        if let Some(value) = quoted_text(inner.as_str()) {
            return Folding::Constant(FoldedConstant::Text(value));
        }
        let letters = characters(inner.as_str());
        if hexadecimal_digits(letters.as_slice()).is_some() {
            return self.fold_number(inner.as_str());
        }
        match read_double(self.read, inner.as_str()) {
            Some(bits) => number_constant(Some(bits)),
            None => number_constant(self.builtin(inner.as_str())),
        }
    }

    fn fold_binding(&self, resolution: NameResolution) -> (folding: Folding)
        requires
            self.valid(),
        ensures
            folding@ == self.context().binding_folding(resolution),
    {
        match resolution.binding {
            NameBinding::BuiltinConstant => {
                let name = self.name(resolution.symbol);
                if same_text(name, "self") || same_text(name, "other") {
                    Folding::Nothing
                } else {
                    number_constant(self.builtin(name))
                }
            },
            NameBinding::ConfiguredConstant { index } => self.fold_text(self.configured(index)),
            NameBinding::Resource { index, .. } => integer_constant(index as i64),
            NameBinding::Script { index } => integer_constant(index as i64),
            NameBinding::RoomInstance { id } => integer_constant(id as i64),
            NameBinding::Enum { index } => integer_constant(index as i64),
            NameBinding::EnumMember { enum_symbol, member_index } => match self.enum_value(
                enum_symbol,
                member_index,
            ) {
                Some(value) => integer_constant(value),
                None => Folding::Nothing,
            },
            _ => Folding::Nothing,
        }
    }

    /// Returns the constant that an expression stands for.
    pub fn fold_constant(&self, expression: &Expr) -> (value: Option<FoldedConstant>)
        requires
            self.valid(),
            expr_spanned(self.unit.code@, expression.tree()),
        ensures
            folded_view(value) == self.context().folded(expression.tree()),
        decreases expression,
    {
        match &expression.kind {
            ExprKind::Number => complete(
                self.fold_number(source_text(self.unit.code.as_str(), expression.span)),
                self.compute,
            ),
            ExprKind::String => match strip_quotes(
                source_text(self.unit.code.as_str(), expression.span),
            ) {
                Some(text) => Some(FoldedConstant::Text(text)),
                None => None,
            },
            ExprKind::Group(value) => self.fold_constant(value),
            ExprKind::Identifier => match self.resolution(expression.span) {
                Some(resolution) => complete(self.fold_binding(resolution), self.compute),
                None => None,
            },
            ExprKind::Member { name, .. } => match self.resolution(*name) {
                Some(resolution) => match resolution.binding {
                    NameBinding::EnumMember { .. } => complete(
                        self.fold_binding(resolution),
                        self.compute,
                    ),
                    _ => None,
                },
                None => None,
            },
            ExprKind::Unary { op, value } => match self.fold_constant(value) {
                Some(value) => complete(fold_unary(*op, value), self.compute),
                None => None,
            },
            ExprKind::Binary { op, left, right } => match (
                self.fold_constant(left),
                self.fold_constant(right),
            ) {
                (Some(left), Some(right)) => complete(fold_binary(*op, left, right), self.compute),
                _ => None,
            },
            ExprKind::Call { callee, arguments } => {
                proof {
                    lemma_expr_trees(arguments@);
                }
                if !is_identifier(callee) || arguments.len() != 1 {
                    return None;
                }
                proof {
                    lemma_exprs_spanned(self.unit.code@, expr_trees(arguments@));
                    assert(expr_spanned(self.unit.code@, callee.tree()));
                    assert(expr_trees(arguments@)[0] == arguments@[0].tree());
                    assert(decreases_to!(arguments => arguments@[0]));
                }
                match self.fold_constant(&arguments[0]) {
                    Some(argument) => complete(
                        fold_function(
                            source_text(self.unit.code.as_str(), callee.span),
                            argument,
                            self.read,
                            self.show,
                        ),
                        self.compute,
                    ),
                    None => None,
                }
            },
            _ => None,
        }
    }
}

/// Returns whether an expression is a name.
pub fn is_identifier(expression: &Expr) -> (result: bool)
    ensures
        result == (expression.tree().form is Identifier),
{
    match &expression.kind {
        ExprKind::Identifier => true,
        _ => false,
    }
}

/// What is collected of the enumerations: the values of their members, and
/// what is wrong.
pub struct Collected {
    pub values: Seq<EnumValue>,
    pub errors: Seq<Report>,
}

impl Collected {
    /// What is collected with another error.
    pub open spec fn with_error(self, span: Span, message: Seq<char>) -> Collected {
        Collected { errors: self.errors.push(Report { message, span }), ..self }
    }
}

/// What is collected with a member of an enumeration, and the value of the next
/// member without one.
pub open spec fn with_member(
    state: Collected,
    next: i64,
    context: Context,
    enum_symbol: SymbolId,
    member: VarTree,
) -> (Collected, i64) {
    let current = Context { values: state.values, ..context };
    let given = match member.value {
        Some(value) => match current.enum_constant(value) {
            Some(value) => Ok(value),
            None => Err(value.span),
        },
        None => Ok(next),
    };
    match given {
        Err(span) => (
            state.with_error(span, "enum expression must be an integer constant"@),
            next,
        ),
        Ok(value) => match context.resolution(member.name) {
            None => (
                state.with_error(member.name, "missing semantic resolution for enum member"@),
                value,
            ),
            Some(resolution) => match resolution.binding {
                NameBinding::EnumMember { member_index, .. } => (
                    Collected {
                        values: state.values.push(EnumValue { enum_symbol, member_index, value }),
                        ..state
                    },
                    value.wrapping_add(1),
                ),
                _ => (
                    state.with_error(member.name, "enum member has an invalid semantic binding"@),
                    value,
                ),
            },
        },
    }
}

/// What is collected with the members of an enumeration, and the value of the
/// next member without one.
pub open spec fn with_members(
    state: Collected,
    context: Context,
    enum_symbol: SymbolId,
    members: Seq<VarTree>,
) -> (Collected, i64)
    decreases members.len(),
{
    if members.len() == 0 {
        (state, 0)
    } else {
        let (before, next) = with_members(state, context, enum_symbol, members.drop_last());
        with_member(before, next, context, enum_symbol, members.last())
    }
}

/// What is collected with a statement.
pub open spec fn with_stmt(state: Collected, context: Context, statement: StmtTree) -> Collected
    decreases statement,
{
    match statement.form {
        StmtForm::Block(statements) => with_stmts(state, context, statements),
        StmtForm::If { then_branch, else_branch, .. } => {
            let after = with_stmt(state, context, *then_branch);
            match else_branch {
                Some(branch) => with_stmt(after, context, *branch),
                None => after,
            }
        },
        StmtForm::While { body, .. } => with_stmt(state, context, *body),
        StmtForm::DoUntil { body, .. } => with_stmt(state, context, *body),
        StmtForm::Repeat { body, .. } => with_stmt(state, context, *body),
        StmtForm::With { body, .. } => with_stmt(state, context, *body),
        StmtForm::Switch { body, .. } => with_stmt(state, context, *body),
        StmtForm::For { initializer, body, .. } => {
            let before = match initializer {
                Some(initializer) => with_stmt(state, context, *initializer),
                None => state,
            };
            with_stmt(before, context, *body)
        },
        StmtForm::Enum { name, members } => match context.resolution(name) {
            Some(resolution) => with_members(state, context, resolution.symbol, members).0,
            None => state.with_error(name, "missing semantic resolution for enum declaration"@),
        },
        _ => state,
    }
}

/// What is collected with a list of statements.
pub open spec fn with_stmts(
    state: Collected,
    context: Context,
    statements: Seq<StmtTree>,
) -> Collected
    decreases statements,
{
    if statements.len() == 0 {
        state
    } else {
        with_stmt(with_stmts(state, context, statements.drop_last()), context, statements.last())
    }
}

/// Collects the values of the enumerations of a unit.
pub struct EnumCollector<
    'a,
    A: Fn(FloatOperation, u64, u64) -> u64,
    D: Fn(u64) -> String,
    P: Fn(&str) -> Option<u64>,
> {
    pub symbols: &'a Symbols,
    pub unit: &'a AnalyzedUnit,
    pub constants: &'a Vec<CompileConstant>,
    pub builtins: &'a Builtins,
    pub read: &'a P,
    pub compute: &'a A,
    pub show: &'a D,
    pub values: Vec<EnumValue>,
    pub errors: Vec<Diagnostic>,
}

impl<
    'a,
    A: Fn(FloatOperation, u64, u64) -> u64,
    D: Fn(u64) -> String,
    P: Fn(&str) -> Option<u64>,
> EnumCollector<'a, A, D, P> {
    /// What the constants of the unit are made of.
    pub open spec fn context(&self) -> Context {
        Context {
            table: self.symbols@,
            names: self.unit.names@,
            source: self.unit.code@,
            constants: self.constants@,
            builtins: *self.builtins,
            numbers: read_by(*self.read),
            values: self.values@,
            compute: computed_by(*self.compute),
            shown: shown_by(*self.show),
        }
    }

    /// What is collected.
    pub open spec fn state(&self) -> Collected {
        Collected { values: self.values@, errors: reports(self.errors@) }
    }

    /// Whether doubles are computed with and shown in one way.
    pub open spec fn valid(&self) -> bool {
        is_arithmetic(*self.compute) && is_display(*self.show) && is_reader(*self.read)
    }

    /// Whether this collector went on from another.
    pub open spec fn follows(&self, from: &Self) -> bool {
        &&& self.symbols == from.symbols
        &&& self.unit == from.unit
        &&& self.constants == from.constants
        &&& self.builtins == from.builtins
        &&& self.read == from.read
        &&& self.compute == from.compute
        &&& self.show == from.show
    }

    fn error(&mut self, span: Span, message: &str)
        ensures
            final(self).follows(old(self)),
            final(self).state() == old(self).state().with_error(span, message@),
    {
        let diagnostic = Diagnostic::new(message, span);
        let ghost before = self.errors@;
        self.errors.push(diagnostic);
        assert(reports(self.errors@) =~= reports(before).push(diagnostic@));
    }

    fn resolution(&self, span: Span) -> (resolution: Option<NameResolution>)
        ensures
            resolution == self.context().resolution(span),
    {
        let constants = Constants {
            symbols: self.symbols,
            unit: self.unit,
            constants: self.constants,
            builtins: self.builtins,
            read: self.read,
            values: &self.values,
            compute: self.compute,
            show: self.show,
        };
        constants.resolution(span)
    }

    fn constant(&self, expression: &Expr) -> (value: Option<i64>)
        requires
            self.valid(),
            expr_spanned(self.unit.code@, expression.tree()),
        ensures
            value == self.context().enum_constant(expression.tree()),
    {
        let constants = Constants {
            symbols: self.symbols,
            unit: self.unit,
            constants: self.constants,
            builtins: self.builtins,
            read: self.read,
            values: &self.values,
            compute: self.compute,
            show: self.show,
        };
        constants.enum_constant(expression)
    }

    fn member(
        &mut self,
        enum_symbol: SymbolId,
        member: &EnumMember,
        next: i64,
        Ghost(context): Ghost<Context>,
    ) -> (after: i64)
        requires
            old(self).valid(),
            old(self).serves(context),
            crate::gml::spans::option_spanned(old(self).unit.code@, member.tree().value),
        ensures
            final(self).follows(old(self)),
            final(self).serves(context),
            (final(self).state(), after) == with_member(
                old(self).state(),
                next,
                context,
                enum_symbol,
                member.tree(),
            ),
    {
        let value = match &member.value {
            Some(expression) => match self.constant(expression) {
                Some(value) => value,
                None => {
                    self.error(expression.span, "enum expression must be an integer constant");
                    return next;
                },
            },
            None => next,
        };
        let resolution = match self.resolution(member.name) {
            Some(resolution) => resolution,
            None => {
                self.error(member.name, "missing semantic resolution for enum member");
                return value;
            },
        };
        match resolution.binding {
            NameBinding::EnumMember { member_index, .. } => {
                self.values.push(EnumValue { enum_symbol, member_index, value });
                value.wrapping_add(1)
            },
            _ => {
                self.error(member.name, "enum member has an invalid semantic binding");
                value
            },
        }
    }

    /// Whether this collector is for a context, whatever values are collected.
    pub open spec fn serves(&self, context: Context) -> bool {
        self.context() == (Context { values: self.values@, ..context })
    }

    fn members(
        &mut self,
        enum_symbol: SymbolId,
        members: &Vec<EnumMember>,
        Ghost(context): Ghost<Context>,
    )
        requires
            old(self).valid(),
            old(self).serves(context),
            vars_spanned(old(self).unit.code@, member_trees(members@)),
        ensures
            final(self).follows(old(self)),
            final(self).serves(context),
            final(self).state() == with_members(
                old(self).state(),
                context,
                enum_symbol,
                member_trees(members@),
            ).0,
    {
        let ghost begin = self.state();
        let ghost trees = member_trees(members@);
        let mut next: i64 = 0;
        let mut index: usize = 0;
        while index < members.len()
            invariant
                index <= members.len(),
                self.follows(old(self)),
                self.valid(),
                self.serves(context),
                trees == member_trees(members@),
                vars_spanned(old(self).unit.code@, trees),
                (self.state(), next) == with_members(
                    begin,
                    context,
                    enum_symbol,
                    trees.take(index as int),
                ),
            decreases members.len() - index,
        {
            proof {
                assert(trees[index as int] == members@[index as int].tree());
                assert(trees.take(index + 1).drop_last() =~= trees.take(index as int));
            }
            next = self.member(enum_symbol, &members[index], next, Ghost(context));
            index += 1;
        }
        assert(trees.take(index as int) =~= trees);
    }

    fn statement(&mut self, statement: &Stmt, Ghost(context): Ghost<Context>)
        requires
            old(self).valid(),
            old(self).serves(context),
            stmt_spanned(old(self).unit.code@, statement.tree()),
        ensures
            final(self).follows(old(self)),
            final(self).serves(context),
            final(self).state() == with_stmt(old(self).state(), context, statement.tree()),
        decreases statement,
    {
        match &statement.kind {
            StmtKind::Block(statements) => self.statements(statements, Ghost(context)),
            StmtKind::If { then_branch, else_branch, .. } => {
                self.statement(then_branch, Ghost(context));
                if let Some(branch) = else_branch {
                    self.statement(branch, Ghost(context));
                }
            },
            StmtKind::While { body, .. } => self.statement(body, Ghost(context)),
            StmtKind::DoUntil { body, .. } => self.statement(body, Ghost(context)),
            StmtKind::Repeat { body, .. } => self.statement(body, Ghost(context)),
            StmtKind::With { body, .. } => self.statement(body, Ghost(context)),
            StmtKind::Switch { body, .. } => self.statement(body, Ghost(context)),
            StmtKind::For { initializer, body, .. } => {
                if let Some(initializer) = initializer {
                    self.statement(initializer, Ghost(context));
                }
                self.statement(body, Ghost(context));
            },
            StmtKind::Enum { name, members } => match self.resolution(*name) {
                Some(resolution) => self.members(resolution.symbol, members, Ghost(context)),
                None => self.error(*name, "missing semantic resolution for enum declaration"),
            },
            _ => {},
        }
    }

    fn statements(&mut self, statements: &Vec<Stmt>, Ghost(context): Ghost<Context>)
        requires
            old(self).valid(),
            old(self).serves(context),
            stmts_spanned(old(self).unit.code@, stmt_trees(statements@)),
        ensures
            final(self).follows(old(self)),
            final(self).serves(context),
            final(self).state() == with_stmts(
                old(self).state(),
                context,
                stmt_trees(statements@),
            ),
        decreases statements,
    {
        let ghost begin = self.state();
        let ghost source = self.unit.code@;
        let ghost trees = stmt_trees(statements@);
        proof {
            lemma_stmt_trees(statements@);
            lemma_stmts_spanned(source, trees);
        }
        let mut index: usize = 0;
        while index < statements.len()
            invariant
                index <= statements.len(),
                self.follows(old(self)),
                self.valid(),
                self.serves(context),
                source == self.unit.code@,
                trees.len() == statements@.len(),
                forall|k: int|
                    0 <= k < statements@.len() ==> (#[trigger] trees[k]) == statements@[k].tree(),
                forall|k: int|
                    0 <= k < trees.len() ==> stmt_spanned(source, #[trigger] trees[k]),
                self.state() == with_stmts(begin, context, trees.take(index as int)),
            decreases statements.len() - index,
        {
            proof {
                assert(decreases_to!(statements => statements@[index as int]));
                assert(trees[index as int] == statements@[index as int].tree());
                assert(trees.take(index + 1).drop_last() =~= trees.take(index as int));
            }
            self.statement(&statements[index], Ghost(context));
            index += 1;
        }
        assert(trees.take(index as int) =~= trees);
    }

    /// Collects the values of the enumerations of the unit.
    pub fn run(&mut self)
        requires
            old(self).valid(),
            program_spanned(old(self).unit.code@, old(self).unit.program.tree()),
        ensures
            final(self).follows(old(self)),
            final(self).state() == with_stmts(
                old(self).state(),
                old(self).context(),
                old(self).unit.program.tree().statements,
            ),
    {
        let unit = self.unit;
        let ghost context = self.context();
        self.statements(&unit.program.statements, Ghost(context));
    }
}

} // verus!
