//! Folding: the values of constant expressions. Computing with doubles is left
//! to a function that the caller hands in; which operations are called for,
//! and all that is made of their results, is decided here.

use vstd::prelude::*;

use crate::gml::ast::{BinaryOp, UnaryOp};
use crate::gml::floats::{
    finite, half_or_more, is_finite, is_half_or_more, is_negative, is_positive, is_zero, negate,
    negated, negative, positive, to_i32, to_i64, truncated, zero, FloatOperation, ONE,
};
use crate::gml::numbers::{is_reader, read_by, read_double};
use crate::text::{characters, same_text, signed_decimal, signed_digits};

verus! {

/// The value of a constant expression. A number is a double, given by its
/// bits.
#[derive(Debug, Clone, PartialEq, Eq)]
pub enum FoldedConstant {
    Number { bits: u64, boolean: bool },
    Int64(i64),
    Text(String),
}

/// A [`FoldedConstant`] with its text as a sequence of characters.
pub enum Folded {
    Number { bits: u64, boolean: bool },
    Int64(i64),
    Text(Seq<char>),
}

impl View for FoldedConstant {
    type V = Folded;

    open spec fn view(&self) -> Folded {
        match self {
            FoldedConstant::Number { bits, boolean } => Folded::Number {
                bits: *bits,
                boolean: *boolean,
            },
            FoldedConstant::Int64(value) => Folded::Int64(*value),
            FoldedConstant::Text(text) => Folded::Text(text@),
        }
    }
}

/// What an optional constant stands for.
pub open spec fn folded_view(value: Option<FoldedConstant>) -> Option<Folded> {
    match value {
        Some(value) => Some(value@),
        None => None,
    }
}

/// What is made of the result of an operation on doubles: a number, the answer
/// of a comparison of the result with zero, or a 64-bit number.
#[derive(Debug, Clone, Copy, PartialEq, Eq, Structural)]
pub enum Use {
    Number { boolean: bool },
    Comparison { op: BinaryOp },
    Integer,
}

/// How a constant is folded: not at all, to a constant, or to what is made of
/// the result of an operation on doubles.
#[derive(Debug, Clone, PartialEq, Eq)]
pub enum Folding {
    Nothing,
    Constant(FoldedConstant),
    Float { operation: FloatOperation, left: u64, right: u64, purpose: Use },
}

/// A [`Folding`] with its text as a sequence of characters.
pub enum FoldingView {
    Nothing,
    Constant(Folded),
    Float { operation: FloatOperation, left: u64, right: u64, purpose: Use },
}

impl View for Folding {
    type V = FoldingView;

    open spec fn view(&self) -> FoldingView {
        match self {
            Folding::Nothing => FoldingView::Nothing,
            Folding::Constant(value) => FoldingView::Constant(value@),
            Folding::Float { operation, left, right, purpose } => FoldingView::Float {
                operation: *operation,
                left: *left,
                right: *right,
                purpose: *purpose,
            },
        }
    }
}

/// The number that stands for a truth value.
pub open spec fn truth_number(value: bool, boolean: bool) -> Folded {
    Folded::Number {
        bits: if value {
            ONE
        } else {
            0
        },
        boolean,
    }
}

/// Whether a comparison holds of things whose difference is below, at or above
/// zero. Of those that cannot be told apart only the difference holds.
pub open spec fn comparison_holds(op: BinaryOp, below: bool, at: bool, above: bool) -> bool {
    match op {
        BinaryOp::Equal => at,
        BinaryOp::NotEqual => !at,
        BinaryOp::Less => below,
        BinaryOp::LessEqual => below || at,
        BinaryOp::Greater => above,
        BinaryOp::GreaterEqual => above || at,
        _ => false,
    }
}

/// Whether an operation compares.
pub open spec fn is_comparison(op: BinaryOp) -> bool {
    op is Equal || op is NotEqual || op is Less || op is LessEqual || op is Greater
        || op is GreaterEqual
}

/// What is made of the result of an operation on doubles.
pub open spec fn put_to_use(purpose: Use, bits: u64) -> Folded {
    match purpose {
        Use::Number { boolean } => Folded::Number { bits, boolean },
        Use::Comparison { op } => truth_number(
            comparison_holds(op, is_negative(bits), is_zero(bits), is_positive(bits)),
            true,
        ),
        Use::Integer => Folded::Int64(cut64(bits)),
    }
}

/// The constant that a folding leads to once its operation is computed.
pub open spec fn completed(
    folding: FoldingView,
    compute: spec_fn(FloatOperation, u64, u64) -> u64,
) -> Option<Folded> {
    match folding {
        FoldingView::Nothing => None,
        FoldingView::Constant(value) => Some(value),
        FoldingView::Float { operation, left, right, purpose } => Some(
            put_to_use(purpose, compute(operation, left, right)),
        ),
    }
}

/// The 64-bit number that a double is cut to.
pub open spec fn cut64(bits: u64) -> i64 {
    truncated(bits, i64::MIN as int, i64::MAX as int) as i64
}

/// The 32-bit number that a double is cut to.
pub open spec fn cut32(bits: u64) -> i32 {
    truncated(bits, i32::MIN as int, i32::MAX as int) as i32
}

/// The double of a 64-bit number, as an operation.
pub open spec fn from_integer(value: i64, boolean: bool) -> FoldingView {
    FoldingView::Float {
        operation: FloatOperation::FromInteger,
        left: value as u64,
        right: 0,
        purpose: Use::Number { boolean },
    }
}

/// An operation on two doubles.
pub open spec fn on_doubles(
    operation: FloatOperation,
    left: u64,
    right: u64,
    boolean: bool,
) -> FoldingView {
    FoldingView::Float { operation, left, right, purpose: Use::Number { boolean } }
}

/// The folding of a constant that may be missing.
pub open spec fn optional_int64(value: Option<i64>) -> FoldingView {
    match value {
        Some(value) => FoldingView::Constant(Folded::Int64(value)),
        None => FoldingView::Nothing,
    }
}

/// A unary operation on a constant.
pub open spec fn unary_folding(op: UnaryOp, value: Folded) -> FoldingView {
    match (op, value) {
        (UnaryOp::Positive, value) => FoldingView::Constant(value),
        (UnaryOp::Negative, Folded::Number { bits, boolean }) => FoldingView::Constant(
            Folded::Number { bits: negated(bits) as u64, boolean },
        ),
        (UnaryOp::Negative, Folded::Int64(value)) => FoldingView::Constant(
            Folded::Int64(0i64.wrapping_sub(value)),
        ),
        (UnaryOp::Not, Folded::Number { bits, boolean }) => FoldingView::Constant(
            truth_number(!is_half_or_more(bits) && !crate::gml::floats::is_nan(bits), boolean),
        ),
        (UnaryOp::Not, Folded::Int64(value)) => FoldingView::Constant(
            Folded::Int64(
                if value <= 0 {
                    1
                } else {
                    0
                },
            ),
        ),
        (UnaryOp::BitNot, Folded::Number { bits, boolean }) => from_integer(!cut64(bits), boolean),
        (UnaryOp::BitNot, Folded::Int64(value)) => FoldingView::Constant(Folded::Int64(!value)),
        _ => FoldingView::Nothing,
    }
}

/// Whether a constant counts as true.
pub open spec fn truth(value: Folded) -> Option<bool> {
    match value {
        Folded::Number { bits, .. } => Some(is_half_or_more(bits)),
        Folded::Int64(value) => Some(value >= 1),
        Folded::Text(_) => None,
    }
}

/// Whether a constant is a number that stands for a truth value.
pub open spec fn is_boolean(value: Folded) -> bool {
    value matches Folded::Number { boolean, .. } && boolean
}

/// The number of places that the first characters agree.
pub open spec fn agreement(left: Seq<char>, right: Seq<char>, index: int) -> int
    decreases left.len() - index,
{
    if 0 <= index < left.len() && index < right.len() && left[index] == right[index] {
        agreement(left, right, index + 1)
    } else {
        index
    }
}

/// Whether a text stands before another: it ends first, or has the lesser
/// character at the first place where they differ.
pub open spec fn stands_before(left: Seq<char>, right: Seq<char>) -> bool {
    let index = agreement(left, right, 0);
    if index >= left.len() {
        index < right.len()
    } else {
        index < right.len() && left[index] < right[index]
    }
}

/// A comparison of two constants.
pub open spec fn comparison_folding(op: BinaryOp, left: Folded, right: Folded) -> FoldingView {
    let of_difference = |difference: i64|
        FoldingView::Constant(
            truth_number(
                comparison_holds(op, difference < 0, difference == 0, difference > 0),
                true,
            ),
        );
    match (left, right) {
        (
            Folded::Number { bits: left, .. },
            Folded::Number { bits: right, .. },
        ) => FoldingView::Float {
            operation: FloatOperation::Subtract,
            left,
            right,
            purpose: Use::Comparison { op },
        },
        (Folded::Int64(left), Folded::Int64(right)) => of_difference(left.wrapping_sub(right)),
        (Folded::Int64(left), Folded::Number { bits, .. }) => of_difference(
            left.wrapping_sub(cut64(bits)),
        ),
        (Folded::Number { bits, .. }, Folded::Int64(right)) => of_difference(
            cut64(bits).wrapping_sub(right),
        ),
        (Folded::Text(left), Folded::Text(right)) => FoldingView::Constant(
            truth_number(
                comparison_holds(
                    op,
                    stands_before(left, right),
                    left == right,
                    stands_before(right, left),
                ),
                true,
            ),
        ),
        _ => FoldingView::Nothing,
    }
}

/// A logical operation on two constants.
pub open spec fn logical_folding(op: BinaryOp, left: Folded, right: Folded) -> FoldingView {
    match (truth(left), truth(right)) {
        (Some(first), Some(second)) => FoldingView::Constant(
            truth_number(
                match op {
                    BinaryOp::LogicalAnd => first && second,
                    BinaryOp::LogicalOr => first || second,
                    _ => first != second,
                },
                is_boolean(left),
            ),
        ),
        _ => FoldingView::Nothing,
    }
}

/// An operation on two doubles.
pub open spec fn double_folding(op: BinaryOp, left: u64, right: u64, boolean: bool) -> FoldingView {
    match op {
        BinaryOp::Add => on_doubles(FloatOperation::Add, left, right, boolean),
        BinaryOp::Subtract => on_doubles(FloatOperation::Subtract, left, right, boolean),
        BinaryOp::Multiply => on_doubles(FloatOperation::Multiply, left, right, boolean),
        BinaryOp::Divide => if is_zero(right) {
            FoldingView::Nothing
        } else {
            on_doubles(FloatOperation::Divide, left, right, boolean)
        },
        BinaryOp::IntegerDivide => match cut32(left).checked_div(cut32(right)) {
            Some(value) => from_integer(value as i64, boolean),
            None => FoldingView::Nothing,
        },
        BinaryOp::Modulo => if cut32(right) == 0 {
            FoldingView::Nothing
        } else {
            on_doubles(FloatOperation::Remainder, left, right, boolean)
        },
        BinaryOp::BitOr => from_integer(cut64(left) | cut64(right), boolean),
        BinaryOp::BitAnd => from_integer(cut64(left) & cut64(right), boolean),
        BinaryOp::BitXor => from_integer(cut64(left) ^ cut64(right), boolean),
        BinaryOp::ShiftLeft => from_integer(
            cut64(left).wrapping_shl((cut32(right) & 63) as u32),
            boolean,
        ),
        BinaryOp::ShiftRight => from_integer(
            cut64(left).wrapping_shr((cut32(right) & 63) as u32),
            boolean,
        ),
        _ => FoldingView::Nothing,
    }
}

/// An operation on two 64-bit numbers.
pub open spec fn integer_folding(op: BinaryOp, left: i64, right: i64) -> FoldingView {
    match op {
        BinaryOp::Add => optional_int64(Some(left.wrapping_add(right))),
        BinaryOp::Subtract => optional_int64(Some(left.wrapping_sub(right))),
        BinaryOp::Multiply => optional_int64(Some(left.wrapping_mul(right))),
        BinaryOp::Divide => optional_int64(left.checked_div(right)),
        BinaryOp::IntegerDivide => optional_int64(left.checked_div(right)),
        BinaryOp::Modulo => optional_int64(left.checked_rem(right)),
        BinaryOp::BitOr => optional_int64(Some(left | right)),
        BinaryOp::BitAnd => optional_int64(Some(left & right)),
        BinaryOp::BitXor => optional_int64(Some(left ^ right)),
        _ => FoldingView::Nothing,
    }
}

/// A text that stands there several times.
pub open spec fn repeated(text: Seq<char>, count: nat) -> Seq<char>
    decreases count,
{
    if count == 0 {
        seq![]
    } else {
        repeated(text, (count - 1) as nat) + text
    }
}

/// An arithmetical operation on two constants. With a 64-bit number on either
/// side both are computed with as such, but a double is shifted by one as a
/// 32-bit number.
pub open spec fn arithmetic_folding(op: BinaryOp, left: Folded, right: Folded) -> FoldingView {
    let boolean = is_boolean(left);
    match (left, right) {
        (Folded::Text(first), Folded::Text(second)) => if op is Add {
            FoldingView::Constant(Folded::Text(first + second))
        } else {
            FoldingView::Nothing
        },
        (Folded::Number { bits, .. }, Folded::Text(text)) => if op is Multiply {
            FoldingView::Constant(
                Folded::Text(
                    repeated(
                        text,
                        (if cut64(bits) > 0 {
                            cut64(bits) as int
                        } else {
                            0
                        }) as nat,
                    ),
                ),
            )
        } else {
            FoldingView::Nothing
        },
        (
            Folded::Number { bits: first, .. },
            Folded::Number { bits: second, .. },
        ) => double_folding(op, first, second, boolean),
        (Folded::Int64(first), Folded::Int64(second)) => match op {
            BinaryOp::ShiftLeft => optional_int64(
                Some(first.wrapping_shl((second & 63) as u32)),
            ),
            BinaryOp::ShiftRight => optional_int64(
                Some(first.wrapping_shr((second & 63) as u32)),
            ),
            _ => integer_folding(op, first, second),
        },
        (Folded::Int64(first), Folded::Number { bits, .. }) => match op {
            BinaryOp::ShiftLeft => optional_int64(
                Some(first.wrapping_shl((cut32(bits) & 63) as u32)),
            ),
            BinaryOp::ShiftRight => optional_int64(
                Some(first.wrapping_shr((cut32(bits) & 63) as u32)),
            ),
            _ => integer_folding(op, first, cut64(bits)),
        },
        (Folded::Number { bits, .. }, Folded::Int64(second)) => match op {
            BinaryOp::ShiftLeft => from_integer(
                cut32(bits).wrapping_shl((second & 31) as u32) as i64,
                boolean,
            ),
            BinaryOp::ShiftRight => from_integer(
                cut32(bits).wrapping_shr((second & 31) as u32) as i64,
                boolean,
            ),
            _ => integer_folding(op, cut64(bits), second),
        },
        _ => FoldingView::Nothing,
    }
}

/// A binary operation on two constants.
pub open spec fn binary_folding(op: BinaryOp, left: Folded, right: Folded) -> FoldingView {
    if is_comparison(op) {
        comparison_folding(op, left, right)
    } else if op is LogicalAnd || op is LogicalOr || op is LogicalXor {
        logical_folding(op, left, right)
    } else {
        arithmetic_folding(op, left, right)
    }
}

fn truth_constant(value: bool, boolean: bool) -> (constant: FoldedConstant)
    ensures
        constant@ == truth_number(value, boolean),
{
    FoldedConstant::Number {
        bits: if value {
            ONE
        } else {
            0
        },
        boolean,
    }
}

fn holds(op: BinaryOp, below: bool, at: bool, above: bool) -> (result: bool)
    ensures
        result == comparison_holds(op, below, at, above),
{
    match op {
        BinaryOp::Equal => at,
        BinaryOp::NotEqual => !at,
        BinaryOp::Less => below,
        BinaryOp::LessEqual => below || at,
        BinaryOp::Greater => above,
        BinaryOp::GreaterEqual => above || at,
        _ => false,
    }
}

/// Makes a constant of the result of an operation on doubles.
pub fn finish_folding(purpose: Use, bits: u64) -> (constant: FoldedConstant)
    ensures
        constant@ == put_to_use(purpose, bits),
{
    match purpose {
        Use::Number { boolean } => FoldedConstant::Number { bits, boolean },
        Use::Comparison { op } => truth_constant(
            holds(op, negative(bits), zero(bits), positive(bits)),
            true,
        ),
        Use::Integer => FoldedConstant::Int64(to_i64(bits)),
    }
}

fn integer_double(value: i64, boolean: bool) -> (folding: Folding)
    ensures
        folding@ == from_integer(value, boolean),
{
    Folding::Float {
        operation: FloatOperation::FromInteger,
        left: value as u64,
        right: 0,
        purpose: Use::Number { boolean },
    }
}

fn doubles(operation: FloatOperation, left: u64, right: u64, boolean: bool) -> (folding: Folding)
    ensures
        folding@ == on_doubles(operation, left, right, boolean),
{
    Folding::Float { operation, left, right, purpose: Use::Number { boolean } }
}

fn int64(value: Option<i64>) -> (folding: Folding)
    ensures
        folding@ == optional_int64(value),
{
    match value {
        Some(value) => Folding::Constant(FoldedConstant::Int64(value)),
        None => Folding::Nothing,
    }
}

/// Decides how a unary operation on a constant is folded.
pub fn fold_unary(op: UnaryOp, value: FoldedConstant) -> (folding: Folding)
    ensures
        folding@ == unary_folding(op, value@),
{
    match op {
        UnaryOp::Positive => Folding::Constant(value),
        UnaryOp::Negative => match value {
            FoldedConstant::Number { bits, boolean } => Folding::Constant(
                FoldedConstant::Number { bits: negate(bits), boolean },
            ),
            FoldedConstant::Int64(value) => int64(Some(0i64.wrapping_sub(value))),
            FoldedConstant::Text(_) => Folding::Nothing,
        },
        UnaryOp::Not => match value {
            FoldedConstant::Number { bits, boolean } => {
                let below = !half_or_more(bits) && (zero(bits) || negative(bits) || positive(bits));
                Folding::Constant(truth_constant(below, boolean))
            },
            FoldedConstant::Int64(value) => int64(
                Some(
                    if value <= 0 {
                        1
                    } else {
                        0
                    },
                ),
            ),
            FoldedConstant::Text(_) => Folding::Nothing,
        },
        UnaryOp::BitNot => match value {
            FoldedConstant::Number { bits, boolean } => integer_double(!to_i64(bits), boolean),
            FoldedConstant::Int64(value) => int64(Some(!value)),
            FoldedConstant::Text(_) => Folding::Nothing,
        },
        UnaryOp::PreIncrement => Folding::Nothing,
        UnaryOp::PreDecrement => Folding::Nothing,
    }
}

fn counts_as_true(value: &FoldedConstant) -> (result: Option<bool>)
    ensures
        result == truth(value@),
{
    match value {
        FoldedConstant::Number { bits, .. } => Some(half_or_more(*bits)),
        FoldedConstant::Int64(value) => Some(*value >= 1),
        FoldedConstant::Text(_) => None,
    }
}

fn boolean_number(value: &FoldedConstant) -> (result: bool)
    ensures
        result == is_boolean(value@),
{
    match value {
        FoldedConstant::Number { boolean, .. } => *boolean,
        _ => false,
    }
}

proof fn lemma_agreement(left: Seq<char>, right: Seq<char>, index: int)
    requires
        0 <= index,
    ensures
        agreement(left, right, index) >= index,
        agreement(left, right, index) == agreement(right, left, index),
        index <= left.len() ==> agreement(left, right, index) <= left.len(),
        index <= right.len() ==> agreement(left, right, index) <= right.len(),
    decreases left.len() - index,
{
    if index < left.len() && index < right.len() && left[index] == right[index] {
        lemma_agreement(left, right, index + 1);
    }
}

/// Compares two texts: whether the first stands before the second, and whether
/// they are equal.
fn compare_texts(left: &str, right: &str) -> (result: (bool, bool))
    ensures
        result.0 == stands_before(left@, right@),
        result.1 == (left@ == right@),
        (!result.0 && !result.1) == stands_before(right@, left@),
{
    let first = characters(left);
    let second = characters(right);
    let mut index: usize = 0;
    while index < first.len() && index < second.len() && first[index] == second[index]
        invariant
            index <= first.len(),
            index <= second.len(),
            first@ == left@,
            second@ == right@,
            agreement(left@, right@, 0) == agreement(left@, right@, index as int),
            forall|k: int| 0 <= k < index ==> left@[k] == right@[k],
        decreases first.len() - index,
    {
        index += 1;
    }
    proof {
        lemma_agreement(left@, right@, 0);
        if index == left@.len() && index == right@.len() {
            assert(left@ =~= right@);
        }
    }
    if index >= first.len() {
        (index < second.len(), index >= second.len())
    } else if index >= second.len() {
        (false, false)
    } else {
        assert(left@[index as int] != right@[index as int]);
        (first[index] < second[index], false)
    }
}

fn difference_constant(op: BinaryOp, difference: i64) -> (folding: Folding)
    ensures
        folding@ == FoldingView::Constant(
            truth_number(
                comparison_holds(op, difference < 0, difference == 0, difference > 0),
                true,
            ),
        ),
{
    Folding::Constant(
        truth_constant(holds(op, difference < 0, difference == 0, difference > 0), true),
    )
}

fn fold_comparison(op: BinaryOp, left: FoldedConstant, right: FoldedConstant) -> (folding: Folding)
    ensures
        folding@ == comparison_folding(op, left@, right@),
{
    match (left, right) {
        (
            FoldedConstant::Number { bits: first, .. },
            FoldedConstant::Number { bits: second, .. },
        ) => Folding::Float {
            operation: FloatOperation::Subtract,
            left: first,
            right: second,
            purpose: Use::Comparison { op },
        },
        (FoldedConstant::Int64(first), FoldedConstant::Int64(second)) => difference_constant(
            op,
            first.wrapping_sub(second),
        ),
        (FoldedConstant::Int64(first), FoldedConstant::Number { bits, .. }) => difference_constant(
            op,
            first.wrapping_sub(to_i64(bits)),
        ),
        (
            FoldedConstant::Number { bits, .. },
            FoldedConstant::Int64(second),
        ) => difference_constant(op, to_i64(bits).wrapping_sub(second)),
        (FoldedConstant::Text(first), FoldedConstant::Text(second)) => {
            let (before, same) = compare_texts(first.as_str(), second.as_str());
            Folding::Constant(truth_constant(holds(op, before, same, !before && !same), true))
        },
        _ => Folding::Nothing,
    }
}

fn fold_doubles(op: BinaryOp, left: u64, right: u64, boolean: bool) -> (folding: Folding)
    ensures
        folding@ == double_folding(op, left, right, boolean),
{
    match op {
        BinaryOp::Add => doubles(FloatOperation::Add, left, right, boolean),
        BinaryOp::Subtract => doubles(FloatOperation::Subtract, left, right, boolean),
        BinaryOp::Multiply => doubles(FloatOperation::Multiply, left, right, boolean),
        BinaryOp::Divide => if zero(right) {
            Folding::Nothing
        } else {
            doubles(FloatOperation::Divide, left, right, boolean)
        },
        BinaryOp::IntegerDivide => match to_i32(left).checked_div(to_i32(right)) {
            Some(value) => integer_double(value as i64, boolean),
            None => Folding::Nothing,
        },
        BinaryOp::Modulo => if to_i32(right) == 0 {
            Folding::Nothing
        } else {
            doubles(FloatOperation::Remainder, left, right, boolean)
        },
        BinaryOp::BitOr => integer_double(to_i64(left) | to_i64(right), boolean),
        BinaryOp::BitAnd => integer_double(to_i64(left) & to_i64(right), boolean),
        BinaryOp::BitXor => integer_double(to_i64(left) ^ to_i64(right), boolean),
        BinaryOp::ShiftLeft => integer_double(
            to_i64(left).wrapping_shl((to_i32(right) & 63) as u32),
            boolean,
        ),
        BinaryOp::ShiftRight => integer_double(
            to_i64(left).wrapping_shr((to_i32(right) & 63) as u32),
            boolean,
        ),
        _ => Folding::Nothing,
    }
}

fn fold_integers(op: BinaryOp, left: i64, right: i64) -> (folding: Folding)
    ensures
        folding@ == integer_folding(op, left, right),
{
    match op {
        BinaryOp::Add => int64(Some(left.wrapping_add(right))),
        BinaryOp::Subtract => int64(Some(left.wrapping_sub(right))),
        BinaryOp::Multiply => int64(Some(left.wrapping_mul(right))),
        BinaryOp::Divide => int64(left.checked_div(right)),
        BinaryOp::IntegerDivide => int64(left.checked_div(right)),
        BinaryOp::Modulo => int64(left.checked_rem(right)),
        BinaryOp::BitOr => int64(Some(left | right)),
        BinaryOp::BitAnd => int64(Some(left & right)),
        BinaryOp::BitXor => int64(Some(left ^ right)),
        _ => Folding::Nothing,
    }
}

fn repeat_text(text: &str, count: u64) -> (result: String)
    ensures
        result@ == repeated(text@, count as nat),
{
    let mut result = String::new();
    let mut done: u64 = 0;
    assert(result@ =~= repeated(text@, 0));
    while done < count
        invariant
            done <= count,
            result@ == repeated(text@, done as nat),
        decreases count - done,
    {
        result.append(text);
        done += 1;
    }
    result
}

fn fold_arithmetic(op: BinaryOp, left: FoldedConstant, right: FoldedConstant) -> (folding: Folding)
    ensures
        folding@ == arithmetic_folding(op, left@, right@),
{
    let boolean = boolean_number(&left);
    match (left, right) {
        (FoldedConstant::Text(first), FoldedConstant::Text(second)) => match op {
            BinaryOp::Add => {
                let mut text = first;
                text.append(second.as_str());
                Folding::Constant(FoldedConstant::Text(text))
            },
            _ => Folding::Nothing,
        },
        (FoldedConstant::Number { bits, .. }, FoldedConstant::Text(text)) => match op {
            BinaryOp::Multiply => {
                let count = to_i64(bits);
                let times: u64 = if count > 0 {
                    count as u64
                } else {
                    0
                };
                Folding::Constant(FoldedConstant::Text(repeat_text(text.as_str(), times)))
            },
            _ => Folding::Nothing,
        },
        (
            FoldedConstant::Number { bits: first, .. },
            FoldedConstant::Number { bits: second, .. },
        ) => fold_doubles(op, first, second, boolean),
        (FoldedConstant::Int64(first), FoldedConstant::Int64(second)) => match op {
            BinaryOp::ShiftLeft => int64(Some(first.wrapping_shl((second & 63) as u32))),
            BinaryOp::ShiftRight => int64(Some(first.wrapping_shr((second & 63) as u32))),
            _ => fold_integers(op, first, second),
        },
        (FoldedConstant::Int64(first), FoldedConstant::Number { bits, .. }) => match op {
            BinaryOp::ShiftLeft => int64(Some(first.wrapping_shl((to_i32(bits) & 63) as u32))),
            BinaryOp::ShiftRight => int64(Some(first.wrapping_shr((to_i32(bits) & 63) as u32))),
            _ => fold_integers(op, first, to_i64(bits)),
        },
        (FoldedConstant::Number { bits, .. }, FoldedConstant::Int64(second)) => match op {
            BinaryOp::ShiftLeft => integer_double(
                to_i32(bits).wrapping_shl((second & 31) as u32) as i64,
                boolean,
            ),
            BinaryOp::ShiftRight => integer_double(
                to_i32(bits).wrapping_shr((second & 31) as u32) as i64,
                boolean,
            ),
            _ => fold_integers(op, to_i64(bits), second),
        },
        _ => Folding::Nothing,
    }
}

/// Decides how a binary operation on two constants is folded.
pub fn fold_binary(op: BinaryOp, left: FoldedConstant, right: FoldedConstant) -> (folding: Folding)
    ensures
        folding@ == binary_folding(op, left@, right@),
{
    match op {
        BinaryOp::Equal | BinaryOp::NotEqual | BinaryOp::Less | BinaryOp::LessEqual
        | BinaryOp::Greater | BinaryOp::GreaterEqual => fold_comparison(op, left, right),
        BinaryOp::LogicalAnd | BinaryOp::LogicalOr | BinaryOp::LogicalXor => {
            match (counts_as_true(&left), counts_as_true(&right)) {
                (Some(first), Some(second)) => {
                    let result = match op {
                        BinaryOp::LogicalAnd => first && second,
                        BinaryOp::LogicalOr => first || second,
                        _ => first != second,
                    };
                    Folding::Constant(truth_constant(result, boolean_number(&left)))
                },
                _ => Folding::Nothing,
            }
        },
        _ => fold_arithmetic(op, left, right),
    }
}

/// The first unit of a text in UTF-16; zero for an empty text.
pub open spec fn first_unit(text: Seq<char>) -> int {
    if text.len() == 0 {
        0
    } else {
        let scalar = text[0] as int;
        if scalar < 0x1_0000 {
            scalar
        } else {
            0xd800 + (scalar - 0x1_0000) / 0x400
        }
    }
}

/// The character with a number, unless it is that of a surrogate.
pub open spec fn character_of(number: int) -> Option<char> {
    if 0xd800 <= number < 0xe000 {
        None
    } else {
        Some(number as char)
    }
}

/// A call of a function with one constant. `shown` is how doubles are shown
/// as texts.
pub open spec fn function_folding(
    name: Seq<char>,
    argument: Folded,
    numbers: spec_fn(Seq<char>) -> Option<u64>,
    shown: spec_fn(u64) -> Seq<char>,
) -> FoldingView {
    if name == "ord"@ {
        match argument {
            Folded::Text(text) => from_integer(first_unit(text) as i64, false),
            _ => FoldingView::Nothing,
        }
    } else if name == "chr"@ {
        let number = match argument {
            Folded::Number { bits, .. } => Some((cut64(bits) as u16) as int),
            Folded::Int64(value) => Some((value as u16) as int),
            Folded::Text(_) => None,
        };
        match number {
            Some(number) => match character_of(number) {
                Some(character) => FoldingView::Constant(Folded::Text(seq![character])),
                None => FoldingView::Nothing,
            },
            None => FoldingView::Nothing,
        }
    } else if name == "real"@ {
        match argument {
            Folded::Number { bits, .. } => FoldingView::Constant(
                Folded::Number { bits, boolean: false },
            ),
            Folded::Int64(value) => from_integer(value, false),
            Folded::Text(text) => match numbers(text) {
                Some(bits) => FoldingView::Constant(Folded::Number { bits, boolean: false }),
                None => FoldingView::Nothing,
            },
        }
    } else if name == "string"@ {
        match argument {
            Folded::Number { bits, .. } => FoldingView::Constant(Folded::Text(shown(bits))),
            Folded::Int64(value) => FoldingView::Constant(
                Folded::Text(signed_digits(value as int)),
            ),
            Folded::Text(text) => FoldingView::Constant(Folded::Text(text)),
        }
    } else if name == "int64"@ {
        match argument {
            Folded::Number { bits, .. } => if is_finite(bits) {
                FoldingView::Float {
                    operation: FloatOperation::RoundTiesEven,
                    left: bits,
                    right: 0,
                    purpose: Use::Integer,
                }
            } else {
                FoldingView::Nothing
            },
            Folded::Int64(value) => FoldingView::Constant(Folded::Int64(value)),
            Folded::Text(_) => FoldingView::Nothing,
        }
    } else {
        FoldingView::Nothing
    }
}

/// The result of an operation on doubles as a function computes it.
pub open spec fn computed_by<A: Fn(FloatOperation, u64, u64) -> u64>(compute: A) -> spec_fn(
    FloatOperation,
    u64,
    u64,
) -> u64 {
    |operation: FloatOperation, left: u64, right: u64|
        choose|result: u64| call_ensures(compute, (operation, left, right), result)
}

/// Whether a function computes one result for each operation and operands.
pub open spec fn is_arithmetic<A: Fn(FloatOperation, u64, u64) -> u64>(compute: A) -> bool {
    &&& forall|operation: FloatOperation, left: u64, right: u64| #[trigger]
        call_requires(compute, (operation, left, right))
    &&& forall|operation: FloatOperation, left: u64, right: u64, result: u64| #[trigger]
        call_ensures(compute, (operation, left, right), result) ==> result == computed_by(compute)(
            operation,
            left,
            right,
        )
}

/// The texts as which a function shows doubles.
pub open spec fn shown_by<D: Fn(u64) -> String>(show: D) -> spec_fn(u64) -> Seq<char> {
    |bits: u64| (choose|text: String| call_ensures(show, (bits,), text))@
}

/// Whether a function shows each double as one text.
pub open spec fn is_display<D: Fn(u64) -> String>(show: D) -> bool {
    &&& forall|bits: u64| #[trigger] call_requires(show, (bits,))
    &&& forall|bits: u64, text: String| #[trigger]
        call_ensures(show, (bits,), text) ==> text@ == shown_by(show)(bits)
}

/// Computes the operation that a folding calls for and returns the constant.
pub fn complete<A: Fn(FloatOperation, u64, u64) -> u64>(folding: Folding, compute: &A) -> (value:
    Option<FoldedConstant>)
    requires
        is_arithmetic(*compute),
    ensures
        folded_view(value) == completed(folding@, computed_by(*compute)),
{
    match folding {
        Folding::Nothing => None,
        Folding::Constant(value) => Some(value),
        Folding::Float { operation, left, right, purpose } => Some(
            finish_folding(purpose, compute(operation, left, right)),
        ),
    }
}

pub(crate) fn scalar_of(character: char) -> (scalar: u32)
    ensures
        scalar == character as int,
        scalar <= 0x10_ffff,
{
    character as u32
}

fn first_unit_of(text: &str) -> (unit: i64)
    ensures
        unit == first_unit(text@),
{
    let letters = characters(text);
    if letters.len() == 0 {
        return 0;
    }
    let scalar = scalar_of(letters[0]);
    if scalar < 0x1_0000 {
        scalar as i64
    } else {
        (0xd800 + (scalar - 0x1_0000) / 0x400) as i64
    }
}

fn character_text(number: u16) -> (folding: Folding)
    ensures
        folding@ == match character_of(number as int) {
            Some(character) => FoldingView::Constant(Folded::Text(seq![character])),
            None => FoldingView::Nothing,
        },
{
    match char::from_u32(number as u32) {
        Some(character) => {
            let mut text = String::new();
            text.push(character);
            assert(text@ =~= seq![character]);
            Folding::Constant(FoldedConstant::Text(text))
        },
        None => Folding::Nothing,
    }
}

/// Decides how a call of a function with one constant is folded.
pub fn fold_function<D: Fn(u64) -> String, P: Fn(&str) -> Option<u64>>(
    name: &str,
    argument: FoldedConstant,
    read: &P,
    show: &D,
) -> (folding: Folding)
    requires
        is_display(*show),
        is_reader(*read),
    ensures
        folding@ == function_folding(name@, argument@, read_by(*read), shown_by(*show)),
{
    if same_text(name, "ord") {
        match argument {
            FoldedConstant::Text(text) => integer_double(first_unit_of(text.as_str()), false),
            _ => Folding::Nothing,
        }
    } else if same_text(name, "chr") {
        match argument {
            FoldedConstant::Number { bits, .. } => character_text(to_i64(bits) as u16),
            FoldedConstant::Int64(value) => character_text(value as u16),
            FoldedConstant::Text(_) => Folding::Nothing,
        }
    } else if same_text(name, "real") {
        match argument {
            FoldedConstant::Number { bits, .. } => Folding::Constant(
                FoldedConstant::Number { bits, boolean: false },
            ),
            FoldedConstant::Int64(value) => integer_double(value, false),
            FoldedConstant::Text(text) => match read_double(read, text.as_str()) {
                Some(bits) => Folding::Constant(FoldedConstant::Number { bits, boolean: false }),
                None => Folding::Nothing,
            },
        }
    } else if same_text(name, "string") {
        match argument {
            FoldedConstant::Number { bits, .. } => Folding::Constant(
                FoldedConstant::Text(show(bits)),
            ),
            FoldedConstant::Int64(value) => Folding::Constant(
                FoldedConstant::Text(signed_decimal(value)),
            ),
            FoldedConstant::Text(text) => Folding::Constant(FoldedConstant::Text(text)),
        }
    } else if same_text(name, "int64") {
        match argument {
            FoldedConstant::Number { bits, .. } => if finite(bits) {
                Folding::Float {
                    operation: FloatOperation::RoundTiesEven,
                    left: bits,
                    right: 0,
                    purpose: Use::Integer,
                }
            } else {
                Folding::Nothing
            },
            FoldedConstant::Int64(value) => int64(Some(value)),
            FoldedConstant::Text(_) => Folding::Nothing,
        }
    } else {
        Folding::Nothing
    }
}

} // verus!
