//! What operations on constants compute.

use vstd::prelude::*;

use crate::gml::ast::{BinaryOp, UnaryOp};
use crate::gml::floats::{is_nan, negated, FloatOperation};
use crate::gml::folding::{
    agreement, binary_folding, completed, stands_before, truth, unary_folding, Folded, FoldingView,
};

verus! {

/// Whether a number is a 64-bit number.
pub open spec fn fits(value: int) -> bool {
    i64::MIN <= value <= i64::MAX
}

/// The folding to a 64-bit number.
pub open spec fn whole(value: int) -> FoldingView {
    FoldingView::Constant(Folded::Int64(value as i64))
}

/// Sums, differences and products of 64-bit numbers are those of the numbers where
/// they are 64-bit numbers themselves.
pub proof fn law_whole_numbers_are_computed(left: i64, right: i64)
    ensures
        fits(left + right) ==> binary_folding(
            BinaryOp::Add,
            Folded::Int64(left),
            Folded::Int64(right),
        ) == whole(left + right),
        fits(left - right) ==> binary_folding(
            BinaryOp::Subtract,
            Folded::Int64(left),
            Folded::Int64(right),
        ) == whole(left - right),
        fits(left * right) ==> binary_folding(
            BinaryOp::Multiply,
            Folded::Int64(left),
            Folded::Int64(right),
        ) == whole(left * right),
        fits(-left) ==> unary_folding(UnaryOp::Negative, Folded::Int64(left)) == whole(-left),
        unary_folding(UnaryOp::Positive, Folded::Int64(left)) == whole(left as int),
{
}

/// Quotients and remainders of 64-bit numbers are those of the numbers, and there
/// are none by zero.
pub proof fn law_whole_numbers_are_divided(left: i64, right: i64)
    ensures
        ({
            let divided = binary_folding(
                BinaryOp::Divide,
                Folded::Int64(left),
                Folded::Int64(right),
            );
            let quotient = binary_folding(
                BinaryOp::IntegerDivide,
                Folded::Int64(left),
                Folded::Int64(right),
            );
            let rest = binary_folding(BinaryOp::Modulo, Folded::Int64(left), Folded::Int64(right));
            &&& right == 0 ==> divided is Nothing && quotient is Nothing && rest is Nothing
            &&& left >= 0 && right > 0 ==> {
                &&& divided == whole(left as int / right as int)
                &&& quotient == whole(left as int / right as int)
                &&& rest == whole(left as int % right as int)
            }
        }),
{
    if left >= 0 && right > 0 {
        let dividend = left as int;
        let divisor = right as int;
        assert(0 <= dividend / divisor <= dividend) by (nonlinear_arith)
            requires
                0 <= dividend,
                0 < divisor,
        ;
        assert(0 <= dividend % divisor < divisor) by (nonlinear_arith)
            requires
                0 < divisor,
        ;
        assert(dividend == 0 ==> dividend / divisor == 0 && dividend % divisor == 0)
            by (nonlinear_arith)
            requires
                0 < divisor,
        ;
    }
}

/// The truth value that a folding leads to, if it leads to one at once.
pub open spec fn answer(folding: FoldingView) -> Option<bool> {
    match folding {
        FoldingView::Constant(value) => truth(value),
        _ => None,
    }
}

/// 64-bit numbers whose difference is one too are compared as the numbers are.
pub proof fn law_whole_numbers_are_compared(left: i64, right: i64)
    requires
        fits(left - right),
    ensures
        answer(binary_folding(BinaryOp::Less, Folded::Int64(left), Folded::Int64(right))) == Some(
            left < right,
        ),
        answer(binary_folding(BinaryOp::LessEqual, Folded::Int64(left), Folded::Int64(right)))
            == Some(left <= right),
        answer(binary_folding(BinaryOp::Greater, Folded::Int64(left), Folded::Int64(right)))
            == Some(left > right),
        answer(binary_folding(BinaryOp::GreaterEqual, Folded::Int64(left), Folded::Int64(right)))
            == Some(left >= right),
        answer(binary_folding(BinaryOp::Equal, Folded::Int64(left), Folded::Int64(right))) == Some(
            left == right,
        ),
        answer(binary_folding(BinaryOp::NotEqual, Folded::Int64(left), Folded::Int64(right)))
            == Some(left != right),
{
}

proof fn lemma_agreement(start: Seq<char>, left: Seq<char>, right: Seq<char>, index: int)
    requires
        0 <= index <= start.len(),
    ensures
        agreement(start + left, start + right, index) == start.len() + agreement(left, right, 0),
    decreases start.len() - index,
{
    if index < start.len() {
        lemma_agreement(start, left, right, index + 1);
    } else {
        lemma_shifted(start, left, right, 0);
    }
}

proof fn lemma_shifted(start: Seq<char>, left: Seq<char>, right: Seq<char>, index: int)
    requires
        0 <= index <= left.len(),
    ensures
        agreement(start + left, start + right, start.len() + index) == start.len() + agreement(
            left,
            right,
            index,
        ),
    decreases left.len() - index,
{
    if index < left.len() && index < right.len() && left[index] == right[index] {
        lemma_shifted(start, left, right, index + 1);
    }
}

/// Texts are compared by the first place where they differ: the one with the lesser
/// character there is less, and so is the one that ends there. Texts are equal only
/// to themselves.
pub proof fn law_texts_are_compared_where_they_differ(
    start: Seq<char>,
    left: Seq<char>,
    right: Seq<char>,
)
    requires
        left.len() > 0,
        right.len() > 0 ==> right[0] < left[0],
    ensures
        ({
            let less = Folded::Text(start + right);
            let greater = Folded::Text(start + left);
            &&& answer(binary_folding(BinaryOp::Less, less, greater)) == Some(true)
            &&& answer(binary_folding(BinaryOp::Less, greater, less)) == Some(false)
            &&& answer(binary_folding(BinaryOp::LessEqual, less, greater)) == Some(true)
            &&& answer(binary_folding(BinaryOp::Greater, less, greater)) == Some(false)
            &&& answer(binary_folding(BinaryOp::Greater, greater, less)) == Some(true)
            &&& answer(binary_folding(BinaryOp::GreaterEqual, less, greater)) == Some(false)
            &&& answer(binary_folding(BinaryOp::Equal, less, greater)) == Some(false)
            &&& answer(binary_folding(BinaryOp::NotEqual, less, greater)) == Some(true)
            &&& answer(binary_folding(BinaryOp::Equal, less, less)) == Some(true)
            &&& answer(binary_folding(BinaryOp::NotEqual, less, less)) == Some(false)
        }),
{
    lemma_agreement(start, left, right, 0);
    lemma_agreement(start, right, left, 0);
    assert(agreement(left, right, 0) == 0);
    assert(agreement(right, left, 0) == 0);
    assert(stands_before(start + right, start + left));
    assert(!stands_before(start + left, start + right));
    assert((start + right)[start.len() as int] == right[0] || right.len() == 0);
    assert((start + left)[start.len() as int] == left[0]);
    assert(start + left != start + right);
}

/// Texts are added by putting them one behind the other.
pub proof fn law_texts_are_added(left: Seq<char>, right: Seq<char>)
    ensures
        binary_folding(BinaryOp::Add, Folded::Text(left), Folded::Text(right))
            == FoldingView::Constant(Folded::Text(left + right)),
{
}

/// Operations on doubles compute with the operation of their name, the left operand
/// first; nothing is divided by zero.
pub proof fn law_doubles_are_computed(
    left: u64,
    right: u64,
    compute: spec_fn(FloatOperation, u64, u64) -> u64,
)
    ensures
        ({
            let first = Folded::Number { bits: left, boolean: false };
            let second = Folded::Number { bits: right, boolean: false };
            let number = |bits: u64| Some(Folded::Number { bits, boolean: false });
            &&& completed(binary_folding(BinaryOp::Add, first, second), compute) == number(
                compute(FloatOperation::Add, left, right),
            )
            &&& completed(binary_folding(BinaryOp::Subtract, first, second), compute) == number(
                compute(FloatOperation::Subtract, left, right),
            )
            &&& completed(binary_folding(BinaryOp::Multiply, first, second), compute) == number(
                compute(FloatOperation::Multiply, left, right),
            )
            &&& completed(binary_folding(BinaryOp::Divide, first, second), compute) == (if right
                == 0 || right == 0x8000_0000_0000_0000 {
                None
            } else {
                number(compute(FloatOperation::Divide, left, right))
            })
        }),
{
}

/// Logical operations on constants that have a truth value lead to what the
/// operation makes of those; there is no other truth value than true and false.
pub proof fn law_truth_values_are_combined(left: Folded, right: Folded)
    requires
        truth(left) is Some,
        truth(right) is Some,
    ensures
        answer(binary_folding(BinaryOp::LogicalAnd, left, right)) == Some(
            truth(left)->0 && truth(right)->0,
        ),
        answer(binary_folding(BinaryOp::LogicalOr, left, right)) == Some(
            truth(left)->0 || truth(right)->0,
        ),
        answer(binary_folding(BinaryOp::LogicalXor, left, right)) == Some(
            truth(left)->0 != truth(right)->0,
        ),
{
}

/// The negation of a constant is true exactly if the constant is not.
pub proof fn law_truth_values_are_negated(value: Folded)
    requires
        truth(value) is Some,
        value matches Folded::Number { bits, .. } ==> !is_nan(bits),
    ensures
        answer(unary_folding(UnaryOp::Not, value)) == Some(!truth(value)->0),
{
}

/// A double that is negated twice is the same again, and one that is negated once
/// never is.
pub proof fn law_negations_of_doubles_cancel(bits: u64, boolean: bool)
    ensures
        ({
            let once = unary_folding(UnaryOp::Negative, Folded::Number { bits, boolean });
            &&& once is Constant
            &&& once->Constant_0 != Folded::Number { bits, boolean }
            &&& unary_folding(UnaryOp::Negative, once->Constant_0) == FoldingView::Constant(
                Folded::Number { bits, boolean },
            )
        }),
{
    assert(negated(negated(bits) as u64) == bits);
}

} // verus!
