//! How numbers and names of files are spelled and read.

use vstd::prelude::*;

use crate::gml::numbers::{digit_value, digits_value, integer_value};
use crate::path::{extension_of_name, last_dot, stem_of_name};
use crate::text::{digits, lemma_digits_are_digits, signed_digits};

verus! {

proof fn lemma_same_start(text: Seq<char>, more: Seq<char>, base: int, count: int)
    requires
        count <= text.len() <= more.len(),
        forall|k: int| 0 <= k < count ==> #[trigger] more[k] == text[k],
    ensures
        digits_value(text, base, count) == digits_value(more, base, count),
    decreases count,
{
    if count > 0 {
        lemma_same_start(text, more, base, count - 1);
        assert(more[count - 1] == text[count - 1]);
    }
}

/// The digits that spell a number in a base stand for that number in it.
pub proof fn law_spelled_digits_are_read(value: nat, base: nat)
    requires
        2 <= base <= 16,
    ensures
        digits_value(digits(value, base), base as int, digits(value, base).len() as int) == Some(
            value as int,
        ),
    decreases value,
{
    reveal_with_fuel(digits_value, 2);
    let text = digits(value, base);
    if value < base {
        let radix = base as int;
        assert(text.len() == 1);
        assert(0 * radix == 0) by (nonlinear_arith);
        assert(digits_value(text, radix, 0) == Some(0int));
        assert(digit_value(text[0], base as int) == Some(value as int));
    } else {
        assert(value / base < value && value == base * (value / base) + value % base && value % base
            < base) by (nonlinear_arith)
            requires
                2 <= base,
                base <= value,
        ;
        let high = digits(value / base, base);
        let low = value % base;
        law_spelled_digits_are_read(value / base, base);
        assert(text == high.push(text.last()));
        lemma_same_start(high, text, base as int, high.len() as int);
        assert(digit_value(text[high.len() as int], base as int) == Some(low as int));
        let quotient = (value / base) as int;
        let radix = base as int;
        assert(quotient * radix + low == value) by (nonlinear_arith)
            requires
                value == base * (value / base) + value % base,
                quotient == value / base,
                radix == base,
                low == value % base,
        ;
        assert(digits_value(text, radix, high.len() as int) == Some(quotient));
    }
}

/// A whole number that is spelled in decimal is read as itself.
pub proof fn law_spelled_numbers_are_read(value: i64)
    ensures
        integer_value(signed_digits(value as int), 10) == Some(value as int),
{
    let number = value as int;
    let text = signed_digits(number);
    if number < 0 {
        let size = (-number) as nat;
        law_spelled_digits_are_read(size, 10);
        lemma_digits_are_digits(size);
        assert(text.skip(1) =~= digits(size, 10));
        assert(text[0] == '-');
    } else {
        law_spelled_digits_are_read(number as nat, 10);
        lemma_digits_are_digits(number as nat);
        assert('0' <= digits(number as nat, 10)[0] <= '9');
        assert(text == digits(number as nat, 10));
    }
}

proof fn lemma_only_dot(name: Seq<char>, dot: int, end: int)
    requires
        0 <= dot < end <= name.len(),
        name[dot] == '.',
        forall|k: int| dot < k < end ==> #[trigger] name[k] != '.',
    ensures
        last_dot(name, end) == dot,
    decreases end,
{
    if end - 1 > dot {
        assert(name[end - 1] != '.');
        lemma_only_dot(name, dot, end - 1);
    }
}

/// The last dot of the name of a file parts its stem from its extension, unless it
/// is the first character.
pub proof fn law_the_last_dot_parts_a_name(stem: Seq<char>, extension: Seq<char>)
    requires
        !extension.contains('.'),
    ensures
        ({
            let name = stem + seq!['.'] + extension;
            &&& stem.len() > 0 ==> stem_of_name(name) == stem && extension_of_name(name) == Some(
                extension,
            )
            &&& stem.len() == 0 ==> stem_of_name(name) == name && extension_of_name(name) is None
            &&& stem_of_name(extension) == extension
            &&& extension_of_name(extension) is None
        }),
{
    let name = stem + seq!['.'] + extension;
    let dot = stem.len() as int;
    assert forall|k: int| dot < k < name.len() implies #[trigger] name[k] != '.' by {
        assert(name[k] == extension[k - dot - 1]);
        assert(extension.contains(extension[k - dot - 1]));
    }
    lemma_only_dot(name, dot, name.len() as int);
    assert(name.take(dot) =~= stem);
    assert(name.skip(dot + 1) =~= extension);
    lemma_no_dot(extension, extension.len() as int);
}

proof fn lemma_no_dot(name: Seq<char>, end: int)
    requires
        0 <= end <= name.len(),
        !name.contains('.'),
    ensures
        last_dot(name, end) == -1,
    decreases end,
{
    if end > 0 {
        assert(name.contains(name[end - 1]));
        lemma_no_dot(name, end - 1);
    }
}

} // verus!
