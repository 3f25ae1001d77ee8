//! The numbers that texts stand for.

use vstd::prelude::*;

use crate::gml::floats::{integral, integral_value};
use crate::text::{characters, same_text, trim_characters, trimmed};

verus! {

/// The value of a digit in a base up to 16.
pub open spec fn digit_value(character: char, base: int) -> Option<int> {
    let value = if '0' <= character <= '9' {
        character as int - '0' as int
    } else if 'a' <= character <= 'f' {
        character as int - 'a' as int + 10
    } else if 'A' <= character <= 'F' {
        character as int - 'A' as int + 10
    } else {
        base
    };
    if value < base {
        Some(value)
    } else {
        None
    }
}

/// The value of the first `count` digits of a text.
pub open spec fn digits_value(text: Seq<char>, base: int, count: int) -> Option<int>
    decreases count,
{
    if count <= 0 {
        Some(0)
    } else {
        match (digits_value(text, base, count - 1), digit_value(text[count - 1], base)) {
            (Some(value), Some(digit)) => Some(value * base + digit),
            _ => None,
        }
    }
}

/// The number that a text stands for: digits behind an optional sign, within
/// 64 bits.
pub open spec fn integer_value(text: Seq<char>, base: int) -> Option<int> {
    let negative = text.len() > 0 && text[0] == '-';
    let signed = negative || text.len() > 0 && text[0] == '+';
    let digits = if signed {
        text.skip(1)
    } else {
        text
    };
    if digits.len() == 0 {
        None
    } else {
        match digits_value(digits, base, digits.len() as int) {
            None => None,
            Some(value) => {
                let number = if negative {
                    -value
                } else {
                    value
                };
                if i64::MIN <= number <= i64::MAX {
                    Some(number)
                } else {
                    None
                }
            },
        }
    }
}

proof fn lemma_digits_value(text: Seq<char>, base: int, count: int, more: int)
    requires
        2 <= base <= 16,
        0 <= count <= more,
    ensures
        digits_value(text, base, more) is Some ==> digits_value(text, base, count) is Some,
        digits_value(text, base, more) matches Some(value) ==> value >= digits_value(
            text,
            base,
            count,
        ).unwrap() >= 0,
    decreases more,
{
    if more > 0 {
        if count < more {
            lemma_digits_value(text, base, count, more - 1);
        } else {
            lemma_digits_value(text, base, count - 1, more - 1);
        }
        if let Some(before) = digits_value(text, base, more - 1) {
            assert(before >= 0 ==> before * base >= before) by (nonlinear_arith)
                requires
                    base >= 2,
            ;
        }
    }
}

pub(crate) fn digit_of(character: char, base: u64) -> (digit: Option<u64>)
    requires
        2 <= base <= 16,
    ensures
        match digit {
            Some(digit) => digit_value(character, base as int) == Some(digit as int) && digit
                < base,
            None => digit_value(character, base as int) is None,
        },
{
    let value: u64 = if '0' <= character && character <= '9' {
        character as u64 - '0' as u64
    } else if 'a' <= character && character <= 'f' {
        character as u64 - 'a' as u64 + 10
    } else if 'A' <= character && character <= 'F' {
        character as u64 - 'A' as u64 + 10
    } else {
        base
    };
    if value < base {
        Some(value)
    } else {
        None
    }
}

/// Returns the number that digits behind an optional sign stand for.
pub fn read_integer(text: &[char], base: u64) -> (value: Option<i64>)
    requires
        2 <= base <= 16,
    ensures
        match value {
            Some(value) => integer_value(text@, base as int) == Some(value as int),
            None => integer_value(text@, base as int) is None,
        },
{
    let negative = text.len() > 0 && text[0] == '-';
    let signed = negative || text.len() > 0 && text[0] == '+';
    let digits = if signed {
        vstd::slice::slice_subrange(text, 1, text.len())
    } else {
        text
    };
    assert(digits@ =~= if signed {
        text@.skip(1)
    } else {
        text@
    });
    if digits.len() == 0 {
        return None;
    }
    let mut value: u128 = 0;
    let mut index: usize = 0;
    while index < digits.len()
        invariant
            index <= digits.len(),
            2 <= base <= 16,
            digits_value(digits@, base as int, index as int) == Some(value as int),
            value <= 0x8000_0000_0000_0000,
            digits@ == if signed {
                text@.skip(1)
            } else {
                text@
            },
            negative == (text@.len() > 0 && text@[0] == '-'),
            signed == (negative || text@.len() > 0 && text@[0] == '+'),
            digits@.len() > 0,
        decreases digits.len() - index,
    {
        let digit = match digit_of(digits[index], base) {
            Some(digit) => digit,
            None => {
                proof {
                    lemma_digits_value(
                        digits@,
                        base as int,
                        index + 1,
                        digits@.len() as int,
                    );
                }
                return None;
            },
        };
        proof {
            assert(value * base <= 0x8000_0000_0000_0000 * 16) by (nonlinear_arith)
                requires
                    0 <= value <= 0x8000_0000_0000_0000,
                    0 <= base <= 16,
            ;
        }
        value = value * base as u128 + digit as u128;
        index += 1;
        if value > 0x8000_0000_0000_0000 {
            proof {
                lemma_digits_value(digits@, base as int, index as int, digits@.len() as int);
            }
            return None;
        }
    }
    if negative {
        if value == 0x8000_0000_0000_0000 {
            Some(i64::MIN)
        } else {
            Some(-(value as i64))
        }
    } else if value == 0x8000_0000_0000_0000 {
        None
    } else {
        Some(value as i64)
    }
}

/// The number that a text stands for: digits behind an optional plus sign, up
/// to a largest number.
pub open spec fn unsigned_value(text: Seq<char>, base: int, most: int) -> Option<int> {
    let digits = if text.len() > 0 && text[0] == '+' {
        text.skip(1)
    } else {
        text
    };
    if digits.len() == 0 {
        None
    } else {
        match digits_value(digits, base, digits.len() as int) {
            Some(value) => if value <= most {
                Some(value)
            } else {
                None
            },
            None => None,
        }
    }
}

/// Returns the number that digits behind an optional plus sign stand for.
pub fn read_unsigned(text: &[char], base: u64, most: u64) -> (value: Option<u64>)
    requires
        2 <= base <= 16,
    ensures
        match value {
            Some(value) => unsigned_value(text@, base as int, most as int) == Some(value as int),
            None => unsigned_value(text@, base as int, most as int) is None,
        },
{
    let digits = if text.len() > 0 && text[0] == '+' {
        vstd::slice::slice_subrange(text, 1, text.len())
    } else {
        text
    };
    proof {
        if text@.len() > 0 && text@[0] == '+' {
            assert(digits@ =~= text@.skip(1));
        }
    }
    if digits.len() == 0 {
        return None;
    }
    let mut value: u64 = 0;
    let mut index: usize = 0;
    while index < digits.len()
        invariant
            index <= digits.len(),
            2 <= base <= 16,
            digits@.len() > 0,
            digits@ == (if text@.len() > 0 && text@[0] == '+' {
                text@.skip(1)
            } else {
                text@
            }),
            digits_value(digits@, base as int, index as int) == Some(value as int),
            value <= most,
        decreases digits.len() - index,
    {
        let ghost length = digits@.len() as int;
        proof {
            lemma_digits_value(digits@, base as int, index + 1, length);
        }
        match digit_of(digits[index], base) {
            None => {
                return None;
            },
            Some(digit) => {
                assert(0 <= value * base <= 0xffff_ffff_ffff_ffff * 16) by (nonlinear_arith)
                    requires
                        0 <= value <= 0xffff_ffff_ffff_ffff,
                        2 <= base <= 16,
                ;
                let next = value as u128 * base as u128 + digit as u128;
                if next > most as u128 {
                    return None;
                }
                value = next as u64;
            },
        }
        index += 1;
    }
    Some(value)
}

/// A text and the bits of the double that it stands for.
#[derive(Debug, Clone, PartialEq, Eq)]
pub struct NumberText {
    pub text: String,
    pub bits: u64,
}

/// The bits of the double that a text stands for in a table, from an index on.
pub open spec fn bits_from(table: Seq<NumberText>, text: Seq<char>, index: int) -> Option<u64>
    decreases table.len() - index,
{
    if index < 0 || index >= table.len() {
        None
    } else if table[index].text@ == text {
        Some(table[index].bits)
    } else {
        bits_from(table, text, index + 1)
    }
}

/// Returns the bits of the double that a text stands for in a table.
pub fn look_up(table: &[NumberText], text: &str) -> (bits: Option<u64>)
    ensures
        bits == bits_from(table@, text@, 0),
{
    let mut index: usize = 0;
    while index < table.len()
        invariant
            index <= table.len(),
            bits_from(table@, text@, 0) == bits_from(table@, text@, index as int),
        decreases table.len() - index,
    {
        if same_text(table[index].text.as_str(), text) {
            return Some(table[index].bits);
        }
        index += 1;
    }
    None
}

/// Whether a function can read a double, or none, in a text.
pub open spec fn can_read<P: Fn(&str) -> Option<u64>>(
    read: P,
    text: Seq<char>,
    bits: Option<u64>,
) -> bool {
    exists|spelled: &str| spelled@ == text && #[trigger] call_ensures(read, (spelled,), bits)
}

/// The bits of the doubles that a function reads in texts.
pub open spec fn read_by<P: Fn(&str) -> Option<u64>>(read: P) -> spec_fn(Seq<char>) -> Option<
    u64,
> {
    |text: Seq<char>| choose|bits: Option<u64>| #[trigger] can_read(read, text, bits)
}

/// Whether a function reads one double, or none, in each text.
pub open spec fn is_reader<P: Fn(&str) -> Option<u64>>(read: P) -> bool {
    &&& forall|text: &str| #[trigger] call_requires(read, (text,))
    &&& forall|text: &str, bits: Option<u64>| #[trigger]
        call_ensures(read, (text,), bits) ==> bits == read_by(read)(text@)
}

/// Returns the bits of the double that a function reads in a text.
pub fn read_double<P: Fn(&str) -> Option<u64>>(read: &P, text: &str) -> (bits: Option<u64>)
    requires
        is_reader(*read),
    ensures
        bits == read_by(*read)(text@),
{
    read(text)
}

/// What stands behind the mark of a hexadecimal number: a dollar sign, or a
/// zero and an x.
pub open spec fn hexadecimal(text: Seq<char>) -> Option<Seq<char>> {
    if text.len() > 0 && text[0] == '$' {
        Some(text.skip(1))
    } else if text.len() > 1 && text[0] == '0' && (text[1] == 'x' || text[1] == 'X') {
        Some(text.skip(2))
    } else {
        None
    }
}

/// Returns what stands behind the mark of a hexadecimal number.
pub fn hexadecimal_digits(text: &[char]) -> (digits: Option<&[char]>)
    ensures
        match digits {
            Some(digits) => hexadecimal(text@) == Some(digits@),
            None => hexadecimal(text@) is None,
        },
{
    if text.len() > 0 && text[0] == '$' {
        let digits = vstd::slice::slice_subrange(text, 1, text.len());
        assert(digits@ =~= text@.skip(1));
        Some(digits)
    } else if text.len() > 1 && text[0] == '0' && (text[1] == 'x' || text[1] == 'X') {
        let digits = vstd::slice::slice_subrange(text, 2, text.len());
        assert(digits@ =~= text@.skip(2));
        Some(digits)
    } else {
        None
    }
}

/// The whole number that a text stands for: a hexadecimal or decimal one, or a
/// double that is whole.
pub open spec fn whole_value(
    numbers: spec_fn(Seq<char>) -> Option<u64>,
    text: Seq<char>,
) -> Option<int> {
    let inner = trimmed(text);
    match hexadecimal(inner) {
        Some(digits) => integer_value(digits, 16),
        None => match integer_value(inner, 10) {
            Some(value) => Some(value),
            None => match numbers(inner) {
                Some(bits) => integral_value(bits),
                None => None,
            },
        },
    }
}

/// Returns the whole number that a text stands for.
pub fn parse_integer<P: Fn(&str) -> Option<u64>>(read: &P, text: &str) -> (value: Option<i64>)
    requires
        is_reader(*read),
    ensures
        match value {
            Some(value) => whole_value(read_by(*read), text@) == Some(value as int),
            None => whole_value(read_by(*read), text@) is None,
        },
{
    let letters = characters(text);
    let inner = trim_characters(letters.as_slice());
    if let Some(digits) = hexadecimal_digits(inner) {
        return read_integer(digits, 16);
    }
    if let Some(value) = read_integer(inner, 10) {
        return Some(value);
    }
    let spelling = crate::text::spell(inner);
    match read_double(read, spelling.as_str()) {
        Some(bits) => integral(bits),
        None => None,
    }
}

} // verus!
