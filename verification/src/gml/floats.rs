//! Doubles, given by their bits: what can be said of one without computing
//! with it.

use vstd::arithmetic::power2::*;
use vstd::prelude::*;

verus! {

/// The bits of one.
pub const ONE: u64 = 0x3ff0_0000_0000_0000;

/// The bits of one half.
pub const HALF: u64 = 0x3fe0_0000_0000_0000;

/// The bits of infinity.
pub const INFINITY: u64 = 0x7ff0_0000_0000_0000;

/// The bit of the sign.
pub const SIGN: u64 = 0x8000_0000_0000_0000;

/// What adding, subtracting and the like do to doubles. The operands and the
/// result are bits; `FromInteger` reads its first operand as a signed number.
#[derive(Debug, Clone, Copy, PartialEq, Eq, Structural)]
pub enum FloatOperation {
    Add,
    Subtract,
    Multiply,
    Divide,
    Remainder,
    RoundTiesEven,
    FromInteger,
}

/// Whether a double has a sign.
pub open spec fn is_signed(bits: u64) -> bool {
    bits >= SIGN
}

/// The bits of a double without its sign.
pub open spec fn unsigned_bits(bits: u64) -> int {
    (bits % SIGN) as int
}

/// The exponent field of a double.
pub open spec fn exponent_field(bits: u64) -> int {
    unsigned_bits(bits) / 0x10_0000_0000_0000
}

/// The whole number that a double is a multiple of a power of two of.
pub open spec fn significand(bits: u64) -> int {
    let fraction = bits % 0x10_0000_0000_0000;
    if exponent_field(bits) == 0 {
        fraction as int
    } else {
        fraction + 0x10_0000_0000_0000
    }
}

/// The exponent of that power of two.
pub open spec fn scale(bits: u64) -> int {
    (if exponent_field(bits) == 0 {
        1
    } else {
        exponent_field(bits)
    }) - 1075
}

/// Whether a double is not a number.
pub open spec fn is_nan(bits: u64) -> bool {
    unsigned_bits(bits) > INFINITY
}

/// Whether a double is neither infinite nor not a number.
pub open spec fn is_finite(bits: u64) -> bool {
    unsigned_bits(bits) < INFINITY
}

/// Whether a double is a whole number.
pub open spec fn is_whole(bits: u64) -> bool {
    is_finite(bits) && (scale(bits) >= 0 || significand(bits) % pow2((-scale(bits)) as nat) as int
        == 0)
}

/// The whole part of the magnitude of a finite double.
pub open spec fn magnitude(bits: u64) -> int {
    if scale(bits) >= 0 {
        significand(bits) * pow2(scale(bits) as nat)
    } else {
        significand(bits) / pow2((-scale(bits)) as nat) as int
    }
}

/// A number, held within bounds.
pub open spec fn clamped(value: int, least: int, most: int) -> int {
    if value < least {
        least
    } else if value > most {
        most
    } else {
        value
    }
}

/// A double without its fraction, held within bounds; zero if it is not a
/// number.
pub open spec fn truncated(bits: u64, least: int, most: int) -> int {
    if is_nan(bits) {
        0
    } else if !is_finite(bits) {
        if is_signed(bits) {
            least
        } else {
            most
        }
    } else {
        clamped(
            if is_signed(bits) {
                -magnitude(bits)
            } else {
                magnitude(bits)
            },
            least,
            most,
        )
    }
}

/// The whole number that a double is, if it is one between -2^63 and 2^63. The
/// latter is held within 64 bits.
pub open spec fn integral_value(bits: u64) -> Option<int> {
    if is_whole(bits) && -0x8000_0000_0000_0000 <= (if is_signed(bits) {
        -magnitude(bits)
    } else {
        magnitude(bits)
    }) <= 0x8000_0000_0000_0000 {
        Some(truncated(bits, i64::MIN as int, i64::MAX as int))
    } else {
        None
    }
}

/// Whether a double is one half or more.
pub open spec fn is_half_or_more(bits: u64) -> bool {
    HALF <= bits <= INFINITY
}

/// Whether a double is more than one half.
pub open spec fn is_more_than_half(bits: u64) -> bool {
    HALF < bits <= INFINITY
}

/// Whether a double is zero, with either sign.
pub open spec fn is_zero(bits: u64) -> bool {
    unsigned_bits(bits) == 0
}

/// Whether a double is less than zero.
pub open spec fn is_negative(bits: u64) -> bool {
    is_signed(bits) && !is_zero(bits) && !is_nan(bits)
}

/// Whether a double is more than zero.
pub open spec fn is_positive(bits: u64) -> bool {
    !is_signed(bits) && !is_zero(bits) && !is_nan(bits)
}

/// The bits of a double with the other sign.
pub open spec fn negated(bits: u64) -> int {
    if is_signed(bits) {
        bits - SIGN
    } else {
        bits + SIGN
    }
}

fn strip_sign(bits: u64) -> (result: u64)
    ensures
        result == unsigned_bits(bits),
        result < SIGN,
{
    bits % SIGN
}

/// Returns whether a double is zero, with either sign.
pub fn zero(bits: u64) -> (result: bool)
    ensures
        result == is_zero(bits),
{
    strip_sign(bits) == 0
}

/// Returns whether a double is less than zero.
pub fn negative(bits: u64) -> (result: bool)
    ensures
        result == is_negative(bits),
{
    bits >= SIGN && strip_sign(bits) != 0 && strip_sign(bits) <= INFINITY
}

/// Returns whether a double is more than zero.
pub fn positive(bits: u64) -> (result: bool)
    ensures
        result == is_positive(bits),
{
    bits < SIGN && bits != 0 && bits <= INFINITY
}

/// Returns whether a double is one half or more.
pub fn half_or_more(bits: u64) -> (result: bool)
    ensures
        result == is_half_or_more(bits),
{
    HALF <= bits && bits <= INFINITY
}

/// Returns whether a double is more than one half.
pub fn more_than_half(bits: u64) -> (result: bool)
    ensures
        result == is_more_than_half(bits),
{
    HALF < bits && bits <= INFINITY
}

/// Returns whether a double is neither infinite nor not a number.
pub fn finite(bits: u64) -> (result: bool)
    ensures
        result == is_finite(bits),
{
    strip_sign(bits) < INFINITY
}

/// Returns the bits of a double with the other sign.
pub fn negate(bits: u64) -> (result: u64)
    ensures
        result == negated(bits),
{
    if bits >= SIGN {
        bits - SIGN
    } else {
        bits + SIGN
    }
}

fn power_of_two(exponent: u32) -> (power: u64)
    requires
        exponent < 64,
    ensures
        power == pow2(exponent as nat),
{
    proof {
        lemma2_to64();
        lemma2_to64_rest();
    }
    let mut power: u64 = 1;
    let mut count: u32 = 0;
    while count < exponent
        invariant
            count <= exponent < 64,
            power == pow2(count as nat),
            pow2(63) == 0x8000_0000_0000_0000,
        decreases exponent - count,
    {
        proof {
            lemma_pow2_unfold((count + 1) as nat);
            if count + 1 < 63 {
                lemma_pow2_strictly_increases((count + 1) as nat, 63);
            }
        }
        power = power * 2;
        count += 1;
    }
    power
}

/// The magnitude of a finite double if it is at most 2^64 - 1, and whether it
/// is the whole of it.
fn whole_part(bits: u64) -> (result: Option<(u64, bool)>)
    requires
        is_finite(bits),
    ensures
        match result {
            Some((part, whole)) => part == magnitude(bits) && whole == is_whole(bits),
            None => magnitude(bits) > u64::MAX && is_whole(bits),
        },
{
    let field: u64 = strip_sign(bits) / 0x10_0000_0000_0000;
    let fraction: u64 = bits % 0x10_0000_0000_0000;
    let number: u64 = if field == 0 {
        fraction
    } else {
        fraction + 0x10_0000_0000_0000
    };
    assert(number == significand(bits));
    let raised: u64 = if field == 0 {
        1
    } else {
        field
    };
    assert(scale(bits) == raised - 1075);
    proof {
        lemma2_to64();
        lemma2_to64_rest();
    }
    if raised >= 1075 {
        let shift: u64 = raised - 1075;
        if shift >= 12 {
            proof {
                assert(number >= 0x10_0000_0000_0000);
                if shift > 12 {
                    lemma_pow2_strictly_increases(12, shift as nat);
                }
                assert(pow2(12) == 4096);
                assert(significand(bits) * pow2(shift as nat) >= 0x10_0000_0000_0000 * 4096)
                    by (nonlinear_arith)
                    requires
                        significand(bits) >= 0x10_0000_0000_0000,
                        pow2(shift as nat) >= 4096,
                ;
            }
            return None;
        }
        let power = power_of_two(shift as u32);
        proof {
            if shift < 11 {
                lemma_pow2_strictly_increases(shift as nat, 11);
            }
            assert(power <= 2048);
            assert(number * power <= 0x1f_ffff_ffff_ffff * 2048) by (nonlinear_arith)
                requires
                    number <= 0x1f_ffff_ffff_ffff,
                    power <= 2048,
            ;
        }
        Some((number * power, true))
    } else {
        let shift: u64 = 1075 - raised;
        if shift >= 53 {
            proof {
                if shift > 53 {
                    lemma_pow2_strictly_increases(53, shift as nat);
                }
                vstd::arithmetic::div_mod::lemma_basic_div(
                    significand(bits),
                    pow2(shift as nat) as int,
                );
                vstd::arithmetic::div_mod::lemma_small_mod(
                    number as nat,
                    pow2(shift as nat),
                );
            }
            return Some((0, number == 0));
        }
        let power = power_of_two(shift as u32);
        proof {
            lemma_pow2_pos(shift as nat);
        }
        Some((number / power, number % power == 0))
    }
}

/// Returns a double without its fraction, held within 64 bits.
pub fn to_i64(bits: u64) -> (value: i64)
    ensures
        value == truncated(bits, i64::MIN as int, i64::MAX as int),
{
    if strip_sign(bits) > INFINITY {
        return 0;
    }
    let signed = bits >= SIGN;
    let part = if finite(bits) {
        match whole_part(bits) {
            Some((part, _)) => part,
            None => u64::MAX,
        }
    } else {
        u64::MAX
    };
    if signed {
        if part >= 0x8000_0000_0000_0000 {
            i64::MIN
        } else {
            -(part as i64)
        }
    } else if part > 0x7fff_ffff_ffff_ffff {
        i64::MAX
    } else {
        part as i64
    }
}

/// Returns a double without its fraction, held within 32 bits.
pub fn to_i32(bits: u64) -> (value: i32)
    ensures
        value == truncated(bits, i32::MIN as int, i32::MAX as int),
{
    let value = to_i64(bits);
    if value < i32::MIN as i64 {
        i32::MIN
    } else if value > i32::MAX as i64 {
        i32::MAX
    } else {
        value as i32
    }
}

/// Returns a double without its fraction, held within 16 bits.
pub fn to_i16(bits: u64) -> (value: i16)
    ensures
        value == truncated(bits, i16::MIN as int, i16::MAX as int),
{
    let value = to_i64(bits);
    if value < i16::MIN as i64 {
        i16::MIN
    } else if value > i16::MAX as i64 {
        i16::MAX
    } else {
        value as i16
    }
}

/// Returns the whole number that a double is, if it is one of 64 bits.
pub fn integral(bits: u64) -> (value: Option<i64>)
    ensures
        match value {
            Some(value) => integral_value(bits) == Some(value as int),
            None => integral_value(bits) is None,
        },
{
    if !finite(bits) {
        return None;
    }
    match whole_part(bits) {
        Some((part, whole)) => if whole && part <= 0x8000_0000_0000_0000 {
            Some(to_i64(bits))
        } else {
            None
        },
        None => None,
    }
}

} // verus!
