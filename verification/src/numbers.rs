//! Reading unsigned decimal numbers out of a field.
//!
//! Two shapes occur on the wire: a run of digits, and a run of digits with
//! an optional decimal point and fraction. Values are kept exact: the whole
//! part as an integer, the fraction in billionths, cut off (not rounded)
//! after the ninth fraction digit.

use crate::fields::{find_byte, position};
use vstd::prelude::*;
use vstd::slice::slice_subrange;

verus! {

/// `.`, which separates whole part and fraction.
pub const DECIMAL_POINT: u8 = 0x2E;

/// The digit `0`.
pub const DIGIT_ZERO: u8 = 0x30;

/// The longest whole part that is read; longer ones make the field malformed.
pub const MAX_WHOLE_DIGITS: usize = 9;

/// The weight of the first fraction digit, in billionths.
pub const TENTH_IN_NANOS: u32 = 100_000_000;

/// An ASCII decimal digit.
pub open spec fn is_digit(byte: u8) -> bool {
    0x30 <= byte <= 0x39
}

/// The number a digit stands for.
pub open spec fn digit_value(byte: u8) -> nat {
    (byte - DIGIT_ZERO) as nat
}

/// Every byte of `bytes` is a digit.
pub open spec fn all_digits(bytes: Seq<u8>) -> bool {
    forall|i: int| 0 <= i < bytes.len() ==> is_digit(#[trigger] bytes[i])
}

/// Ten to the `n`.
pub open spec fn pow10(n: nat) -> nat
    decreases n,
{
    if n == 0 {
        1
    } else {
        10 * pow10((n - 1) as nat)
    }
}

/// The number that the digits of `digits` spell in base ten.
pub open spec fn decimal_value(digits: Seq<u8>) -> nat
    decreases digits.len(),
{
    if digits.len() == 0 {
        0
    } else {
        10 * decimal_value(digits.drop_last()) + digit_value(digits.last())
    }
}

/// The value of a fraction's digits where the first digit weighs `weight`,
/// the second a tenth of that, and so on down to the last weight that is
/// still a whole number; digits beyond that are cut off.
pub open spec fn scaled_fraction(digits: Seq<u8>, weight: nat) -> nat
    decreases digits.len(),
{
    if digits.len() == 0 || weight == 0 {
        0
    } else {
        digit_value(digits[0]) * weight + scaled_fraction(digits.skip(1), weight / 10)
    }
}

/// The value of a fraction's digits in billionths.
pub open spec fn fraction_nanos(digits: Seq<u8>) -> nat {
    scaled_fraction(digits, TENTH_IN_NANOS as nat)
}

/// The number that a field of one to nine digits spells; `None` for any
/// other field, the empty one included.
pub open spec fn unsigned_of(field: Seq<u8>) -> Option<u32> {
    if 1 <= field.len() <= MAX_WHOLE_DIGITS && all_digits(field) {
        Some(decimal_value(field) as u32)
    } else {
        None
    }
}

/// An unsigned decimal number as it stood in a field.
#[derive(Debug, Clone, Copy, PartialEq, Eq)]
pub struct Decimal {
    /// The part before the decimal point.
    pub whole: u32,
    /// How many digits the part before the decimal point had.
    pub whole_digits: usize,
    /// The part after the decimal point, in billionths.
    pub nanos: u32,
}

/// The digits before the decimal point of `field`.
pub open spec fn whole_part(field: Seq<u8>) -> Seq<u8> {
    field.take(position(field, DECIMAL_POINT))
}

/// The bytes after the first decimal point of `field`; none where it has no
/// decimal point.
pub open spec fn fraction_part(field: Seq<u8>) -> Seq<u8> {
    if position(field, DECIMAL_POINT) < field.len() {
        field.skip(position(field, DECIMAL_POINT) + 1)
    } else {
        Seq::empty()
    }
}

/// The number that a field spells: one to nine digits, then optionally a
/// decimal point and any number of digits. `None` for any other field.
pub open spec fn decimal_of(field: Seq<u8>) -> Option<Decimal> {
    let whole = whole_part(field);
    let fraction = fraction_part(field);
    if 1 <= whole.len() <= MAX_WHOLE_DIGITS && all_digits(whole) && all_digits(fraction) {
        Some(
            Decimal {
                whole: decimal_value(whole) as u32,
                whole_digits: whole.len() as usize,
                nanos: fraction_nanos(fraction) as u32,
            },
        )
    } else {
        None
    }
}

/// The first ten powers of ten.
pub proof fn lemma_pow10_values()
    ensures
        pow10(0) == 1,
        pow10(1) == 10,
        pow10(2) == 100,
        pow10(3) == 1_000,
        pow10(4) == 10_000,
        pow10(5) == 100_000,
        pow10(6) == 1_000_000,
        pow10(7) == 10_000_000,
        pow10(8) == 100_000_000,
        pow10(9) == 1_000_000_000,
{
    reveal_with_fuel(pow10, 10);
}

/// `n` digits spell a number below ten to the `n`.
pub proof fn lemma_decimal_value_bound(digits: Seq<u8>)
    requires
        all_digits(digits),
    ensures
        decimal_value(digits) < pow10(digits.len()),
    decreases digits.len(),
{
    if digits.len() > 0 {
        let before = digits.drop_last();
        assert forall|i: int| 0 <= i < before.len() implies is_digit(#[trigger] before[i]) by {
            assert(before[i] == digits[i]);
        }
        assert(is_digit(digits[digits.len() - 1]));
        lemma_decimal_value_bound(before);
    }
}

/// Up to nine digits spell a number below a billion.
pub proof fn lemma_decimal_value_fits(digits: Seq<u8>)
    requires
        all_digits(digits),
        digits.len() <= MAX_WHOLE_DIGITS,
    ensures
        decimal_value(digits) < 1_000_000_000,
{
    lemma_decimal_value_bound(digits);
    lemma_pow10_values();
}

/// A fraction is worth less than ten times the weight of its first digit.
pub proof fn lemma_scaled_fraction_bound(digits: Seq<u8>, weight: nat)
    requires
        all_digits(digits),
        weight >= 1,
    ensures
        scaled_fraction(digits, weight) < 10 * weight,
    decreases digits.len(),
{
    if digits.len() > 0 {
        let rest = digits.skip(1);
        assert forall|i: int| 0 <= i < rest.len() implies is_digit(#[trigger] rest[i]) by {
            assert(rest[i] == digits[i + 1]);
        }
        assert(is_digit(digits[0]));
        let d = digit_value(digits[0]);
        assert(d * weight <= 9 * weight) by (nonlinear_arith)
            requires
                d <= 9,
        ;
        if weight / 10 >= 1 {
            lemma_scaled_fraction_bound(rest, weight / 10);
        }
    }
}

/// A fraction in billionths is below a billion.
pub proof fn lemma_fraction_nanos_fits(digits: Seq<u8>)
    requires
        all_digits(digits),
    ensures
        fraction_nanos(digits) < 1_000_000_000,
{
    lemma_scaled_fraction_bound(digits, TENTH_IN_NANOS as nat);
}

/// What `decimal_of` yields is in range: the whole part is below a billion
/// and has the number of digits it says, and so is the fraction.
pub proof fn lemma_decimal_of_bounds(field: Seq<u8>)
    ensures
        decimal_of(field) matches Some(number) ==> {
            &&& number.whole == decimal_value(whole_part(field))
            &&& number.whole < 1_000_000_000
            &&& 1 <= number.whole_digits <= MAX_WHOLE_DIGITS
            &&& number.whole < pow10(number.whole_digits as nat)
            &&& number.nanos == fraction_nanos(fraction_part(field))
            &&& number.nanos < 1_000_000_000
        },
{
    if decimal_of(field) is Some {
        lemma_decimal_value_bound(whole_part(field));
        lemma_decimal_value_fits(whole_part(field));
        lemma_fraction_nanos_fits(fraction_part(field));
    }
}

/// Whether `byte` is a decimal digit.
pub fn is_digit_byte(byte: u8) -> (out: bool)
    ensures
        out == is_digit(byte),
{
    0x30 <= byte && byte <= 0x39
}

/// Whether `bytes` holds digits only.
pub fn check_digits(bytes: &[u8]) -> (out: bool)
    ensures
        out == all_digits(bytes@),
{
    let mut i: usize = 0;
    while i < bytes.len()
        invariant
            i <= bytes.len(),
            forall|k: int| 0 <= k < i ==> is_digit(#[trigger] bytes@[k]),
        decreases bytes.len() - i,
    {
        if !is_digit_byte(bytes[i]) {
            assert(!is_digit(bytes@[i as int]));
            return false;
        }
        i += 1;
    }
    true
}

/// The number that up to nine digits spell.
fn read_digits(digits: &[u8]) -> (out: u32)
    requires
        all_digits(digits@),
        digits@.len() <= MAX_WHOLE_DIGITS,
    ensures
        out == decimal_value(digits@),
{
    let mut value: u32 = 0;
    let mut i: usize = 0;
    assert(digits@.take(0) == Seq::<u8>::empty());
    while i < digits.len()
        invariant
            i <= digits.len(),
            digits@.len() <= MAX_WHOLE_DIGITS,
            all_digits(digits@),
            value == decimal_value(digits@.take(i as int)),
        decreases digits.len() - i,
    {
        proof {
            let next = digits@.take(i + 1);
            assert(next.drop_last() == digits@.take(i as int));
            assert(next.last() == digits@[i as int]);
            assert forall|k: int| 0 <= k < next.len() implies is_digit(#[trigger] next[k]) by {
                assert(next[k] == digits@[k]);
            }
            lemma_decimal_value_fits(next);
            assert(is_digit(digits@[i as int]));
        }
        value = value * 10 + (digits[i] - DIGIT_ZERO) as u32;
        i += 1;
    }
    assert(digits@.take(i as int) == digits@);
    value
}

/// The value in billionths that the digits of a fraction spell.
fn read_fraction(digits: &[u8]) -> (out: u32)
    requires
        all_digits(digits@),
    ensures
        out == fraction_nanos(digits@),
{
    let mut value: u32 = 0;
    let mut weight: u32 = TENTH_IN_NANOS;
    let mut i: usize = 0;
    proof {
        lemma_fraction_nanos_fits(digits@);
        assert(digits@.skip(0) == digits@);
    }
    while i < digits.len() && weight > 0
        invariant
            i <= digits.len(),
            all_digits(digits@),
            fraction_nanos(digits@) < 1_000_000_000,
            value + scaled_fraction(digits@.skip(i as int), weight as nat) == fraction_nanos(
                digits@,
            ),
        decreases digits.len() - i,
    {
        proof {
            assert(digits@.skip(i as int).skip(1) == digits@.skip(i + 1));
            assert(digits@.skip(i as int)[0] == digits@[i as int]);
            assert(is_digit(digits@[i as int]));
        }
        value = value + (digits[i] - DIGIT_ZERO) as u32 * weight;
        weight = weight / 10;
        i += 1;
    }
    value
}

/// Reads a field of one to nine digits.
pub fn parse_unsigned(field: &[u8]) -> (out: Option<u32>)
    ensures
        out == unsigned_of(field@),
{
    if field.len() == 0 || field.len() > MAX_WHOLE_DIGITS || !check_digits(field) {
        return None;
    }
    proof {
        lemma_decimal_value_fits(field@);
    }
    Some(read_digits(field))
}

/// Reads a field of one to nine digits with an optional fraction.
pub fn parse_decimal(field: &[u8]) -> (out: Option<Decimal>)
    ensures
        out == decimal_of(field@),
{
    let point: usize = find_byte(field, DECIMAL_POINT);
    let whole = slice_subrange(field, 0, point);
    let fraction = if point < field.len() {
        slice_subrange(field, point + 1, field.len())
    } else {
        slice_subrange(field, point, point)
    };
    proof {
        assert(whole@ == whole_part(field@));
        assert(fraction@ == fraction_part(field@));
    }
    if whole.len() == 0 || whole.len() > MAX_WHOLE_DIGITS || !check_digits(whole) || !check_digits(
        fraction,
    ) {
        return None;
    }
    proof {
        lemma_decimal_value_fits(whole@);
        lemma_fraction_nanos_fits(fraction@);
    }
    Some(
        Decimal {
            whole: read_digits(whole),
            whole_digits: whole.len(),
            nanos: read_fraction(fraction),
        },
    )
}

} // verus!
