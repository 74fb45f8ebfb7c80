//! Amounts of money: decimal numbers with a fixed number of decimal places.

use crate::text::{digit, digits_value, first_position, outcome, padded};
use rust_decimal::Decimal;
use std::str::FromStr;
use vstd::arithmetic::power::pow;
use vstd::prelude::*;

verus! {

/// The largest number of decimal places that an amount has.
pub const MAX_SCALE: u32 = 28;

/// The mantissa of an amount stays below this, two to the power of 96.
pub const MANTISSA_LIMIT: u128 = 0x1_0000_0000_0000_0000_0000_0000;

/// The number `mantissa / 10^scale`, with its sign. A zero has a sign too.
#[derive(Debug, Clone, Copy, PartialEq, Eq, Structural)]
pub struct Amount {
    pub negative: bool,
    pub mantissa: u128,
    pub scale: u32,
}

impl Amount {
    /// Whether the parts lie in the range of a decimal number.
    pub open spec fn valid(self) -> bool {
        self.mantissa < MANTISSA_LIMIT && self.scale <= MAX_SCALE
    }

    /// The amount counted in units of its last decimal place.
    pub open spec fn units(self) -> int {
        if self.negative {
            -(self.mantissa as int)
        } else {
            self.mantissa as int
        }
    }

    /// The amount counted in units of ten to the power of `-places`.
    pub open spec fn units_at(self, places: nat) -> int {
        self.units() * pow(10, (places - self.scale) as nat)
    }

    /// The amount with the other sign.
    pub open spec fn opposite(self) -> Amount {
        Amount { negative: !self.negative, ..self }
    }

    /// The amount zero, without decimal places.
    pub open spec fn nothing() -> Amount {
        Amount { negative: false, mantissa: 0, scale: 0 }
    }

    /// The amount zero, without decimal places.
    pub fn zero() -> (result: Amount)
        ensures
            result == Amount::nothing(),
            result.valid(),
    {
        Amount { negative: false, mantissa: 0, scale: 0 }
    }

    /// The amount with the other sign.
    pub fn negated(self) -> (result: Amount)
        ensures
            result == self.opposite(),
            self.valid() ==> result.valid(),
    {
        Amount { negative: !self.negative, mantissa: self.mantissa, scale: self.scale }
    }
}

/// Whether two amounts are the same number, whatever their decimal places.
pub open spec fn same_value(left: Amount, right: Amount) -> bool {
    left.units() * pow(10, right.scale as nat) == right.units() * pow(10, left.scale as nat)
}

/// What stands before the point of a number.
pub open spec fn whole_part(text: Seq<char>) -> Seq<char> {
    text.take(first_position(text, '.'))
}

/// What stands behind the point of a number, if it has one.
pub open spec fn decimal_places(text: Seq<char>) -> Seq<char> {
    let point = first_position(text, '.');
    if point < text.len() {
        text.skip(point + 1)
    } else {
        Seq::empty()
    }
}

/// Whether a text is a number of at most 28 digits with at most one point.
pub open spec fn plain_number(text: Seq<char>) -> bool {
    let digits = whole_part(text) + decimal_places(text);
    &&& forall|i: int| 0 <= i < digits.len() ==> digit(#[trigger] digits[i])
    &&& 1 <= digits.len() <= 28
}

/// What a plain number says: its digits, and as many decimal places as
/// digits follow the point.
pub open spec fn plain_amount(text: Seq<char>) -> Amount {
    Amount {
        negative: false,
        mantissa: digits_value(whole_part(text) + decimal_places(text)) as u128,
        scale: decimal_places(text).len() as u32,
    }
}

/// Whether a text has the characters of a number alone, and at most one point:
/// digits, underscores, signs and the letter of an exponent.
pub open spec fn number_characters(text: Seq<char>) -> bool {
    &&& text.len() > 0
    &&& forall|i: int|
        0 <= i < text.len() ==> digit(#[trigger] text[i]) || text[i] == '.' || text[i] == '_'
            || text[i] == '+' || text[i] == '-' || text[i] == 'e' || text[i] == 'E'
    &&& forall|i: int, j: int|
        0 <= i < j < text.len() && #[trigger] text[i] == '.' ==> #[trigger] text[j] != '.'
}

/// What `Decimal::from_str` makes of a text: the number, or the text of its error.
pub uninterp spec fn decimal_of(text: Seq<char>) -> Result<Amount, Seq<char>>;

/// Reads a number with `Decimal::from_str`. The outcome goes by the text alone,
/// the number lies in the range of a decimal number, it is negative only behind
/// a minus sign, a plain number is read digit by digit, and other characters or
/// two points are no number.
#[verifier::external_body]
pub(crate) fn parse_decimal(text: &str) -> (result: Result<Amount, String>)
    ensures
        outcome(result) == decimal_of(text@),
        result is Ok ==> result->Ok_0.valid(),
        result is Ok ==> number_characters(text@),
        result is Ok && result->Ok_0.negative ==> text@.len() > 0 && text@[0] == '-',
        plain_number(text@) ==> result is Ok && result->Ok_0 == plain_amount(text@),
{
    match Decimal::from_str(text) {
        Ok(number) => Ok(
            Amount {
                negative: number.is_sign_negative(),
                mantissa: number.mantissa().unsigned_abs(),
                scale: number.scale(),
            },
        ),
        Err(error) => Err(error.to_string()),
    }
}

/// Whether a sum needs no rounding: brought to the larger number of decimal
/// places, both amounts and their sum keep a mantissa in range.
pub open spec fn sum_fits(left: Amount, right: Amount) -> bool {
    let places = if left.scale < right.scale {
        right.scale as nat
    } else {
        left.scale as nat
    };
    &&& -MANTISSA_LIMIT < left.units_at(places) < MANTISSA_LIMIT
    &&& -MANTISSA_LIMIT < right.units_at(places) < MANTISSA_LIMIT
    &&& -MANTISSA_LIMIT < left.units_at(places) + right.units_at(places) < MANTISSA_LIMIT
}

/// Whether an amount is exactly the sum of two others.
pub open spec fn exact_sum(left: Amount, right: Amount, sum: Amount) -> bool {
    sum.units_at(MAX_SCALE as nat) == left.units_at(MAX_SCALE as nat) + right.units_at(
        MAX_SCALE as nat,
    )
}

/// What `Decimal::checked_add` makes of two amounts.
pub uninterp spec fn decimal_sum(left: Amount, right: Amount) -> Option<Amount>;

/// Adds two amounts with `Decimal::checked_add`, which gives nothing where the
/// sum is out of range. The outcome goes by the amounts alone, it has no more
/// decimal places than both of them, and a sum that needs no rounding is exact.
#[verifier::external_body]
pub(crate) fn add_decimals(left: Amount, right: Amount) -> (result: Option<Amount>)
    requires
        left.valid(),
        right.valid(),
    ensures
        result == decimal_sum(left, right),
        result is Some ==> result->0.valid(),
        result is Some ==> (result->0.scale <= left.scale || result->0.scale <= right.scale),
        sum_fits(left, right) ==> result is Some && exact_sum(left, right, result->0),
{
    let mut first = Decimal::from_i128_with_scale(left.mantissa as i128, left.scale);
    first.set_sign_negative(left.negative);
    let mut second = Decimal::from_i128_with_scale(right.mantissa as i128, right.scale);
    second.set_sign_negative(right.negative);
    first.checked_add(second).map(
        |sum: Decimal|
            Amount {
                negative: sum.is_sign_negative(),
                mantissa: sum.mantissa().unsigned_abs(),
                scale: sum.scale(),
            },
    )
}

/// What `Decimal::checked_sub` makes of two amounts.
pub uninterp spec fn decimal_difference(left: Amount, right: Amount) -> Option<Amount>;

/// Subtracts an amount with `Decimal::checked_sub`, which gives nothing where
/// the difference is out of range. The outcome goes by the amounts alone, it has
/// no more decimal places than both of them, and a difference that needs no
/// rounding is exact.
#[verifier::external_body]
pub(crate) fn subtract_decimals(left: Amount, right: Amount) -> (result: Option<Amount>)
    requires
        left.valid(),
        right.valid(),
    ensures
        result == decimal_difference(left, right),
        result is Some ==> result->0.valid(),
        result is Some ==> (result->0.scale <= left.scale || result->0.scale <= right.scale),
        sum_fits(left, right.opposite()) ==> result is Some && exact_sum(
            left,
            right.opposite(),
            result->0,
        ),
{
    let mut first = Decimal::from_i128_with_scale(left.mantissa as i128, left.scale);
    first.set_sign_negative(left.negative);
    let mut second = Decimal::from_i128_with_scale(right.mantissa as i128, right.scale);
    second.set_sign_negative(right.negative);
    first.checked_sub(second).map(
        |difference: Decimal|
            Amount {
                negative: difference.is_sign_negative(),
                mantissa: difference.mantissa().unsigned_abs(),
                scale: difference.scale(),
            },
    )
}

/// Compares two amounts with `==` of `Decimal`, which goes by the number alone.
#[verifier::external_body]
pub(crate) fn equal_decimals(left: Amount, right: Amount) -> (result: bool)
    requires
        left.valid(),
        right.valid(),
    ensures
        result == same_value(left, right),
{
    let mut first = Decimal::from_i128_with_scale(left.mantissa as i128, left.scale);
    first.set_sign_negative(left.negative);
    let mut second = Decimal::from_i128_with_scale(right.mantissa as i128, right.scale);
    second.set_sign_negative(right.negative);
    first == second
}

/// An amount as it is written: a minus sign where it is negative, at least one
/// digit, and the decimal places behind a point.
pub open spec fn amount_text(amount: Amount) -> Seq<char> {
    let digits = padded(amount.mantissa as nat, (amount.scale + 1) as nat);
    let point = digits.len() - amount.scale;
    let sign = if amount.negative {
        seq!['-']
    } else {
        Seq::empty()
    };
    if amount.scale == 0 {
        sign + digits
    } else {
        sign + digits.take(point) + seq!['.'] + digits.skip(point)
    }
}

/// Writes an amount with `to_string` of `Decimal`.
#[verifier::external_body]
pub(crate) fn write_decimal(amount: Amount) -> (result: String)
    requires
        amount.valid(),
    ensures
        result@ == amount_text(amount),
{
    let mut number = Decimal::from_i128_with_scale(amount.mantissa as i128, amount.scale);
    number.set_sign_negative(amount.negative);
    number.to_string()
}

} // verus!
