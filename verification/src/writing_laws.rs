//! What is written of dates and amounts reads back as it was.

use crate::amount::{amount_text, decimal_places, plain_amount, plain_number, whole_part, Amount};
use crate::date::{calendar_date, dashed_date, date_of_dashed, date_text, Date};
use crate::text::{
    digit, digits_of, digits_value, lemma_first_position_is, padded, trimmed, trimmed_end,
    trimmed_start, white_space,
};
use vstd::arithmetic::power::{lemma_pow0, lemma_pow1, lemma_pow_adds, pow};
use vstd::prelude::*;

verus! {

/// The digits of a number are digits, and write the number.
pub proof fn law_digits_read_back(number: nat)
    ensures
        digits_value(digits_of(number)) == number,
        forall|i: int| 0 <= i < digits_of(number).len() ==> digit(#[trigger] digits_of(number)[i]),
    decreases number,
{
    if number > 0 {
        law_digits_read_back(number / 10);
        let shorter = digits_of(number / 10);
        let last = ('0' as nat + number % 10) as char;
        assert('0' as nat == 48 && last as nat == 48 + number % 10);
        assert(digits_of(number).drop_last() =~= shorter);
        assert forall|i: int| 0 <= i < digits_of(number).len() implies digit(
            #[trigger] digits_of(number)[i],
        ) by {
            if i < shorter.len() {
                assert(digits_of(number)[i] == shorter[i]);
            }
        }
    }
}

/// Zeros before digits do not change the number that they write.
proof fn lemma_leading_zeros(zeros: nat, digits: Seq<char>)
    ensures
        digits_value(Seq::new(zeros, |i: int| '0') + digits) == digits_value(digits),
    decreases zeros + digits.len(),
{
    let row = Seq::new(zeros, |i: int| '0');
    let all = row + digits;
    if digits.len() > 0 {
        lemma_leading_zeros(zeros, digits.drop_last());
        assert(all.drop_last() =~= row + digits.drop_last());
    } else if zeros > 0 {
        let fewer = (zeros - 1) as nat;
        lemma_leading_zeros(fewer, digits);
        assert(all.drop_last() =~= Seq::new(fewer, |i: int| '0') + digits);
        assert(all.last() == '0');
    } else {
        assert(all =~= digits);
    }
}

/// The digits of a number with zeros before them write the number.
proof fn lemma_padded(number: nat, width: nat)
    ensures
        digits_value(padded(number, width)) == number,
        padded(number, width).len() >= width,
        padded(number, width).len() == width || padded(number, width) == digits_of(number),
        forall|i: int|
            0 <= i < padded(number, width).len() ==> digit(#[trigger] padded(number, width)[i]),
{
    law_digits_read_back(number);
    let digits = digits_of(number);
    if digits.len() < width {
        lemma_leading_zeros((width - digits.len()) as nat, digits);
        assert forall|i: int| 0 <= i < padded(number, width).len() implies digit(
            #[trigger] padded(number, width)[i],
        ) by {
            if i >= width - digits.len() {
                assert(padded(number, width)[i] == digits[i - (width - digits.len())]);
            }
        }
    }
}

/// A number below a power of ten has no more digits than the exponent says.
proof fn lemma_digit_count(number: nat, count: nat)
    requires
        number < pow(10, count),
    ensures
        digits_of(number).len() <= count,
    decreases count,
{
    if number > 0 {
        if count == 0 {
            lemma_pow0(10);
        } else {
            let fewer = (count - 1) as nat;
            lemma_pow_adds(10, fewer, 1);
            lemma_pow1(10);
            assert(number / 10 < pow(10, fewer)) by (nonlinear_arith)
                requires
                    number < pow(10, fewer) * 10,
            ;
            lemma_digit_count(number / 10, fewer);
        }
    }
}

/// The powers of ten that dates need.
proof fn lemma_small_powers()
    ensures
        pow(10, 2) == 100,
        pow(10, 4) == 10000,
{
    lemma_pow1(10);
    lemma_pow_adds(10, 1, 1);
    lemma_pow_adds(10, 2, 2);
    assert(pow(10, 4) == 10000) by (nonlinear_arith)
        requires
            pow(10, 2) == 100,
            pow(10, 4) == pow(10, 2) * pow(10, 2),
    ;
}

/// A date of a year with at most four digits reads back as it was written.
pub proof fn law_date_reads_back(date: Date)
    requires
        date.valid(),
        0 <= date.year <= 9999,
    ensures
        dashed_date(date_text(date)),
        date_of_dashed(date_text(date)) == Some(date),
{
    lemma_small_powers();
    lemma_padded(date.year as nat, 4);
    lemma_padded(date.month as nat, 2);
    lemma_padded(date.day as nat, 2);
    lemma_digit_count(date.year as nat, 4);
    lemma_digit_count(date.month as nat, 2);
    lemma_digit_count(date.day as nat, 2);
    let year = padded(date.year as nat, 4);
    let month = padded(date.month as nat, 2);
    let day = padded(date.day as nat, 2);
    let text = date_text(date);
    assert(year.len() == 4 && month.len() == 2 && day.len() == 2);
    assert(text.subrange(0, 4) =~= year);
    assert(text.subrange(5, 7) =~= month);
    assert(text.subrange(8, 10) =~= day);
    assert forall|i: int| 0 <= i < 10 && i != 4 && i != 7 implies digit(#[trigger] text[i]) by {
        if i < 4 {
            assert(text[i] == year[i]);
        } else if i < 7 {
            assert(text[i] == month[i - 5]);
        } else {
            assert(text[i] == day[i - 8]);
        }
    }
    assert(calendar_date(date.year, date.month, date.day) == Some(date));
}

/// Digits with a point among them, or with none, are taken apart at the point.
proof fn lemma_point(digits: Seq<char>, places: int)
    requires
        forall|i: int| 0 <= i < digits.len() ==> digit(#[trigger] digits[i]),
        0 <= places < digits.len(),
    ensures
        ({
            let point = digits.len() - places;
            let text = if places == 0 {
                digits
            } else {
                digits.take(point) + seq!['.'] + digits.skip(point)
            };
            &&& whole_part(text) + decimal_places(text) == digits
            &&& decimal_places(text).len() == places
        }),
{
    let point = digits.len() - places;
    if places == 0 {
        assert forall|i: int| 0 <= i < digits.len() implies digits[i] != '.' by {
            assert(digit(digits[i]));
        }
        lemma_first_position_is(digits, '.', digits.len() as int);
        assert(whole_part(digits) + decimal_places(digits) =~= digits);
    } else {
        let text = digits.take(point) + seq!['.'] + digits.skip(point);
        assert forall|i: int| 0 <= i < point implies text[i] != '.' by {
            assert(text[i] == digits[i]);
            assert(digit(digits[i]));
        }
        assert(text[point] == '.');
        lemma_first_position_is(text, '.', point);
        assert(whole_part(text) =~= digits.take(point));
        assert(decimal_places(text) =~= digits.skip(point));
        assert(digits.take(point) + digits.skip(point) =~= digits);
    }
}

/// Digits with or without a point among them are a plain number where there are at most
/// 28. It has these digits, and as many decimal places as digits follow the point.
pub proof fn law_plain_number_digit_by_digit(whole: Seq<char>, places: Seq<char>)
    requires
        forall|i: int| 0 <= i < whole.len() ==> digit(#[trigger] whole[i]),
        forall|i: int| 0 <= i < places.len() ==> digit(#[trigger] places[i]),
        1 <= whole.len() + places.len() <= 28,
    ensures
        plain_number(whole + seq!['.'] + places),
        plain_amount(whole + seq!['.'] + places) == (Amount {
            negative: false,
            mantissa: digits_value(whole + places) as u128,
            scale: places.len() as u32,
        }),
        places.len() == 0 ==> plain_number(whole) && plain_amount(whole) == (Amount {
            negative: false,
            mantissa: digits_value(whole) as u128,
            scale: 0,
        }),
{
    let text = whole + seq!['.'] + places;
    let point: int = whole.len() as int;
    assert forall|i: int| 0 <= i < point implies text[i] != '.' && whole[i] != '.' by {
        assert(text[i] == whole[i]);
        assert(digit(whole[i]));
    }
    assert(text[point] == '.');
    lemma_first_position_is(text, '.', point);
    assert(whole_part(text) =~= whole);
    assert(decimal_places(text) =~= places);
    let digits = whole + places;
    assert forall|i: int| 0 <= i < digits.len() implies digit(#[trigger] digits[i]) by {
        if i < point {
            assert(digits[i] == whole[i]);
        } else {
            assert(digits[i] == places[i - point]);
        }
    }
    if places.len() == 0 {
        lemma_first_position_is(whole, '.', point);
        assert(whole_part(whole) =~= whole);
        assert(whole + decimal_places(whole) =~= whole);
    }
}

/// The calendar has the days of each month, and a 29th of February in each fourth year
/// but for those that end a century, unless the century is a fourth one. An amount is in
/// range with a mantissa of 96 bits and 28 decimal places.
pub proof fn law_what_is_in_range(date: Date, amount: Amount)
    ensures
        date.valid() <==> {
            let (year, month, day) = (date.year as int, date.month as int, date.day as int);
            let long = month == 1 || month == 3 || month == 5 || month == 7 || month == 8 || month
                == 10 || month == 12;
            let short = month == 4 || month == 6 || month == 9 || month == 11;
            let leap = year % 400 == 0 || year % 4 == 0 && year % 100 != 0;
            &&& -262_143 <= year <= 262_142
            &&& day >= 1
            &&& long && day <= 31 || short && day <= 30 || month == 2 && day <= 28 || month == 2
                && leap && day == 29
        },
        amount.valid() <==> amount.mantissa < 0x1_0000_0000_0000_0000_0000_0000 && amount.scale
            <= 28,
{
}

/// An amount that is not negative and is written with at most 28 digits reads
/// back as it was written.
pub proof fn law_amount_reads_back(amount: Amount)
    requires
        amount.valid(),
        !amount.negative,
        amount.mantissa < pow(10, 28),
        amount.scale < 28,
    ensures
        plain_number(amount_text(amount)),
        plain_amount(amount_text(amount)) == amount,
{
    let width = (amount.scale + 1) as nat;
    let digits = padded(amount.mantissa as nat, width);
    let text = amount_text(amount);
    lemma_padded(amount.mantissa as nat, width);
    lemma_digit_count(amount.mantissa as nat, 28);
    lemma_point(digits, amount.scale as int);
    let point = digits.len() - amount.scale;
    let expected = if amount.scale == 0 {
        digits
    } else {
        digits.take(point) + seq!['.'] + digits.skip(point)
    };
    assert(text =~= expected);
}

/// A negative amount is written as the other with a minus sign before it.
pub proof fn law_minus_sign_of_an_amount(amount: Amount)
    requires
        amount.negative,
    ensures
        amount_text(amount) == seq!['-'] + amount_text(amount.opposite()),
        !amount.opposite().negative,
{
    assert(amount_text(amount) =~= seq!['-'] + amount_text(amount.opposite()));
}

/// A year of more than four digits is written with a plus sign before it, and one before
/// the year zero with a minus sign. The rest of the date is written the same.
pub proof fn law_sign_of_a_year(date: Date)
    ensures
        date.year > 9999 ==> date_text(date) == seq!['+'] + digits_of(date.year as nat)
            + date_text(Date { year: 0, ..date }).skip(4),
        -9999 <= date.year < 0 ==> date_text(date) == seq!['-'] + date_text(
            Date { year: (-date.year) as i32, ..date },
        ),
{
    lemma_small_powers();
    lemma_padded(0, 4);
    lemma_digit_count(0, 4);
    if date.year > 9999 {
        lemma_padded(date.year as nat, 4);
        lemma_many_digits(date.year as nat);
        let zero = date_text(Date { year: 0, ..date });
        assert(padded(0, 4).len() == 4);
        assert(date_text(date) =~= seq!['+'] + digits_of(date.year as nat) + zero.skip(4));
    } else if -9999 <= date.year < 0 {
        let other = Date { year: (-date.year) as i32, ..date };
        assert(date_text(date) =~= seq!['-'] + date_text(other));
    }
}

/// A number above 9999 has more than four digits.
proof fn lemma_many_digits(number: nat)
    requires
        number > 9999,
    ensures
        digits_of(number).len() > 4,
        padded(number, 4) == digits_of(number),
{
    reveal_with_fuel(digits_of, 6);
}

/// A text without white space around it is not changed by trimming it.
pub proof fn law_trimmed_twice(text: Seq<char>)
    ensures
        trimmed(trimmed(text)) == trimmed(text),
{
    lemma_trimmed_start(text);
    lemma_trimmed_end(trimmed_start(text));
}

/// A text without white space at its start is left.
proof fn lemma_trimmed_start(text: Seq<char>)
    ensures
        trimmed_start(text).len() > 0 ==> !white_space(trimmed_start(text)[0]),
    decreases text.len(),
{
    if text.len() > 0 && white_space(text[0]) {
        lemma_trimmed_start(text.drop_first());
    }
}

/// A text without white space at its end is left, with the start that it had.
proof fn lemma_trimmed_end(text: Seq<char>)
    ensures
        trimmed_end(text).len() > 0 ==> !white_space(trimmed_end(text).last())
            && trimmed_end(text)[0] == text[0],
    decreases text.len(),
{
    if text.len() > 0 && white_space(text.last()) {
        lemma_trimmed_end(text.drop_last());
    }
}

} // verus!
