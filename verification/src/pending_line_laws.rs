//! What the lines of an interim report say, and what becomes of their parts.

use crate::amount::{decimal_of, Amount};
use crate::date::{Date, MAX_YEAR, MIN_YEAR};
use crate::error::FinTSErrorView;
use crate::mt940_line_laws::law_lines_that_say_something;
use crate::mt940_parse::substantial_lines;
use crate::pending::{
    amount_character, characters_in, content_lines, continuation, counted, dated_line, full_year,
    leading_digits, lemma_run_length, pending_line, pending_of, pending_result,
    pending_transaction, purpose_at, short_date, summaries_before, summary_of, transaction_at,
    transactions_before, unmarked, utf8_length, utf8_width, well_cut, InterimSummaryView,
    PendingInterimView,
};
use crate::statement::decoded;
use crate::text::{digit, digits_value, lines_of, trimmed, with_points};
use crate::text_laws::law_prefix_is_taken_off;
use crate::types::TransactionStatus;
use vstd::prelude::*;
use vstd::utf8::{encode_scalar, encode_utf8};

verus! {

/// Lines one behind the other, each behind a space.
pub open spec fn spaced(lines: Seq<Seq<char>>) -> Seq<char>
    decreases lines.len(),
{
    if lines.len() == 0 {
        Seq::empty()
    } else {
        spaced(lines.drop_last()) + seq![' '] + lines.last()
    }
}

/// Lines behind a space each, taken from the front.
proof fn lemma_spaced_front(lines: Seq<Seq<char>>)
    requires
        lines.len() > 0,
    ensures
        spaced(lines) == seq![' '] + lines[0] + spaced(lines.drop_first()),
    decreases lines.len(),
{
    if lines.len() == 1 {
        assert(lines.drop_last() =~= Seq::empty());
        assert(lines.drop_first() =~= Seq::empty());
        assert(spaced(lines) =~= seq![' '] + lines[0] + spaced(lines.drop_first()));
    } else {
        lemma_spaced_front(lines.drop_last());
        assert(lines.drop_last().drop_first() =~= lines.drop_first().drop_last());
        assert(spaced(lines) =~= seq![' '] + lines[0] + spaced(lines.drop_first()));
    }
}

/// What goes on a purpose are the lines up to the next one with a colon in front.
proof fn lemma_continuation(lines: Seq<Seq<char>>, count: int)
    requires
        0 <= count <= lines.len(),
        forall|i: int|
            0 <= i < count ==> (#[trigger] lines[i]).len() == 0 || lines[i][0] != ':',
        count < lines.len() ==> lines[count].len() > 0 && lines[count][0] == ':',
    ensures
        continuation(lines) == spaced(lines.take(count)),
    decreases count,
{
    if count == 0 {
        assert(lines.take(0) =~= Seq::empty());
    } else {
        let rest = lines.drop_first();
        assert(lines[0].len() == 0 || lines[0][0] != ':');
        assert forall|i: int| 0 <= i < count - 1 implies (#[trigger] rest[i]).len() == 0
            || rest[i][0] != ':' by {
            assert(rest[i] == lines[i + 1]);
        }
        lemma_continuation(rest, count - 1);
        lemma_spaced_front(lines.take(count));
        assert(lines.take(count).drop_first() =~= rest.take(count - 1));
        assert(continuation(lines) =~= spaced(lines.take(count)));
    }
}

/// The purpose of a transaction whose next line has the tag of one is what follows that
/// tag, and then a space and each following line in turn, up to the first line with a
/// colon as its first character or the end.
pub proof fn law_purpose_goes_on_to_the_next_tag(
    lines: Seq<Seq<char>>,
    at: int,
    first: Seq<char>,
    end: int,
    current_year: int,
)
    requires
        0 <= at,
        at + 2 <= end <= lines.len(),
        lines[at + 1] == ":86:"@ + first,
        forall|i: int|
            at + 2 <= i < end ==> (#[trigger] lines[i]).len() == 0 || lines[i][0] != ':',
        end < lines.len() ==> lines[end].len() > 0 && lines[end][0] == ':',
        transaction_at(lines, at, current_year) is Some,
    ensures
        transaction_at(lines, at, current_year)->0.purpose == Some(
            first + spaced(lines.subrange(at + 2, end)),
        ),
{
    let following = lines.skip(at + 2);
    let count = end - (at + 2);
    assert forall|i: int| 0 <= i < count implies (#[trigger] following[i]).len() == 0
        || following[i][0] != ':' by {
        assert(following[i] == lines[at + 2 + i]);
    }
    lemma_continuation(following, count);
    assert(following.take(count) =~= lines.subrange(at + 2, end));
    law_prefix_is_taken_off(":86:"@, first, lines[at + 1]);
    assert(purpose_at(lines, at + 1) == Some(first + spaced(lines.subrange(at + 2, end))));
}

/// A transaction whose next line has not the tag of a purpose has none.
pub proof fn law_no_purpose_without_tag(lines: Seq<Seq<char>>, at: int, current_year: int)
    requires
        0 <= at < lines.len(),
        at + 1 < lines.len() ==> lines[at + 1].len() < 4 || lines[at + 1].take(4) != ":86:"@,
        transaction_at(lines, at, current_year) is Some,
    ensures
        transaction_at(lines, at, current_year)->0.purpose is None,
{
    reveal_strlit(":86:");
    if at + 1 < lines.len() {
        law_prefix_is_taken_off(":86:"@, Seq::empty(), lines[at + 1]);
    }
}

/// A transaction starts at a line with the tag of one, and is read from what follows the
/// tag. Other lines start none.
pub proof fn law_transaction_starts_at_its_tag(
    lines: Seq<Seq<char>>,
    at: int,
    line: Seq<char>,
    current_year: int,
)
    requires
        0 <= at < lines.len(),
    ensures
        lines[at] == ":61:"@ + line ==> transaction_at(lines, at, current_year)
            == pending_transaction(line, purpose_at(lines, at + 1), current_year),
        lines[at].len() < 4 || lines[at].take(4) != ":61:"@ ==> transaction_at(
            lines,
            at,
            current_year,
        ) is None,
{
    reveal_strlit(":61:");
    law_prefix_is_taken_off(":61:"@, line, lines[at]);
}

/// The lines that are read are those that say something, without the white space around
/// them.
pub proof fn law_lines_are_trimmed(text: Seq<char>)
    ensures
        content_lines(text) == lines_of(text).filter(
            |line: Seq<char>|
                trimmed(line).len() > 0 && trimmed(line) != "-"@ && trimmed(line) != "--"@,
        ).map_values(|line: Seq<char>| trimmed(line)),
{
    law_lines_that_say_something(lines_of(text));
    let kept = substantial_lines(lines_of(text));
    assert(content_lines(text) =~= kept.map_values(|line: Seq<char>| trimmed(line)));
}

/// The transactions and summaries of a text are those of its lines, each that can be
/// read, in the order of the lines.
pub proof fn law_each_line_is_read(text: Seq<char>, current_year: int)
    ensures
        ({
            let lines = content_lines(text);
            let places = Seq::new(lines.len(), |i: int| i);
            let pending = pending_of(text, current_year);
            &&& pending.transactions == places.filter_map(
                |i: int| transaction_at(lines, i, current_year),
            )
            &&& pending.summaries == lines.filter_map(|line: Seq<char>| summary_of(line))
        }),
{
    let lines = content_lines(text);
    lemma_transactions(lines, lines.len() as int, current_year);
    lemma_summaries(lines, lines.len() as int);
    assert(lines.take(lines.len() as int) =~= lines);
}

/// The transactions before a line are those of the lines before it.
proof fn lemma_transactions(lines: Seq<Seq<char>>, end: int, current_year: int)
    requires
        0 <= end <= lines.len(),
    ensures
        transactions_before(lines, end, current_year) == Seq::new(
            end as nat,
            |i: int| i,
        ).filter_map(|i: int| transaction_at(lines, i, current_year)),
    decreases end,
{
    let read = |i: int| transaction_at(lines, i, current_year);
    let places = Seq::new(end as nat, |i: int| i);
    if end > 0 {
        lemma_transactions(lines, end - 1, current_year);
        assert(places.drop_last() =~= Seq::new((end - 1) as nat, |i: int| i));
        let before = transactions_before(lines, end - 1, current_year);
        if let Some(transaction) = transaction_at(lines, end - 1, current_year) {
            assert(before.push(transaction) =~= before + seq![transaction]);
        }
        assert(transactions_before(lines, end, current_year) == places.filter_map(read));
    } else {
        assert(transactions_before(lines, end, current_year) =~= places.filter_map(read));
    }
}

/// The summaries before a line are those of the lines before it.
proof fn lemma_summaries(lines: Seq<Seq<char>>, end: int)
    requires
        0 <= end <= lines.len(),
    ensures
        summaries_before(lines, end) == lines.take(end).filter_map(
            |line: Seq<char>| summary_of(line),
        ),
    decreases end,
{
    let read = |line: Seq<char>| summary_of(line);
    let some = lines.take(end);
    if end > 0 {
        lemma_summaries(lines, end - 1);
        assert(some.drop_last() =~= lines.take(end - 1));
        let before = summaries_before(lines, end - 1);
        if let Some(summary) = summary_of(lines[end - 1]) {
            assert(before.push(summary) =~= before + seq![summary]);
        }
        assert(summaries_before(lines, end) == some.filter_map(read));
    } else {
        assert(summaries_before(lines, end) =~= some.filter_map(read));
    }
}

/// Empty data announces nothing, and other data what its text announces. There is no
/// error.
pub proof fn law_pending_data_is_decoded(data: Seq<u8>, current_year: int)
    ensures
        data.len() == 0 ==> {
            let result = pending_result(data, current_year);
            result is Ok && result->Ok_0.transactions.len() == 0 && result->Ok_0.summaries.len()
                == 0
        },
        data.len() > 0 ==> pending_result(data, current_year) == Ok::<
            PendingInterimView,
            FinTSErrorView,
        >(pending_of(decoded(data).0, current_year)),
{
}

/// Whether a character is a letter from A to Z, small or large.
pub open spec fn letter(character: char) -> bool {
    'A' <= character <= 'Z' || 'a' <= character <= 'z'
}

/// Whether a character is a digit, a comma or a point.
pub open spec fn of_an_amount(character: char) -> bool {
    '0' <= character <= '9' || character == ',' || character == '.'
}

/// Whether parts are put together to a statement line: a date of six characters, others
/// up to the mark of a debit or a credit, perhaps a letter, an amount, and what follows.
pub open spec fn put_together(
    line: Seq<char>,
    date: Seq<char>,
    between: Seq<char>,
    debit: bool,
    code: Seq<char>,
    amount: Seq<char>,
    rest: Seq<char>,
) -> bool {
    let mark = if debit {
        'D'
    } else {
        'C'
    };
    &&& line == date + between + seq![mark] + code + amount + rest
    &&& date.len() == 6
    &&& forall|i: int|
        0 <= i < between.len() ==> #[trigger] between[i] != 'D' && between[i] != 'C'
    &&& code.len() == 1 && letter(code[0]) || code.len() == 0 && ((amount + rest).len() == 0
        || !letter((amount + rest)[0]))
    &&& forall|i: int| 0 <= i < amount.len() ==> of_an_amount(#[trigger] amount[i])
    &&& rest.len() == 0 || !of_an_amount(rest[0])
}

/// A statement line is taken apart as it was put together, whatever stands between the
/// date and the mark, and whether a letter follows the mark or not.
proof fn lemma_taken_apart(
    line: Seq<char>,
    date: Seq<char>,
    between: Seq<char>,
    debit: bool,
    code: Seq<char>,
    amount: Seq<char>,
    rest: Seq<char>,
)
    requires
        put_together(line, date, between, debit, code, amount, rest),
    ensures
        ({
            let parts = pending_line(line)->0;
            &&& pending_line(line) is Some
            &&& parts.date == date
            &&& parts.debit == debit
            &&& parts.amount == amount
            &&& parts.rest == rest
        }),
{
    let mark = if debit {
        'D'
    } else {
        'C'
    };
    let unmarked_kind = |c: char| unmarked(c);
    let amount_kind = |c: char| amount_character(c);
    let behind = line.skip(6);
    let place: int = 6 + between.len() as int;
    assert(behind =~= between + seq![mark] + code + amount + rest);
    assert forall|i: int| 0 <= i < between.len() implies unmarked_kind(#[trigger] behind[i]) by {
        assert(behind[i] == between[i]);
    }
    assert(behind[between.len() as int] == mark);
    lemma_run_length(behind, unmarked_kind, between.len() as int);
    assert(line[place] == mark);
    let start: int = place + 1 + code.len() as int;
    let tail = line.skip(start);
    assert(tail =~= amount + rest);
    if code.len() == 1 {
        assert(line[place + 1] == code[0]);
    } else if tail.len() > 0 {
        assert(line[place + 1] == tail[0]);
    }
    assert forall|i: int| 0 <= i < amount.len() implies amount_kind(#[trigger] tail[i]) by {
        assert(tail[i] == amount[i]);
    }
    if rest.len() > 0 {
        assert(tail[amount.len() as int] == rest[0]);
    }
    lemma_run_length(tail, amount_kind, amount.len() as int);
    assert(line.take(6) =~= date);
    assert(line.subrange(start, start + amount.len()) =~= amount);
    assert(line.skip(start + amount.len()) =~= rest);
}

/// A statement line is read where its date is one and its amount is a number, and not
/// otherwise. The transaction has that date, that amount, negative for a debit, and what
/// follows the amount as its reference, where that says something.
pub proof fn law_statement_line_is_read(
    line: Seq<char>,
    date: Seq<char>,
    between: Seq<char>,
    debit: bool,
    code: Seq<char>,
    amount: Seq<char>,
    rest: Seq<char>,
    purpose: Option<Seq<char>>,
    current_year: int,
)
    requires
        put_together(line, date, between, debit, code, amount, rest),
    ensures
        ({
            let transaction = pending_transaction(line, purpose, current_year);
            let number = decimal_of(with_points(amount));
            let day = short_date(date, current_year);
            &&& transaction is Some <==> day is Some && amount.len() > 0 && number is Ok
            &&& transaction is Some ==> {
                let read = transaction->0;
                &&& read.date == day->0
                &&& read.amount == (Amount {
                    negative: if debit {
                        !number->Ok_0.negative
                    } else {
                        number->Ok_0.negative
                    },
                    mantissa: number->Ok_0.mantissa,
                    scale: number->Ok_0.scale,
                })
                &&& trimmed(rest).len() > 0 ==> read.reference == Some(trimmed(rest))
                &&& trimmed(rest).len() == 0 ==> read.reference is None
                &&& read.purpose == purpose
                &&& read.currency == "EUR"@
                &&& read.status == TransactionStatus::Pending
                &&& read.valuta_date is None
                &&& read.applicant_name is None
                &&& read.applicant_iban is None
                &&& read.applicant_bic is None
                &&& read.posting_text is None
            }
        }),
{
    lemma_taken_apart(line, date, between, debit, code, amount, rest);
}

/// A line without six characters for a date, or without a mark behind them, is not read.
pub proof fn law_statement_line_without_mark(
    line: Seq<char>,
    purpose: Option<Seq<char>>,
    current_year: int,
)
    requires
        line.len() < 6 || forall|i: int|
            6 <= i < line.len() ==> #[trigger] line[i] != 'D' && line[i] != 'C',
    ensures
        pending_transaction(line, purpose, current_year) is None,
{
    if line.len() >= 6 {
        let kind = |c: char| unmarked(c);
        let behind = line.skip(6);
        assert forall|i: int| 0 <= i < behind.len() implies kind(#[trigger] behind[i]) by {
            assert(behind[i] == line[i + 6]);
        }
        lemma_run_length(behind, kind, behind.len() as int);
    }
}

/// Two digits are a year of the present century, but for those that lie more than ten
/// years ahead: they are a year of the century before.
pub proof fn law_century_of_a_year(digits: int, current_year: int)
    requires
        0 <= digits < 100,
    ensures
        digits <= current_year % 100 + 10 ==> full_year(digits, current_year) == current_year / 100
            * 100 + digits,
        digits > current_year % 100 + 10 ==> full_year(digits, current_year) == (current_year / 100
            - 1) * 100 + digits,
{
}

/// Two digits write ten times the first and the second.
proof fn lemma_two_digits(text: Seq<char>, at: int)
    requires
        0 <= at,
        at + 2 <= text.len(),
        digit(text[at]),
        digit(text[at + 1]),
    ensures
        digits_value(text.subrange(at, at + 2)) == 10 * (text[at] as int - 48) + (text[at
            + 1] as int - 48),
{
    let digits = text.subrange(at, at + 2);
    reveal_with_fuel(digits_value, 3);
    assert(digits.drop_last().drop_last() =~= Seq::empty());
    assert(digits.drop_last().last() == text[at]);
    assert(digits.last() == text[at + 1]);
}

/// Six digits write a date: two for the year, two for the month and two for the day. It
/// is read where the calendar has it. Nothing else is read.
pub proof fn law_short_date_in_digits(text: Seq<char>, current_year: int)
    requires
        MIN_YEAR <= current_year <= MAX_YEAR,
    ensures
        text.len() != 6 || !(forall|i: int| 0 <= i < 6 ==> '0' <= #[trigger] text[i] <= '9')
            ==> short_date(text, current_year) is None,
        text.len() == 6 && (forall|i: int| 0 <= i < 6 ==> '0' <= #[trigger] text[i] <= '9') ==> {
            let date = Date {
                year: full_year(
                    10 * (text[0] as int - 48) + (text[1] as int - 48),
                    current_year,
                ) as i32,
                month: (10 * (text[2] as int - 48) + (text[3] as int - 48)) as u32,
                day: (10 * (text[4] as int - 48) + (text[5] as int - 48)) as u32,
            };
            &&& date.valid() ==> short_date(text, current_year) == Some(date)
            &&& !date.valid() ==> short_date(text, current_year) is None
        },
{
    if text.len() == 6 && forall|i: int| 0 <= i < 6 ==> '0' <= #[trigger] text[i] <= '9' {
        assert forall|i: int| 0 <= i < 6 implies digit(#[trigger] text[i]) by {
            assert('0' <= text[i] <= '9');
        }
        lemma_two_digits(text, 0);
        lemma_two_digits(text, 2);
        lemma_two_digits(text, 4);
    } else if text.len() == 6 {
        let at = choose|i: int| 0 <= i < 6 && !('0' <= #[trigger] text[i] <= '9');
        assert(!digit(text[at]));
    }
}

/// A character takes as many bytes as its UTF-8 has, and so does a text.
pub proof fn law_length_in_utf8(text: Seq<char>, character: char)
    ensures
        utf8_width(character) == encode_scalar(character as u32).len(),
        utf8_length(text) == encode_utf8(text).len(),
    decreases text.len(),
{
    if text.len() > 0 {
        law_length_in_utf8(text.drop_first(), text[0]);
    }
}

/// Characters fill bytes where the UTF-8 of just these characters takes them. Where no
/// number of characters does, the bytes end inside a character or go beyond the text.
pub proof fn law_characters_fill_bytes(text: Seq<char>, bytes: int, count: int)
    requires
        bytes >= 0,
    ensures
        characters_in(text, bytes) == Some(count) ==> 0 <= count <= text.len() && encode_utf8(
            text.take(count),
        ).len() == bytes,
        0 <= count <= text.len() && encode_utf8(text.take(count)).len() == bytes ==> characters_in(
            text,
            bytes,
        ) == Some(count),
    decreases text.len(),
{
    if bytes == 0 {
        assert(text.take(0) =~= Seq::empty());
        if 0 < count <= text.len() {
            assert(text.take(count)[0] == text[0]);
            law_length_in_utf8(text, text[0]);
        }
    } else if text.len() > 0 {
        let rest = text.drop_first();
        let left = bytes - utf8_width(text[0]);
        law_length_in_utf8(text, text[0]);
        if 0 < count <= text.len() {
            assert(text.take(count)[0] == text[0]);
            assert(text.take(count).drop_first() =~= rest.take(count - 1));
        } else if count == 0 {
            assert(text.take(0) =~= Seq::empty());
        }
        if left >= 0 {
            law_characters_fill_bytes(rest, left, count - 1);
        }
    } else if count == 0 {
        assert(text.take(0) =~= Seq::empty());
    }
}

/// Whether parts are put together to a line that sums transactions up: a tag, digits,
/// and what follows them.
pub open spec fn sums_up(line: Seq<char>, debit: bool, number: Seq<char>, rest: Seq<char>) -> bool {
    &&& debit ==> line == ":90D:"@ + number + rest
    &&& !debit ==> line == ":90C:"@ + number + rest
    &&& forall|i: int| 0 <= i < number.len() ==> digit(#[trigger] number[i])
    &&& rest.len() == 0 || !digit(rest[0])
}

/// A line that sums transactions up has a direction, digits and what follows them.
proof fn lemma_sums_up(line: Seq<char>, debit: bool, number: Seq<char>, rest: Seq<char>)
    requires
        sums_up(line, debit, number, rest),
    ensures
        crate::pending::summary_value(line) == Some((debit, number + rest)),
        leading_digits(number + rest) == number.len(),
        (number + rest).take(number.len() as int) == number,
        (number + rest).skip(number.len() as int) == rest,
{
    reveal_strlit(":90D:");
    reveal_strlit(":90C:");
    let value = number + rest;
    assert(":90D:"@[3] == 'D' && ":90C:"@[3] == 'C');
    if debit {
        assert(line =~= ":90D:"@ + value);
        law_prefix_is_taken_off(":90D:"@, value, line);
    } else {
        assert(line =~= ":90C:"@ + value);
        assert(line[3] == 'C');
        if line.len() >= 5 && line.take(5) == ":90D:"@ {
            assert(line.take(5)[3] == line[3]);
        }
        law_prefix_is_taken_off(":90C:"@, value, line);
        law_prefix_is_taken_off(":90D:"@, value, line);
    }
    let kind = |c: char| digit(c);
    assert forall|i: int| 0 <= i < number.len() implies kind(#[trigger] value[i]) by {
        assert(value[i] == number[i]);
    }
    if rest.len() > 0 {
        assert(value[number.len() as int] == rest[0]);
    }
    lemma_run_length(value, kind, number.len() as int);
    assert(value.take(number.len() as int) =~= number);
    assert(value.skip(number.len() as int) =~= rest);
}

/// A line that sums transactions up is read where it has a number that a word of the
/// machine holds, characters that fill three bytes for the currency, and a total that is
/// a number. The summary has these and the direction of the tag.
pub proof fn law_summary_line_is_read(
    line: Seq<char>,
    debit: bool,
    number: Seq<char>,
    currency: Seq<char>,
    total: Seq<char>,
)
    requires
        sums_up(line, debit, number, currency + total),
        encode_utf8(currency).len() == 3,
    ensures
        ({
            let read = decimal_of(with_points(total));
            &&& well_cut(line)
            &&& summary_of(line) is Some <==> number.len() > 0 && digits_value(number)
                <= usize::MAX && read is Ok
            &&& summary_of(line) is Some ==> summary_of(line)->0 == (InterimSummaryView {
                debit,
                count: digits_value(number) as usize,
                amount: read->Ok_0,
                currency,
            })
        }),
{
    let rest = currency + total;
    let width: int = currency.len() as int;
    lemma_sums_up(line, debit, number, rest);
    assert(rest.take(width) =~= currency);
    assert(rest.skip(width) =~= total);
    law_characters_fill_bytes(rest, 3, width);
}

/// A line that has the tag of no summary is none. One without a number, with a number
/// that no word of the machine holds, or without three bytes for a currency is none
/// either.
pub proof fn law_what_is_no_summary(
    line: Seq<char>,
    debit: bool,
    number: Seq<char>,
    rest: Seq<char>,
)
    ensures
        line.len() < 5 || line.take(5) != ":90D:"@ && line.take(5) != ":90C:"@ ==> summary_of(
            line,
        ) is None && well_cut(line),
        sums_up(line, debit, number, rest) && (number.len() == 0 || digits_value(number)
            > usize::MAX || encode_utf8(rest).len() < 3) ==> summary_of(line) is None && well_cut(
            line,
        ),
{
    reveal_strlit(":90D:");
    reveal_strlit(":90C:");
    law_prefix_is_taken_off(":90D:"@, Seq::empty(), line);
    law_prefix_is_taken_off(":90C:"@, Seq::empty(), line);
    if sums_up(line, debit, number, rest) {
        lemma_sums_up(line, debit, number, rest);
        law_length_in_utf8(rest, ' ');
        if encode_utf8(rest).len() < 3 && characters_in(rest, 3) is Some {
            let width = characters_in(rest, 3)->0;
            law_characters_fill_bytes(rest, 3, width);
            lemma_fewer_bytes(rest, width);
        }
    }
}

/// The first characters of a text take no more bytes than the text.
proof fn lemma_fewer_bytes(text: Seq<char>, count: int)
    requires
        0 <= count <= text.len(),
    ensures
        encode_utf8(text.take(count)).len() <= encode_utf8(text).len(),
    decreases count,
{
    if count == 0 {
        assert(text.take(0) =~= Seq::empty());
    } else {
        assert(text.take(count)[0] == text[0]);
        assert(text.take(count).drop_first() =~= text.drop_first().take(count - 1));
        lemma_fewer_bytes(text.drop_first(), count - 1);
    }
}

/// A line that sums transactions up cannot be cut exactly where it has a number, the
/// rest takes three bytes or more, and the third ends inside a character.
pub proof fn law_when_a_line_can_be_cut(
    line: Seq<char>,
    debit: bool,
    number: Seq<char>,
    rest: Seq<char>,
)
    requires
        sums_up(line, debit, number, rest),
    ensures
        !well_cut(line) <==> number.len() > 0 && digits_value(number) <= usize::MAX && encode_utf8(
            rest,
        ).len() >= 3 && forall|count: int|
            0 <= count <= rest.len() ==> encode_utf8(#[trigger] rest.take(count)).len() != 3,
{
    lemma_sums_up(line, debit, number, rest);
    law_length_in_utf8(rest, ' ');
    if let Some(width) = characters_in(rest, 3) {
        law_characters_fill_bytes(rest, 3, width);
        assert(encode_utf8(rest.take(width)).len() == 3);
    } else {
        assert forall|count: int| 0 <= count <= rest.len() implies encode_utf8(
            #[trigger] rest.take(count),
        ).len() != 3 by {
            law_characters_fill_bytes(rest, 3, count);
        }
    }
}

/// A number is counted where a word of the machine holds it, as it is.
pub proof fn law_number_is_counted(digits: Seq<char>)
    ensures
        digits_value(digits) <= usize::MAX ==> counted(digits) is Some && counted(digits)->0
            == digits_value(digits),
        digits_value(digits) > usize::MAX ==> counted(digits) is None,
{
}

/// A line has a date of which the century is to be told where six digits follow the tag
/// of a transaction.
pub proof fn law_dated_line(line: Seq<char>, rest: Seq<char>)
    ensures
        line == ":61:"@ + rest ==> (dated_line(line) <==> rest.len() >= 6 && forall|i: int|
            0 <= i < 6 ==> '0' <= #[trigger] rest[i] <= '9'),
        line.len() < 4 || line.take(4) != ":61:"@ ==> !dated_line(line),
{
    reveal_strlit(":61:");
    law_prefix_is_taken_off(":61:"@, rest, line);
    if line == ":61:"@ + rest && rest.len() >= 6 {
        if dated_line(line) {
            assert forall|i: int| 0 <= i < 6 implies '0' <= #[trigger] rest[i] <= '9' by {
                assert(digit(rest[i]));
            }
        } else {
            let at = choose|i: int| 0 <= i < 6 && !digit(#[trigger] rest[i]);
            assert(!('0' <= rest[at] <= '9'));
        }
    }
}

} // verus!
