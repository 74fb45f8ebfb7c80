//! Reads the transactions that a bank announces before it books them: an interim
//! report in the manner of MT940, with tags that sum the transactions up.

use crate::amount::{decimal_of, parse_decimal, plain_amount, plain_number, Amount};
use crate::date::{
    calendar_date, date_from_parts, present_year, told_by_the_clock, Date, MAX_YEAR, MIN_YEAR,
};
use crate::error::{FinTSError, FinTSErrorView};
use crate::mt940_parse::{keep_substantial, substantial_lines};
use crate::pending_laws::{law_ascii_is_well_cut, law_no_date_no_year};
use crate::statement::{ascii_bytes, decodable, decode, decoded, is_decodable};
use crate::text::{
    after_prefix, characters, commas_to_points, copy_text, digit, digits_value, lines_of,
    string_between, strip_prefix, text_of, texts, trim, trimmed, two_digits, with_points,
};
use crate::types::{
    transaction_views, valid_transactions, Currency, RawField, Transaction, TransactionStatus,
    TransactionView,
};
use vstd::prelude::*;

verus! {

/// How many characters at the start of a text are of a kind.
pub open spec fn run_length(text: Seq<char>, kind: spec_fn(char) -> bool) -> int
    decreases text.len(),
{
    if text.len() > 0 && kind(text[0]) {
        1 + run_length(text.drop_first(), kind)
    } else {
        0
    }
}

/// A run ends at the first character that is not of the kind.
pub proof fn lemma_run_length(text: Seq<char>, kind: spec_fn(char) -> bool, length: int)
    requires
        0 <= length <= text.len(),
        forall|i: int| 0 <= i < length ==> kind(#[trigger] text[i]),
        length < text.len() ==> !kind(text[length]),
    ensures
        run_length(text, kind) == length,
    decreases text.len(),
{
    if length > 0 {
        let rest = text.drop_first();
        assert forall|i: int| 0 <= i < length - 1 implies kind(#[trigger] rest[i]) by {
            assert(rest[i] == text[i + 1]);
        }
        lemma_run_length(rest, kind, length - 1);
    }
}

/// Whether a character is a decimal digit.
fn is_digit(character: char) -> (result: bool)
    ensures
        result == digit(character),
{
    '0' <= character && character <= '9'
}

/// The year that two digits mean: the one of the present century that ends with
/// them, or a hundred years before where that lies more than ten years ahead.
pub open spec fn full_year(digits: int, current_year: int) -> int {
    let year = current_year - current_year % 100 + digits;
    if year > current_year + 10 {
        year - 100
    } else {
        year
    }
}

/// The date that six digits write: two for the year, the month and the day each.
pub open spec fn short_date(text: Seq<char>, current_year: int) -> Option<Date> {
    if text.len() == 6 && forall|i: int| 0 <= i < 6 ==> digit(#[trigger] text[i]) {
        calendar_date(
            full_year(digits_value(text.subrange(0, 2)) as int, current_year) as i32,
            digits_value(text.subrange(2, 4)) as u32,
            digits_value(text.subrange(4, 6)) as u32,
        )
    } else {
        None
    }
}

/// The number that digits write, where a word of the machine holds it.
pub open spec fn counted(digits: Seq<char>) -> Option<usize> {
    if digits_value(digits) <= usize::MAX {
        Some(digits_value(digits) as usize)
    } else {
        None
    }
}

/// The number that the digits up to a place write only grows with further digits.
proof fn lemma_digits_grow(digits: Seq<char>, count: int)
    requires
        0 <= count <= digits.len(),
        forall|i: int| 0 <= i < digits.len() ==> digit(#[trigger] digits[i]),
    ensures
        digits_value(digits.take(count)) <= digits_value(digits),
    decreases digits.len() - count,
{
    if count < digits.len() {
        lemma_digits_grow(digits, count + 1);
        assert(digits.take(count + 1).drop_last() =~= digits.take(count));
        assert(digit(digits[count]));
    } else {
        assert(digits.take(count) =~= digits);
    }
}

/// The number that the characters from `start` up to `end` write, which are digits.
fn count_from(characters: &Vec<char>, start: usize, end: usize) -> (result: Option<usize>)
    requires
        start <= end <= characters@.len(),
        forall|i: int| start <= i < end ==> digit(#[trigger] characters@[i]),
    ensures
        result == counted(characters@.subrange(start as int, end as int)),
{
    let ghost digits = characters@.subrange(start as int, end as int);
    let mut number: usize = 0;
    let mut at: usize = start;
    assert(digits.take(0) =~= Seq::empty());
    while at < end
        invariant
            start <= at <= end <= characters@.len(),
            digits == characters@.subrange(start as int, end as int),
            forall|i: int| start <= i < end ==> digit(#[trigger] characters@[i]),
            number == digits_value(digits.take(at - start)),
        decreases end - at,
    {
        let value: usize = characters[at] as usize - '0' as usize;
        proof {
            assert(digit(characters@[at as int]));
            assert(digits.take(at - start + 1).drop_last() =~= digits.take(at - start));
            assert(digits.take(at - start + 1).last() == characters@[at as int]);
            assert(digits_value(digits.take(at - start + 1)) == number * 10 + value);
            assert forall|i: int| 0 <= i < digits.len() implies digit(#[trigger] digits[i]) by {
                assert(digits[i] == characters@[start + i]);
            }
            lemma_digits_grow(digits, at - start + 1);
        }
        let tens: usize = match number.checked_mul(10) {
            Some(tens) => tens,
            None => {
                return None;
            },
        };
        number = match tens.checked_add(value) {
            Some(sum) => sum,
            None => {
                return None;
            },
        };
        at = at + 1;
    }
    assert(digits.take(at - start) =~= digits);
    Some(number)
}

/// How many years a year stands behind the start of its century.
fn year_of_century(year: i32) -> (result: i32)
    requires
        MIN_YEAR <= year <= MAX_YEAR,
    ensures
        result == year as int % 100,
{
    if year >= 0 {
        year % 100
    } else {
        99 - (-year - 1) % 100
    }
}

/// Reads a date of six digits: two for the year, the month and the day each.
pub fn parse_short_date(value: &str, current_year: i32) -> (result: Option<Date>)
    requires
        MIN_YEAR <= current_year <= MAX_YEAR,
    ensures
        result == short_date(value@, current_year as int),
{
    let digits = characters(value);
    if digits.len() != 6 {
        return None;
    }
    let mut at: usize = 0;
    while at < 6
        invariant
            at <= 6,
            digits@.len() == 6,
            digits@ == value@,
            forall|i: int| 0 <= i < at ==> digit(#[trigger] digits@[i]),
        decreases 6 - at,
    {
        if !is_digit(digits[at]) {
            assert(!digit(value@[at as int]));
            return None;
        }
        at = at + 1;
    }
    let year = two_digits(&digits, 0);
    let month = two_digits(&digits, 2);
    let day = two_digits(&digits, 4);
    let century: i32 = current_year - year_of_century(current_year);
    let mut full: i32 = century + year as i32;
    if full > current_year + 10 {
        full = full - 100;
    }
    date_from_parts(full, month, day)
}

/// Whether a character is a letter of ASCII.
pub open spec fn ascii_letter(character: char) -> bool {
    'A' <= character <= 'Z' || 'a' <= character <= 'z'
}

/// Whether a character may stand in a written amount.
pub open spec fn amount_character(character: char) -> bool {
    digit(character) || character == ',' || character == '.'
}

/// Whether a character is not the mark of a debit or a credit.
pub open spec fn unmarked(character: char) -> bool {
    character != 'D' && character != 'C'
}

/// What a text says without the white space around it, where it says something.
pub open spec fn content(text: Seq<char>) -> Option<Seq<char>> {
    if trimmed(text).len() > 0 {
        Some(trimmed(text))
    } else {
        None
    }
}

/// The parts of an announced statement line: its date, whether it is a debit,
/// its amount as it is written, and what follows. The mark of a debit or a
/// credit stands somewhere behind the date, and one letter may follow it.
#[verifier::ext_equal]
pub struct PendingLine {
    pub date: Seq<char>,
    pub debit: bool,
    pub amount: Seq<char>,
    pub rest: Seq<char>,
}

/// The parts of an announced statement line, where it has them.
pub open spec fn pending_line(line: Seq<char>) -> Option<PendingLine> {
    if line.len() < 6 {
        None
    } else {
        let mark = 6 + run_length(line.skip(6), |c: char| unmarked(c));
        if mark >= line.len() {
            None
        } else {
            let start = if mark + 1 < line.len() && ascii_letter(line[mark + 1]) {
                mark + 2
            } else {
                mark + 1
            };
            let length = run_length(line.skip(start), |c: char| amount_character(c));
            Some(
                PendingLine {
                    date: line.take(6),
                    debit: line[mark] == 'D',
                    amount: line.subrange(start, start + length),
                    rest: line.skip(start + length),
                },
            )
        }
    }
}

/// The amount of a debit is negative.
pub open spec fn signed(amount: Amount, debit: bool) -> Amount {
    if debit {
        amount.opposite()
    } else {
        amount
    }
}

/// The transaction that an announced statement line and its purpose stand for,
/// where the line has a date and an amount.
pub open spec fn pending_transaction(
    line: Seq<char>,
    purpose: Option<Seq<char>>,
    current_year: int,
) -> Option<TransactionView> {
    match pending_line(line) {
        Some(parts) => match (
            short_date(parts.date, current_year),
            decimal_of(with_points(parts.amount)),
        ) {
            (Some(date), Ok(amount)) => if parts.amount.len() > 0 {
                Some(
                    TransactionView {
                        date,
                        valuta_date: None,
                        amount: signed(amount, parts.debit),
                        currency: "EUR"@,
                        applicant_name: None,
                        applicant_iban: None,
                        applicant_bic: None,
                        purpose,
                        posting_text: None,
                        reference: content(parts.rest),
                        raw: seq![
                            ("source"@, Some("pending_interim_mt940"@)),
                            ("statement_line"@, Some(line)),
                            ("purpose"@, purpose),
                            ("reference"@, content(parts.rest)),
                        ],
                        status: TransactionStatus::Pending,
                    },
                )
            } else {
                None
            },
            _ => None,
        },
        None => None,
    }
}

/// A transaction that may be absent, with its texts as sequences of characters.
pub open spec fn transaction_view(transaction: Option<Transaction>) -> Option<TransactionView> {
    match transaction {
        Some(transaction) => Some(transaction@),
        None => None,
    }
}

/// Where the mark of a debit or a credit first stands behind a date, or the
/// number of characters.
fn find_mark(line: &Vec<char>) -> (result: usize)
    requires
        6 <= line@.len(),
    ensures
        6 <= result <= line@.len(),
        result == 6 + run_length(line@.skip(6), |c: char| unmarked(c)),
        result < line@.len() ==> !unmarked(line@[result as int]),
{
    let mut at: usize = 6;
    while at < line.len() && line[at] != 'D' && line[at] != 'C'
        invariant
            6 <= at <= line@.len(),
            forall|i: int| 6 <= i < at ==> unmarked(#[trigger] line@[i]),
        decreases line@.len() - at,
    {
        at = at + 1;
    }
    proof {
        let kind = |c: char| unmarked(c);
        let rest = line@.skip(6);
        assert forall|i: int| 0 <= i < at - 6 implies kind(#[trigger] rest[i]) by {
            assert(rest[i] == line@[i + 6]);
        }
        lemma_run_length(rest, kind, at - 6);
    }
    at
}

/// Where a written amount that starts at a place ends.
fn find_amount_end(line: &Vec<char>, start: usize) -> (result: usize)
    requires
        start <= line@.len(),
    ensures
        start <= result <= line@.len(),
        result == start + run_length(line@.skip(start as int), |c: char| amount_character(c)),
        forall|i: int| start <= i < result ==> amount_character(#[trigger] line@[i]),
{
    let mut at: usize = start;
    while at < line.len() && (is_digit(line[at]) || line[at] == ',' || line[at] == '.')
        invariant
            start <= at <= line@.len(),
            forall|i: int| start <= i < at ==> amount_character(#[trigger] line@[i]),
        decreases line@.len() - at,
    {
        at = at + 1;
    }
    proof {
        let kind = |c: char| amount_character(c);
        let rest = line@.skip(start as int);
        assert forall|i: int| 0 <= i < at - start implies kind(#[trigger] rest[i]) by {
            assert(rest[i] == line@[i + start]);
        }
        lemma_run_length(rest, kind, at - start);
    }
    at
}

/// Reads an announced statement line. The amount of a debit is negative, and a
/// plain number is read digit by digit.
pub fn parse_pending_statement_line(
    statement_line: &str,
    purpose: Option<String>,
    current_year: i32,
) -> (result: Option<Transaction>)
    requires
        MIN_YEAR <= current_year <= MAX_YEAR,
    ensures
        transaction_view(result) == pending_transaction(
            statement_line@,
            text_of(purpose),
            current_year as int,
        ),
        result is Some ==> result->0@.valid() && result->0.amount.negative == pending_line(
            statement_line@,
        )->0.debit,
        ({
            let parts = pending_line(statement_line@)->0;
            &&& pending_line(statement_line@) is Some
            &&& short_date(parts.date, current_year as int) is Some
            &&& plain_number(with_points(parts.amount))
        }) ==> result is Some && result->0.amount == signed(
            plain_amount(with_points(pending_line(statement_line@)->0.amount)),
            pending_line(statement_line@)->0.debit,
        ),
{
    let line = characters(statement_line);
    if line.len() < 6 {
        return None;
    }
    let date_text = string_between(&line, 0, 6);
    assert(date_text@ =~= statement_line@.take(6));
    let date = match parse_short_date(date_text.as_str(), current_year) {
        Some(date) => date,
        None => {
            return None;
        },
    };
    let mark = find_mark(&line);
    if mark == line.len() {
        return None;
    }
    let debit = line[mark] == 'D';
    let mut start: usize = mark + 1;
    if start < line.len() && (('A' <= line[start] && line[start] <= 'Z') || ('a' <= line[start]
        && line[start] <= 'z')) {
        start = start + 1;
    }
    let end = find_amount_end(&line, start);
    if end == start {
        return None;
    }
    let amount_text = string_between(&line, start, end);
    assert(amount_character(line@[start as int]));
    assert(with_points(amount_text@)[0] != '-');
    let amount = match parse_decimal(commas_to_points(amount_text.as_str()).as_str()) {
        Ok(amount) => amount,
        Err(_) => {
            return None;
        },
    };
    let amount = if debit {
        amount.negated()
    } else {
        amount
    };
    let rest = string_between(&line, end, line.len());
    assert(rest@ =~= statement_line@.skip(end as int));
    let content = trim(rest.as_str());
    let reference = if content.as_str().is_empty() {
        None
    } else {
        Some(content)
    };
    let mut raw: Vec<RawField> = Vec::new();
    raw.push(RawField::new("source", Some("pending_interim_mt940".to_owned())));
    raw.push(RawField::new("statement_line", Some(statement_line.to_owned())));
    raw.push(RawField::new("purpose", copy_text(&purpose)));
    raw.push(RawField::new("reference", copy_text(&reference)));
    let result = Transaction {
        date,
        valuta_date: None,
        amount,
        currency: Currency::new("EUR"),
        applicant_name: None,
        applicant_iban: None,
        applicant_bic: None,
        purpose,
        posting_text: None,
        reference,
        raw,
        status: TransactionStatus::Pending,
    };
    proof {
        let view = pending_transaction(
            statement_line@,
            text_of(purpose),
            current_year as int,
        );
        assert(view is Some);
        assert(result@.raw =~= view->0.raw);
        assert(result@ =~= view->0);
    }
    Some(result)
}

/// How many bytes a character takes in UTF-8.
pub open spec fn utf8_width(character: char) -> int {
    if character <= '\u{7f}' {
        1
    } else if character <= '\u{7ff}' {
        2
    } else if character <= '\u{ffff}' {
        3
    } else {
        4
    }
}

/// How many characters at the start of a text fill a number of bytes in UTF-8:
/// none of them, or so many, or `None` where the bytes end inside a character
/// or go beyond the text.
pub open spec fn characters_in(text: Seq<char>, bytes: int) -> Option<int>
    decreases text.len(),
{
    if bytes == 0 {
        Some(0)
    } else if bytes < 0 || text.len() == 0 {
        None
    } else {
        match characters_in(text.drop_first(), bytes - utf8_width(text[0])) {
            Some(count) => Some(count + 1),
            None => None,
        }
    }
}

/// How many bytes a text takes in UTF-8.
pub open spec fn utf8_length(text: Seq<char>) -> int
    decreases text.len(),
{
    if text.len() == 0 {
        0
    } else {
        utf8_width(text[0]) + utf8_length(text.drop_first())
    }
}

/// What a bank says of its transactions of one direction: their number and total.
#[derive(Debug, PartialEq, Eq)]
pub struct InterimSummary {
    /// Whether the transactions are debits.
    pub debit: bool,
    /// The number of the transactions.
    pub count: usize,
    /// The total of their amounts, without a sign for the direction.
    pub amount: Amount,
    /// The currency of the total.
    pub currency: String,
}

/// A summary with its currency as a sequence of characters.
#[verifier::ext_equal]
pub struct InterimSummaryView {
    pub debit: bool,
    pub count: usize,
    pub amount: Amount,
    pub currency: Seq<char>,
}

impl View for InterimSummary {
    type V = InterimSummaryView;

    open spec fn view(&self) -> InterimSummaryView {
        InterimSummaryView {
            debit: self.debit,
            count: self.count,
            amount: self.amount,
            currency: self.currency@,
        }
    }
}

/// The direction and the value of a line with the tag of a summary.
pub open spec fn summary_value(line: Seq<char>) -> Option<(bool, Seq<char>)> {
    match after_prefix(line, ":90D:"@) {
        Some(value) => Some((true, value)),
        None => match after_prefix(line, ":90C:"@) {
            Some(value) => Some((false, value)),
            None => None,
        },
    }
}

/// How many digits a text starts with.
pub open spec fn leading_digits(text: Seq<char>) -> int {
    run_length(text, |c: char| digit(c))
}

/// Whether the three bytes behind the number of a summary hold whole characters,
/// or the line is no summary.
pub open spec fn well_cut(line: Seq<char>) -> bool {
    match summary_value(line) {
        Some((_, value)) => {
            let length = leading_digits(value);
            let rest = value.skip(length);
            ||| length == 0
            ||| counted(value.take(length)) is None
            ||| utf8_length(rest) < 3
            ||| characters_in(rest, 3) is Some
        },
        None => true,
    }
}

/// The summary that a line writes: the number of transactions, the currency in
/// three bytes, and the total.
pub open spec fn summary_of(line: Seq<char>) -> Option<InterimSummaryView> {
    match summary_value(line) {
        Some((debit, value)) => {
            let length = leading_digits(value);
            let rest = value.skip(length);
            match (counted(value.take(length)), characters_in(rest, 3)) {
                (Some(count), Some(width)) => match decimal_of(with_points(rest.skip(width))) {
                    Ok(amount) => if length > 0 {
                        Some(
                            InterimSummaryView { debit, count, amount, currency: rest.take(width) },
                        )
                    } else {
                        None
                    },
                    Err(_) => None,
                },
                _ => None,
            }
        },
        None => None,
    }
}

/// A summary that may be absent, with its currency as a sequence of characters.
pub open spec fn summary_view(summary: Option<InterimSummary>) -> Option<InterimSummaryView> {
    match summary {
        Some(summary) => Some(summary@),
        None => None,
    }
}

/// How many bytes a character takes in UTF-8.
fn width_of(character: char) -> (result: usize)
    ensures
        result == utf8_width(character),
{
    if character <= '\u{7f}' {
        1
    } else if character <= '\u{7ff}' {
        2
    } else if character <= '\u{ffff}' {
        3
    } else {
        4
    }
}

/// Where the characters from `start` that fill three bytes in UTF-8 end, where
/// some do.
fn find_cut(characters: &Vec<char>, start: usize) -> (result: Option<usize>)
    requires
        start <= characters@.len(),
    ensures
        match result {
            Some(end) => start <= end <= characters@.len() && characters_in(
                characters@.skip(start as int),
                3,
            ) == Some(end - start),
            None => characters_in(characters@.skip(start as int), 3) is None,
        },
{
    let ghost text = characters@.skip(start as int);
    let mut at: usize = start;
    let mut bytes: usize = 3;
    assert(text.skip(0) =~= text);
    while bytes > 0
        invariant
            start <= at <= characters@.len(),
            bytes <= 3,
            text == characters@.skip(start as int),
            characters_in(text, 3) == match characters_in(text.skip(at - start), bytes as int) {
                Some(count) => Some(count + (at - start)),
                None => None,
            },
        decreases bytes,
    {
        if at == characters.len() {
            return None;
        }
        assert(text.skip(at - start)[0] == characters@[at as int]);
        assert(text.skip(at - start).drop_first() =~= text.skip(at + 1 - start));
        let width = width_of(characters[at]);
        if width > bytes {
            assert(characters_in(text.skip(at + 1 - start), bytes - width) is None);
            return None;
        }
        bytes = bytes - width;
        at = at + 1;
    }
    Some(at)
}

/// A text takes at least as many bytes in UTF-8 as it has characters.
proof fn lemma_utf8_length(text: Seq<char>)
    ensures
        utf8_length(text) >= text.len(),
    decreases text.len(),
{
    if text.len() > 0 {
        lemma_utf8_length(text.drop_first());
    }
}

/// Whether the characters from `start` take less than three bytes in UTF-8.
fn is_short(characters: &Vec<char>, start: usize) -> (result: bool)
    requires
        start <= characters@.len(),
    ensures
        result == (utf8_length(characters@.skip(start as int)) < 3),
{
    proof {
        lemma_utf8_length(characters@.skip(start as int));
        reveal_with_fuel(utf8_length, 3);
    }
    let left: usize = characters.len() - start;
    if left == 0 {
        true
    } else if left == 1 {
        width_of(characters[start]) < 3
    } else if left == 2 {
        width_of(characters[start]) + width_of(characters[start + 1]) < 3
    } else {
        false
    }
}

/// How many digits a text starts with.
fn count_digits(characters: &Vec<char>) -> (result: usize)
    ensures
        result <= characters@.len(),
        result == leading_digits(characters@),
        forall|i: int| 0 <= i < result ==> digit(#[trigger] characters@[i]),
{
    let mut length: usize = 0;
    while length < characters.len() && is_digit(characters[length])
        invariant
            length <= characters@.len(),
            forall|i: int| 0 <= i < length ==> digit(#[trigger] characters@[i]),
        decreases characters@.len() - length,
    {
        length = length + 1;
    }
    proof {
        lemma_run_length(characters@, |c: char| digit(c), length as int);
    }
    length
}

/// The direction and the value of a line with the tag of a summary.
fn find_summary_value(line: &str) -> (result: Option<(bool, Vec<char>)>)
    ensures
        match result {
            Some((debit, value)) => summary_value(line@) == Some((debit, value@)),
            None => summary_value(line@) is None,
        },
{
    match strip_prefix(line, ":90D:") {
        Some(value) => Some((true, characters(value.as_str()))),
        None => match strip_prefix(line, ":90C:") {
            Some(value) => Some((false, characters(value.as_str()))),
            None => None,
        },
    }
}

/// Whether the three bytes behind the number of a summary hold whole characters,
/// or the line is no summary.
pub fn is_well_cut(line: &str) -> (result: bool)
    ensures
        result == well_cut(line@),
{
    match find_summary_value(line) {
        Some((_, value)) => {
            let length = count_digits(&value);
            assert(value@.take(length as int) =~= value@.subrange(0, length as int));
            length == 0 || count_from(&value, 0, length).is_none() || is_short(&value, length)
                || find_cut(&value, length).is_some()
        },
        None => true,
    }
}

/// The total of a line that sums transactions up, as it is written.
pub open spec fn total_of_line(line: Seq<char>) -> Option<Seq<char>> {
    match summary_value(line) {
        Some((_, value)) => {
            let length = leading_digits(value);
            let rest = value.skip(length);
            match (counted(value.take(length)), characters_in(rest, 3)) {
                (Some(_), Some(width)) => if length > 0 {
                    Some(rest.skip(width))
                } else {
                    None
                },
                _ => None,
            }
        },
        None => None,
    }
}

/// Reads a line that sums transactions up. A plain number is read digit by digit.
pub fn parse_summary_line(line: &str) -> (result: Option<InterimSummary>)
    requires
        well_cut(line@),
    ensures
        summary_view(result) == summary_of(line@),
        result is Some ==> result->0.amount.valid(),
        total_of_line(line@) is Some && plain_number(with_points(total_of_line(line@)->0))
            ==> result is Some && result->0.amount == plain_amount(
            with_points(total_of_line(line@)->0),
        ),
{
    let (debit, value) = match find_summary_value(line) {
        Some(pair) => pair,
        None => {
            return None;
        },
    };
    let length = count_digits(&value);
    if length == 0 {
        return None;
    }
    assert(value@.take(length as int) =~= value@.subrange(0, length as int));
    let count = match count_from(&value, 0, length) {
        Some(count) => count,
        None => {
            return None;
        },
    };
    let end = match find_cut(&value, length) {
        Some(end) => end,
        None => {
            return None;
        },
    };
    let currency = string_between(&value, length, end);
    assert(currency@ =~= value@.skip(length as int).take(end - length));
    let total = string_between(&value, end, value.len());
    assert(total@ =~= value@.skip(length as int).skip(end - length));
    match parse_decimal(commas_to_points(total.as_str()).as_str()) {
        Ok(amount) => Some(InterimSummary { debit, count, amount, currency }),
        Err(_) => None,
    }
}

/// The lines of a text that say something, without the white space around them.
pub open spec fn content_lines(text: Seq<char>) -> Seq<Seq<char>> {
    let lines = substantial_lines(lines_of(text));
    Seq::new(lines.len(), |i: int| trimmed(lines[i]))
}

/// Whether a line starts with a tag.
pub open spec fn tagged(line: Seq<char>) -> bool {
    line.len() > 0 && line[0] == ':'
}

/// The lines up to the next one with a tag, each behind a space.
pub open spec fn continuation(lines: Seq<Seq<char>>) -> Seq<char>
    decreases lines.len(),
{
    if lines.len() == 0 || tagged(lines[0]) {
        Seq::empty()
    } else {
        seq![' '] + lines[0] + continuation(lines.drop_first())
    }
}

/// The purpose that starts at a line, where the line has the tag of one.
pub open spec fn purpose_at(lines: Seq<Seq<char>>, at: int) -> Option<Seq<char>> {
    if at < lines.len() {
        match after_prefix(lines[at], ":86:"@) {
            Some(first) => Some(first + continuation(lines.skip(at + 1))),
            None => None,
        }
    } else {
        None
    }
}

/// The transaction that starts at a line, where the line has the tag of one and
/// can be read.
pub open spec fn transaction_at(lines: Seq<Seq<char>>, at: int, current_year: int) -> Option<
    TransactionView,
> {
    match after_prefix(lines[at], ":61:"@) {
        Some(line) => pending_transaction(line, purpose_at(lines, at + 1), current_year),
        None => None,
    }
}

/// The transactions that start before a line.
pub open spec fn transactions_before(lines: Seq<Seq<char>>, end: int, current_year: int) -> Seq<
    TransactionView,
>
    decreases end,
{
    if end <= 0 {
        Seq::empty()
    } else {
        let before = transactions_before(lines, end - 1, current_year);
        match transaction_at(lines, end - 1, current_year) {
            Some(transaction) => before.push(transaction),
            None => before,
        }
    }
}

/// The summaries before a line.
pub open spec fn summaries_before(lines: Seq<Seq<char>>, end: int) -> Seq<InterimSummaryView>
    decreases end,
{
    if end <= 0 {
        Seq::empty()
    } else {
        let before = summaries_before(lines, end - 1);
        match summary_of(lines[end - 1]) {
            Some(summary) => before.push(summary),
            None => before,
        }
    }
}

/// What an interim report holds.
#[derive(Debug, PartialEq, Eq)]
pub struct PendingInterim {
    /// The announced transactions.
    pub transactions: Vec<Transaction>,
    /// What the bank says of them as a whole.
    pub summaries: Vec<InterimSummary>,
}

/// What an interim report holds, with its texts as sequences of characters.
#[verifier::ext_equal]
pub struct PendingInterimView {
    pub transactions: Seq<TransactionView>,
    pub summaries: Seq<InterimSummaryView>,
}

/// The summaries with their currencies as sequences of characters.
pub open spec fn summary_views(summaries: Seq<InterimSummary>) -> Seq<InterimSummaryView> {
    Seq::new(summaries.len(), |i: int| summaries[i]@)
}

impl View for PendingInterim {
    type V = PendingInterimView;

    open spec fn view(&self) -> PendingInterimView {
        PendingInterimView {
            transactions: transaction_views(self.transactions@),
            summaries: summary_views(self.summaries@),
        }
    }
}

impl PendingInterimView {
    /// Whether the amounts are in range and the calendar has the dates.
    pub open spec fn valid(self) -> bool {
        valid_transactions(self.transactions) && valid_summaries(self.summaries)
    }
}

/// Whether the amounts of summaries are in range.
pub open spec fn valid_summaries(summaries: Seq<InterimSummaryView>) -> bool {
    forall|i: int| 0 <= i < summaries.len() ==> (#[trigger] summaries[i]).amount.valid()
}

/// What a text announces: a transaction for each line with the tag of one, with
/// the purpose that follows it, and the summaries. What cannot be read is left out.
pub open spec fn pending_of(text: Seq<char>, current_year: int) -> PendingInterimView {
    let lines = content_lines(text);
    PendingInterimView {
        transactions: transactions_before(lines, lines.len() as int, current_year),
        summaries: summaries_before(lines, lines.len() as int),
    }
}

/// Whether each line of a text that sums transactions up can be cut.
pub open spec fn all_well_cut(text: Seq<char>) -> bool {
    let lines = content_lines(text);
    forall|i: int| 0 <= i < lines.len() ==> well_cut(#[trigger] lines[i])
}

/// The lines of a text that say something, without the white space around them.
fn keep_content(text: &str) -> (result: Vec<String>)
    ensures
        texts(result@) == content_lines(text@),
{
    let kept = keep_substantial(text);
    let mut result: Vec<String> = Vec::new();
    let mut at: usize = 0;
    while at < kept.len()
        invariant
            at <= kept@.len(),
            result@.len() == at,
            forall|i: int| 0 <= i < at ==> #[trigger] result@[i]@ == trimmed(kept@[i]@),
        decreases kept@.len() - at,
    {
        result.push(trim(kept[at].as_str()));
        at = at + 1;
    }
    assert(texts(result@) =~= content_lines(text@)) by {
        assert(texts(kept@) == substantial_lines(lines_of(text@)));
        assert forall|i: int| 0 <= i < result@.len() implies texts(result@)[i] == content_lines(
            text@,
        )[i] by {
            assert(texts(kept@)[i] == kept@[i]@);
            assert(result@[i]@ == trimmed(kept@[i]@));
        }
    }
    result
}

/// Neither a transaction nor a summary starts at a line without a tag or with
/// the tag of a purpose.
proof fn lemma_purpose_line(line: Seq<char>)
    requires
        !tagged(line) || after_prefix(line, ":86:"@) is Some,
    ensures
        after_prefix(line, ":61:"@) is None,
        summary_value(line) is None,
        summary_of(line) is None,
{
    reveal_strlit(":86:");
    reveal_strlit(":61:");
    reveal_strlit(":90D:");
    reveal_strlit(":90C:");
    if ":61:"@.is_prefix_of(line) {
        assert(line[0] == ":61:"@[0]);
        assert(line[1] == ":61:"@[1]);
    }
    if ":90D:"@.is_prefix_of(line) {
        assert(line[0] == ":90D:"@[0]);
        assert(line[1] == ":90D:"@[1]);
    }
    if ":90C:"@.is_prefix_of(line) {
        assert(line[0] == ":90C:"@[0]);
        assert(line[1] == ":90C:"@[1]);
    }
    if ":86:"@.is_prefix_of(line) {
        assert(line[0] == ":86:"@[0]);
        assert(line[1] == ":86:"@[1]);
    }
}

/// No line has the tag of a transaction and that of a summary.
proof fn lemma_one_tag(line: Seq<char>)
    requires
        after_prefix(line, ":61:"@) is Some,
    ensures
        summary_of(line) is None,
{
    reveal_strlit(":61:");
    reveal_strlit(":90D:");
    reveal_strlit(":90C:");
    assert(line[1] == ":61:"@[1]);
    if ":90D:"@.is_prefix_of(line) {
        assert(line[1] == ":90D:"@[1]);
    }
    if ":90C:"@.is_prefix_of(line) {
        assert(line[1] == ":90C:"@[1]);
    }
}

/// Lines at which nothing starts add nothing.
proof fn lemma_nothing_starts(lines: Seq<Seq<char>>, start: int, end: int, current_year: int)
    requires
        0 <= start <= end <= lines.len(),
        forall|i: int|
            start <= i < end ==> !tagged(#[trigger] lines[i]) || after_prefix(
                lines[i],
                ":86:"@,
            ) is Some,
    ensures
        transactions_before(lines, end, current_year) == transactions_before(
            lines,
            start,
            current_year,
        ),
        summaries_before(lines, end) == summaries_before(lines, start),
    decreases end - start,
{
    if start < end {
        lemma_nothing_starts(lines, start, end - 1, current_year);
        lemma_purpose_line(lines[end - 1]);
    }
}

/// The purpose that starts at a line, where the line has the tag of one, and the
/// line behind it.
fn read_purpose(lines: &Vec<String>, start: usize) -> (result: (Option<String>, usize))
    requires
        start <= lines@.len(),
    ensures
        text_of(result.0) == purpose_at(texts(lines@), start as int),
        start <= result.1 <= lines@.len(),
        forall|i: int|
            start <= i < result.1 ==> !tagged(#[trigger] texts(lines@)[i]) || after_prefix(
                texts(lines@)[i],
                ":86:"@,
            ) is Some,
{
    if start == lines.len() {
        return (None, start);
    }
    let first = match strip_prefix(lines[start].as_str(), ":86:") {
        Some(first) => first,
        None => {
            return (None, start);
        },
    };
    let ghost views = texts(lines@);
    let ghost following = views.skip(start + 1);
    let mut purpose = first.clone();
    let mut at: usize = start + 1;
    assert(purpose@ + continuation(following) =~= first@ + continuation(following));
    while at < lines.len() && !is_tagged(lines[at].as_str())
        invariant
            start < at <= lines@.len(),
            views == texts(lines@),
            following == views.skip(start + 1),
            purpose@ + continuation(views.skip(at as int)) == first@ + continuation(following),
            after_prefix(views[start as int], ":86:"@) is Some,
            forall|i: int| start < i < at ==> !tagged(#[trigger] views[i]),
        decreases lines@.len() - at,
    {
        let ghost before = purpose@;
        let ghost rest = continuation(views.skip(at + 1));
        assert(views.skip(at as int)[0] == lines@[at as int]@);
        assert(views.skip(at as int).drop_first() =~= views.skip(at + 1));
        purpose.push(' ');
        purpose.append(lines[at].as_str());
        assert(purpose@ + rest =~= before + (seq![' '] + lines@[at as int]@ + rest));
        at = at + 1;
    }
    proof {
        if at < lines@.len() {
            assert(views.skip(at as int)[0] == lines@[at as int]@);
        }
        assert(continuation(views.skip(at as int)) =~= Seq::empty());
        assert(purpose@ =~= purpose@ + continuation(views.skip(at as int)));
    }
    (Some(purpose), at)
}

/// Whether a line starts with a tag.
fn is_tagged(line: &str) -> (result: bool)
    ensures
        result == tagged(line@),
{
    let characters = characters(line);
    characters.len() > 0 && characters[0] == ':'
}

/// Reads what a text announces. The current year tells the century of its dates.
pub fn parse_pending_text(text: &str, current_year: i32) -> (result: PendingInterim)
    requires
        MIN_YEAR <= current_year <= MAX_YEAR,
        all_well_cut(text@),
    ensures
        result@ == pending_of(text@, current_year as int),
        result@.valid(),
{
    let lines = keep_content(text);
    let ghost views = texts(lines@);
    let mut transactions: Vec<Transaction> = Vec::new();
    let mut summaries: Vec<InterimSummary> = Vec::new();
    let mut at: usize = 0;
    assert(transaction_views(transactions@) =~= Seq::empty());
    assert(summary_views(summaries@) =~= Seq::empty());
    while at < lines.len()
        invariant
            at <= lines@.len(),
            MIN_YEAR <= current_year <= MAX_YEAR,
            views == texts(lines@),
            forall|i: int| 0 <= i < views.len() ==> well_cut(#[trigger] views[i]),
            transaction_views(transactions@) == transactions_before(
                views,
                at as int,
                current_year as int,
            ),
            summary_views(summaries@) == summaries_before(views, at as int),
            valid_transactions(transaction_views(transactions@)),
            valid_summaries(summary_views(summaries@)),
        decreases lines@.len() - at,
    {
        let ghost transactions_so_far = transaction_views(transactions@);
        let ghost summaries_so_far = summary_views(summaries@);
        assert(views[at as int] == lines@[at as int]@);
        if let Some(summary) = parse_summary_line(lines[at].as_str()) {
            proof {
                if after_prefix(views[at as int], ":61:"@) is Some {
                    lemma_one_tag(views[at as int]);
                }
            }
            let ghost view = summary@;
            summaries.push(summary);
            assert(summary_views(summaries@) =~= summaries_so_far.push(view));
            at = at + 1;
        } else if let Some(statement_line) = strip_prefix(lines[at].as_str(), ":61:") {
            let (purpose, next) = read_purpose(&lines, at + 1);
            proof {
                lemma_nothing_starts(views, at + 1, next as int, current_year as int);
            }
            if let Some(transaction) = parse_pending_statement_line(
                statement_line.as_str(),
                purpose,
                current_year,
            ) {
                let ghost view = transaction@;
                transactions.push(transaction);
                assert(transaction_views(transactions@) =~= transactions_so_far.push(view));
            }
            at = next;
        } else {
            at = at + 1;
        }
    }
    PendingInterim { transactions, summaries }
}

/// What the data of an interim report announces. Empty data announces nothing.
pub open spec fn pending_result(data: Seq<u8>, current_year: int) -> Result<
    PendingInterimView,
    FinTSErrorView,
> {
    if data.len() == 0 {
        Ok(PendingInterimView { transactions: Seq::empty(), summaries: Seq::empty() })
    } else {
        Ok(pending_of(decoded(data).0, current_year))
    }
}

/// What an interim report holds or an error, with texts as sequences of characters.
pub open spec fn interim_view(result: Result<PendingInterim, FinTSError>) -> Result<
    PendingInterimView,
    FinTSErrorView,
> {
    match result {
        Ok(interim) => Ok(interim@),
        Err(error) => Err(error@),
    }
}

/// Whether a line has the tag of a transaction and six digits for its date.
pub open spec fn dated_line(line: Seq<char>) -> bool {
    match after_prefix(line, ":61:"@) {
        Some(rest) => rest.len() >= 6 && forall|i: int| 0 <= i < 6 ==> digit(#[trigger] rest[i]),
        None => false,
    }
}

/// Whether a text has a date of which the century is to be told.
pub open spec fn dated(text: Seq<char>) -> bool {
    exists|i: int|
        0 <= i < content_lines(text).len() && dated_line(#[trigger] content_lines(text)[i])
}

/// Whether a line has the tag of a transaction and six digits for its date.
fn is_dated_line(line: &str) -> (result: bool)
    ensures
        result == dated_line(line@),
{
    match strip_prefix(line, ":61:") {
        Some(rest) => {
            let rest = characters(rest.as_str());
            if rest.len() < 6 {
                return false;
            }
            let mut at: usize = 0;
            while at < 6
                invariant
                    at <= 6 <= rest@.len(),
                    after_prefix(line@, ":61:"@) == Some(rest@),
                    forall|i: int| 0 <= i < at ==> digit(#[trigger] rest@[i]),
                decreases 6 - at,
            {
                if !is_digit(rest[at]) {
                    return false;
                }
                at = at + 1;
            }
            true
        },
        None => false,
    }
}

/// Whether a text has a date of which the century is to be told.
fn is_dated(text: &str) -> (result: bool)
    ensures
        result == dated(text@),
{
    let lines = keep_content(text);
    let ghost views = content_lines(text@);
    let mut at: usize = 0;
    while at < lines.len()
        invariant
            at <= lines@.len(),
            views == texts(lines@),
            views == content_lines(text@),
            forall|i: int| 0 <= i < at ==> !dated_line(#[trigger] views[i]),
        decreases lines@.len() - at,
    {
        assert(views[at as int] == lines@[at as int]@);
        if is_dated_line(lines[at].as_str()) {
            return true;
        }
        at = at + 1;
    }
    false
}

/// Reads what a text announces. The present year tells the century of its dates,
/// and is asked for only where there are dates.
pub fn parse_pending_now(text: &str) -> (result: PendingInterim)
    requires
        all_well_cut(text@),
    ensures
        exists|year: int|
            1970 <= year <= MAX_YEAR && result@ == #[trigger] pending_of(text@, year),
        dated(text@) ==> exists|year: int|
            told_by_the_clock(year) && result@ == #[trigger] pending_of(text@, year),
        !dated(text@) ==> forall|year: int| result@ == #[trigger] pending_of(text@, year),
        result@.valid(),
{
    let year = if is_dated(text) {
        present_year()
    } else {
        1970
    };
    let result = parse_pending_text(text, year);
    proof {
        assert(result@ == pending_of(text@, year as int));
        if !dated(text@) {
            assert forall|other: int| result@ == #[trigger] pending_of(text@, other) by {
                law_no_date_no_year(text@, year as int, other);
            }
        }
    }
    result
}

/// Reads an interim report. The present year tells the century of its dates. Empty
/// data announces nothing.
pub fn parse_pending_interim_mt940(data: &[u8]) -> (result: Result<PendingInterim, FinTSError>)
    requires
        decodable(data@),
        data@.len() > 0 ==> all_well_cut(decoded(data@).0),
    ensures
        exists|year: int|
            1970 <= year <= MAX_YEAR && interim_view(result) == #[trigger] pending_result(
                data@,
                year,
            ),
        data@.len() > 0 && dated(decoded(data@).0) ==> exists|year: int|
            told_by_the_clock(year) && interim_view(result) == #[trigger] pending_result(
                data@,
                year,
            ),
        data@.len() == 0 || !dated(decoded(data@).0) ==> forall|year: int|
            interim_view(result) == #[trigger] pending_result(data@, year),
        result is Ok && result->Ok_0@.valid(),
{
    if data.len() == 0 {
        let nothing = PendingInterim { transactions: Vec::new(), summaries: Vec::new() };
        assert(nothing@ =~= pending_result(data@, 1970)->Ok_0);
        return Ok(nothing);
    }
    let (text, _) = decode(data);
    let interim = parse_pending_now(text.as_str());
    proof {
        let year = choose|year: int|
            1970 <= year <= MAX_YEAR && interim@ == #[trigger] pending_of(text@, year);
        assert(pending_result(data@, year) == Ok::<PendingInterimView, FinTSErrorView>(interim@));
        if dated(text@) {
            let told = choose|year: int|
                told_by_the_clock(year) && interim@ == #[trigger] pending_of(text@, year);
            assert(pending_result(data@, told) == Ok::<PendingInterimView, FinTSErrorView>(
                interim@,
            ));
        }
        if !dated(text@) {
            assert forall|other: int|
                Ok::<PendingInterimView, FinTSErrorView>(interim@) == #[trigger] pending_result(
                    data@,
                    other,
                ) by {
                assert(interim@ == pending_of(text@, other));
            }
        }
    }
    Ok(interim)
}

/// Whether each line of a text that sums transactions up can be cut.
pub fn is_all_well_cut(text: &str) -> (result: bool)
    ensures
        result == all_well_cut(text@),
{
    let lines = keep_content(text);
    let ghost views = content_lines(text@);
    let mut at: usize = 0;
    while at < lines.len()
        invariant
            at <= lines@.len(),
            views == texts(lines@),
            views == content_lines(text@),
            forall|i: int| 0 <= i < at ==> well_cut(#[trigger] views[i]),
        decreases lines@.len() - at,
    {
        assert(views[at as int] == lines@[at as int]@);
        if !is_well_cut(lines[at].as_str()) {
            return false;
        }
        at = at + 1;
    }
    true
}

/// Reads an interim report, where it can be decoded and each line that sums
/// transactions up can be cut. In ASCII each can.
pub fn try_parse_pending_interim_mt940(data: &[u8]) -> (result: Option<
    Result<PendingInterim, FinTSError>,
>)
    ensures
        result is Some <==> decodable(data@) && (data@.len() > 0 ==> all_well_cut(
            decoded(data@).0,
        )),
        decodable(data@) && ascii_bytes(data@) ==> result is Some,
        result is Some ==> result->0 is Ok && result->0->Ok_0@.valid() && exists|year: int|
            1970 <= year <= MAX_YEAR && interim_view(result->0) == #[trigger] pending_result(
                data@,
                year,
            ),
        result is Some && data@.len() > 0 && dated(decoded(data@).0) ==> exists|year: int|
            told_by_the_clock(year) && interim_view(result->0) == #[trigger] pending_result(
                data@,
                year,
            ),
        result is Some && (data@.len() == 0 || !dated(decoded(data@).0)) ==> forall|year: int|
            interim_view(result->0) == #[trigger] pending_result(data@, year),
{
    if !is_decodable(data) {
        return None;
    }
    if data.len() > 0 {
        let (text, _) = decode(data);
        proof {
            if ascii_bytes(data@) {
                law_ascii_is_well_cut(text@);
            }
        }
        if !is_all_well_cut(text.as_str()) {
            return None;
        }
    }
    Some(parse_pending_interim_mt940(data))
}

} // verus!
