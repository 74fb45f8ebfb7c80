//! What holds of every interim report.

use crate::amount::decimal_of;
use crate::date::{MAX_YEAR, MIN_YEAR};
use crate::mt940_parse::substantial_lines;
use crate::pending::{
    all_well_cut, amount_character, ascii_letter, characters_in, content_lines, continuation, dated,
    dated_line, counted, full_year, leading_digits, lemma_run_length, pending_line, pending_of,
    pending_transaction, purpose_at, run_length, short_date, summaries_before, summary_of,
    summary_value, tagged, transaction_at, transactions_before, unmarked, utf8_length, well_cut,
    InterimSummaryView, PendingLine,
};
use crate::summaries::{borne_out, matching, mismatch, mismatches};
use crate::text::{
    after_prefix, digit, digits_value, first_position, lemma_first_position, lines_of, trimmed,
    trimmed_end, trimmed_start, white_space, with_points, without_return,
};
use crate::types::{TransactionStatus, TransactionView};
use vstd::prelude::*;

verus! {

/// Whether a text is ASCII.
pub open spec fn ascii(text: Seq<char>) -> bool {
    forall|i: int| 0 <= i < text.len() ==> #[trigger] text[i] <= '\u{7f}'
}

/// Three characters of ASCII fill three bytes.
proof fn lemma_ascii_cut(text: Seq<char>)
    requires
        ascii(text),
    ensures
        utf8_length(text) == text.len(),
        text.len() >= 3 ==> characters_in(text, 3) == Some(3int),
    decreases text.len(),
{
    if text.len() > 0 {
        let rest = text.drop_first();
        assert forall|i: int| 0 <= i < rest.len() implies #[trigger] rest[i] <= '\u{7f}' by {
            assert(rest[i] == text[i + 1]);
        }
        lemma_ascii_cut(rest);
        assert(text[0] <= '\u{7f}');
        if text.len() >= 3 {
            reveal_with_fuel(characters_in, 4);
            assert(rest[0] == text[1]);
            assert(rest.drop_first()[0] == text[2]);
        }
    }
}

/// The characters that are left after trimming are those of the text.
proof fn lemma_trimmed_ascii(text: Seq<char>)
    requires
        ascii(text),
    ensures
        ascii(trimmed(text)),
{
    lemma_trimmed_start_ascii(text);
    lemma_trimmed_end_ascii(trimmed_start(text));
}

proof fn lemma_trimmed_start_ascii(text: Seq<char>)
    requires
        ascii(text),
    ensures
        ascii(trimmed_start(text)),
    decreases text.len(),
{
    if text.len() > 0 && white_space(text[0]) {
        lemma_ascii_part(text, 1, text.len() as int);
        assert(text.drop_first() =~= text.subrange(1, text.len() as int));
        lemma_trimmed_start_ascii(text.drop_first());
    }
}

proof fn lemma_trimmed_end_ascii(text: Seq<char>)
    requires
        ascii(text),
    ensures
        ascii(trimmed_end(text)),
    decreases text.len(),
{
    if text.len() > 0 && white_space(text.last()) {
        lemma_ascii_part(text, 0, text.len() - 1);
        assert(text.drop_last() =~= text.subrange(0, text.len() - 1));
        lemma_trimmed_end_ascii(text.drop_last());
    }
}

/// A part of a text that is ASCII is too.
proof fn lemma_ascii_part(text: Seq<char>, start: int, end: int)
    requires
        ascii(text),
        0 <= start <= end <= text.len(),
    ensures
        ascii(text.subrange(start, end)),
{
    assert forall|i: int| 0 <= i < end - start implies #[trigger] text.subrange(start, end)[i]
        <= '\u{7f}' by {
        assert(text.subrange(start, end)[i] == text[start + i]);
    }
}

/// The lines of a text that is ASCII are too.
proof fn lemma_ascii_lines(text: Seq<char>)
    requires
        ascii(text),
    ensures
        forall|i: int| 0 <= i < lines_of(text).len() ==> ascii(#[trigger] lines_of(text)[i]),
    decreases text.len(),
{
    if text.len() > 0 {
        let end = first_position(text, '\n');
        lemma_first_position(text, '\n');
        if end < text.len() {
            let rest = text.skip(end + 1);
            let first = without_return(text.take(end));
            lemma_ascii_part(text, end + 1, text.len() as int);
            lemma_ascii_part(text, 0, first.len() as int);
            assert(first =~= text.subrange(0, first.len() as int));
            lemma_ascii_lines(rest);
            assert forall|i: int| 0 <= i < lines_of(text).len() implies ascii(
                #[trigger] lines_of(text)[i],
            ) by {
                if i > 0 {
                    assert(lines_of(text)[i] == lines_of(rest)[i - 1]);
                }
            }
        }
    }
}

/// The lines that say something of lines that are ASCII are too.
proof fn lemma_ascii_substantial(lines: Seq<Seq<char>>)
    requires
        forall|i: int| 0 <= i < lines.len() ==> ascii(#[trigger] lines[i]),
    ensures
        forall|i: int|
            0 <= i < substantial_lines(lines).len() ==> ascii(
                #[trigger] substantial_lines(lines)[i],
            ),
    decreases lines.len(),
{
    if lines.len() > 0 {
        let fewer = lines.drop_last();
        assert forall|i: int| 0 <= i < fewer.len() implies ascii(#[trigger] fewer[i]) by {
            assert(fewer[i] == lines[i]);
        }
        lemma_ascii_substantial(fewer);
        let before = substantial_lines(fewer);
        assert forall|i: int| 0 <= i < substantial_lines(lines).len() implies ascii(
            #[trigger] substantial_lines(lines)[i],
        ) by {
            if i < before.len() {
                assert(ascii(before[i]));
            } else {
                assert(ascii(lines[lines.len() - 1]));
            }
        }
    }
}

/// A line that is ASCII can be cut.
proof fn lemma_ascii_well_cut(line: Seq<char>)
    requires
        ascii(line),
    ensures
        well_cut(line),
{
    if let Some((_, value)) = summary_value(line) {
        reveal_strlit(":90D:");
        reveal_strlit(":90C:");
        assert(value =~= line.subrange(5, line.len() as int));
        lemma_ascii_part(line, 5, line.len() as int);
        let length = leading_digits(value);
        lemma_run_in_text(value, |c: char| digit(c));
        lemma_ascii_part(value, length, value.len() as int);
        assert(value.skip(length) =~= value.subrange(length, value.len() as int));
        lemma_ascii_cut(value.skip(length));
    }
}

/// A run ends in the text.
proof fn lemma_run_in_text(text: Seq<char>, kind: spec_fn(char) -> bool)
    ensures
        0 <= run_length(text, kind) <= text.len(),
    decreases text.len(),
{
    if text.len() > 0 && kind(text[0]) {
        lemma_run_in_text(text.drop_first(), kind);
    }
}

/// Each line of a text that is ASCII can be cut.
pub proof fn law_ascii_is_well_cut(text: Seq<char>)
    requires
        ascii(text),
    ensures
        all_well_cut(text),
{
    let lines = substantial_lines(lines_of(text));
    lemma_ascii_lines(text);
    lemma_ascii_substantial(lines_of(text));
    assert forall|i: int| 0 <= i < content_lines(text).len() implies well_cut(
        #[trigger] content_lines(text)[i],
    ) by {
        assert(ascii(lines[i]));
        lemma_trimmed_ascii(lines[i]);
        lemma_ascii_well_cut(trimmed(lines[i]));
    }
}

/// Whether a transaction is one that is announced: pending, in euros, without a
/// day of entry and without another party.
pub open spec fn announced(transaction: TransactionView) -> bool {
    &&& transaction.status == TransactionStatus::Pending
    &&& transaction.currency == "EUR"@
    &&& transaction.valuta_date is None
    &&& transaction.applicant_name is None
    &&& transaction.applicant_iban is None
    &&& transaction.applicant_bic is None
    &&& transaction.posting_text is None
    &&& transaction.date.valid()
}

/// Each transaction of an interim report is announced, on a day that the calendar has.
pub proof fn law_transactions_are_announced(text: Seq<char>, current_year: int, at: int)
    requires
        0 <= at < pending_of(text, current_year).transactions.len(),
    ensures
        announced(pending_of(text, current_year).transactions[at]),
{
    let lines = content_lines(text);
    lemma_announced(lines, lines.len() as int, current_year, at);
}

proof fn lemma_announced(lines: Seq<Seq<char>>, end: int, current_year: int, at: int)
    requires
        0 <= at < transactions_before(lines, end, current_year).len(),
    ensures
        announced(transactions_before(lines, end, current_year)[at]),
    decreases end,
{
    if end > 0 {
        let before = transactions_before(lines, end - 1, current_year);
        if at < before.len() {
            lemma_announced(lines, end - 1, current_year, at);
        }
    }
}

/// Reading further adds transactions and summaries behind those that were read,
/// and changes none of them.
pub proof fn law_order_of_the_text(
    lines: Seq<Seq<char>>,
    start: int,
    end: int,
    current_year: int,
)
    requires
        0 <= start <= end,
    ensures
        transactions_before(lines, start, current_year).is_prefix_of(
            transactions_before(lines, end, current_year),
        ),
        summaries_before(lines, start).is_prefix_of(summaries_before(lines, end)),
    decreases end - start,
{
    let few = transactions_before(lines, start, current_year);
    let some = summaries_before(lines, start);
    if start == end {
        assert(few =~= few.take(few.len() as int));
        assert(some =~= some.take(some.len() as int));
    } else {
        law_order_of_the_text(lines, start, end - 1, current_year);
        let more = transactions_before(lines, end, current_year);
        let others = summaries_before(lines, end);
        assert(few =~= more.take(few.len() as int));
        assert(some =~= others.take(some.len() as int));
    }
}

/// The number of lines with the tag of a transaction.
pub open spec fn statement_lines(lines: Seq<Seq<char>>) -> nat
    decreases lines.len(),
{
    if lines.len() == 0 {
        0
    } else {
        statement_lines(lines.drop_last()) + if after_prefix(lines.last(), ":61:"@) is Some {
            1nat
        } else {
            0
        }
    }
}

/// There are no more transactions than lines with the tag of one.
pub proof fn law_no_transaction_without_line(text: Seq<char>, current_year: int)
    ensures
        pending_of(text, current_year).transactions.len() <= statement_lines(content_lines(text)),
{
    let lines = content_lines(text);
    lemma_statement_lines(lines, lines.len() as int, current_year);
    assert(lines.take(lines.len() as int) =~= lines);
}

proof fn lemma_statement_lines(lines: Seq<Seq<char>>, end: int, current_year: int)
    requires
        0 <= end <= lines.len(),
    ensures
        transactions_before(lines, end, current_year).len() <= statement_lines(lines.take(end)),
    decreases end,
{
    if end > 0 {
        lemma_statement_lines(lines, end - 1, current_year);
        assert(lines.take(end).drop_last() =~= lines.take(end - 1));
        assert(lines.take(end).last() == lines[end - 1]);
    }
}

/// The year of a date ends with the digits that were written. It is at most ten
/// years after the present one, and less than a hundred before it.
pub proof fn law_year_is_near(digits: int, current_year: int)
    requires
        0 <= digits < 100,
    ensures
        current_year - 100 < full_year(digits, current_year) <= current_year + 10,
        full_year(digits, current_year) % 100 == digits,
{
}

/// A date of six digits has the month and the day that were written, and a year
/// that ends with the digits that were written.
pub proof fn law_short_date_is_as_written(text: Seq<char>, current_year: int)
    requires
        MIN_YEAR <= current_year <= MAX_YEAR,
        short_date(text, current_year) is Some,
    ensures
        ({
            let date = short_date(text, current_year)->0;
            &&& date.valid()
            &&& date.year as int % 100 == digits_value(text.subrange(0, 2))
            &&& date.month == digits_value(text.subrange(2, 4))
            &&& date.day == digits_value(text.subrange(4, 6))
        }),
{
    lemma_two_digits(text.subrange(0, 2));
    lemma_two_digits(text.subrange(2, 4));
    lemma_two_digits(text.subrange(4, 6));
    law_year_is_near(digits_value(text.subrange(0, 2)) as int, current_year);
}

proof fn lemma_two_digits(text: Seq<char>)
    requires
        text.len() == 2,
        digit(text[0]),
        digit(text[1]),
    ensures
        digits_value(text) < 100,
{
    reveal_with_fuel(digits_value, 3);
    assert(text.drop_last().last() == text[0]);
}

/// A transaction keeps the line that it was read from, its purpose and its
/// reference among its raw fields.
pub proof fn law_raw_fields_mirror(
    line: Seq<char>,
    purpose: Option<Seq<char>>,
    current_year: int,
)
    requires
        pending_transaction(line, purpose, current_year) is Some,
    ensures
        ({
            let transaction = pending_transaction(line, purpose, current_year)->0;
            &&& transaction.purpose == purpose
            &&& transaction.raw.len() == 4
            &&& transaction.raw[0] == ("source"@, Some("pending_interim_mt940"@))
            &&& transaction.raw[1] == ("statement_line"@, Some(line))
            &&& transaction.raw[2] == ("purpose"@, transaction.purpose)
            &&& transaction.raw[3] == ("reference"@, transaction.reference)
        }),
{
}

/// Each transaction is counted in one direction.
pub proof fn law_each_transaction_has_a_direction(transactions: Seq<TransactionView>)
    ensures
        matching(transactions, true).len() + matching(transactions, false).len()
            == transactions.len(),
    decreases transactions.len(),
{
    if transactions.len() > 0 {
        law_each_transaction_has_a_direction(transactions.drop_last());
    }
}

/// There is no mismatch exactly where each summary is borne out.
pub proof fn law_no_mismatch_where_borne_out(
    transactions: Seq<TransactionView>,
    summaries: Seq<InterimSummaryView>,
)
    ensures
        mismatches(transactions, summaries).len() == 0 <==> forall|i: int|
            0 <= i < summaries.len() ==> borne_out(transactions, #[trigger] summaries[i]),
    decreases summaries.len(),
{
    if summaries.len() > 0 {
        let fewer = summaries.drop_last();
        law_no_mismatch_where_borne_out(transactions, fewer);
        if forall|i: int|
            0 <= i < summaries.len() ==> borne_out(transactions, #[trigger] summaries[i]) {
            assert forall|i: int| 0 <= i < fewer.len() implies borne_out(
                transactions,
                #[trigger] fewer[i],
            ) by {
                assert(fewer[i] == summaries[i]);
            }
            assert(borne_out(transactions, summaries[summaries.len() - 1]));
        } else {
            let at = choose|i: int|
                0 <= i < summaries.len() && !borne_out(transactions, #[trigger] summaries[i]);
            if at < fewer.len() {
                assert(!borne_out(transactions, fewer[at]));
            }
        }
    }
}

/// Each mismatch is that of a summary that is not borne out.
pub proof fn law_mismatches_are_of_summaries(
    transactions: Seq<TransactionView>,
    summaries: Seq<InterimSummaryView>,
    at: int,
)
    requires
        0 <= at < mismatches(transactions, summaries).len(),
    ensures
        exists|i: int|
            0 <= i < summaries.len() && !borne_out(transactions, #[trigger] summaries[i])
                && mismatches(transactions, summaries)[at] == mismatch(transactions, summaries[i]),
    decreases summaries.len(),
{
    if summaries.len() > 0 {
        let fewer = summaries.drop_last();
        let before = mismatches(transactions, fewer);
        if at < before.len() {
            law_mismatches_are_of_summaries(transactions, fewer, at);
            let which = choose|i: int|
                0 <= i < fewer.len() && !borne_out(transactions, #[trigger] fewer[i]) && before[at]
                    == mismatch(transactions, fewer[i]);
            assert(summaries[which] == fewer[which]);
        } else {
            assert(summaries[summaries.len() - 1] == summaries.last());
        }
    }
}

/// A statement line is taken apart as it was put together: a date of six
/// characters, a mark, an amount, and what follows.
pub proof fn law_statement_line_in_parts(
    date: Seq<char>,
    debit: bool,
    amount: Seq<char>,
    rest: Seq<char>,
)
    requires
        date.len() == 6,
        forall|i: int| 0 <= i < amount.len() ==> amount_character(#[trigger] amount[i]),
        amount.len() > 0,
        rest.len() > 0 ==> !amount_character(rest[0]),
    ensures
        pending_line(
            date.push(
                if debit {
                    'D'
                } else {
                    'C'
                },
            ) + amount + rest,
        ) == Some(PendingLine { date, debit, amount, rest }),
{
    let mark = if debit {
        'D'
    } else {
        'C'
    };
    let line = date.push(mark) + amount + rest;
    let unmarked_kind = |c: char| unmarked(c);
    let amount_kind = |c: char| amount_character(c);
    assert(line[6] == mark);
    assert(line.skip(6)[0] == mark);
    lemma_run_length(line.skip(6), unmarked_kind, 0);
    assert(line[7] == amount[0]);
    assert(amount_character(amount[0]));
    let tail = line.skip(7);
    assert(tail =~= amount + rest);
    assert forall|i: int| 0 <= i < amount.len() implies amount_kind(#[trigger] tail[i]) by {
        assert(amount_character(amount[i]));
    }
    lemma_run_length(tail, amount_kind, amount.len() as int);
    assert(line.take(6) =~= date);
    assert(line.subrange(7, 7 + amount.len() as int) =~= amount);
    assert(line.skip(7 + amount.len() as int) =~= rest);
}

/// A summary is taken apart as it was put together: a tag, a number, a currency of
/// three letters, and a total.
pub proof fn law_summary_line_in_parts(
    debit: bool,
    number: Seq<char>,
    currency: Seq<char>,
    total: Seq<char>,
)
    requires
        number.len() > 0,
        forall|i: int| 0 <= i < number.len() ==> digit(#[trigger] number[i]),
        counted(number) is Some,
        currency.len() == 3,
        forall|i: int| 0 <= i < 3 ==> ascii_letter(#[trigger] currency[i]),
        decimal_of(with_points(total)) is Ok,
    ensures
        ({
            let tag = if debit {
                ":90D:"@
            } else {
                ":90C:"@
            };
            let line = tag + number + currency + total;
            &&& well_cut(line)
            &&& summary_of(line) == Some(
                InterimSummaryView {
                    debit,
                    count: counted(number)->0,
                    amount: decimal_of(with_points(total))->Ok_0,
                    currency,
                },
            )
        }),
{
    reveal_strlit(":90D:");
    reveal_strlit(":90C:");
    let tag = if debit {
        ":90D:"@
    } else {
        ":90C:"@
    };
    let line = tag + number + currency + total;
    let value = number + currency + total;
    assert(line =~= tag + value);
    assert(line.take(5) =~= tag);
    assert(line.skip(5) =~= value);
    assert(line[3] == tag[3]);
    assert(":90D:"@[3] == 'D' && ":90C:"@[3] == 'C');
    assert(summary_value(line) == Some((debit, value)));
    let kind = |c: char| digit(c);
    let length = number.len() as int;
    assert(ascii_letter(currency[0]));
    assert(ascii_letter(currency[1]));
    assert(ascii_letter(currency[2]));
    assert(value[length] == currency[0]);
    assert forall|i: int| 0 <= i < length implies kind(#[trigger] value[i]) by {
        assert(value[i] == number[i]);
    }
    lemma_run_length(value, kind, length);
    assert(value.take(length) =~= number);
    let rest = value.skip(length);
    assert(rest =~= currency + total);
    reveal_with_fuel(characters_in, 4);
    assert(rest.drop_first()[0] == currency[1]);
    assert(rest.drop_first().drop_first()[0] == currency[2]);
    assert(characters_in(rest, 3) == Some(3int));
    assert(rest.take(3) =~= currency);
    assert(rest.skip(3) =~= total);
}

/// A line with a tag behind others does not go on a purpose.
proof fn lemma_continuation_ends(lines: Seq<Seq<char>>, line: Seq<char>)
    requires
        tagged(line),
    ensures
        continuation(lines.push(line)) == continuation(lines),
    decreases lines.len(),
{
    if lines.len() > 0 {
        assert(lines.push(line)[0] == lines[0]);
        if !tagged(lines[0]) {
            assert(lines.push(line).drop_first() =~= lines.drop_first().push(line));
            lemma_continuation_ends(lines.drop_first(), line);
        }
    }
}

/// A summary at the end alters no transaction.
pub proof fn law_summary_alters_no_transaction(
    lines: Seq<Seq<char>>,
    line: Seq<char>,
    current_year: int,
)
    requires
        summary_value(line) is Some,
    ensures
        transactions_before(lines.push(line), lines.len() as int + 1, current_year)
            == transactions_before(lines, lines.len() as int, current_year),
{
    reveal_strlit(":90D:");
    reveal_strlit(":90C:");
    reveal_strlit(":61:");
    reveal_strlit(":86:");
    let tag = if after_prefix(line, ":90D:"@) is Some {
        ":90D:"@
    } else {
        ":90C:"@
    };
    assert(line[0] == tag[0] && line[1] == tag[1]);
    assert(tag[0] == ':' && tag[1] == '9');
    if ":61:"@.is_prefix_of(line) {
        assert(line[1] == ":61:"@[1]);
    }
    if ":86:"@.is_prefix_of(line) {
        assert(line[1] == ":86:"@[1]);
    }
    lemma_same_transactions(lines, line, lines.len() as int, current_year);
    assert(transaction_at(lines.push(line), lines.len() as int, current_year) is None);
}

/// A line with the tag of no purpose behind others does not alter their transactions.
proof fn lemma_same_transactions(
    lines: Seq<Seq<char>>,
    line: Seq<char>,
    end: int,
    current_year: int,
)
    requires
        tagged(line),
        after_prefix(line, ":86:"@) is None,
        0 <= end <= lines.len(),
    ensures
        transactions_before(lines.push(line), end, current_year) == transactions_before(
            lines,
            end,
            current_year,
        ),
    decreases end,
{
    if end > 0 {
        let more = lines.push(line);
        lemma_same_transactions(lines, line, end - 1, current_year);
        assert(more[end - 1] == lines[end - 1]);
        if end < lines.len() {
            assert(more[end] == lines[end]);
            assert(more.skip(end + 1) =~= lines.skip(end + 1).push(line));
            lemma_continuation_ends(lines.skip(end + 1), line);
        } else {
            assert(more[end] == line);
        }
        assert(purpose_at(more, end) == purpose_at(lines, end));
        assert(transaction_at(more, end - 1, current_year) == transaction_at(
            lines,
            end - 1,
            current_year,
        ));
    }
}

/// What a text without dates announces does not depend on the year.
pub proof fn law_no_date_no_year(text: Seq<char>, left: int, right: int)
    requires
        !dated(text),
    ensures
        pending_of(text, left) == pending_of(text, right),
{
    let lines = content_lines(text);
    assert forall|i: int| 0 <= i < lines.len() implies !dated_line(#[trigger] lines[i]) by {
        assert(!dated_line(content_lines(text)[i]));
    }
    lemma_no_date_no_year(lines, lines.len() as int, left, right);
}

proof fn lemma_no_date_no_year(lines: Seq<Seq<char>>, end: int, left: int, right: int)
    requires
        0 <= end <= lines.len(),
        forall|i: int| 0 <= i < lines.len() ==> !dated_line(#[trigger] lines[i]),
    ensures
        transactions_before(lines, end, left) == transactions_before(lines, end, right),
    decreases end,
{
    if end > 0 {
        lemma_no_date_no_year(lines, end - 1, left, right);
        assert(!dated_line(lines[end - 1]));
        if let Some(line) = after_prefix(lines[end - 1], ":61:"@) {
            if line.len() >= 6 {
                let at = choose|i: int| 0 <= i < 6 && !digit(#[trigger] line[i]);
                assert(line.take(6)[at] == line[at]);
                assert(short_date(line.take(6), left) is None);
                assert(short_date(line.take(6), right) is None);
            }
        }
    }
}

} // verus!
