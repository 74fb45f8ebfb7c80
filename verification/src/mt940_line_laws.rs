//! What a transaction has from its statement line, and what a statement is read from.

use crate::amount::{amount_text, Amount};
use crate::date::{date_text, Date};
use crate::error::FinTSErrorView;
use crate::mt940_laws::law_cleaning_keeps_what_says_something;
use crate::mt940_parse::{
    cleaned, first_tags, joined, mt940_result, preview_of, statements_result,
    substantial_lines, tag_of, tags_of, text_preview, transaction_of, transactions_of,
};
use crate::statement::{
    ascii_bytes, decoded, line_from, sanitized, statement_from, statements_of, swift_character,
    swift_text, windows_1252, InformationView, LineParts, Mark, StatementLineView,
};
use crate::text::{lemma_first_position_is, lines_of, text_of, trimmed};
use crate::types::{TransactionStatus, TransactionView};
use vstd::prelude::*;

verus! {

/// A statement line is made of its parts: the dates, the mark at its position among the
/// four, the amount in units of its last decimal place, the references and the
/// information.
pub proof fn law_line_is_made_of_its_parts(parts: LineParts)
    requires
        parts.3.0 >= 0,
    ensures
        ({
            let (value_date, entry_date, position, amount, customer_ref, bank_ref, information) =
                parts;
            let line = line_from(parts);
            &&& line.value_date == (Date {
                year: value_date.0,
                month: value_date.1,
                day: value_date.2,
            })
            &&& entry_date is None ==> line.entry_date is None
            &&& entry_date matches Some((year, month, day)) ==> line.entry_date == Some(
                Date { year, month, day },
            )
            &&& position == 0 ==> line.mark == Mark::Debit
            &&& position == 1 ==> line.mark == Mark::Credit
            &&& position == 2 ==> line.mark == Mark::ReverseDebit
            &&& position > 2 ==> line.mark == Mark::ReverseCredit
            &&& !line.amount.negative
            &&& line.amount.mantissa == amount.0
            &&& line.amount.scale == amount.1
            &&& line.customer_ref == customer_ref@
            &&& line.bank_ref == text_of(bank_ref)
            &&& information is None ==> line.information is None
            &&& information is Some ==> line.information == Some(information->0@)
        }),
{
}

/// A statement has its currency, and a line for each of the parts, in their order.
pub proof fn law_statement_is_made_of_its_lines(
    currency: String,
    parts: Vec<LineParts>,
    at: int,
)
    ensures
        statement_from((currency, parts)).currency == currency@,
        statement_from((currency, parts)).lines.len() == parts@.len(),
        0 <= at < parts@.len() ==> statement_from((currency, parts)).lines[at] == line_from(
            parts@[at],
        ),
{
}

/// Where the information of a line is a plain text, that text, the whole of it, is the
/// purpose, and nothing is said of another party.
pub proof fn law_plain_information_is_the_purpose(
    line: StatementLineView,
    text: Seq<char>,
    currency: Seq<char>,
    status: TransactionStatus,
)
    requires
        line.information == Some(InformationView::Plain(text)),
    ensures
        ({
            let transaction = transaction_of(line, currency, status);
            &&& transaction.purpose == Some(text)
            &&& transaction.applicant_name is None
            &&& transaction.applicant_iban is None
            &&& transaction.applicant_bic is None
            &&& transaction.posting_text is None
        }),
{
}

/// Where the information of a line has parts, each goes where its name says.
pub proof fn law_structured_information_in_parts(
    line: StatementLineView,
    currency: Seq<char>,
    status: TransactionStatus,
)
    requires
        line.information is Some,
        line.information->0 is Structured,
    ensures
        ({
            let transaction = transaction_of(line, currency, status);
            let information = line.information->0;
            &&& transaction.applicant_name == information->applicant_name
            &&& transaction.applicant_iban == information->applicant_iban
            &&& transaction.applicant_bic == information->applicant_bin
            &&& transaction.purpose == information->purpose
            &&& transaction.posting_text == information->posting_text
        }),
{
}

/// A line without information says nothing of a purpose or another party.
pub proof fn law_no_information(
    line: StatementLineView,
    currency: Seq<char>,
    status: TransactionStatus,
)
    requires
        line.information is None,
    ensures
        ({
            let transaction = transaction_of(line, currency, status);
            &&& transaction.purpose is None
            &&& transaction.applicant_name is None
            &&& transaction.applicant_iban is None
            &&& transaction.applicant_bic is None
            &&& transaction.posting_text is None
        }),
{
}

/// A transaction has the dates, the amount and the reference of its line, and the
/// currency and the status that it was given. A debit changes the sign of the amount.
pub proof fn law_transaction_is_of_its_line(
    line: StatementLineView,
    currency: Seq<char>,
    status: TransactionStatus,
)
    ensures
        ({
            let transaction = transaction_of(line, currency, status);
            &&& transaction.date == line.value_date
            &&& transaction.valuta_date == line.entry_date
            &&& transaction.currency == currency
            &&& transaction.reference == Some(line.customer_ref)
            &&& transaction.status == status
            &&& line.mark is Debit ==> transaction.amount == (Amount {
                negative: !line.amount.negative,
                mantissa: line.amount.mantissa,
                scale: line.amount.scale,
            })
            &&& !(line.mark is Debit) ==> transaction.amount == line.amount
        }),
{
}

/// The raw fields of a transaction are what it says otherwise, each under its name.
pub proof fn law_statement_raw_fields_mirror(
    line: StatementLineView,
    currency: Seq<char>,
    status: TransactionStatus,
)
    ensures
        ({
            let transaction = transaction_of(line, currency, status);
            let raw = transaction.raw;
            &&& raw.len() == 11
            &&& raw[0] == ("date"@, Some(date_text(transaction.date)))
            &&& transaction.valuta_date is Some ==> raw[1] == (
                "entry_date"@,
                Some(date_text(transaction.valuta_date->0)),
            )
            &&& transaction.valuta_date is None ==> raw[1] == ("entry_date"@, None::<Seq<char>>)
            &&& raw[2] == ("amount"@, Some(amount_text(transaction.amount)))
            &&& raw[3] == ("currency"@, Some(transaction.currency))
            &&& raw[4] == ("customer_ref"@, transaction.reference)
            &&& raw[5] == ("bank_ref"@, line.bank_ref)
            &&& raw[6] == ("applicant_name"@, transaction.applicant_name)
            &&& raw[7] == ("applicant_iban"@, transaction.applicant_iban)
            &&& raw[8] == ("applicant_bic"@, transaction.applicant_bic)
            &&& raw[9] == ("purpose"@, transaction.purpose)
            &&& raw[10] == ("posting_text"@, transaction.posting_text)
        }),
{
}

/// The lines that say something are those that are not blank and not one or two
/// hyphens, all of them and in their order.
pub proof fn law_lines_that_say_something(lines: Seq<Seq<char>>)
    ensures
        substantial_lines(lines) == lines.filter(
            |line: Seq<char>|
                trimmed(line).len() > 0 && trimmed(line) != "-"@ && trimmed(line) != "--"@,
        ),
    decreases lines.len(),
{
    reveal(Seq::filter);
    if lines.len() > 0 {
        law_lines_that_say_something(lines.drop_last());
    } else {
        assert(substantial_lines(lines) =~= lines);
    }
}

/// Lines one behind the other, each with a carriage return and a line feed.
pub open spec fn ended(lines: Seq<Seq<char>>) -> Seq<char>
    decreases lines.len(),
{
    if lines.len() == 0 {
        Seq::empty()
    } else {
        ended(lines.drop_last()) + lines.last() + seq!['\r', '\n']
    }
}

/// Parts with separators between them and one behind them are the lines that end with
/// the separator.
proof fn lemma_ended(lines: Seq<Seq<char>>)
    requires
        lines.len() > 0,
    ensures
        joined(lines, "\r\n"@) + "\r\n"@ == ended(lines),
    decreases lines.len(),
{
    reveal_strlit("\r\n");
    assert("\r\n"@ =~= seq!['\r', '\n']);
    let fewer = lines.drop_last();
    if fewer.len() == 0 {
        assert(lines.drop_first() =~= Seq::empty());
        assert(ended(fewer) =~= Seq::empty());
        assert(joined(lines, "\r\n"@) + "\r\n"@ =~= ended(lines));
    } else {
        lemma_ended(fewer);
        assert(lines.drop_first().drop_last() =~= fewer.drop_first());
        assert(joined(lines, "\r\n"@) =~= joined(fewer, "\r\n"@) + "\r\n"@ + lines.last());
        assert(joined(lines, "\r\n"@) + "\r\n"@ =~= ended(lines));
    }
}

/// A clean text is the lines that say something, as they stand, each with a carriage
/// return and a line feed. Where no line does, it is an empty line.
pub proof fn law_clean_text_is_the_kept_lines(text: Seq<char>)
    ensures
        ({
            let kept = lines_of(text).filter(
                |line: Seq<char>|
                    trimmed(line).len() > 0 && trimmed(line) != "-"@ && trimmed(line) != "--"@,
            );
            &&& kept.len() > 0 ==> cleaned(text) == ended(kept)
            &&& kept.len() > 0 ==> lines_of(cleaned(text)) == kept
            &&& kept.len() == 0 ==> cleaned(text) == seq!['\r', '\n']
        }),
{
    let kept = substantial_lines(lines_of(text));
    law_lines_that_say_something(lines_of(text));
    law_cleaning_keeps_what_says_something(text);
    if kept.len() > 0 {
        lemma_ended(kept);
    } else {
        reveal_strlit("\r\n");
        assert("\r\n"@ =~= seq!['\r', '\n']);
    }
}

/// Joining puts a separator between each two parts, and nowhere else.
pub proof fn law_joined_part_by_part(
    parts: Seq<Seq<char>>,
    last: Seq<char>,
    separator: Seq<char>,
)
    ensures
        joined(Seq::empty(), separator).len() == 0,
        joined(seq![last], separator) == last,
        parts.len() > 0 ==> joined(parts.push(last), separator) == joined(parts, separator)
            + separator + last,
{
    assert(seq![last].drop_first() =~= Seq::empty());
    assert(joined(seq![last], separator) =~= last);
    if parts.len() > 0 {
        let more = parts.push(last);
        assert(more.drop_first().drop_last() =~= parts.drop_first());
        assert(more.drop_first().last() == last);
        assert(joined(more, separator) =~= joined(parts, separator) + separator + last);
    }
}

/// A line that starts with a colon, apart from white space, has what stands up to the
/// next colon as its tag, with both colons. Other lines have none.
pub proof fn law_tag_stands_between_colons(line: Seq<char>, tag: Seq<char>, rest: Seq<char>)
    requires
        !tag.contains(':'),
    ensures
        trimmed(line) == seq![':'] + tag + seq![':'] + rest ==> tag_of(line) == Some(
            seq![':'] + tag + seq![':'],
        ),
        trimmed(line) == seq![':'] + tag ==> tag_of(line) is None,
        trimmed(line).len() == 0 || trimmed(line)[0] != ':' ==> tag_of(line) is None,
{
    let content = trimmed(line);
    assert forall|i: int| 0 <= i < tag.len() implies tag[i] != ':' by {
        assert(tag.contains(tag[i]));
    }
    if content == seq![':'] + tag + seq![':'] + rest {
        let behind = content.drop_first();
        assert(behind =~= tag + seq![':'] + rest);
        assert forall|i: int| 0 <= i < tag.len() implies behind[i] != ':' by {
            assert(behind[i] == tag[i]);
        }
        assert(behind[tag.len() as int] == ':');
        lemma_first_position_is(behind, ':', tag.len() as int);
        assert(content.take(tag.len() as int + 2) =~= seq![':'] + tag + seq![':']);
    } else if content == seq![':'] + tag {
        assert(content.drop_first() =~= tag);
        lemma_first_position_is(tag, ':', tag.len() as int);
    }
}

/// The tags of lines are those of the lines that have one, in their order.
pub proof fn law_tags_follow_lines(lines: Seq<Seq<char>>)
    ensures
        tags_of(lines) == lines.filter_map(|line: Seq<char>| tag_of(line)),
    decreases lines.len(),
{
    let read = |line: Seq<char>| tag_of(line);
    if lines.len() > 0 {
        law_tags_follow_lines(lines.drop_last());
        let before = tags_of(lines.drop_last());
        if let Some(tag) = tag_of(lines.last()) {
            assert(before.push(tag) =~= before + seq![tag]);
        }
        assert(tags_of(lines) == lines.filter_map(read));
    } else {
        assert(tags_of(lines) =~= lines.filter_map(read));
    }
}

/// A preview is the first twelve tags with commas between them, or all where there are
/// fewer, or a remark where there is none.
pub proof fn law_preview_of_a_text(text: Seq<char>)
    ensures
        ({
            let tags = lines_of(text).filter_map(|line: Seq<char>| tag_of(line));
            &&& tags.len() <= 12 ==> first_tags(text) == tags
            &&& tags.len() > 12 ==> first_tags(text) == tags.take(12)
            &&& tags.len() == 0 ==> text_preview(text) == "no MT940 tags found"@
            &&& tags.len() > 0 ==> text_preview(text) == joined(first_tags(text), ","@)
        }),
{
    law_tags_follow_lines(lines_of(text));
    let tags = tags_of(lines_of(text));
    if tags.len() == 12 {
        assert(tags.take(12) =~= tags);
    }
}

/// A preview of data that is not empty is that of its text.
pub proof fn law_preview_of_data(data: Seq<u8>)
    requires
        data.len() > 0,
    ensures
        preview_of(data) == text_preview(decoded(data).0),
{
}

/// Data that is not empty is decoded, cleaned and brought to the characters of SWIFT.
/// The statements that are read from it give the transactions, and an error is the
/// error, with a remark before it.
pub proof fn law_statement_is_read(data: Seq<u8>, status: TransactionStatus)
    requires
        data.len() > 0,
    ensures
        ({
            let statements = statements_of(sanitized(cleaned(decoded(data).0)));
            &&& statements is Ok ==> mt940_result(data, status) == Ok::<
                Seq<TransactionView>,
                FinTSErrorView,
            >(transactions_of(statements->Ok_0, status))
            &&& statements is Err ==> mt940_result(data, status) == Err::<
                Seq<TransactionView>,
                FinTSErrorView,
            >(FinTSErrorView::Mt940("MT940 parse error: "@ + statements->Err_0))
            &&& mt940_result(data, status) == statements_result(statements, status)
        }),
{
}

/// ASCII is decoded character by character, and other data as Windows-1252.
pub proof fn law_data_is_decoded(data: Seq<u8>)
    ensures
        (forall|i: int| 0 <= i < data.len() ==> #[trigger] data[i] < 0x80) ==> {
            &&& !decoded(data).1
            &&& decoded(data).0.len() == data.len()
            &&& forall|i: int|
                0 <= i < data.len() ==> #[trigger] decoded(data).0[i] == data[i] as char
        },
        !(forall|i: int| 0 <= i < data.len() ==> #[trigger] data[i] < 0x80) ==> decoded(data)
            == windows_1252(data),
{
    assert(ascii_bytes(data) == (forall|i: int|
        0 <= i < data.len() ==> #[trigger] data[i] < 0x80));
}

/// A text in the characters of SWIFT stays as it is, and another is brought to them.
pub proof fn law_text_is_sanitized(text: Seq<char>)
    ensures
        (forall|i: int| 0 <= i < text.len() ==> swift_character(#[trigger] text[i])) ==> sanitized(
            text,
        ) == text,
        !(forall|i: int| 0 <= i < text.len() ==> swift_character(#[trigger] text[i]))
            ==> sanitized(text) == swift_text(text),
{
}

} // verus!
