//! Reads MT940 statements.

use crate::amount::{amount_text, write_decimal};
use crate::date::{date_text, write_date};
use crate::error::{FinTSError, FinTSErrorView};
use crate::fields::{is_readable, readable};
use crate::statement::{
    all_swift, all_valid, byte_for_byte, decodable, decode, decoded, has_byte_order_mark,
    is_decodable, read_statements, sanitize, sanitized, statement_views, statements_of, Information,
    InformationView, Mark, Statement, StatementLine, StatementLineView, StatementView,
};
use crate::text::{
    characters, copy_text, find, first_position, lines, lines_of, same_text, string_between,
    text_of, texts, trim, trimmed,
};
use crate::types::{
    transaction_views, valid_transactions, Bic, Currency, Iban, RawField, Transaction,
    TransactionStatus, TransactionView,
};
use vstd::prelude::*;

verus! {

/// The text of a statement as it came, and whether some of its bytes were
/// malformed. Without a byte order mark each byte is a character.
pub fn decode_statement(data: &[u8]) -> (result: (String, bool))
    requires
        decodable(data@),
    ensures
        (result.0@, result.1) == decoded(data@),
        !has_byte_order_mark(data@) ==> byte_for_byte(data@, result.0@) && !result.1,
{
    decode(data)
}

/// Each part behind a separator.
pub open spec fn separated(parts: Seq<Seq<char>>, separator: Seq<char>) -> Seq<char>
    decreases parts.len(),
{
    if parts.len() == 0 {
        Seq::empty()
    } else {
        separated(parts.drop_last(), separator) + separator + parts.last()
    }
}

/// The parts with a separator between them.
pub open spec fn joined(parts: Seq<Seq<char>>, separator: Seq<char>) -> Seq<char> {
    if parts.len() == 0 {
        Seq::empty()
    } else {
        parts[0] + separated(parts.drop_first(), separator)
    }
}

/// The parts with a separator between them.
pub fn join(parts: &Vec<String>, separator: &str) -> (result: String)
    ensures
        result@ == joined(texts(parts@), separator@),
{
    if parts.len() == 0 {
        return String::new();
    }
    let ghost rest = texts(parts@).drop_first();
    let mut result = parts[0].clone();
    let mut at: usize = 1;
    assert(rest.take(0) =~= Seq::empty());
    while at < parts.len()
        invariant
            1 <= at <= parts@.len(),
            rest == texts(parts@).drop_first(),
            result@ == texts(parts@)[0] + separated(rest.take(at - 1), separator@),
        decreases parts@.len() - at,
    {
        result.append(separator);
        result.append(parts[at].as_str());
        proof {
            let longer = rest.take(at as int);
            assert(longer.drop_last() =~= rest.take(at - 1));
            assert(longer.last() == parts@[at as int]@);
            assert(result@ =~= texts(parts@)[0] + separated(longer, separator@));
        }
        at = at + 1;
    }
    assert(rest.take(at - 1) =~= rest);
    result
}

/// Whether a line of a statement says something: it is not blank, and not one
/// of the hyphens that end a statement.
pub open spec fn substantial(line: Seq<char>) -> bool {
    let content = trimmed(line);
    content.len() > 0 && content != "-"@ && content != "--"@
}

/// Whether a line of a statement says something.
pub fn is_substantial(line: &str) -> (result: bool)
    ensures
        result == substantial(line@),
{
    let content = trim(line);
    !content.as_str().is_empty() && !same_text(content.as_str(), "-") && !same_text(
        content.as_str(),
        "--",
    )
}

/// The lines that say something.
pub open spec fn substantial_lines(lines: Seq<Seq<char>>) -> Seq<Seq<char>>
    decreases lines.len(),
{
    if lines.len() == 0 {
        Seq::empty()
    } else {
        let before = substantial_lines(lines.drop_last());
        if substantial(lines.last()) {
            before.push(lines.last())
        } else {
            before
        }
    }
}

/// The lines of a text that say something.
pub fn keep_substantial(text: &str) -> (result: Vec<String>)
    ensures
        texts(result@) == substantial_lines(lines_of(text@)),
{
    let all = lines(text);
    let mut kept: Vec<String> = Vec::new();
    let mut at: usize = 0;
    assert(texts(all@).take(0) =~= Seq::empty());
    assert(texts(kept@) =~= Seq::empty());
    while at < all.len()
        invariant
            at <= all@.len(),
            texts(kept@) == substantial_lines(texts(all@).take(at as int)),
        decreases all@.len() - at,
    {
        let ghost before = texts(kept@);
        proof {
            let longer = texts(all@).take(at + 1);
            assert(longer.drop_last() =~= texts(all@).take(at as int));
            assert(longer.last() == all@[at as int]@);
        }
        if is_substantial(all[at].as_str()) {
            kept.push(all[at].clone());
            assert(texts(kept@) =~= before.push(all@[at as int]@));
        }
        at = at + 1;
    }
    assert(texts(all@).take(at as int) =~= texts(all@));
    kept
}

/// The text of a statement without the lines that say nothing. Each line ends
/// with a carriage return and a line feed.
pub open spec fn cleaned(text: Seq<char>) -> Seq<char> {
    joined(substantial_lines(lines_of(text)), "\r\n"@) + "\r\n"@
}

/// The text of a statement without the lines that say nothing.
pub fn clean(text: &str) -> (result: String)
    ensures
        result@ == cleaned(text@),
{
    let mut result = join(&keep_substantial(text), "\r\n");
    result.append("\r\n");
    result
}

/// What a statement line says of the other party and the purpose: name, account
/// number, bank code, purpose and posting text. Text without structure is the
/// purpose.
pub open spec fn information_parts(information: Option<InformationView>) -> (
    Option<Seq<char>>,
    Option<Seq<char>>,
    Option<Seq<char>>,
    Option<Seq<char>>,
    Option<Seq<char>>,
) {
    match information {
        Some(
            InformationView::Structured {
                applicant_name,
                applicant_iban,
                applicant_bin,
                purpose,
                posting_text,
            },
        ) => (applicant_name, applicant_iban, applicant_bin, purpose, posting_text),
        Some(InformationView::Plain(text)) => (None, None, None, Some(text), None),
        None => (None, None, None, None, None),
    }
}

/// The transaction that a statement line stands for. The amount of a debit
/// changes its sign.
pub open spec fn transaction_of(
    line: StatementLineView,
    currency: Seq<char>,
    status: TransactionStatus,
) -> TransactionView {
    let amount = if line.mark is Debit {
        line.amount.opposite()
    } else {
        line.amount
    };
    let (name, iban, bic, purpose, posting_text) = information_parts(line.information);
    TransactionView {
        date: line.value_date,
        valuta_date: line.entry_date,
        amount,
        currency,
        applicant_name: name,
        applicant_iban: iban,
        applicant_bic: bic,
        purpose,
        posting_text,
        reference: Some(line.customer_ref),
        raw: seq![
            ("date"@, Some(date_text(line.value_date))),
            (
                "entry_date"@,
                match line.entry_date {
                    Some(date) => Some(date_text(date)),
                    None => None,
                },
            ),
            ("amount"@, Some(amount_text(amount))),
            ("currency"@, Some(currency)),
            ("customer_ref"@, Some(line.customer_ref)),
            ("bank_ref"@, line.bank_ref),
            ("applicant_name"@, name),
            ("applicant_iban"@, iban),
            ("applicant_bic"@, bic),
            ("purpose"@, purpose),
            ("posting_text"@, posting_text),
        ],
        status,
    }
}

/// The transactions that the lines of a statement stand for.
pub open spec fn statement_transactions(
    statement: StatementView,
    status: TransactionStatus,
) -> Seq<TransactionView> {
    Seq::new(
        statement.lines.len(),
        |i: int| transaction_of(statement.lines[i], statement.currency, status),
    )
}

/// The transactions of statements, one statement after the other.
pub open spec fn transactions_of(
    statements: Seq<StatementView>,
    status: TransactionStatus,
) -> Seq<TransactionView>
    decreases statements.len(),
{
    if statements.len() == 0 {
        Seq::empty()
    } else {
        transactions_of(statements.drop_last(), status) + statement_transactions(
            statements.last(),
            status,
        )
    }
}

/// The transaction that a statement line stands for.
pub fn line_transaction(
    line: &StatementLine,
    currency: &str,
    status: TransactionStatus,
) -> (result: Transaction)
    requires
        line@.valid(),
    ensures
        result@ == transaction_of(line@, currency@, status),
        result@.valid(),
{
    let amount = match line.mark {
        Mark::Debit => line.amount.negated(),
        _ => line.amount,
    };
    let (name, iban, bic, purpose, posting_text) = match &line.information {
        Some(
            Information::Structured {
                applicant_name,
                applicant_iban,
                applicant_bin,
                purpose,
                posting_text,
            },
        ) => (
            copy_text(applicant_name),
            copy_text(applicant_iban),
            copy_text(applicant_bin),
            copy_text(purpose),
            copy_text(posting_text),
        ),
        Some(Information::Plain(text)) => (None, None, None, Some(text.clone()), None),
        None => (None, None, None, None, None),
    };
    let mut raw: Vec<RawField> = Vec::new();
    raw.push(RawField::new("date", Some(write_date(line.value_date))));
    raw.push(
        RawField::new(
            "entry_date",
            match line.entry_date {
                Some(date) => Some(write_date(date)),
                None => None,
            },
        ),
    );
    raw.push(RawField::new("amount", Some(write_decimal(amount))));
    raw.push(RawField::new("currency", Some(currency.to_owned())));
    raw.push(RawField::new("customer_ref", Some(line.customer_ref.clone())));
    raw.push(RawField::new("bank_ref", copy_text(&line.bank_ref)));
    raw.push(RawField::new("applicant_name", copy_text(&name)));
    raw.push(RawField::new("applicant_iban", copy_text(&iban)));
    raw.push(RawField::new("applicant_bic", copy_text(&bic)));
    raw.push(RawField::new("purpose", copy_text(&purpose)));
    raw.push(RawField::new("posting_text", copy_text(&posting_text)));
    let result = Transaction {
        date: line.value_date,
        valuta_date: line.entry_date,
        amount,
        currency: Currency::new(currency),
        applicant_name: name,
        applicant_iban: match iban {
            Some(iban) => Some(Iban::new(iban)),
            None => None,
        },
        applicant_bic: match bic {
            Some(bic) => Some(Bic::new(bic)),
            None => None,
        },
        purpose,
        posting_text,
        reference: Some(line.customer_ref.clone()),
        raw,
        status,
    };
    assert(result@ =~= transaction_of(line@, currency@, status));
    result
}

/// The transactions of statements, one statement after the other.
pub fn statements_transactions(
    statements: &Vec<Statement>,
    status: TransactionStatus,
) -> (result: Vec<Transaction>)
    requires
        all_valid(statement_views(statements@)),
    ensures
        transaction_views(result@) == transactions_of(statement_views(statements@), status),
        valid_transactions(transaction_views(result@)),
{
    let ghost views = statement_views(statements@);
    let mut result: Vec<Transaction> = Vec::new();
    let mut at: usize = 0;
    assert(views.take(0) =~= Seq::empty());
    assert(transaction_views(result@) =~= Seq::empty());
    while at < statements.len()
        invariant
            at <= statements@.len(),
            views == statement_views(statements@),
            all_valid(views),
            transaction_views(result@) == transactions_of(views.take(at as int), status),
            valid_transactions(transaction_views(result@)),
        decreases statements@.len() - at,
    {
        let statement = &statements[at];
        let ghost before = transaction_views(result@);
        let ghost own = statement_transactions(statement@, status);
        assert(views[at as int] == statement@);
        let mut line: usize = 0;
        assert(before + own.take(0) =~= before);
        while line < statement.lines.len()
            invariant
                line <= statement.lines@.len(),
                own == statement_transactions(statement@, status),
                statement@.valid(),
                transaction_views(result@) == before + own.take(line as int),
                valid_transactions(transaction_views(result@)),
            decreases statement.lines@.len() - line,
        {
            assert(statement@.lines[line as int] == statement.lines@[line as int]@);
            let ghost previous = transaction_views(result@);
            let transaction = line_transaction(
                &statement.lines[line],
                statement.currency.as_str(),
                status,
            );
            assert(transaction@ == own[line as int]);
            result.push(transaction);
            assert(transaction_views(result@) =~= previous.push(transaction@));
            assert(own.take(line + 1) =~= own.take(line as int).push(own[line as int]));
            assert(before + own.take(line + 1) =~= (before + own.take(line as int)).push(
                own[line as int],
            ));
            line = line + 1;
        }
        proof {
            assert(own.take(line as int) =~= own);
            let longer = views.take(at + 1);
            assert(longer.drop_last() =~= views.take(at as int));
            assert(longer.last() == statement@);
        }
        at = at + 1;
    }
    assert(views.take(at as int) =~= views);
    result
}

/// The text that statements are read from: without the lines that say nothing, in
/// the characters of SWIFT.
pub open spec fn prepared(text: Seq<char>) -> Seq<char> {
    sanitized(cleaned(text))
}

/// The text that the statements of data are read from.
pub open spec fn statement_text(data: Seq<u8>) -> Seq<char> {
    prepared(decoded(data).0)
}

/// The transactions of statements, or the error that says why they could not be read.
pub open spec fn statements_result(
    statements: Result<Seq<StatementView>, Seq<char>>,
    status: TransactionStatus,
) -> Result<Seq<TransactionView>, FinTSErrorView> {
    match statements {
        Ok(statements) => Ok(transactions_of(statements, status)),
        Err(error) => Err(FinTSErrorView::Mt940("MT940 parse error: "@ + error)),
    }
}

/// The transactions of a statement, or the error that says why it could not be read.
pub open spec fn mt940_result(data: Seq<u8>, status: TransactionStatus) -> Result<
    Seq<TransactionView>,
    FinTSErrorView,
> {
    if data.len() == 0 {
        Ok(Seq::empty())
    } else {
        statements_result(statements_of(statement_text(data)), status)
    }
}

/// Transactions or an error, with texts as sequences of characters.
pub open spec fn transactions_view(result: Result<Vec<Transaction>, FinTSError>) -> Result<
    Seq<TransactionView>,
    FinTSErrorView,
> {
    match result {
        Ok(transactions) => Ok(transaction_views(transactions@)),
        Err(error) => Err(error@),
    }
}

/// The text that statements are read from, in the characters of SWIFT.
pub fn prepare(text: &str) -> (result: String)
    ensures
        result@ == prepared(text@),
        all_swift(result@),
{
    sanitize(clean(text).as_str())
}

/// Reads the transactions of a prepared text and gives them a status.
fn parse_prepared(text: &str, status: TransactionStatus) -> (result: Result<
    Vec<Transaction>,
    FinTSError,
>)
    requires
        readable(text@),
    ensures
        transactions_view(result) == statements_result(statements_of(text@), status),
        result is Ok ==> valid_transactions(transaction_views(result->Ok_0@)),
{
    match read_statements(text) {
        Ok(statements) => Ok(statements_transactions(&statements, status)),
        Err(error) => {
            let mut message = "MT940 parse error: ".to_owned();
            message.append(error.as_str());
            Err(FinTSError::Mt940(message))
        },
    }
}

/// Reads the transactions of an MT940 statement and gives them a status. Empty
/// data holds no transactions. Each amount is in range, and the calendar has each
/// date.
pub fn parse_mt940(data: &[u8], status: TransactionStatus) -> (result: Result<
    Vec<Transaction>,
    FinTSError,
>)
    requires
        decodable(data@),
        data@.len() > 0 ==> readable(statement_text(data@)),
    ensures
        transactions_view(result) == mt940_result(data@, status),
        result is Ok ==> valid_transactions(transaction_views(result->Ok_0@)),
{
    if data.len() == 0 {
        let none: Vec<Transaction> = Vec::new();
        assert(transaction_views(none@) =~= Seq::empty());
        return Ok(none);
    }
    let (text, _) = decode(data);
    parse_prepared(prepare(text.as_str()).as_str(), status)
}

/// Reads the transactions of the text of a statement and gives them a status, where
/// statements can be read from it at all.
pub fn try_parse_statement(text: &str, status: TransactionStatus) -> (result: Option<
    Result<Vec<Transaction>, FinTSError>,
>)
    ensures
        result is Some <==> readable(prepared(text@)),
        result is Some ==> transactions_view(result->0) == statements_result(
            statements_of(prepared(text@)),
            status,
        ),
        result is Some && result->0 is Ok ==> valid_transactions(
            transaction_views(result->0->Ok_0@),
        ),
{
    let text = prepare(text);
    if is_readable(text.as_str()) {
        Some(parse_prepared(text.as_str(), status))
    } else {
        None
    }
}

/// Reads the transactions of an MT940 statement and gives them a status, where
/// statements can be read from it at all.
pub fn try_parse_mt940(data: &[u8], status: TransactionStatus) -> (result: Option<
    Result<Vec<Transaction>, FinTSError>,
>)
    ensures
        result is Some <==> decodable(data@) && (data@.len() > 0 ==> readable(
            statement_text(data@),
        )),
        result is Some ==> transactions_view(result->0) == mt940_result(data@, status),
        result is Some && result->0 is Ok ==> valid_transactions(
            transaction_views(result->0->Ok_0@),
        ),
{
    if !is_decodable(data) {
        return None;
    }
    if data.len() > 0 {
        let (text, _) = decode(data);
        if !is_readable(prepare(text.as_str()).as_str()) {
            return None;
        }
    }
    Some(parse_mt940(data, status))
}

/// The tag that a line starts with, between its colons.
pub open spec fn tag_of(line: Seq<char>) -> Option<Seq<char>> {
    let content = trimmed(line);
    if content.len() > 0 && content[0] == ':' {
        let end = first_position(content.drop_first(), ':');
        if end < content.len() - 1 {
            Some(content.take(end + 2))
        } else {
            None
        }
    } else {
        None
    }
}

/// The tags that lines start with.
pub open spec fn tags_of(lines: Seq<Seq<char>>) -> Seq<Seq<char>>
    decreases lines.len(),
{
    if lines.len() == 0 {
        Seq::empty()
    } else {
        let before = tags_of(lines.drop_last());
        match tag_of(lines.last()) {
            Some(tag) => before.push(tag),
            None => before,
        }
    }
}

/// The number of tags that a preview shows.
pub const PREVIEW_TAGS: usize = 12;

/// The first tags of a text.
pub open spec fn first_tags(text: Seq<char>) -> Seq<Seq<char>> {
    let tags = tags_of(lines_of(text));
    if tags.len() < PREVIEW_TAGS {
        tags
    } else {
        tags.take(PREVIEW_TAGS as int)
    }
}

/// The first tags of a text with commas between them, or a remark that it has none.
pub open spec fn text_preview(text: Seq<char>) -> Seq<char> {
    if first_tags(text).len() == 0 {
        "no MT940 tags found"@
    } else {
        joined(first_tags(text), ","@)
    }
}

/// The tag that a line starts with, between its colons.
fn find_tag(line: &str) -> (result: Option<String>)
    ensures
        text_of(result) == tag_of(line@),
{
    let content = characters(trim(line).as_str());
    if content.len() == 0 || content[0] != ':' {
        return None;
    }
    assert(content@.skip(1) =~= content@.drop_first());
    let end = find(&content, 1, ':');
    if end == content.len() {
        return None;
    }
    let tag = string_between(&content, 0, end + 1);
    assert(tag@ =~= content@.take(end - 1 + 2));
    Some(tag)
}

/// The number of tags grows with the lines.
proof fn lemma_tags_grow(lines: Seq<Seq<char>>, count: int)
    requires
        0 <= count <= lines.len(),
    ensures
        tags_of(lines.take(count)).is_prefix_of(tags_of(lines)),
    decreases lines.len() - count,
{
    if count < lines.len() {
        lemma_tags_grow(lines, count + 1);
        assert(lines.take(count + 1).drop_last() =~= lines.take(count));
        let fewer = tags_of(lines.take(count));
        let more = tags_of(lines.take(count + 1));
        let all = tags_of(lines);
        assert(fewer =~= more.take(fewer.len() as int));
        assert(fewer =~= all.take(fewer.len() as int));
    } else {
        assert(lines.take(count) =~= lines);
    }
}

/// The first tags of a text with commas between them, or a remark that it has none.
pub fn preview_text(text: &str) -> (result: String)
    ensures
        result@ == text_preview(text@),
{
    let all = lines(text);
    let ghost views = lines_of(text@);
    let mut tags: Vec<String> = Vec::new();
    let mut at: usize = 0;
    assert(views.take(0) =~= Seq::empty());
    assert(texts(tags@) =~= Seq::empty());
    while at < all.len() && tags.len() < PREVIEW_TAGS
        invariant
            at <= all@.len(),
            views == texts(all@),
            tags@.len() <= PREVIEW_TAGS,
            texts(tags@) == tags_of(views.take(at as int)),
        decreases all@.len() - at,
    {
        let ghost before = texts(tags@);
        proof {
            assert(views.take(at + 1).drop_last() =~= views.take(at as int));
            assert(views.take(at + 1).last() == all@[at as int]@);
        }
        match find_tag(all[at].as_str()) {
            Some(tag) => {
                tags.push(tag);
                assert(texts(tags@) =~= before.push(tag@));
            },
            None => {},
        }
        at = at + 1;
    }
    proof {
        lemma_tags_grow(views, at as int);
        if at == views.len() {
            assert(views.take(at as int) =~= views);
        }
        assert(texts(tags@) =~= first_tags(text@));
    }
    if tags.len() == 0 {
        "no MT940 tags found".to_owned()
    } else {
        join(&tags, ",")
    }
}

/// What a preview shows of a statement: its first tags.
pub open spec fn preview_of(data: Seq<u8>) -> Seq<char> {
    if data.len() == 0 {
        "empty"@
    } else {
        text_preview(decoded(data).0)
    }
}

/// Shows the first tags of a statement.
pub fn mt940_tag_preview(data: &[u8]) -> (result: String)
    requires
        decodable(data@),
    ensures
        result@ == preview_of(data@),
{
    if data.len() == 0 {
        return "empty".to_owned();
    }
    let (text, _) = decode(data);
    preview_text(text.as_str())
}

} // verus!
