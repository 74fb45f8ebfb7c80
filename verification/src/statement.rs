//! MT940 statements as the `mt940` crate reads them.

use chrono::{Datelike, NaiveDate};
use crate::amount::Amount;
use crate::date::Date;
use crate::fields::readable;
use crate::text::{digit, text_of};
use mt940::InformationToAccountOwner::{Plain, Structured};
use vstd::prelude::*;

verus! {

/// Which way the money of a statement line goes.
#[derive(Debug, Clone, Copy, PartialEq, Eq, Structural)]
pub enum Mark {
    Debit,
    Credit,
    ReverseDebit,
    ReverseCredit,
}

/// What a statement says of a line.
#[derive(Debug, PartialEq, Eq)]
pub enum Information {
    /// Text without structure.
    Plain(String),
    /// The parts of a structured text.
    Structured {
        applicant_name: Option<String>,
        applicant_iban: Option<String>,
        applicant_bin: Option<String>,
        purpose: Option<String>,
        posting_text: Option<String>,
    },
}

/// A line of a statement.
#[derive(Debug, PartialEq, Eq)]
pub struct StatementLine {
    pub value_date: Date,
    pub entry_date: Option<Date>,
    pub mark: Mark,
    pub amount: Amount,
    pub customer_ref: String,
    pub bank_ref: Option<String>,
    pub information: Option<Information>,
}

/// A statement: the currency of its opening balance, and its lines.
#[derive(Debug, PartialEq, Eq)]
pub struct Statement {
    pub currency: String,
    pub lines: Vec<StatementLine>,
}

/// What a statement says of a line, with its texts as sequences of characters.
pub enum InformationView {
    Plain(Seq<char>),
    Structured {
        applicant_name: Option<Seq<char>>,
        applicant_iban: Option<Seq<char>>,
        applicant_bin: Option<Seq<char>>,
        purpose: Option<Seq<char>>,
        posting_text: Option<Seq<char>>,
    },
}

impl View for Information {
    type V = InformationView;

    open spec fn view(&self) -> InformationView {
        match self {
            Information::Plain(text) => InformationView::Plain(text@),
            Information::Structured {
                applicant_name,
                applicant_iban,
                applicant_bin,
                purpose,
                posting_text,
            } => InformationView::Structured {
                applicant_name: text_of(*applicant_name),
                applicant_iban: text_of(*applicant_iban),
                applicant_bin: text_of(*applicant_bin),
                purpose: text_of(*purpose),
                posting_text: text_of(*posting_text),
            },
        }
    }
}

/// A line of a statement, with its texts as sequences of characters.
pub struct StatementLineView {
    pub value_date: Date,
    pub entry_date: Option<Date>,
    pub mark: Mark,
    pub amount: Amount,
    pub customer_ref: Seq<char>,
    pub bank_ref: Option<Seq<char>>,
    pub information: Option<InformationView>,
}

impl StatementLineView {
    /// Whether the calendar has the dates and the amount is in range.
    pub open spec fn valid(self) -> bool {
        &&& self.value_date.valid()
        &&& self.entry_date is Some ==> self.entry_date->0.valid()
        &&& self.amount.valid()
    }
}

impl View for StatementLine {
    type V = StatementLineView;

    open spec fn view(&self) -> StatementLineView {
        StatementLineView {
            value_date: self.value_date,
            entry_date: self.entry_date,
            mark: self.mark,
            amount: self.amount,
            customer_ref: self.customer_ref@,
            bank_ref: text_of(self.bank_ref),
            information: match self.information {
                Some(information) => Some(information@),
                None => None,
            },
        }
    }
}

/// A statement, with its texts as sequences of characters.
pub struct StatementView {
    pub currency: Seq<char>,
    pub lines: Seq<StatementLineView>,
}

impl StatementView {
    /// Whether each line is valid.
    pub open spec fn valid(self) -> bool {
        forall|i: int| 0 <= i < self.lines.len() ==> (#[trigger] self.lines[i]).valid()
    }
}

/// The lines of a statement, with their texts as sequences of characters.
pub open spec fn line_views(lines: Seq<StatementLine>) -> Seq<StatementLineView> {
    Seq::new(lines.len(), |i: int| lines[i]@)
}

impl View for Statement {
    type V = StatementView;

    open spec fn view(&self) -> StatementView {
        StatementView { currency: self.currency@, lines: line_views(self.lines@) }
    }
}

/// The statements, with their texts as sequences of characters.
pub open spec fn statement_views(statements: Seq<Statement>) -> Seq<StatementView> {
    Seq::new(statements.len(), |i: int| statements[i]@)
}

/// Whether each statement is valid.
pub open spec fn all_valid(statements: Seq<StatementView>) -> bool {
    forall|i: int| 0 <= i < statements.len() ==> (#[trigger] statements[i]).valid()
}

/// Whether no line of a statement has a negative amount.
pub open spec fn none_negative(statements: Seq<StatementView>) -> bool {
    forall|i: int, j: int|
        0 <= i < statements.len() && 0 <= j < statements[i].lines.len() ==> !(
        #[trigger] statements[i].lines[j]).amount.negative
}

/// A day as a year, a month and a day.
pub type DateParts = (i32, u32, u32);

/// The parts of a line: its dates, the position of its mark among the four, its
/// amount in units of the last decimal place and the number of decimal places,
/// the references and the information.
pub type LineParts = (
    DateParts,
    Option<DateParts>,
    u8,
    (i128, u32),
    String,
    Option<String>,
    Option<Information>,
);

/// The day with these parts.
pub open spec fn date_from(parts: DateParts) -> Date {
    Date { year: parts.0, month: parts.1, day: parts.2 }
}

/// The mark at a position among the four.
pub open spec fn mark_at(position: u8) -> Mark {
    if position == 0 {
        Mark::Debit
    } else if position == 1 {
        Mark::Credit
    } else if position == 2 {
        Mark::ReverseDebit
    } else {
        Mark::ReverseCredit
    }
}

/// The line with these parts.
pub open spec fn line_from(parts: LineParts) -> StatementLineView {
    StatementLineView {
        value_date: date_from(parts.0),
        entry_date: match parts.1 {
            Some(date) => Some(date_from(date)),
            None => None,
        },
        mark: mark_at(parts.2),
        amount: Amount {
            negative: parts.3.0 < 0,
            mantissa: (if parts.3.0 < 0 {
                -parts.3.0
            } else {
                parts.3.0 as int
            }) as u128,
            scale: parts.3.1,
        },
        customer_ref: parts.4@,
        bank_ref: text_of(parts.5),
        information: match parts.6 {
            Some(information) => Some(information@),
            None => None,
        },
    }
}

/// The statement with a currency and the parts of its lines.
pub open spec fn statement_from(parts: (String, Vec<LineParts>)) -> StatementView {
    StatementView {
        currency: parts.0@,
        lines: Seq::new(parts.1@.len(), |i: int| line_from(parts.1@[i])),
    }
}

/// The statements with these parts, or the text of an error.
pub open spec fn statements_from(result: Result<Vec<(String, Vec<LineParts>)>, String>) -> Result<
    Seq<StatementView>,
    Seq<char>,
> {
    match result {
        Ok(statements) => Ok(
            Seq::new(statements@.len(), |i: int| statement_from(statements@[i])),
        ),
        Err(error) => Err(error@),
    }
}

/// Whether no amount is negative.
pub open spec fn unsigned_amounts(statements: Seq<(String, Vec<LineParts>)>) -> bool {
    forall|i: int, j: int|
        0 <= i < statements.len() && 0 <= j < statements[i].1@.len() ==> (
        #[trigger] statements[i].1@[j]).3.0 >= 0
}

/// What `mt940::parse_mt940` makes of a text: the statements, or the text of its error.
pub uninterp spec fn statements_of(text: Seq<char>) -> Result<Seq<StatementView>, Seq<char>>;

/// Reads statements with `mt940::parse_mt940`. The outcome goes by the text
/// alone, the calendar has the dates of each line, and its amount is in range
/// and not negative.
#[verifier::external_body]
pub(crate) fn parse_statements(text: &str) -> (result: Result<
    Vec<(String, Vec<LineParts>)>,
    String,
>)
    requires
        readable(text@),
    ensures
        statements_from(result) == statements_of(text@),
        result is Ok ==> all_valid(statements_from(result)->Ok_0),
        result is Ok ==> unsigned_amounts(result->Ok_0@),
{
    let date = |date: NaiveDate| (date.year(), date.month(), date.day());
    Ok(mt940::parse_mt940(text).map_err(|error| error.to_string())?.into_iter().map(|message| (
        message.opening_balance.iso_currency_code,
        message.statement_lines.into_iter().map(|line| (
            date(line.value_date),
            line.entry_date.map(date),
            line.ext_debit_credit_indicator as u8,
            (line.amount.mantissa(), line.amount.scale()),
            line.customer_ref,
            line.bank_ref,
            line.information_to_account_owner.map(|information| match information {
                Plain(text) => Information::Plain(text),
                Structured { applicant_name, applicant_iban, applicant_bin, purpose, posting_text, .. } => Information::Structured { applicant_name, applicant_iban, applicant_bin, purpose, posting_text },
            }),
        )).collect())).collect())
}

/// Whether a character may stand in a SWIFT message.
pub open spec fn swift_character(character: char) -> bool {
    ||| 'A' <= character <= 'Z'
    ||| 'a' <= character <= 'z'
    ||| digit(character)
    ||| character == '/' || character == '-' || character == '?' || character == ':'
    ||| character == '(' || character == ')' || character == '.' || character == ','
    ||| character == '+' || character == '{' || character == '}' || character == ' '
    ||| character == '\r' || character == '\n' || character == '\u{2018}'
}

/// What `mt940::sanitizers::to_swift_charset` makes of a text.
pub uninterp spec fn swift_text(text: Seq<char>) -> Seq<char>;

/// Whether each character of a text may stand in a SWIFT message.
pub open spec fn all_swift(text: Seq<char>) -> bool {
    forall|i: int| 0 <= i < text.len() ==> swift_character(#[trigger] text[i])
}

/// Brings a text to the characters of SWIFT with
/// `mt940::sanitizers::to_swift_charset`. The outcome goes by the text alone, it
/// has no other characters, and a text that has none stays as it is.
#[verifier::external_body]
pub(crate) fn to_swift(text: &str) -> (result: String)
    ensures
        result@ == swift_text(text@),
        all_swift(result@),
        all_swift(text@) ==> result@ == text@,
{
    mt940::sanitizers::to_swift_charset(text)
}

/// A text in the characters of SWIFT. One that has no others stays as it is.
pub open spec fn sanitized(text: Seq<char>) -> Seq<char> {
    if all_swift(text) {
        text
    } else {
        swift_text(text)
    }
}

/// Brings a text to the characters of SWIFT.
pub fn sanitize(text: &str) -> (result: String)
    ensures
        result@ == sanitized(text@),
        all_swift(result@),
{
    to_swift(text)
}

/// What `decode` of `encoding_rs::WINDOWS_1252` makes of bytes: the text, and
/// whether some of the bytes were malformed.
pub uninterp spec fn windows_1252(bytes: Seq<u8>) -> (Seq<char>, bool);

/// Whether the room that the text of so many bytes may take can be reckoned with:
/// four bytes for each, and a few more.
pub open spec fn decodable(bytes: Seq<u8>) -> bool {
    4 * bytes.len() + 16 <= isize::MAX
}

/// Whether the room that the text of so many bytes may take can be reckoned with.
pub fn is_decodable(bytes: &[u8]) -> (result: bool)
    ensures
        result == decodable(bytes@),
{
    bytes.len() <= (isize::MAX as usize - 16) / 4
}

/// Whether bytes start with the byte order mark of UTF-8 or UTF-16.
pub open spec fn has_byte_order_mark(bytes: Seq<u8>) -> bool {
    ||| bytes.len() >= 3 && bytes[0] == 0xef && bytes[1] == 0xbb && bytes[2] == 0xbf
    ||| bytes.len() >= 2 && bytes[0] == 0xff && bytes[1] == 0xfe
    ||| bytes.len() >= 2 && bytes[0] == 0xfe && bytes[1] == 0xff
}

/// Whether a text has one character for each byte: that with the same number but
/// where Windows-1252 has others in place of control characters.
pub open spec fn byte_for_byte(bytes: Seq<u8>, text: Seq<char>) -> bool {
    &&& text.len() == bytes.len()
    &&& forall|i: int|
        0 <= i < bytes.len() && (bytes[i] < 0x80 || bytes[i] >= 0xa0) ==> #[trigger] text[i]
            == bytes[i] as char
}

/// Reads bytes with `decode` of `encoding_rs::WINDOWS_1252`, which goes by the
/// byte order mark of another encoding where there is one. The outcome goes by
/// the bytes alone. Without such a mark each byte is a character, and none is
/// malformed.
#[verifier::external_body]
pub(crate) fn from_windows_1252(bytes: &[u8]) -> (result: (String, bool))
    requires
        decodable(bytes@),
    ensures
        (result.0@, result.1) == windows_1252(bytes@),
        !has_byte_order_mark(bytes@) ==> byte_for_byte(bytes@, result.0@) && !result.1,
{
    let (text, _, malformed) = encoding_rs::WINDOWS_1252.decode(bytes);
    (text.into_owned(), malformed)
}

/// Whether bytes are ASCII.
pub open spec fn ascii_bytes(bytes: Seq<u8>) -> bool {
    forall|i: int| 0 <= i < bytes.len() ==> #[trigger] bytes[i] < 0x80
}

/// The text that bytes of ASCII stand for.
pub open spec fn ascii_text(bytes: Seq<u8>) -> Seq<char> {
    Seq::new(bytes.len(), |i: int| bytes[i] as char)
}

/// The text of bytes, and whether some of them were malformed. ASCII stands for
/// itself.
pub open spec fn decoded(bytes: Seq<u8>) -> (Seq<char>, bool) {
    if ascii_bytes(bytes) {
        (ascii_text(bytes), false)
    } else {
        windows_1252(bytes)
    }
}

/// The text of bytes, and whether some of them were malformed. Without a byte order
/// mark each byte is a character.
pub fn decode(bytes: &[u8]) -> (result: (String, bool))
    requires
        decodable(bytes@),
    ensures
        (result.0@, result.1) == decoded(bytes@),
        !has_byte_order_mark(bytes@) ==> byte_for_byte(bytes@, result.0@) && !result.1,
{
    let result = from_windows_1252(bytes);
    proof {
        if ascii_bytes(bytes@) {
            assert(bytes@.len() > 0 ==> bytes@[0] < 0x80);
            assert(result.0@ =~= ascii_text(bytes@));
        }
    }
    result
}

/// Statements or the text of an error, with texts as sequences of characters.
pub open spec fn statements_view(result: Result<Vec<Statement>, String>) -> Result<
    Seq<StatementView>,
    Seq<char>,
> {
    match result {
        Ok(statements) => Ok(statement_views(statements@)),
        Err(error) => Err(error@),
    }
}

/// The line with these parts.
fn make_line(parts: LineParts) -> (result: StatementLine)
    requires
        parts.3.0 >= 0,
    ensures
        result@ == line_from(parts),
{
    let (value_date, entry_date, position, (units, scale), customer_ref, bank_ref, information) =
        parts;
    StatementLine {
        value_date: Date { year: value_date.0, month: value_date.1, day: value_date.2 },
        entry_date: match entry_date {
            Some(date) => Some(Date { year: date.0, month: date.1, day: date.2 }),
            None => None,
        },
        mark: if position == 0 {
            Mark::Debit
        } else if position == 1 {
            Mark::Credit
        } else if position == 2 {
            Mark::ReverseDebit
        } else {
            Mark::ReverseCredit
        },
        amount: Amount { negative: false, mantissa: units as u128, scale },
        customer_ref,
        bank_ref,
        information,
    }
}

/// Reads the statements of a text.
pub fn read_statements(text: &str) -> (result: Result<Vec<Statement>, String>)
    requires
        readable(text@),
    ensures
        statements_view(result) == statements_of(text@),
        result is Ok ==> all_valid(statement_views(result->Ok_0@)),
        result is Ok ==> none_negative(statement_views(result->Ok_0@)),
{
    let parts = match parse_statements(text) {
        Ok(parts) => parts,
        Err(error) => return Err(error),
    };
    let ghost views = statements_of(text@)->Ok_0;
    let ghost parts_before = parts@;
    let mut statements: Vec<Statement> = Vec::new();
    for pair in iter: parts
        invariant
            statements@.len() == iter.index(),
            iter.seq() == parts@,
            unsigned_amounts(parts@),
            views.len() == parts@.len(),
            forall|i: int|
                0 <= i < parts@.len() ==> #[trigger] views[i] == statement_from(parts@[i]),
            forall|i: int| 0 <= i < statements@.len() ==> #[trigger] statements@[i]@ == views[i],
    {
        let ghost index = iter.index() as int;
        let ghost current = pair;
        assert(parts@[index] == pair);
        let (currency, line_parts) = pair;
        let mut lines: Vec<StatementLine> = Vec::new();
        for part in inner: line_parts
            invariant
                lines@.len() == inner.index(),
                inner.seq() == line_parts@,
                forall|j: int| 0 <= j < line_parts@.len() ==> (#[trigger] line_parts@[j]).3.0 >= 0,
                forall|j: int|
                    0 <= j < lines@.len() ==> #[trigger] lines@[j]@ == line_from(line_parts@[j]),
        {
            assert(part.3.0 >= 0);
            lines.push(make_line(part));
        }
        let statement = Statement { currency, lines };
        assert(statement@ == statement_from(current)) by {
            assert(line_views(statement.lines@) =~= statement_from(current).lines);
        }
        statements.push(statement);
    }
    assert(statement_views(statements@) =~= views);
    assert forall|i: int, j: int|
        0 <= i < views.len() && 0 <= j < views[i].lines.len() implies !(
    #[trigger] views[i].lines[j]).amount.negative by {
        assert(views[i] == statement_from(parts_before[i]));
        assert(parts_before[i].1@[j].3.0 >= 0);
    }
    Ok(statements)
}

} // verus!
