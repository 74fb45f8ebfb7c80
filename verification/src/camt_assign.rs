//! Where the texts of an account report go: each by the names of the elements
//! around it.

use crate::amount::{
    decimal_of, parse_decimal, number_characters, plain_amount, plain_number, Amount,
};
use crate::camt_types::{
    CamtAccountView, CamtBalance, CamtBalanceView, CamtCode, CamtCodeView, CamtEntry, CamtEntryView,
    CamtPartyView, CamtReport, CamtReportView, CamtTransaction, CamtTransactionView,
};
use crate::date::{
    dashed_date, date_of, date_of_dashed, parse_date, parse_timestamp, plain_seconds,
    plain_timestamp, timestamp_of, Date, Timestamp,
};
use crate::error::{FinTSError, FinTSErrorView};
use crate::text::{
    bool_of, commas_to_points, digit, parse_bool, parse_u32, quoted, quoted_text, same_text,
    text_of, texts, trim, trimmed, u32_of, with_points,
};
use vstd::prelude::*;

verus! {

/// The error that says why a report could not be read.
pub open spec fn camt_error(message: Seq<char>) -> FinTSErrorView {
    FinTSErrorView::Dialog("CAMT parse failed: "@ + message)
}

/// The error that says why a report could not be read.
pub fn parse_error(message: String) -> (result: FinTSError)
    ensures
        result@ == camt_error(message@),
{
    let mut text = "CAMT parse failed: ".to_owned();
    text.append(message.as_str());
    FinTSError::Dialog(text)
}

/// The texts of string slices.
pub open spec fn names(slices: Seq<&str>) -> Seq<Seq<char>> {
    Seq::new(slices.len(), |i: int| slices[i]@)
}

/// Whether the last names of a path are these.
pub open spec fn ends(path: Seq<Seq<char>>, last: Seq<Seq<char>>) -> bool {
    last.is_suffix_of(path)
}

/// The names of up to four string slices, one by one.
pub broadcast proof fn lemma_names(slices: Seq<&str>)
    ensures
        #![trigger names(slices)]
        slices.len() == 1 ==> names(slices) == seq![slices[0]@],
        slices.len() == 2 ==> names(slices) == seq![slices[0]@, slices[1]@],
        slices.len() == 3 ==> names(slices) == seq![slices[0]@, slices[1]@, slices[2]@],
        slices.len() == 4 ==> names(slices) == seq![
            slices[0]@,
            slices[1]@,
            slices[2]@,
            slices[3]@,
        ],
{
    if slices.len() == 1 {
        assert(names(slices) =~= seq![slices[0]@]);
    } else if slices.len() == 2 {
        assert(names(slices) =~= seq![slices[0]@, slices[1]@]);
    } else if slices.len() == 3 {
        assert(names(slices) =~= seq![slices[0]@, slices[1]@, slices[2]@]);
    } else if slices.len() == 4 {
        assert(names(slices) =~= seq![slices[0]@, slices[1]@, slices[2]@, slices[3]@]);
    }
}

/// Whether the last names of a path are these.
pub fn path_ends(path: &[String], suffix: &[&str]) -> (result: bool)
    ensures
        result == ends(texts(path@), names(suffix@)),
{
    let total: usize = path.len();
    if total < suffix.len() {
        return false;
    }
    let start: usize = total - suffix.len();
    let mut at: usize = 0;
    let ghost tail = texts(path@).subrange(start as int, path@.len() as int);
    while at < suffix.len()
        invariant
            at <= suffix@.len(),
            start + suffix@.len() == total,
            total == path@.len(),
            tail == texts(path@).subrange(start as int, path@.len() as int),
            forall|i: int| 0 <= i < at ==> tail[i] == names(suffix@)[i],
        decreases suffix@.len() - at,
    {
        if !same_text(path[start + at].as_str(), suffix[at]) {
            assert(tail[at as int] != names(suffix@)[at as int]);
            return false;
        }
        at = at + 1;
    }
    assert(names(suffix@) =~= tail);
    true
}

/// The code after a text of the report, where the text belongs to a code.
pub open spec fn code_assigned(
    path: Seq<Seq<char>>,
    value: Seq<char>,
    code: CamtCodeView,
) -> CamtCodeView {
    if ends(path, seq!["Domn"@, "Cd"@]) {
        CamtCodeView { domain: Some(value), ..code }
    } else if ends(path, seq!["Fmly"@, "Cd"@]) {
        CamtCodeView { family: Some(value), ..code }
    } else if ends(path, seq!["Fmly"@, "SubFmlyCd"@]) {
        CamtCodeView { subfamily: Some(value), ..code }
    } else if ends(path, seq!["Prtry"@, "Cd"@]) {
        CamtCodeView { proprietary: Some(value), ..code }
    } else if ends(path, seq!["Prtry"@, "Issr"@]) {
        CamtCodeView { issuer: Some(value), ..code }
    } else {
        code
    }
}

/// Puts a text into the part of a code that the path names.
pub fn assign_code(path: &[String], value: &str, code: &mut CamtCode)
    ensures
        final(code)@ == code_assigned(texts(path@), value@, old(code)@),
{
    broadcast use lemma_names;

    if path_ends(path, &["Domn", "Cd"]) {
        code.domain = Some(value.to_owned());
    } else if path_ends(path, &["Fmly", "Cd"]) {
        code.family = Some(value.to_owned());
    } else if path_ends(path, &["Fmly", "SubFmlyCd"]) {
        code.subfamily = Some(value.to_owned());
    } else if path_ends(path, &["Prtry", "Cd"]) {
        code.proprietary = Some(value.to_owned());
    } else if path_ends(path, &["Prtry", "Issr"]) {
        code.issuer = Some(value.to_owned());
    }
}

/// Which part of a report a path leads into.
#[derive(Debug, Clone, Copy, PartialEq, Eq, Structural)]
pub enum Context {
    Outside,
    Balance,
    Entry,
    Transaction,
}

/// Which part of a report a path leads into: a transaction, else an entry, else
/// a balance, wherever on the path its element stands.
pub open spec fn context_of(path: Seq<Seq<char>>) -> Context {
    if path.contains("TxDtls"@) {
        Context::Transaction
    } else if path.contains("Ntry"@) {
        Context::Entry
    } else if path.contains("Bal"@) {
        Context::Balance
    } else {
        Context::Outside
    }
}

/// Whether a name stands on a path.
fn has_name(path: &[String], name: &str) -> (result: bool)
    ensures
        result == texts(path@).contains(name@),
{
    let mut at: usize = 0;
    while at < path.len()
        invariant
            at <= path@.len(),
            forall|i: int| 0 <= i < at ==> texts(path@)[i] != name@,
        decreases path@.len() - at,
    {
        if same_text(path[at].as_str(), name) {
            assert(texts(path@)[at as int] == name@);
            return true;
        }
        at = at + 1;
    }
    false
}

/// Which part of a report a path leads into.
pub fn context(path: &[String]) -> (result: Context)
    ensures
        result == context_of(texts(path@)),
{
    if has_name(path, "TxDtls") {
        Context::Transaction
    } else if has_name(path, "Ntry") {
        Context::Entry
    } else if has_name(path, "Bal") {
        Context::Balance
    } else {
        Context::Outside
    }
}

/// The amount that a text of a report writes, with a comma or a point before
/// its decimal places.
pub open spec fn amount_read(value: Seq<char>) -> Result<Amount, FinTSErrorView> {
    match decimal_of(with_points(value)) {
        Ok(amount) => Ok(amount),
        Err(error) => Err(
            camt_error("invalid CAMT amount "@ + quoted_text(value) + ": "@ + error),
        ),
    }
}

/// Reads an amount of a report. A plain number is read digit by digit, and other
/// characters or two points are no number.
pub fn decimal(value: &str) -> (result: Result<Amount, FinTSError>)
    ensures
        read_as(result, amount_read(value@)),
        result is Ok ==> result->Ok_0.valid(),
        plain_number(with_points(value@)) ==> result is Ok && result->Ok_0 == plain_amount(
            with_points(value@),
        ),
        !number_characters(with_points(value@)) ==> result is Err,
{
    match parse_decimal(commas_to_points(value).as_str()) {
        Ok(amount) => Ok(amount),
        Err(error) => {
            let mut message = "invalid CAMT amount ".to_owned();
            message.append(quoted(value).as_str());
            message.append(": ");
            message.append(error.as_str());
            Err(parse_error(message))
        },
    }
}

/// The date that a text of a report writes.
pub open spec fn date_read(value: Seq<char>) -> Result<Date, FinTSErrorView> {
    match date_of(value) {
        Ok(date) => Ok(date),
        Err(error) => Err(
            camt_error("invalid CAMT date "@ + quoted_text(value) + ": "@ + error),
        ),
    }
}

/// Reads a date of a report. One of four, two and two digits with hyphens between
/// them is read where the calendar has it, and nothing may follow the day.
pub fn date(value: &str) -> (result: Result<Date, FinTSError>)
    ensures
        read_as(result, date_read(value@)),
        result is Ok ==> result->Ok_0.valid(),
        dashed_date(value@) ==> (match result {
            Ok(date) => date_of_dashed(value@) == Some(date),
            Err(_) => date_of_dashed(value@) is None,
        }),
        value@.len() == 0 || !digit(value@.last()) ==> result is Err,
        value@.len() > 10 && dashed_date(value@.take(10)) ==> result is Err,
{
    match parse_date(value) {
        Ok(date) => Ok(date),
        Err(error) => {
            let mut message = "invalid CAMT date ".to_owned();
            message.append(quoted(value).as_str());
            message.append(": ");
            message.append(error.as_str());
            Err(parse_error(message))
        },
    }
}

/// The point in time that a text of a report writes.
pub open spec fn timestamp_read(value: Seq<char>) -> Result<Timestamp, FinTSErrorView> {
    match timestamp_of(value) {
        Ok(time) => Ok(time),
        Err(error) => Err(camt_error(error)),
    }
}

/// Reads a point in time of a report. One that is written plainly, without parts of
/// a second, is read as it stands.
pub fn timestamp(value: &str) -> (result: Result<Timestamp, FinTSError>)
    ensures
        read_as(result, timestamp_read(value@)),
        plain_timestamp(value@) ==> result is Ok && result->Ok_0.seconds == plain_seconds(value@)
            && result->Ok_0.nanoseconds == 0,
{
    match parse_timestamp(value) {
        Ok(time) => Ok(time),
        Err(error) => Err(parse_error(error)),
    }
}

/// Whether a result is the expected value, or the expected error.
pub open spec fn read_as<T>(
    result: Result<T, FinTSError>,
    expected: Result<T, FinTSErrorView>,
) -> bool {
    match expected {
        Ok(value) => result is Ok && result->Ok_0 == value,
        Err(error) => result is Err && result->Err_0@ == error,
    }
}

/// Whether a step did what was expected: it went from one state to the expected
/// one, or failed with the expected error and left the state as it was.
pub open spec fn stepped<S>(
    expected: Result<S, FinTSErrorView>,
    before: S,
    after: S,
    result: Result<(), FinTSError>,
) -> bool {
    match expected {
        Ok(state) => result is Ok && after == state,
        Err(error) => result is Err && result->Err_0@ == error && after == before,
    }
}

/// The text of a string slice that may be absent.
pub open spec fn slice_text(slice: Option<&str>) -> Option<Seq<char>> {
    match slice {
        Some(slice) => Some(slice@),
        None => None,
    }
}

/// A text that may be absent, or the empty text.
pub open spec fn or_empty(text: Option<Seq<char>>) -> Seq<char> {
    match text {
        Some(text) => text,
        None => Seq::empty(),
    }
}

/// A copy of a string slice that may be absent, or an empty string.
fn owned_or_empty(slice: Option<&str>) -> (result: String)
    ensures
        result@ == or_empty(slice_text(slice)),
{
    match slice {
        Some(slice) => slice.to_owned(),
        None => String::new(),
    }
}

/// A copy of a string slice that may be absent.
fn owned(slice: Option<&str>) -> (result: Option<String>)
    ensures
        text_of(result) == slice_text(slice),
{
    match slice {
        Some(slice) => Some(slice.to_owned()),
        None => None,
    }
}

/// The balance after a text of the report.
pub open spec fn balance_assigned(
    path: Seq<Seq<char>>,
    value: Seq<char>,
    currency: Option<Seq<char>>,
    balance: CamtBalanceView,
) -> Result<CamtBalanceView, FinTSErrorView> {
    if ends(path, seq!["CdOrPrtry"@, "Cd"@]) {
        Ok(CamtBalanceView { code: value, ..balance })
    } else if ends(path, seq!["Amt"@]) {
        match amount_read(value) {
            Ok(amount) => Ok(CamtBalanceView { amount, currency: or_empty(currency), ..balance }),
            Err(error) => Err(error),
        }
    } else if ends(path, seq!["CdtDbtInd"@]) {
        Ok(CamtBalanceView { credit_debit: value, ..balance })
    } else if ends(path, seq!["Dt"@, "Dt"@]) {
        match date_read(value) {
            Ok(date) => Ok(CamtBalanceView { date: Some(date), ..balance }),
            Err(error) => Err(error),
        }
    } else {
        Ok(balance)
    }
}

/// The balance in hand after a text of the report.
pub open spec fn balance_after(
    path: Seq<Seq<char>>,
    value: Seq<char>,
    currency: Option<Seq<char>>,
    balance: Option<CamtBalanceView>,
) -> Result<Option<CamtBalanceView>, FinTSErrorView> {
    match balance {
        Some(balance) => match balance_assigned(path, value, currency, balance) {
            Ok(balance) => Ok(Some(balance)),
            Err(error) => Err(error),
        },
        None => Ok(None),
    }
}

/// The balance in hand, with its texts as sequences of characters.
pub open spec fn balance_view(balance: Option<CamtBalance>) -> Option<CamtBalanceView> {
    match balance {
        Some(balance) => Some(balance@),
        None => None,
    }
}

/// Puts a text into the part of the balance in hand that the path names.
pub fn assign_balance(
    path: &[String],
    value: &str,
    currency: Option<&str>,
    balance: &mut Option<CamtBalance>,
) -> (result: Result<(), FinTSError>)
    ensures
        stepped(
            balance_after(
                texts(path@),
                value@,
                slice_text(currency),
                balance_view(*old(balance)),
            ),
            balance_view(*old(balance)),
            balance_view(*final(balance)),
            result,
        ),
        (*old(balance) is Some ==> balance_view(*old(balance))->0.valid()) ==> (
        *final(balance) is Some ==> balance_view(*final(balance))->0.valid()),
{
    broadcast use lemma_names;

    let Some(balance) = balance.as_mut() else {
        return Ok(());
    };
    if path_ends(path, &["CdOrPrtry", "Cd"]) {
        balance.code = value.to_owned();
    } else if path_ends(path, &["Amt"]) {
        match decimal(value) {
            Ok(amount) => {
                balance.amount = amount;
                balance.currency = owned_or_empty(currency);
            },
            Err(error) => return Err(error),
        }
    } else if path_ends(path, &["CdtDbtInd"]) {
        balance.credit_debit = value.to_owned();
    } else if path_ends(path, &["Dt", "Dt"]) {
        match date(value) {
            Ok(date) => balance.date = Some(date),
            Err(error) => return Err(error),
        }
    }
    Ok(())
}

/// The entry after a text of the report.
pub open spec fn entry_assigned(
    path: Seq<Seq<char>>,
    value: Seq<char>,
    currency: Option<Seq<char>>,
    entry: CamtEntryView,
) -> Result<CamtEntryView, FinTSErrorView> {
    if ends(path, seq!["Amt"@]) {
        match amount_read(value) {
            Ok(amount) => Ok(CamtEntryView { amount, currency: or_empty(currency), ..entry }),
            Err(error) => Err(error),
        }
    } else if ends(path, seq!["CdtDbtInd"@]) {
        Ok(CamtEntryView { credit_debit: value, ..entry })
    } else if ends(path, seq!["Sts"@, "Cd"@]) {
        Ok(CamtEntryView { status: value, ..entry })
    } else if ends(path, seq!["BookgDt"@, "Dt"@]) {
        match date_read(value) {
            Ok(date) => Ok(CamtEntryView { booking_date: Some(date), ..entry }),
            Err(error) => Err(error),
        }
    } else if ends(path, seq!["ValDt"@, "Dt"@]) {
        match date_read(value) {
            Ok(date) => Ok(CamtEntryView { value_date: Some(date), ..entry }),
            Err(error) => Err(error),
        }
    } else if ends(path, seq!["AcctSvcrRef"@]) {
        Ok(CamtEntryView { acct_svcr_ref: Some(value), ..entry })
    } else if ends(path, seq!["AddtlNtryInf"@]) {
        Ok(CamtEntryView { additional_info: Some(value), ..entry })
    } else {
        Ok(CamtEntryView { code: code_assigned(path, value, entry.code), ..entry })
    }
}

/// The entry in hand after a text of the report.
pub open spec fn entry_after(
    path: Seq<Seq<char>>,
    value: Seq<char>,
    currency: Option<Seq<char>>,
    entry: Option<CamtEntryView>,
) -> Result<Option<CamtEntryView>, FinTSErrorView> {
    match entry {
        Some(entry) => match entry_assigned(path, value, currency, entry) {
            Ok(entry) => Ok(Some(entry)),
            Err(error) => Err(error),
        },
        None => Ok(None),
    }
}

/// The entry in hand, with its texts as sequences of characters.
pub open spec fn entry_view(entry: Option<CamtEntry>) -> Option<CamtEntryView> {
    match entry {
        Some(entry) => Some(entry@),
        None => None,
    }
}

/// Puts a text into the part of the entry in hand that the path names.
pub fn assign_entry(
    path: &[String],
    value: &str,
    currency: Option<&str>,
    entry: &mut Option<CamtEntry>,
) -> (result: Result<(), FinTSError>)
    ensures
        stepped(
            entry_after(
                texts(path@),
                value@,
                slice_text(currency),
                entry_view(*old(entry)),
            ),
            entry_view(*old(entry)),
            entry_view(*final(entry)),
            result,
        ),
        (*old(entry) is Some ==> entry_view(*old(entry))->0.valid()) ==> (
        *final(entry) is Some ==> entry_view(*final(entry))->0.valid()),
{
    broadcast use lemma_names;

    let Some(entry) = entry.as_mut() else {
        return Ok(());
    };
    if path_ends(path, &["Amt"]) {
        match decimal(value) {
            Ok(amount) => {
                entry.amount = amount;
                entry.currency = owned_or_empty(currency);
            },
            Err(error) => return Err(error),
        }
    } else if path_ends(path, &["CdtDbtInd"]) {
        entry.credit_debit = value.to_owned();
    } else if path_ends(path, &["Sts", "Cd"]) {
        entry.status = value.to_owned();
    } else if path_ends(path, &["BookgDt", "Dt"]) {
        match date(value) {
            Ok(date) => entry.booking_date = Some(date),
            Err(error) => return Err(error),
        }
    } else if path_ends(path, &["ValDt", "Dt"]) {
        match date(value) {
            Ok(date) => entry.value_date = Some(date),
            Err(error) => return Err(error),
        }
    } else if path_ends(path, &["AcctSvcrRef"]) {
        entry.acct_svcr_ref = Some(value.to_owned());
    } else if path_ends(path, &["AddtlNtryInf"]) {
        entry.additional_info = Some(value.to_owned());
    } else {
        assign_code(path, value, &mut entry.code);
    }
    Ok(())
}

/// The transaction after a text of the report.
pub open spec fn transaction_assigned(
    path: Seq<Seq<char>>,
    value: Seq<char>,
    currency: Option<Seq<char>>,
    transaction: CamtTransactionView,
) -> Result<CamtTransactionView, FinTSErrorView> {
    if ends(path, seq!["InstdAmt"@, "Amt"@]) {
        match amount_read(value) {
            Ok(amount) => Ok(
                CamtTransactionView {
                    original_amount: Some(amount),
                    original_currency: currency,
                    ..transaction
                },
            ),
            Err(error) => Err(error),
        }
    } else if ends(path, seq!["Amt"@]) {
        match amount_read(value) {
            Ok(amount) => Ok(
                CamtTransactionView { amount, currency: or_empty(currency), ..transaction },
            ),
            Err(error) => Err(error),
        }
    } else if ends(path, seq!["CdtDbtInd"@]) {
        Ok(CamtTransactionView { credit_debit: value, ..transaction })
    } else if ends(path, seq!["EndToEndId"@]) {
        Ok(CamtTransactionView { end_to_end_id: Some(value), ..transaction })
    } else if ends(path, seq!["TxDtTm"@]) {
        match timestamp_read(value) {
            Ok(time) => Ok(CamtTransactionView { transaction_at: Some(time), ..transaction }),
            Err(error) => Err(error),
        }
    } else if ends(path, seq!["Dbtr"@, "Pty"@, "Nm"@]) {
        Ok(
            CamtTransactionView {
                debtor: CamtPartyView { name: Some(value), ..transaction.debtor },
                ..transaction
            },
        )
    } else if ends(path, seq!["DbtrAcct"@, "Id"@, "IBAN"@]) {
        Ok(
            CamtTransactionView {
                debtor: CamtPartyView { iban: Some(value), ..transaction.debtor },
                ..transaction
            },
        )
    } else if ends(path, seq!["DbtrAgt"@, "FinInstnId"@, "BICFI"@]) {
        Ok(
            CamtTransactionView {
                debtor: CamtPartyView { bic: Some(value), ..transaction.debtor },
                ..transaction
            },
        )
    } else if ends(path, seq!["Cdtr"@, "Pty"@, "Nm"@]) {
        Ok(
            CamtTransactionView {
                creditor: CamtPartyView { name: Some(value), ..transaction.creditor },
                ..transaction
            },
        )
    } else if ends(path, seq!["CdtrAcct"@, "Id"@, "IBAN"@]) {
        Ok(
            CamtTransactionView {
                creditor: CamtPartyView { iban: Some(value), ..transaction.creditor },
                ..transaction
            },
        )
    } else if ends(path, seq!["CdtrAgt"@, "FinInstnId"@, "BICFI"@]) {
        Ok(
            CamtTransactionView {
                creditor: CamtPartyView { bic: Some(value), ..transaction.creditor },
                ..transaction
            },
        )
    } else if ends(path, seq!["Purp"@, "Cd"@]) {
        Ok(CamtTransactionView { purpose_code: Some(value), ..transaction })
    } else if ends(path, seq!["Ustrd"@]) {
        Ok(CamtTransactionView { remittance: Some(value), ..transaction })
    } else {
        Ok(
            CamtTransactionView {
                code: code_assigned(path, value, transaction.code),
                ..transaction
            },
        )
    }
}

/// The transaction in hand after a text of the report.
pub open spec fn transaction_after(
    path: Seq<Seq<char>>,
    value: Seq<char>,
    currency: Option<Seq<char>>,
    transaction: Option<CamtTransactionView>,
) -> Result<Option<CamtTransactionView>, FinTSErrorView> {
    match transaction {
        Some(transaction) => match transaction_assigned(path, value, currency, transaction) {
            Ok(transaction) => Ok(Some(transaction)),
            Err(error) => Err(error),
        },
        None => Ok(None),
    }
}

/// The transaction in hand, with its texts as sequences of characters.
pub open spec fn transaction_view(transaction: Option<CamtTransaction>) -> Option<
    CamtTransactionView,
> {
    match transaction {
        Some(transaction) => Some(transaction@),
        None => None,
    }
}

/// Puts a text into the part of the transaction in hand that the path names.
pub fn assign_transaction(
    path: &[String],
    value: &str,
    currency: Option<&str>,
    transaction: &mut Option<CamtTransaction>,
) -> (result: Result<(), FinTSError>)
    ensures
        stepped(
            transaction_after(
                texts(path@),
                value@,
                slice_text(currency),
                transaction_view(*old(transaction)),
            ),
            transaction_view(*old(transaction)),
            transaction_view(*final(transaction)),
            result,
        ),
        (*old(transaction) is Some ==> transaction_view(*old(transaction))->0.valid()) ==> (
        *final(transaction) is Some ==> transaction_view(*final(transaction))->0.valid()),
{
    broadcast use lemma_names;

    let Some(transaction) = transaction.as_mut() else {
        return Ok(());
    };
    if path_ends(path, &["InstdAmt", "Amt"]) {
        match decimal(value) {
            Ok(amount) => {
                transaction.original_amount = Some(amount);
                transaction.original_currency = owned(currency);
            },
            Err(error) => return Err(error),
        }
    } else if path_ends(path, &["Amt"]) {
        match decimal(value) {
            Ok(amount) => {
                transaction.amount = amount;
                transaction.currency = owned_or_empty(currency);
            },
            Err(error) => return Err(error),
        }
    } else if path_ends(path, &["CdtDbtInd"]) {
        transaction.credit_debit = value.to_owned();
    } else if path_ends(path, &["EndToEndId"]) {
        transaction.end_to_end_id = Some(value.to_owned());
    } else if path_ends(path, &["TxDtTm"]) {
        match timestamp(value) {
            Ok(time) => transaction.transaction_at = Some(time),
            Err(error) => return Err(error),
        }
    } else if path_ends(path, &["Dbtr", "Pty", "Nm"]) {
        transaction.debtor.name = Some(value.to_owned());
    } else if path_ends(path, &["DbtrAcct", "Id", "IBAN"]) {
        transaction.debtor.iban = Some(value.to_owned());
    } else if path_ends(path, &["DbtrAgt", "FinInstnId", "BICFI"]) {
        transaction.debtor.bic = Some(value.to_owned());
    } else if path_ends(path, &["Cdtr", "Pty", "Nm"]) {
        transaction.creditor.name = Some(value.to_owned());
    } else if path_ends(path, &["CdtrAcct", "Id", "IBAN"]) {
        transaction.creditor.iban = Some(value.to_owned());
    } else if path_ends(path, &["CdtrAgt", "FinInstnId", "BICFI"]) {
        transaction.creditor.bic = Some(value.to_owned());
    } else if path_ends(path, &["Purp", "Cd"]) {
        transaction.purpose_code = Some(value.to_owned());
    } else if path_ends(path, &["Ustrd"]) {
        transaction.remittance = Some(value.to_owned());
    } else {
        assign_code(path, value, &mut transaction.code);
    }
    Ok(())
}

/// The report after a text that says something of the account or the page.
pub open spec fn report_assigned(
    path: Seq<Seq<char>>,
    value: Seq<char>,
    report: CamtReportView,
) -> Result<CamtReportView, FinTSErrorView> {
    let account = report.account;
    if ends(path, seq!["Acct"@, "Ccy"@]) {
        Ok(
            CamtReportView {
                account: CamtAccountView { currency: Some(value), ..account },
                ..report
            },
        )
    } else if ends(path, seq!["Acct"@, "Id"@, "IBAN"@]) {
        Ok(
            CamtReportView {
                account: CamtAccountView { iban: Some(value), ..account },
                ..report
            },
        )
    } else if ends(path, seq!["Acct"@, "Id"@, "Othr"@, "Id"@]) {
        Ok(
            CamtReportView {
                account: CamtAccountView { other_id: Some(value), ..account },
                ..report
            },
        )
    } else if ends(path, seq!["Svcr"@, "FinInstnId"@, "BICFI"@]) {
        Ok(
            CamtReportView {
                account: CamtAccountView { bic: Some(value), ..account },
                ..report
            },
        )
    } else if ends(path, seq!["MsgPgntn"@, "PgNb"@]) {
        match u32_of(value) {
            Ok(number) => Ok(CamtReportView { page_number: Some(number), ..report }),
            Err(error) => Err(camt_error("invalid CAMT page number: "@ + error)),
        }
    } else if ends(path, seq!["MsgPgntn"@, "LastPgInd"@]) {
        match bool_of(value) {
            Ok(flag) => Ok(CamtReportView { last_page: Some(flag), ..report }),
            Err(error) => Err(camt_error("invalid CAMT last-page flag: "@ + error)),
        }
    } else {
        Ok(report)
    }
}

/// Puts a text into the part of the account or the page that the path names.
pub fn assign_report(path: &[String], value: &str, report: &mut CamtReport) -> (result: Result<
    (),
    FinTSError,
>)
    ensures
        stepped(
            report_assigned(texts(path@), value@, old(report)@),
            old(report)@,
            final(report)@,
            result,
        ),
        old(report)@.valid() ==> final(report)@.valid(),
{
    broadcast use lemma_names;

    if path_ends(path, &["Acct", "Ccy"]) {
        report.account.currency = Some(value.to_owned());
    } else if path_ends(path, &["Acct", "Id", "IBAN"]) {
        report.account.iban = Some(value.to_owned());
    } else if path_ends(path, &["Acct", "Id", "Othr", "Id"]) {
        report.account.other_id = Some(value.to_owned());
    } else if path_ends(path, &["Svcr", "FinInstnId", "BICFI"]) {
        report.account.bic = Some(value.to_owned());
    } else if path_ends(path, &["MsgPgntn", "PgNb"]) {
        match parse_u32(value) {
            Ok(number) => report.page_number = Some(number),
            Err(error) => {
                let mut message = "invalid CAMT page number: ".to_owned();
                message.append(error.as_str());
                return Err(parse_error(message));
            },
        }
    } else if path_ends(path, &["MsgPgntn", "LastPgInd"]) {
        match parse_bool(value) {
            Ok(flag) => report.last_page = Some(flag),
            Err(error) => {
                let mut message = "invalid CAMT last-page flag: ".to_owned();
                message.append(error.as_str());
                return Err(parse_error(message));
            },
        }
    }
    Ok(())
}

/// A report and the balance, entry and transaction in hand.
#[verifier::ext_equal]
pub struct Held {
    pub report: CamtReportView,
    pub balance: Option<CamtBalanceView>,
    pub entry: Option<CamtEntryView>,
    pub transaction: Option<CamtTransactionView>,
}

impl Held {
    /// Whether the amounts are in range and the calendar has the dates.
    pub open spec fn valid(self) -> bool {
        &&& self.report.valid()
        &&& self.balance is Some ==> self.balance->0.valid()
        &&& self.entry is Some ==> self.entry->0.valid()
        &&& self.transaction is Some ==> self.transaction->0.valid()
    }
}

/// What a report and the parts in hand are after a text, and the error that
/// comes of it. A text says something of the account or the page, and then
/// something of the part that its path leads into.
pub open spec fn text_assigned(
    path: Seq<Seq<char>>,
    text: Seq<char>,
    currency: Option<Seq<char>>,
    held: Held,
) -> (Held, Option<FinTSErrorView>) {
    let value = trimmed(text);
    if value.len() == 0 {
        (held, None)
    } else {
        match report_assigned(path, value, held.report) {
            Ok(report) => {
                let held = Held { report, ..held };
                match context_of(path) {
                    Context::Balance => match balance_after(path, value, currency, held.balance) {
                        Ok(balance) => (Held { balance, ..held }, None),
                        Err(error) => (held, Some(error)),
                    },
                    Context::Entry => match entry_after(path, value, currency, held.entry) {
                        Ok(entry) => (Held { entry, ..held }, None),
                        Err(error) => (held, Some(error)),
                    },
                    Context::Transaction => match transaction_after(
                        path,
                        value,
                        currency,
                        held.transaction,
                    ) {
                        Ok(transaction) => (Held { transaction, ..held }, None),
                        Err(error) => (held, Some(error)),
                    },
                    Context::Outside => (held, None),
                }
            },
            Err(error) => (held, Some(error)),
        }
    }
}

/// The error of a step.
pub open spec fn error_of(result: Result<(), FinTSError>) -> Option<FinTSErrorView> {
    match result {
        Ok(_) => None,
        Err(error) => Some(error@),
    }
}

/// Puts a text where its path leads.
pub fn assign_text(
    path: &[String],
    value: &str,
    currency: Option<&str>,
    report: &mut CamtReport,
    balance: &mut Option<CamtBalance>,
    entry: &mut Option<CamtEntry>,
    transaction: &mut Option<CamtTransaction>,
) -> (result: Result<(), FinTSError>)
    ensures
        ({
            let before = Held {
                report: old(report)@,
                balance: balance_view(*old(balance)),
                entry: entry_view(*old(entry)),
                transaction: transaction_view(*old(transaction)),
            };
            let (after, error) = text_assigned(texts(path@), value@, slice_text(currency), before);
            &&& final(report)@ == after.report
            &&& balance_view(*final(balance)) == after.balance
            &&& entry_view(*final(entry)) == after.entry
            &&& transaction_view(*final(transaction)) == after.transaction
            &&& error_of(result) == error
            &&& before.valid() ==> after.valid()
        }),
{
    let value = trim(value);
    if value.as_str().is_empty() {
        return Ok(());
    }
    let value = value.as_str();
    match assign_report(path, value, report) {
        Ok(_) => {},
        Err(error) => return Err(error),
    }
    match context(path) {
        Context::Balance => assign_balance(path, value, currency, balance),
        Context::Entry => assign_entry(path, value, currency, entry),
        Context::Transaction => assign_transaction(path, value, currency, transaction),
        Context::Outside => Ok(()),
    }
}

} // verus!
