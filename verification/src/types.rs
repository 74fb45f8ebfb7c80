//! Transactions of an account.

use crate::amount::Amount;
use crate::date::Date;
use crate::text::text_of;
use vstd::prelude::*;

verus! {

/// Whether a transaction is booked.
#[derive(Debug, Clone, Copy, PartialEq, Eq, Structural)]
pub enum TransactionStatus {
    /// The transaction is part of the balance.
    Booked,
    /// The transaction is announced.
    Pending,
}

/// The code of a currency.
#[derive(Debug, PartialEq, Eq)]
pub struct Currency {
    pub code: String,
}

impl Currency {
    /// The currency with a code.
    pub fn new(code: &str) -> (result: Currency)
        ensures
            result.code@ == code@,
    {
        Currency { code: code.to_owned() }
    }
}

/// An international bank account number.
#[derive(Debug, PartialEq, Eq)]
pub struct Iban {
    pub number: String,
}

impl Iban {
    /// The account number that a text writes.
    pub fn new(number: String) -> (result: Iban)
        ensures
            result.number == number,
    {
        Iban { number }
    }
}

/// A business identifier code of a bank.
#[derive(Debug, PartialEq, Eq)]
pub struct Bic {
    pub code: String,
}

impl Bic {
    /// The bank code that a text writes.
    pub fn new(code: String) -> (result: Bic)
        ensures
            result.code == code,
    {
        Bic { code }
    }
}

/// A part of a statement as the bank delivered it.
#[derive(Debug, PartialEq, Eq)]
pub struct RawField {
    pub key: String,
    pub value: Option<String>,
}

impl RawField {
    /// The part with a name.
    pub fn new(key: &str, value: Option<String>) -> (result: RawField)
        ensures
            result.key@ == key@,
            result.value == value,
    {
        RawField { key: key.to_owned(), value }
    }
}

/// A transaction of an account.
#[derive(Debug, PartialEq, Eq)]
pub struct Transaction {
    /// The day of the value.
    pub date: Date,
    /// The day of the entry.
    pub valuta_date: Option<Date>,
    /// The amount, negative where it leaves the account.
    pub amount: Amount,
    /// The currency of the amount.
    pub currency: Currency,
    /// The name of the other party.
    pub applicant_name: Option<String>,
    /// The account of the other party.
    pub applicant_iban: Option<Iban>,
    /// The bank of the other party.
    pub applicant_bic: Option<Bic>,
    /// What the transaction is for.
    pub purpose: Option<String>,
    /// What kind of posting it is.
    pub posting_text: Option<String>,
    /// The reference of the transaction.
    pub reference: Option<String>,
    /// The parts of the statement that the transaction was read from.
    pub raw: Vec<RawField>,
    /// Whether the transaction is booked.
    pub status: TransactionStatus,
}

/// A transaction with its texts as sequences of characters.
#[verifier::ext_equal]
pub struct TransactionView {
    pub date: Date,
    pub valuta_date: Option<Date>,
    pub amount: Amount,
    pub currency: Seq<char>,
    pub applicant_name: Option<Seq<char>>,
    pub applicant_iban: Option<Seq<char>>,
    pub applicant_bic: Option<Seq<char>>,
    pub purpose: Option<Seq<char>>,
    pub posting_text: Option<Seq<char>>,
    pub reference: Option<Seq<char>>,
    pub raw: Seq<(Seq<char>, Option<Seq<char>>)>,
    pub status: TransactionStatus,
}

impl TransactionView {
    /// Whether the amount is in range and the calendar has the dates.
    pub open spec fn valid(self) -> bool {
        &&& self.amount.valid()
        &&& self.date.valid()
        &&& self.valuta_date is Some ==> self.valuta_date->0.valid()
    }
}

/// Whether the amounts of transactions are in range and the calendar has their dates.
pub open spec fn valid_transactions(transactions: Seq<TransactionView>) -> bool {
    forall|i: int| 0 <= i < transactions.len() ==> (#[trigger] transactions[i]).valid()
}

/// The keys and values of raw fields as sequences of characters.
pub open spec fn raw_views(fields: Seq<RawField>) -> Seq<(Seq<char>, Option<Seq<char>>)> {
    Seq::new(fields.len(), |i: int| (fields[i].key@, text_of(fields[i].value)))
}

impl View for Transaction {
    type V = TransactionView;

    open spec fn view(&self) -> TransactionView {
        TransactionView {
            date: self.date,
            valuta_date: self.valuta_date,
            amount: self.amount,
            currency: self.currency.code@,
            applicant_name: text_of(self.applicant_name),
            applicant_iban: match self.applicant_iban {
                Some(iban) => Some(iban.number@),
                None => None,
            },
            applicant_bic: match self.applicant_bic {
                Some(bic) => Some(bic.code@),
                None => None,
            },
            purpose: text_of(self.purpose),
            posting_text: text_of(self.posting_text),
            reference: text_of(self.reference),
            raw: raw_views(self.raw@),
            status: self.status,
        }
    }
}

/// The transactions with their texts as sequences of characters.
pub open spec fn transaction_views(transactions: Seq<Transaction>) -> Seq<TransactionView> {
    Seq::new(transactions.len(), |i: int| transactions[i]@)
}

} // verus!
