//! Account reports: an account with its balances, its entries and the
//! transactions of each entry.

use crate::amount::Amount;
use crate::date::{Date, Timestamp};
use crate::text::{copy_text, text_of};
use vstd::prelude::*;

verus! {

/// The account of a report.
#[derive(Debug)]
pub struct CamtAccount {
    /// The IBAN of the account.
    pub iban: Option<String>,
    /// Another identification of the account.
    pub other_id: Option<String>,
    /// The currency of the account.
    pub currency: Option<String>,
    /// The BIC of the institution that keeps the account.
    pub bic: Option<String>,
}

/// The account of a report. Its texts are sequences of characters.
#[verifier::ext_equal]
pub struct CamtAccountView {
    pub iban: Option<Seq<char>>,
    pub other_id: Option<Seq<char>>,
    pub currency: Option<Seq<char>>,
    pub bic: Option<Seq<char>>,
}

impl View for CamtAccount {
    type V = CamtAccountView;

    open spec fn view(&self) -> CamtAccountView {
        CamtAccountView {
            iban: text_of(self.iban),
            other_id: text_of(self.other_id),
            currency: text_of(self.currency),
            bic: text_of(self.bic),
        }
    }
}

impl CamtAccountView {
    /// The account of a report. Nothing is known of it.
    pub open spec fn empty() -> CamtAccountView {
        CamtAccountView {
            iban: None,
            other_id: None,
            currency: None,
            bic: None,
        }
    }
}

impl Default for CamtAccount {
    fn default() -> (result: CamtAccount)
        ensures
            result@ == CamtAccountView::empty(),
    {
        let result = CamtAccount {
            iban: None,
            other_id: None,
            currency: None,
            bic: None,
        };
        assert(result@ =~= CamtAccountView::empty());
        result
    }
}

impl Clone for CamtAccount {
    fn clone(&self) -> (result: CamtAccount)
        ensures
            result@ == self@,
    {
        CamtAccount {
            iban: copy_text(&self.iban),
            other_id: copy_text(&self.other_id),
            currency: copy_text(&self.currency),
            bic: copy_text(&self.bic),
        }
    }
}

/// A balance of the account.
#[derive(Debug)]
pub struct CamtBalance {
    /// What kind of balance it is.
    pub code: String,
    /// The amount, without regard to its direction.
    pub amount: Amount,
    /// The currency of the amount.
    pub currency: String,
    /// Whether the balance is a credit or a debit.
    pub credit_debit: String,
    /// The day of the balance.
    pub date: Option<Date>,
}

/// A balance of the account. Its texts are sequences of characters.
#[verifier::ext_equal]
pub struct CamtBalanceView {
    pub code: Seq<char>,
    pub amount: Amount,
    pub currency: Seq<char>,
    pub credit_debit: Seq<char>,
    pub date: Option<Date>,
}

impl View for CamtBalance {
    type V = CamtBalanceView;

    open spec fn view(&self) -> CamtBalanceView {
        CamtBalanceView {
            code: self.code@,
            amount: self.amount,
            currency: self.currency@,
            credit_debit: self.credit_debit@,
            date: self.date,
        }
    }
}

impl Clone for CamtBalance {
    fn clone(&self) -> (result: CamtBalance)
        ensures
            result@ == self@,
    {
        CamtBalance {
            code: self.code.clone(),
            amount: self.amount,
            currency: self.currency.clone(),
            credit_debit: self.credit_debit.clone(),
            date: self.date,
        }
    }
}

/// The bank transaction code of an entry or a transaction.
#[derive(Debug)]
pub struct CamtCode {
    /// The code of the domain.
    pub domain: Option<String>,
    /// The code of the family in the domain.
    pub family: Option<String>,
    /// The code of the subfamily in the family.
    pub subfamily: Option<String>,
    /// A code that the bank assigns itself.
    pub proprietary: Option<String>,
    /// Who assigns the proprietary code.
    pub issuer: Option<String>,
}

/// The bank transaction code of an entry or a transaction. Its texts are sequences of characters.
#[verifier::ext_equal]
pub struct CamtCodeView {
    pub domain: Option<Seq<char>>,
    pub family: Option<Seq<char>>,
    pub subfamily: Option<Seq<char>>,
    pub proprietary: Option<Seq<char>>,
    pub issuer: Option<Seq<char>>,
}

impl View for CamtCode {
    type V = CamtCodeView;

    open spec fn view(&self) -> CamtCodeView {
        CamtCodeView {
            domain: text_of(self.domain),
            family: text_of(self.family),
            subfamily: text_of(self.subfamily),
            proprietary: text_of(self.proprietary),
            issuer: text_of(self.issuer),
        }
    }
}

impl CamtCodeView {
    /// The bank transaction code of an entry or a transaction. Nothing is known of it.
    pub open spec fn empty() -> CamtCodeView {
        CamtCodeView {
            domain: None,
            family: None,
            subfamily: None,
            proprietary: None,
            issuer: None,
        }
    }
}

impl Default for CamtCode {
    fn default() -> (result: CamtCode)
        ensures
            result@ == CamtCodeView::empty(),
    {
        let result = CamtCode {
            domain: None,
            family: None,
            subfamily: None,
            proprietary: None,
            issuer: None,
        };
        assert(result@ =~= CamtCodeView::empty());
        result
    }
}

impl Clone for CamtCode {
    fn clone(&self) -> (result: CamtCode)
        ensures
            result@ == self@,
    {
        CamtCode {
            domain: copy_text(&self.domain),
            family: copy_text(&self.family),
            subfamily: copy_text(&self.subfamily),
            proprietary: copy_text(&self.proprietary),
            issuer: copy_text(&self.issuer),
        }
    }
}

/// A party to a transaction.
#[derive(Debug)]
pub struct CamtParty {
    /// The name of the party.
    pub name: Option<String>,
    /// The IBAN of its account.
    pub iban: Option<String>,
    /// The BIC of its bank.
    pub bic: Option<String>,
}

/// A party to a transaction. Its texts are sequences of characters.
#[verifier::ext_equal]
pub struct CamtPartyView {
    pub name: Option<Seq<char>>,
    pub iban: Option<Seq<char>>,
    pub bic: Option<Seq<char>>,
}

impl View for CamtParty {
    type V = CamtPartyView;

    open spec fn view(&self) -> CamtPartyView {
        CamtPartyView {
            name: text_of(self.name),
            iban: text_of(self.iban),
            bic: text_of(self.bic),
        }
    }
}

impl CamtPartyView {
    /// A party to a transaction. Nothing is known of it.
    pub open spec fn empty() -> CamtPartyView {
        CamtPartyView {
            name: None,
            iban: None,
            bic: None,
        }
    }
}

impl Default for CamtParty {
    fn default() -> (result: CamtParty)
        ensures
            result@ == CamtPartyView::empty(),
    {
        let result = CamtParty {
            name: None,
            iban: None,
            bic: None,
        };
        assert(result@ =~= CamtPartyView::empty());
        result
    }
}

impl Clone for CamtParty {
    fn clone(&self) -> (result: CamtParty)
        ensures
            result@ == self@,
    {
        CamtParty {
            name: copy_text(&self.name),
            iban: copy_text(&self.iban),
            bic: copy_text(&self.bic),
        }
    }
}

/// A transaction of an entry.
#[derive(Debug)]
pub struct CamtTransaction {
    /// The amount, without regard to its direction.
    pub amount: Amount,
    /// The currency of the amount.
    pub currency: String,
    /// Whether the transaction is a credit or a debit.
    pub credit_debit: String,
    /// The reference that the initiating party gave.
    pub end_to_end_id: Option<String>,
    /// When the transaction took place.
    pub transaction_at: Option<Timestamp>,
    /// Who pays.
    pub debtor: CamtParty,
    /// Who is paid.
    pub creditor: CamtParty,
    /// The code of the purpose.
    pub purpose_code: Option<String>,
    /// The remittance information.
    pub remittance: Option<String>,
    /// The bank transaction code.
    pub code: CamtCode,
    /// The amount before conversion.
    pub original_amount: Option<Amount>,
    /// The currency before conversion.
    pub original_currency: Option<String>,
}

/// A transaction of an entry. Its texts are sequences of characters.
#[verifier::ext_equal]
pub struct CamtTransactionView {
    pub amount: Amount,
    pub currency: Seq<char>,
    pub credit_debit: Seq<char>,
    pub end_to_end_id: Option<Seq<char>>,
    pub transaction_at: Option<Timestamp>,
    pub debtor: CamtPartyView,
    pub creditor: CamtPartyView,
    pub purpose_code: Option<Seq<char>>,
    pub remittance: Option<Seq<char>>,
    pub code: CamtCodeView,
    pub original_amount: Option<Amount>,
    pub original_currency: Option<Seq<char>>,
}

impl View for CamtTransaction {
    type V = CamtTransactionView;

    open spec fn view(&self) -> CamtTransactionView {
        CamtTransactionView {
            amount: self.amount,
            currency: self.currency@,
            credit_debit: self.credit_debit@,
            end_to_end_id: text_of(self.end_to_end_id),
            transaction_at: self.transaction_at,
            debtor: self.debtor@,
            creditor: self.creditor@,
            purpose_code: text_of(self.purpose_code),
            remittance: text_of(self.remittance),
            code: self.code@,
            original_amount: self.original_amount,
            original_currency: text_of(self.original_currency),
        }
    }
}

impl Clone for CamtTransaction {
    fn clone(&self) -> (result: CamtTransaction)
        ensures
            result@ == self@,
    {
        CamtTransaction {
            amount: self.amount,
            currency: self.currency.clone(),
            credit_debit: self.credit_debit.clone(),
            end_to_end_id: copy_text(&self.end_to_end_id),
            transaction_at: self.transaction_at,
            debtor: self.debtor.clone(),
            creditor: self.creditor.clone(),
            purpose_code: copy_text(&self.purpose_code),
            remittance: copy_text(&self.remittance),
            code: self.code.clone(),
            original_amount: self.original_amount,
            original_currency: copy_text(&self.original_currency),
        }
    }
}

/// An entry of the account.
#[derive(Debug)]
pub struct CamtEntry {
    /// The amount, without regard to its direction.
    pub amount: Amount,
    /// The currency of the amount.
    pub currency: String,
    /// Whether the entry is a credit or a debit.
    pub credit_debit: String,
    /// Whether the entry is booked or pending.
    pub status: String,
    /// The day of the booking.
    pub booking_date: Option<Date>,
    /// The day of the value.
    pub value_date: Option<Date>,
    /// The reference that the bank gave.
    pub acct_svcr_ref: Option<String>,
    /// The bank transaction code.
    pub code: CamtCode,
    /// What the bank says of the entry.
    pub additional_info: Option<String>,
    /// The transactions of the entry.
    pub transactions: Vec<CamtTransaction>,
}

/// An entry of the account. Its texts are sequences of characters.
#[verifier::ext_equal]
pub struct CamtEntryView {
    pub amount: Amount,
    pub currency: Seq<char>,
    pub credit_debit: Seq<char>,
    pub status: Seq<char>,
    pub booking_date: Option<Date>,
    pub value_date: Option<Date>,
    pub acct_svcr_ref: Option<Seq<char>>,
    pub code: CamtCodeView,
    pub additional_info: Option<Seq<char>>,
    pub transactions: Seq<CamtTransactionView>,
}

impl View for CamtEntry {
    type V = CamtEntryView;

    open spec fn view(&self) -> CamtEntryView {
        CamtEntryView {
            amount: self.amount,
            currency: self.currency@,
            credit_debit: self.credit_debit@,
            status: self.status@,
            booking_date: self.booking_date,
            value_date: self.value_date,
            acct_svcr_ref: text_of(self.acct_svcr_ref),
            code: self.code@,
            additional_info: text_of(self.additional_info),
            transactions: transactions_views(self.transactions@),
        }
    }
}

impl Clone for CamtEntry {
    fn clone(&self) -> (result: CamtEntry)
        ensures
            result@ == self@,
    {
        let result = CamtEntry {
            amount: self.amount,
            currency: self.currency.clone(),
            credit_debit: self.credit_debit.clone(),
            status: self.status.clone(),
            booking_date: self.booking_date,
            value_date: self.value_date,
            acct_svcr_ref: copy_text(&self.acct_svcr_ref),
            code: self.code.clone(),
            additional_info: copy_text(&self.additional_info),
            transactions: self.transactions.clone(),
        };
        assert(result@.transactions =~= self@.transactions);
        result
    }
}

/// An account report, or one page of it.
#[derive(Debug)]
pub struct CamtReport {
    /// The account.
    pub account: CamtAccount,
    /// The balances of the account.
    pub balances: Vec<CamtBalance>,
    /// The entries of the account.
    pub entries: Vec<CamtEntry>,
    /// The number of the page.
    pub page_number: Option<u32>,
    /// Whether the page is the last.
    pub last_page: Option<bool>,
}

/// An account report, or one page of it. Its texts are sequences of characters.
#[verifier::ext_equal]
pub struct CamtReportView {
    pub account: CamtAccountView,
    pub balances: Seq<CamtBalanceView>,
    pub entries: Seq<CamtEntryView>,
    pub page_number: Option<u32>,
    pub last_page: Option<bool>,
}

impl View for CamtReport {
    type V = CamtReportView;

    open spec fn view(&self) -> CamtReportView {
        CamtReportView {
            account: self.account@,
            balances: balances_views(self.balances@),
            entries: entries_views(self.entries@),
            page_number: self.page_number,
            last_page: self.last_page,
        }
    }
}

impl CamtReportView {
    /// An account report, or one page of it. Nothing is known of it.
    pub open spec fn empty() -> CamtReportView {
        CamtReportView {
            account: CamtAccountView::empty(),
            balances: Seq::empty(),
            entries: Seq::empty(),
            page_number: None,
            last_page: None,
        }
    }
}

impl Default for CamtReport {
    fn default() -> (result: CamtReport)
        ensures
            result@ == CamtReportView::empty(),
    {
        let result = CamtReport {
            account: CamtAccount::default(),
            balances: Vec::new(),
            entries: Vec::new(),
            page_number: None,
            last_page: None,
        };
        assert(result@ =~= CamtReportView::empty());
        result
    }
}

impl Clone for CamtReport {
    fn clone(&self) -> (result: CamtReport)
        ensures
            result@ == self@,
    {
        let result = CamtReport {
            account: self.account.clone(),
            balances: self.balances.clone(),
            entries: self.entries.clone(),
            page_number: self.page_number,
            last_page: self.last_page,
        };
        assert(result@.balances =~= self@.balances);
        assert(result@.entries =~= self@.entries);
        result
    }
}

/// Whether the calendar has a date, if there is one.
pub open spec fn valid_date(date: Option<Date>) -> bool {
    date is Some ==> date->0.valid()
}

impl CamtBalanceView {
    /// Whether the amount is in range and the calendar has the date.
    pub open spec fn valid(self) -> bool {
        self.amount.valid() && valid_date(self.date)
    }
}

impl CamtTransactionView {
    /// Whether the amounts are in range.
    pub open spec fn valid(self) -> bool {
        self.amount.valid() && (self.original_amount is Some ==> self.original_amount->0.valid())
    }
}

impl CamtEntryView {
    /// Whether the amounts are in range and the calendar has the dates.
    pub open spec fn valid(self) -> bool {
        &&& self.amount.valid()
        &&& valid_date(self.booking_date)
        &&& valid_date(self.value_date)
        &&& forall|i: int|
            0 <= i < self.transactions.len() ==> (#[trigger] self.transactions[i]).valid()
    }
}

impl CamtReportView {
    /// Whether the amounts are in range and the calendar has the dates.
    pub open spec fn valid(self) -> bool {
        &&& forall|i: int| 0 <= i < self.balances.len() ==> (#[trigger] self.balances[i]).valid()
        &&& forall|i: int| 0 <= i < self.entries.len() ==> (#[trigger] self.entries[i]).valid()
    }
}

/// The transactions with their texts as sequences of characters.
pub open spec fn transactions_views(transactions: Seq<CamtTransaction>) -> Seq<
    CamtTransactionView,
> {
    Seq::new(transactions.len(), |i: int| transactions[i]@)
}

/// The balances with their texts as sequences of characters.
pub open spec fn balances_views(balances: Seq<CamtBalance>) -> Seq<CamtBalanceView> {
    Seq::new(balances.len(), |i: int| balances[i]@)
}

/// The entries with their texts as sequences of characters.
pub open spec fn entries_views(entries: Seq<CamtEntry>) -> Seq<CamtEntryView> {
    Seq::new(entries.len(), |i: int| entries[i]@)
}

} // verus!
