//! Reads CAMT account reports.

pub use crate::camt_types::{
    CamtAccount, CamtBalance, CamtCode, CamtEntry, CamtParty, CamtReport, CamtTransaction,
};

use crate::amount::Amount;
use crate::camt_assign::{
    assign_text, balance_view, camt_error, entry_view, error_of, or_empty, parse_error,
    text_assigned, transaction_view, Held,
};
use crate::camt_types::{
    CamtAccountView, CamtBalanceView, CamtCodeView, CamtEntryView, CamtPartyView, CamtReportView,
    CamtTransactionView,
};
use crate::error::{FinTSError, FinTSErrorView};
use crate::text::{
    characters, from_utf8, from_utf8_lossy, lossy_text, same_text, string_between, text_of, texts,
    utf8_text,
};
use crate::xml::{
    attribute_views, complete, countable, events_left, is_countable, next_event, open_reader,
    xml_events, XmlAttribute, XmlEvent, XmlEventView,
};
use vstd::prelude::*;

verus! {

/// What follows the last colon of a text, or the whole of it.
pub open spec fn after_last_colon(text: Seq<char>) -> Seq<char>
    decreases text.len(),
{
    if text.len() == 0 || text.last() == ':' {
        Seq::empty()
    } else {
        after_last_colon(text.drop_last()).push(text.last())
    }
}

/// The name of an element or attribute without its namespace prefix. A name
/// that is not valid UTF-8 has none.
pub open spec fn local_name_of(name: Seq<u8>) -> Seq<char> {
    match utf8_text(name) {
        Some(text) => after_last_colon(text),
        None => Seq::empty(),
    }
}

/// A suffix without a colon, behind a colon or the start, is what follows the last colon.
proof fn lemma_after_last_colon(text: Seq<char>, start: int)
    requires
        0 <= start <= text.len(),
        forall|i: int| start <= i < text.len() ==> text[i] != ':',
        start > 0 ==> text[start - 1] == ':',
    ensures
        after_last_colon(text) == text.skip(start),
    decreases text.len(),
{
    if text.len() == 0 || start == text.len() {
        assert(text.skip(start) =~= Seq::empty());
    } else {
        lemma_after_last_colon(text.drop_last(), start);
        assert(text.drop_last().skip(start).push(text.last()) =~= text.skip(start));
    }
}

/// The name of an element or attribute without its namespace prefix.
pub fn local_name(name: &[u8]) -> (result: String)
    ensures
        result@ == local_name_of(name@),
{
    match from_utf8(name) {
        Some(text) => {
            let whole = characters(text.as_str());
            let mut start: usize = whole.len();
            while start > 0 && whole[start - 1] != ':'
                invariant
                    start <= whole@.len(),
                    forall|i: int| start <= i < whole@.len() ==> whole@[i] != ':',
                decreases start,
            {
                start = start - 1;
            }
            proof {
                lemma_after_last_colon(whole@, start as int);
            }
            let result = string_between(&whole, start, whole.len());
            assert(result@ =~= whole@.skip(start as int));
            result
        },
        None => String::new(),
    }
}

/// The value of the first attribute with a local name. One that is not valid
/// UTF-8 is none.
pub open spec fn attribute_of(
    attributes: Seq<Option<(Seq<u8>, Seq<u8>)>>,
    name: Seq<char>,
) -> Option<Seq<char>>
    decreases attributes.len(),
{
    if attributes.len() == 0 {
        None
    } else {
        match attributes[0] {
            Some((key, value)) => if local_name_of(key) == name {
                utf8_text(value)
            } else {
                attribute_of(attributes.drop_first(), name)
            },
            None => attribute_of(attributes.drop_first(), name),
        }
    }
}

/// The value of the first attribute with a local name.
pub fn attribute_value(attributes: &[XmlAttribute], name: &str) -> (result: Option<String>)
    ensures
        text_of(result) == attribute_of(attribute_views(attributes@), name@),
{
    let ghost views = attribute_views(attributes@);
    let mut at: usize = 0;
    assert(views.skip(0) =~= views);
    while at < attributes.len()
        invariant
            at <= attributes@.len(),
            views == attribute_views(attributes@),
            attribute_of(views, name@) == attribute_of(views.skip(at as int), name@),
        decreases attributes@.len() - at,
    {
        assert(views.skip(at as int).drop_first() =~= views.skip(at + 1));
        if let Some((key, value)) = &attributes[at] {
            if same_text(local_name(key.as_slice()).as_str(), name) {
                return from_utf8(value.as_slice());
            }
        }
        at = at + 1;
    }
    None
}

/// A balance of which nothing is known yet.
pub open spec fn new_balance() -> CamtBalanceView {
    CamtBalanceView {
        code: Seq::empty(),
        amount: Amount::nothing(),
        currency: Seq::empty(),
        credit_debit: Seq::empty(),
        date: None,
    }
}

/// An entry of which nothing is known yet but whether pending entries were asked for.
pub open spec fn new_entry(pending: bool) -> CamtEntryView {
    CamtEntryView {
        amount: Amount::nothing(),
        currency: Seq::empty(),
        credit_debit: Seq::empty(),
        status: if pending {
            "PDNG"@
        } else {
            "BOOK"@
        },
        booking_date: None,
        value_date: None,
        acct_svcr_ref: None,
        code: CamtCodeView::empty(),
        additional_info: None,
        transactions: Seq::empty(),
    }
}

/// A transaction of which no more is known than its amount and code.
pub open spec fn bare_transaction(
    amount: Amount,
    currency: Seq<char>,
    credit_debit: Seq<char>,
    code: CamtCodeView,
) -> CamtTransactionView {
    CamtTransactionView {
        amount,
        currency,
        credit_debit,
        end_to_end_id: None,
        transaction_at: None,
        debtor: CamtPartyView::empty(),
        creditor: CamtPartyView::empty(),
        purpose_code: None,
        remittance: None,
        code,
        original_amount: None,
        original_currency: None,
    }
}

/// A transaction of which nothing is known yet.
pub open spec fn new_transaction() -> CamtTransactionView {
    bare_transaction(Amount::nothing(), Seq::empty(), Seq::empty(), CamtCodeView::empty())
}

/// A report that is being read: the names of the open elements, the parts that
/// are complete and those in hand.
pub struct ReportBuilder {
    pending: bool,
    path: Vec<String>,
    report: CamtReport,
    balance: Option<CamtBalance>,
    entry: Option<CamtEntry>,
    transaction: Option<CamtTransaction>,
    amount_currency: Option<String>,
}

/// A report that is being read, with its texts as sequences of characters.
#[verifier::ext_equal]
pub struct ReportBuilderView {
    pub pending: bool,
    pub path: Seq<Seq<char>>,
    pub held: Held,
    pub amount_currency: Option<Seq<char>>,
}

impl View for ReportBuilder {
    type V = ReportBuilderView;

    closed spec fn view(&self) -> ReportBuilderView {
        ReportBuilderView {
            pending: self.pending,
            path: texts(self.path@),
            held: Held {
                report: self.report@,
                balance: balance_view(self.balance),
                entry: entry_view(self.entry),
                transaction: transaction_view(self.transaction),
            },
            amount_currency: text_of(self.amount_currency),
        }
    }
}

impl ReportBuilderView {
    /// A report of which nothing has been read.
    pub open spec fn initial(pending: bool) -> ReportBuilderView {
        ReportBuilderView {
            pending,
            path: Seq::empty(),
            held: Held {
                report: CamtReportView::empty(),
                balance: None,
                entry: None,
                transaction: None,
            },
            amount_currency: None,
        }
    }

    /// The report after a start tag.
    pub open spec fn started(
        self,
        name: Seq<char>,
        attributes: Seq<Option<(Seq<u8>, Seq<u8>)>>,
    ) -> ReportBuilderView {
        let opened = ReportBuilderView { path: self.path.push(name), ..self };
        if name == "Bal"@ {
            ReportBuilderView { held: Held { balance: Some(new_balance()), ..self.held }, ..opened }
        } else if name == "Ntry"@ {
            ReportBuilderView {
                held: Held { entry: Some(new_entry(self.pending)), ..self.held },
                ..opened
            }
        } else if name == "TxDtls"@ {
            ReportBuilderView {
                held: Held { transaction: Some(new_transaction()), ..self.held },
                ..opened
            }
        } else if name == "Amt"@ {
            ReportBuilderView { amount_currency: attribute_of(attributes, "Ccy"@), ..opened }
        } else {
            opened
        }
    }

    /// The report after an end tag: the part in hand that it completes goes
    /// where it belongs.
    pub open spec fn ended(self, name: Seq<char>) -> ReportBuilderView {
        let closed = ReportBuilderView {
            path: if self.path.len() > 0 {
                self.path.drop_last()
            } else {
                self.path
            },
            ..self
        };
        let held = self.held;
        let report = held.report;
        let held = if name == "TxDtls"@ {
            match (held.entry, held.transaction) {
                (Some(entry), Some(transaction)) => Held {
                    entry: Some(
                        CamtEntryView {
                            transactions: entry.transactions.push(transaction),
                            ..entry
                        },
                    ),
                    transaction: None,
                    ..held
                },
                _ => Held { transaction: None, ..held },
            }
        } else if name == "Ntry"@ {
            match held.entry {
                Some(entry) => Held {
                    report: CamtReportView { entries: report.entries.push(entry), ..report },
                    entry: None,
                    ..held
                },
                None => held,
            }
        } else if name == "Bal"@ {
            match held.balance {
                Some(balance) => Held {
                    report: CamtReportView { balances: report.balances.push(balance), ..report },
                    balance: None,
                    ..held
                },
                None => held,
            }
        } else {
            held
        };
        ReportBuilderView { held, ..closed }
    }

    /// The report after a text, and the error that comes of it. The currency of
    /// an amount holds for the first text behind its start tag.
    pub open spec fn texted(self, text: Seq<char>) -> (ReportBuilderView, Option<FinTSErrorView>) {
        let (held, error) = text_assigned(self.path, text, self.amount_currency, self.held);
        match error {
            Some(error) => (ReportBuilderView { held, ..self }, Some(error)),
            None => (ReportBuilderView { held, amount_currency: None, ..self }, None),
        }
    }

    /// The report after an event, and the error that comes of it.
    pub open spec fn applied(self, event: XmlEventView) -> (
        ReportBuilderView,
        Option<FinTSErrorView>,
    ) {
        match event {
            XmlEventView::Start(name, attributes) => (
                self.started(local_name_of(name), attributes),
                None,
            ),
            XmlEventView::End(name) => (self.ended(local_name_of(name)), None),
            XmlEventView::Text(text) => self.texted(text),
            XmlEventView::CData(bytes) => self.texted(lossy_text(bytes)),
            XmlEventView::Failed(error) => (self, Some(camt_error(error))),
            XmlEventView::Other => (self, None),
            XmlEventView::Eof => (self, None),
        }
    }

    /// The report after the events up to the end of the document, or the first
    /// error that comes of one.
    pub open spec fn after(self, events: Seq<XmlEventView>) -> Result<
        ReportBuilderView,
        FinTSErrorView,
    >
        decreases events.len(),
    {
        if events.len() == 0 || events[0] is Eof {
            Ok(self)
        } else {
            match self.applied(events[0]) {
                (next, None) => next.after(events.drop_first()),
                (_, Some(error)) => Err(error),
            }
        }
    }
}

impl ReportBuilder {
    /// A report of which nothing has been read.
    pub fn new(pending: bool) -> (result: ReportBuilder)
        ensures
            result@ == ReportBuilderView::initial(pending),
            result@.held.valid(),
    {
        let result = ReportBuilder {
            pending,
            path: Vec::new(),
            report: CamtReport::default(),
            balance: None,
            entry: None,
            transaction: None,
            amount_currency: None,
        };
        assert(result@ =~= ReportBuilderView::initial(pending));
        result
    }

    /// Takes a start tag.
    fn start(&mut self, name: &[u8], attributes: &[XmlAttribute])
        ensures
            final(self)@ == old(self)@.started(local_name_of(name@), attribute_views(attributes@)),
            old(self)@.held.valid() ==> final(self)@.held.valid(),
    {
        let name = local_name(name);
        let ghost before = self@;
        self.path.push(name.clone());
        assert(texts(self.path@) =~= before.path.push(name@));
        let name = name.as_str();
        if same_text(name, "Bal") {
            self.balance = Some(
                CamtBalance {
                    code: String::new(),
                    amount: Amount::zero(),
                    currency: String::new(),
                    credit_debit: String::new(),
                    date: None,
                },
            );
        } else if same_text(name, "Ntry") {
            self.entry = Some(
                CamtEntry {
                    amount: Amount::zero(),
                    currency: String::new(),
                    credit_debit: String::new(),
                    status: (if self.pending {
                        "PDNG"
                    } else {
                        "BOOK"
                    }).to_owned(),
                    booking_date: None,
                    value_date: None,
                    acct_svcr_ref: None,
                    code: CamtCode::default(),
                    additional_info: None,
                    transactions: Vec::new(),
                },
            );
            assert(self@.held.entry->0 =~= new_entry(before.pending));
        } else if same_text(name, "TxDtls") {
            self.transaction = Some(
                CamtTransaction {
                    amount: Amount::zero(),
                    currency: String::new(),
                    credit_debit: String::new(),
                    end_to_end_id: None,
                    transaction_at: None,
                    debtor: CamtParty::default(),
                    creditor: CamtParty::default(),
                    purpose_code: None,
                    remittance: None,
                    code: CamtCode::default(),
                    original_amount: None,
                    original_currency: None,
                },
            );
        } else if same_text(name, "Amt") {
            self.amount_currency = attribute_value(attributes, "Ccy");
        }
    }

    /// Takes an end tag.
    fn end(&mut self, name: &[u8])
        ensures
            final(self)@ == old(self)@.ended(local_name_of(name@)),
            old(self)@.held.valid() ==> final(self)@.held.valid(),
    {
        let name = local_name(name);
        let name = name.as_str();
        let ghost before = self@;
        if same_text(name, "TxDtls") {
            let transaction = self.transaction.take();
            if let Some(entry) = self.entry.as_mut() {
                if let Some(transaction) = transaction {
                    let ghost transactions = entry@.transactions;
                    entry.transactions.push(transaction);
                    assert(entry@.transactions =~= transactions.push(transaction@));
                }
            }
        } else if same_text(name, "Ntry") {
            if let Some(entry) = self.entry.take() {
                self.report.entries.push(entry);
                assert(self.report@.entries =~= before.held.report.entries.push(entry@));
            }
        } else if same_text(name, "Bal") {
            if let Some(balance) = self.balance.take() {
                self.report.balances.push(balance);
                assert(self.report@.balances =~= before.held.report.balances.push(balance@));
            }
        }
        let popped = self.path.pop();
        assert(texts(self.path@) =~= before.ended(name@).path);
    }

    /// Takes a text.
    fn text(&mut self, text: &str) -> (result: Result<(), FinTSError>)
        ensures
            final(self)@ == old(self)@.texted(text@).0,
            error_of(result) == old(self)@.texted(text@).1,
            old(self)@.held.valid() ==> final(self)@.held.valid(),
    {
        let currency = match &self.amount_currency {
            Some(currency) => Some(currency.as_str()),
            None => None,
        };
        match assign_text(
            self.path.as_slice(),
            text,
            currency,
            &mut self.report,
            &mut self.balance,
            &mut self.entry,
            &mut self.transaction,
        ) {
            Ok(_) => {
                self.amount_currency = None;
                Ok(())
            },
            Err(error) => Err(error),
        }
    }

    /// Takes an event.
    pub fn apply(&mut self, event: &XmlEvent) -> (result: Result<(), FinTSError>)
        ensures
            final(self)@ == old(self)@.applied(event@).0,
            error_of(result) == old(self)@.applied(event@).1,
            old(self)@.held.valid() ==> final(self)@.held.valid(),
    {
        match event {
            XmlEvent::Start(name, attributes) => {
                self.start(name.as_slice(), attributes.as_slice());
                Ok(())
            },
            XmlEvent::End(name) => {
                self.end(name.as_slice());
                Ok(())
            },
            XmlEvent::Text(text) => self.text(text.as_str()),
            XmlEvent::CData(bytes) => {
                let text = from_utf8_lossy(bytes.as_slice());
                self.text(text.as_str())
            },
            XmlEvent::Failed(error) => Err(parse_error(error.clone())),
            XmlEvent::Other => Ok(()),
            XmlEvent::Eof => Ok(()),
        }
    }
}

/// A transaction with what its entry says where it says nothing itself: the
/// currency, and the code where it has no domain.
pub open spec fn transaction_normalized(
    transaction: CamtTransactionView,
    currency: Seq<char>,
    code: CamtCodeView,
) -> CamtTransactionView {
    CamtTransactionView {
        currency: if transaction.currency.len() == 0 {
            currency
        } else {
            transaction.currency
        },
        code: if transaction.code.domain is None {
            code
        } else {
            transaction.code
        },
        ..transaction
    }
}

/// The transactions of an entry, or the one that its own amount stands for
/// where it lists none.
pub open spec fn transactions_of(entry: CamtEntryView, currency: Seq<char>) -> Seq<
    CamtTransactionView,
> {
    if entry.transactions.len() == 0 {
        seq![bare_transaction(entry.amount, currency, entry.credit_debit, entry.code)]
    } else {
        entry.transactions
    }
}

/// An entry with the currency of the account where it has none itself, and with
/// at least one transaction.
pub open spec fn entry_normalized(entry: CamtEntryView, currency: Seq<char>) -> CamtEntryView {
    let currency = if entry.currency.len() == 0 {
        currency
    } else {
        entry.currency
    };
    let transactions = transactions_of(entry, currency);
    CamtEntryView {
        currency,
        transactions: Seq::new(
            transactions.len(),
            |i: int| transaction_normalized(transactions[i], currency, entry.code),
        ),
        ..entry
    }
}

/// A balance with the currency of the account where it has none itself.
pub open spec fn balance_normalized(
    balance: CamtBalanceView,
    currency: Seq<char>,
) -> CamtBalanceView {
    CamtBalanceView {
        currency: if balance.currency.len() == 0 {
            currency
        } else {
            balance.currency
        },
        ..balance
    }
}

/// A report with its entries and balances completed by what the account and the
/// entries say.
pub open spec fn normalized(report: CamtReportView) -> CamtReportView {
    let currency = or_empty(report.account.currency);
    CamtReportView {
        entries: Seq::new(
            report.entries.len(),
            |i: int| entry_normalized(report.entries[i], currency),
        ),
        balances: Seq::new(
            report.balances.len(),
            |i: int| balance_normalized(report.balances[i], currency),
        ),
        ..report
    }
}

/// Completes a transaction by what its entry says.
fn normalize_transaction(transaction: &mut CamtTransaction, currency: &str, code: &CamtCode)
    ensures
        final(transaction)@ == transaction_normalized(old(transaction)@, currency@, code@),
{
    if transaction.currency.as_str().is_empty() {
        transaction.currency = currency.to_owned();
    }
    if transaction.code.domain.is_none() {
        transaction.code = code.clone();
    }
}

/// Completes an entry by what the account says.
fn normalize_entry(entry: &mut CamtEntry, currency: &str)
    ensures
        final(entry)@ == entry_normalized(old(entry)@, currency@),
{
    let ghost before = entry@;
    if entry.currency.as_str().is_empty() {
        entry.currency = currency.to_owned();
    }
    if entry.transactions.len() == 0 {
        entry.transactions.push(
            CamtTransaction {
                amount: entry.amount,
                currency: entry.currency.clone(),
                credit_debit: entry.credit_debit.clone(),
                end_to_end_id: None,
                transaction_at: None,
                debtor: CamtParty::default(),
                creditor: CamtParty::default(),
                purpose_code: None,
                remittance: None,
                code: entry.code.clone(),
                original_amount: None,
                original_currency: None,
            },
        );
    }
    let ghost listed = transactions_of(before, entry.currency@);
    assert(entry@.transactions =~= listed);
    let currency = entry.currency.clone();
    let code = entry.code.clone();
    let count: usize = entry.transactions.len();
    let ghost held = entry@;
    let mut at: usize = 0;
    while at < count
        invariant
            at <= count,
            count == listed.len(),
            entry@.transactions.len() == count,
            entry@ == (CamtEntryView { transactions: entry@.transactions, ..held }),
            forall|i: int|
                0 <= i < at ==> #[trigger] entry@.transactions[i] == transaction_normalized(
                    listed[i],
                    currency@,
                    code@,
                ),
            forall|i: int| at <= i < count ==> #[trigger] entry@.transactions[i] == listed[i],
        decreases count - at,
    {
        let ghost previous = entry@.transactions;
        normalize_transaction(&mut entry.transactions[at], currency.as_str(), &code);
        assert(entry@.transactions =~= previous.update(
            at as int,
            transaction_normalized(previous[at as int], currency@, code@),
        ));
        at = at + 1;
    }
    assert(entry@ =~= entry_normalized(before, currency@));
}

/// Completes the entries and balances of a report by what the account and the
/// entries say.
pub fn normalize_report(report: &mut CamtReport)
    ensures
        final(report)@ == normalized(old(report)@),
        old(report)@.valid() ==> final(report)@.valid(),
{
    let ghost before = report@;
    let currency = match &report.account.currency {
        Some(currency) => currency.clone(),
        None => String::new(),
    };
    let entries: usize = report.entries.len();
    let mut at: usize = 0;
    while at < entries
        invariant
            at <= entries,
            entries == before.entries.len(),
            currency@ == or_empty(before.account.currency),
            report@.entries.len() == entries,
            report@ == (CamtReportView { entries: report@.entries, ..before }),
            forall|i: int|
                0 <= i < at ==> #[trigger] report@.entries[i] == entry_normalized(
                    before.entries[i],
                    currency@,
                ),
            forall|i: int|
                at <= i < entries ==> #[trigger] report@.entries[i] == before.entries[i],
        decreases entries - at,
    {
        let ghost previous = report@.entries;
        normalize_entry(&mut report.entries[at], currency.as_str());
        assert(report@.entries =~= previous.update(
            at as int,
            entry_normalized(previous[at as int], currency@),
        ));
        at = at + 1;
    }
    let ghost middle = report@;
    assert(middle.entries =~= normalized(before).entries);
    let balances: usize = report.balances.len();
    at = 0;
    while at < balances
        invariant
            at <= balances,
            balances == middle.balances.len(),
            currency@ == or_empty(middle.account.currency),
            report@.balances.len() == balances,
            report@ == (CamtReportView { balances: report@.balances, ..middle }),
            forall|i: int|
                0 <= i < at ==> #[trigger] report@.balances[i] == balance_normalized(
                    middle.balances[i],
                    currency@,
                ),
            forall|i: int|
                at <= i < balances ==> #[trigger] report@.balances[i] == middle.balances[i],
        decreases balances - at,
    {
        let ghost previous = report@.balances;
        if report.balances[at].currency.as_str().is_empty() {
            report.balances[at].currency = currency.clone();
        }
        assert(report@.balances =~= previous.update(
            at as int,
            balance_normalized(previous[at as int], currency@),
        ));
        at = at + 1;
    }
    assert(report@.balances =~= normalized(before).balances);
}

/// A report whose account has a currency where one is known: its own, else that
/// of the first balance, else that of the first entry.
pub open spec fn with_currency(report: CamtReportView) -> CamtReportView {
    let currency = if report.account.currency is Some {
        report.account.currency
    } else if report.balances.len() > 0 {
        Some(report.balances[0].currency)
    } else if report.entries.len() > 0 {
        Some(report.entries[0].currency)
    } else {
        None
    };
    CamtReportView { account: CamtAccountView { currency, ..report.account }, ..report }
}

/// The report that the events of a document make, or the first error that comes of one.
pub open spec fn report_of(events: Seq<XmlEventView>, pending: bool) -> Result<
    CamtReportView,
    FinTSErrorView,
> {
    match ReportBuilderView::initial(pending).after(events) {
        Ok(builder) => Ok(normalized(with_currency(builder.held.report))),
        Err(error) => Err(error),
    }
}

/// A report or an error, with its texts as sequences of characters.
pub open spec fn report_view(result: Result<CamtReport, FinTSError>) -> Result<
    CamtReportView,
    FinTSErrorView,
> {
    match result {
        Ok(report) => Ok(report@),
        Err(error) => Err(error@),
    }
}

impl ReportBuilder {
    /// Completes the report.
    pub fn finish(self) -> (result: CamtReport)
        ensures
            result@ == normalized(with_currency(self@.held.report)),
            self@.held.valid() ==> result@.valid(),
    {
        let mut report = self.report;
        if report.account.currency.is_none() {
            if report.balances.len() > 0 {
                report.account.currency = Some(report.balances[0].currency.clone());
            } else if report.entries.len() > 0 {
                report.account.currency = Some(report.entries[0].currency.clone());
            }
        }
        assert(report@ =~= with_currency(self@.held.report));
        normalize_report(&mut report);
        report
    }
}

/// Reads a report from the events of a document.
pub fn report_from_events(events: &[XmlEvent], pending: bool) -> (result: Result<
    CamtReport,
    FinTSError,
>)
    ensures
        report_view(result) == report_of(event_views(events@), pending),
        result is Ok ==> result->Ok_0@.valid(),
{
    let ghost views = event_views(events@);
    let mut builder = ReportBuilder::new(pending);
    let mut at: usize = 0;
    assert(views.skip(0) =~= views);
    while at < events.len()
        invariant
            at <= events@.len(),
            views == event_views(events@),
            builder@.held.valid(),
            ReportBuilderView::initial(pending).after(views) == builder@.after(
                views.skip(at as int),
            ),
        decreases events@.len() - at,
    {
        assert(views.skip(at as int).drop_first() =~= views.skip(at + 1));
        if let XmlEvent::Eof = &events[at] {
            return Ok(builder.finish());
        }
        match builder.apply(&events[at]) {
            Ok(_) => {},
            Err(error) => return Err(error),
        }
        at = at + 1;
    }
    Ok(builder.finish())
}

/// The events with their names and texts as sequences.
pub open spec fn event_views(events: Seq<XmlEvent>) -> Seq<XmlEventView> {
    Seq::new(events.len(), |i: int| events[i]@)
}

/// Reads an account report. Entries that give no status are pending where
/// `pending` says so, else booked. Each amount is in range, and the calendar has
/// each date.
pub fn parse_report(xml: &[u8], pending: bool) -> (result: Result<CamtReport, FinTSError>)
    requires
        countable(xml@),
    ensures
        report_view(result) == report_of(xml_events(xml@), pending),
        result is Ok ==> result->Ok_0@.valid(),
{
    let mut reader = open_reader(xml);
    let mut builder = ReportBuilder::new(pending);
    loop
        invariant
            complete(events_left(reader)),
            builder@.held.valid(),
            ReportBuilderView::initial(pending).after(xml_events(xml@)) == builder@.after(
                events_left(reader),
            ),
        decreases events_left(reader).len(),
    {
        let ghost left = events_left(reader);
        let event = next_event(&mut reader);
        assert(left.skip(1) =~= left.drop_first());
        if let XmlEvent::Eof = &event {
            return Ok(builder.finish());
        }
        match builder.apply(&event) {
            Ok(_) => {},
            Err(error) => return Err(error),
        }
        assert(!left[0].is_last());
        assert(left.skip(1).last() == left.last());
        assert forall|i: int| 0 <= i < left.skip(1).len() - 1 implies !(#[trigger] left.skip(
            1,
        )[i]).is_last() by {
            assert(left.skip(1)[i] == left[i + 1]);
        }
    }
}

/// Reads an account report, where the tags that are open in a document type can be
/// counted.
pub fn try_parse_report(xml: &[u8], pending: bool) -> (result: Option<
    Result<CamtReport, FinTSError>,
>)
    ensures
        result is Some <==> countable(xml@),
        result is Some ==> report_view(result->0) == report_of(xml_events(xml@), pending),
        result is Some && result->0 is Ok ==> result->0->Ok_0@.valid(),
{
    if !is_countable(xml) {
        return None;
    }
    Some(parse_report(xml, pending))
}

} // verus!
