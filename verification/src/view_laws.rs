//! Reports, statements and transactions are seen as they are: each field of a value
//! shows in its view.

use crate::camt::{event_views, report_view};
use crate::camt_assign::{balance_view, entry_view, error_of};
use crate::camt_types::{
    CamtAccount, CamtBalance, CamtCode, CamtEntry, CamtParty, CamtReport, CamtTransaction,
};
use crate::error::{FinTSError, FinTSErrorView};
use crate::fields::{field_views, pair_views};
use crate::mt940_parse::transactions_view;
use crate::pending::{
    interim_view, summary_view, transaction_view, InterimSummary, PendingInterim,
};
use crate::statement::{
    statements_view, Information, InformationView, Statement, StatementLine,
};
use crate::summaries::{mismatch_views, SummaryMismatch};
use crate::text::text_of;
use crate::types::Transaction;
use crate::xml::{XmlEvent, XmlEventView};
use vstd::prelude::*;

verus! {

/// The view of an account has its parts.
pub proof fn law_account_is_seen(account: CamtAccount)
    ensures
        account@.iban == text_of(account.iban),
        account@.other_id == text_of(account.other_id),
        account@.currency == text_of(account.currency),
        account@.bic == text_of(account.bic),
{
}

/// The view of a balance has its parts.
pub proof fn law_balance_is_seen(balance: CamtBalance)
    ensures
        balance@.code == balance.code@,
        balance@.currency == balance.currency@,
        balance@.credit_debit == balance.credit_debit@,
        balance@.amount == balance.amount,
        balance@.date == balance.date,
{
}

/// The view of a code has its parts.
pub proof fn law_code_is_seen(code: CamtCode)
    ensures
        code@.domain == text_of(code.domain),
        code@.family == text_of(code.family),
        code@.subfamily == text_of(code.subfamily),
        code@.proprietary == text_of(code.proprietary),
        code@.issuer == text_of(code.issuer),
{
}

/// The view of a party has its parts.
pub proof fn law_party_is_seen(party: CamtParty)
    ensures
        party@.name == text_of(party.name),
        party@.iban == text_of(party.iban),
        party@.bic == text_of(party.bic),
{
}

/// The view of a transaction of a report has its parts.
pub proof fn law_report_transaction_is_seen(transaction: CamtTransaction)
    ensures
        transaction@.amount == transaction.amount,
        transaction@.transaction_at == transaction.transaction_at,
        transaction@.original_amount == transaction.original_amount,
        transaction@.currency == transaction.currency@,
        transaction@.credit_debit == transaction.credit_debit@,
        transaction@.debtor == transaction.debtor@,
        transaction@.creditor == transaction.creditor@,
        transaction@.code == transaction.code@,
        transaction@.end_to_end_id == text_of(transaction.end_to_end_id),
        transaction@.purpose_code == text_of(transaction.purpose_code),
        transaction@.remittance == text_of(transaction.remittance),
        transaction@.original_currency == text_of(transaction.original_currency),
{
}

/// The view of an entry has its parts, and its transactions in their order.
pub proof fn law_entry_is_seen(entry: CamtEntry, at: int)
    ensures
        entry@.amount == entry.amount,
        entry@.booking_date == entry.booking_date,
        entry@.value_date == entry.value_date,
        entry@.currency == entry.currency@,
        entry@.credit_debit == entry.credit_debit@,
        entry@.status == entry.status@,
        entry@.code == entry.code@,
        entry@.acct_svcr_ref == text_of(entry.acct_svcr_ref),
        entry@.additional_info == text_of(entry.additional_info),
        entry@.transactions.len() == entry.transactions@.len(),
        0 <= at < entry.transactions@.len() ==> entry@.transactions[at] == entry.transactions@[at]@,
{
}

/// The view of a report has its parts, and its balances and entries in their order.
pub proof fn law_report_is_seen(report: CamtReport, at: int)
    ensures
        report@.account == report.account@,
        report@.page_number == report.page_number,
        report@.last_page == report.last_page,
        report@.balances.len() == report.balances@.len(),
        0 <= at < report.balances@.len() ==> report@.balances[at] == report.balances@[at]@,
        report@.entries.len() == report.entries@.len(),
        0 <= at < report.entries@.len() ==> report@.entries[at] == report.entries@[at]@,
{
}

/// The view of a transaction has its parts, and its raw fields in their order.
pub proof fn law_transaction_is_seen(transaction: Transaction, at: int)
    ensures
        transaction@.date == transaction.date,
        transaction@.valuta_date == transaction.valuta_date,
        transaction@.amount == transaction.amount,
        transaction@.status == transaction.status,
        transaction@.currency == transaction.currency.code@,
        transaction@.applicant_name == text_of(transaction.applicant_name),
        transaction@.purpose == text_of(transaction.purpose),
        transaction@.posting_text == text_of(transaction.posting_text),
        transaction@.reference == text_of(transaction.reference),
        transaction.applicant_iban is None ==> transaction@.applicant_iban is None,
        transaction.applicant_iban is Some ==> transaction@.applicant_iban == Some(
            transaction.applicant_iban->0.number@,
        ),
        transaction.applicant_bic is None ==> transaction@.applicant_bic is None,
        transaction.applicant_bic is Some ==> transaction@.applicant_bic == Some(
            transaction.applicant_bic->0.code@,
        ),
        transaction@.raw.len() == transaction.raw@.len(),
        0 <= at < transaction.raw@.len() ==> transaction@.raw[at] == (
            transaction.raw@[at].key@,
            text_of(transaction.raw@[at].value),
        ),
{
}

/// The view of a statement line has its parts.
pub proof fn law_statement_line_is_seen(line: StatementLine)
    ensures
        line@.value_date == line.value_date,
        line@.entry_date == line.entry_date,
        line@.mark == line.mark,
        line@.amount == line.amount,
        line@.customer_ref == line.customer_ref@,
        line@.bank_ref == text_of(line.bank_ref),
        line.information is None ==> line@.information is None,
        line.information is Some ==> line@.information == Some(line.information->0@),
{
}

/// The view of what a statement says of a line has its parts.
pub proof fn law_information_is_seen(information: Information)
    ensures
        information is Plain ==> information@ == InformationView::Plain(information->Plain_0@),
        information is Structured ==> information@ is Structured,
        information is Structured ==> information@->applicant_name
            == text_of(information->applicant_name),
        information is Structured ==> information@->applicant_iban
            == text_of(information->applicant_iban),
        information is Structured ==> information@->applicant_bin
            == text_of(information->applicant_bin),
        information is Structured ==> information@->purpose == text_of(information->purpose),
        information is Structured ==> information@->posting_text
            == text_of(information->posting_text),
{
}

/// The view of a statement has its currency, and its lines in their order.
pub proof fn law_statement_is_seen(statement: Statement, at: int)
    ensures
        statement@.currency == statement.currency@,
        statement@.lines.len() == statement.lines@.len(),
        0 <= at < statement.lines@.len() ==> statement@.lines[at] == statement.lines@[at]@,
{
}

/// The view of a summary has its parts.
pub proof fn law_summary_is_seen(summary: InterimSummary)
    ensures
        summary@.debit == summary.debit,
        summary@.count == summary.count,
        summary@.amount == summary.amount,
        summary@.currency == summary.currency@,
{
}

/// The view of an interim report has its transactions and its summaries in their order.
pub proof fn law_interim_is_seen(interim: PendingInterim, at: int)
    ensures
        interim@.transactions.len() == interim.transactions@.len(),
        0 <= at < interim.transactions@.len() ==> interim@.transactions[at]
            == interim.transactions@[at]@,
        interim@.summaries.len() == interim.summaries@.len(),
        0 <= at < interim.summaries@.len() ==> interim@.summaries[at] == interim.summaries@[at]@,
{
}

/// The view of mismatches has the parts of each, in their order.
pub proof fn law_mismatches_are_seen(mismatches: Seq<SummaryMismatch>, at: int)
    requires
        0 <= at < mismatches.len(),
    ensures
        mismatch_views(mismatches).len() == mismatches.len(),
        ({
            let found = mismatches[at];
            let view = mismatch_views(mismatches)[at];
            &&& view.debit == found.debit
            &&& view.summary_count == found.summary_count
            &&& view.parsed_count == found.parsed_count
            &&& view.summary_amount == found.summary_amount
            &&& view.parsed_amount == found.parsed_amount
            &&& view.currency == found.currency@
        }),
{
}

/// The view of an error has its kind and its message.
pub proof fn law_errors_are_seen(message: String)
    ensures
        FinTSError::Mt940(message)@ == FinTSErrorView::Mt940(message@),
        FinTSError::Dialog(message)@ == FinTSErrorView::Dialog(message@),
{
}

/// The view of events has the parts of each, in their order.
pub proof fn law_events_are_seen(events: Seq<XmlEvent>, at: int)
    requires
        0 <= at < events.len(),
    ensures
        event_views(events).len() == events.len(),
        match events[at] {
            XmlEvent::Start(name, attributes) => {
                let view = event_views(events)[at];
                &&& view is Start
                &&& view->Start_0 == name@
                &&& view->Start_1.len() == attributes@.len()
                &&& forall|i: int|
                    0 <= i < attributes@.len() ==> (#[trigger] view->Start_1[i] is Some
                        <==> attributes@[i] is Some)
                &&& forall|i: int|
                    0 <= i < attributes@.len() && attributes@[i] is Some ==> match (
                        #[trigger] view->Start_1[i],
                        attributes@[i],
                    ) {
                        (Some((left, right)), Some((key, value))) => left == key@ && right
                            == value@,
                        _ => false,
                    }
            },
            XmlEvent::End(name) => event_views(events)[at] == XmlEventView::End(name@),
            XmlEvent::Text(text) => event_views(events)[at] == XmlEventView::Text(text@),
            XmlEvent::CData(bytes) => event_views(events)[at] == XmlEventView::CData(bytes@),
            XmlEvent::Other => event_views(events)[at] is Other,
            XmlEvent::Eof => event_views(events)[at] is Eof,
            XmlEvent::Failed(error) => event_views(events)[at] == XmlEventView::Failed(error@),
        },
{
}

/// The view of a result is that of its value or of its error.
pub proof fn law_results_are_seen(
    report: Result<CamtReport, FinTSError>,
    transactions: Result<Vec<Transaction>, FinTSError>,
    interim: Result<PendingInterim, FinTSError>,
    statements: Result<Vec<Statement>, String>,
    transaction: Option<Transaction>,
    summary: Option<InterimSummary>,
    at: int,
)
    ensures
        report is Ok ==> report_view(report) is Ok && report_view(report)->Ok_0 == report->Ok_0@,
        report is Err ==> report_view(report) is Err && report_view(report)->Err_0
            == report->Err_0@,
        transactions is Ok ==> transactions_view(transactions) is Ok && transactions_view(
            transactions,
        )->Ok_0.len() == transactions->Ok_0@.len(),
        transactions is Ok && 0 <= at < transactions->Ok_0@.len() ==> transactions_view(
            transactions,
        )->Ok_0[at] == transactions->Ok_0@[at]@,
        transactions is Err ==> transactions_view(transactions) is Err && transactions_view(
            transactions,
        )->Err_0 == transactions->Err_0@,
        interim is Ok ==> interim_view(interim) is Ok && interim_view(interim)->Ok_0
            == interim->Ok_0@,
        interim is Err ==> interim_view(interim) is Err && interim_view(interim)->Err_0
            == interim->Err_0@,
        statements is Ok ==> statements_view(statements) is Ok && statements_view(
            statements,
        )->Ok_0.len() == statements->Ok_0@.len(),
        statements is Ok && 0 <= at < statements->Ok_0@.len() ==> statements_view(
            statements,
        )->Ok_0[at] == statements->Ok_0@[at]@,
        statements is Err ==> statements_view(statements) is Err && statements_view(
            statements,
        )->Err_0 == statements->Err_0@,
        transaction is None <==> transaction_view(transaction) is None,
        transaction is Some ==> transaction_view(transaction) == Some(transaction->0@),
        summary is None <==> summary_view(summary) is None,
        summary is Some ==> summary_view(summary) == Some(summary->0@),
{
}

/// The view of a step is its error, and that of a part in hand is the view of the part.
pub proof fn law_steps_are_seen(
    result: Result<(), FinTSError>,
    balance: Option<CamtBalance>,
    entry: Option<CamtEntry>,
    transaction: Option<CamtTransaction>,
)
    ensures
        result is Ok ==> error_of(result) is None,
        result is Err ==> error_of(result) == Some(result->Err_0@),
        balance is None ==> balance_view(balance) is None,
        balance is Some ==> balance_view(balance) == Some(balance->0@),
        entry is None ==> entry_view(entry) is None,
        entry is Some ==> entry_view(entry) == Some(entry->0@),
        transaction is None ==> crate::camt_assign::transaction_view(transaction) is None,
        transaction is Some ==> crate::camt_assign::transaction_view(transaction) == Some(
            transaction->0@,
        ),
{
}

/// The view of fields has the tag and the value of each, in their order.
pub proof fn law_fields_are_seen(fields: Vec<(String, String)>, at: int)
    requires
        0 <= at < fields@.len(),
    ensures
        pair_views(fields@).len() == fields@.len(),
        pair_views(fields@)[at] == (fields@[at].0@, fields@[at].1@),
        field_views(Some(fields)) == Some(pair_views(fields@)),
        field_views(None) is None,
{
}

} // verus!
