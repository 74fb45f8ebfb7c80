//! What the tags of an account report do, and what becomes of its entries.

use crate::amount::Amount;
use crate::camt::{
    attribute_of, local_name_of, normalized, report_of, with_currency, ReportBuilderView,
};
use crate::camt_laws::{
    law_complete_parts_stay, law_events_in_parts, law_local_name_behind_prefix,
};
use crate::camt_text_laws::{
    law_text_and_account, law_text_and_entry, law_text_and_transaction,
};
use crate::camt_types::{CamtAccountView, CamtReportView, CamtTransactionView};
use crate::error::FinTSErrorView;
use crate::text::{lossy_text, utf8_text};
use crate::xml::XmlEventView;
use vstd::prelude::*;

verus! {

/// The names of the elements that hold the parts of a report are different names.
proof fn lemma_part_names()
    ensures
        "TxDtls"@ != "Ntry"@,
        "TxDtls"@ != "Bal"@,
        "TxDtls"@ != "Amt"@,
        "Ntry"@ != "Bal"@,
        "Ntry"@ != "Amt"@,
        "Bal"@ != "Amt"@,
{
    reveal_strlit("TxDtls");
    reveal_strlit("Ntry");
    reveal_strlit("Bal");
    reveal_strlit("Amt");
    assert("TxDtls"@[0] == 'T' && "Ntry"@[0] == 'N' && "Bal"@[0] == 'B' && "Amt"@[0] == 'A');
}

/// The local name of a name in UTF-8 goes by its characters, and a name in no UTF-8
/// has none.
pub proof fn law_local_name_in_utf8(name: Seq<u8>, other: Seq<u8>)
    ensures
        utf8_text(name) is None ==> local_name_of(name).len() == 0,
        utf8_text(name) is Some && !utf8_text(name)->0.contains(':') ==> local_name_of(name)
            == utf8_text(name)->0,
        utf8_text(name) == utf8_text(other) ==> local_name_of(name) == local_name_of(other),
{
    if let Some(text) = utf8_text(name) {
        if !text.contains(':') {
            law_local_name_behind_prefix(Seq::empty(), text);
        }
    }
}

/// Whether an attribute is well formed and has a local name.
pub open spec fn is_named(attribute: Option<(Seq<u8>, Seq<u8>)>, name: Seq<char>) -> bool {
    match attribute {
        Some((key, _)) => local_name_of(key) == name,
        None => false,
    }
}

/// An attribute is the first that has its local name, and its value is in UTF-8. Where
/// none has the name there is no value.
pub proof fn law_first_attribute(
    attributes: Seq<Option<(Seq<u8>, Seq<u8>)>>,
    name: Seq<char>,
    at: int,
)
    requires
        0 <= at <= attributes.len(),
        forall|i: int| 0 <= i < at ==> !is_named(#[trigger] attributes[i], name),
        at < attributes.len() ==> is_named(attributes[at], name),
    ensures
        at < attributes.len() ==> (attributes[at] matches Some((_, value)) && attribute_of(
            attributes,
            name,
        ) == utf8_text(value)),
        at == attributes.len() ==> attribute_of(attributes, name) is None,
    decreases at,
{
    if at > 0 {
        let rest = attributes.drop_first();
        assert forall|i: int| 0 <= i < at - 1 implies !is_named(#[trigger] rest[i], name) by {
            assert(rest[i] == attributes[i + 1]);
        }
        law_first_attribute(rest, name, at - 1);
        assert(!is_named(attributes[0], name));
    }
}

/// Before the first event nothing is known, and no element is open.
pub proof fn law_nothing_is_known_at_first(pending: bool)
    ensures
        ({
            let first = ReportBuilderView::initial(pending);
            let report = first.held.report;
            &&& first.pending == pending
            &&& first.path.len() == 0
            &&& first.amount_currency is None
            &&& first.held.balance is None
            &&& first.held.entry is None
            &&& first.held.transaction is None
            &&& report.account.iban is None
            &&& report.account.other_id is None
            &&& report.account.currency is None
            &&& report.account.bic is None
            &&& report.balances.len() == 0
            &&& report.entries.len() == 0
            &&& report.page_number is None
            &&& report.last_page is None
        }),
{
}

/// A start tag opens its element. One of a balance, an entry or a transaction puts a
/// new one in hand, of which no more is known than the status of an entry, and one of
/// an amount says its currency. Nothing else changes.
pub proof fn law_start_tag(
    builder: ReportBuilderView,
    tag: Seq<u8>,
    attributes: Seq<Option<(Seq<u8>, Seq<u8>)>>,
)
    ensures
        ({
            let (after, error) = builder.applied(XmlEventView::Start(tag, attributes));
            let name = local_name_of(tag);
            let zero = Amount { negative: false, mantissa: 0, scale: 0 };
            &&& error is None
            &&& after.path.len() == builder.path.len() + 1
            &&& after.path.drop_last() == builder.path
            &&& after.path.last() == name
            &&& after.pending == builder.pending
            &&& after.held.report == builder.held.report
            &&& name != "Bal"@ ==> after.held.balance == builder.held.balance
            &&& name == "Bal"@ ==> {
                let balance = after.held.balance->0;
                &&& after.held.balance is Some
                &&& balance.code.len() == 0
                &&& balance.amount == zero
                &&& balance.currency.len() == 0
                &&& balance.credit_debit.len() == 0
                &&& balance.date is None
            }
            &&& name != "Ntry"@ ==> after.held.entry == builder.held.entry
            &&& name == "Ntry"@ ==> {
                let entry = after.held.entry->0;
                &&& after.held.entry is Some
                &&& entry.amount == zero
                &&& entry.currency.len() == 0
                &&& entry.credit_debit.len() == 0
                &&& builder.pending ==> entry.status == "PDNG"@
                &&& !builder.pending ==> entry.status == "BOOK"@
                &&& entry.booking_date is None
                &&& entry.value_date is None
                &&& entry.acct_svcr_ref is None
                &&& entry.code.domain is None
                &&& entry.code.family is None
                &&& entry.code.subfamily is None
                &&& entry.code.proprietary is None
                &&& entry.code.issuer is None
                &&& entry.additional_info is None
                &&& entry.transactions.len() == 0
            }
            &&& name != "TxDtls"@ ==> after.held.transaction == builder.held.transaction
            &&& name == "TxDtls"@ ==> {
                let transaction = after.held.transaction->0;
                &&& after.held.transaction is Some
                &&& transaction.amount == zero
                &&& transaction.currency.len() == 0
                &&& transaction.credit_debit.len() == 0
                &&& transaction.end_to_end_id is None
                &&& transaction.transaction_at is None
                &&& transaction.debtor.name is None
                &&& transaction.debtor.iban is None
                &&& transaction.debtor.bic is None
                &&& transaction.creditor.name is None
                &&& transaction.creditor.iban is None
                &&& transaction.creditor.bic is None
                &&& transaction.purpose_code is None
                &&& transaction.remittance is None
                &&& transaction.code.domain is None
                &&& transaction.code.family is None
                &&& transaction.code.subfamily is None
                &&& transaction.code.proprietary is None
                &&& transaction.code.issuer is None
                &&& transaction.original_amount is None
                &&& transaction.original_currency is None
            }
            &&& name == "Amt"@ ==> after.amount_currency == attribute_of(attributes, "Ccy"@)
            &&& name != "Amt"@ ==> after.amount_currency == builder.amount_currency
        }),
{
    lemma_part_names();
    assert(builder.path.push(local_name_of(tag)).drop_last() =~= builder.path);
}

/// An end tag closes the innermost element. One of a transaction adds the transaction
/// in hand behind the others of the entry in hand, one of an entry adds the entry in
/// hand behind the others of the report, and one of a balance the balance. What was
/// added is no longer in hand, and nothing else changes.
pub proof fn law_end_tag(builder: ReportBuilderView, tag: Seq<u8>)
    ensures
        ({
            let (after, error) = builder.applied(XmlEventView::End(tag));
            let name = local_name_of(tag);
            let was = builder.held;
            let now = after.held;
            &&& error is None
            &&& after.path == if builder.path.len() == 0 {
                builder.path
            } else {
                builder.path.take(builder.path.len() - 1)
            }
            &&& after.pending == builder.pending
            &&& after.amount_currency == builder.amount_currency
            &&& now.report.account == was.report.account
            &&& now.report.page_number == was.report.page_number
            &&& now.report.last_page == was.report.last_page
            &&& name != "TxDtls"@ ==> now.transaction == was.transaction
            &&& name == "TxDtls"@ ==> now.transaction is None
            &&& name != "TxDtls"@ && name != "Ntry"@ ==> now.entry == was.entry
            &&& name == "TxDtls"@ ==> (now.entry is Some <==> was.entry is Some)
            &&& name == "TxDtls"@ && was.entry is Some ==> {
                let before = was.entry->0;
                let entry = now.entry->0;
                &&& was.transaction is None ==> entry.transactions == before.transactions
                &&& was.transaction is Some ==> entry.transactions.len()
                    == before.transactions.len() + 1
                &&& was.transaction is Some ==> before.transactions.is_prefix_of(
                    entry.transactions,
                )
                &&& was.transaction is Some ==> entry.transactions.last() == was.transaction->0
                &&& entry.amount == before.amount
                &&& entry.currency == before.currency
                &&& entry.credit_debit == before.credit_debit
                &&& entry.status == before.status
                &&& entry.booking_date == before.booking_date
                &&& entry.value_date == before.value_date
                &&& entry.acct_svcr_ref == before.acct_svcr_ref
                &&& entry.code == before.code
                &&& entry.additional_info == before.additional_info
            }
            &&& name == "Ntry"@ ==> now.entry is None
            &&& name != "Ntry"@ || was.entry is None ==> now.report.entries == was.report.entries
            &&& name == "Ntry"@ && was.entry is Some ==> {
                &&& now.report.entries.len() == was.report.entries.len() + 1
                &&& was.report.entries.is_prefix_of(now.report.entries)
                &&& now.report.entries.last() == was.entry->0
            }
            &&& name != "Bal"@ ==> now.balance == was.balance
            &&& name == "Bal"@ ==> now.balance is None
            &&& name != "Bal"@ || was.balance is None ==> now.report.balances
                == was.report.balances
            &&& name == "Bal"@ && was.balance is Some ==> {
                &&& now.report.balances.len() == was.report.balances.len() + 1
                &&& was.report.balances.is_prefix_of(now.report.balances)
                &&& now.report.balances.last() == was.balance->0
            }
        }),
{
    lemma_part_names();
    if builder.path.len() > 0 {
        assert(builder.path.drop_last() =~= builder.path.take(builder.path.len() - 1));
    }
    if let (Some(entry), Some(transaction)) = (builder.held.entry, builder.held.transaction) {
        assert(entry.transactions.is_prefix_of(entry.transactions.push(transaction)));
    }
    let report = builder.held.report;
    if let Some(entry) = builder.held.entry {
        assert(report.entries.is_prefix_of(report.entries.push(entry)));
    }
    if let Some(balance) = builder.held.balance {
        assert(report.balances.is_prefix_of(report.balances.push(balance)));
    }
}

/// A text says the same in a section that holds it as it stands. A document that
/// cannot be read on is an error that says why, and other events change nothing.
pub proof fn law_events_without_tags(
    builder: ReportBuilderView,
    text: Seq<char>,
    bytes: Seq<u8>,
    error: Seq<char>,
)
    ensures
        builder.applied(XmlEventView::Text(text)) == builder.texted(text),
        builder.applied(XmlEventView::CData(bytes)) == builder.texted(lossy_text(bytes)),
        builder.applied(XmlEventView::Failed(error)) == (
            builder,
            Some(FinTSErrorView::Dialog("CAMT parse failed: "@ + error)),
        ),
        builder.applied(XmlEventView::Other) == (builder, None::<FinTSErrorView>),
        builder.applied(XmlEventView::Eof) == (builder, None::<FinTSErrorView>),
{
}

/// No events change nothing, one event does what it does, and its error is the error
/// of all that begin with it.
pub proof fn law_first_event(builder: ReportBuilderView, events: Seq<XmlEventView>)
    ensures
        events.len() == 0 ==> builder.after(events) == Ok::<ReportBuilderView, FinTSErrorView>(
            builder,
        ),
        events.len() > 0 && builder.applied(events[0]).1 is Some ==> builder.after(events) == Err::<
            ReportBuilderView,
            FinTSErrorView,
        >(builder.applied(events[0]).1->0),
        events.len() == 1 && builder.applied(events[0]).1 is None ==> builder.after(events) == Ok::<
            ReportBuilderView,
            FinTSErrorView,
        >(builder.applied(events[0]).0),
{
    reveal_with_fuel(ReportBuilderView::after, 2);
}

/// A report is read where its events are, and its error is theirs.
pub proof fn law_report_is_of_its_events(events: Seq<XmlEventView>, pending: bool)
    ensures
        ({
            let read = ReportBuilderView::initial(pending).after(events);
            let report = report_of(events, pending);
            &&& report is Ok <==> read is Ok
            &&& read is Err ==> report->Err_0 == read->Err_0
        }),
{
}

/// Whether an event is the start tag of an element.
pub open spec fn opens(event: XmlEventView, name: Seq<char>) -> bool {
    event is Start && local_name_of(event->Start_0) == name
}

/// Whether an event is the end tag of an element.
pub open spec fn closes(event: XmlEventView, name: Seq<char>) -> bool {
    event is End && local_name_of(event->End_0) == name
}

/// How many transactions are closed by events, where one may be in hand before them.
pub open spec fn closed_transactions(events: Seq<XmlEventView>, in_hand: bool) -> nat
    decreases events.len(),
{
    if events.len() == 0 {
        0
    } else if opens(events[0], "TxDtls"@) {
        closed_transactions(events.drop_first(), true)
    } else if closes(events[0], "TxDtls"@) {
        closed_transactions(events.drop_first(), false) + if in_hand {
            1nat
        } else {
            0
        }
    } else {
        closed_transactions(events.drop_first(), in_hand)
    }
}

/// The transactions that are in hand where events close one, in the order of the events.
pub open spec fn handed_in(builder: ReportBuilderView, events: Seq<XmlEventView>) -> Seq<
    CamtTransactionView,
>
    decreases events.len(),
{
    if events.len() == 0 {
        Seq::empty()
    } else {
        let later = handed_in(builder.applied(events[0]).0, events.drop_first());
        if closes(events[0], "TxDtls"@) && builder.held.transaction is Some {
            seq![builder.held.transaction->0] + later
        } else {
            later
        }
    }
}

/// Whether no event starts or ends an entry, nor the document.
pub open spec fn within_entry(events: Seq<XmlEventView>) -> bool {
    forall|i: int|
        0 <= i < events.len() ==> !(#[trigger] events[i] is Eof) && !opens(events[i], "Ntry"@)
            && !closes(events[i], "Ntry"@)
}

/// The transactions of the entry in hand only grow: events that do not start or end an
/// entry keep the earlier ones in front, and add one for each transaction that they
/// close, as it was in hand and in the order of the document.
pub proof fn law_transactions_only_grow(builder: ReportBuilderView, events: Seq<XmlEventView>)
    requires
        builder.held.entry is Some,
        within_entry(events),
        builder.after(events) is Ok,
    ensures
        ({
            let after = builder.after(events)->Ok_0.held;
            let earlier = builder.held.entry->0.transactions;
            let later = after.entry->0.transactions;
            &&& after.entry is Some
            &&& earlier.is_prefix_of(later)
            &&& later.len() == earlier.len() + closed_transactions(
                events,
                builder.held.transaction is Some,
            )
            &&& later == earlier + handed_in(builder, events)
            &&& after.report.entries == builder.held.report.entries
        }),
    decreases events.len(),
{
    lemma_part_names();
    let earlier = builder.held.entry->0.transactions;
    if events.len() == 0 {
        assert(earlier.is_prefix_of(earlier));
        assert(earlier + handed_in(builder, events) =~= earlier);
    } else {
        let event = events[0];
        let rest = events.drop_first();
        let next = builder.applied(event).0;
        assert(within_entry(rest)) by {
            assert forall|i: int| 0 <= i < rest.len() implies !(#[trigger] rest[i] is Eof)
                && !opens(rest[i], "Ntry"@) && !closes(rest[i], "Ntry"@) by {
                assert(rest[i] == events[i + 1]);
            }
        }
        match event {
            XmlEventView::Start(tag, attributes) => law_start_tag(builder, tag, attributes),
            XmlEventView::End(tag) => law_end_tag(builder, tag),
            XmlEventView::Text(text) => law_text_and_entry(builder, text),
            XmlEventView::CData(bytes) => law_text_and_entry(builder, lossy_text(bytes)),
            _ => {},
        }
        match event {
            XmlEventView::Text(text) => lemma_text_keeps_parts(builder, text),
            XmlEventView::CData(bytes) => lemma_text_keeps_parts(builder, lossy_text(bytes)),
            _ => {},
        }
        law_transactions_only_grow(next, rest);
        let middle = next.held.entry->0.transactions;
        let later = builder.after(events)->Ok_0.held.entry->0.transactions;
        assert(earlier.is_prefix_of(middle));
        assert(earlier =~= later.take(earlier.len() as int)) by {
            assert(middle =~= later.take(middle.len() as int));
            assert(earlier =~= middle.take(earlier.len() as int));
        }
        assert(later =~= earlier + handed_in(builder, events));
    }
}

/// A text leaves in hand what is in hand, and the complete parts as they were.
proof fn lemma_text_keeps_parts(builder: ReportBuilderView, text: Seq<char>)
    ensures
        builder.texted(text).0.held.transaction is Some <==> builder.held.transaction is Some,
        builder.texted(text).0.held.report.entries == builder.held.report.entries,
{
    law_text_and_transaction(builder, text);
    law_text_and_account(builder, text);
}

/// An entry that is complete stands behind the earlier ones, and has as many
/// transactions as are closed between its tags.
pub proof fn law_entry_has_its_transactions(
    builder: ReportBuilderView,
    start: XmlEventView,
    inner: Seq<XmlEventView>,
    end: XmlEventView,
)
    requires
        opens(start, "Ntry"@),
        within_entry(inner),
        closes(end, "Ntry"@),
        builder.after(seq![start] + inner + seq![end]) is Ok,
    ensures
        ({
            let after = builder.after(seq![start] + inner + seq![end])->Ok_0.held;
            let entries = builder.held.report.entries;
            &&& after.entry is None
            &&& after.report.entries.len() == entries.len() + 1
            &&& entries.is_prefix_of(after.report.entries)
            &&& after.report.entries.last().transactions.len() == closed_transactions(
                inner,
                builder.held.transaction is Some,
            )
        }),
{
    lemma_part_names();
    let all = seq![start] + inner + seq![end];
    let first = builder.applied(start).0;
    law_start_tag(builder, start->Start_0, start->Start_1);
    law_first_event(builder, seq![start]);
    assert(all =~= seq![start] + (inner + seq![end]));
    law_events_in_parts(builder, seq![start], inner + seq![end]);
    law_events_in_parts(first, inner, seq![end]);
    law_transactions_only_grow(first, inner);
    let second = first.after(inner)->Ok_0;
    law_end_tag(second, end->End_0);
    law_first_event(second, seq![end]);
}

/// Each entry of a report has as many transactions as the document closes between the
/// tags of the entry, and one where it closes none. The entries stand in the order of
/// the document.
pub proof fn law_report_has_all_transactions(
    before: Seq<XmlEventView>,
    start: XmlEventView,
    inner: Seq<XmlEventView>,
    end: XmlEventView,
    behind: Seq<XmlEventView>,
    pending: bool,
)
    requires
        forall|i: int| 0 <= i < before.len() ==> !(#[trigger] before[i] is Eof),
        opens(start, "Ntry"@),
        within_entry(inner),
        closes(end, "Ntry"@),
        report_of(before + (seq![start] + inner + seq![end]) + behind, pending) is Ok,
    ensures
        ({
            let report = report_of(
                before + (seq![start] + inner + seq![end]) + behind,
                pending,
            )->Ok_0;
            let earlier = ReportBuilderView::initial(pending).after(before)->Ok_0.held;
            let place = earlier.report.entries.len();
            let count = closed_transactions(inner, earlier.transaction is Some);
            &&& place < report.entries.len()
            &&& report.entries[place as int].transactions.len() == if count == 0 {
                1
            } else {
                count
            }
        }),
{
    let first = ReportBuilderView::initial(pending);
    let entry = seq![start] + inner + seq![end];
    let all = before + entry + behind;
    assert(all =~= before + (entry + behind));
    law_events_in_parts(first, before, entry + behind);
    let second = first.after(before)->Ok_0;
    assert forall|i: int| 0 <= i < entry.len() implies !(#[trigger] entry[i] is Eof) by {
        if 0 < i < entry.len() - 1 {
            assert(entry[i] == inner[i - 1]);
        }
    }
    law_events_in_parts(second, entry, behind);
    law_entry_has_its_transactions(second, start, inner, end);
    let third = second.after(entry)->Ok_0;
    law_complete_parts_stay(third, behind);
    let read = third.after(behind)->Ok_0.held.report;
    let place: int = second.held.report.entries.len() as int;
    assert(read.entries.take(third.held.report.entries.len() as int)[place]
        == third.held.report.entries[place]);
    law_entries_are_completed(with_currency(read), place);
}

/// Completing a report keeps its account and its page, and all its entries and
/// balances in their order.
pub proof fn law_report_is_kept(report: CamtReportView)
    ensures
        normalized(report).account == report.account,
        normalized(report).page_number == report.page_number,
        normalized(report).last_page == report.last_page,
        normalized(report).entries.len() == report.entries.len(),
        normalized(report).balances.len() == report.balances.len(),
{
}

/// A balance has its own currency, or that of the account where it has none. The rest
/// of it stays.
pub proof fn law_balances_are_completed(report: CamtReportView, at: int)
    requires
        0 <= at < report.balances.len(),
    ensures
        ({
            let was = report.balances[at];
            let now = normalized(report).balances[at];
            &&& now.code == was.code
            &&& now.amount == was.amount
            &&& now.credit_debit == was.credit_debit
            &&& now.date == was.date
            &&& was.currency.len() > 0 ==> now.currency == was.currency
            &&& was.currency.len() == 0 && report.account.currency is Some ==> now.currency
                == report.account.currency->0
            &&& was.currency.len() == 0 && report.account.currency is None ==> now.currency.len()
                == 0
        }),
{
}

/// An entry has its own currency, or that of the account where it has none, and all its
/// transactions, or one where it lists none. The rest of it stays.
pub proof fn law_entries_are_completed(report: CamtReportView, at: int)
    requires
        0 <= at < report.entries.len(),
    ensures
        ({
            let was = report.entries[at];
            let now = normalized(report).entries[at];
            &&& now.amount == was.amount
            &&& now.credit_debit == was.credit_debit
            &&& now.status == was.status
            &&& now.booking_date == was.booking_date
            &&& now.value_date == was.value_date
            &&& now.acct_svcr_ref == was.acct_svcr_ref
            &&& now.code == was.code
            &&& now.additional_info == was.additional_info
            &&& was.currency.len() > 0 ==> now.currency == was.currency
            &&& was.currency.len() == 0 && report.account.currency is Some ==> now.currency
                == report.account.currency->0
            &&& was.currency.len() == 0 && report.account.currency is None ==> now.currency.len()
                == 0
            &&& now.transactions.len() == if was.transactions.len() == 0 {
                1
            } else {
                was.transactions.len()
            }
        }),
{
}

/// A transaction that an entry lists has its own currency, or that of the entry where it
/// has none, and its own code, or that of the entry where it has no domain. The rest of
/// it stays, and so does its place.
pub proof fn law_transactions_are_completed(report: CamtReportView, entry: int, at: int)
    requires
        0 <= entry < report.entries.len(),
        0 <= at < report.entries[entry].transactions.len(),
    ensures
        ({
            let was = report.entries[entry].transactions[at];
            let now = normalized(report).entries[entry].transactions[at];
            &&& now.amount == was.amount
            &&& now.credit_debit == was.credit_debit
            &&& now.end_to_end_id == was.end_to_end_id
            &&& now.transaction_at == was.transaction_at
            &&& now.debtor == was.debtor
            &&& now.creditor == was.creditor
            &&& now.purpose_code == was.purpose_code
            &&& now.remittance == was.remittance
            &&& now.original_amount == was.original_amount
            &&& now.original_currency == was.original_currency
            &&& was.currency.len() > 0 ==> now.currency == was.currency
            &&& was.currency.len() == 0 ==> now.currency == normalized(
                report,
            ).entries[entry].currency
            &&& was.code.domain is Some ==> now.code == was.code
            &&& was.code.domain is None ==> now.code == report.entries[entry].code
        }),
{
}

/// The one transaction of an entry that lists none has the amount, the currency, the
/// direction and the code of the entry, and says nothing else.
pub proof fn law_entry_stands_for_its_transaction(report: CamtReportView, entry: int)
    requires
        0 <= entry < report.entries.len(),
        report.entries[entry].transactions.len() == 0,
    ensures
        ({
            let was = report.entries[entry];
            let now = normalized(report).entries[entry];
            let transaction = now.transactions[0];
            &&& now.transactions.len() == 1
            &&& transaction.amount == was.amount
            &&& transaction.currency == now.currency
            &&& transaction.credit_debit == was.credit_debit
            &&& transaction.code == was.code
            &&& transaction.end_to_end_id is None
            &&& transaction.transaction_at is None
            &&& transaction.debtor.name is None
            &&& transaction.debtor.iban is None
            &&& transaction.debtor.bic is None
            &&& transaction.creditor.name is None
            &&& transaction.creditor.iban is None
            &&& transaction.creditor.bic is None
            &&& transaction.purpose_code is None
            &&& transaction.remittance is None
            &&& transaction.original_amount is None
            &&& transaction.original_currency is None
        }),
{
}

/// The account of a report has its own currency, else that of the first balance, else
/// that of the first entry, else none. What was read is then completed by it.
pub proof fn law_currency_of_the_account(events: Seq<XmlEventView>, pending: bool)
    requires
        report_of(events, pending) is Ok,
    ensures
        ({
            let read = ReportBuilderView::initial(pending).after(events)->Ok_0.held.report;
            let report = report_of(events, pending)->Ok_0;
            let currency = report.account.currency;
            &&& report.account.iban == read.account.iban
            &&& report.account.other_id == read.account.other_id
            &&& report.account.bic == read.account.bic
            &&& read.account.currency is Some ==> currency == read.account.currency
            &&& read.account.currency is None && read.balances.len() > 0 ==> currency == Some(
                read.balances[0].currency,
            )
            &&& read.account.currency is None && read.balances.len() == 0 && read.entries.len() > 0
                ==> currency == Some(read.entries[0].currency)
            &&& read.account.currency is None && read.balances.len() == 0 && read.entries.len() == 0
                ==> currency is None
            &&& report == normalized(
                CamtReportView {
                    account: CamtAccountView { currency, ..read.account },
                    ..read
                },
            )
        }),
{
    let read = ReportBuilderView::initial(pending).after(events)->Ok_0.held.report;
    let currency = report_of(events, pending)->Ok_0.account.currency;
    assert(with_currency(read) == (CamtReportView {
        account: CamtAccountView { currency, ..read.account },
        ..read
    }));
}

} // verus!
