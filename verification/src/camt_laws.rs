//! What holds of every account report.

use crate::camt::{
    after_last_colon, attribute_of, balance_normalized, entry_normalized, local_name_of, new_entry,
    normalized, report_of, with_currency, ReportBuilderView,
};
use crate::camt_assign::{
    amount_read, camt_error, context_of, ends, or_empty, report_assigned, transaction_assigned,
    Context, Held,
};
use crate::camt_types::{CamtEntryView, CamtReportView, CamtTransactionView};
use crate::error::FinTSErrorView;
use crate::text::{lossy_text, trimmed};
use crate::xml::XmlEventView;
use vstd::prelude::*;

verus! {

/// Each entry of a report has at least one transaction.
pub proof fn law_entries_have_transactions(events: Seq<XmlEventView>, pending: bool, at: int)
    requires
        report_of(events, pending) is Ok,
        0 <= at < report_of(events, pending)->Ok_0.entries.len(),
    ensures
        report_of(events, pending)->Ok_0.entries[at].transactions.len() > 0,
{
}

/// An entry or a balance of a report is without a currency only where the account
/// is, and a transaction only where its entry is.
pub proof fn law_currency_is_handed_down(events: Seq<XmlEventView>, pending: bool)
    requires
        report_of(events, pending) is Ok,
    ensures
        ({
            let report = report_of(events, pending)->Ok_0;
            let currency = or_empty(report.account.currency);
            &&& forall|i: int|
                0 <= i < report.balances.len() && (#[trigger] report.balances[i]).currency.len()
                    == 0 ==> currency.len() == 0
            &&& forall|i: int|
                0 <= i < report.entries.len() && (#[trigger] report.entries[i]).currency.len() == 0
                    ==> currency.len() == 0
            &&& forall|i: int, j: int|
                0 <= i < report.entries.len() && 0 <= j < report.entries[i].transactions.len()
                    && (#[trigger] report.entries[i].transactions[j]).currency.len() == 0
                    ==> report.entries[i].currency.len() == 0
        }),
{
}

/// A transaction of a report that has no domain of its own has the code of its entry.
pub proof fn law_code_is_handed_down(events: Seq<XmlEventView>, pending: bool, entry: int, at: int)
    requires
        report_of(events, pending) is Ok,
        0 <= entry < report_of(events, pending)->Ok_0.entries.len(),
        0 <= at < report_of(events, pending)->Ok_0.entries[entry].transactions.len(),
    ensures
        ({
            let entry = report_of(events, pending)->Ok_0.entries[entry];
            entry.transactions[at].code.domain is None ==> entry.transactions[at].code
                == entry.code
        }),
{
}

/// A report that is complete is not changed by completing it again.
pub proof fn law_normalized_twice(report: CamtReportView)
    ensures
        normalized(normalized(report)) == normalized(report),
{
    let once = normalized(report);
    let twice = normalized(once);
    let currency = or_empty(report.account.currency);
    assert forall|i: int| 0 <= i < once.entries.len() implies twice.entries[i]
        == once.entries[i] by {
        let entry = entry_normalized(report.entries[i], currency);
        assert(once.entries[i] == entry);
        assert(entry_normalized(entry, currency).transactions =~= entry.transactions);
        assert(entry_normalized(entry, currency) =~= entry);
    }
    assert forall|i: int| 0 <= i < once.balances.len() implies twice.balances[i]
        == once.balances[i] by {
        assert(once.balances[i] == balance_normalized(report.balances[i], currency));
    }
    assert(twice.entries =~= once.entries);
    assert(twice.balances =~= once.balances);
}

/// Whether an error says that a report could not be read.
pub open spec fn is_camt_error(error: FinTSErrorView) -> bool {
    exists|message: Seq<char>| error == #[trigger] camt_error(message)
}

/// The error of a text says that a report could not be read.
proof fn lemma_text_error(builder: ReportBuilderView, text: Seq<char>)
    ensures
        builder.texted(text).1 is Some ==> is_camt_error(builder.texted(text).1->0),
{
}

/// The error of an event says that a report could not be read.
proof fn lemma_event_error(builder: ReportBuilderView, event: XmlEventView)
    ensures
        builder.applied(event).1 is Some ==> is_camt_error(builder.applied(event).1->0),
{
    match event {
        XmlEventView::Text(text) => lemma_text_error(builder, text),
        XmlEventView::CData(bytes) => lemma_text_error(builder, lossy_text(bytes)),
        _ => {},
    }
}

/// Each error says that a report could not be read, and begins so.
pub proof fn law_errors_say_what_failed(events: Seq<XmlEventView>, pending: bool)
    ensures
        report_of(events, pending) is Err ==> is_camt_error(report_of(events, pending)->Err_0),
{
    lemma_errors(ReportBuilderView::initial(pending), events);
}

/// Each error of events says that a report could not be read.
proof fn lemma_errors(builder: ReportBuilderView, events: Seq<XmlEventView>)
    ensures
        builder.after(events) is Err ==> is_camt_error(builder.after(events)->Err_0),
    decreases events.len(),
{
    if events.len() > 0 && !(events[0] is Eof) {
        lemma_event_error(builder, events[0]);
        match builder.applied(events[0]) {
            (next, None) => lemma_errors(next, events.drop_first()),
            _ => {},
        }
    }
}

/// A start tag and an end tag leave the path as it was.
pub proof fn law_tags_are_balanced(
    builder: ReportBuilderView,
    start: Seq<char>,
    attributes: Seq<Option<(Seq<u8>, Seq<u8>)>>,
    end: Seq<char>,
)
    ensures
        builder.started(start, attributes).ended(end).path == builder.path,
{
    assert(builder.path.push(start).drop_last() =~= builder.path);
}

/// Events can be taken in two parts, where the first does not reach the end of
/// the document.
pub proof fn law_events_in_parts(
    builder: ReportBuilderView,
    first: Seq<XmlEventView>,
    second: Seq<XmlEventView>,
)
    requires
        forall|i: int| 0 <= i < first.len() ==> !(#[trigger] first[i] is Eof),
    ensures
        builder.after(first + second) == match builder.after(first) {
            Ok(next) => next.after(second),
            Err(error) => Err(error),
        },
    decreases first.len(),
{
    let all = first + second;
    if first.len() == 0 {
        assert(all =~= second);
    } else {
        assert(all[0] == first[0]);
        assert(all.drop_first() =~= first.drop_first() + second);
        assert forall|i: int| 0 <= i < first.drop_first().len() implies !(
        #[trigger] first.drop_first()[i] is Eof) by {
            assert(first.drop_first()[i] == first[i + 1]);
        }
        match builder.applied(first[0]) {
            (next, None) => law_events_in_parts(next, first.drop_first(), second),
            _ => {},
        }
    }
}

/// What stands behind the end of a document changes nothing.
pub proof fn law_nothing_behind_the_end(
    events: Seq<XmlEventView>,
    more: Seq<XmlEventView>,
    pending: bool,
)
    ensures
        report_of(events.push(XmlEventView::Eof) + more, pending) == report_of(events, pending),
{
    lemma_nothing_behind_the_end(ReportBuilderView::initial(pending), events, more);
}

/// What stands behind the end of a document changes nothing.
proof fn lemma_nothing_behind_the_end(
    builder: ReportBuilderView,
    events: Seq<XmlEventView>,
    more: Seq<XmlEventView>,
)
    ensures
        builder.after(events.push(XmlEventView::Eof) + more) == builder.after(events),
    decreases events.len(),
{
    let all = events.push(XmlEventView::Eof) + more;
    if events.len() > 0 && !(events[0] is Eof) {
        assert(all[0] == events[0]);
        assert(all.drop_first() =~= events.drop_first().push(XmlEventView::Eof) + more);
        match builder.applied(events[0]) {
            (next, None) => lemma_nothing_behind_the_end(next, events.drop_first(), more),
            _ => {},
        }
    }
}

/// Comments, declarations and empty elements change nothing: a report is the same
/// without one.
pub proof fn law_other_events_say_nothing(events: Seq<XmlEventView>, at: int, pending: bool)
    requires
        0 <= at < events.len(),
        events[at] is Other,
    ensures
        report_of(events.remove(at), pending) == report_of(events, pending),
{
    lemma_other_events(ReportBuilderView::initial(pending), events, at);
}

/// An event that says nothing changes nothing.
proof fn lemma_other_events(builder: ReportBuilderView, events: Seq<XmlEventView>, at: int)
    requires
        0 <= at < events.len(),
        events[at] is Other,
    ensures
        builder.after(events.remove(at)) == builder.after(events),
    decreases events.len(),
{
    if at == 0 {
        assert(events.remove(0) =~= events.drop_first());
    } else if !(events[0] is Eof) {
        assert(events.remove(at)[0] == events[0]);
        assert(events.remove(at).drop_first() =~= events.drop_first().remove(at - 1));
        match builder.applied(events[0]) {
            (next, None) => lemma_other_events(next, events.drop_first(), at - 1),
            _ => {},
        }
    }
}

/// A text that is white space says nothing of the report.
pub proof fn law_blank_text_says_nothing(builder: ReportBuilderView, text: Seq<char>)
    requires
        trimmed(text).len() == 0,
    ensures
        builder.texted(text) == (
            ReportBuilderView { amount_currency: None, ..builder },
            None::<FinTSErrorView>,
        ),
{
}

/// A name without a colon is the local name behind any prefix.
pub proof fn law_local_name_behind_prefix(prefix: Seq<char>, name: Seq<char>)
    requires
        !name.contains(':'),
    ensures
        after_last_colon(prefix.push(':') + name) == name,
        after_last_colon(name) == name,
    decreases name.len(),
{
    let whole = prefix.push(':') + name;
    if name.len() == 0 {
        assert(whole =~= prefix.push(':'));
        assert(after_last_colon(name) =~= name);
        assert(after_last_colon(whole) =~= name);
    } else {
        let shorter = name.drop_last();
        assert forall|i: int| 0 <= i < shorter.len() implies shorter[i] != ':' by {
            assert(name.contains(name[i]));
        }
        assert(name.contains(name.last()));
        law_local_name_behind_prefix(prefix, shorter);
        assert(whole.drop_last() =~= prefix.push(':') + shorter);
        assert(shorter.push(name.last()) =~= name);
    }
}

/// Whether two events are the same but for the prefixes of their names.
pub open spec fn same_but_for_prefix(left: XmlEventView, right: XmlEventView) -> bool {
    match (left, right) {
        (XmlEventView::Start(ours, attributes), XmlEventView::Start(theirs, others)) => {
            local_name_of(ours) == local_name_of(theirs) && attributes == others
        },
        (XmlEventView::End(ours), XmlEventView::End(theirs)) => {
            local_name_of(ours) == local_name_of(theirs)
        },
        _ => left == right,
    }
}

/// A report does not depend on the namespace prefixes of its elements.
pub proof fn law_prefixes_do_not_matter(
    left: Seq<XmlEventView>,
    right: Seq<XmlEventView>,
    pending: bool,
)
    requires
        left.len() == right.len(),
        forall|i: int|
            0 <= i < left.len() ==> same_but_for_prefix(#[trigger] left[i], #[trigger] right[i]),
    ensures
        report_of(left, pending) == report_of(right, pending),
{
    lemma_prefixes(ReportBuilderView::initial(pending), left, right);
}

/// Events that are the same but for prefixes have the same outcome.
proof fn lemma_prefixes(
    builder: ReportBuilderView,
    left: Seq<XmlEventView>,
    right: Seq<XmlEventView>,
)
    requires
        left.len() == right.len(),
        forall|i: int|
            0 <= i < left.len() ==> same_but_for_prefix(#[trigger] left[i], #[trigger] right[i]),
    ensures
        builder.after(left) == builder.after(right),
    decreases left.len(),
{
    if left.len() > 0 {
        assert(same_but_for_prefix(left[0], right[0]));
        assert(builder.applied(left[0]) == builder.applied(right[0]));
        if !(left[0] is Eof) {
            assert forall|i: int| 0 <= i < left.drop_first().len() implies same_but_for_prefix(
                #[trigger] left.drop_first()[i],
                #[trigger] right.drop_first()[i],
            ) by {
                assert(same_but_for_prefix(left[i + 1], right[i + 1]));
            }
            match builder.applied(left[0]) {
                (next, None) => lemma_prefixes(next, left.drop_first(), right.drop_first()),
                _ => {},
            }
        }
    }
}

/// Whether two entries are the same but for their status, which is `PDNG` in the
/// first and `BOOK` in the second where it differs.
pub open spec fn same_but_for_status(left: CamtEntryView, right: CamtEntryView) -> bool {
    &&& left == (CamtEntryView { status: left.status, ..right })
    &&& left.status == right.status || (left.status == "PDNG"@ && right.status == "BOOK"@)
}

/// Whether two reports are the same but for the status of their entries.
pub open spec fn reports_but_for_status(left: CamtReportView, right: CamtReportView) -> bool {
    &&& left == (CamtReportView { entries: left.entries, ..right })
    &&& left.entries.len() == right.entries.len()
    &&& forall|i: int|
        0 <= i < left.entries.len() ==> same_but_for_status(
            #[trigger] left.entries[i],
            #[trigger] right.entries[i],
        )
}

/// Whether two reports that are being read are the same but for the status of
/// their entries.
spec fn builders_but_for_status(left: ReportBuilderView, right: ReportBuilderView) -> bool {
    &&& left.pending
    &&& !right.pending
    &&& left.path == right.path
    &&& left.amount_currency == right.amount_currency
    &&& left.held.balance == right.held.balance
    &&& left.held.transaction == right.held.transaction
    &&& match (left.held.entry, right.held.entry) {
        (Some(ours), Some(theirs)) => same_but_for_status(ours, theirs),
        (None, None) => true,
        _ => false,
    }
    &&& reports_but_for_status(left.held.report, right.held.report)
}

/// A text keeps two reports the same but for the status of their entries.
proof fn lemma_text_but_for_status(
    left: ReportBuilderView,
    right: ReportBuilderView,
    text: Seq<char>,
)
    requires
        builders_but_for_status(left, right),
    ensures
        left.texted(text).1 == right.texted(text).1,
        left.texted(text).1 is None ==> builders_but_for_status(
            left.texted(text).0,
            right.texted(text).0,
        ),
{
}

/// An event keeps two reports the same but for the status of their entries.
proof fn lemma_event_but_for_status(
    left: ReportBuilderView,
    right: ReportBuilderView,
    event: XmlEventView,
)
    requires
        builders_but_for_status(left, right),
    ensures
        left.applied(event).1 == right.applied(event).1,
        left.applied(event).1 is None ==> builders_but_for_status(
            left.applied(event).0,
            right.applied(event).0,
        ),
{
    match event {
        XmlEventView::Text(text) => lemma_text_but_for_status(left, right, text),
        XmlEventView::CData(bytes) => lemma_text_but_for_status(left, right, lossy_text(bytes)),
        _ => {},
    }
}

/// Events keep two reports the same but for the status of their entries.
proof fn lemma_events_but_for_status(
    left: ReportBuilderView,
    right: ReportBuilderView,
    events: Seq<XmlEventView>,
)
    requires
        builders_but_for_status(left, right),
    ensures
        match (left.after(events), right.after(events)) {
            (Ok(ours), Ok(theirs)) => builders_but_for_status(ours, theirs),
            (Err(ours), Err(theirs)) => ours == theirs,
            _ => false,
        },
    decreases events.len(),
{
    if events.len() > 0 && !(events[0] is Eof) {
        lemma_event_but_for_status(left, right, events[0]);
        match (left.applied(events[0]), right.applied(events[0])) {
            ((ours, None), (theirs, None)) => lemma_events_but_for_status(
                ours,
                theirs,
                events.drop_first(),
            ),
            _ => {},
        }
    }
}

/// The statuses that a document gives its entries: the names of the open elements,
/// the status of the entry in hand, and those of the complete entries. An entry
/// that is given none has `None`.
#[verifier::ext_equal]
pub struct GivenStatuses {
    pub path: Seq<Seq<char>>,
    pub entry: Option<Option<Seq<char>>>,
    pub entries: Seq<Option<Seq<char>>>,
}

impl GivenStatuses {
    /// Those of a document of which nothing has been read.
    pub open spec fn initial() -> GivenStatuses {
        GivenStatuses { path: Seq::empty(), entry: None, entries: Seq::empty() }
    }

    /// After a start tag. One of an entry puts an entry in hand.
    pub open spec fn started(self, name: Seq<char>) -> GivenStatuses {
        GivenStatuses {
            path: self.path.push(name),
            entry: if name == "Ntry"@ {
                Some(None)
            } else {
                self.entry
            },
            ..self
        }
    }

    /// After an end tag. One of an entry completes the entry in hand.
    pub open spec fn ended(self, name: Seq<char>) -> GivenStatuses {
        let path = if self.path.len() > 0 {
            self.path.drop_last()
        } else {
            self.path
        };
        match self.entry {
            Some(status) => if name == "Ntry"@ {
                GivenStatuses { path, entry: None, entries: self.entries.push(status) }
            } else {
                GivenStatuses { path, ..self }
            },
            None => GivenStatuses { path, ..self },
        }
    }

    /// After a text. One in `Sts` and `Cd` that is not blank, in an entry and outside
    /// a transaction, is the status of the entry in hand.
    pub open spec fn texted(self, text: Seq<char>) -> GivenStatuses {
        if trimmed(text).len() > 0 && context_of(self.path) == Context::Entry && ends(
            self.path,
            seq!["Sts"@, "Cd"@],
        ) && self.entry is Some {
            GivenStatuses { entry: Some(Some(trimmed(text))), ..self }
        } else {
            self
        }
    }

    /// After an event.
    pub open spec fn applied(self, event: XmlEventView) -> GivenStatuses {
        match event {
            XmlEventView::Start(name, _) => self.started(local_name_of(name)),
            XmlEventView::End(name) => self.ended(local_name_of(name)),
            XmlEventView::Text(text) => self.texted(text),
            XmlEventView::CData(bytes) => self.texted(lossy_text(bytes)),
            _ => self,
        }
    }

    /// After the events up to the end of the document.
    pub open spec fn after(self, events: Seq<XmlEventView>) -> GivenStatuses
        decreases events.len(),
    {
        if events.len() == 0 || events[0] is Eof {
            self
        } else {
            self.applied(events[0]).after(events.drop_first())
        }
    }
}

/// The statuses that the events of a document give its complete entries.
pub open spec fn given_statuses(events: Seq<XmlEventView>) -> Seq<Option<Seq<char>>> {
    GivenStatuses::initial().after(events).entries
}

/// The status of an entry: the one that it is given, else `PDNG` or `BOOK` by
/// whether pending entries were asked for.
pub open spec fn status_of(given: Option<Seq<char>>, pending: bool) -> Seq<char> {
    match given {
        Some(status) => status,
        None => new_entry(pending).status,
    }
}

/// Whether a report that is being read has the statuses that the document gives.
spec fn has_statuses(builder: ReportBuilderView, given: GivenStatuses) -> bool {
    &&& builder.path == given.path
    &&& match (builder.held.entry, given.entry) {
        (Some(entry), Some(status)) => entry.status == status_of(status, builder.pending),
        (None, None) => true,
        _ => false,
    }
    &&& builder.held.report.entries.len() == given.entries.len()
    &&& forall|i: int|
        0 <= i < given.entries.len() ==> (#[trigger] builder.held.report.entries[i]).status
            == status_of(given.entries[i], builder.pending)
}

/// A text in `Sts` and `Cd` is no amount and no direction.
proof fn lemma_status_path(path: Seq<Seq<char>>)
    requires
        ends(path, seq!["Sts"@, "Cd"@]),
    ensures
        !ends(path, seq!["Amt"@]),
        !ends(path, seq!["CdtDbtInd"@]),
{
    reveal_strlit("Cd");
    reveal_strlit("Amt");
    reveal_strlit("CdtDbtInd");
    assert("Cd"@[0] == 'C' && "Amt"@[0] == 'A');
    assert("Cd"@.len() == 2 && "CdtDbtInd"@.len() == 9);
    assert(path.last() == "Cd"@) by {
        assert(path.subrange(path.len() - 2, path.len() as int)[1] == path.last());
    }
    lemma_other_ending(path, seq!["Amt"@]);
    lemma_other_ending(path, seq!["CdtDbtInd"@]);
}

/// A text keeps the statuses of a report those that the document gives.
proof fn lemma_text_statuses(builder: ReportBuilderView, given: GivenStatuses, text: Seq<char>)
    requires
        has_statuses(builder, given),
        builder.texted(text).1 is None,
    ensures
        has_statuses(builder.texted(text).0, given.texted(text)),
{
    if ends(builder.path, seq!["Sts"@, "Cd"@]) {
        lemma_status_path(builder.path);
    }
}

/// An event keeps the statuses of a report those that the document gives.
proof fn lemma_event_statuses(
    builder: ReportBuilderView,
    given: GivenStatuses,
    event: XmlEventView,
)
    requires
        has_statuses(builder, given),
        builder.applied(event).1 is None,
    ensures
        has_statuses(builder.applied(event).0, given.applied(event)),
{
    reveal_strlit("Ntry");
    reveal_strlit("Bal");
    reveal_strlit("TxDtls");
    assert("Ntry"@[0] == 'N' && "Bal"@[0] == 'B' && "TxDtls"@[0] == 'T');
    match event {
        XmlEventView::Text(text) => lemma_text_statuses(builder, given, text),
        XmlEventView::CData(bytes) => lemma_text_statuses(builder, given, lossy_text(bytes)),
        _ => {},
    }
}

/// Events keep the statuses of a report those that the document gives.
proof fn lemma_events_statuses(
    builder: ReportBuilderView,
    given: GivenStatuses,
    events: Seq<XmlEventView>,
)
    requires
        has_statuses(builder, given),
    ensures
        builder.after(events) is Ok ==> has_statuses(
            builder.after(events)->Ok_0,
            given.after(events),
        ) && builder.after(events)->Ok_0.pending == builder.pending,
    decreases events.len(),
{
    if events.len() > 0 && !(events[0] is Eof) {
        match builder.applied(events[0]) {
            (next, None) => {
                lemma_event_statuses(builder, given, events[0]);
                lemma_events_statuses(next, given.applied(events[0]), events.drop_first());
            },
            _ => {},
        }
    }
}

/// Each entry of a report has the status that the document gives it, else `PDNG`
/// or `BOOK` by whether pending entries were asked for.
pub proof fn law_status_is_the_given_one(events: Seq<XmlEventView>, pending: bool)
    requires
        report_of(events, pending) is Ok,
    ensures
        report_of(events, pending)->Ok_0.entries.len() == given_statuses(events).len(),
        forall|i: int|
            0 <= i < given_statuses(events).len() ==> (#[trigger] report_of(
                events,
                pending,
            )->Ok_0.entries[i]).status == status_of(given_statuses(events)[i], pending),
{
    let builder = ReportBuilderView::initial(pending);
    lemma_events_statuses(builder, GivenStatuses::initial(), events);
    let after = builder.after(events)->Ok_0;
    assert forall|i: int| 0 <= i < given_statuses(events).len() implies (#[trigger] report_of(
        events,
        pending,
    )->Ok_0.entries[i]).status == status_of(given_statuses(events)[i], pending) by {
        assert(after.held.report.entries[i].status == status_of(
            given_statuses(events)[i],
            pending,
        ));
    }
}

/// Whether pending entries were asked for shows in nothing but the status of
/// entries that are given none: they are `PDNG` or else `BOOK`. The others have the
/// status that they are given, whatever was asked for.
pub proof fn law_pending_shows_in_status_alone(events: Seq<XmlEventView>)
    ensures
        match (report_of(events, true), report_of(events, false)) {
            (Ok(left), Ok(right)) => {
                &&& reports_but_for_status(left, right)
                &&& left.entries.len() == given_statuses(events).len()
                &&& forall|i: int|
                    0 <= i < left.entries.len() ==> match #[trigger] given_statuses(events)[i] {
                        Some(status) => left.entries[i].status == status
                            && right.entries[i].status == status,
                        None => left.entries[i].status == "PDNG"@ && right.entries[i].status
                            == "BOOK"@,
                    }
            },
            (Err(left), Err(right)) => left == right,
            _ => false,
        },
{
    let left = ReportBuilderView::initial(true);
    let right = ReportBuilderView::initial(false);
    lemma_events_but_for_status(left, right, events);
    match (left.after(events), right.after(events)) {
        (Ok(ours), Ok(theirs)) => {
            law_status_is_the_given_one(events, true);
            law_status_is_the_given_one(events, false);
            assert forall|i: int| 0 <= i < given_statuses(events).len() implies report_of(
                events,
                true,
            )->Ok_0.entries[i].status == status_of(
                #[trigger] given_statuses(events)[i],
                true,
            ) && report_of(events, false)->Ok_0.entries[i].status == status_of(
                given_statuses(events)[i],
                false,
            ) by {
                let mine = report_of(events, true)->Ok_0.entries[i];
                let other = report_of(events, false)->Ok_0.entries[i];
            }
            let mine = with_currency(ours.held.report);
            let other = with_currency(theirs.held.report);
            if mine.entries.len() > 0 {
                assert(same_but_for_status(mine.entries[0], other.entries[0]));
            }
            assert(reports_but_for_status(mine, other));
            let currency = or_empty(mine.account.currency);
            assert forall|i: int| 0 <= i < mine.entries.len() implies same_but_for_status(
                #[trigger] normalized(mine).entries[i],
                #[trigger] normalized(other).entries[i],
            ) by {
                assert(same_but_for_status(mine.entries[i], other.entries[i]));
                assert(entry_normalized(mine.entries[i], currency).transactions
                    =~= entry_normalized(other.entries[i], currency).transactions);
            }
        },
        _ => {},
    }
}

/// The entry that a start tag, an amount with its currency and an end tag make,
/// outside a transaction: it has the amount and the currency, and its status goes
/// by whether pending entries were asked for.
pub proof fn law_entry_is_read(
    builder: ReportBuilderView,
    entry: Seq<u8>,
    amount: Seq<u8>,
    attributes: Seq<Option<(Seq<u8>, Seq<u8>)>>,
    text: Seq<char>,
)
    requires
        local_name_of(entry) == "Ntry"@,
        local_name_of(amount) == "Amt"@,
        !builder.path.contains("TxDtls"@),
        trimmed(text).len() > 0,
        amount_read(trimmed(text)) is Ok,
    ensures
        ({
            let after = builder.after(
                seq![
                    XmlEventView::Start(entry, Seq::empty()),
                    XmlEventView::Start(amount, attributes),
                    XmlEventView::Text(text),
                    XmlEventView::End(amount),
                    XmlEventView::End(entry),
                ],
            );
            let read = CamtEntryView {
                amount: amount_read(trimmed(text))->Ok_0,
                currency: or_empty(attribute_of(attributes, "Ccy"@)),
                ..new_entry(builder.pending)
            };
            &&& after is Ok
            &&& after->Ok_0.path == builder.path
            &&& after->Ok_0.held == (Held {
                report: CamtReportView {
                    entries: builder.held.report.entries.push(read),
                    ..builder.held.report
                },
                entry: None,
                ..builder.held
            })
        }),
{
    let events = seq![
        XmlEventView::Start(entry, Seq::empty()),
        XmlEventView::Start(amount, attributes),
        XmlEventView::Text(text),
        XmlEventView::End(amount),
        XmlEventView::End(entry),
    ];
    reveal_strlit("Ntry");
    reveal_strlit("Amt");
    reveal_strlit("Bal");
    reveal_strlit("TxDtls");
    reveal_strlit("Ccy");
    reveal_strlit("IBAN");
    reveal_strlit("Id");
    reveal_strlit("BICFI");
    reveal_strlit("PgNb");
    reveal_strlit("LastPgInd");
    reveal_with_fuel(ReportBuilderView::after, 6);
    let value = trimmed(text);
    let first = builder.started("Ntry"@, Seq::empty());
    let path = builder.path.push("Ntry"@).push("Amt"@);
    let second = first.started("Amt"@, attributes);
    assert("Ntry"@[0] == 'N' && "Amt"@[0] == 'A' && "Bal"@[0] == 'B' && "TxDtls"@[0] == 'T');
    assert("Ccy"@[0] == 'C' && "IBAN"@[0] == 'I' && "Id"@[0] == 'I' && "BICFI"@[0] == 'B');
    assert("PgNb"@[0] == 'P' && "LastPgInd"@[0] == 'L');
    assert(second.path == path);
    assert(path.last() == "Amt"@);
    assert(report_assigned(path, value, second.held.report) == Ok::<
        CamtReportView,
        FinTSErrorView,
    >(second.held.report)) by {
        lemma_other_ending(path, seq!["Acct"@, "Ccy"@]);
        lemma_other_ending(path, seq!["Acct"@, "Id"@, "IBAN"@]);
        lemma_other_ending(path, seq!["Acct"@, "Id"@, "Othr"@, "Id"@]);
        lemma_other_ending(path, seq!["Svcr"@, "FinInstnId"@, "BICFI"@]);
        lemma_other_ending(path, seq!["MsgPgntn"@, "PgNb"@]);
        lemma_other_ending(path, seq!["MsgPgntn"@, "LastPgInd"@]);
    }
    assert(context_of(path) == Context::Entry) by {
        assert(path[path.len() - 2] == "Ntry"@);
        if path.contains("TxDtls"@) {
            let at = choose|i: int| 0 <= i < path.len() && path[i] == "TxDtls"@;
            assert(at < builder.path.len());
            assert(builder.path[at] == "TxDtls"@);
        }
    }
    assert(ends(path, seq!["Amt"@])) by {
        assert(path.subrange(path.len() - 1, path.len() as int) =~= seq!["Amt"@]);
    }
    let third = second.texted(text).0;
    assert(second.texted(text).1 is None);
    let fourth = third.ended("Amt"@);
    assert(fourth.path =~= builder.path.push("Ntry"@));
    let fifth = fourth.ended("Ntry"@);
    assert(fifth.path =~= builder.path);
    assert(events.drop_first().drop_first().drop_first().drop_first().drop_first()
        =~= Seq::empty());
    assert(builder.after(events) == Ok::<ReportBuilderView, FinTSErrorView>(fifth));
}

/// The amount before conversion is kept apart: it changes nothing of a transaction
/// but the original amount and its currency.
pub proof fn law_original_amount_is_kept_apart(
    path: Seq<Seq<char>>,
    value: Seq<char>,
    currency: Option<Seq<char>>,
    transaction: CamtTransactionView,
)
    requires
        ends(path, seq!["InstdAmt"@, "Amt"@]),
        amount_read(value) is Ok,
    ensures
        transaction_assigned(path, value, currency, transaction) == Ok::<
            CamtTransactionView,
            FinTSErrorView,
        >(
            CamtTransactionView {
                original_amount: Some(amount_read(value)->Ok_0),
                original_currency: currency,
                ..transaction
            },
        ),
{
}

/// A path does not end with names of which the last is another.
proof fn lemma_other_ending(path: Seq<Seq<char>>, last: Seq<Seq<char>>)
    requires
        path.len() > 0,
        last.len() > 0,
        path.last() != last.last(),
    ensures
        !ends(path, last),
{
    if ends(path, last) {
        assert(path.subrange(path.len() - last.len(), path.len() as int).last() == path.last());
    }
}

/// Entries and balances stay in the report once they are complete, in the order
/// of the document.
pub proof fn law_complete_parts_stay(builder: ReportBuilderView, events: Seq<XmlEventView>)
    requires
        builder.after(events) is Ok,
    ensures
        builder.held.report.entries.is_prefix_of(
            builder.after(events)->Ok_0.held.report.entries,
        ),
        builder.held.report.balances.is_prefix_of(
            builder.after(events)->Ok_0.held.report.balances,
        ),
    decreases events.len(),
{
    let before = builder.held.report;
    if events.len() == 0 || events[0] is Eof {
        assert(before.entries =~= before.entries.take(before.entries.len() as int));
        assert(before.balances =~= before.balances.take(before.balances.len() as int));
    } else {
        let next = builder.applied(events[0]).0;
        law_complete_parts_stay(next, events.drop_first());
        let middle = next.held.report;
        let after = next.after(events.drop_first())->Ok_0.held.report;
        assert(middle.entries == before.entries || middle.entries.drop_last() == before.entries)
            by {
            if builder.held.entry is Some {
                assert(before.entries.push(builder.held.entry->0).drop_last() =~= before.entries);
            }
        }
        assert(middle.balances == before.balances || middle.balances.drop_last()
            == before.balances) by {
            if builder.held.balance is Some {
                assert(before.balances.push(builder.held.balance->0).drop_last()
                    =~= before.balances);
            }
        }
        assert(before.entries =~= after.entries.take(before.entries.len() as int));
        assert(before.balances =~= after.balances.take(before.balances.len() as int));
    }
}

} // verus!
