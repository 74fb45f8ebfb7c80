//! Holds the transactions of an interim report against what the bank says of them
//! as a whole.

use crate::amount::{
    add_decimals, decimal_difference, decimal_sum, equal_decimals, exact_sum, same_value,
    subtract_decimals, sum_fits, Amount, MANTISSA_LIMIT, MAX_SCALE,
};
use crate::pending::{summary_views, valid_summaries, InterimSummary, InterimSummaryView};
use crate::summary_laws::{
    law_direction_goes_by_sign, law_each_inexact_summary_is_found, tells_of,
};
use crate::types::{transaction_views, Transaction, TransactionView};
use vstd::arithmetic::power::{lemma_pow_adds, lemma_pow_positive, pow};
use vstd::prelude::*;

verus! {

/// Whether the amounts of transactions are in range.
pub open spec fn valid_amounts(transactions: Seq<TransactionView>) -> bool {
    forall|i: int| 0 <= i < transactions.len() ==> (#[trigger] transactions[i]).amount.valid()
}

/// The transactions of one direction, which goes by the sign of the amount.
pub open spec fn matching(transactions: Seq<TransactionView>, debit: bool) -> Seq<TransactionView>
    decreases transactions.len(),
{
    if transactions.len() == 0 {
        Seq::empty()
    } else {
        let before = matching(transactions.drop_last(), debit);
        if transactions.last().amount.negative == debit {
            before.push(transactions.last())
        } else {
            before
        }
    }
}

/// The total of transactions of one direction, without the sign of the direction,
/// where it is in range.
pub open spec fn total_of(transactions: Seq<TransactionView>, debit: bool) -> Option<Amount>
    decreases transactions.len(),
{
    if transactions.len() == 0 {
        Some(Amount::nothing())
    } else {
        match total_of(transactions.drop_last(), debit) {
            Some(total) => if debit {
                decimal_difference(total, transactions.last().amount)
            } else {
                decimal_sum(total, transactions.last().amount)
            },
            None => None,
        }
    }
}

/// The sum of amounts without their signs, counted in units of ten to the power
/// of `-places`.
pub open spec fn magnitude(transactions: Seq<TransactionView>, places: nat) -> int
    decreases transactions.len(),
{
    if transactions.len() == 0 {
        0
    } else {
        let amount = transactions.last().amount;
        magnitude(transactions.drop_last(), places) + amount.mantissa * pow(
            10,
            (places - amount.scale) as nat,
        )
    }
}

/// Whether amounts can be added without rounding: none has more decimal places,
/// and their sum without signs has a mantissa in range.
pub open spec fn exactly_summable(transactions: Seq<TransactionView>, places: nat) -> bool {
    &&& places <= MAX_SCALE
    &&& magnitude(transactions, places) < MANTISSA_LIMIT
    &&& forall|i: int|
        0 <= i < transactions.len() ==> (#[trigger] transactions[i]).amount.scale <= places
}

/// Whether a total is exactly the sum of amounts without their signs.
pub open spec fn exact_total(
    transactions: Seq<TransactionView>,
    total: Option<Amount>,
    places: nat,
) -> bool {
    &&& total is Some
    &&& total->0.scale <= places
    &&& total->0.units_at(places) == magnitude(transactions, places)
}

/// An amount counted in smaller units.
proof fn lemma_smaller_units(amount: Amount, few: nat, many: nat)
    requires
        amount.scale <= few <= many,
    ensures
        amount.units_at(many) == amount.units_at(few) * pow(10, (many - few) as nat),
        pow(10, (many - few) as nat) >= 1,
{
    let small = pow(10, (few - amount.scale) as nat);
    let step = pow(10, (many - few) as nat);
    lemma_pow_adds(10, (few - amount.scale) as nat, (many - few) as nat);
    lemma_pow_positive(10, (many - few) as nat);
    assert(amount.units() * (small * step) == (amount.units() * small) * step)
        by (nonlinear_arith);
}

/// Adding one more amount needs no rounding.
proof fn lemma_exact_step(total: Amount, next: Amount, places: nat)
    requires
        total.scale <= places,
        next.scale <= places,
        places <= MAX_SCALE,
        total.units_at(places) >= 0,
        next.units() >= 0,
        total.units_at(places) + next.units_at(places) < MANTISSA_LIMIT,
    ensures
        sum_fits(total, next),
        next.units_at(places) >= 0,
        forall|sum: Amount|
            sum.scale <= places && #[trigger] exact_sum(total, next, sum) ==> sum.units_at(places)
                == total.units_at(places) + next.units_at(places),
{
    let common = if total.scale < next.scale {
        next.scale as nat
    } else {
        total.scale as nat
    };
    let step = pow(10, (places - common) as nat);
    lemma_smaller_units(total, common, places);
    lemma_smaller_units(next, common, places);
    let ours = total.units_at(common);
    let theirs = next.units_at(common);
    lemma_pow_positive(10, (common - next.scale) as nat);
    assert(theirs >= 0) by (nonlinear_arith)
        requires
            theirs == next.units() * pow(10, (common - next.scale) as nat),
            next.units() >= 0,
            pow(10, (common - next.scale) as nat) > 0,
    ;
    assert(ours >= 0 && ours + theirs <= ours * step + theirs * step && theirs * step >= 0)
        by (nonlinear_arith)
        requires
            ours * step >= 0,
            theirs >= 0,
            step >= 1,
    ;
    assert forall|sum: Amount|
        sum.scale <= places && #[trigger] exact_sum(total, next, sum) implies sum.units_at(places)
        == total.units_at(places) + next.units_at(places) by {
        let all = MAX_SCALE as nat;
        let rest = pow(10, (all - places) as nat);
        lemma_smaller_units(total, places, all);
        lemma_smaller_units(next, places, all);
        lemma_smaller_units(sum, places, all);
        let (t, n, s) = (
            total.units_at(places),
            next.units_at(places),
            sum.units_at(places),
        );
        assert(s == t + n) by (nonlinear_arith)
            requires
                s * rest == t * rest + n * rest,
                rest >= 1,
        ;
    }
}

/// Fewer amounts can be added without rounding where more can.
proof fn lemma_fewer_exactly_summable(
    transactions: Seq<TransactionView>,
    last: TransactionView,
    places: nat,
)
    requires
        exactly_summable(transactions.push(last), places),
    ensures
        exactly_summable(transactions, places),
        last.amount.scale <= places,
        magnitude(transactions.push(last), places) == magnitude(transactions, places)
            + last.amount.mantissa * pow(10, (places - last.amount.scale) as nat),
{
    let more = transactions.push(last);
    assert(more.drop_last() =~= transactions);
    assert(more[transactions.len() as int] == last);
    lemma_pow_positive(10, (places - last.amount.scale) as nat);
    assert(last.amount.mantissa * pow(10, (places - last.amount.scale) as nat) >= 0)
        by (nonlinear_arith)
        requires
            last.amount.mantissa >= 0,
            pow(10, (places - last.amount.scale) as nat) > 0,
    ;
    assert forall|i: int| 0 <= i < transactions.len() implies (
    #[trigger] transactions[i]).amount.scale <= places by {
        assert(more[i] == transactions[i]);
    }
}

/// The sum of amounts without their signs is not negative.
proof fn lemma_magnitude(transactions: Seq<TransactionView>, places: nat)
    ensures
        magnitude(transactions, places) >= 0,
    decreases transactions.len(),
{
    if transactions.len() > 0 {
        let amount = transactions.last().amount;
        lemma_magnitude(transactions.drop_last(), places);
        lemma_pow_positive(10, (places - amount.scale) as nat);
        assert(amount.mantissa * pow(10, (places - amount.scale) as nat) >= 0)
            by (nonlinear_arith)
            requires
                amount.mantissa >= 0,
                pow(10, (places - amount.scale) as nat) > 0,
        ;
    }
}

/// A summary that the transactions do not bear out.
#[derive(Debug, PartialEq, Eq)]
pub struct SummaryMismatch {
    /// Whether the summary is of debits.
    pub debit: bool,
    /// The number of transactions in the summary.
    pub summary_count: usize,
    /// The number of transactions in the report.
    pub parsed_count: usize,
    /// The total in the summary.
    pub summary_amount: Amount,
    /// The total of the transactions in the report.
    pub parsed_amount: Amount,
    /// The currency of the summary.
    pub currency: String,
}

/// A mismatch with its currency as a sequence of characters.
#[verifier::ext_equal]
pub struct SummaryMismatchView {
    pub debit: bool,
    pub summary_count: int,
    pub parsed_count: int,
    pub summary_amount: Amount,
    pub parsed_amount: Amount,
    pub currency: Seq<char>,
}

impl View for SummaryMismatch {
    type V = SummaryMismatchView;

    open spec fn view(&self) -> SummaryMismatchView {
        SummaryMismatchView {
            debit: self.debit,
            summary_count: self.summary_count as int,
            parsed_count: self.parsed_count as int,
            summary_amount: self.summary_amount,
            parsed_amount: self.parsed_amount,
            currency: self.currency@,
        }
    }
}

/// The mismatches with their currencies as sequences of characters.
pub open spec fn mismatch_views(mismatches: Seq<SummaryMismatch>) -> Seq<SummaryMismatchView> {
    Seq::new(mismatches.len(), |i: int| mismatches[i]@)
}

/// Whether the number and the total of a summary are those of the transactions.
pub open spec fn borne_out(
    transactions: Seq<TransactionView>,
    summary: InterimSummaryView,
) -> bool {
    let own = matching(transactions, summary.debit);
    &&& own.len() == summary.count
    &&& same_value(total_of(own, summary.debit)->0, summary.amount)
}

/// What a summary that is not borne out has against the transactions.
pub open spec fn mismatch(
    transactions: Seq<TransactionView>,
    summary: InterimSummaryView,
) -> SummaryMismatchView {
    let own = matching(transactions, summary.debit);
    SummaryMismatchView {
        debit: summary.debit,
        summary_count: summary.count as int,
        parsed_count: own.len() as int,
        summary_amount: summary.amount,
        parsed_amount: total_of(own, summary.debit)->0,
        currency: summary.currency,
    }
}

/// The summaries that are not borne out.
pub open spec fn mismatches(
    transactions: Seq<TransactionView>,
    summaries: Seq<InterimSummaryView>,
) -> Seq<SummaryMismatchView>
    decreases summaries.len(),
{
    if summaries.len() == 0 {
        Seq::empty()
    } else {
        let before = mismatches(transactions, summaries.drop_last());
        if borne_out(transactions, summaries.last()) {
            before
        } else {
            before.push(mismatch(transactions, summaries.last()))
        }
    }
}

/// Whether the totals that the summaries ask for are in range.
pub open spec fn summable(
    transactions: Seq<TransactionView>,
    summaries: Seq<InterimSummaryView>,
) -> bool {
    forall|i: int|
        0 <= i < summaries.len() ==> total_of(
            matching(transactions, (#[trigger] summaries[i]).debit),
            summaries[i].debit,
        ) is Some
}

/// Whether amounts can be added without rounding, with some number of decimal places.
pub open spec fn summable_exactly(transactions: Seq<TransactionView>) -> bool {
    exists|places: nat| exactly_summable(transactions, places)
}

/// Whether the totals that the summaries ask for need no rounding.
pub open spec fn all_exactly_summable(
    transactions: Seq<TransactionView>,
    summaries: Seq<InterimSummaryView>,
) -> bool {
    forall|i: int|
        0 <= i < summaries.len() ==> summable_exactly(
            matching(transactions, (#[trigger] summaries[i]).debit),
        )
}

/// Whether mismatches tell of each summary that says another number than that of the
/// transactions, or another sum than their exact one.
pub open spec fn tells_inexact(
    transactions: Seq<TransactionView>,
    summaries: Seq<InterimSummaryView>,
    found: Seq<SummaryMismatchView>,
) -> bool {
    forall|i: int, places: nat|
        0 <= i < summaries.len() && summaries[i].amount.scale <= places
            && #[trigger] exactly_summable(matching(transactions, summaries[i].debit), places) && (
        matching(transactions, summaries[i].debit).len() != summaries[i].count || magnitude(
            matching(transactions, summaries[i].debit),
            places,
        ) != summaries[i].amount.units_at(places)) ==> exists|k: int|
            0 <= k < found.len() && (#[trigger] found[k]).debit == summaries[i].debit
                && found[k].summary_count == summaries[i].count && found[k].summary_amount
                == summaries[i].amount && found[k].currency == summaries[i].currency
}

/// Totals that are exact make mismatches tell of each summary that is not.
proof fn lemma_tells_inexact(
    transactions: Seq<TransactionView>,
    summaries: Seq<InterimSummaryView>,
)
    requires
        forall|i: int, places: nat|
            0 <= i < summaries.len() && #[trigger] exactly_summable(
                matching(transactions, summaries[i].debit),
                places,
            ) ==> exact_total(
                matching(transactions, summaries[i].debit),
                total_of(matching(transactions, summaries[i].debit), summaries[i].debit),
                places,
            ),
    ensures
        tells_inexact(transactions, summaries, mismatches(transactions, summaries)),
{
    let found = mismatches(transactions, summaries);
    assert forall|i: int, places: nat|
        0 <= i < summaries.len() && summaries[i].amount.scale <= places
            && #[trigger] exactly_summable(matching(transactions, summaries[i].debit), places) && (
        matching(transactions, summaries[i].debit).len() != summaries[i].count || magnitude(
            matching(transactions, summaries[i].debit),
            places,
        ) != summaries[i].amount.units_at(places)) implies exists|k: int|
        0 <= k < found.len() && (#[trigger] found[k]).debit == summaries[i].debit
            && found[k].summary_count == summaries[i].count && found[k].summary_amount
            == summaries[i].amount && found[k].currency == summaries[i].currency by {
        let summary = summaries[i];
        law_direction_goes_by_sign(transactions, summary.debit);
        law_each_inexact_summary_is_found(transactions, summaries, i, places);
        let own = matching(transactions, summary.debit);
        let k = choose|k: int|
            0 <= k < found.len() && tells_of(#[trigger] found[k], summary, own);
        assert(found[k].debit == summary.debit);
    }
}

/// The number of the transactions of one direction, and their total where it is
/// in range. The total is exact where no rounding is needed.
pub fn sum_up(transactions: &Vec<Transaction>, debit: bool) -> (result: (usize, Option<Amount>))
    requires
        valid_amounts(transaction_views(transactions@)),
    ensures
        result.0 == matching(transaction_views(transactions@), debit).len(),
        result.1 == total_of(matching(transaction_views(transactions@), debit), debit),
        result.1 is Some ==> result.1->0.valid(),
        forall|places: nat|
            #[trigger] exactly_summable(
                matching(transaction_views(transactions@), debit),
                places,
            ) ==> exact_total(
                matching(transaction_views(transactions@), debit),
                result.1,
                places,
            ),
        forall|places: nat|
            #[trigger] exactly_summable(
                matching(transaction_views(transactions@), debit),
                places,
            ) ==> result.1 is Some && result.1->0.scale <= places && result.1->0.units_at(places)
                == magnitude(matching(transaction_views(transactions@), debit), places),
{
    let ghost views = transaction_views(transactions@);
    let mut count: usize = 0;
    let mut total: Option<Amount> = Some(Amount::zero());
    let mut at: usize = 0;
    proof {
        assert(views.take(0) =~= Seq::empty());
        assert(matching(views.take(0), debit) =~= Seq::empty());
        assert forall|places: nat| exact_total(
            matching(views.take(0), debit),
            total,
            places,
        ) by {
            assert(0 * pow(10, (places - 0) as nat) == 0) by (nonlinear_arith);
        }
    }
    while at < transactions.len()
        invariant
            count <= at <= transactions@.len(),
            views == transaction_views(transactions@),
            valid_amounts(views),
            count == matching(views.take(at as int), debit).len(),
            total == total_of(matching(views.take(at as int), debit), debit),
            total is Some ==> total->0.valid(),
            forall|places: nat|
                #[trigger] exactly_summable(matching(views.take(at as int), debit), places)
                    ==> exact_total(matching(views.take(at as int), debit), total, places),
        decreases transactions@.len() - at,
    {
        let ghost own = matching(views.take(at as int), debit);
        let ghost before = total;
        let amount = transactions[at].amount;
        proof {
            assert(views[at as int] == transactions@[at as int]@);
            assert(views.take(at + 1).drop_last() =~= views.take(at as int));
            assert(views.take(at + 1).last() == views[at as int]);
            let before = matching(views.take(at as int), debit);
            assert(before.push(views[at as int]).drop_last() =~= before);
        }
        if amount.negative == debit {
            count = count + 1;
            total = match total {
                Some(total) => if debit {
                    subtract_decimals(total, amount)
                } else {
                    add_decimals(total, amount)
                },
                None => None,
            };
            proof {
                let next = if debit {
                    amount.opposite()
                } else {
                    amount
                };
                let more = own.push(views[at as int]);
                assert(matching(views.take(at + 1), debit) == more);
                assert forall|places: nat| #[trigger] exactly_summable(
                    more,
                    places,
                ) implies exact_total(more, total, places) by {
                    lemma_fewer_exactly_summable(own, views[at as int], places);
                    lemma_magnitude(own, places);
                    assert(exact_total(own, before, places));
                    lemma_exact_step(before->0, next, places);
                }
            }
        }
        at = at + 1;
    }
    assert(views.take(at as int) =~= views);
    (count, total)
}

/// Tells which summaries the transactions do not bear out.
pub fn validate_pending_summaries(
    transactions: &Vec<Transaction>,
    summaries: &Vec<InterimSummary>,
) -> (result: Vec<SummaryMismatch>)
    requires
        valid_amounts(transaction_views(transactions@)),
        valid_summaries(summary_views(summaries@)),
        summable(transaction_views(transactions@), summary_views(summaries@)),
    ensures
        mismatch_views(result@) == mismatches(
            transaction_views(transactions@),
            summary_views(summaries@),
        ),
        tells_inexact(
            transaction_views(transactions@),
            summary_views(summaries@),
            mismatch_views(result@),
        ),
{
    let ghost views = transaction_views(transactions@);
    let ghost asked = summary_views(summaries@);
    let mut result: Vec<SummaryMismatch> = Vec::new();
    let mut at: usize = 0;
    assert(asked.take(0) =~= Seq::empty());
    assert(mismatch_views(result@) =~= Seq::empty());
    while at < summaries.len()
        invariant
            at <= summaries@.len(),
            views == transaction_views(transactions@),
            asked == summary_views(summaries@),
            valid_amounts(views),
            valid_summaries(asked),
            summable(views, asked),
            mismatch_views(result@) == mismatches(views, asked.take(at as int)),
            forall|i: int, places: nat|
                0 <= i < at && #[trigger] exactly_summable(
                    matching(views, asked[i].debit),
                    places,
                ) ==> exact_total(
                    matching(views, asked[i].debit),
                    total_of(matching(views, asked[i].debit), asked[i].debit),
                    places,
                ),
        decreases summaries@.len() - at,
    {
        let summary = &summaries[at];
        let ghost before = mismatch_views(result@);
        proof {
            assert(asked[at as int] == summary@);
            assert(asked.take(at + 1).drop_last() =~= asked.take(at as int));
            assert(asked.take(at + 1).last() == summary@);
        }
        let (count, total) = sum_up(transactions, summary.debit);
        if let Some(total) = total {
            if count != summary.count || !equal_decimals(total, summary.amount) {
                let found = SummaryMismatch {
                    debit: summary.debit,
                    summary_count: summary.count,
                    parsed_count: count,
                    summary_amount: summary.amount,
                    parsed_amount: total,
                    currency: summary.currency.clone(),
                };
                let ghost view = found@;
                assert(view =~= mismatch(views, summary@));
                result.push(found);
                assert(mismatch_views(result@) =~= before.push(view));
            }
        }
        at = at + 1;
    }
    proof {
        assert(asked.take(at as int) =~= asked);
        lemma_tells_inexact(views, asked);
    }
    result
}

/// Tells which summaries the transactions do not bear out, where the totals that
/// the summaries ask for are in range. Totals that need no rounding are.
pub fn try_validate_pending_summaries(
    transactions: &Vec<Transaction>,
    summaries: &Vec<InterimSummary>,
) -> (result: Option<Vec<SummaryMismatch>>)
    requires
        valid_amounts(transaction_views(transactions@)),
        valid_summaries(summary_views(summaries@)),
    ensures
        result is Some <==> summable(transaction_views(transactions@), summary_views(summaries@)),
        all_exactly_summable(transaction_views(transactions@), summary_views(summaries@))
            ==> result is Some,
        result is Some ==> mismatch_views(result->0@) == mismatches(
            transaction_views(transactions@),
            summary_views(summaries@),
        ),
        result is Some ==> tells_inexact(
            transaction_views(transactions@),
            summary_views(summaries@),
            mismatch_views(result->0@),
        ),
{
    let ghost views = transaction_views(transactions@);
    let ghost asked = summary_views(summaries@);
    let mut at: usize = 0;
    while at < summaries.len()
        invariant
            at <= summaries@.len(),
            views == transaction_views(transactions@),
            asked == summary_views(summaries@),
            valid_amounts(views),
            forall|i: int|
                0 <= i < at ==> total_of(
                    matching(views, (#[trigger] asked[i]).debit),
                    asked[i].debit,
                ) is Some,
        decreases summaries@.len() - at,
    {
        assert(asked[at as int] == summaries@[at as int]@);
        let (_, total) = sum_up(transactions, summaries[at].debit);
        if total.is_none() {
            proof {
                let own = matching(views, asked[at as int].debit);
                if all_exactly_summable(views, asked) {
                    assert(summable_exactly(own));
                    let places = choose|places: nat| exactly_summable(own, places);
                    assert(exact_total(own, total, places));
                }
            }
            return None;
        }
        at = at + 1;
    }
    Some(validate_pending_summaries(transactions, summaries))
}

} // verus!
