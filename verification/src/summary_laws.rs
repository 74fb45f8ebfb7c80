//! What holds of every summary that the transactions are held against.

use crate::amount::{decimal_difference, decimal_sum, same_value, Amount};
use crate::pending::InterimSummaryView;
use crate::summaries::{
    all_exactly_summable, exactly_summable, magnitude, matching, mismatches, summable, summable_exactly,
    total_of, SummaryMismatchView,
};
use crate::types::TransactionView;
use vstd::arithmetic::power::{lemma_pow_adds, lemma_pow_positive, pow};
use vstd::prelude::*;

verus! {

/// The transactions of a direction are those whose amount has its sign, all of them
/// and in their order.
pub proof fn law_direction_goes_by_sign(transactions: Seq<TransactionView>, debit: bool)
    ensures
        matching(transactions, debit) == transactions.filter(
            |transaction: TransactionView| transaction.amount.negative == debit,
        ),
    decreases transactions.len(),
{
    reveal(Seq::filter);
    if transactions.len() > 0 {
        law_direction_goes_by_sign(transactions.drop_last(), debit);
    } else {
        assert(matching(transactions, debit) =~= transactions);
    }
}

/// Two amounts are the same value exactly where they are the same number of units,
/// whatever the unit.
pub proof fn law_same_value_is_the_same_number(left: Amount, right: Amount, places: nat)
    requires
        left.scale <= places,
        right.scale <= places,
    ensures
        same_value(left, right) <==> left.units_at(places) == right.units_at(places),
{
    let (a, b) = (left.units(), right.units());
    let x = pow(10, left.scale as nat);
    let y = pow(10, right.scale as nat);
    let u = pow(10, (places - left.scale) as nat);
    let v = pow(10, (places - right.scale) as nat);
    let all = pow(10, places);
    lemma_pow_adds(10, left.scale as nat, (places - left.scale) as nat);
    lemma_pow_adds(10, right.scale as nat, (places - right.scale) as nat);
    lemma_pow_positive(10, places);
    assert(x * u == all && y * v == all);
    assert((a * u) * all == (a * y) * (u * v)) by (nonlinear_arith)
        requires
            y * v == all,
    ;
    assert((b * v) * all == (b * x) * (u * v)) by (nonlinear_arith)
        requires
            x * u == all,
    ;
    assert((a * y) * all == (a * u) * (x * y)) by (nonlinear_arith)
        requires
            x * u == all,
    ;
    assert((b * x) * all == (b * v) * (x * y)) by (nonlinear_arith)
        requires
            y * v == all,
    ;
    if a * y == b * x {
        lemma_same_factor(a * u, b * v, all);
    }
    if a * u == b * v {
        lemma_same_factor(a * y, b * x, all);
    }
}

/// Numbers whose products with a positive number are the same are the same.
proof fn lemma_same_factor(left: int, right: int, factor: int)
    requires
        left * factor == right * factor,
        factor > 0,
    ensures
        left == right,
{
    assert(left == right) by (nonlinear_arith)
        requires
            left * factor == right * factor,
            factor > 0,
    ;
}

/// The units of an amount are those of its mantissa, with its sign. An amount of fewer
/// decimal places is ten times as many units for each that it lacks.
pub proof fn law_units_of_an_amount(amount: Amount, places: nat)
    requires
        amount.scale <= places,
    ensures
        !amount.negative ==> amount.units_at(places) == amount.mantissa * pow(
            10,
            (places - amount.scale) as nat,
        ),
        amount.negative ==> amount.units_at(places) == -(amount.mantissa * pow(
            10,
            (places - amount.scale) as nat,
        )),
        amount.opposite().units_at(places) == -amount.units_at(places),
{
    let factor = pow(10, (places - amount.scale) as nat);
    assert((-(amount.mantissa as int)) * factor == -(amount.mantissa * factor))
        by (nonlinear_arith);
}

/// The magnitude of transactions adds up: that of none is zero, that of one is its
/// amount without the sign, and that of two groups is the sum of theirs.
pub proof fn law_magnitude_adds_up(
    left: Seq<TransactionView>,
    right: Seq<TransactionView>,
    one: TransactionView,
    places: nat,
)
    ensures
        left.len() == 0 ==> magnitude(left, places) == 0,
        magnitude(seq![one], places) == one.amount.mantissa * pow(
            10,
            (places - one.amount.scale) as nat,
        ),
        magnitude(left + right, places) == magnitude(left, places) + magnitude(right, places),
    decreases right.len(),
{
    reveal_with_fuel(magnitude, 2);
    assert(seq![one].drop_last() =~= Seq::empty());
    if right.len() == 0 {
        assert(left + right =~= left);
    } else {
        law_magnitude_adds_up(left, right.drop_last(), one, places);
        assert((left + right).drop_last() =~= left + right.drop_last());
    }
}

/// Amounts can be added without rounding where 28 decimal places do for each and 96 bits
/// hold the mantissa of their sum without signs.
pub proof fn law_when_sums_are_exact(transactions: Seq<TransactionView>, places: nat)
    requires
        places <= 28,
        forall|i: int|
            0 <= i < transactions.len() ==> (#[trigger] transactions[i]).amount.scale <= places,
        magnitude(transactions, places) < 0x1_0000_0000_0000_0000_0000_0000,
    ensures
        exactly_summable(transactions, places),
{
}

/// A total starts at zero. A credit is added to it, and a debit is taken off, so that
/// neither total has the sign of its direction. It is out of range from the first
/// amount on that brings it there.
pub proof fn law_total_takes_each_amount(
    transactions: Seq<TransactionView>,
    last: TransactionView,
    debit: bool,
)
    ensures
        total_of(Seq::empty(), debit) == Some(
            (Amount { negative: false, mantissa: 0, scale: 0 }),
        ),
        total_of(transactions, debit) is None ==> total_of(transactions.push(last), debit) is None,
        total_of(transactions, debit) is Some && debit ==> total_of(transactions.push(last), debit)
            == decimal_difference(total_of(transactions, debit)->0, last.amount),
        total_of(transactions, debit) is Some && !debit ==> total_of(transactions.push(last), debit)
            == decimal_sum(total_of(transactions, debit)->0, last.amount),
{
    assert(transactions.push(last).drop_last() =~= transactions);
}

/// The totals that summaries ask for are in range where that of the transactions of the
/// direction of each is.
pub proof fn law_summable_where_each_total_is(
    transactions: Seq<TransactionView>,
    summaries: Seq<InterimSummaryView>,
)
    ensures
        summable(transactions, summaries) <==> forall|i: int|
            0 <= i < summaries.len() ==> total_of(
                transactions.filter(
                    |transaction: TransactionView|
                        transaction.amount.negative == (#[trigger] summaries[i]).debit,
                ),
                summaries[i].debit,
            ) is Some,
{
    assert forall|i: int| 0 <= i < summaries.len() implies #[trigger] matching(
        transactions,
        summaries[i].debit,
    ) == transactions.filter(
        |transaction: TransactionView| transaction.amount.negative == summaries[i].debit,
    ) by {
        law_direction_goes_by_sign(transactions, summaries[i].debit);
    }
}

/// The totals that summaries ask for need no rounding where those of both directions
/// need none.
pub proof fn law_exact_where_both_directions_are(
    transactions: Seq<TransactionView>,
    summaries: Seq<InterimSummaryView>,
    places: nat,
)
    requires
        exactly_summable(
            transactions.filter(
                |transaction: TransactionView| transaction.amount.negative == true,
            ),
            places,
        ),
        exactly_summable(
            transactions.filter(
                |transaction: TransactionView| transaction.amount.negative == false,
            ),
            places,
        ),
    ensures
        all_exactly_summable(transactions, summaries),
{
    law_direction_goes_by_sign(transactions, true);
    law_direction_goes_by_sign(transactions, false);
    assert forall|i: int| 0 <= i < summaries.len() implies summable_exactly(
        matching(transactions, (#[trigger] summaries[i]).debit),
    ) by {
        assert(summaries[i].debit == true || summaries[i].debit == false);
        assert(exactly_summable(matching(transactions, summaries[i].debit), places));
    }
}

/// Whether a mismatch is that of a summary and of the transactions of its direction.
pub open spec fn tells_of(
    found: SummaryMismatchView,
    summary: InterimSummaryView,
    own: Seq<TransactionView>,
) -> bool {
    &&& found.debit == summary.debit
    &&& found.summary_count == summary.count
    &&& found.parsed_count == own.len()
    &&& found.summary_amount == summary.amount
    &&& Some(found.parsed_amount) == total_of(own, summary.debit)
    &&& found.currency == summary.currency
}

/// A summary of either direction has a mismatch exactly where the number of the
/// transactions of its direction is not its count, or their total is not the same
/// value as its amount. The mismatches stand in the order of the summaries, and each
/// tells both numbers and both totals.
pub proof fn law_mismatches_are_the_differences(
    transactions: Seq<TransactionView>,
    summaries: Seq<InterimSummaryView>,
    summary: InterimSummaryView,
)
    requires
        total_of(
            transactions.filter(
                |transaction: TransactionView| transaction.amount.negative == summary.debit,
            ),
            summary.debit,
        ) is Some,
    ensures
        ({
            let own = transactions.filter(
                |transaction: TransactionView| transaction.amount.negative == summary.debit,
            );
            let total = total_of(own, summary.debit)->0;
            let before = mismatches(transactions, summaries);
            let after = mismatches(transactions, summaries.push(summary));
            let differs = own.len() != summary.count || !same_value(total, summary.amount);
            &&& summaries.len() == 0 ==> before.len() == 0
            &&& !differs ==> after == before
            &&& differs ==> after.len() == before.len() + 1
            &&& differs ==> before.is_prefix_of(after)
            &&& differs ==> tells_of(after.last(), summary, own)
        }),
{
    let more = summaries.push(summary);
    let before = mismatches(transactions, summaries);
    assert(more.drop_last() =~= summaries);
    law_direction_goes_by_sign(transactions, summary.debit);
    let after = mismatches(transactions, more);
    if after.len() > before.len() {
        assert(before.is_prefix_of(after)) by {
            assert(before =~= after.subrange(0, before.len() as int));
        }
    }
}

/// For either direction, where the number of the transactions of a direction is not the
/// count of a summary, or their total is not the same value as its amount, the
/// mismatches hold one of that summary.
pub proof fn law_each_difference_is_found(
    transactions: Seq<TransactionView>,
    summaries: Seq<InterimSummaryView>,
    at: int,
)
    requires
        0 <= at < summaries.len(),
        total_of(
            transactions.filter(
                |transaction: TransactionView| transaction.amount.negative == summaries[at].debit,
            ),
            summaries[at].debit,
        ) is Some,
    ensures
        ({
            let summary = summaries[at];
            let own = transactions.filter(
                |transaction: TransactionView| transaction.amount.negative == summary.debit,
            );
            let total = total_of(own, summary.debit)->0;
            let found = mismatches(transactions, summaries);
            own.len() != summary.count || !same_value(total, summary.amount) ==> exists|k: int|
                0 <= k < found.len() && tells_of(#[trigger] found[k], summary, own)
        }),
    decreases summaries.len(),
{
    let fewer = summaries.drop_last();
    let summary = summaries[at];
    let own = transactions.filter(
        |transaction: TransactionView| transaction.amount.negative == summary.debit,
    );
    let total = total_of(own, summary.debit)->0;
    let found = mismatches(transactions, summaries);
    law_direction_goes_by_sign(transactions, summary.debit);
    if own.len() != summary.count || !same_value(total, summary.amount) {
        if at < fewer.len() {
            law_each_difference_is_found(transactions, fewer, at);
            let before = mismatches(transactions, fewer);
            let k = choose|k: int|
                0 <= k < before.len() && tells_of(#[trigger] before[k], summary, own);
            assert(found[k] == before[k]);
        } else {
            assert(fewer.push(summary) =~= summaries);
            law_mismatches_are_the_differences(transactions, fewer, summary);
            assert(tells_of(found[found.len() - 1], summary, own));
        }
    }
}

/// For either direction, where a total is the exact sum of the amounts and that sum or
/// their number is not what a summary says, the mismatches hold one of that summary.
pub proof fn law_each_inexact_summary_is_found(
    transactions: Seq<TransactionView>,
    summaries: Seq<InterimSummaryView>,
    at: int,
    places: nat,
)
    requires
        0 <= at < summaries.len(),
        summaries[at].amount.scale <= places,
        ({
            let own = transactions.filter(
                |transaction: TransactionView| transaction.amount.negative == summaries[at].debit,
            );
            let total = total_of(own, summaries[at].debit);
            &&& total is Some
            &&& total->0.scale <= places
            &&& total->0.units_at(places) == magnitude(own, places)
        }),
    ensures
        ({
            let summary = summaries[at];
            let own = transactions.filter(
                |transaction: TransactionView| transaction.amount.negative == summary.debit,
            );
            let found = mismatches(transactions, summaries);
            own.len() != summary.count || magnitude(own, places) != summary.amount.units_at(places)
                ==> exists|k: int|
                0 <= k < found.len() && tells_of(#[trigger] found[k], summary, own)
        }),
{
    let summary = summaries[at];
    let own = transactions.filter(
        |transaction: TransactionView| transaction.amount.negative == summary.debit,
    );
    law_same_value_is_the_same_number(
        total_of(own, summary.debit)->0,
        summary.amount,
        places,
    );
    law_each_difference_is_found(transactions, summaries, at);
}

} // verus!
