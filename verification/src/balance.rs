//! The zero-sum invariant of the composition: where every value that the
//! execution components look up is matched, as often as it is looked up, by
//! what the preprocessed groups take out, the claimed sums of all
//! sub-components add up to zero.

use crate::components::ClaimedSum;
use crate::field::SecureField;
use crate::field_laws::lemma_add_associates;
use crate::field_laws::lemma_add_zero;
use crate::logup::column_sum;
use crate::logup::consume_column;
use crate::logup::emit_column;
use crate::logup::lemma_matched_lookups_cancel;
use crate::logup::Fraction;
use crate::preprocessed::sum_of;
use vstd::prelude::*;

verus! {

/// The denominators of all tables, table after table.
pub open spec fn all_denominators(tables: Seq<Seq<SecureField>>) -> Seq<SecureField>
    decreases tables.len(),
{
    if tables.len() == 0 {
        Seq::empty()
    } else {
        all_denominators(tables.drop_last()) + tables.last()
    }
}

/// What each table contributes when all of its denominators are consumed.
pub open spec fn consumed_sums(tables: Seq<Seq<SecureField>>) -> Seq<SecureField> {
    tables.map_values(|t: Seq<SecureField>| column_sum(consume_column(t)))
}

/// The sum of two columns written one after the other is the sum of their
/// sums.
pub proof fn lemma_column_sum_concat(x: Seq<Fraction>, y: Seq<Fraction>)
    ensures
        column_sum(x + y) == column_sum(x).add_spec(column_sum(y)),
    decreases y.len(),
{
    if y.len() == 0 {
        assert(x + y =~= x);
        lemma_add_zero(column_sum(x));
    } else {
        lemma_column_sum_concat(x, y.drop_last());
        assert((x + y).drop_last() =~= x + y.drop_last());
        assert((x + y).last() == y.last());
        lemma_add_associates(column_sum(x), column_sum(y.drop_last()), y.last().value());
    }
}

/// Consuming table after table sums to what consuming all of their
/// denominators in one column sums to.
pub proof fn lemma_consumed_sums(tables: Seq<Seq<SecureField>>)
    ensures
        sum_of(consumed_sums(tables)) == column_sum(consume_column(all_denominators(tables))),
    decreases tables.len(),
{
    if tables.len() > 0 {
        let front = tables.drop_last();
        lemma_consumed_sums(front);
        assert(consumed_sums(tables).drop_last() =~= consumed_sums(front));
        assert(consume_column(all_denominators(tables)) =~= consume_column(
            all_denominators(front),
        ) + consume_column(tables.last()));
        lemma_column_sum_concat(
            consume_column(all_denominators(front)),
            consume_column(tables.last()),
        );
    }
}

/// The zero-sum invariant. Scheduling emits the denominators `scheduling`,
/// compression emits `compression`, and preprocessed group `g` consumes the
/// denominators `tables[g]`. If the denominators consumed are the
/// denominators emitted, each as often as it was emitted, the claimed sums
/// of all sub-components add up to zero.
pub proof fn lemma_matched_components_balance(
    claimed_sum: ClaimedSum,
    scheduling: Seq<SecureField>,
    compression: Seq<SecureField>,
    tables: Seq<Seq<SecureField>>,
)
    requires
        claimed_sum.scheduling == column_sum(emit_column(scheduling)),
        claimed_sum.compression == column_sum(emit_column(compression)),
        claimed_sum.preprocessed.sums@ == consumed_sums(tables),
        (scheduling + compression).to_multiset() == all_denominators(tables).to_multiset(),
    ensures
        claimed_sum.total_spec() == SecureField::zero_spec(),
{
    assert(emit_column(scheduling + compression) =~= emit_column(scheduling) + emit_column(
        compression,
    ));
    lemma_column_sum_concat(emit_column(scheduling), emit_column(compression));
    lemma_consumed_sums(tables);
    lemma_matched_lookups_cancel(scheduling + compression, all_denominators(tables));
}

} // verus!
