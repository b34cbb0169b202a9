//! The fraction columns of a LogUp interaction trace.
//!
//! Every writing operation appends exactly one column of
//! `numerator / denominator` fractions to the trace (the list form appends
//! one column per pair of inputs), so the number of columns is the cursor
//! that witness generation and constraint evaluation have to agree on. A
//! column is as long as the shortest of the sequences it is written from. A
//! denominator that is zero is refused and leaves the trace as it was.

use crate::field::secure_inverse;
use crate::field::SecureField;
use crate::field_laws::lemma_add_associates;
use crate::field_laws::lemma_add_negation;
use crate::field_laws::lemma_add_swaps;
use crate::field_laws::lemma_add_zero;
use crate::field_laws::lemma_mul_minus_one;
use crate::field_laws::lemma_negation_of_sum;
use vstd::prelude::*;

verus! {

/// One fraction of an interaction column.
#[derive(Clone, Copy, Debug, PartialEq, Eq, Structural)]
pub struct Fraction {
    pub numerator: SecureField,
    pub denominator: SecureField,
}

/// Why a column was not written.
#[derive(Clone, Copy, Debug, PartialEq, Eq, Structural)]
pub enum LogupError {
    /// The denominator at `row` of the column at position `column` of this
    /// write is zero; both are the first of their kind.
    ZeroDenominator { column: usize, row: usize },
    /// The list form was given an odd number of columns.
    OddColumnCount { count: usize },
}

/// The interaction trace of one component: its fraction columns, in the
/// order in which they were written.
#[derive(Clone, Debug, PartialEq, Eq)]
pub struct InteractionTrace {
    pub columns: Vec<Vec<Fraction>>,
}

impl Fraction {
    /// Both parts are canonical.
    pub open spec fn wf(self) -> bool {
        self.numerator.wf() && self.denominator.wf()
    }

    /// The field element that the fraction stands for.
    pub open spec fn value(self) -> SecureField {
        self.numerator.mul_spec(secure_inverse(self.denominator))
    }
}

/// The smaller of two lengths.
pub open spec fn shorter(a: nat, b: nat) -> nat {
    if a <= b {
        a
    } else {
        b
    }
}

/// The column `1 / d` for each denominator `d`.
pub open spec fn emit_column(denominators: Seq<SecureField>) -> Seq<Fraction> {
    Seq::new(
        denominators.len(),
        |i: int| Fraction { numerator: SecureField::one_spec(), denominator: denominators[i] },
    )
}

/// The column `-1 / d` for each denominator `d`.
pub open spec fn consume_column(denominators: Seq<SecureField>) -> Seq<Fraction> {
    Seq::new(
        denominators.len(),
        |i: int|
            Fraction {
                numerator: SecureField::one_spec().neg_spec(),
                denominator: denominators[i],
            },
    )
}

/// The column `n / d`, row by row.
pub open spec fn write_column(numerators: Seq<SecureField>, denominators: Seq<SecureField>) -> Seq<
    Fraction,
> {
    Seq::new(
        shorter(numerators.len(), denominators.len()),
        |i: int| Fraction { numerator: numerators[i], denominator: denominators[i] },
    )
}

/// The single fraction `(n0 * d1 + n1 * d0) / (d0 * d1)` that stands for the
/// sum of `n0 / d0` and `n1 / d1`.
pub open spec fn pair_fraction(
    n0: SecureField,
    d0: SecureField,
    n1: SecureField,
    d1: SecureField,
) -> Fraction {
    Fraction {
        numerator: n0.mul_spec(d1).add_spec(n1.mul_spec(d0)),
        denominator: d0.mul_spec(d1),
    }
}

/// The column that packs the fractions `n0 / d0` and `n1 / d1` of each row
/// into one.
pub open spec fn write_pair_column(
    n0: Seq<SecureField>,
    d0: Seq<SecureField>,
    n1: Seq<SecureField>,
    d1: Seq<SecureField>,
) -> Seq<Fraction> {
    Seq::new(
        shorter(shorter(n0.len(), d0.len()), shorter(n1.len(), d1.len())),
        |i: int| pair_fraction(n0[i], d0[i], n1[i], d1[i]),
    )
}

/// The column `(d0 + d1) / (d0 * d1)`, which packs `1 / d0` and `1 / d1`.
pub open spec fn emit_pair_column(d0: Seq<SecureField>, d1: Seq<SecureField>) -> Seq<Fraction> {
    Seq::new(
        shorter(d0.len(), d1.len()),
        |i: int|
            Fraction {
                numerator: d0[i].add_spec(d1[i]),
                denominator: d0[i].mul_spec(d1[i]),
            },
    )
}

/// The column `-(d0 + d1) / (d0 * d1)`, which packs `-1 / d0` and `-1 / d1`.
pub open spec fn consume_pair_column(d0: Seq<SecureField>, d1: Seq<SecureField>) -> Seq<Fraction> {
    Seq::new(
        shorter(d0.len(), d1.len()),
        |i: int|
            Fraction {
                numerator: d0[i].add_spec(d1[i]).neg_spec(),
                denominator: d0[i].mul_spec(d1[i]),
            },
    )
}

/// The columns that the list form writes: one per pair of neighbours, in
/// input order.
pub open spec fn consume_pairs_columns(columns: Seq<Vec<SecureField>>) -> Seq<Seq<Fraction>> {
    Seq::new(
        columns.len() / 2,
        |k: int| consume_pair_column(columns[2 * k]@, columns[2 * k + 1]@),
    )
}

/// The first row of `column` whose denominator is zero, or the length of
/// the column if there is none.
pub open spec fn first_zero_denominator(column: Seq<Fraction>) -> int
    decreases column.len(),
{
    if column.len() == 0 {
        0
    } else if column[0].denominator == SecureField::zero_spec() {
        0
    } else {
        1 + first_zero_denominator(column.skip(1))
    }
}

/// No denominator of `column` is zero.
pub open spec fn no_zero_denominator(column: Seq<Fraction>) -> bool {
    first_zero_denominator(column) == column.len()
}

/// The first of `columns` that has a zero denominator, or their number if
/// none has.
pub open spec fn first_bad_column(columns: Seq<Seq<Fraction>>) -> int
    decreases columns.len(),
{
    if columns.len() == 0 {
        0
    } else if !no_zero_denominator(columns[0]) {
        0
    } else {
        1 + first_bad_column(columns.skip(1))
    }
}

/// The sum of the values of the fractions of one column.
pub open spec fn column_sum(column: Seq<Fraction>) -> SecureField
    decreases column.len(),
{
    if column.len() == 0 {
        SecureField::zero_spec()
    } else {
        column_sum(column.drop_last()).add_spec(column.last().value())
    }
}

/// The sum of the values of all fractions of all columns.
pub open spec fn trace_sum(columns: Seq<Seq<Fraction>>) -> SecureField
    decreases columns.len(),
{
    if columns.len() == 0 {
        SecureField::zero_spec()
    } else {
        trace_sum(columns.drop_last()).add_spec(column_sum(columns.last()))
    }
}

/// The rows before `n` have non-zero denominators and row `n`, if there is
/// one, has a zero denominator: `n` is the first zero denominator.
pub proof fn lemma_first_zero_denominator_at(column: Seq<Fraction>, n: int)
    requires
        0 <= n <= column.len(),
        forall|i: int| 0 <= i < n ==> column[i].denominator != SecureField::zero_spec(),
        n < column.len() ==> column[n].denominator == SecureField::zero_spec(),
    ensures
        first_zero_denominator(column) == n,
    decreases column.len(),
{
    if column.len() > 0 && n > 0 {
        let rest = column.skip(1);
        assert forall|i: int| 0 <= i < n - 1 implies rest[i].denominator
            != SecureField::zero_spec() by {
            assert(rest[i] == column[i + 1]);
        }
        lemma_first_zero_denominator_at(rest, n - 1);
    }
}

/// A column without zero denominators has none at any row.
pub proof fn lemma_no_zero_denominator(column: Seq<Fraction>)
    requires
        no_zero_denominator(column),
    ensures
        forall|i: int| 0 <= i < column.len() ==> column[i].denominator != SecureField::zero_spec(),
    decreases column.len(),
{
    if column.len() > 0 {
        let rest = column.skip(1);
        if column[0].denominator != SecureField::zero_spec() {
            lemma_first_zero_bounds(rest);
            lemma_no_zero_denominator(rest);
            assert forall|i: int| 0 <= i < column.len() implies column[i].denominator
                != SecureField::zero_spec() by {
                if i > 0 {
                    assert(rest[i - 1] == column[i]);
                }
            }
        }
    }
}

/// The first zero denominator lies within the column or at its end.
pub proof fn lemma_first_zero_bounds(column: Seq<Fraction>)
    ensures
        0 <= first_zero_denominator(column) <= column.len(),
    decreases column.len(),
{
    if column.len() > 0 && column[0].denominator != SecureField::zero_spec() {
        lemma_first_zero_bounds(column.skip(1));
    }
}

/// The columns before `n` have no zero denominator and column `n`, if there
/// is one, has: `n` is the first bad column.
pub proof fn lemma_first_bad_column_at(columns: Seq<Seq<Fraction>>, n: int)
    requires
        0 <= n <= columns.len(),
        forall|k: int| 0 <= k < n ==> no_zero_denominator(#[trigger] columns[k]),
        n < columns.len() ==> !no_zero_denominator(columns[n]),
    ensures
        first_bad_column(columns) == n,
    decreases columns.len(),
{
    if columns.len() > 0 && n > 0 {
        let rest = columns.skip(1);
        assert(no_zero_denominator(columns[0]));
        assert forall|k: int| 0 <= k < n - 1 implies no_zero_denominator(#[trigger] rest[k]) by {
            assert(rest[k] == columns[k + 1]);
        }
        lemma_first_bad_column_at(rest, n - 1);
    }
}

impl InteractionTrace {
    /// The columns written so far.
    pub open spec fn view(&self) -> Seq<Seq<Fraction>> {
        self.columns@.map_values(|c: Vec<Fraction>| c@)
    }

    /// Every fraction is canonical and no denominator is zero.
    pub open spec fn wf(&self) -> bool {
        forall|c: int, r: int|
            0 <= c < self.columns@.len() && 0 <= r < self.columns@[c]@.len() ==> {
                &&& (#[trigger] self.columns@[c]@[r]).wf()
                &&& self.columns@[c]@[r].denominator != SecureField::zero_spec()
            }
    }

    /// A trace without columns.
    pub fn new() -> (r: InteractionTrace)
        ensures
            r@ == Seq::<Seq<Fraction>>::empty(),
            r.wf(),
    {
        let r = InteractionTrace { columns: Vec::new() };
        assert(r@ =~= Seq::<Seq<Fraction>>::empty());
        r
    }

    /// The column cursor: the number of columns written so far.
    pub fn cursor(&self) -> (r: usize)
        ensures
            r == self@.len(),
    {
        self.columns.len()
    }

    /// Appends `column` if none of its denominators is zero.
    fn push_checked(&mut self, column: Vec<Fraction>) -> (r: Result<(), LogupError>)
        requires
            old(self).wf(),
            forall|i: int| 0 <= i < column@.len() ==> (#[trigger] column@[i]).wf(),
        ensures
            written(old(self)@, final(self)@, seq![column@], r),
            final(self).wf(),
    {
        match first_zero_row(&column) {
            Some(row) => {
                proof {
                    lemma_first_bad_column_at(seq![column@], 0);
                }
                Err(LogupError::ZeroDenominator { column: 0, row })
            },
            None => {
                proof {
                    lemma_first_bad_column_at(seq![column@], 1);
                    lemma_no_zero_denominator(column@);
                    assert(self.columns@.push(column).map_values(|c: Vec<Fraction>| c@)
                        =~= self@ + seq![column@]);
                }
                self.columns.push(column);
                Ok(())
            },
        }
    }

    /// Writes one column holding `1 / d` for each denominator `d`: the
    /// values are added to the relation's multiset.
    pub fn emit_col(&mut self, denominators: &[SecureField]) -> (r: Result<(), LogupError>)
        requires
            old(self).wf(),
            forall|i: int| 0 <= i < denominators@.len() ==> (#[trigger] denominators@[i]).wf(),
        ensures
            written(old(self)@, final(self)@, seq![emit_column(denominators@)], r),
            r.is_ok() ==> final(self)@.len() == old(self)@.len() + 1,
            r.is_err() ==> final(self)@.len() == old(self)@.len(),
            final(self).wf(),
    {
        let one = SecureField::one();
        let mut column: Vec<Fraction> = Vec::new();
        let mut i: usize = 0;
        while i < denominators.len()
            invariant
                i <= denominators@.len(),
                one == SecureField::one_spec(),
                column@ == emit_column(denominators@).take(i as int),
                forall|j: int| 0 <= j < denominators@.len() ==> (#[trigger] denominators@[j]).wf(),
            decreases denominators.len() - i,
        {
            column.push(Fraction { numerator: one, denominator: denominators[i] });
            assert(column@ =~= emit_column(denominators@).take(i + 1));
            i = i + 1;
        }
        assert(column@ =~= emit_column(denominators@));
        self.push_checked(column)
    }

    /// Writes one column holding `-1 / d` for each denominator `d`: the
    /// values are removed from the relation's multiset.
    pub fn consume_col(&mut self, denominators: &[SecureField]) -> (r: Result<(), LogupError>)
        requires
            old(self).wf(),
            forall|i: int| 0 <= i < denominators@.len() ==> (#[trigger] denominators@[i]).wf(),
        ensures
            written(old(self)@, final(self)@, seq![consume_column(denominators@)], r),
            r.is_ok() ==> final(self)@.len() == old(self)@.len() + 1,
            r.is_err() ==> final(self)@.len() == old(self)@.len(),
            final(self).wf(),
    {
        let minus_one = SecureField::one().neg();
        let mut column: Vec<Fraction> = Vec::new();
        let mut i: usize = 0;
        while i < denominators.len()
            invariant
                i <= denominators@.len(),
                minus_one == SecureField::one_spec().neg_spec(),
                minus_one.wf(),
                column@ == consume_column(denominators@).take(i as int),
                forall|j: int| 0 <= j < denominators@.len() ==> (#[trigger] denominators@[j]).wf(),
            decreases denominators.len() - i,
        {
            column.push(Fraction { numerator: minus_one, denominator: denominators[i] });
            assert(column@ =~= consume_column(denominators@).take(i + 1));
            i = i + 1;
        }
        assert(column@ =~= consume_column(denominators@));
        self.push_checked(column)
    }

    /// Writes one column holding `n / d` for each row of numerators and
    /// denominators.
    pub fn write_col(&mut self, numerators: &[SecureField], denominators: &[SecureField]) -> (r:
        Result<(), LogupError>)
        requires
            old(self).wf(),
            forall|i: int| 0 <= i < numerators@.len() ==> (#[trigger] numerators@[i]).wf(),
            forall|i: int| 0 <= i < denominators@.len() ==> (#[trigger] denominators@[i]).wf(),
        ensures
            written(old(self)@, final(self)@, seq![write_column(numerators@, denominators@)], r),
            r.is_ok() ==> final(self)@.len() == old(self)@.len() + 1,
            r.is_err() ==> final(self)@.len() == old(self)@.len(),
            final(self).wf(),
    {
        let rows = if numerators.len() <= denominators.len() {
            numerators.len()
        } else {
            denominators.len()
        };
        let mut column: Vec<Fraction> = Vec::new();
        let mut i: usize = 0;
        while i < rows
            invariant
                i <= rows,
                rows == shorter(numerators@.len(), denominators@.len()),
                column@ == write_column(numerators@, denominators@).take(i as int),
                forall|j: int| 0 <= j < numerators@.len() ==> (#[trigger] numerators@[j]).wf(),
                forall|j: int| 0 <= j < denominators@.len() ==> (#[trigger] denominators@[j]).wf(),
            decreases rows - i,
        {
            column.push(Fraction { numerator: numerators[i], denominator: denominators[i] });
            assert(column@ =~= write_column(numerators@, denominators@).take(i + 1));
            i = i + 1;
        }
        assert(column@ =~= write_column(numerators@, denominators@));
        self.push_checked(column)
    }

    /// Writes one column that packs two fractions per row into one:
    /// `(n0 * d1 + n1 * d0) / (d0 * d1)`.
    pub fn write_pair(
        &mut self,
        numerators_0: &[SecureField],
        denominators_0: &[SecureField],
        numerators_1: &[SecureField],
        denominators_1: &[SecureField],
    ) -> (r: Result<(), LogupError>)
        requires
            old(self).wf(),
            forall|i: int| 0 <= i < numerators_0@.len() ==> (#[trigger] numerators_0@[i]).wf(),
            forall|i: int| 0 <= i < denominators_0@.len() ==> (#[trigger] denominators_0@[i]).wf(),
            forall|i: int| 0 <= i < numerators_1@.len() ==> (#[trigger] numerators_1@[i]).wf(),
            forall|i: int| 0 <= i < denominators_1@.len() ==> (#[trigger] denominators_1@[i]).wf(),
        ensures
            written(
                old(self)@,
                final(self)@,
                seq![write_pair_column(numerators_0@, denominators_0@, numerators_1@, denominators_1@)],
                r,
            ),
            r.is_ok() ==> final(self)@.len() == old(self)@.len() + 1,
            r.is_err() ==> final(self)@.len() == old(self)@.len(),
            final(self).wf(),
    {
        let rows_0 = if numerators_0.len() <= denominators_0.len() {
            numerators_0.len()
        } else {
            denominators_0.len()
        };
        let rows_1 = if numerators_1.len() <= denominators_1.len() {
            numerators_1.len()
        } else {
            denominators_1.len()
        };
        let rows = if rows_0 <= rows_1 {
            rows_0
        } else {
            rows_1
        };
        let ghost target = write_pair_column(
            numerators_0@,
            denominators_0@,
            numerators_1@,
            denominators_1@,
        );
        let mut column: Vec<Fraction> = Vec::new();
        let mut i: usize = 0;
        while i < rows
            invariant
                i <= rows,
                rows == target.len(),
                rows <= numerators_0@.len(),
                rows <= denominators_0@.len(),
                rows <= numerators_1@.len(),
                rows <= denominators_1@.len(),
                target == write_pair_column(
                    numerators_0@,
                    denominators_0@,
                    numerators_1@,
                    denominators_1@,
                ),
                column@ == target.take(i as int),
                forall|j: int| 0 <= j < i ==> (#[trigger] column@[j]).wf(),
                forall|j: int| 0 <= j < numerators_0@.len() ==> (#[trigger] numerators_0@[j]).wf(),
                forall|j: int|
                    0 <= j < denominators_0@.len() ==> (#[trigger] denominators_0@[j]).wf(),
                forall|j: int| 0 <= j < numerators_1@.len() ==> (#[trigger] numerators_1@[j]).wf(),
                forall|j: int|
                    0 <= j < denominators_1@.len() ==> (#[trigger] denominators_1@[j]).wf(),
            decreases rows - i,
        {
            let n0 = numerators_0[i];
            let d0 = denominators_0[i];
            let n1 = numerators_1[i];
            let d1 = denominators_1[i];
            let numerator = n0.mul(d1).add(n1.mul(d0));
            let denominator = d0.mul(d1);
            column.push(Fraction { numerator, denominator });
            assert(column@ =~= target.take(i + 1));
            i = i + 1;
        }
        assert(column@ =~= target);
        self.push_checked(column)
    }

    /// Writes one column that packs `1 / d0` and `1 / d1` of each row into
    /// `(d0 + d1) / (d0 * d1)`.
    pub fn emit_pair(&mut self, denominators_0: &[SecureField], denominators_1: &[SecureField]) -> (r:
        Result<(), LogupError>)
        requires
            old(self).wf(),
            forall|i: int| 0 <= i < denominators_0@.len() ==> (#[trigger] denominators_0@[i]).wf(),
            forall|i: int| 0 <= i < denominators_1@.len() ==> (#[trigger] denominators_1@[i]).wf(),
        ensures
            written(
                old(self)@,
                final(self)@,
                seq![emit_pair_column(denominators_0@, denominators_1@)],
                r,
            ),
            r.is_ok() ==> final(self)@.len() == old(self)@.len() + 1,
            r.is_err() ==> final(self)@.len() == old(self)@.len(),
            final(self).wf(),
    {
        let column = pair_column(denominators_0, denominators_1, false);
        self.push_checked(column)
    }

    /// Writes one column that packs `-1 / d0` and `-1 / d1` of each row into
    /// `-(d0 + d1) / (d0 * d1)`.
    pub fn consume_pair(&mut self, denominators_0: &[SecureField], denominators_1: &[SecureField]) -> (r:
        Result<(), LogupError>)
        requires
            old(self).wf(),
            forall|i: int| 0 <= i < denominators_0@.len() ==> (#[trigger] denominators_0@[i]).wf(),
            forall|i: int| 0 <= i < denominators_1@.len() ==> (#[trigger] denominators_1@[i]).wf(),
        ensures
            written(
                old(self)@,
                final(self)@,
                seq![consume_pair_column(denominators_0@, denominators_1@)],
                r,
            ),
            r.is_ok() ==> final(self)@.len() == old(self)@.len() + 1,
            r.is_err() ==> final(self)@.len() == old(self)@.len(),
            final(self).wf(),
    {
        let column = pair_column(denominators_0, denominators_1, true);
        self.push_checked(column)
    }

    /// The list form of `consume_pair`: packs the given columns two at a
    /// time, in input order, and writes one column per pair. An odd number
    /// of columns is refused.
    pub fn consume_pairs(&mut self, columns: &[Vec<SecureField>]) -> (r: Result<(), LogupError>)
        requires
            old(self).wf(),
            forall|k: int, i: int|
                0 <= k < columns@.len() && 0 <= i < columns@[k]@.len() ==> (
                #[trigger] columns@[k]@[i]).wf(),
        ensures
            columns@.len() % 2 == 1 ==> {
                &&& r == Err::<(), LogupError>(
                    LogupError::OddColumnCount { count: columns@.len() as usize },
                )
                &&& final(self)@ == old(self)@
            },
            columns@.len() % 2 == 0 ==> written(
                old(self)@,
                final(self)@,
                consume_pairs_columns(columns@),
                r,
            ),
            r.is_ok() ==> final(self)@.len() == old(self)@.len() + columns@.len() / 2,
            r.is_err() ==> final(self)@.len() == old(self)@.len(),
            final(self).wf(),
    {
        if columns.len() % 2 == 1 {
            return Err(LogupError::OddColumnCount { count: columns.len() });
        }
        let pairs = columns.len() / 2;
        let ghost target = consume_pairs_columns(columns@);
        let mut staged: Vec<Vec<Fraction>> = Vec::new();
        let mut k: usize = 0;
        while k < pairs
            invariant
                k <= pairs,
                pairs == columns@.len() / 2,
                columns@.len() % 2 == 0,
                columns@.len() <= usize::MAX,
                target == consume_pairs_columns(columns@),
                *self == *old(self),
                self.wf(),
                staged@.len() == k,
                forall|j: int| 0 <= j < k ==> (#[trigger] staged@[j])@ == target[j],
                forall|j: int| 0 <= j < k ==> no_zero_denominator(#[trigger] target[j]),
                forall|j: int, i: int|
                    0 <= j < k && 0 <= i < staged@[j]@.len() ==> (#[trigger] staged@[j]@[i]).wf(),
                forall|j: int, i: int|
                    0 <= j < columns@.len() && 0 <= i < columns@[j]@.len() ==> (
                    #[trigger] columns@[j]@[i]).wf(),
            decreases pairs - k,
        {
            let first = &columns[2 * k];
            let second = &columns[2 * k + 1];
            assert forall|i: int| 0 <= i < first@.len() implies (#[trigger] first@[i]).wf() by {
                assert(columns@[2 * k]@[i].wf());
            }
            assert forall|i: int| 0 <= i < second@.len() implies (#[trigger] second@[i]).wf() by {
                assert(columns@[2 * k + 1]@[i].wf());
            }
            let column = pair_column(first.as_slice(), second.as_slice(), true);
            assert(column@ == target[k as int]);
            match first_zero_row(&column) {
                Some(row) => {
                    proof {
                        lemma_first_bad_column_at(target, k as int);
                    }
                    return Err(LogupError::ZeroDenominator { column: k, row });
                },
                None => {},
            }
            staged.push(column);
            k = k + 1;
        }
        proof {
            lemma_first_bad_column_at(target, target.len() as int);
            assert forall|j: int, i: int|
                0 <= j < staged@.len() && 0 <= i < staged@[j]@.len() implies (
            #[trigger] staged@[j]@[i]).denominator != SecureField::zero_spec() by {
                lemma_no_zero_denominator(target[j]);
            }
            assert((self.columns@ + staged@).map_values(|c: Vec<Fraction>| c@) =~= self@ + target);
        }
        self.columns.append(&mut staged);
        Ok(())
    }

    /// The claimed sum of the component: the sum of the values of all
    /// fractions written so far.
    pub fn claimed_sum(&self) -> (r: SecureField)
        requires
            self.wf(),
        ensures
            r == trace_sum(self@),
            r.wf(),
    {
        let mut total = SecureField::zero();
        let mut c: usize = 0;
        while c < self.columns.len()
            invariant
                c <= self.columns@.len(),
                self.wf(),
                total.wf(),
                total == trace_sum(self@.take(c as int)),
            decreases self.columns.len() - c,
        {
            let column = &self.columns[c];
            let mut column_total = SecureField::zero();
            let mut i: usize = 0;
            while i < column.len()
                invariant
                    i <= column@.len(),
                    c < self.columns@.len(),
                    *column == self.columns@[c as int],
                    self.wf(),
                    column_total.wf(),
                    column_total == column_sum(column@.take(i as int)),
                decreases column.len() - i,
            {
                let fraction = column[i];
                assert(self.columns@[c as int]@[i as int].wf());
                let inverse = fraction.denominator.inverse();
                proof {
                    assert(column@.take(i + 1).drop_last() =~= column@.take(i as int));
                }
                column_total = column_total.add_scaled(fraction.numerator, inverse);
                i = i + 1;
            }
            proof {
                assert(column@.take(column@.len() as int) =~= column@);
                assert(self@.take(c + 1).drop_last() =~= self@.take(c as int));
            }
            total = total.add(column_total);
            c = c + 1;
        }
        proof {
            assert(self@.take(self@.len() as int) =~= self@);
        }
        total
    }
}

/// What a write does to the trace: if none of the `columns` to be written
/// has a zero denominator, they are appended in order; otherwise the trace
/// stays as it was and the error names the first such column and its first
/// such row.
pub open spec fn written(
    before: Seq<Seq<Fraction>>,
    after: Seq<Seq<Fraction>>,
    columns: Seq<Seq<Fraction>>,
    r: Result<(), LogupError>,
) -> bool {
    if first_bad_column(columns) == columns.len() {
        &&& r == Ok::<(), LogupError>(())
        &&& after == before + columns
    } else {
        &&& r == Err::<(), LogupError>(
            LogupError::ZeroDenominator {
                column: first_bad_column(columns) as usize,
                row: first_zero_denominator(columns[first_bad_column(columns)]) as usize,
            },
        )
        &&& after == before
    }
}

/// The packed column of two denominator sequences, negated or not.
fn pair_column(
    denominators_0: &[SecureField],
    denominators_1: &[SecureField],
    negate: bool,
) -> (column: Vec<Fraction>)
    requires
        forall|i: int| 0 <= i < denominators_0@.len() ==> (#[trigger] denominators_0@[i]).wf(),
        forall|i: int| 0 <= i < denominators_1@.len() ==> (#[trigger] denominators_1@[i]).wf(),
    ensures
        column@ == (if negate {
            consume_pair_column(denominators_0@, denominators_1@)
        } else {
            emit_pair_column(denominators_0@, denominators_1@)
        }),
        forall|i: int| 0 <= i < column@.len() ==> (#[trigger] column@[i]).wf(),
{
    let rows = if denominators_0.len() <= denominators_1.len() {
        denominators_0.len()
    } else {
        denominators_1.len()
    };
    let ghost target = if negate {
        consume_pair_column(denominators_0@, denominators_1@)
    } else {
        emit_pair_column(denominators_0@, denominators_1@)
    };
    let mut column: Vec<Fraction> = Vec::new();
    let mut i: usize = 0;
    while i < rows
        invariant
            i <= rows,
            rows == shorter(denominators_0@.len(), denominators_1@.len()),
            target == (if negate {
                consume_pair_column(denominators_0@, denominators_1@)
            } else {
                emit_pair_column(denominators_0@, denominators_1@)
            }),
            column@ == target.take(i as int),
            forall|j: int| 0 <= j < i ==> (#[trigger] column@[j]).wf(),
            forall|j: int| 0 <= j < denominators_0@.len() ==> (#[trigger] denominators_0@[j]).wf(),
            forall|j: int| 0 <= j < denominators_1@.len() ==> (#[trigger] denominators_1@[j]).wf(),
        decreases rows - i,
    {
        let d0 = denominators_0[i];
        let d1 = denominators_1[i];
        let sum = d0.add(d1);
        let numerator = if negate {
            sum.neg()
        } else {
            sum
        };
        let denominator = d0.mul(d1);
        column.push(Fraction { numerator, denominator });
        assert(column@ =~= target.take(i + 1));
        i = i + 1;
    }
    assert(column@ =~= target);
    column
}

/// The first row of `column` whose denominator is zero, if there is one.
fn first_zero_row(column: &Vec<Fraction>) -> (r: Option<usize>)
    ensures
        match r {
            Some(row) => row == first_zero_denominator(column@) && row < column@.len(),
            None => no_zero_denominator(column@),
        },
{
    let mut i: usize = 0;
    while i < column.len()
        invariant
            i <= column@.len(),
            forall|j: int| 0 <= j < i ==> column@[j].denominator != SecureField::zero_spec(),
        decreases column.len() - i,
    {
        if column[i].denominator.is_zero() {
            proof {
                lemma_first_zero_denominator_at(column@, i as int);
            }
            return Some(i);
        }
        i = i + 1;
    }
    proof {
        lemma_first_zero_denominator_at(column@, column@.len() as int);
    }
    None
}

/// The sum of a trace is canonical.
pub proof fn lemma_trace_sum_wf(columns: Seq<Seq<Fraction>>)
    ensures
        trace_sum(columns).wf(),
{
}

/// Consuming a sequence of denominators contributes the negation of what
/// emitting the same sequence contributes.
pub proof fn lemma_consume_negates_emit(denominators: Seq<SecureField>)
    ensures
        column_sum(consume_column(denominators)) == column_sum(emit_column(denominators)).neg_spec(),
    decreases denominators.len(),
{
    let emitted = emit_column(denominators);
    let consumed = consume_column(denominators);
    if denominators.len() > 0 {
        let rest = denominators.drop_last();
        lemma_consume_negates_emit(rest);
        assert(emitted.drop_last() =~= emit_column(rest));
        assert(consumed.drop_last() =~= consume_column(rest));
        let y = secure_inverse(denominators.last());
        lemma_mul_minus_one(y);
        lemma_negation_of_sum(column_sum(emit_column(rest)), SecureField::one_spec().mul_spec(y));
    }
}

/// The core cancellation law of LogUp: emitting and then consuming the same
/// sequence of denominators leaves the claimed sum where it was.
pub proof fn lemma_emit_then_consume_cancels(
    columns: Seq<Seq<Fraction>>,
    denominators: Seq<SecureField>,
)
    ensures
        trace_sum(columns.push(emit_column(denominators)).push(consume_column(denominators)))
            == trace_sum(columns),
{
    let emitted = emit_column(denominators);
    let consumed = consume_column(denominators);
    let after_emit = columns.push(emitted);
    let after_both = after_emit.push(consumed);
    let start = trace_sum(columns);
    assert(after_both.drop_last() =~= after_emit);
    assert(after_both.last() == consumed);
    assert(after_emit.drop_last() =~= columns);
    assert(after_emit.last() == emitted);
    assert(trace_sum(after_emit) == start.add_spec(column_sum(emitted)));
    assert(trace_sum(after_both) == start.add_spec(column_sum(emitted)).add_spec(
        column_sum(consumed),
    ));
    lemma_consume_negates_emit(denominators);
    lemma_add_associates(start, column_sum(emitted), column_sum(consumed));
    lemma_add_negation(column_sum(emitted));
    lemma_trace_sum_wf(columns);
    lemma_add_zero(start);
}

/// Taking one fraction out of a column takes its value out of the sum.
pub proof fn lemma_column_sum_remove(column: Seq<Fraction>, i: int)
    requires
        0 <= i < column.len(),
    ensures
        column_sum(column) == column_sum(column.remove(i)).add_spec(column[i].value()),
    decreases column.len(),
{
    if i == column.len() - 1 {
        assert(column.remove(i) =~= column.drop_last());
    } else {
        let front = column.drop_last();
        lemma_column_sum_remove(front, i);
        assert(column.remove(i).drop_last() =~= front.remove(i));
        assert(column.remove(i).last() == column.last());
        let rest = column_sum(front.remove(i));
        let taken = column[i].value();
        let kept = column.last().value();
        assert(column_sum(column) == rest.add_spec(taken).add_spec(kept));
        assert(column_sum(column.remove(i)) == rest.add_spec(kept));
        lemma_add_swaps(rest, taken, kept);
    }
}

/// What a sequence of denominators contributes when emitted depends on the
/// multiset of the denominators only, not on their order.
pub proof fn lemma_emit_sum_of_rearrangement(a: Seq<SecureField>, b: Seq<SecureField>)
    requires
        a.to_multiset() == b.to_multiset(),
    ensures
        column_sum(emit_column(a)) == column_sum(emit_column(b)),
    decreases a.len(),
{
    a.to_multiset_ensures();
    b.to_multiset_ensures();
    if a.len() == 0 {
        assert(emit_column(a) =~= emit_column(b));
    } else {
        let last = a.len() - 1;
        let x = a[last];
        assert(a.contains(x));
        assert(a.to_multiset().count(x) > 0);
        assert(b.to_multiset().count(x) > 0);
        assert(b.contains(x));
        let i = choose|i: int| 0 <= i < b.len() && b[i] == x;
        let a_rest = a.drop_last();
        let b_rest = b.remove(i);
        assert(a_rest =~= a.remove(last));
        vstd::seq_lib::to_multiset_remove(a, last);
        vstd::seq_lib::to_multiset_remove(b, i);
        lemma_emit_sum_of_rearrangement(a_rest, b_rest);
        lemma_column_sum_remove(emit_column(b), i);
        assert(emit_column(b).remove(i) =~= emit_column(b_rest));
        assert(emit_column(a).drop_last() =~= emit_column(a_rest));
        assert(emit_column(a).last() == emit_column(b)[i]);
    }
}

/// Lookups that match cancel: where the denominators consumed are the
/// denominators emitted, each as often as it was emitted and in whatever
/// order, what is emitted and what is consumed sum to zero.
pub proof fn lemma_matched_lookups_cancel(emitted: Seq<SecureField>, consumed: Seq<SecureField>)
    requires
        emitted.to_multiset() == consumed.to_multiset(),
    ensures
        column_sum(emit_column(emitted)).add_spec(column_sum(consume_column(consumed)))
            == SecureField::zero_spec(),
{
    lemma_emit_sum_of_rearrangement(emitted, consumed);
    lemma_consume_negates_emit(consumed);
    lemma_add_negation(column_sum(emit_column(consumed)));
}

} // verus!
