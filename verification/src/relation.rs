//! Relations of the lookup argument and the combination of one row of
//! base-field values into one secure-field value:
//! `sum_i alpha^i * value_i - z`.
//!
//! The same function serves witness generation, on concrete rows, and has to
//! agree with what constraint evaluation computes on trace masks.

use crate::field::BaseField;
use crate::field::ComplexField;
use crate::field::SecureField;
use crate::field::P;
use vstd::prelude::*;

verus! {

/// A named lookup relation of fixed arity with its random coefficients: the
/// shift `z` and the powers `1, alpha, alpha^2, ...`, one per value of a row.
#[derive(Clone, Debug, PartialEq, Eq)]
pub struct Relation {
    pub name: String,
    pub z: SecureField,
    pub alpha: SecureField,
    pub alpha_powers: Vec<SecureField>,
}

/// Why rows could not be combined.
#[derive(Clone, Copy, Debug, PartialEq, Eq, Structural)]
pub enum RelationError {
    /// A row holds more values than the relation has powers.
    TooManyValues { count: usize, arity: usize },
    /// No column was given, so there is no row count.
    NoColumns,
    /// The column at this position has fewer rows than the first.
    ShortColumn { column: usize },
}

/// `alpha^n`, by repeated multiplication from the left starting at one.
pub open spec fn power(alpha: SecureField, n: nat) -> SecureField
    decreases n,
{
    if n == 0 {
        SecureField::one_spec()
    } else {
        power(alpha, (n - 1) as nat).mul_spec(alpha)
    }
}

/// The powers `alpha^0, ..., alpha^(n-1)`.
pub open spec fn powers(alpha: SecureField, n: nat) -> Seq<SecureField> {
    Seq::new(n, |i: int| power(alpha, i as nat))
}

/// `x` with every coordinate multiplied by the base-field element `v`.
pub open spec fn scale(x: SecureField, v: BaseField) -> SecureField {
    SecureField {
        lo: ComplexField { re: x.lo.re.mul_spec(v), im: x.lo.im.mul_spec(v) },
        hi: ComplexField { re: x.hi.re.mul_spec(v), im: x.hi.im.mul_spec(v) },
    }
}

/// `sum_i coefficients[i] * values[i]` over the values given, added from
/// left to right onto zero.
pub open spec fn weighted_sum(coefficients: Seq<SecureField>, values: Seq<BaseField>) -> SecureField
    decreases values.len(),
{
    if values.len() == 0 {
        SecureField::zero_spec()
    } else {
        weighted_sum(coefficients, values.drop_last()).add_spec(
            scale(coefficients[values.len() - 1], values.last()),
        )
    }
}

/// The combination of one row: the weighted sum of its values, less `z`.
pub open spec fn combine_spec(
    coefficients: Seq<SecureField>,
    z: SecureField,
    values: Seq<BaseField>,
) -> SecureField {
    weighted_sum(coefficients, values).sub_spec(z)
}

/// Row `row` of the given columns, read as field elements.
pub open spec fn row_of(columns: Seq<Vec<u32>>, row: int) -> Seq<BaseField> {
    Seq::new(columns.len(), |j: int| BaseField { value: columns[j]@[row] })
}

/// The first column that is shorter than the first column, or the number
/// of columns if there is none.
pub open spec fn first_short_column(columns: Seq<Vec<u32>>) -> int {
    first_shorter_than(columns, columns[0]@.len())
}

/// The first column with fewer than `rows` rows, or the number of columns.
pub open spec fn first_shorter_than(columns: Seq<Vec<u32>>, rows: nat) -> int
    decreases columns.len(),
{
    if columns.len() == 0 {
        0
    } else if columns[0]@.len() < rows {
        0
    } else {
        1 + first_shorter_than(columns.skip(1), rows)
    }
}

/// The columns before `n` have `rows` rows at least and column `n`, if there
/// is one, has fewer.
pub proof fn lemma_first_shorter_than_at(columns: Seq<Vec<u32>>, rows: nat, n: int)
    requires
        0 <= n <= columns.len(),
        forall|j: int| 0 <= j < n ==> (#[trigger] columns[j])@.len() >= rows,
        n < columns.len() ==> columns[n]@.len() < rows,
    ensures
        first_shorter_than(columns, rows) == n,
    decreases columns.len(),
{
    if columns.len() > 0 && n > 0 {
        let rest = columns.skip(1);
        assert(columns[0]@.len() >= rows);
        assert forall|j: int| 0 <= j < n - 1 implies (#[trigger] rest[j])@.len() >= rows by {
            assert(rest[j] == columns[j + 1]);
        }
        lemma_first_shorter_than_at(rest, rows, n - 1);
    }
}

/// Multiplying by a base-field element seen as a secure-field element
/// multiplies every coordinate by it.
pub proof fn lemma_mul_by_base(x: SecureField, v: BaseField)
    requires
        x.wf(),
        v.wf(),
    ensures
        x.mul_spec(SecureField::from_base_spec(v)) == scale(x, v),
{
    let zero = ComplexField { re: BaseField { value: 0 }, im: BaseField { value: 0 } };
    let embedded = ComplexField { re: v, im: BaseField { value: 0 } };
    assert(SecureField::from_base_spec(v) == SecureField { lo: embedded, hi: zero });
    lemma_complex_mul_by_base(x.lo, v);
    lemma_complex_mul_by_base(x.hi, v);
    lemma_complex_mul_by_base(ComplexField::generator_square().mul_spec(x.hi), v);
}

/// The products of a complex element with a base-field element and with zero.
proof fn lemma_complex_mul_by_base(x: ComplexField, v: BaseField)
    requires
        v.wf(),
    ensures
        x.mul_spec(ComplexField { re: v, im: BaseField { value: 0 } }) == (ComplexField {
            re: x.re.mul_spec(v),
            im: x.im.mul_spec(v),
        }),
        x.mul_spec(ComplexField { re: BaseField { value: 0 }, im: BaseField { value: 0 } }) == (
        ComplexField { re: BaseField { value: 0 }, im: BaseField { value: 0 } }),
{
    assert(x.re.value * 0 == 0);
    assert(x.im.value * 0 == 0);
}

/// The Blake2s transcript channel of `stwo`; its state is not looked into.
#[verifier::external_type_specification]
#[verifier::external_body]
pub struct ExBlake2sChannel<const IS_M31_OUTPUT: bool>(
    stwo::core::channel::Blake2sChannelGeneric<IS_M31_OUTPUT>,
);

/// `Channel::draw_secure_felts` of `stwo::core::channel` on the Blake2s
/// channel, asked for two elements. What is drawn depends on the transcript
/// so far. Not proved here: whatever is drawn, each coordinate is a reduced
/// residue.
#[verifier::external_body]
fn draw_pair(channel: &mut stwo::core::channel::Blake2sChannel) -> (r: (SecureField, SecureField))
    ensures
        r.0.wf(),
        r.1.wf(),
{
    let felts = stwo::core::channel::Channel::draw_secure_felts(channel, 2);
    let [z0, z1, z2, z3] = felts[0].to_m31_array();
    let [a0, a1, a2, a3] = felts[1].to_m31_array();
    (
        SecureField {
            lo: ComplexField { re: BaseField { value: z0.0 }, im: BaseField { value: z1.0 } },
            hi: ComplexField { re: BaseField { value: z2.0 }, im: BaseField { value: z3.0 } },
        },
        SecureField {
            lo: ComplexField { re: BaseField { value: a0.0 }, im: BaseField { value: a1.0 } },
            hi: ComplexField { re: BaseField { value: a2.0 }, im: BaseField { value: a3.0 } },
        },
    )
}

impl Relation {
    /// The number of values that one row of the relation holds.
    pub open spec fn arity_spec(&self) -> nat {
        self.alpha_powers@.len()
    }

    /// The coefficients are canonical and `alpha_powers` holds the powers
    /// of `alpha`.
    pub open spec fn wf(&self) -> bool {
        &&& self.z.wf()
        &&& self.alpha.wf()
        &&& self.alpha_powers@ == powers(self.alpha, self.alpha_powers@.len())
    }

    /// The relation of the given name and arity with the given challenge
    /// values.
    pub fn new(name: String, arity: usize, z: SecureField, alpha: SecureField) -> (r: Relation)
        requires
            z.wf(),
            alpha.wf(),
        ensures
            r.name == name,
            r.z == z,
            r.alpha == alpha,
            r.alpha_powers@ == powers(alpha, arity as nat),
            r.wf(),
    {
        let mut alpha_powers: Vec<SecureField> = Vec::new();
        let mut current = SecureField::one();
        let mut i: usize = 0;
        while i < arity
            invariant
                i <= arity,
                alpha.wf(),
                current.wf(),
                current == power(alpha, i as nat),
                alpha_powers@ == powers(alpha, i as nat),
            decreases arity - i,
        {
            alpha_powers.push(current);
            current = current.mul(alpha);
            i = i + 1;
            assert(alpha_powers@ =~= powers(alpha, i as nat));
        }
        Relation { name, z, alpha, alpha_powers }
    }

    /// Draws the coefficients of a relation of the given arity from the
    /// channel: first `z`, then `alpha`. The channel has to be in the state
    /// that the commitment of the execution trace left it in.
    pub fn draw(
        name: String,
        arity: usize,
        channel: &mut stwo::core::channel::Blake2sChannel,
    ) -> (r: Relation)
        ensures
            r.name == name,
            r.wf(),
            r.alpha_powers@ == powers(r.alpha, arity as nat),
    {
        let (z, alpha) = draw_pair(channel);
        Relation::new(name, arity, z, alpha)
    }

    /// The name of the relation.
    pub fn name(&self) -> (r: &str)
        ensures
            r@ == self.name@,
    {
        self.name.as_str()
    }

    /// The number of values that one row of the relation holds.
    pub fn arity(&self) -> (r: usize)
        ensures
            r == self.arity_spec(),
    {
        self.alpha_powers.len()
    }

    /// Combines one row of values into one secure-field value. The row may
    /// hold at most as many values as the relation has powers.
    pub fn combine(&self, values: &[BaseField]) -> (r: Result<SecureField, RelationError>)
        requires
            self.wf(),
            forall|i: int| 0 <= i < values@.len() ==> (#[trigger] values@[i]).wf(),
        ensures
            r == (if values@.len() <= self.arity_spec() {
                Ok::<SecureField, RelationError>(
                    combine_spec(self.alpha_powers@, self.z, values@),
                )
            } else {
                Err::<SecureField, RelationError>(
                    RelationError::TooManyValues {
                        count: values@.len() as usize,
                        arity: self.arity_spec() as usize,
                    },
                )
            }),
            r matches Ok(combined) ==> combined.wf(),
    {
        if values.len() > self.alpha_powers.len() {
            return Err(
                RelationError::TooManyValues {
                    count: values.len(),
                    arity: self.alpha_powers.len(),
                },
            );
        }
        let mut sum = SecureField::zero();
        let mut i: usize = 0;
        while i < values.len()
            invariant
                i <= values@.len(),
                values@.len() <= self.alpha_powers@.len(),
                self.wf(),
                sum.wf(),
                sum == weighted_sum(self.alpha_powers@, values@.take(i as int)),
                forall|j: int| 0 <= j < values@.len() ==> (#[trigger] values@[j]).wf(),
            decreases values.len() - i,
        {
            let coefficient = self.alpha_powers[i];
            let value = values[i];
            proof {
                assert(coefficient == power(self.alpha, i as nat));
                lemma_power_wf(self.alpha, i as nat);
                lemma_mul_by_base(coefficient, value);
                assert(values@.take(i + 1).drop_last() =~= values@.take(i as int));
            }
            let term = coefficient.mul(SecureField::from_base(value));
            sum = sum.add(term);
            i = i + 1;
        }
        proof {
            assert(values@.take(values@.len() as int) =~= values@);
        }
        Ok(sum.sub(self.z))
    }

    /// Combines every row of the given columns of raw words: row `i` of the
    /// result combines the `i`-th word of each column, in column order. The
    /// first column fixes the number of rows. The words have to lie below
    /// the field modulus; they are read as field elements without a change.
    pub fn combine_rows(&self, columns: &[Vec<u32>]) -> (r: Result<Vec<SecureField>, RelationError>)
        requires
            self.wf(),
            forall|j: int, i: int|
                0 <= j < columns@.len() && 0 <= i < columns@[j]@.len() ==> (
                #[trigger] columns@[j]@[i]) < P,
        ensures
            match r {
                Ok(combined) => {
                    &&& 0 < columns@.len() <= self.arity_spec()
                    &&& first_short_column(columns@) == columns@.len()
                    &&& combined@.len() == columns@[0]@.len()
                    &&& forall|i: int|
                        0 <= i < combined@.len() ==> #[trigger] combined@[i] == combine_spec(
                            self.alpha_powers@,
                            self.z,
                            row_of(columns@, i),
                        )
                },
                Err(RelationError::NoColumns) => columns@.len() == 0,
                Err(RelationError::TooManyValues { count, arity }) => {
                    &&& columns@.len() > self.arity_spec()
                    &&& count == columns@.len()
                    &&& arity == self.arity_spec()
                },
                Err(RelationError::ShortColumn { column }) => {
                    &&& 0 < columns@.len() <= self.arity_spec()
                    &&& column == first_short_column(columns@)
                    &&& column < columns@.len()
                },
            },
    {
        if columns.len() == 0 {
            return Err(RelationError::NoColumns);
        }
        if columns.len() > self.alpha_powers.len() {
            return Err(
                RelationError::TooManyValues {
                    count: columns.len(),
                    arity: self.alpha_powers.len(),
                },
            );
        }
        let rows = columns[0].len();
        let mut j: usize = 0;
        while j < columns.len()
            invariant
                j <= columns@.len(),
                rows == columns@[0]@.len(),
                0 < columns@.len() <= self.alpha_powers@.len(),
                forall|k: int| 0 <= k < j ==> (#[trigger] columns@[k])@.len() >= rows,
            decreases columns.len() - j,
        {
            if columns[j].len() < rows {
                proof {
                    lemma_first_shorter_than_at(columns@, rows as nat, j as int);
                }
                return Err(RelationError::ShortColumn { column: j });
            }
            j = j + 1;
        }
        proof {
            lemma_first_shorter_than_at(columns@, rows as nat, columns@.len() as int);
        }
        let mut combined: Vec<SecureField> = Vec::new();
        let mut i: usize = 0;
        while i < rows
            invariant
                i <= rows,
                rows == columns@[0]@.len(),
                0 < columns@.len() <= self.alpha_powers@.len(),
                self.wf(),
                combined@.len() == i,
                forall|k: int| 0 <= k < columns@.len() ==> (#[trigger] columns@[k])@.len() >= rows,
                forall|k: int, l: int|
                    0 <= k < columns@.len() && 0 <= l < columns@[k]@.len() ==> (
                    #[trigger] columns@[k]@[l]) < P,
                forall|l: int|
                    0 <= l < i ==> #[trigger] combined@[l] == combine_spec(
                        self.alpha_powers@,
                        self.z,
                        row_of(columns@, l),
                    ),
            decreases rows - i,
        {
            let mut row: Vec<BaseField> = Vec::new();
            let mut k: usize = 0;
            while k < columns.len()
                invariant
                    k <= columns@.len(),
                    i < rows,
                    row@ == row_of(columns@, i as int).take(k as int),
                    forall|m: int| 0 <= m < k ==> (#[trigger] row@[m]).wf(),
                    forall|m: int|
                        0 <= m < columns@.len() ==> (#[trigger] columns@[m])@.len() >= rows,
                    forall|m: int, l: int|
                        0 <= m < columns@.len() && 0 <= l < columns@[m]@.len() ==> (
                        #[trigger] columns@[m]@[l]) < P,
                decreases columns.len() - k,
            {
                assert(columns@[k as int]@.len() >= rows);
                let word = columns[k][i];
                assert(columns@[k as int]@[i as int] < P);
                row.push(BaseField::from_canonical(word));
                assert(row@ =~= row_of(columns@, i as int).take(k + 1));
                k = k + 1;
            }
            assert(row@ =~= row_of(columns@, i as int));
            match self.combine(row.as_slice()) {
                Ok(value) => {
                    combined.push(value);
                },
                Err(e) => {
                    return Err(e);
                },
            }
            i = i + 1;
        }
        Ok(combined)
    }
}

/// Every power of a canonical element is canonical.
pub proof fn lemma_power_wf(alpha: SecureField, n: nat)
    requires
        alpha.wf(),
    ensures
        power(alpha, n).wf(),
{
}

} // verus!
