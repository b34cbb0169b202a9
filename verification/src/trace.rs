//! Trace columns: sequences of base-field elements whose length is a power of
//! two, and the checked conversion from raw machine words.

use crate::field::BaseField;
use crate::field::P;
use vstd::arithmetic::power2::lemma_pow2_pos;
use vstd::arithmetic::power2::lemma_pow2_strictly_increases;
use vstd::arithmetic::power2::lemma_pow2_unfold;
use vstd::arithmetic::power2::pow2;
use vstd::prelude::*;

verus! {

/// Binary logarithm of the number of rows that one packed batch holds.
pub const LOG_N_LANES: u32 = 4;

/// Number of rows that one packed batch holds.
pub const N_LANES: usize = 16;

/// Why raw words could not be read as a trace column.
#[derive(Clone, Copy, Debug, PartialEq, Eq, Structural)]
pub enum TraceError {
    /// The number of rows is not a power of two.
    NotPowerOfTwo { len: usize },
    /// The word at `row` is not below the field modulus.
    NotInField { row: usize, value: u32 },
}

/// One column of a trace: `2^log_size` base-field elements.
#[derive(Clone, Debug, PartialEq, Eq)]
pub struct TraceColumn {
    pub log_size: u32,
    pub values: Vec<BaseField>,
}

/// The words of `words` that are canonical residues, up to the first that is
/// not: the index of that first word, or the length if there is none.
pub open spec fn first_non_residue(words: Seq<u32>) -> int
    decreases words.len(),
{
    if words.len() == 0 {
        0
    } else if words[0] >= P {
        0
    } else {
        1 + first_non_residue(words.skip(1))
    }
}

/// `len` is a power of two.
pub open spec fn is_power_of_two(len: int) -> bool {
    exists|k: nat| pow2(k) == len
}

/// The reason why `words` cannot be read as a trace column, if there is one.
pub open spec fn conversion_error(words: Seq<u32>) -> Option<TraceError> {
    if !is_power_of_two(words.len() as int) {
        Some(TraceError::NotPowerOfTwo { len: words.len() as usize })
    } else if first_non_residue(words) < words.len() {
        Some(
            TraceError::NotInField {
                row: first_non_residue(words) as usize,
                value: words[first_non_residue(words)],
            },
        )
    } else {
        None
    }
}

/// The words read as field elements, one for one.
pub open spec fn field_elements(words: Seq<u32>) -> Seq<BaseField> {
    words.map_values(|w: u32| BaseField { value: w })
}

/// A prefix of canonical words followed by a word that is not canonical
/// fixes where the first non-residue is.
pub proof fn lemma_first_non_residue_at(words: Seq<u32>, n: int)
    requires
        0 <= n <= words.len(),
        forall|i: int| 0 <= i < n ==> words[i] < P,
        n < words.len() ==> words[n] >= P,
    ensures
        first_non_residue(words) == n,
    decreases words.len(),
{
    if words.len() > 0 && n > 0 {
        let rest = words.skip(1);
        assert forall|i: int| 0 <= i < n - 1 implies rest[i] < P by {
            assert(rest[i] == words[i + 1]);
        }
        lemma_first_non_residue_at(rest, n - 1);
    }
}

/// The exponent `k` with `2^k == len`, if `len` is a power of two.
pub fn exact_log2(len: usize) -> (r: Option<u32>)
    ensures
        r matches Some(k) ==> pow2(k as nat) == len,
        r.is_none() <==> !is_power_of_two(len as int),
{
    if len == 0 {
        proof {
            assert forall|k: nat| pow2(k) != 0 by {
                lemma_pow2_pos(k);
            }
        }
        return None;
    }
    let mut k: u32 = 0;
    let mut power: usize = 1;
    proof {
        vstd::arithmetic::power2::lemma2_to64();
    }
    while power <= len / 2
        invariant
            power == pow2(k as nat),
            1 <= power <= len,
            k < usize::BITS,
        decreases len - power,
    {
        proof {
            lemma_pow2_unfold((k + 1) as nat);
            lemma_usize_bits_bound(k, power);
        }
        power = power * 2;
        k = k + 1;
    }
    if power == len {
        Some(k)
    } else {
        proof {
            assert forall|j: nat| pow2(j) != len by {
                lemma_pow2_unfold((k + 1) as nat);
                if j <= k {
                    if j < k {
                        lemma_pow2_strictly_increases(j, k as nat);
                    }
                } else {
                    if j > k + 1 {
                        lemma_pow2_strictly_increases((k + 1) as nat, j);
                    }
                }
            }
        }
        None
    }
}

/// A power of two that can be doubled in a `usize` has an exponent that can be incremented.
proof fn lemma_usize_bits_bound(k: u32, power: usize)
    requires
        power == pow2(k as nat),
        2 * power <= usize::MAX,
        k < usize::BITS,
    ensures
        k + 1 < usize::BITS,
{
    if k + 1 >= usize::BITS {
        vstd::arithmetic::power2::lemma2_to64();
        if usize::BITS == 32 {
            assert(pow2(31) == 0x80000000) by {
                vstd::arithmetic::power2::lemma2_to64();
            }
        } else {
            lemma_pow2_unfold(63);
            lemma_pow2_unfold(64);
            assert(pow2(64) == 0x10000000000000000);
        }
    }
}

impl TraceColumn {
    /// The column has `2^log_size` rows and holds canonical elements only.
    pub open spec fn wf(&self) -> bool {
        &&& self.values@.len() == pow2(self.log_size as nat)
        &&& forall|i: int| 0 <= i < self.values@.len() ==> (#[trigger] self.values@[i]).wf()
    }

    /// Reads raw words as one column, checking that their number is a power
    /// of two and that each lies below the field modulus.
    pub fn from_words(words: &[u32]) -> (r: Result<TraceColumn, TraceError>)
        ensures
            match r {
                Ok(column) => {
                    &&& conversion_error(words@).is_none()
                    &&& column.wf()
                    &&& column.values@ == field_elements(words@)
                },
                Err(e) => conversion_error(words@) == Some(e),
            },
    {
        let log_size = match exact_log2(words.len()) {
            Some(k) => k,
            None => {
                return Err(TraceError::NotPowerOfTwo { len: words.len() });
            },
        };
        assert(is_power_of_two(words@.len() as int));
        let mut values: Vec<BaseField> = Vec::new();
        let mut i: usize = 0;
        while i < words.len()
            invariant
                i <= words.len(),
                is_power_of_two(words@.len() as int),
                values@.len() == i,
                forall|j: int| 0 <= j < i ==> words@[j] < P,
                forall|j: int| 0 <= j < i ==> #[trigger] values@[j] == (BaseField { value: words@[j] }),
            decreases words.len() - i,
        {
            let word = words[i];
            if word >= P {
                proof {
                    lemma_first_non_residue_at(words@, i as int);
                }
                return Err(TraceError::NotInField { row: i, value: word });
            }
            values.push(BaseField::from_canonical(word));
            i = i + 1;
        }
        proof {
            lemma_first_non_residue_at(words@, words@.len() as int);
            assert(values@ =~= field_elements(words@));
        }
        Ok(TraceColumn { log_size, values })
    }

    /// The number of rows.
    pub fn len(&self) -> (r: usize)
        ensures
            r == self.values@.len(),
    {
        self.values.len()
    }

    /// The binary logarithm of the number of rows: the column's degree bound.
    pub fn log_size(&self) -> (r: u32)
        ensures
            r == self.log_size,
    {
        self.log_size
    }
}

/// The rows of packed batch `index` of `words`.
pub open spec fn batch_of(words: Seq<u32>, index: int) -> Seq<u32> {
    words.subrange(N_LANES * index, N_LANES * index + N_LANES)
}

/// The batches of `N_LANES` rows each that `words` splits into.
pub open spec fn batches_of(words: Seq<u32>) -> Seq<Seq<u32>> {
    Seq::new((words.len() / N_LANES as nat) as nat, |i: int| batch_of(words, i))
}

/// The rows of the given batches, batch after batch.
pub open spec fn rows_of(batches: Seq<Seq<u32>>) -> Seq<u32>
    decreases batches.len(),
{
    if batches.len() == 0 {
        Seq::empty()
    } else {
        rows_of(batches.drop_last()) + batches.last()
    }
}

/// Packs rows into batches of `N_LANES` rows, in row order. The number of
/// rows has to be a multiple of `N_LANES`.
pub fn pack_lanes(words: &[u32]) -> (r: Option<Vec<[u32; 16]>>)
    ensures
        r.is_some() <==> words@.len() % N_LANES as nat == 0,
        r matches Some(packed) ==> packed@.map_values(|b: [u32; 16]| b@) == batches_of(words@),
{
    if words.len() % N_LANES != 0 {
        return None;
    }
    let count = words.len() / N_LANES;
    let mut packed: Vec<[u32; 16]> = Vec::new();
    let mut i: usize = 0;
    while i < count
        invariant
            i <= count,
            count == words@.len() / N_LANES as nat,
            words@.len() % N_LANES as nat == 0,
            words@.len() <= usize::MAX,
            packed@.len() == i,
            forall|k: int| 0 <= k < i ==> (#[trigger] packed@[k])@ == batch_of(words@, k),
        decreases count - i,
    {
        let b = i * N_LANES;
        let batch: [u32; 16] = [
            words[b],
            words[b + 1],
            words[b + 2],
            words[b + 3],
            words[b + 4],
            words[b + 5],
            words[b + 6],
            words[b + 7],
            words[b + 8],
            words[b + 9],
            words[b + 10],
            words[b + 11],
            words[b + 12],
            words[b + 13],
            words[b + 14],
            words[b + 15],
        ];
        assert(batch@ =~= batch_of(words@, i as int));
        packed.push(batch);
        i = i + 1;
    }
    assert(packed@.map_values(|b: [u32; 16]| b@) =~= batches_of(words@));
    Some(packed)
}

/// Lays the rows of packed batches out one after the other.
pub fn unpack_lanes(packed: &[[u32; 16]]) -> (r: Vec<u32>)
    ensures
        r@ == rows_of(packed@.map_values(|b: [u32; 16]| b@)),
{
    let ghost batches = packed@.map_values(|b: [u32; 16]| b@);
    let mut words: Vec<u32> = Vec::new();
    let mut i: usize = 0;
    while i < packed.len()
        invariant
            i <= packed@.len(),
            batches == packed@.map_values(|b: [u32; 16]| b@),
            words@ == rows_of(batches.take(i as int)),
        decreases packed.len() - i,
    {
        let batch = &packed[i];
        let ghost before = words@;
        let mut l: usize = 0;
        while l < N_LANES
            invariant
                l <= N_LANES,
                i < packed@.len(),
                *batch == packed@[i as int],
                words@ == before + batch@.take(l as int),
            decreases N_LANES - l,
        {
            words.push(batch[l]);
            assert(words@ =~= before + batch@.take(l + 1));
            l = l + 1;
        }
        proof {
            assert(batch@.take(N_LANES as int) =~= batch@);
            assert(batches.take(i + 1).drop_last() =~= batches.take(i as int));
            assert(batches.take(i + 1).last() == batch@);
        }
        i = i + 1;
    }
    proof {
        assert(batches.take(packed@.len() as int) =~= batches);
    }
    words
}

/// Packing rows into batches and laying the batches out again gives the
/// rows back.
pub proof fn lemma_pack_then_unpack(words: Seq<u32>)
    requires
        words.len() % N_LANES as nat == 0,
    ensures
        rows_of(batches_of(words)) == words,
{
    lemma_rows_of_batches(words, words.len() / N_LANES as nat);
    assert(batches_of(words).take((words.len() / N_LANES as nat) as int) =~= batches_of(words));
    assert(words.take(words.len() as int) =~= words);
}

/// The first `n` batches laid out are the first `N_LANES * n` rows.
proof fn lemma_rows_of_batches(words: Seq<u32>, n: nat)
    requires
        n <= words.len() / N_LANES as nat,
    ensures
        rows_of(batches_of(words).take(n as int)) == words.take(N_LANES * n),
    decreases n,
{
    let batches = batches_of(words);
    if n == 0 {
        assert(rows_of(batches.take(0)) =~= words.take(0));
    } else {
        lemma_rows_of_batches(words, (n - 1) as nat);
        assert(batches.take(n as int).drop_last() =~= batches.take(n - 1));
        assert(batches.take(n as int).last() == batch_of(words, n - 1));
        assert(rows_of(batches.take(n as int)) =~= words.take(N_LANES * n));
    }
}

} // verus!
