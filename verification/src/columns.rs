//! Named groups of trace columns of fixed arity.
//!
//! A schema declares the group's name and the names of its columns, in
//! order. A group binds one column to each declared name: as a borrowed view
//! over storage that lives elsewhere, or as owned values. The schema also
//! derives the stable identifier of each column, the key under which a
//! preprocessed column is registered.

use vstd::prelude::*;
use vstd::slice::slice_subrange;
use vstd::string::StringExecFns;

verus! {

/// The declaration of a column group: its name and its column names.
#[derive(Clone, Debug, PartialEq, Eq)]
pub struct ColumnSchema {
    pub name: String,
    pub columns: Vec<String>,
}

/// The stable identifier of one column.
#[derive(Clone, Debug, PartialEq, Eq)]
pub struct ColumnId {
    pub id: String,
}

/// A borrowed view of the columns of one group, in declaration order.
pub struct ColumnGroup<'a, T: ?Sized> {
    pub schema: &'a ColumnSchema,
    pub columns: Vec<&'a T>,
}

/// The columns of one group as owned values, in declaration order.
pub struct OwnedColumnGroup<'a, T> {
    pub schema: &'a ColumnSchema,
    pub columns: Vec<T>,
}

/// Why a group could not be formed.
#[derive(Clone, Copy, Debug, PartialEq, Eq, Structural)]
pub enum ColumnGroupError {
    /// The number of columns given differs from the declared arity.
    ArityMismatch { expected: usize, found: usize },
}

/// The decimal digit `d` as a character.
pub open spec fn digit_char(d: nat) -> char {
    if d == 0 {
        '0'
    } else if d == 1 {
        '1'
    } else if d == 2 {
        '2'
    } else if d == 3 {
        '3'
    } else if d == 4 {
        '4'
    } else if d == 5 {
        '5'
    } else if d == 6 {
        '6'
    } else if d == 7 {
        '7'
    } else if d == 8 {
        '8'
    } else {
        '9'
    }
}

/// The decimal numeral of `n`, without leading zeros.
pub open spec fn decimal(n: nat) -> Seq<char>
    decreases n,
{
    if n < 10 {
        seq![digit_char(n)]
    } else {
        decimal(n / 10).push(digit_char(n % 10))
    }
}

/// The identifier `{group}_{column}`, followed by `_{suffix}` where a
/// suffix tells instances of the same group apart.
pub open spec fn column_id(group: Seq<char>, column: Seq<char>, suffix: Option<u32>) -> Seq<char> {
    let base = group + seq!['_'] + column;
    match suffix {
        Some(instance) => base + seq!['_'] + decimal(instance as nat),
        None => base,
    }
}

/// The number of chunks of `size` rows that `len` rows split into; the last
/// chunk may be shorter.
pub open spec fn chunk_count(len: nat, size: nat) -> nat {
    if size == 0 {
        0
    } else if len % size == 0 {
        len / size
    } else {
        len / size + 1
    }
}

/// The smallest chunk count over the given columns, or zero without columns.
pub open spec fn common_chunk_count<U>(columns: Seq<Seq<U>>, size: nat) -> nat
    decreases columns.len(),
{
    if columns.len() == 0 {
        0
    } else if columns.len() == 1 {
        chunk_count(columns[0].len(), size)
    } else {
        let rest = common_chunk_count(columns.drop_last(), size);
        let last = chunk_count(columns.last().len(), size);
        if last < rest {
            last
        } else {
            rest
        }
    }
}

/// The row at which chunk `index` starts when rows are split into chunks of
/// `size`.
pub open spec fn chunk_start(size: nat, index: nat) -> int {
    (index * size) as int
}

/// The row before which chunk `index` ends when `len` rows are split into
/// chunks of `size`.
pub open spec fn chunk_end(len: nat, size: nat, index: nat) -> int {
    if chunk_start(size, index) + size <= len {
        chunk_start(size, index) + size
    } else {
        len as int
    }
}

/// The rows of chunk `index` when `column` is split into chunks of `size`.
pub open spec fn chunk_of<U>(column: Seq<U>, size: nat, index: nat) -> Seq<U> {
    column.subrange(chunk_start(size, index), chunk_end(column.len(), size, index))
}

/// The first `n` chunks of `column`, one after the other.
pub open spec fn joined_chunks<U>(column: Seq<U>, size: nat, n: nat) -> Seq<U>
    decreases n,
{
    if n == 0 {
        Seq::empty()
    } else {
        joined_chunks(column, size, (n - 1) as nat) + chunk_of(column, size, (n - 1) as nat)
    }
}

impl ColumnSchema {
    /// The number of columns that the schema declares.
    pub open spec fn arity(&self) -> nat {
        self.columns@.len()
    }

    /// The number of columns that the schema declares.
    pub fn size(&self) -> (r: usize)
        ensures
            r == self.arity(),
    {
        self.columns.len()
    }

    /// The identifier of every column, in declaration order.
    pub fn to_ids(&self, suffix: Option<u32>) -> (r: Vec<ColumnId>)
        ensures
            r@.len() == self.arity(),
            forall|i: int|
                0 <= i < r@.len() ==> (#[trigger] r@[i]).id@ == column_id(
                    self.name@,
                    self.columns@[i]@,
                    suffix,
                ),
    {
        let mut ids: Vec<ColumnId> = Vec::new();
        let mut i: usize = 0;
        while i < self.columns.len()
            invariant
                i <= self.columns@.len(),
                ids@.len() == i,
                forall|k: int|
                    0 <= k < i ==> (#[trigger] ids@[k]).id@ == column_id(
                        self.name@,
                        self.columns@[k]@,
                        suffix,
                    ),
            decreases self.columns.len() - i,
        {
            let mut id = self.name.clone();
            proof {
                reveal_strlit("_");
                assert("_"@ =~= seq!['_']);
            }
            id.append("_");
            id.append(self.columns[i].as_str());
            match suffix {
                Some(instance) => {
                    id.append("_");
                    push_decimal(&mut id, instance);
                },
                None => {},
            }
            ids.push(ColumnId { id });
            i = i + 1;
        }
        ids
    }
}

/// The numeral of one decimal digit.
fn digit_str(d: u32) -> (r: &'static str)
    requires
        d < 10,
    ensures
        r@ == seq![digit_char(d as nat)],
{
    proof {
        reveal_strlit("0");
        reveal_strlit("1");
        reveal_strlit("2");
        reveal_strlit("3");
        reveal_strlit("4");
        reveal_strlit("5");
        reveal_strlit("6");
        reveal_strlit("7");
        reveal_strlit("8");
        reveal_strlit("9");
    }
    let r = if d == 0 {
        "0"
    } else if d == 1 {
        "1"
    } else if d == 2 {
        "2"
    } else if d == 3 {
        "3"
    } else if d == 4 {
        "4"
    } else if d == 5 {
        "5"
    } else if d == 6 {
        "6"
    } else if d == 7 {
        "7"
    } else if d == 8 {
        "8"
    } else {
        "9"
    };
    assert(r@ =~= seq![digit_char(d as nat)]);
    r
}

/// Appends the decimal numeral of `n` to `text`.
fn push_decimal(text: &mut String, n: u32)
    ensures
        final(text)@ == old(text)@ + decimal(n as nat),
    decreases n,
{
    if n >= 10 {
        push_decimal(text, n / 10);
    }
    text.append(digit_str(n % 10));
    proof {
        if n >= 10 {
            assert(old(text)@ + decimal((n / 10) as nat) + seq![digit_char((n % 10) as nat)]
                =~= old(text)@ + decimal(n as nat));
        }
    }
}

impl<'a, T> ColumnGroup<'a, T> {
    /// The columns of the group, in declaration order.
    pub open spec fn view(&self) -> Seq<T> {
        self.columns@.map_values(|c: &T| *c)
    }

    /// The group has as many columns as its schema declares.
    pub open spec fn wf(&self) -> bool {
        self.columns@.len() == self.schema.arity()
    }

    /// Binds each declared column to one entry of `slice`, in order. The
    /// slice has to hold exactly as many entries as the schema declares.
    pub fn from_slice(schema: &'a ColumnSchema, slice: &'a [T]) -> (r: Result<
        ColumnGroup<'a, T>,
        ColumnGroupError,
    >)
        ensures
            match r {
                Ok(group) => {
                    &&& slice@.len() == schema.arity()
                    &&& group@ == slice@
                    &&& group.schema == schema
                    &&& group.wf()
                },
                Err(e) => {
                    &&& slice@.len() != schema.arity()
                    &&& e == (ColumnGroupError::ArityMismatch {
                        expected: schema.arity() as usize,
                        found: slice@.len() as usize,
                    })
                },
            },
    {
        if slice.len() != schema.columns.len() {
            return Err(
                ColumnGroupError::ArityMismatch {
                    expected: schema.columns.len(),
                    found: slice.len(),
                },
            );
        }
        let mut columns: Vec<&'a T> = Vec::new();
        let mut i: usize = 0;
        while i < slice.len()
            invariant
                i <= slice@.len(),
                columns@.len() == i,
                forall|k: int| 0 <= k < i ==> *(#[trigger] columns@[k]) == slice@[k],
            decreases slice.len() - i,
        {
            columns.push(&slice[i]);
            i = i + 1;
        }
        let group = ColumnGroup { schema, columns };
        assert(group@ =~= slice@);
        Ok(group)
    }
}

impl<'a, T: ?Sized> ColumnGroup<'a, T> {
    /// The columns of the group, in declaration order.
    pub fn iter(&self) -> (r: Vec<&'a T>)
        ensures
            r@ == self.columns@,
    {
        let mut out: Vec<&'a T> = Vec::new();
        let mut i: usize = 0;
        while i < self.columns.len()
            invariant
                i <= self.columns@.len(),
                out@ == self.columns@.take(i as int),
            decreases self.columns.len() - i,
        {
            out.push(self.columns[i]);
            assert(out@ =~= self.columns@.take(i + 1));
            i = i + 1;
        }
        assert(out@ =~= self.columns@);
        out
    }
}

impl<'a, U> ColumnGroup<'a, Vec<U>> {
    /// The rows of every column.
    pub open spec fn rows(&self) -> Seq<Seq<U>> {
        self.columns@.map_values(|c: &Vec<U>| c@)
    }

    /// Splits every column into chunks of `chunk_size` rows and returns one
    /// group per chunk index, which holds that chunk of every column. The
    /// last chunk of a column may be shorter; the column with the fewest
    /// chunks fixes how many groups there are.
    pub fn chunks(&self, chunk_size: usize) -> (r: Vec<ColumnGroup<'a, [U]>>)
        requires
            chunk_size > 0,
        ensures
            r@.len() == common_chunk_count(self.rows(), chunk_size as nat),
            forall|c: int|
                0 <= c < r@.len() ==> {
                    &&& (#[trigger] r@[c]).schema == self.schema
                    &&& r@[c].columns@.len() == self.columns@.len()
                },
            forall|c: int, j: int|
                0 <= c < r@.len() && 0 <= j < self.columns@.len() ==> (
                #[trigger] r@[c].columns@[j])@ == chunk_of(
                    self.columns@[j]@,
                    chunk_size as nat,
                    c as nat,
                ),
    {
        let count = self.chunk_count(chunk_size);
        let mut groups: Vec<ColumnGroup<'a, [U]>> = Vec::new();
        let mut c: usize = 0;
        while c < count
            invariant
                c <= count,
                chunk_size > 0,
                count == common_chunk_count(self.rows(), chunk_size as nat),
                groups@.len() == c,
                forall|k: int|
                    0 <= k < c ==> {
                        &&& (#[trigger] groups@[k]).schema == self.schema
                        &&& groups@[k].columns@.len() == self.columns@.len()
                    },
                forall|k: int, j: int|
                    0 <= k < c && 0 <= j < self.columns@.len() ==> (
                    #[trigger] groups@[k].columns@[j])@ == chunk_of(
                        self.columns@[j]@,
                        chunk_size as nat,
                        k as nat,
                    ),
            decreases count - c,
        {
            let mut columns: Vec<&'a [U]> = Vec::new();
            let mut j: usize = 0;
            while j < self.columns.len()
                invariant
                    j <= self.columns@.len(),
                    c < count,
                    chunk_size > 0,
                    count == common_chunk_count(self.rows(), chunk_size as nat),
                    columns@.len() == j,
                    forall|m: int|
                        0 <= m < j ==> (#[trigger] columns@[m])@ == chunk_of(
                            self.columns@[m]@,
                            chunk_size as nat,
                            c as nat,
                        ),
                decreases self.columns.len() - j,
            {
                let column: &'a Vec<U> = self.columns[j];
                let column_len = column.len();
                proof {
                    assert(self.rows()[j as int] == column@);
                    lemma_common_chunk_count_bound(self.rows(), chunk_size as nat, j as int);
                    lemma_chunk_starts_inside(column@.len(), chunk_size as nat, c as nat);
                    assert(c * chunk_size < column@.len());
                }
                let start = c * chunk_size;
                let end = if chunk_size <= column_len - start {
                    start + chunk_size
                } else {
                    column_len
                };
                let chunk: &'a [U] = slice_subrange(column.as_slice(), start, end);
                columns.push(chunk);
                j = j + 1;
            }
            groups.push(ColumnGroup { schema: self.schema, columns });
            c = c + 1;
        }
        groups
    }

    /// The number of groups that `chunks` returns.
    fn chunk_count(&self, chunk_size: usize) -> (r: usize)
        requires
            chunk_size > 0,
        ensures
            r == common_chunk_count(self.rows(), chunk_size as nat),
    {
        let mut count: usize = 0;
        let mut j: usize = 0;
        while j < self.columns.len()
            invariant
                j <= self.columns@.len(),
                chunk_size > 0,
                count == common_chunk_count(self.rows().take(j as int), chunk_size as nat),
            decreases self.columns.len() - j,
        {
            let len = self.columns[j].len();
            proof {
                if len % chunk_size != 0 {
                    assert(chunk_size >= 2);
                    vstd::arithmetic::div_mod::lemma_div_is_ordered_by_denominator(
                        len as int,
                        2,
                        chunk_size as int,
                    );
                }
            }
            let own = if len % chunk_size == 0 {
                len / chunk_size
            } else {
                len / chunk_size + 1
            };
            proof {
                let next = self.rows().take(j + 1);
                assert(next.drop_last() =~= self.rows().take(j as int));
                assert(next.last() == self.columns@[j as int]@);
            }
            if j == 0 || own < count {
                count = own;
            }
            j = j + 1;
        }
        proof {
            assert(self.rows().take(self.columns@.len() as int) =~= self.rows());
        }
        count
    }
}

impl<'a, T> OwnedColumnGroup<'a, T> {
    /// The group has as many columns as its schema declares.
    pub open spec fn wf(&self) -> bool {
        self.columns@.len() == self.schema.arity()
    }

    /// Binds each declared column to one of the given values, in order.
    /// There have to be exactly as many values as the schema declares.
    pub fn from_values(schema: &'a ColumnSchema, values: Vec<T>) -> (r: Result<
        OwnedColumnGroup<'a, T>,
        ColumnGroupError,
    >)
        ensures
            match r {
                Ok(group) => {
                    &&& values@.len() == schema.arity()
                    &&& group.columns@ == values@
                    &&& group.schema == schema
                    &&& group.wf()
                },
                Err(e) => {
                    &&& values@.len() != schema.arity()
                    &&& e == (ColumnGroupError::ArityMismatch {
                        expected: schema.arity() as usize,
                        found: values@.len() as usize,
                    })
                },
            },
    {
        if values.len() != schema.columns.len() {
            return Err(
                ColumnGroupError::ArityMismatch {
                    expected: schema.columns.len(),
                    found: values.len(),
                },
            );
        }
        Ok(OwnedColumnGroup { schema, columns: values })
    }

    /// The columns of the group, in declaration order.
    pub fn iter(&self) -> (r: Vec<&T>)
        ensures
            r@.map_values(|c: &T| *c) == self.columns@,
    {
        let mut out: Vec<&T> = Vec::new();
        let mut i: usize = 0;
        while i < self.columns.len()
            invariant
                i <= self.columns@.len(),
                out@.len() == i,
                forall|k: int| 0 <= k < i ==> *(#[trigger] out@[k]) == self.columns@[k],
            decreases self.columns.len() - i,
        {
            out.push(&self.columns[i]);
            i = i + 1;
        }
        assert(out@.map_values(|c: &T| *c) =~= self.columns@);
        out
    }
}

/// Every column has at least as many chunks as the group has in common.
pub proof fn lemma_common_chunk_count_bound<U>(columns: Seq<Seq<U>>, size: nat, j: int)
    requires
        0 <= j < columns.len(),
    ensures
        common_chunk_count(columns, size) <= chunk_count(columns[j].len(), size),
    decreases columns.len(),
{
    if columns.len() > 1 {
        if j < columns.len() - 1 {
            lemma_common_chunk_count_bound(columns.drop_last(), size, j);
        }
    }
}

/// A chunk index below the chunk count starts inside the column.
pub proof fn lemma_chunk_starts_inside(len: nat, size: nat, index: nat)
    requires
        size > 0,
        index < chunk_count(len, size),
    ensures
        index * size < len,
{
    let q = len / size;
    assert(len == size * q + len % size) by {
        vstd::arithmetic::div_mod::lemma_fundamental_div_mod(len as int, size as int);
    }
    if len % size == 0 {
        assert(index * size <= (q - 1) * size) by (nonlinear_arith)
            requires
                index <= q - 1,
                size > 0,
        ;
        assert((q - 1) * size == size * q - size) by (nonlinear_arith);
    } else {
        assert(index * size <= q * size) by (nonlinear_arith)
            requires
                index <= q,
                size > 0,
        ;
        assert(q * size == size * q) by (nonlinear_arith);
    }
}

/// Binding the entries of a slice and listing the columns of the group
/// gives the entries of the slice back, in the same order: `group` is what
/// `from_slice` returns for `slice`, and `listed` is what `iter` returns for
/// `group`.
pub proof fn lemma_from_slice_then_iter<T>(
    slice: Seq<T>,
    group: ColumnGroup<'_, T>,
    listed: Seq<&T>,
)
    requires
        group@ == slice,
        listed == group.columns@,
    ensures
        listed.map_values(|c: &T| *c) == slice,
{
}

/// Splitting a column into chunks and joining all chunks in order gives the
/// column back. In particular this holds where the chunk size divides the
/// number of rows.
pub proof fn lemma_chunks_rejoin<U>(column: Seq<U>, size: nat)
    requires
        size > 0,
    ensures
        joined_chunks(column, size, chunk_count(column.len(), size)) == column,
{
    lemma_joined_chunks_prefix(column, size, chunk_count(column.len(), size));
    let n = chunk_count(column.len(), size);
    let q = column.len() / size;
    assert(column.len() == size * q + column.len() % size) by {
        vstd::arithmetic::div_mod::lemma_fundamental_div_mod(column.len() as int, size as int);
    }
    assert(n * size >= column.len()) by (nonlinear_arith)
        requires
            column.len() == size * q + column.len() % size,
            column.len() % size < size,
            n == (if column.len() % size == 0 {
                q
            } else {
                q + 1
            }),
            size > 0,
    ;
    assert(column.take(column.len() as int) =~= column);
}

/// Chunks do not overlap: a chunk ends before any later chunk starts.
pub proof fn lemma_chunks_are_disjoint(len: nat, size: nat, first: nat, second: nat)
    requires
        first < second,
    ensures
        chunk_end(len, size, first) <= chunk_start(size, second),
{
    assert(first * size + size <= second * size) by (nonlinear_arith)
        requires
            first + 1 <= second,
    ;
    if chunk_start(size, first) + size > len {
        assert(len < second * size);
    }
}

/// Columns of equal length have as many chunks in common as each has.
pub proof fn lemma_common_chunk_count_of_equal_columns<U>(columns: Seq<Seq<U>>, size: nat, len: nat)
    requires
        columns.len() > 0,
        forall|j: int| 0 <= j < columns.len() ==> (#[trigger] columns[j]).len() == len,
    ensures
        common_chunk_count(columns, size) == chunk_count(len, size),
    decreases columns.len(),
{
    if columns.len() > 1 {
        let rest = columns.drop_last();
        assert forall|j: int| 0 <= j < rest.len() implies (#[trigger] rest[j]).len() == len by {
            assert(rest[j] == columns[j]);
        }
        lemma_common_chunk_count_of_equal_columns(rest, size, len);
    }
}

/// Splitting a group whose columns all have `len` rows into chunks and
/// joining, for each column, its chunk of every group in order gives the
/// column back. In particular this holds where the chunk size divides `len`.
pub proof fn lemma_group_chunks_rejoin<U>(columns: Seq<Seq<U>>, size: nat, len: nat, j: int)
    requires
        size > 0,
        0 <= j < columns.len(),
        forall|k: int| 0 <= k < columns.len() ==> (#[trigger] columns[k]).len() == len,
    ensures
        joined_chunks(columns[j], size, common_chunk_count(columns, size)) == columns[j],
{
    lemma_common_chunk_count_of_equal_columns(columns, size, len);
    lemma_chunks_rejoin(columns[j], size);
}

/// The first `n` chunks joined are the first `n * size` rows, or the whole
/// column where it has fewer.
pub proof fn lemma_joined_chunks_prefix<U>(column: Seq<U>, size: nat, n: nat)
    requires
        size > 0,
        n <= chunk_count(column.len(), size),
    ensures
        joined_chunks(column, size, n) == column.take(
            if n * size <= column.len() {
                (n * size) as int
            } else {
                column.len() as int
            },
        ),
    decreases n,
{
    if n == 0 {
        assert(0 * size == 0) by (nonlinear_arith);
        assert(column.take(0) =~= Seq::<U>::empty());
    } else {
        let m = (n - 1) as nat;
        lemma_joined_chunks_prefix(column, size, m);
        lemma_chunk_starts_inside(column.len(), size, m);
        assert(n * size == m * size + size) by (nonlinear_arith)
            requires
                n == m + 1,
        ;
        let end = if n * size <= column.len() {
            (n * size) as int
        } else {
            column.len() as int
        };
        assert(joined_chunks(column, size, n) =~= column.take(end));
    }
}

} // verus!
