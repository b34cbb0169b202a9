//! The declared list of preprocessed groups, handled as one: their raw
//! traces, their claimed sums and their component handles, always in
//! declaration order.

use crate::components::ComponentId;
use crate::field::SecureField;
use crate::trace::conversion_error;
use crate::trace::field_elements;
use crate::trace::TraceColumn;
use crate::trace::TraceError;
use vstd::prelude::*;

verus! {

/// The raw columns of every preprocessed group, one entry per group.
#[derive(Clone, Debug, PartialEq, Eq)]
pub struct Traces {
    pub groups: Vec<Vec<Vec<u32>>>,
}

/// The claimed sum of every preprocessed group, one entry per group.
#[derive(Clone, Debug, PartialEq, Eq)]
pub struct ClaimedSum {
    pub sums: Vec<SecureField>,
}

/// One component handle per preprocessed group.
pub struct Components<H> {
    pub handles: Vec<H>,
}

/// A raw column of the preprocessed trace that is no trace column.
#[derive(Clone, Copy, Debug, PartialEq, Eq, Structural)]
pub struct ColumnError {
    /// Position of the column among all columns of all groups.
    pub index: usize,
    pub cause: TraceError,
}

/// The raw columns of one group.
pub open spec fn group_columns(group: Vec<Vec<u32>>) -> Seq<Seq<u32>> {
    group@.map_values(|c: Vec<u32>| c@)
}

/// The raw columns of all groups, group after group.
pub open spec fn all_columns(groups: Seq<Vec<Vec<u32>>>) -> Seq<Seq<u32>>
    decreases groups.len(),
{
    if groups.len() == 0 {
        Seq::empty()
    } else {
        all_columns(groups.drop_last()) + group_columns(groups.last())
    }
}

/// The number of words in the given columns.
pub open spec fn words_in(columns: Seq<Seq<u32>>) -> nat
    decreases columns.len(),
{
    if columns.len() == 0 {
        0
    } else {
        words_in(columns.drop_last()) + columns.last().len()
    }
}

/// The sum of the given values, added from left to right onto zero.
pub open spec fn sum_of(sums: Seq<SecureField>) -> SecureField
    decreases sums.len(),
{
    if sums.len() == 0 {
        SecureField::zero_spec()
    } else {
        sum_of(sums.drop_last()).add_spec(sums.last())
    }
}

/// The columns of the groups before `i` are the first columns of all.
pub proof fn lemma_all_columns_prefix(groups: Seq<Vec<Vec<u32>>>, i: int)
    requires
        0 <= i <= groups.len(),
    ensures
        all_columns(groups.take(i)).len() <= all_columns(groups).len(),
        forall|k: int|
            0 <= k < all_columns(groups.take(i)).len() ==> all_columns(groups.take(i))[k]
                == all_columns(groups)[k],
    decreases groups.len(),
{
    if i == groups.len() {
        assert(groups.take(i) =~= groups);
    } else {
        lemma_all_columns_prefix(groups.drop_last(), i);
        assert(groups.drop_last().take(i) =~= groups.take(i));
    }
}

/// Taking one group more appends that group's columns.
pub proof fn lemma_all_columns_step(groups: Seq<Vec<Vec<u32>>>, i: int)
    requires
        0 <= i < groups.len(),
    ensures
        all_columns(groups.take(i + 1)) == all_columns(groups.take(i)) + group_columns(groups[i]),
{
    assert(groups.take(i + 1).drop_last() =~= groups.take(i));
}

/// `column` is what the raw words `words` stand for.
pub open spec fn reads_as(words: Seq<u32>, column: TraceColumn) -> bool {
    &&& conversion_error(words).is_none()
    &&& column.wf()
    &&& column.values@ == field_elements(words)
}

/// `e` names the first raw column that is no trace column, and says why.
pub open spec fn first_failure(columns: Seq<Seq<u32>>, e: ColumnError) -> bool {
    &&& e.index < columns.len()
    &&& conversion_error(columns[e.index as int]) == Some(e.cause)
    &&& forall|k: int| 0 <= k < e.index ==> conversion_error(#[trigger] columns[k]).is_none()
}

/// `columns` holds, in order, what each of the raw columns stands for.
pub open spec fn all_read_as(raw: Seq<Seq<u32>>, columns: Seq<TraceColumn>) -> bool {
    &&& columns.len() == raw.len()
    &&& forall|k: int| 0 <= k < columns.len() ==> #[trigger] reads_as(raw[k], columns[k])
}

impl Traces {
    /// All raw columns, group after group.
    pub open spec fn columns(&self) -> Seq<Seq<u32>> {
        all_columns(self.groups@)
    }

    /// The total number of words over all columns of all groups.
    pub fn len(&self) -> (r: usize)
        requires
            words_in(self.columns()) <= usize::MAX,
        ensures
            r == words_in(self.columns()),
    {
        let mut total: usize = 0;
        let mut i: usize = 0;
        while i < self.groups.len()
            invariant
                i <= self.groups.len(),
                total == words_in(all_columns(self.groups@.take(i as int))),
                words_in(self.columns()) <= usize::MAX,
            decreases self.groups.len() - i,
        {
            let group = &self.groups[i];
            let ghost before = all_columns(self.groups@.take(i as int));
            let mut j: usize = 0;
            while j < group.len()
                invariant
                    j <= group.len(),
                    i < self.groups.len(),
                    *group == self.groups@[i as int],
                    before == all_columns(self.groups@.take(i as int)),
                    total == words_in(before + group_columns(*group).take(j as int)),
                    words_in(self.columns()) <= usize::MAX,
                decreases group.len() - j,
            {
                proof {
                    let next = before + group_columns(*group).take(j + 1);
                    assert(next.drop_last() =~= before + group_columns(*group).take(j as int));
                    assert(next.last() == group@[j as int]@);
                    lemma_all_columns_step(self.groups@, i as int);
                    lemma_all_columns_prefix(self.groups@, i + 1);
                    assert(group_columns(*group).take(group@.len() as int) =~= group_columns(
                        *group,
                    ));
                    lemma_words_in_prefix(
                        all_columns(self.groups@.take(i + 1)),
                        before.len() + j + 1,
                    );
                    assert(all_columns(self.groups@.take(i + 1)).take(before.len() + j + 1)
                        =~= next);
                    lemma_words_in_prefix(
                        self.columns(),
                        all_columns(self.groups@.take(i + 1)).len() as int,
                    );
                    assert(self.columns().take(all_columns(self.groups@.take(i + 1)).len() as int)
                        =~= all_columns(self.groups@.take(i + 1)));
                }
                total = total + group[j].len();
                j = j + 1;
            }
            proof {
                lemma_all_columns_step(self.groups@, i as int);
                assert(group_columns(*group).take(group@.len() as int) =~= group_columns(*group));
            }
            i = i + 1;
        }
        proof {
            assert(self.groups@.take(self.groups@.len() as int) =~= self.groups@);
        }
        total
    }

    /// No column of any group holds a word.
    pub fn is_empty(&self) -> (r: bool)
        ensures
            r == (words_in(self.columns()) == 0),
    {
        let mut i: usize = 0;
        while i < self.groups.len()
            invariant
                i <= self.groups.len(),
                words_in(all_columns(self.groups@.take(i as int))) == 0,
            decreases self.groups.len() - i,
        {
            let group = &self.groups[i];
            let ghost before = all_columns(self.groups@.take(i as int));
            let mut j: usize = 0;
            while j < group.len()
                invariant
                    j <= group.len(),
                    i < self.groups.len(),
                    *group == self.groups@[i as int],
                    before == all_columns(self.groups@.take(i as int)),
                    words_in(before + group_columns(*group).take(j as int)) == 0,
                decreases group.len() - j,
            {
                proof {
                    let next = before + group_columns(*group).take(j + 1);
                    assert(next.drop_last() =~= before + group_columns(*group).take(j as int));
                    assert(next.last() == group@[j as int]@);
                }
                if group[j].len() != 0 {
                    proof {
                        let next = before + group_columns(*group).take(j + 1);
                        lemma_all_columns_step(self.groups@, i as int);
                        lemma_all_columns_prefix(self.groups@, i + 1);
                        lemma_words_in_prefix(
                            all_columns(self.groups@.take(i + 1)),
                            before.len() + j + 1,
                        );
                        assert(all_columns(self.groups@.take(i + 1)).take(before.len() + j + 1)
                            =~= next);
                        lemma_words_in_prefix(
                            self.columns(),
                            all_columns(self.groups@.take(i + 1)).len() as int,
                        );
                        assert(self.columns().take(
                            all_columns(self.groups@.take(i + 1)).len() as int,
                        ) =~= all_columns(self.groups@.take(i + 1)));
                    }
                    return false;
                }
                j = j + 1;
            }
            proof {
                lemma_all_columns_step(self.groups@, i as int);
                assert(group_columns(*group).take(group@.len() as int) =~= group_columns(*group));
            }
            i = i + 1;
        }
        proof {
            assert(self.groups@.take(self.groups@.len() as int) =~= self.groups@);
        }
        true
    }

    /// Reads every raw column as a trace column, group after group, and
    /// stops at the first that is none.
    pub fn to_columns(&self) -> (r: Result<Vec<TraceColumn>, ColumnError>)
        ensures
            match r {
                Ok(columns) => all_read_as(self.columns(), columns@),
                Err(e) => first_failure(self.columns(), e),
            },
    {
        let mut out: Vec<TraceColumn> = Vec::new();
        let mut i: usize = 0;
        while i < self.groups.len()
            invariant
                i <= self.groups.len(),
                out@.len() == all_columns(self.groups@.take(i as int)).len(),
                out@.len() <= self.columns().len(),
                forall|k: int|
                    0 <= k < out@.len() ==> #[trigger] reads_as(self.columns()[k], out@[k]),
            decreases self.groups.len() - i,
        {
            let group = &self.groups[i];
            let ghost before = all_columns(self.groups@.take(i as int));
            proof {
                lemma_all_columns_step(self.groups@, i as int);
                lemma_all_columns_prefix(self.groups@, i + 1);
            }
            let mut j: usize = 0;
            while j < group.len()
                invariant
                    j <= group.len(),
                    i < self.groups.len(),
                    *group == self.groups@[i as int],
                    before == all_columns(self.groups@.take(i as int)),
                    out@.len() == before.len() + j,
                    before.len() + group@.len() <= self.columns().len(),
                    forall|k: int|
                        0 <= k < group@.len() ==> self.columns()[before.len() + k]
                            == #[trigger] group@[k]@,
                    forall|k: int|
                        0 <= k < out@.len() ==> #[trigger] reads_as(self.columns()[k], out@[k]),
                decreases group.len() - j,
            {
                assert(self.columns()[before.len() + j] == group@[j as int]@);
                match TraceColumn::from_words(group[j].as_slice()) {
                    Ok(column) => {
                        assert(reads_as(self.columns()[before.len() + j], column));
                        out.push(column);
                    },
                    Err(cause) => {
                        proof {
                            assert forall|k: int| 0 <= k < out@.len() implies conversion_error(
                                #[trigger] self.columns()[k],
                            ).is_none() by {
                                assert(reads_as(self.columns()[k], out@[k]));
                            }
                        }
                        return Err(ColumnError { index: out.len(), cause });
                    },
                }
                j = j + 1;
            }
            i = i + 1;
        }
        proof {
            assert(self.groups@.take(self.groups@.len() as int) =~= self.groups@);
        }
        Ok(out)
    }
}

/// The words of the first `n` columns are among the words of all.
pub proof fn lemma_words_in_prefix(columns: Seq<Seq<u32>>, n: int)
    requires
        0 <= n <= columns.len(),
    ensures
        words_in(columns.take(n)) <= words_in(columns),
        n < columns.len() ==> words_in(columns.take(n)) + columns[n].len() <= words_in(columns),
    decreases columns.len(),
{
    if n == columns.len() {
        assert(columns.take(n) =~= columns);
    } else {
        lemma_words_in_prefix(columns.drop_last(), n);
        assert(columns.drop_last().take(n) =~= columns.take(n));
        if n < columns.len() - 1 {
            assert(columns.drop_last()[n] == columns[n]);
        }
    }
}

impl ClaimedSum {
    /// Every claimed sum is canonical.
    pub open spec fn wf(&self) -> bool {
        forall|i: int| 0 <= i < self.sums@.len() ==> (#[trigger] self.sums@[i]).wf()
    }

    /// The sum over all groups, added in declaration order onto zero.
    pub open spec fn sum_spec(&self) -> SecureField {
        sum_of(self.sums@)
    }

    /// Every claimed sum is canonical.
    pub fn is_canonical(&self) -> (r: bool)
        ensures
            r == self.wf(),
    {
        let mut i: usize = 0;
        while i < self.sums.len()
            invariant
                i <= self.sums@.len(),
                forall|k: int| 0 <= k < i ==> (#[trigger] self.sums@[k]).wf(),
            decreases self.sums.len() - i,
        {
            if !self.sums[i].is_canonical() {
                return false;
            }
            i = i + 1;
        }
        true
    }

    /// The sum over all groups.
    pub fn sum(&self) -> (r: SecureField)
        requires
            self.wf(),
        ensures
            r == self.sum_spec(),
            r.wf(),
    {
        let mut total = SecureField::zero();
        let mut i: usize = 0;
        while i < self.sums.len()
            invariant
                i <= self.sums.len(),
                self.wf(),
                total.wf(),
                total == sum_of(self.sums@.take(i as int)),
            decreases self.sums.len() - i,
        {
            proof {
                assert(self.sums@.take(i + 1).drop_last() =~= self.sums@.take(i as int));
            }
            total = total.add(self.sums[i]);
            i = i + 1;
        }
        proof {
            assert(self.sums@.take(self.sums@.len() as int) =~= self.sums@);
        }
        total
    }
}

/// The columns that the groups' generators returned, group after group.
pub open spec fn interaction_columns(parts: Seq<(Vec<TraceColumn>, SecureField)>) -> Seq<
    TraceColumn,
>
    decreases parts.len(),
{
    if parts.len() == 0 {
        Seq::empty()
    } else {
        interaction_columns(parts.drop_last()) + parts.last().0@
    }
}

/// The claimed sums that the groups' generators returned, in order.
pub open spec fn interaction_sums(parts: Seq<(Vec<TraceColumn>, SecureField)>) -> Seq<
    SecureField,
> {
    parts.map_values(|p: (Vec<TraceColumn>, SecureField)| p.1)
}

/// `parts` holds, for each group in declaration order, what `generate` may
/// return for that group's raw trace.
pub open spec fn generated_interaction<R, G>(
    traces: &Traces,
    relations: &R,
    generate: G,
    parts: Seq<(Vec<TraceColumn>, SecureField)>,
) -> bool where G: Fn(usize, &Vec<Vec<u32>>, &R) -> (Vec<TraceColumn>, SecureField) {
    &&& parts.len() == traces.groups@.len()
    &&& forall|i: int|
        0 <= i < parts.len() ==> call_ensures(
            generate,
            (i as usize, &traces.groups@[i], relations),
            #[trigger] parts[i],
        )
}

/// Runs the trace generator of every group, in declaration order, on the
/// lookup data of the two execution components.
pub fn gen_trace<G>(
    n_groups: usize,
    log_size: u32,
    scheduling_lookup_data: &Vec<Vec<u32>>,
    compression_lookup_data: &Vec<Vec<u32>>,
    generate: G,
) -> (traces: Traces) where G: Fn(usize, u32, &Vec<Vec<u32>>, &Vec<Vec<u32>>) -> Vec<Vec<u32>>
    requires
        forall|i: usize|
            i < n_groups ==> call_requires(
                generate,
                (i, log_size, scheduling_lookup_data, compression_lookup_data),
            ),
    ensures
        traces.groups@.len() == n_groups,
        forall|i: int|
            0 <= i < n_groups ==> call_ensures(
                generate,
                (i as usize, log_size, scheduling_lookup_data, compression_lookup_data),
                #[trigger] traces.groups@[i],
            ),
{
    let mut groups: Vec<Vec<Vec<u32>>> = Vec::new();
    let mut i: usize = 0;
    while i < n_groups
        invariant
            i <= n_groups,
            groups@.len() == i,
            forall|k: usize|
                k < n_groups ==> call_requires(
                    generate,
                    (k, log_size, scheduling_lookup_data, compression_lookup_data),
                ),
            forall|k: int|
                0 <= k < i ==> call_ensures(
                    generate,
                    (k as usize, log_size, scheduling_lookup_data, compression_lookup_data),
                    #[trigger] groups@[k],
                ),
        decreases n_groups - i,
    {
        let group = generate(i, log_size, scheduling_lookup_data, compression_lookup_data);
        groups.push(group);
        i = i + 1;
    }
    Traces { groups }
}

/// Runs the interaction-trace generator of every group, in declaration
/// order, and returns the columns of all groups, group after group, with the
/// claimed sum of each group.
pub fn gen_interaction_trace<R, G>(traces: &Traces, relations: &R, generate: G) -> (r: (
    Vec<TraceColumn>,
    ClaimedSum,
)) where G: Fn(usize, &Vec<Vec<u32>>, &R) -> (Vec<TraceColumn>, SecureField)
    requires
        forall|i: usize|
            i < traces.groups@.len() ==> call_requires(
                generate,
                (i, &traces.groups@[i as int], relations),
            ),
    ensures
        exists|parts: Seq<(Vec<TraceColumn>, SecureField)>|
            {
                &&& #[trigger] generated_interaction(traces, relations, generate, parts)
                &&& r.0@ == interaction_columns(parts)
                &&& r.1.sums@ == interaction_sums(parts)
            },
{
    let mut interaction_trace: Vec<TraceColumn> = Vec::new();
    let mut sums: Vec<SecureField> = Vec::new();
    let ghost mut parts: Seq<(Vec<TraceColumn>, SecureField)> = Seq::empty();
    let mut i: usize = 0;
    while i < traces.groups.len()
        invariant
            i <= traces.groups@.len(),
            parts.len() == i,
            forall|k: usize|
                k < traces.groups@.len() ==> call_requires(
                    generate,
                    (k, &traces.groups@[k as int], relations),
                ),
            forall|k: int|
                0 <= k < i ==> call_ensures(
                    generate,
                    (k as usize, &traces.groups@[k], relations),
                    #[trigger] parts[k],
                ),
            interaction_trace@ == interaction_columns(parts),
            sums@ == interaction_sums(parts),
        decreases traces.groups.len() - i,
    {
        let (mut columns, claimed_sum) = generate(i, &traces.groups[i], relations);
        proof {
            let next = parts.push((columns, claimed_sum));
            assert(next.drop_last() =~= parts);
            assert(interaction_sums(next) =~= interaction_sums(parts).push(claimed_sum));
            parts = next;
        }
        interaction_trace.append(&mut columns);
        sums.push(claimed_sum);
        i = i + 1;
    }
    proof {
        assert(generated_interaction(traces, relations, generate, parts));
    }
    (interaction_trace, ClaimedSum { sums })
}

/// `steps` holds, for each group in declaration order, the allocator and the
/// handle that `build` may return when it is given the allocator that the
/// group before it handed on, starting from `first`.
pub open spec fn built_in_order<A, R, H, B>(
    log_size: u32,
    first: A,
    relations: &R,
    claimed_sum: &ClaimedSum,
    build: B,
    steps: Seq<(A, H)>,
) -> bool where B: Fn(A, ComponentId, u32, &R, SecureField) -> (A, H) {
    &&& steps.len() == claimed_sum.sums@.len()
    &&& forall|i: int|
        0 <= i < steps.len() ==> call_ensures(
            build,
            (
                if i == 0 {
                    first
                } else {
                    steps[i - 1].0
                },
                ComponentId::Preprocessed(i as usize),
                log_size,
                relations,
                claimed_sum.sums@[i],
            ),
            #[trigger] steps[i],
        )
}

/// The allocator that the last of `steps` hands on, or `first` if there is
/// no step.
pub open spec fn last_allocator<A, H>(first: A, steps: Seq<(A, H)>) -> A {
    if steps.len() == 0 {
        first
    } else {
        steps.last().0
    }
}

impl<H> Components<H> {
    /// Builds the component of every group in declaration order. Each is
    /// given the allocator as the one before it left it, and the claimed
    /// sum of its own group.
    pub fn new<A, R, B>(
        log_size: u32,
        location_allocator: A,
        relations: &R,
        claimed_sum: &ClaimedSum,
        build: B,
    ) -> (r: (Components<H>, A)) where B: Fn(A, ComponentId, u32, &R, SecureField) -> (A, H)
        requires
            forall|a: A, i: usize|
                i < claimed_sum.sums@.len() ==> call_requires(
                    build,
                    (a, ComponentId::Preprocessed(i), log_size, relations, claimed_sum.sums@[i as int]),
                ),
        ensures
            exists|steps: Seq<(A, H)>|
                {
                    &&& #[trigger] built_in_order(
                        log_size,
                        location_allocator,
                        relations,
                        claimed_sum,
                        build,
                        steps,
                    )
                    &&& r.0.handles@ == steps.map_values(|s: (A, H)| s.1)
                    &&& r.1 == last_allocator(location_allocator, steps)
                },
    {
        let mut handles: Vec<H> = Vec::new();
        let mut allocator = location_allocator;
        let ghost mut steps: Seq<(A, H)> = Seq::empty();
        let mut i: usize = 0;
        while i < claimed_sum.sums.len()
            invariant
                i <= claimed_sum.sums@.len(),
                steps.len() == i,
                forall|a: A, k: usize|
                    k < claimed_sum.sums@.len() ==> call_requires(
                        build,
                        (
                            a,
                            ComponentId::Preprocessed(k),
                            log_size,
                            relations,
                            claimed_sum.sums@[k as int],
                        ),
                    ),
                forall|k: int|
                    0 <= k < i ==> call_ensures(
                        build,
                        (
                            if k == 0 {
                                location_allocator
                            } else {
                                steps[k - 1].0
                            },
                            ComponentId::Preprocessed(k as usize),
                            log_size,
                            relations,
                            claimed_sum.sums@[k],
                        ),
                        #[trigger] steps[k],
                    ),
                allocator == last_allocator(location_allocator, steps),
                handles@ == steps.map_values(|s: (A, H)| s.1),
            decreases claimed_sum.sums.len() - i,
        {
            let (next_allocator, handle) = build(
                allocator,
                ComponentId::Preprocessed(i),
                log_size,
                relations,
                claimed_sum.sums[i],
            );
            proof {
                let next = steps.push((next_allocator, handle));
                assert(next.map_values(|s: (A, H)| s.1) =~= steps.map_values(|s: (A, H)| s.1).push(
                    handle,
                ));
                steps = next;
            }
            allocator = next_allocator;
            handles.push(handle);
            i = i + 1;
        }
        proof {
            assert(built_in_order(log_size, location_allocator, relations, claimed_sum, build, steps));
        }
        (Components { handles }, allocator)
    }

    /// The handles of all groups, in declaration order.
    pub fn provers(&self) -> (r: Vec<&H>)
        ensures
            r@.len() == self.handles@.len(),
            forall|i: int| 0 <= i < r@.len() ==> *(#[trigger] r@[i]) == self.handles@[i],
    {
        let mut provers: Vec<&H> = Vec::new();
        let mut i: usize = 0;
        while i < self.handles.len()
            invariant
                i <= self.handles@.len(),
                provers@.len() == i,
                forall|k: int| 0 <= k < i ==> *(#[trigger] provers@[k]) == self.handles@[k],
            decreases self.handles.len() - i,
        {
            provers.push(&self.handles[i]);
            i = i + 1;
        }
        provers
    }

    /// The relation entries of all groups: what `entries_of` returns for each
    /// handle, group after group.
    pub fn relation_entries<E, F>(&self, entries_of: F) -> (r: Vec<E>) where
        F: Fn(&H) -> Vec<E>,

        requires
            forall|h: &H| call_requires(entries_of, (h,)),
        ensures
            exists|parts: Seq<Vec<E>>|
                {
                    &&& #[trigger] listed_in_order(self.handles@, entries_of, parts)
                    &&& r@ == joined(parts)
                },
    {
        let mut entries: Vec<E> = Vec::new();
        let ghost mut parts: Seq<Vec<E>> = Seq::empty();
        let mut i: usize = 0;
        while i < self.handles.len()
            invariant
                i <= self.handles@.len(),
                parts.len() == i,
                forall|h: &H| call_requires(entries_of, (h,)),
                forall|k: int|
                    0 <= k < i ==> call_ensures(entries_of, (&self.handles@[k],), #[trigger] parts[k]),
                entries@ == joined(parts),
            decreases self.handles.len() - i,
        {
            let mut part = entries_of(&self.handles[i]);
            proof {
                let next = parts.push(part);
                assert(next.drop_last() =~= parts);
                parts = next;
            }
            entries.append(&mut part);
            i = i + 1;
        }
        proof {
            assert(listed_in_order(self.handles@, entries_of, parts));
        }
        entries
    }

    /// The degree bounds of all groups: what `bounds_of` returns for each
    /// handle, one entry per group in declaration order.
    pub fn trace_log_degree_bounds<F>(&self, bounds_of: F) -> (r: Vec<Vec<Vec<u32>>>) where
        F: Fn(&H) -> Vec<Vec<u32>>,

        requires
            forall|h: &H| call_requires(bounds_of, (h,)),
        ensures
            listed_in_order(self.handles@, bounds_of, r@),
    {
        let mut bounds: Vec<Vec<Vec<u32>>> = Vec::new();
        let mut i: usize = 0;
        while i < self.handles.len()
            invariant
                i <= self.handles@.len(),
                bounds@.len() == i,
                forall|h: &H| call_requires(bounds_of, (h,)),
                forall|k: int|
                    0 <= k < i ==> call_ensures(bounds_of, (&self.handles@[k],), #[trigger] bounds@[k]),
            decreases self.handles.len() - i,
        {
            let bound = bounds_of(&self.handles[i]);
            bounds.push(bound);
            i = i + 1;
        }
        bounds
    }
}

/// `parts` holds, for each handle in order, what `f` may return for it.
pub open spec fn listed_in_order<H, T, F>(handles: Seq<H>, f: F, parts: Seq<T>) -> bool where
    F: Fn(&H) -> T,
 {
    &&& parts.len() == handles.len()
    &&& forall|i: int| 0 <= i < parts.len() ==> call_ensures(f, (&handles[i],), #[trigger] parts[i])
}

/// The given lists, one after the other.
pub open spec fn joined<E>(parts: Seq<Vec<E>>) -> Seq<E>
    decreases parts.len(),
{
    if parts.len() == 0 {
        Seq::empty()
    } else {
        joined(parts.drop_last()) + parts.last()@
    }
}

} // verus!
