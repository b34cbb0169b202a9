//! The composition of the named sub-components (scheduling, compression and
//! the preprocessed groups) into one AIR instance. Declaration order is
//! scheduling, compression, then the preprocessed groups in their own order;
//! every list that this module returns follows it.

use crate::field::SecureField;
use crate::preprocessed;
use crate::preprocessed::joined;
use crate::preprocessed::listed_in_order;
use crate::trace::TraceColumn;
use crate::trace::LOG_N_LANES;
use vstd::prelude::*;

verus! {

/// Names one sub-component of the composition.
#[derive(Clone, Copy, Debug, PartialEq, Eq, Structural)]
pub enum ComponentId {
    Scheduling,
    Compression,
    /// The preprocessed group at the given position of the declared list.
    Preprocessed(usize),
}

/// The raw lookup values that each sub-component produced while its
/// execution trace was generated, column by column. A column holds its rows
/// one after the other; where the generators work on packed batches, the
/// batches are laid out in row order. The record lives until the
/// interaction trace is generated from it.
#[derive(Clone, Debug, PartialEq, Eq)]
pub struct LookupData {
    pub scheduling: Vec<Vec<u32>>,
    pub compression: Vec<Vec<u32>>,
    pub preprocessed: preprocessed::Traces,
}

/// The claimed sum of each sub-component.
#[derive(Clone, Debug, PartialEq, Eq)]
pub struct ClaimedSum {
    pub scheduling: SecureField,
    pub compression: SecureField,
    pub preprocessed: preprocessed::ClaimedSum,
}

/// One component handle per sub-component.
pub struct Components<H> {
    pub scheduling: H,
    pub compression: H,
    pub preprocessed: preprocessed::Components<H>,
}

/// Why the execution trace could not be composed.
#[derive(Clone, Copy, Debug, PartialEq, Eq, Structural)]
pub enum ComposeError {
    /// The trace has fewer rows than one packed batch.
    LogSizeTooSmall { log_size: u32 },
    /// A raw column of a preprocessed group is no trace column.
    Preprocessed(preprocessed::ColumnError),
}

impl ClaimedSum {
    /// Every claimed sum is canonical.
    pub open spec fn wf(&self) -> bool {
        &&& self.scheduling.wf()
        &&& self.compression.wf()
        &&& self.preprocessed.wf()
    }

    /// Scheduling plus compression plus the sum over the preprocessed groups.
    pub open spec fn total_spec(&self) -> SecureField {
        self.scheduling.add_spec(self.compression).add_spec(self.preprocessed.sum_spec())
    }

    /// Every claimed sum is canonical.
    pub fn is_canonical(&self) -> (r: bool)
        ensures
            r == self.wf(),
    {
        self.scheduling.is_canonical() && self.compression.is_canonical()
            && self.preprocessed.is_canonical()
    }

    /// The sum over all sub-components.
    pub fn total(&self) -> (r: SecureField)
        requires
            self.wf(),
        ensures
            r == self.total_spec(),
            r.wf(),
    {
        let execution = self.scheduling.add(self.compression);
        let preprocessed = self.preprocessed.sum();
        execution.add(preprocessed)
    }

    /// The sub-components' claimed sums cancel: their total is zero.
    pub fn is_balanced(&self) -> (r: bool)
        requires
            self.wf(),
        ensures
            r == (self.total_spec() == SecureField::zero_spec()),
    {
        self.total().is_zero()
    }
}

/// `r` is the composition of the three generators' results: the columns of
/// scheduling, then of compression, then of the preprocessed groups, with
/// the lookup data of each; or the first preprocessed column that is no
/// trace column.
pub open spec fn assembled(
    scheduling: (Vec<TraceColumn>, Vec<Vec<u32>>),
    compression: (Vec<TraceColumn>, Vec<Vec<u32>>),
    traces: preprocessed::Traces,
    r: Result<(Vec<TraceColumn>, LookupData), ComposeError>,
) -> bool {
    match r {
        Ok((trace, lookup_data)) => {
            &&& lookup_data.scheduling == scheduling.1
            &&& lookup_data.compression == compression.1
            &&& lookup_data.preprocessed == traces
            &&& trace@.len() == scheduling.0@.len() + compression.0@.len() + traces.columns().len()
            &&& trace@.take((scheduling.0@.len() + compression.0@.len()) as int) == scheduling.0@
                + compression.0@
            &&& preprocessed::all_read_as(
                traces.columns(),
                trace@.skip((scheduling.0@.len() + compression.0@.len()) as int),
            )
        },
        Err(ComposeError::Preprocessed(e)) => preprocessed::first_failure(traces.columns(), e),
        Err(ComposeError::LogSizeTooSmall { .. }) => false,
    }
}

/// Joins the results of the three trace generators into one execution trace
/// and one record of lookup data.
pub fn assemble_trace(
    scheduling: (Vec<TraceColumn>, Vec<Vec<u32>>),
    compression: (Vec<TraceColumn>, Vec<Vec<u32>>),
    traces: preprocessed::Traces,
) -> (r: Result<(Vec<TraceColumn>, LookupData), ComposeError>)
    ensures
        assembled(scheduling, compression, traces, r),
{
    let mut preprocessed_columns = match traces.to_columns() {
        Ok(columns) => columns,
        Err(e) => {
            return Err(ComposeError::Preprocessed(e));
        },
    };
    let (scheduling_trace, scheduling_lookup_data) = scheduling;
    let (mut compression_trace, compression_lookup_data) = compression;
    let ghost converted = preprocessed_columns@;
    let mut trace = scheduling_trace;
    trace.append(&mut compression_trace);
    trace.append(&mut preprocessed_columns);
    let lookup_data = LookupData {
        scheduling: scheduling_lookup_data,
        compression: compression_lookup_data,
        preprocessed: traces,
    };
    proof {
        let n = (scheduling.0@.len() + compression.0@.len()) as int;
        assert(trace@.take(n) =~= scheduling.0@ + compression.0@);
        assert(trace@.skip(n) =~= converted);
    }
    Ok((trace, lookup_data))
}

/// `s`, `c` and `traces` are what the three generators may return when they
/// run in declaration order, each on what the ones before it produced.
pub open spec fn generated_trace<S, C, G>(
    log_size: u32,
    scheduling: S,
    compression: C,
    n_groups: usize,
    preprocessed: G,
    s: (Vec<TraceColumn>, Vec<Vec<u32>>),
    c: (Vec<TraceColumn>, Vec<Vec<u32>>),
    traces: preprocessed::Traces,
) -> bool where
    S: FnOnce(u32) -> (Vec<TraceColumn>, Vec<Vec<u32>>),
    C: FnOnce(&Vec<TraceColumn>) -> (Vec<TraceColumn>, Vec<Vec<u32>>),
    G: Fn(usize, u32, &Vec<Vec<u32>>, &Vec<Vec<u32>>) -> Vec<Vec<u32>>,
 {
    &&& call_ensures(scheduling, (log_size,), s)
    &&& call_ensures(compression, (&s.0,), c)
    &&& traces.groups@.len() == n_groups
    &&& forall|i: int|
        0 <= i < n_groups ==> call_ensures(
            preprocessed,
            (i as usize, log_size, &s.1, &c.1),
            #[trigger] traces.groups@[i],
        )
}

/// Generates the execution trace of every sub-component in declaration
/// order. Compression is given the scheduling trace; each preprocessed group
/// is given the lookup data of scheduling and of compression.
pub fn gen_trace<S, C, G>(
    log_size: u32,
    scheduling: S,
    compression: C,
    n_groups: usize,
    preprocessed: G,
) -> (r: Result<(Vec<TraceColumn>, LookupData), ComposeError>) where
    S: FnOnce(u32) -> (Vec<TraceColumn>, Vec<Vec<u32>>),
    C: FnOnce(&Vec<TraceColumn>) -> (Vec<TraceColumn>, Vec<Vec<u32>>),
    G: Fn(usize, u32, &Vec<Vec<u32>>, &Vec<Vec<u32>>) -> Vec<Vec<u32>>,

    requires
        log_size >= LOG_N_LANES ==> call_requires(scheduling, (log_size,)),
        forall|s: (Vec<TraceColumn>, Vec<Vec<u32>>)|
            call_ensures(scheduling, (log_size,), s) ==> call_requires(compression, (&s.0,)),
        forall|
            i: usize,
            s: (Vec<TraceColumn>, Vec<Vec<u32>>),
            c: (Vec<TraceColumn>, Vec<Vec<u32>>),
        |
            i < n_groups && call_ensures(scheduling, (log_size,), s) && call_ensures(
                compression,
                (&s.0,),
                c,
            ) ==> call_requires(preprocessed, (i, log_size, &s.1, &c.1)),
    ensures
        log_size < LOG_N_LANES ==> r == Err::<(Vec<TraceColumn>, LookupData), ComposeError>(
            ComposeError::LogSizeTooSmall { log_size },
        ),
        log_size >= LOG_N_LANES ==> exists|
            s: (Vec<TraceColumn>, Vec<Vec<u32>>),
            c: (Vec<TraceColumn>, Vec<Vec<u32>>),
            traces: preprocessed::Traces,
        |
            {
                &&& #[trigger] generated_trace(
                    log_size,
                    scheduling,
                    compression,
                    n_groups,
                    preprocessed,
                    s,
                    c,
                    traces,
                )
                &&& assembled(s, c, traces, r)
            },
{
    if log_size < LOG_N_LANES {
        return Err(ComposeError::LogSizeTooSmall { log_size });
    }
    let s = scheduling(log_size);
    let c = compression(&s.0);
    let traces = preprocessed::gen_trace(n_groups, log_size, &s.1, &c.1, preprocessed);
    proof {
        assert(generated_trace(
            log_size,
            scheduling,
            compression,
            n_groups,
            preprocessed,
            s,
            c,
            traces,
        ));
    }
    assemble_trace(s, c, traces)
}

/// `s`, `c` and `parts` are what the three interaction generators may
/// return for the lookup data of their own sub-component.
pub open spec fn generated_interaction<R, S, C, G>(
    lookup_data: LookupData,
    relations: &R,
    scheduling: S,
    compression: C,
    preprocessed: G,
    s: (Vec<TraceColumn>, SecureField),
    c: (Vec<TraceColumn>, SecureField),
    parts: Seq<(Vec<TraceColumn>, SecureField)>,
) -> bool where
    S: FnOnce(&Vec<Vec<u32>>, &R) -> (Vec<TraceColumn>, SecureField),
    C: FnOnce(&Vec<Vec<u32>>, &R) -> (Vec<TraceColumn>, SecureField),
    G: Fn(usize, &Vec<Vec<u32>>, &R) -> (Vec<TraceColumn>, SecureField),
 {
    &&& call_ensures(scheduling, (&lookup_data.scheduling, relations), s)
    &&& call_ensures(compression, (&lookup_data.compression, relations), c)
    &&& preprocessed::generated_interaction(&lookup_data.preprocessed, relations, preprocessed, parts)
}

/// Generates the interaction trace of every sub-component in declaration
/// order, from the lookup data that its execution trace left behind. The
/// columns come back joined in that order, with the claimed sum of each
/// sub-component.
pub fn gen_interaction_trace<R, S, C, G>(
    lookup_data: LookupData,
    relations: &R,
    scheduling: S,
    compression: C,
    preprocessed: G,
) -> (r: (Vec<TraceColumn>, ClaimedSum)) where
    S: FnOnce(&Vec<Vec<u32>>, &R) -> (Vec<TraceColumn>, SecureField),
    C: FnOnce(&Vec<Vec<u32>>, &R) -> (Vec<TraceColumn>, SecureField),
    G: Fn(usize, &Vec<Vec<u32>>, &R) -> (Vec<TraceColumn>, SecureField),

    requires
        call_requires(scheduling, (&lookup_data.scheduling, relations)),
        call_requires(compression, (&lookup_data.compression, relations)),
        forall|i: usize|
            i < lookup_data.preprocessed.groups@.len() ==> call_requires(
                preprocessed,
                (i, &lookup_data.preprocessed.groups@[i as int], relations),
            ),
    ensures
        exists|
            s: (Vec<TraceColumn>, SecureField),
            c: (Vec<TraceColumn>, SecureField),
            parts: Seq<(Vec<TraceColumn>, SecureField)>,
        |
            {
                &&& #[trigger] generated_interaction(
                    lookup_data,
                    relations,
                    scheduling,
                    compression,
                    preprocessed,
                    s,
                    c,
                    parts,
                )
                &&& r.0@ == s.0@ + c.0@ + preprocessed::interaction_columns(parts)
                &&& r.1.scheduling == s.1
                &&& r.1.compression == c.1
                &&& r.1.preprocessed.sums@ == preprocessed::interaction_sums(parts)
            },
{
    let s = scheduling(&lookup_data.scheduling, relations);
    let c = compression(&lookup_data.compression, relations);
    let (mut preprocessed_trace, preprocessed_claimed_sum) = preprocessed::gen_interaction_trace(
        &lookup_data.preprocessed,
        relations,
        preprocessed,
    );
    let ghost parts = choose|parts: Seq<(Vec<TraceColumn>, SecureField)>|
        {
            &&& #[trigger] preprocessed::generated_interaction(
                &lookup_data.preprocessed,
                relations,
                preprocessed,
                parts,
            )
            &&& preprocessed_trace@ == preprocessed::interaction_columns(parts)
            &&& preprocessed_claimed_sum.sums@ == preprocessed::interaction_sums(parts)
        };
    let (scheduling_trace, scheduling_claimed_sum) = s;
    let (mut compression_trace, compression_claimed_sum) = c;
    let mut interaction_trace = scheduling_trace;
    interaction_trace.append(&mut compression_trace);
    interaction_trace.append(&mut preprocessed_trace);
    proof {
        assert(generated_interaction(
            lookup_data,
            relations,
            scheduling,
            compression,
            preprocessed,
            s,
            c,
            parts,
        ));
    }
    (
        interaction_trace,
        ClaimedSum {
            scheduling: scheduling_claimed_sum,
            compression: compression_claimed_sum,
            preprocessed: preprocessed_claimed_sum,
        },
    )
}

/// `s`, `c` and `steps` are what `build` may return when the components are
/// built in declaration order, each with the allocator as the one before it
/// left it and with its own claimed sum.
pub open spec fn composed_in_order<A, R, H, B>(
    log_size: u32,
    first: A,
    relations: &R,
    claimed_sum: &ClaimedSum,
    build: B,
    s: (A, H),
    c: (A, H),
    steps: Seq<(A, H)>,
) -> bool where B: Fn(A, ComponentId, u32, &R, SecureField) -> (A, H) {
    &&& call_ensures(
        build,
        (first, ComponentId::Scheduling, log_size, relations, claimed_sum.scheduling),
        s,
    )
    &&& call_ensures(
        build,
        (s.0, ComponentId::Compression, log_size, relations, claimed_sum.compression),
        c,
    )
    &&& preprocessed::built_in_order(log_size, c.0, relations, &claimed_sum.preprocessed, build, steps)
}

impl<H> Components<H> {
    /// The handles in declaration order.
    pub open spec fn handles(&self) -> Seq<H> {
        seq![self.scheduling, self.compression] + self.preprocessed.handles@
    }

    /// Builds the component of every sub-component in declaration order.
    /// Column locations are handed out in the order in which components are
    /// built, so each is given the allocator as the one before it left it.
    pub fn new<A, R, B>(
        log_size: u32,
        location_allocator: A,
        relations: &R,
        claimed_sum: &ClaimedSum,
        build: B,
    ) -> (r: (Components<H>, A)) where B: Fn(A, ComponentId, u32, &R, SecureField) -> (A, H)
        requires
            forall|a: A|
                call_requires(
                    build,
                    (a, ComponentId::Scheduling, log_size, relations, claimed_sum.scheduling),
                ),
            forall|a: A|
                call_requires(
                    build,
                    (a, ComponentId::Compression, log_size, relations, claimed_sum.compression),
                ),
            forall|a: A, i: usize|
                i < claimed_sum.preprocessed.sums@.len() ==> call_requires(
                    build,
                    (
                        a,
                        ComponentId::Preprocessed(i),
                        log_size,
                        relations,
                        claimed_sum.preprocessed.sums@[i as int],
                    ),
                ),
        ensures
            exists|s: (A, H), c: (A, H), steps: Seq<(A, H)>|
                {
                    &&& #[trigger] composed_in_order(
                        log_size,
                        location_allocator,
                        relations,
                        claimed_sum,
                        build,
                        s,
                        c,
                        steps,
                    )
                    &&& r.0.scheduling == s.1
                    &&& r.0.compression == c.1
                    &&& r.0.preprocessed.handles@ == steps.map_values(|step: (A, H)| step.1)
                    &&& r.1 == preprocessed::last_allocator(c.0, steps)
                },
    {
        let s = build(
            location_allocator,
            ComponentId::Scheduling,
            log_size,
            relations,
            claimed_sum.scheduling,
        );
        let ghost s_spec = s;
        let (allocator, scheduling) = s;
        let c = build(
            allocator,
            ComponentId::Compression,
            log_size,
            relations,
            claimed_sum.compression,
        );
        let ghost c_spec = c;
        let (allocator, compression) = c;
        let (preprocessed, allocator) = preprocessed::Components::new(
            log_size,
            allocator,
            relations,
            &claimed_sum.preprocessed,
            build,
        );
        let ghost steps = choose|steps: Seq<(A, H)>|
            {
                &&& #[trigger] preprocessed::built_in_order(
                    log_size,
                    c_spec.0,
                    relations,
                    &claimed_sum.preprocessed,
                    build,
                    steps,
                )
                &&& preprocessed.handles@ == steps.map_values(|step: (A, H)| step.1)
                &&& allocator == preprocessed::last_allocator(c_spec.0, steps)
            };
        proof {
            assert(composed_in_order(
                log_size,
                location_allocator,
                relations,
                claimed_sum,
                build,
                s_spec,
                c_spec,
                steps,
            ));
        }
        (Components { scheduling, compression, preprocessed }, allocator)
    }

    /// The handles of all sub-components, in declaration order.
    pub fn provers(&self) -> (r: Vec<&H>)
        ensures
            r@.len() == self.handles().len(),
            forall|i: int| 0 <= i < r@.len() ==> *(#[trigger] r@[i]) == self.handles()[i],
    {
        let mut provers: Vec<&H> = Vec::new();
        provers.push(&self.scheduling);
        provers.push(&self.compression);
        let mut rest = self.preprocessed.provers();
        provers.append(&mut rest);
        provers
    }

    /// The relation entries of all sub-components: what `entries_of` returns
    /// for each handle, joined in declaration order.
    pub fn track_relations<E, F>(&self, entries_of: F) -> (r: Vec<E>) where F: Fn(&H) -> Vec<E>
        requires
            forall|h: &H| call_requires(entries_of, (h,)),
        ensures
            exists|parts: Seq<Vec<E>>|
                {
                    &&& #[trigger] listed_in_order(self.handles(), entries_of, parts)
                    &&& r@ == joined(parts)
                },
    {
        let mut entries = entries_of(&self.scheduling);
        let ghost first = entries;
        let mut second = entries_of(&self.compression);
        let ghost second_spec = second;
        entries.append(&mut second);
        let mut rest = self.preprocessed.relation_entries(entries_of);
        let ghost tail = choose|parts: Seq<Vec<E>>|
            {
                &&& #[trigger] listed_in_order(self.preprocessed.handles@, entries_of, parts)
                &&& rest@ == joined(parts)
            };
        entries.append(&mut rest);
        proof {
            let parts = seq![first, second_spec] + tail;
            assert(listed_in_order(self.handles(), entries_of, parts));
            lemma_joined_concat(seq![first, second_spec], tail);
            lemma_joined_concat(seq![first], seq![second_spec]);
            lemma_joined_single(first);
            lemma_joined_single(second_spec);
            assert(seq![first, second_spec] =~= seq![first] + seq![second_spec]);
        }
        entries
    }

    /// The degree bounds of all sub-components: what `bounds_of` returns for
    /// each handle, one entry per sub-component in declaration order.
    pub fn trace_log_degree_bounds<F>(&self, bounds_of: F) -> (r: Vec<Vec<Vec<u32>>>) where
        F: Fn(&H) -> Vec<Vec<u32>>,

        requires
            forall|h: &H| call_requires(bounds_of, (h,)),
        ensures
            listed_in_order(self.handles(), bounds_of, r@),
    {
        let mut log_degree_bounds: Vec<Vec<Vec<u32>>> = Vec::new();
        log_degree_bounds.push(bounds_of(&self.scheduling));
        log_degree_bounds.push(bounds_of(&self.compression));
        let mut rest = self.preprocessed.trace_log_degree_bounds(bounds_of);
        log_degree_bounds.append(&mut rest);
        log_degree_bounds
    }
}

/// A single list joins to itself.
pub proof fn lemma_joined_single<E>(a: Vec<E>)
    ensures
        joined(seq![a]) == a@,
{
    assert(seq![a].drop_last() =~= Seq::<Vec<E>>::empty());
    assert(joined(seq![a].drop_last()) =~= Seq::<E>::empty());
    assert(seq![a].last() == a);
    assert(joined(seq![a]) =~= a@);
}

/// Joining two lists of lists joins what each of them joins to.
pub proof fn lemma_joined_concat<E>(a: Seq<Vec<E>>, b: Seq<Vec<E>>)
    ensures
        joined(a + b) == joined(a) + joined(b),
    decreases b.len(),
{
    if b.len() == 0 {
        assert(a + b =~= a);
        assert(joined(a) + joined(b) =~= joined(a));
    } else {
        lemma_joined_concat(a, b.drop_last());
        assert((a + b).drop_last() =~= a + b.drop_last());
        assert((a + b).last() == b.last());
        assert(joined(a + b) =~= joined(a) + joined(b));
    }
}

} // verus!
