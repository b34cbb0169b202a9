use sha256_air::components::assemble_trace;
use sha256_air::components::gen_interaction_trace;
use sha256_air::components::gen_trace;
use sha256_air::components::ClaimedSum;
use sha256_air::components::ComponentId;
use sha256_air::components::Components;
use sha256_air::components::ComposeError;
use sha256_air::components::LookupData;
use sha256_air::field::SecureField;
use sha256_air::field::P;
use sha256_air::preprocessed;
use sha256_air::trace::TraceColumn;
use sha256_air::trace::TraceError;
use stwo_constraint_framework::TraceLocationAllocator;

fn q(a: u32, b: u32, c: u32, d: u32) -> SecureField {
    SecureField::new(a, b, c, d).unwrap()
}

fn column(first: u32, log_size: u32) -> TraceColumn {
    let words: Vec<u32> = (0..(1u32 << log_size)).map(|i| first + i).collect();
    TraceColumn::from_words(&words).unwrap()
}

fn firsts(trace: &[TraceColumn]) -> Vec<u32> {
    trace.iter().map(|c| c.values[0].value()).collect()
}

#[test]
fn gen_trace_joins_the_columns_in_declaration_order() {
    let scheduling = |log_size: u32| (vec![column(100, log_size), column(200, log_size)], vec![vec![1u32, 2]]);
    let compression = |scheduling_trace: &Vec<TraceColumn>| {
        let n = scheduling_trace.len() as u32;
        (vec![column(300 + n, scheduling_trace[0].log_size())], vec![vec![3u32], vec![4u32]])
    };
    let preprocessed = |group: usize, log_size: u32, s: &Vec<Vec<u32>>, c: &Vec<Vec<u32>>| {
        let base = 1000 * (group as u32 + 1) + s.len() as u32 * 10 + c.len() as u32;
        let words: Vec<u32> = (0..(1u32 << log_size)).map(|i| base + i).collect();
        vec![words.clone(), words.iter().map(|w| w + 500).collect()]
    };
    let (trace, lookup_data) = gen_trace(4, scheduling, compression, 2, preprocessed).unwrap();
    assert_eq!(firsts(&trace), vec![100, 200, 302, 1012, 1512, 2012, 2512]);
    assert!(trace.iter().all(|c| c.log_size() == 4 && c.len() == 16));
    assert_eq!(lookup_data.scheduling, vec![vec![1u32, 2]]);
    assert_eq!(lookup_data.compression, vec![vec![3u32], vec![4u32]]);
    assert_eq!(lookup_data.preprocessed.groups.len(), 2);
    assert_eq!(lookup_data.preprocessed.groups[0][0][0], 1012);
    assert_eq!(lookup_data.preprocessed.groups[1][1][15], 2527);
}

#[test]
fn gen_trace_refuses_a_trace_smaller_than_one_batch() {
    let scheduling = |_: u32| -> (Vec<TraceColumn>, Vec<Vec<u32>>) { unreachable!() };
    let compression = |_: &Vec<TraceColumn>| -> (Vec<TraceColumn>, Vec<Vec<u32>>) { unreachable!() };
    let preprocessed =
        |_: usize, _: u32, _: &Vec<Vec<u32>>, _: &Vec<Vec<u32>>| -> Vec<Vec<u32>> { unreachable!() };
    let r = gen_trace(3, scheduling, compression, 1, preprocessed);
    assert_eq!(r.err(), Some(ComposeError::LogSizeTooSmall { log_size: 3 }));
}

#[test]
fn gen_trace_accepts_the_smallest_trace() {
    let scheduling = |log_size: u32| (vec![column(1, log_size)], vec![]);
    let compression = |_: &Vec<TraceColumn>| (vec![], vec![]);
    let preprocessed = |_: usize, _: u32, _: &Vec<Vec<u32>>, _: &Vec<Vec<u32>>| vec![];
    let (trace, lookup_data) = gen_trace(4, scheduling, compression, 0, preprocessed).unwrap();
    assert_eq!(trace.len(), 1);
    assert!(lookup_data.preprocessed.is_empty());
}

#[test]
fn gen_trace_reports_a_preprocessed_column_outside_the_field() {
    let scheduling = |log_size: u32| (vec![column(1, log_size)], vec![]);
    let compression = |_: &Vec<TraceColumn>| (vec![], vec![]);
    let preprocessed = |group: usize, _: u32, _: &Vec<Vec<u32>>, _: &Vec<Vec<u32>>| {
        if group == 0 {
            vec![vec![1u32, 2], vec![3u32, 4]]
        } else {
            vec![vec![5u32, 6], vec![7u32, P]]
        }
    };
    let r = gen_trace(4, scheduling, compression, 2, preprocessed);
    assert_eq!(
        r.err(),
        Some(ComposeError::Preprocessed(preprocessed::ColumnError {
            index: 3,
            cause: TraceError::NotInField { row: 1, value: P },
        }))
    );
}

#[test]
fn assemble_trace_reports_the_first_bad_column() {
    let traces = preprocessed::Traces {
        groups: vec![vec![vec![1, 2, 3]], vec![vec![P]]],
    };
    let r = assemble_trace((vec![], vec![]), (vec![], vec![]), traces);
    assert_eq!(
        r.err(),
        Some(ComposeError::Preprocessed(preprocessed::ColumnError {
            index: 0,
            cause: TraceError::NotPowerOfTwo { len: 3 },
        }))
    );
}

#[test]
fn preprocessed_traces_count_their_words() {
    let traces = preprocessed::Traces {
        groups: vec![vec![vec![1, 2], vec![3, 4]], vec![], vec![vec![5, 6, 7, 8]]],
    };
    assert_eq!(traces.len(), 8);
    assert!(!traces.is_empty());
    let columns = traces.to_columns().unwrap();
    assert_eq!(firsts(&columns), vec![1, 3, 5]);
    let empty = preprocessed::Traces { groups: vec![vec![], vec![vec![]]] };
    assert_eq!(empty.len(), 0);
    assert!(empty.is_empty());
    assert!(preprocessed::Traces { groups: vec![] }.is_empty());
}

#[test]
fn preprocessed_gen_trace_runs_every_group_in_order() {
    let s = vec![vec![7u32]];
    let c = vec![vec![8u32], vec![9u32]];
    let generate = |group: usize, log_size: u32, s: &Vec<Vec<u32>>, c: &Vec<Vec<u32>>| {
        vec![vec![group as u32, log_size, s[0][0], c[1][0]]]
    };
    let traces = preprocessed::gen_trace(3, 5, &s, &c, generate);
    assert_eq!(
        traces.groups,
        vec![vec![vec![0, 5, 7, 9]], vec![vec![1, 5, 7, 9]], vec![vec![2, 5, 7, 9]]]
    );
}

fn lookup_data() -> LookupData {
    LookupData {
        scheduling: vec![vec![1, 2]],
        compression: vec![vec![3, 4]],
        preprocessed: preprocessed::Traces {
            groups: vec![vec![vec![5]], vec![vec![6], vec![7]]],
        },
    }
}

#[test]
fn gen_interaction_trace_joins_columns_and_keeps_each_claimed_sum() {
    let scheduling = |data: &Vec<Vec<u32>>, shift: &u32| {
        (vec![column(data[0][0] + shift, 2)], q(1, 0, 0, 0))
    };
    let compression = |data: &Vec<Vec<u32>>, shift: &u32| {
        (vec![column(data[0][0] + shift, 2), column(data[0][1] + shift, 2)], q(2, 0, 0, 0))
    };
    let preprocessed = |group: usize, data: &Vec<Vec<u32>>, shift: &u32| {
        let columns: Vec<TraceColumn> = data.iter().map(|c| column(c[0] + shift, 2)).collect();
        (columns, q(10 + group as u32, 0, 0, 0))
    };
    let (trace, claimed_sum) =
        gen_interaction_trace(lookup_data(), &100u32, scheduling, compression, preprocessed);
    assert_eq!(firsts(&trace), vec![101, 103, 104, 105, 106, 107]);
    assert_eq!(claimed_sum.scheduling, q(1, 0, 0, 0));
    assert_eq!(claimed_sum.compression, q(2, 0, 0, 0));
    assert_eq!(claimed_sum.preprocessed.sums, vec![q(10, 0, 0, 0), q(11, 0, 0, 0)]);
    assert_eq!(claimed_sum.preprocessed.sum(), q(21, 0, 0, 0));
    assert_eq!(claimed_sum.total(), q(24, 0, 0, 0));
    assert!(!claimed_sum.is_balanced());
}

#[test]
fn claimed_sum_total_adds_every_sub_component() {
    let claimed_sum = ClaimedSum {
        scheduling: q(5, 1, 0, 0),
        compression: q(P - 2, 0, 7, 0),
        preprocessed: preprocessed::ClaimedSum {
            sums: vec![q(P - 1, P - 1, 0, 0), q(P - 2, 0, P - 7, 0)],
        },
    };
    assert_eq!(claimed_sum.preprocessed.sum(), q(P - 3, P - 1, P - 7, 0));
    assert_eq!(claimed_sum.total(), SecureField::zero());
    assert!(claimed_sum.is_balanced());
}

#[test]
fn claimed_sum_without_preprocessed_groups() {
    let claimed_sum = ClaimedSum {
        scheduling: q(5, 0, 0, 0),
        compression: q(P - 5, 0, 0, 0),
        preprocessed: preprocessed::ClaimedSum { sums: vec![] },
    };
    assert_eq!(claimed_sum.preprocessed.sum(), SecureField::zero());
    assert!(claimed_sum.is_balanced());
}

type Handle = (ComponentId, u32, SecureField, usize, usize);
type TreeVec<T> = stwo::core::pcs::TreeVec<T>;

fn build(
    mut allocator: TraceLocationAllocator,
    id: ComponentId,
    log_size: u32,
    width: &usize,
    claimed_sum: SecureField,
) -> (TraceLocationAllocator, Handle) {
    let n_columns = match id {
        ComponentId::Scheduling => *width,
        ComponentId::Compression => *width + 1,
        ComponentId::Preprocessed(i) => *width + 2 + i,
    };
    let structure: TreeVec<Vec<()>> = TreeVec::new(vec![vec![], vec![(); n_columns], vec![(); 4]]);
    let spans = allocator.next_for_structure(&structure);
    let handle = (id, log_size, claimed_sum, spans[1].col_start, spans[1].col_end);
    (allocator, handle)
}

fn components() -> Components<Handle> {
    let claimed_sum = ClaimedSum {
        scheduling: q(1, 0, 0, 0),
        compression: q(2, 0, 0, 0),
        preprocessed: preprocessed::ClaimedSum { sums: vec![q(3, 0, 0, 0), q(4, 0, 0, 0)] },
    };
    let (components, mut allocator) =
        Components::new(6, TraceLocationAllocator::default(), &3usize, &claimed_sum, build);
    let structure: TreeVec<Vec<()>> = TreeVec::new(vec![vec![], vec![()], vec![()]]);
    let next = allocator.next_for_structure(&structure);
    assert_eq!(next[1].col_start, 3 + 4 + 5 + 6);
    assert_eq!(next[2].col_start, 16);
    components
}

#[test]
fn components_are_built_in_declaration_order() {
    let components = components();
    assert_eq!(
        components.scheduling,
        (ComponentId::Scheduling, 6, q(1, 0, 0, 0), 0, 3)
    );
    assert_eq!(
        components.compression,
        (ComponentId::Compression, 6, q(2, 0, 0, 0), 3, 7)
    );
    assert_eq!(
        components.preprocessed.handles,
        vec![
            (ComponentId::Preprocessed(0), 6, q(3, 0, 0, 0), 7, 12),
            (ComponentId::Preprocessed(1), 6, q(4, 0, 0, 0), 12, 18),
        ]
    );
}

#[test]
fn provers_are_listed_in_declaration_order() {
    let components = components();
    let ids: Vec<ComponentId> = components.provers().into_iter().map(|h| h.0).collect();
    assert_eq!(
        ids,
        vec![
            ComponentId::Scheduling,
            ComponentId::Compression,
            ComponentId::Preprocessed(0),
            ComponentId::Preprocessed(1),
        ]
    );
    let inner: Vec<ComponentId> =
        components.preprocessed.provers().into_iter().map(|h| h.0).collect();
    assert_eq!(inner, vec![ComponentId::Preprocessed(0), ComponentId::Preprocessed(1)]);
}

#[test]
fn degree_bounds_follow_the_column_order() {
    let components = components();
    let bounds = components.trace_log_degree_bounds(|h: &Handle| {
        vec![vec![], vec![h.1; h.4 - h.3], vec![h.1; 4]]
    });
    assert_eq!(bounds.len(), 4);
    let widths: Vec<usize> = bounds.iter().map(|b| b[1].len()).collect();
    assert_eq!(widths, vec![3, 4, 5, 6]);
    assert!(bounds.iter().all(|b| b.iter().all(|tree| tree.iter().all(|bound| *bound == 6))));
}

#[test]
fn relation_entries_are_joined_in_declaration_order() {
    let components = components();
    let entries = components.track_relations(|h: &Handle| vec![h.3, h.4]);
    assert_eq!(entries, vec![0, 3, 3, 7, 7, 12, 12, 18]);
    let inner = components.preprocessed.relation_entries(|h: &Handle| vec![h.3]);
    assert_eq!(inner, vec![7, 12]);
}

#[test]
fn claimed_sum_canonical_test_reads_every_sum() {
    let mut claimed_sum = ClaimedSum {
        scheduling: q(1, 0, 0, 0),
        compression: q(2, 0, 0, 0),
        preprocessed: preprocessed::ClaimedSum { sums: vec![q(3, 0, 0, 0), q(4, 0, 0, 0)] },
    };
    assert!(claimed_sum.is_canonical());
    claimed_sum.preprocessed.sums[1].lo.im.value = P;
    assert!(!claimed_sum.preprocessed.is_canonical());
    assert!(!claimed_sum.is_canonical());
}
