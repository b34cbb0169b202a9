use sha256_air::components::ComponentId;
use sha256_air::field::SecureField;
use sha256_air::field::P;
use sha256_air::preprocessed::gen_interaction_trace;
use sha256_air::preprocessed::ClaimedSum;
use sha256_air::preprocessed::ColumnError;
use sha256_air::preprocessed::Components;
use sha256_air::preprocessed::Traces;
use sha256_air::trace::TraceColumn;
use sha256_air::trace::TraceError;

fn q(a: u32, b: u32, c: u32, d: u32) -> SecureField {
    SecureField::new(a, b, c, d).unwrap()
}

#[test]
fn traces_become_columns_group_after_group() {
    let traces = Traces {
        groups: vec![vec![vec![1, 2], vec![3, 4, 5, 6]], vec![vec![7]]],
    };
    let columns = traces.to_columns().unwrap();
    let sizes: Vec<(u32, usize)> = columns.iter().map(|c| (c.log_size(), c.len())).collect();
    assert_eq!(sizes, vec![(1, 2), (2, 4), (0, 1)]);
    let words: Vec<Vec<u32>> =
        columns.iter().map(|c| c.values.iter().map(|v| v.value()).collect()).collect();
    assert_eq!(words, vec![vec![1, 2], vec![3, 4, 5, 6], vec![7]]);
}

#[test]
fn traces_name_the_first_column_that_is_no_trace_column() {
    let traces = Traces {
        groups: vec![vec![vec![1, 2]], vec![vec![3, 4], vec![5, 6, 7], vec![P]]],
    };
    assert_eq!(
        traces.to_columns(),
        Err(ColumnError { index: 2, cause: TraceError::NotPowerOfTwo { len: 3 } })
    );
    let traces = Traces { groups: vec![vec![vec![1, P + 1]], vec![vec![P]]] };
    assert_eq!(
        traces.to_columns(),
        Err(ColumnError { index: 0, cause: TraceError::NotInField { row: 1, value: P + 1 } })
    );
}

#[test]
fn traces_without_groups_have_no_columns() {
    assert_eq!(Traces { groups: vec![] }.to_columns(), Ok(vec![]));
    assert_eq!(Traces { groups: vec![vec![], vec![]] }.to_columns(), Ok(vec![]));
}

#[test]
fn interaction_traces_are_joined_group_after_group() {
    let traces = Traces {
        groups: vec![vec![vec![1, 2]], vec![], vec![vec![3, 4], vec![5, 6]]],
    };
    let generate = |group: usize, raw: &Vec<Vec<u32>>, weight: &u32| {
        let columns: Vec<TraceColumn> =
            raw.iter().map(|c| TraceColumn::from_words(c).unwrap()).collect();
        (columns, q(group as u32, *weight, raw.len() as u32, 0))
    };
    let (trace, claimed_sum) = gen_interaction_trace(&traces, &9u32, generate);
    let firsts: Vec<u32> = trace.iter().map(|c| c.values[0].value()).collect();
    assert_eq!(firsts, vec![1, 3, 5]);
    assert_eq!(
        claimed_sum,
        ClaimedSum { sums: vec![q(0, 9, 1, 0), q(1, 9, 0, 0), q(2, 9, 2, 0)] }
    );
    assert_eq!(claimed_sum.sum(), q(3, 27, 3, 0));
}

#[test]
fn components_are_built_group_after_group_with_one_allocator() {
    let claimed_sum = ClaimedSum { sums: vec![q(1, 0, 0, 0), q(2, 0, 0, 0), q(3, 0, 0, 0)] };
    let build = |next: usize, id: ComponentId, log_size: u32, width: &usize, sum: SecureField| {
        (next + width, (id, log_size, sum, next))
    };
    let (components, next) = Components::new(5, 10usize, &4usize, &claimed_sum, build);
    assert_eq!(next, 22);
    assert_eq!(
        components.handles,
        vec![
            (ComponentId::Preprocessed(0), 5, q(1, 0, 0, 0), 10),
            (ComponentId::Preprocessed(1), 5, q(2, 0, 0, 0), 14),
            (ComponentId::Preprocessed(2), 5, q(3, 0, 0, 0), 18),
        ]
    );
    let bounds = components.trace_log_degree_bounds(
        |h: &(ComponentId, u32, SecureField, usize)| vec![vec![h.1; 2]],
    );
    assert_eq!(bounds, vec![vec![vec![5, 5]]; 3]);
}

#[test]
fn components_without_groups_leave_the_allocator() {
    let claimed_sum = ClaimedSum { sums: vec![] };
    let build = |next: usize, id: ComponentId, _: u32, _: &(), _: SecureField| (next + 1, id);
    let (components, next) = Components::new(5, 7usize, &(), &claimed_sum, build);
    assert_eq!(next, 7);
    assert!(components.handles.is_empty());
    assert!(components.provers().is_empty());
}
