use sha256_air::components::gen_interaction_trace;
use sha256_air::components::gen_trace;
use sha256_air::components::ClaimedSum;
use sha256_air::components::ComponentId;
use sha256_air::components::Components;
use sha256_air::components::LookupData;
use sha256_air::field::SecureField;
use sha256_air::logup::InteractionTrace;
use sha256_air::orchestrator::Action;
use sha256_air::orchestrator::Event;
use sha256_air::orchestrator::Orchestrator;
use sha256_air::orchestrator::ProveError;
use sha256_air::orchestrator::Stage;
use sha256_air::relation::Relation;
use sha256_air::trace::TraceColumn;

type Report = Event<String>;

const LOG_SIZE: u32 = 4;

/// The message words of one block; the scenario runs on the all-zero block.
fn message_block() -> Vec<u32> {
    vec![0; 1 << LOG_SIZE]
}

/// Scheduling looks up the pair `(word, word rotated by one)` of every row.
fn scheduling_rows(block: &[u32]) -> Vec<Vec<u32>> {
    vec![block.to_vec(), block.iter().map(|w| w.rotate_left(1) & 0x7fff).collect()]
}

/// Compression looks up the pair `(row index, word + row index)`.
fn compression_rows(scheduling_trace: &[TraceColumn]) -> Vec<Vec<u32>> {
    let words: Vec<u32> = scheduling_trace[0].values.iter().map(|v| v.value()).collect();
    let indices: Vec<u32> = (0..words.len() as u32).collect();
    let sums: Vec<u32> = words.iter().zip(&indices).map(|(w, i)| (w + i) & 0x7fff).collect();
    vec![indices, sums]
}

fn columns_of(rows: &[Vec<u32>]) -> Vec<TraceColumn> {
    rows.iter().map(|c| TraceColumn::from_words(c).unwrap()).collect()
}

/// The tables hold what a correct run looks up: they do not depend on the
/// witness.
fn table(group: usize) -> Vec<Vec<u32>> {
    let block = message_block();
    if group == 0 {
        scheduling_rows(&block)
    } else {
        compression_rows(&columns_of(&scheduling_rows(&block)))
    }
}

fn execution_trace(block: Vec<u32>, corrupt: Option<(usize, u32)>) -> (Vec<TraceColumn>, LookupData) {
    let scheduling = move |_: u32| {
        let mut rows = scheduling_rows(&block);
        if let Some((row, value)) = corrupt {
            rows[1][row] = value;
        }
        (columns_of(&rows), rows)
    };
    let compression = |scheduling_trace: &Vec<TraceColumn>| {
        let rows = compression_rows(scheduling_trace);
        (columns_of(&rows), rows)
    };
    let preprocessed = |group: usize, _: u32, _: &Vec<Vec<u32>>, _: &Vec<Vec<u32>>| table(group);
    gen_trace(LOG_SIZE, scheduling, compression, 2, preprocessed).unwrap()
}

fn uses(rows: &Vec<Vec<u32>>, relation: &Relation) -> (Vec<TraceColumn>, SecureField) {
    let denominators = relation.combine_rows(rows).unwrap();
    let mut trace = InteractionTrace::new();
    trace.emit_col(&denominators).unwrap();
    (columns_of(rows), trace.claimed_sum())
}

fn yields(rows: &Vec<Vec<u32>>, relation: &Relation) -> (Vec<TraceColumn>, SecureField) {
    let denominators = relation.combine_rows(rows).unwrap();
    let mut trace = InteractionTrace::new();
    trace.consume_col(&denominators).unwrap();
    (columns_of(rows), trace.claimed_sum())
}

fn interaction_trace(lookup_data: LookupData, relation: &Relation) -> (Vec<TraceColumn>, ClaimedSum) {
    gen_interaction_trace(
        lookup_data,
        relation,
        |rows: &Vec<Vec<u32>>, relation: &Relation| uses(rows, relation),
        |rows: &Vec<Vec<u32>>, relation: &Relation| uses(rows, relation),
        |_: usize, rows: &Vec<Vec<u32>>, relation: &Relation| yields(rows, relation),
    )
}

fn advance(run: &mut Orchestrator, event: Report, expected: Action) {
    match run.advance(event) {
        Ok(action) => assert_eq!(action, expected),
        Err(_) => panic!("the step is in order"),
    }
}

fn run_to_soundness_check(
    corrupt: Option<(usize, u32)>,
) -> (Orchestrator, ClaimedSum, usize, usize) {
    let mut channel = stwo::core::channel::Blake2sChannel::default();
    let (mut run, first) = match Orchestrator::start::<String>(LOG_SIZE, 1) {
        Ok(r) => r,
        Err(_) => panic!("the domain fits"),
    };
    assert_eq!(first, Action::PrecomputeTwiddles { log_domain_size: LOG_SIZE + 3 });
    advance(&mut run, Report::TwiddlesReady, Action::CommitPreprocessed { log_size: LOG_SIZE });
    stwo::core::channel::Channel::mix_u64(&mut channel, 1);
    advance(&mut run, Report::PreprocessedCommitted, Action::CommitExecution { log_size: LOG_SIZE });
    let (trace, lookup_data) = execution_trace(message_block(), corrupt);
    stwo::core::channel::Channel::mix_u64(&mut channel, trace.len() as u64);
    advance(&mut run, Report::ExecutionCommitted, Action::DrawChallenges);
    let relation = Relation::draw("lookup".to_string(), 2, &mut channel);
    advance(&mut run, Report::ChallengesDrawn, Action::CommitInteraction);
    let (interaction, claimed_sum) = interaction_trace(lookup_data, &relation);
    advance(&mut run, Report::InteractionCommitted, Action::ReportClaimedSum);
    (run, claimed_sum, trace.len(), interaction.len())
}

#[test]
fn valid_witness_has_claimed_sums_that_cancel() {
    let (_, lookup_data) = execution_trace(message_block(), None);
    let relation = Relation::new(
        "lookup".to_string(),
        2,
        SecureField::new(1, 2, 3, 4).unwrap(),
        SecureField::new(4, 3, 2, 1).unwrap(),
    );
    let (_, claimed_sum) = interaction_trace(lookup_data, &relation);
    assert_ne!(claimed_sum.scheduling, SecureField::zero());
    assert_ne!(claimed_sum.compression, SecureField::zero());
    assert_eq!(claimed_sum.preprocessed.sums.len(), 2);
    assert_eq!(claimed_sum.total(), SecureField::zero());
    assert!(claimed_sum.is_balanced());
}

#[test]
fn pipeline_on_the_zero_block_passes_the_soundness_check() {
    let (mut run, claimed_sum, n_trace, n_interaction) = run_to_soundness_check(None);
    assert_eq!(n_trace, 8);
    assert_eq!(n_interaction, 8);
    assert_eq!(run.stage(), Stage::SoundnessCheck);
    assert_eq!(claimed_sum.total(), SecureField::zero());
    let report = claimed_sum.clone();
    advance(&mut run, Report::ClaimedSumReported(report), Action::Prove);
    assert_eq!(run.stage(), Stage::Prove);

    let build = |next: usize, id: ComponentId, log_size: u32, _: &(), sum: SecureField| {
        (next + 2, (id, log_size, sum, next))
    };
    let (components, next) = Components::new(LOG_SIZE, 0usize, &(), &claimed_sum, build);
    assert_eq!(next, 8);
    let bounds = components.trace_log_degree_bounds(
        |h: &(ComponentId, u32, SecureField, usize)| vec![vec![], vec![h.1; 2], vec![h.1; 4]],
    );
    assert!(!bounds.is_empty());
    assert_eq!(bounds.len(), components.provers().len());
    for component in &bounds {
        for tree in component {
            for bound in tree {
                assert_eq!(*bound, LOG_SIZE);
                assert!(*bound <= LOG_SIZE + 1);
            }
        }
    }
    advance(&mut run, Report::Proved, Action::Finish);
    assert_eq!(run.stage(), Stage::Done);
}

#[test]
fn corrupted_scheduling_value_fails_the_soundness_check() {
    let (mut run, claimed_sum, _, _) = run_to_soundness_check(Some((5, 77)));
    assert_ne!(claimed_sum.total(), SecureField::zero());
    assert!(!claimed_sum.is_balanced());
    let expected_total = claimed_sum.total();
    match run.advance(Report::ClaimedSumReported(claimed_sum)) {
        Err(ProveError::UnbalancedClaimedSum { total, .. }) => {
            assert_eq!(total, expected_total);
            assert_ne!(total, SecureField::zero());
        },
        _ => panic!("the corrupted witness must not pass"),
    }
    assert_eq!(run.stage(), Stage::Failed);
    assert!(run.advance(Report::Proved).is_err());
}

#[test]
fn every_single_corruption_is_caught() {
    let relation = Relation::new(
        "lookup".to_string(),
        2,
        SecureField::new(9, 8, 7, 6).unwrap(),
        SecureField::new(5, 4, 3, 2).unwrap(),
    );
    for row in 0..(1usize << LOG_SIZE) {
        let (_, lookup_data) = execution_trace(message_block(), Some((row, 1 + row as u32)));
        let (_, claimed_sum) = interaction_trace(lookup_data, &relation);
        assert!(!claimed_sum.is_balanced());
    }
}
