//! The stages of proof generation as a state machine. The caller performs
//! each action (committing a tree, drawing challenges, running the prover)
//! and reports what happened; the machine decides what comes next, checks
//! that the claimed sums cancel before the prover runs, and never goes back.

use crate::components::ClaimedSum;
use crate::field::SecureField;
use vstd::prelude::*;

verus! {

/// The largest binary logarithm that a circle domain can have.
pub const MAX_CIRCLE_DOMAIN_LOG_SIZE: u32 = 30;

/// The stage that proof generation is in.
#[derive(Clone, Copy, Debug, PartialEq, Eq, Structural)]
pub enum Stage {
    /// Twiddle factors for the evaluation domain are being derived.
    Precompute,
    /// The witness-independent columns are being generated and committed.
    CommitPreprocessed,
    /// The execution trace is being generated and committed.
    CommitExecution,
    /// The relations' random coefficients are being drawn from the channel.
    DrawChallenges,
    /// The interaction trace is being generated and committed.
    CommitInteraction,
    /// The claimed sums are being checked to cancel.
    SoundnessCheck,
    /// The polynomial-IOP prover is running.
    Prove,
    /// The proof has been produced.
    Done,
    /// A failure has ended the run.
    Failed,
}

/// What the caller has to do next.
#[derive(Clone, Copy, Debug, PartialEq, Eq, Structural)]
pub enum Action {
    PrecomputeTwiddles { log_domain_size: u32 },
    CommitPreprocessed { log_size: u32 },
    CommitExecution { log_size: u32 },
    DrawChallenges,
    CommitInteraction,
    ReportClaimedSum,
    Prove,
    Finish,
}

/// What the caller reports back. `E` is the error type of the prover.
#[derive(Clone, Debug, PartialEq, Eq)]
pub enum Event<E> {
    TwiddlesReady,
    PreprocessedCommitted,
    ExecutionCommitted,
    ChallengesDrawn,
    InteractionCommitted,
    ClaimedSumReported(ClaimedSum),
    Proved,
    ProverFailed(E),
}

/// Why a run ended without a proof. `E` is the error type of the prover.
#[derive(Clone, Debug, PartialEq, Eq)]
pub enum ProveError<E> {
    /// The evaluation domain that the trace size and the blow-up factor ask
    /// for is larger than any circle domain.
    DomainTooLarge { log_size: u32, log_blowup_factor: u32 },
    /// The event does not belong to the stage that the run is in.
    OutOfOrder { stage: Stage },
    /// The claimed sums do not cancel. The sum of each sub-component is
    /// given, with their non-zero total.
    UnbalancedClaimedSum {
        total: SecureField,
        scheduling: SecureField,
        compression: SecureField,
        preprocessed: SecureField,
    },
    /// The prover failed; its error is handed on unchanged.
    Prover(E),
}

/// The position of a stage in the sequence of stages.
pub open spec fn rank(stage: Stage) -> int {
    match stage {
        Stage::Precompute => 0,
        Stage::CommitPreprocessed => 1,
        Stage::CommitExecution => 2,
        Stage::DrawChallenges => 3,
        Stage::CommitInteraction => 4,
        Stage::SoundnessCheck => 5,
        Stage::Prove => 6,
        Stage::Done => 7,
        Stage::Failed => 8,
    }
}

/// The stage that a run is in after an error: a run that is done stays
/// done, any other run has failed.
pub open spec fn stage_after_error(stage: Stage) -> Stage {
    if stage == Stage::Done {
        Stage::Done
    } else {
        Stage::Failed
    }
}

/// The binary logarithm of the domain that twiddles are derived for, if
/// there is a circle domain of that size.
pub open spec fn twiddle_log_size_spec(log_size: u32, log_blowup_factor: u32) -> Option<u32> {
    if log_size + log_blowup_factor + 2 <= MAX_CIRCLE_DOMAIN_LOG_SIZE {
        Some((log_size + log_blowup_factor + 2) as u32)
    } else {
        None
    }
}

/// The error that reports the sums of an unbalanced record.
pub open spec fn unbalanced<E>(claimed_sum: ClaimedSum) -> ProveError<E> {
    ProveError::UnbalancedClaimedSum {
        total: claimed_sum.total_spec(),
        scheduling: claimed_sum.scheduling,
        compression: claimed_sum.compression,
        preprocessed: claimed_sum.preprocessed.sum_spec(),
    }
}

/// The stage that follows and the action to take when `event` is reported
/// in `stage`, or the error that ends the run.
pub open spec fn transition<E>(log_size: u32, stage: Stage, event: Event<E>) -> Result<
    (Stage, Action),
    ProveError<E>,
> {
    match (stage, event) {
        (Stage::Precompute, Event::TwiddlesReady) => Ok(
            (Stage::CommitPreprocessed, Action::CommitPreprocessed { log_size }),
        ),
        (Stage::CommitPreprocessed, Event::PreprocessedCommitted) => Ok(
            (Stage::CommitExecution, Action::CommitExecution { log_size }),
        ),
        (Stage::CommitExecution, Event::ExecutionCommitted) => Ok(
            (Stage::DrawChallenges, Action::DrawChallenges),
        ),
        (Stage::DrawChallenges, Event::ChallengesDrawn) => Ok(
            (Stage::CommitInteraction, Action::CommitInteraction),
        ),
        (Stage::CommitInteraction, Event::InteractionCommitted) => Ok(
            (Stage::SoundnessCheck, Action::ReportClaimedSum),
        ),
        (Stage::SoundnessCheck, Event::ClaimedSumReported(claimed_sum)) => {
            if claimed_sum.total_spec() == SecureField::zero_spec() {
                Ok((Stage::Prove, Action::Prove))
            } else {
                Err(unbalanced(claimed_sum))
            }
        },
        (Stage::Prove, Event::Proved) => Ok((Stage::Done, Action::Finish)),
        (Stage::Prove, Event::ProverFailed(e)) => Err(ProveError::Prover(e)),
        _ => Err(ProveError::OutOfOrder { stage }),
    }
}

/// The binary logarithm of the domain that twiddles are derived for: the
/// trace size, times the blow-up factor, times four.
pub fn twiddle_log_size(log_size: u32, log_blowup_factor: u32) -> (r: Option<u32>)
    ensures
        r == twiddle_log_size_spec(log_size, log_blowup_factor),
{
    if log_size <= MAX_CIRCLE_DOMAIN_LOG_SIZE - 2 && log_blowup_factor
        <= MAX_CIRCLE_DOMAIN_LOG_SIZE - 2 - log_size {
        Some(log_size + log_blowup_factor + 2)
    } else {
        None
    }
}

/// Checks that the claimed sums of all sub-components cancel.
pub fn check_claimed_sum<E>(claimed_sum: &ClaimedSum) -> (r: Result<(), ProveError<E>>)
    requires
        claimed_sum.wf(),
    ensures
        r == (if claimed_sum.total_spec() == SecureField::zero_spec() {
            Ok::<(), ProveError<E>>(())
        } else {
            Err::<(), ProveError<E>>(unbalanced(*claimed_sum))
        }),
{
    let total = claimed_sum.total();
    if total.is_zero() {
        Ok(())
    } else {
        Err(
            ProveError::UnbalancedClaimedSum {
                total,
                scheduling: claimed_sum.scheduling,
                compression: claimed_sum.compression,
                preprocessed: claimed_sum.preprocessed.sum(),
            },
        )
    }
}

/// One run of proof generation.
#[derive(Clone, Copy, Debug, PartialEq, Eq)]
pub struct Orchestrator {
    pub stage: Stage,
    pub log_size: u32,
    pub log_blowup_factor: u32,
}

impl Orchestrator {
    /// Starts a run for a trace of `2^log_size` rows. The first action is to
    /// derive the twiddles.
    pub fn start<E>(log_size: u32, log_blowup_factor: u32) -> (r: Result<
        (Orchestrator, Action),
        ProveError<E>,
    >)
        ensures
            r == (match twiddle_log_size_spec(log_size, log_blowup_factor) {
                Some(log_domain_size) => Ok::<(Orchestrator, Action), ProveError<E>>(
                    (
                        Orchestrator { stage: Stage::Precompute, log_size, log_blowup_factor },
                        Action::PrecomputeTwiddles { log_domain_size },
                    ),
                ),
                None => Err::<(Orchestrator, Action), ProveError<E>>(
                    ProveError::DomainTooLarge { log_size, log_blowup_factor },
                ),
            }),
    {
        match twiddle_log_size(log_size, log_blowup_factor) {
            Some(log_domain_size) => Ok(
                (
                    Orchestrator { stage: Stage::Precompute, log_size, log_blowup_factor },
                    Action::PrecomputeTwiddles { log_domain_size },
                ),
            ),
            None => Err(ProveError::DomainTooLarge { log_size, log_blowup_factor }),
        }
    }

    /// The stage that the run is in.
    pub fn stage(&self) -> (r: Stage)
        ensures
            r == self.stage,
    {
        self.stage
    }

    /// The run has ended, with a proof or with a failure.
    pub fn is_finished(&self) -> (r: bool)
        ensures
            r == (self.stage == Stage::Done || self.stage == Stage::Failed),
    {
        match self.stage {
            Stage::Done => true,
            Stage::Failed => true,
            _ => false,
        }
    }

    /// Takes the report of the action that the stage asked for and moves to
    /// the next stage. Any error ends the run: the stage becomes `Failed`,
    /// from which no event leads on. A run that is done stays done.
    pub fn advance<E>(&mut self, event: Event<E>) -> (r: Result<Action, ProveError<E>>)
        requires
            event matches Event::ClaimedSumReported(claimed_sum) ==> claimed_sum.wf(),
        ensures
            final(self).log_size == old(self).log_size,
            final(self).log_blowup_factor == old(self).log_blowup_factor,
            final(self).stage == stage_after(old(self).log_size, old(self).stage, event),
            match transition(old(self).log_size, old(self).stage, event) {
                Ok((stage, action)) => {
                    &&& r == Ok::<Action, ProveError<E>>(action)
                    &&& final(self).stage == stage
                },
                Err(e) => {
                    &&& r == Err::<Action, ProveError<E>>(e)
                    &&& final(self).stage == stage_after_error(old(self).stage)
                },
            },
    {
        let outcome: Result<(Stage, Action), ProveError<E>> = match (self.stage, event) {
            (Stage::Precompute, Event::TwiddlesReady) => Ok(
                (Stage::CommitPreprocessed, Action::CommitPreprocessed { log_size: self.log_size }),
            ),
            (Stage::CommitPreprocessed, Event::PreprocessedCommitted) => Ok(
                (Stage::CommitExecution, Action::CommitExecution { log_size: self.log_size }),
            ),
            (Stage::CommitExecution, Event::ExecutionCommitted) => Ok(
                (Stage::DrawChallenges, Action::DrawChallenges),
            ),
            (Stage::DrawChallenges, Event::ChallengesDrawn) => Ok(
                (Stage::CommitInteraction, Action::CommitInteraction),
            ),
            (Stage::CommitInteraction, Event::InteractionCommitted) => Ok(
                (Stage::SoundnessCheck, Action::ReportClaimedSum),
            ),
            (Stage::SoundnessCheck, Event::ClaimedSumReported(claimed_sum)) => {
                match check_claimed_sum::<E>(&claimed_sum) {
                    Ok(()) => Ok((Stage::Prove, Action::Prove)),
                    Err(e) => Err(e),
                }
            },
            (Stage::Prove, Event::Proved) => Ok((Stage::Done, Action::Finish)),
            (Stage::Prove, Event::ProverFailed(e)) => Err(ProveError::Prover(e)),
            (stage, _) => Err(ProveError::OutOfOrder { stage }),
        };
        match outcome {
            Ok((stage, action)) => {
                self.stage = stage;
                Ok(action)
            },
            Err(e) => {
                self.stage = match self.stage {
                    Stage::Done => Stage::Done,
                    _ => Stage::Failed,
                };
                Err(e)
            },
        }
    }
}

/// Every step that succeeds leads to the stage that comes next in the
/// sequence: no stage is skipped, repeated or gone back to.
pub proof fn lemma_stages_are_sequential<E>(log_size: u32, stage: Stage, event: Event<E>)
    ensures
        transition(log_size, stage, event) matches Ok((next, _)) ==> rank(next) == rank(stage) + 1,
{
}

/// Challenges are drawn only once the execution trace has been committed,
/// and the interaction trace is committed only once they have been drawn.
pub proof fn lemma_challenges_follow_execution<E>(log_size: u32, stage: Stage, event: Event<E>)
    ensures
        transition(log_size, stage, event) matches Ok((_, Action::DrawChallenges)) ==> stage
            == Stage::CommitExecution && event is ExecutionCommitted,
        transition(log_size, stage, event) matches Ok((_, Action::CommitInteraction)) ==> stage
            == Stage::DrawChallenges && event is ChallengesDrawn,
{
}

/// The prover is started only on claimed sums that cancel, and claimed sums
/// that do not cancel always end the run.
pub proof fn lemma_prover_runs_on_balanced_sums<E>(log_size: u32, stage: Stage, event: Event<E>)
    ensures
        transition(log_size, stage, event) matches Ok((_, Action::Prove)) ==> (event matches Event::ClaimedSumReported(
            claimed_sum,
        ) && claimed_sum.total_spec() == SecureField::zero_spec()),
        event matches Event::ClaimedSumReported(claimed_sum) && claimed_sum.total_spec()
            != SecureField::zero_spec() ==> transition(log_size, stage, event).is_err(),
{
}

/// Nothing follows a finished run.
pub proof fn lemma_finished_runs_stay_finished<E>(log_size: u32, stage: Stage, event: Event<E>)
    requires
        stage == Stage::Done || stage == Stage::Failed,
    ensures
        transition(log_size, stage, event) == Err::<(Stage, Action), ProveError<E>>(
            ProveError::OutOfOrder { stage },
        ),
{
}

/// The stage that a run is in after `event` has been reported in `stage`.
pub open spec fn stage_after<E>(log_size: u32, stage: Stage, event: Event<E>) -> Stage {
    match transition(log_size, stage, event) {
        Ok((next, _)) => next,
        Err(_) => stage_after_error(stage),
    }
}

/// The stage that a run is in after the given events have been reported one
/// after the other, starting in `stage`.
pub open spec fn replay<E>(log_size: u32, stage: Stage, events: Seq<Event<E>>) -> Stage
    decreases events.len(),
{
    if events.len() == 0 {
        stage
    } else {
        replay(log_size, stage_after(log_size, stage, events[0]), events.skip(1))
    }
}

/// A failed run stays failed whatever is reported.
pub proof fn lemma_failed_runs_stay_failed<E>(log_size: u32, events: Seq<Event<E>>)
    ensures
        replay(log_size, Stage::Failed, events) == Stage::Failed,
    decreases events.len(),
{
    if events.len() > 0 {
        lemma_failed_runs_stay_failed(log_size, events.skip(1));
    }
}

/// A run produces a proof only along the whole sequence of stages: if the
/// events reported since the start lead to `Done`, then the first seven of
/// them are, in this order, the twiddles, the commitment of the preprocessed
/// trace, the commitment of the execution trace, the drawing of the
/// challenges, the commitment of the interaction trace, claimed sums that
/// cancel, and the proof.
pub proof fn lemma_proof_needs_every_stage<E>(log_size: u32, events: Seq<Event<E>>)
    requires
        replay(log_size, Stage::Precompute, events) == Stage::Done,
    ensures
        events.len() >= 7,
        events[0] is TwiddlesReady,
        events[1] is PreprocessedCommitted,
        events[2] is ExecutionCommitted,
        events[3] is ChallengesDrawn,
        events[4] is InteractionCommitted,
        events[5] matches Event::ClaimedSumReported(claimed_sum) && claimed_sum.total_spec()
            == SecureField::zero_spec(),
        events[6] is Proved,
{
    let s0 = Stage::Precompute;
    lemma_replay_step(log_size, s0, events, Stage::CommitPreprocessed);
    let e1 = events.skip(1);
    lemma_replay_step(log_size, Stage::CommitPreprocessed, e1, Stage::CommitExecution);
    let e2 = e1.skip(1);
    lemma_replay_step(log_size, Stage::CommitExecution, e2, Stage::DrawChallenges);
    let e3 = e2.skip(1);
    lemma_replay_step(log_size, Stage::DrawChallenges, e3, Stage::CommitInteraction);
    let e4 = e3.skip(1);
    lemma_replay_step(log_size, Stage::CommitInteraction, e4, Stage::SoundnessCheck);
    let e5 = e4.skip(1);
    lemma_replay_step(log_size, Stage::SoundnessCheck, e5, Stage::Prove);
    let e6 = e5.skip(1);
    lemma_replay_step(log_size, Stage::Prove, e6, Stage::Done);
    assert(e1[0] == events[1]);
    assert(e2[0] == events[2]);
    assert(e3[0] == events[3]);
    assert(e4[0] == events[4]);
    assert(e5[0] == events[5]);
    assert(e6[0] == events[6]);
}

/// From a stage before `Done`, a run that ends in `Done` takes the one step
/// that leads on: there is a first event and it leads to the next stage.
proof fn lemma_replay_step<E>(log_size: u32, stage: Stage, events: Seq<Event<E>>, next: Stage)
    requires
        rank(stage) < 7,
        rank(next) == rank(stage) + 1,
        replay(log_size, stage, events) == Stage::Done,
    ensures
        events.len() > 0,
        stage_after(log_size, stage, events[0]) == next,
        transition(log_size, stage, events[0]) is Ok,
        replay(log_size, next, events.skip(1)) == Stage::Done,
{
    if events.len() > 0 {
        let after = stage_after(log_size, stage, events[0]);
        if after == Stage::Failed {
            lemma_failed_runs_stay_failed(log_size, events.skip(1));
        }
    }
}

} // verus!
