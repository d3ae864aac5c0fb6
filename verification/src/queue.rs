use vstd::prelude::*;
use crate::jobs::{
    internal_job_in_progress, is_unfinished_status, is_updated_job, status_equals, Job, JobStore,
    JobType, JOB_STATUS_IN_PROGRESS, JOB_STATUS_PAUSED, JOB_STATUS_PENDING,
};

verus! {

/// Below this cycle balance the queue stops, to keep the canister alive.
pub const QUEUE_CYCLE_THRESHOLD: u64 = 40_000_000_000;

/// What the job queue does on one of its turns.
#[derive(Debug, PartialEq)]
pub enum QueueAction {
    /// The cycle balance is too low: the queue stops.
    StopLowCycles,
    /// No unfinished job is left: the queue stops.
    Idle,
    /// The next job is paused: the queue stops until it is pending again.
    Paused { job_id: u128 },
    /// Run one step of an LLM fairness evaluation.
    RunLLMFairness { job_id: u128, model_id: u128, model_evaluation_id: u128 },
    /// Run an average fairness computation over the jobs it depends on.
    RunAverageFairness { job_id: u128, model_id: u128, job_dependencies: Vec<u128> },
    /// Ask the next question of a language evaluation.
    RunLanguageEvaluation { job_id: u128, model_id: u128, language_model_evaluation_id: u128 },
    /// A job whose type the queue does not run: it counts as finished.
    SkipUnsupported { job_id: u128 },
}

/// Decides the queue's turn. With enough cycles, it takes the next unfinished
/// job; a pending job is first marked in progress with its counters reset.
pub fn next_queue_action(store: &mut JobStore, cycles: u64) -> (res: QueueAction)
    requires
        old(store).wf(),
    ensures
        final(store).wf(),
        final(store).next_id() == old(store).next_id(),
        final(store).last_processed() == old(store).last_processed(),
        final(store).stop_set() == old(store).stop_set(),
        final(store).jobs_view().len() == old(store).jobs_view().len(),
        cycles < QUEUE_CYCLE_THRESHOLD ==> res == QueueAction::StopLowCycles && final(store).jobs_view() == old(store).jobs_view(),
        cycles >= QUEUE_CYCLE_THRESHOLD ==> {
            &&& res == QueueAction::Idle <==> (forall|i: int|
                0 <= i < old(store).jobs_view().len() && i + 1 > old(store).last_processed()
                    ==> !is_unfinished_status((#[trigger] old(store).jobs_view()[i]).status@))
            &&& res == QueueAction::Idle ==> final(store).jobs_view() == old(store).jobs_view()
            &&& res != QueueAction::Idle ==> exists|i: int|
                0 <= i < old(store).jobs_view().len() && i + 1 > old(store).last_processed()
                    && is_unfinished_status((#[trigger] old(store).jobs_view()[i]).status@)
                    && (forall|k: int|
                    0 <= k < i && k + 1 > old(store).last_processed() ==> !is_unfinished_status(
                        (#[trigger] old(store).jobs_view()[k]).status@,
                    )) && queue_action_for(old(store).jobs_view()[i], res) && ((res is SkipUnsupported) ==> ((old(
                    store,
                ).jobs_view()[i].job_type is Unassigned) || (old(store).jobs_view()[i].job_type is ContextAssociationTest)))
                    && ((old(store).jobs_view()[i].job_type is AverageFairness) && old(store).jobs_view()[i].status@
                    != JOB_STATUS_PAUSED@ ==> (res is RunAverageFairness))
                    && (if old(store).jobs_view()[i].status@ == JOB_STATUS_PENDING@ {
                    is_updated_job(
                        old(store).jobs_view()[i],
                        final(store).jobs_view()[i],
                        JOB_STATUS_IN_PROGRESS@,
                        None,
                        Some(0),
                        Some(0),
                        Some(0),
                    ) && (forall|k: int|
                        0 <= k < old(store).jobs_view().len() && k != i
                            ==> #[trigger] final(store).jobs_view()[k] == old(store).jobs_view()[k])
                } else {
                    final(store).jobs_view() == old(store).jobs_view()
                })
        },
{
    if cycles < QUEUE_CYCLE_THRESHOLD {
        return QueueAction::StopLowCycles;
    }
    let (job_id, model_id, job_type, pending, paused) = match store.get_next_unfinished_job() {
        Some(job) => (
            job.id,
            job.model_id,
            copy_job_type(&job.job_type),
            status_equals(&job.status, JOB_STATUS_PENDING),
            status_equals(&job.status, JOB_STATUS_PAUSED),
        ),
        None => {
            return QueueAction::Idle;
        },
    };
    if pending {
        internal_job_in_progress(store, job_id, model_id, 0, 0, 0);
    }
    if paused {
        return QueueAction::Paused { job_id };
    }
    match job_type {
        JobType::LLMFairness { model_evaluation_id } => QueueAction::RunLLMFairness {
            job_id,
            model_id,
            model_evaluation_id,
        },
        JobType::AverageFairness { job_dependencies } => QueueAction::RunAverageFairness {
            job_id,
            model_id,
            job_dependencies,
        },
        JobType::LanguageEvaluation { language_model_evaluation_id } => QueueAction::RunLanguageEvaluation {
            job_id,
            model_id,
            language_model_evaluation_id,
        },
        _ => QueueAction::SkipUnsupported { job_id },
    }
}

/// The queue action that a job of this kind asks for.
pub open spec fn queue_action_for(job: Job, action: QueueAction) -> bool {
    if job.status@ == JOB_STATUS_PAUSED@ {
        action == QueueAction::Paused { job_id: job.id }
    } else {
        match (job.job_type, action) {
            (
                JobType::LLMFairness { model_evaluation_id: e },
                QueueAction::RunLLMFairness { job_id, model_id, model_evaluation_id },
            ) => job_id == job.id && model_id == job.model_id && model_evaluation_id == e,
            (
                JobType::AverageFairness { job_dependencies: d },
                QueueAction::RunAverageFairness { job_id, model_id, job_dependencies },
            ) => job_id == job.id && model_id == job.model_id && job_dependencies@ == d@,
            (
                JobType::LanguageEvaluation { language_model_evaluation_id: e },
                QueueAction::RunLanguageEvaluation { job_id, model_id, language_model_evaluation_id },
            ) => job_id == job.id && model_id == job.model_id && language_model_evaluation_id == e,
            (JobType::LLMFairness { .. }, _) => false,
            (JobType::AverageFairness { .. }, _) => false,
            (JobType::LanguageEvaluation { .. }, _) => false,
            (_, a) => a == QueueAction::SkipUnsupported { job_id: job.id },
        }
    }
}

/// Law: the queue runs each job by its type. A paused job stops the queue;
/// any other job of type LLM fairness, average fairness or language evaluation
/// is run by the action of that type, with the job's own id, model id and
/// evaluation id or dependencies; and a job is skipped as unsupported only when
/// its type is one that the queue does not run (unassigned, or a context
/// association test), never one of those three.
pub proof fn lemma_queue_runs_each_job_by_type(job: Job, action: QueueAction)
    requires
        queue_action_for(job, action),
    ensures
        job.status@ == JOB_STATUS_PAUSED@ ==> action == (QueueAction::Paused { job_id: job.id }),
        job.status@ != JOB_STATUS_PAUSED@ ==> (match job.job_type {
            JobType::LLMFairness { model_evaluation_id: e } => (match action {
                QueueAction::RunLLMFairness { job_id, model_id, model_evaluation_id } => job_id == job.id
                    && model_id == job.model_id && model_evaluation_id == e,
                _ => false,
            }),
            JobType::AverageFairness { job_dependencies: d } => (match action {
                QueueAction::RunAverageFairness { job_id, model_id, job_dependencies } => job_id == job.id
                    && model_id == job.model_id && job_dependencies@ == d@,
                _ => false,
            }),
            JobType::LanguageEvaluation { language_model_evaluation_id: e } => (match action {
                QueueAction::RunLanguageEvaluation { job_id, model_id, language_model_evaluation_id } => job_id
                    == job.id && model_id == job.model_id && language_model_evaluation_id == e,
                _ => false,
            }),
            _ => action == (QueueAction::SkipUnsupported { job_id: job.id }),
        }),
        (action is SkipUnsupported) ==> (action->SkipUnsupported_job_id == job.id && job.status@ != JOB_STATUS_PAUSED@
            && ((job.job_type is Unassigned) || (job.job_type is ContextAssociationTest))),
{
}

/// A copy of a job type.
fn copy_job_type(t: &JobType) -> (res: JobType)
    ensures
        match (*t, res) {
            (JobType::AverageFairness { job_dependencies: a }, JobType::AverageFairness {
                job_dependencies: b,
            }) => a@ == b@,
            (JobType::AverageFairness { .. }, _) => false,
            (a, b) => a == b,
        },
{
    match t {
        JobType::LLMFairness { model_evaluation_id } => JobType::LLMFairness {
            model_evaluation_id: *model_evaluation_id,
        },
        JobType::ContextAssociationTest { metrics_bag_id } => JobType::ContextAssociationTest {
            metrics_bag_id: *metrics_bag_id,
        },
        JobType::LanguageEvaluation { language_model_evaluation_id } =>
            JobType::LanguageEvaluation {
            language_model_evaluation_id: *language_model_evaluation_id,
        },
        JobType::AverageFairness { job_dependencies } => {
            let mut deps: Vec<u128> = Vec::new();
            let mut i: usize = 0;
            while i < job_dependencies.len()
                invariant
                    i <= job_dependencies@.len(),
                    deps@ == job_dependencies@.take(i as int),
                decreases job_dependencies@.len() - i,
            {
                deps.push(job_dependencies[i]);
                i = i + 1;
                assert(deps@ =~= job_dependencies@.take(i as int));
            }
            assert(job_dependencies@.take(i as int) =~= job_dependencies@);
            JobType::AverageFairness { job_dependencies: deps }
        },
        JobType::Unassigned => JobType::Unassigned,
    }
}

/// After a queue step: a finished job becomes the last processed one; the
/// queue goes on unless the step failed. Returns whether the queue is
/// scheduled again.
pub fn finish_queue_step(store: &mut JobStore, job_id: u128, outcome: &Result<bool, String>) -> (reschedule: bool)
    requires
        old(store).wf(),
    ensures
        final(store).wf(),
        final(store).jobs_view() == old(store).jobs_view(),
        final(store).next_id() == old(store).next_id(),
        final(store).stop_set() == old(store).stop_set(),
        reschedule == outcome is Ok,
        final(store).last_processed() == (if outcome == &Ok::<bool, String>(true) && old(store).last_processed() <= job_id {
            job_id
        } else {
            old(store).last_processed()
        }),
{
    match outcome {
        Ok(finished) => {
            if *finished {
                store.set_last_processed_job_id(job_id);
            }
            true
        },
        Err(_) => false,
    }
}

/// Below this cycle balance an endpoint refuses to act, to keep the canister
/// alive.
pub const CYCLE_THRESHOLD: u64 = 1_000_000_000;

/// Whether the cycle balance is too low for an endpoint to act.
pub fn cycles_too_low(cycles: u64) -> (res: bool)
    ensures
        res == (cycles < CYCLE_THRESHOLD),
{
    cycles < CYCLE_THRESHOLD
}

} // verus!
