use fai3_backend::jobs::{
    internal_job_fail, internal_job_in_progress, job_complete, job_should_be_stopped, JobStore,
    JobType, JOB_STATUS_COMPLETED, JOB_STATUS_FAILED, JOB_STATUS_IN_PROGRESS, JOB_STATUS_PENDING,
    JOB_STATUS_STOPPED,
};
use fai3_backend::queue::{finish_queue_step, next_queue_action, QueueAction, QUEUE_CYCLE_THRESHOLD};

#[test]
fn jobs_get_sequential_ids_and_start_pending() {
    let mut store = JobStore::new();
    let a = store.create_job(10, vec![1, 2], 100);
    let b = store.create_job_with_job_type(11, JobType::LLMFairness { model_evaluation_id: 3 }, 20, vec![3], 200);
    assert_eq!((a, b), (1, 2));
    assert_eq!(store.next_job_id(), 3);
    let job = store.get_job(2).unwrap();
    assert_eq!(job.status, JOB_STATUS_PENDING);
    assert_eq!(job.progress.target, 20);
    assert_eq!(job.model_id, 11);
    assert!(store.get_job(3).is_none());
    assert_eq!(store.get_jobs().len(), 2);
}

#[test]
fn stop_requests_are_seen_until_honoured() {
    let mut store = JobStore::new();
    let id = store.create_job(1, vec![], 0);
    assert!(!job_should_be_stopped(&store, id));
    store.stop_job(id);
    assert!(store.job_should_be_stopped(id));
    assert!(store.check_job_stopped(id));
    assert_eq!(store.get_job_status(id), Some(JOB_STATUS_STOPPED.to_string()));
    store.internal_job_stop(id, 1);
    assert!(!store.job_should_be_stopped(id));
}

#[test]
fn status_changes_keep_the_job_identity() {
    let mut store = JobStore::new();
    let id = store.create_job(5, vec![9], 1);
    internal_job_in_progress(&mut store, id, 5, 4, 1, 2);
    let job = store.get_job(id).unwrap();
    assert_eq!(job.status, JOB_STATUS_IN_PROGRESS);
    assert_eq!((job.progress.completed, job.progress.invalid_responses, job.progress.call_errors), (4, 1, 2));
    internal_job_fail(&mut store, id, 5, Some("bad".to_string()));
    let job = store.get_job(id).unwrap();
    assert_eq!(job.status, JOB_STATUS_FAILED);
    assert_eq!(job.status_detail, Some("bad".to_string()));
    assert_eq!(job.progress.completed, 4);
    job_complete(&mut store, id, 5);
    assert_eq!(store.get_job(id).unwrap().status, JOB_STATUS_COMPLETED);
    assert_eq!(store.get_job(id).unwrap().owner, vec![9]);
}

#[test]
fn jobs_are_found_by_model_owner_and_time() {
    let mut store = JobStore::new();
    store.create_job(1, vec![1], 30);
    store.create_job(2, vec![2], 50);
    store.create_job(1, vec![1], 50);
    assert_eq!(store.get_latest_job().unwrap().id, 2);
    assert_eq!(store.get_job_by_model_id(1).unwrap().id, 1);
    assert!(store.get_job_by_model_id(7).is_none());
    let owned: Vec<u128> = store.get_job_by_owner(&vec![1]).iter().map(|j| j.id).collect();
    assert_eq!(owned, vec![1, 3]);
}

#[test]
fn the_queue_starts_pending_jobs_and_skips_unsupported_ones() {
    let mut store = JobStore::new();
    assert_eq!(next_queue_action(&mut store, QUEUE_CYCLE_THRESHOLD), QueueAction::Idle);
    let id = store.create_job_with_job_type(4, JobType::LLMFairness { model_evaluation_id: 8 }, 2, vec![], 0);
    assert_eq!(next_queue_action(&mut store, QUEUE_CYCLE_THRESHOLD - 1), QueueAction::StopLowCycles);
    assert_eq!(store.get_job(id).unwrap().status, JOB_STATUS_PENDING);
    let action = next_queue_action(&mut store, QUEUE_CYCLE_THRESHOLD);
    assert_eq!(action, QueueAction::RunLLMFairness { job_id: id, model_id: 4, model_evaluation_id: 8 });
    assert_eq!(store.get_job(id).unwrap().status, JOB_STATUS_IN_PROGRESS);
    assert!(finish_queue_step(&mut store, id, &Ok(true)));
    assert_eq!(store.last_processed_job_id(), id);
    assert_eq!(next_queue_action(&mut store, QUEUE_CYCLE_THRESHOLD), QueueAction::Idle);
    let other = store.create_job(4, vec![], 0);
    assert_eq!(next_queue_action(&mut store, QUEUE_CYCLE_THRESHOLD), QueueAction::SkipUnsupported { job_id: other });
    assert!(!finish_queue_step(&mut store, other, &Err("grave".to_string())));
    assert_eq!(store.last_processed_job_id(), id);
}

#[test]
fn the_queue_runs_language_evaluations() {
    let mut store = JobStore::new();
    let id = store.create_job_with_job_type(2, JobType::LanguageEvaluation { language_model_evaluation_id: 5 }, 3, vec![], 0);
    assert_eq!(
        next_queue_action(&mut store, QUEUE_CYCLE_THRESHOLD),
        QueueAction::RunLanguageEvaluation { job_id: id, model_id: 2, language_model_evaluation_id: 5 }
    );
    assert_eq!(store.get_job(id).unwrap().status, JOB_STATUS_IN_PROGRESS);
    assert!(finish_queue_step(&mut store, id, &Ok(false)));
    assert_eq!(store.last_processed_job_id(), 0);
}

#[test]
fn last_processed_id_never_goes_back() {
    let mut store = JobStore::new();
    store.set_last_processed_job_id(5);
    store.set_last_processed_job_id(3);
    assert_eq!(store.last_processed_job_id(), 5);
}
