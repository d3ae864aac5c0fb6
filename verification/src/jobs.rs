use vstd::prelude::*;

verus! {

pub const JOB_STATUS_PENDING: &'static str = "Pending";
pub const JOB_STATUS_IN_PROGRESS: &'static str = "In Progress";
pub const JOB_STATUS_COMPLETED: &'static str = "Completed";
pub const JOB_STATUS_FAILED: &'static str = "Failed";
pub const JOB_STATUS_STOPPED: &'static str = "Stopped";
pub const JOB_STATUS_PAUSED: &'static str = "Paused";

/// Progress of a job: completed iterations against the target, and the
/// invalid responses and call errors met so far.
#[derive(Clone, Debug, PartialEq)]
pub struct JobProgress {
    /// Number of completed iterations of progress.
    pub completed: usize,
    /// Number of target iterations to be reached.
    pub target: usize,
    pub invalid_responses: usize,
    pub call_errors: usize,
}

impl Default for JobProgress {
    fn default() -> (res: Self)
        ensures
            res.completed == 0,
            res.target == 0,
            res.invalid_responses == 0,
            res.call_errors == 0,
    {
        JobProgress { completed: 0, target: 0, invalid_responses: 0, call_errors: 0 }
    }
}

/// What a job runs.
#[derive(Clone, Debug, PartialEq)]
pub enum JobType {
    LLMFairness { model_evaluation_id: u128 },
    ContextAssociationTest { metrics_bag_id: u128 },
    LanguageEvaluation { language_model_evaluation_id: u128 },
    AverageFairness { job_dependencies: Vec<u128> },
    Unassigned,
}

/// A queued unit of work on a model. The owner is the principal that
/// created it, held as its bytes.
#[derive(Clone, Debug, PartialEq)]
pub struct Job {
    pub id: u128,
    pub model_id: u128,
    pub owner: Vec<u8>,
    pub status: String,
    pub timestamp: u64,
    pub job_type: JobType,
    pub status_detail: Option<String>,
    pub progress: JobProgress,
}

/// Whether a job's status is one that the queue still has to work on.
pub open spec fn is_unfinished_status(status: Seq<char>) -> bool {
    status == JOB_STATUS_PENDING@ || status == JOB_STATUS_IN_PROGRESS@
}

/// `a` and `b` are the same job except for its status, status detail and
/// progress.
pub open spec fn same_job_identity(a: Job, b: Job) -> bool {
    &&& a.id == b.id
    &&& a.model_id == b.model_id
    &&& a.owner == b.owner
    &&& a.timestamp == b.timestamp
    &&& a.job_type == b.job_type
}

/// `j` is a freshly created job: pending, with the given id, model, owner,
/// creation time, type and progress target, no detail and no progress yet.
pub open spec fn is_new_job(
    j: Job,
    id: u128,
    model_id: u128,
    owner: Vec<u8>,
    timestamp: u64,
    job_type: JobType,
    target: usize,
) -> bool {
    &&& j.id == id
    &&& j.model_id == model_id
    &&& j.owner == owner
    &&& j.status@ == JOB_STATUS_PENDING@
    &&& j.timestamp == timestamp
    &&& j.job_type == job_type
    &&& j.status_detail is None
    &&& j.progress == JobProgress {
        completed: 0,
        target,
        invalid_responses: 0,
        call_errors: 0,
    }
}

/// `b` is `a` with the status `status` (by its characters) and, where given,
/// a new status detail and new progress counters; everything else is kept.
pub open spec fn is_updated_job(
    a: Job,
    b: Job,
    status: Seq<char>,
    status_detail: Option<String>,
    completed: Option<usize>,
    invalid_responses: Option<usize>,
    call_errors: Option<usize>,
) -> bool {
    &&& same_job_identity(a, b)
    &&& b.status@ == status
    &&& b.status_detail == (match status_detail {
        Some(d) => Some(d),
        None => a.status_detail,
    })
    &&& b.progress.target == a.progress.target
    &&& b.progress.completed == (match completed {
        Some(c) => c,
        None => a.progress.completed,
    })
    &&& b.progress.invalid_responses == (match invalid_responses {
        Some(c) => c,
        None => a.progress.invalid_responses,
    })
    &&& b.progress.call_errors == (match call_errors {
        Some(c) => c,
        None => a.progress.call_errors,
    })
}

/// The jobs of the canister, the next id to hand out, the id of the last job
/// the queue finished with, and the ids whose stop was requested.
pub struct JobStore {
    jobs: Vec<Job>,
    next_job_id: u128,
    last_processed_job_id: u128,
    stop_requests: Vec<u128>,
}

impl JobStore {
    /// The jobs, in id order; the job with id `i + 1` is at position `i`.
    pub closed spec fn jobs_view(&self) -> Seq<Job> {
        self.jobs@
    }

    /// The id that the next created job gets.
    pub closed spec fn next_id(&self) -> u128 {
        self.next_job_id
    }

    /// The id of the last job that the queue finished with.
    pub closed spec fn last_processed(&self) -> u128 {
        self.last_processed_job_id
    }

    /// The ids whose stop has been requested and not yet honoured.
    pub closed spec fn stop_set(&self) -> Set<u128> {
        self.stop_requests@.to_set()
    }

    /// Well-formedness: jobs are numbered 1, 2, ... in order and the next id
    /// follows the last one.
    pub open spec fn wf(&self) -> bool {
        &&& self.next_id() == self.jobs_view().len() + 1
        &&& forall|i: int|
            0 <= i < self.jobs_view().len() ==> (#[trigger] self.jobs_view()[i]).id == i + 1
    }

    /// The job with id `job_id`, if there is one.
    pub open spec fn job(&self, job_id: u128) -> Option<Job> {
        if 1 <= job_id <= self.jobs_view().len() {
            Some(self.jobs_view()[job_id - 1])
        } else {
            None
        }
    }

    /// An empty store: no jobs, ids start at 1, nothing processed or stopped.
    pub fn new() -> (res: Self)
        ensures
            res.wf(),
            res.jobs_view().len() == 0,
            res.next_id() == 1,
            res.last_processed() == 0,
            res.stop_set() == Set::<u128>::empty(),
    {
        let res = JobStore {
            jobs: Vec::new(),
            next_job_id: 1,
            last_processed_job_id: 0,
            stop_requests: Vec::new(),
        };
        assert(res.stop_requests@.to_set() =~= Set::<u128>::empty());
        res
    }

    /// The id of the last job that the queue finished with.
    pub fn last_processed_job_id(&self) -> (res: u128)
        ensures
            res == self.last_processed(),
    {
        self.last_processed_job_id
    }

    /// The id that the next created job gets.
    pub fn next_job_id(&self) -> (res: u128)
        ensures
            res == self.next_id(),
    {
        self.next_job_id
    }

    /// Adds a new pending job with the given type and progress target, owned by
    /// `owner`, and returns its id: the next id in sequence.
    pub fn create_job_with_job_type(
        &mut self,
        model_id: u128,
        job_type: JobType,
        max_queries: usize,
        owner: Vec<u8>,
        timestamp: u64,
    ) -> (id: u128)
        requires
            old(self).wf(),
            old(self).next_id() < u128::MAX,
        ensures
            final(self).wf(),
            id == old(self).next_id(),
            final(self).next_id() == id + 1,
            final(self).jobs_view().len() == old(self).jobs_view().len() + 1,
            final(self).jobs_view().take(old(self).jobs_view().len() as int)
                == old(self).jobs_view(),
            is_new_job(
                final(self).jobs_view().last(),
                id,
                model_id,
                owner,
                timestamp,
                job_type,
                max_queries,
            ),
            final(self).last_processed() == old(self).last_processed(),
            final(self).stop_set() == old(self).stop_set(),
    {
        let id = self.next_job_id;
        let job = Job {
            id,
            model_id,
            owner,
            status: JOB_STATUS_PENDING.to_string(),
            timestamp,
            job_type,
            status_detail: None,
            progress: JobProgress {
                completed: 0,
                target: max_queries,
                invalid_responses: 0,
                call_errors: 0,
            },
        };
        self.jobs.push(job);
        self.next_job_id = id + 1;
        assert(self.jobs@.take(old(self).jobs@.len() as int) =~= old(self).jobs@);
        id
    }
}

} // verus!

verus! {

/// Whether `status` reads `expected`.
pub(crate) fn status_equals(status: &String, expected: &str) -> (res: bool)
    ensures
        res == (status@ == expected@),
{
    let expected = expected.to_string();
    *status == expected
}

impl JobStore {
    /// Adds a new pending job of unassigned type, owned by `owner`, and
    /// returns its id: the next id in sequence.
    pub fn create_job(&mut self, model_id: u128, owner: Vec<u8>, timestamp: u64) -> (id: u128)
        requires
            old(self).wf(),
            old(self).next_id() < u128::MAX,
        ensures
            final(self).wf(),
            id == old(self).next_id(),
            final(self).next_id() == id + 1,
            final(self).jobs_view() == old(self).jobs_view().push(final(self).jobs_view().last()),
            is_new_job(
                final(self).jobs_view().last(),
                id,
                model_id,
                owner,
                timestamp,
                JobType::Unassigned,
                0,
            ),
            final(self).last_processed() == old(self).last_processed(),
            final(self).stop_set() == old(self).stop_set(),
    {
        let id = self.create_job_with_job_type(model_id, JobType::Unassigned, 0, owner, timestamp);
        assert(self.jobs_view() =~= old(self).jobs_view().push(self.jobs_view().last()));
        id
    }

    /// The job with id `job_id`, if there is one.
    pub fn get_job(&self, job_id: u128) -> (res: Option<&Job>)
        requires
            self.wf(),
        ensures
            res is Some <==> self.job(job_id) is Some,
            res matches Some(r) ==> self.job(job_id) == Some(*r),
    {
        match self.job_index(job_id) {
            Some(idx) => Some(&self.jobs[idx]),
            None => None,
        }
    }

    /// The position of job `job_id` in the store, if there is such a job.
    fn job_index(&self, job_id: u128) -> (res: Option<usize>)
        requires
            self.wf(),
        ensures
            res is Some <==> 1 <= job_id <= self.jobs_view().len(),
            res matches Some(i) ==> i == job_id - 1 && i < self.jobs_view().len(),
    {
        let len = self.jobs.len();
        if job_id >= 1 && job_id - 1 < len as u128 {
            Some((job_id - 1) as usize)
        } else {
            None
        }
    }

    /// All jobs, in id order.
    pub fn get_jobs(&self) -> (res: &Vec<Job>)
        ensures
            res@ == self.jobs_view(),
    {
        &self.jobs
    }

    /// Sets the status of job `job_id` and, where given, its status detail and
    /// progress counters. Nothing happens when there is no such job.
    pub fn internal_update_job_status(
        &mut self,
        job_id: u128,
        status: String,
        model_id: u128,
        status_detail: Option<String>,
        completed: Option<usize>,
        invalid_responses: Option<usize>,
        call_errors: Option<usize>,
    )
        requires
            old(self).wf(),
            old(self).job(job_id) matches Some(j) ==> j.model_id == model_id,
        ensures
            final(self).wf(),
            final(self).next_id() == old(self).next_id(),
            final(self).last_processed() == old(self).last_processed(),
            final(self).stop_set() == old(self).stop_set(),
            final(self).jobs_view().len() == old(self).jobs_view().len(),
            forall|i: int|
                0 <= i < old(self).jobs_view().len() && i != job_id - 1 ==> #[trigger] final(self).jobs_view()[i] == old(self).jobs_view()[i],
            old(self).job(job_id) matches Some(j) ==> is_updated_job(
                j,
                final(self).job(job_id).unwrap(),
                status@,
                status_detail,
                completed,
                invalid_responses,
                call_errors,
            ),
    {
        if let Some(idx) = self.job_index(job_id) {
            let ghost before = self.jobs@;
            let mut job = self.jobs.remove(idx);
            job.status = status;
            if let Some(detail) = status_detail {
                job.status_detail = Some(detail);
            }
            if let Some(c) = completed {
                job.progress.completed = c;
            }
            if let Some(c) = invalid_responses {
                job.progress.invalid_responses = c;
            }
            if let Some(c) = call_errors {
                job.progress.call_errors = c;
            }
            self.jobs.insert(idx, job);
            assert(self.jobs@ =~= before.update(idx as int, job));
        }
    }
}

} // verus!

verus! {

/// Whether two byte strings are equal.
pub fn bytes_equal(a: &Vec<u8>, b: &Vec<u8>) -> (res: bool)
    ensures
        res == (a@ == b@),
{
    if a.len() != b.len() {
        return false;
    }
    let mut i: usize = 0;
    while i < a.len()
        invariant
            a@.len() == b@.len(),
            i <= a@.len(),
            forall|k: int| 0 <= k < i ==> a@[k] == b@[k],
        decreases a@.len() - i,
    {
        if a[i] != b[i] {
            return false;
        }
        i = i + 1;
    }
    assert(a@ =~= b@);
    true
}

/// The stop requests that remain after every request for `job_id` is dropped.
fn without_id(ids: &Vec<u128>, job_id: u128) -> (res: Vec<u128>)
    ensures
        res@.to_set() == ids@.to_set().remove(job_id),
{
    let mut res: Vec<u128> = Vec::new();
    let mut i: usize = 0;
    while i < ids.len()
        invariant
            i <= ids@.len(),
            forall|x: u128| res@.contains(x) <==> (ids@.take(i as int).contains(x) && x != job_id),
        decreases ids@.len() - i,
    {
        let id = ids[i];
        let ghost prev = res@;
        assert(ids@.take(i + 1) =~= ids@.take(i as int).push(id));
        if id != job_id {
            res.push(id);
        }
        proof {
            assert forall|x: u128|
                res@.contains(x) <==> (ids@.take(i + 1).contains(x) && x != job_id) by {
                if res@.contains(x) {
                    let k = choose|k: int| 0 <= k < res@.len() && res@[k] == x;
                    if k < prev.len() {
                        assert(prev[k] == x);
                        assert(prev.contains(x));
                    } else {
                        assert(x == id);
                    }
                    if ids@.take(i as int).contains(x) {
                        let m = choose|m: int| 0 <= m < i && ids@.take(i as int)[m] == x;
                        assert(ids@.take(i + 1)[m] == x);
                    } else {
                        assert(ids@.take(i + 1)[i as int] == x);
                    }
                }
                if ids@.take(i + 1).contains(x) && x != job_id {
                    let m = choose|m: int| 0 <= m < i + 1 && #[trigger] ids@.take(i + 1)[m] == x;
                    if m < i {
                        assert(ids@.take(i as int)[m] == x);
                        assert(prev.contains(x));
                        let k = choose|k: int| 0 <= k < prev.len() && prev[k] == x;
                        assert(res@[k] == x);
                    } else {
                        assert(res@[res@.len() - 1] == x);
                    }
                }
            }
        }
        i = i + 1;
    }
    assert(ids@.take(i as int) =~= ids@);
    assert(res@.to_set() =~= ids@.to_set().remove(job_id));
    res
}

impl JobStore {
    /// Sets the status of job `job_id`; nothing happens when there is no such
    /// job.
    pub fn update_job_status(&mut self, job_id: u128, status: String, model_id: u128)
        requires
            old(self).wf(),
            old(self).job(job_id) matches Some(j) ==> j.model_id == model_id,
        ensures
            final(self).wf(),
            final(self).next_id() == old(self).next_id(),
            final(self).last_processed() == old(self).last_processed(),
            final(self).stop_set() == old(self).stop_set(),
            final(self).jobs_view().len() == old(self).jobs_view().len(),
            forall|i: int|
                0 <= i < old(self).jobs_view().len() && i != job_id - 1
                    ==> #[trigger] final(self).jobs_view()[i] == old(self).jobs_view()[i],
            old(self).job(job_id) matches Some(j) ==> is_updated_job(
                j,
                final(self).job(job_id).unwrap(),
                status@,
                None,
                None,
                None,
                None,
            ),
    {
        self.internal_update_job_status(job_id, status, model_id, None, None, None, None);
    }

    /// The status of job `job_id`, if there is such a job.
    pub fn get_job_status(&self, job_id: u128) -> (res: Option<String>)
        requires
            self.wf(),
        ensures
            res is Some <==> self.job(job_id) is Some,
            res matches Some(s) ==> s@ == self.job(job_id).unwrap().status@,
    {
        match self.get_job(job_id) {
            Some(job) => Some(job.status.clone()),
            None => None,
        }
    }

    /// Whether job `job_id` exists and has been stopped.
    pub fn check_job_stopped(&self, job_id: u128) -> (res: bool)
        requires
            self.wf(),
        ensures
            res == (self.job(job_id) matches Some(j) && j.status@ == JOB_STATUS_STOPPED@),
    {
        match self.get_job(job_id) {
            Some(job) => status_equals(&job.status, JOB_STATUS_STOPPED),
            None => false,
        }
    }

    /// Marks job `job_id` as stopped, when it exists, and records the stop
    /// request so that the queue stops working on it.
    pub fn stop_job(&mut self, job_id: u128)
        requires
            old(self).wf(),
        ensures
            final(self).wf(),
            final(self).next_id() == old(self).next_id(),
            final(self).last_processed() == old(self).last_processed(),
            final(self).stop_set() == old(self).stop_set().insert(job_id),
            final(self).jobs_view().len() == old(self).jobs_view().len(),
            forall|i: int|
                0 <= i < old(self).jobs_view().len() && i != job_id - 1
                    ==> #[trigger] final(self).jobs_view()[i] == old(self).jobs_view()[i],
            old(self).job(job_id) matches Some(j) ==> is_updated_job(
                j,
                final(self).job(job_id).unwrap(),
                JOB_STATUS_STOPPED@,
                None,
                None,
                None,
                None,
            ),
    {
        if let Some(job) = self.get_job(job_id) {
            let model_id = job.model_id;
            self.internal_update_job_status(
                job_id,
                JOB_STATUS_STOPPED.to_string(),
                model_id,
                None,
                None,
                None,
                None,
            );
        }
        let ghost prev = self.stop_requests@;
        self.stop_requests.push(job_id);
        proof {
            prev.lemma_push_to_set_commute(job_id);
        }
    }

    /// Whether a stop of job `job_id` has been requested and not yet honoured.
    pub fn job_should_be_stopped(&self, job_id: u128) -> (res: bool)
        ensures
            res == self.stop_set().contains(job_id),
    {
        let mut i: usize = 0;
        while i < self.stop_requests.len()
            invariant
                i <= self.stop_requests@.len(),
                forall|k: int| 0 <= k < i ==> self.stop_requests@[k] != job_id,
            decreases self.stop_requests@.len() - i,
        {
            if self.stop_requests[i] == job_id {
                assert(self.stop_requests@.contains(job_id));
                return true;
            }
            i = i + 1;
        }
        false
    }

    /// Marks job `job_id` as stopped and forgets the stop request for it.
    pub fn internal_job_stop(&mut self, job_id: u128, model_id: u128)
        requires
            old(self).wf(),
            old(self).job(job_id) matches Some(j) ==> j.model_id == model_id,
        ensures
            final(self).wf(),
            final(self).next_id() == old(self).next_id(),
            final(self).last_processed() == old(self).last_processed(),
            final(self).stop_set() == old(self).stop_set().remove(job_id),
            final(self).jobs_view().len() == old(self).jobs_view().len(),
            forall|i: int|
                0 <= i < old(self).jobs_view().len() && i != job_id - 1
                    ==> #[trigger] final(self).jobs_view()[i] == old(self).jobs_view()[i],
            old(self).job(job_id) matches Some(j) ==> is_updated_job(
                j,
                final(self).job(job_id).unwrap(),
                JOB_STATUS_STOPPED@,
                None,
                None,
                None,
                None,
            ),
    {
        self.internal_update_job_status(
            job_id,
            JOB_STATUS_STOPPED.to_string(),
            model_id,
            None,
            None,
            None,
            None,
        );
        self.stop_requests = without_id(&self.stop_requests, job_id);
    }

    /// The first job (in id order) with the latest creation time, if there are
    /// jobs.
    pub fn get_latest_job(&self) -> (res: Option<&Job>)
        requires
            self.wf(),
        ensures
            res is None <==> self.jobs_view().len() == 0,
            res matches Some(r) ==> exists|k: int|
                0 <= k < self.jobs_view().len() && self.jobs_view()[k] == *r && (forall|i: int|
                    0 <= i < k ==> (#[trigger] self.jobs_view()[i]).timestamp < r.timestamp) && (
                forall|i: int|
                    0 <= i < self.jobs_view().len() ==> (#[trigger] self.jobs_view()[i]).timestamp
                        <= r.timestamp),
    {
        if self.jobs.len() == 0 {
            return None;
        }
        let mut best: usize = 0;
        let mut i: usize = 1;
        while i < self.jobs.len()
            invariant
                1 <= i <= self.jobs@.len(),
                best < i,
                forall|k: int| 0 <= k < best ==> (#[trigger] self.jobs@[k]).timestamp < self.jobs@[best as int].timestamp,
                forall|k: int| 0 <= k < i ==> (#[trigger] self.jobs@[k]).timestamp <= self.jobs@[best as int].timestamp,
            decreases self.jobs@.len() - i,
        {
            if self.jobs[i].timestamp > self.jobs[best].timestamp {
                best = i;
            }
            i = i + 1;
        }
        let r = &self.jobs[best];
        assert(self.jobs_view()[best as int] == *r);
        Some(r)
    }

    /// The first job (in id order) that runs on model `model_id`, if any.
    pub fn get_job_by_model_id(&self, model_id: u128) -> (res: Option<&Job>)
        requires
            self.wf(),
        ensures
            res is None <==> (forall|i: int|
                0 <= i < self.jobs_view().len() ==> (#[trigger] self.jobs_view()[i]).model_id
                    != model_id),
            res matches Some(r) ==> exists|k: int|
                0 <= k < self.jobs_view().len() && self.jobs_view()[k] == *r && r.model_id
                    == model_id && (forall|i: int|
                    0 <= i < k ==> (#[trigger] self.jobs_view()[i]).model_id != model_id),
    {
        let mut i: usize = 0;
        while i < self.jobs.len()
            invariant
                i <= self.jobs@.len(),
                forall|k: int| 0 <= k < i ==> (#[trigger] self.jobs@[k]).model_id != model_id,
            decreases self.jobs@.len() - i,
        {
            if self.jobs[i].model_id == model_id {
                let r = &self.jobs[i];
                assert(self.jobs_view()[i as int] == *r);
                return Some(r);
            }
            i = i + 1;
        }
        None
    }

    /// The jobs owned by `owner`, in id order.
    pub fn get_job_by_owner(&self, owner: &Vec<u8>) -> (res: Vec<&Job>)
        requires
            self.wf(),
        ensures
            res@.len() <= self.jobs_view().len(),
            forall|k: int| 0 <= k < res@.len() ==> (#[trigger] res@[k]).owner@ == owner@,
            res@.map_values(|j: &Job| *j) == self.jobs_view().filter(|j: Job| j.owner@ == owner@),
    {
        let ghost pred = |j: Job| j.owner@ == owner@;
        let mut res: Vec<&Job> = Vec::new();
        let mut i: usize = 0;
        while i < self.jobs.len()
            invariant
                i <= self.jobs@.len(),
                pred == (|j: Job| j.owner@ == owner@),
                res@.map_values(|j: &Job| *j) == self.jobs@.take(i as int).filter(pred),
                forall|k: int| 0 <= k < res@.len() ==> (#[trigger] res@[k]).owner@ == owner@,
            decreases self.jobs@.len() - i,
        {
            let job = &self.jobs[i];
            proof {
                reveal_with_fuel(Seq::<_>::filter, 1);
                assert(self.jobs@.take(i + 1).drop_last() =~= self.jobs@.take(i as int));
            }
            if bytes_equal(&job.owner, owner) {
                res.push(job);
            }
            assert(res@.map_values(|j: &Job| *j) =~= self.jobs@.take(i + 1).filter(pred));
            i = i + 1;
        }
        proof {
            assert(self.jobs@.take(i as int) =~= self.jobs@);
            self.jobs@.filter_lemma(pred);
        }
        res
    }

    /// The unfinished (pending or in progress) job with the smallest id above
    /// the last processed one, if there is one.
    pub fn get_next_unfinished_job(&self) -> (res: Option<&Job>)
        requires
            self.wf(),
        ensures
            res is None <==> (forall|i: int|
                0 <= i < self.jobs_view().len() && i + 1 > self.last_processed()
                    ==> !is_unfinished_status((#[trigger] self.jobs_view()[i]).status@)),
            res matches Some(r) ==> {
                &&& r.id > self.last_processed()
                &&& 1 <= r.id <= self.jobs_view().len()
                &&& self.jobs_view()[r.id - 1] == *r
                &&& is_unfinished_status(r.status@)
                &&& forall|i: int|
                    0 <= i < r.id - 1 && i + 1 > self.last_processed() ==> !is_unfinished_status(
                        (#[trigger] self.jobs_view()[i]).status@,
                    )
            },
    {
        let len = self.jobs.len();
        let mut i: usize = 0;
        while i < len
            invariant
                len == self.jobs@.len(),
                self.wf(),
                i <= len,
                forall|k: int|
                    0 <= k < i && k + 1 > self.last_processed_job_id ==> !is_unfinished_status(
                        (#[trigger] self.jobs@[k]).status@,
                    ),
            decreases len - i,
        {
            let job = &self.jobs[i];
            if job.id > self.last_processed_job_id {
                let pending = status_equals(&job.status, JOB_STATUS_PENDING);
                let running = status_equals(&job.status, JOB_STATUS_IN_PROGRESS);
                if pending || running {
                    assert(self.jobs@[i as int] == *job);
                    return Some(job);
                }
            }
            i = i + 1;
        }
        None
    }

    /// Records `job_id` as the last processed job, unless a later job has
    /// already been recorded; the recorded id never decreases.
    pub fn set_last_processed_job_id(&mut self, job_id: u128)
        requires
            old(self).wf(),
        ensures
            final(self).wf(),
            final(self).jobs_view() == old(self).jobs_view(),
            final(self).next_id() == old(self).next_id(),
            final(self).stop_set() == old(self).stop_set(),
            final(self).last_processed() == if old(self).last_processed() > job_id {
                old(self).last_processed()
            } else {
                job_id
            },
    {
        if self.last_processed_job_id > job_id {
            return ;
        }
        self.last_processed_job_id = job_id;
    }
}

/// Marks job `job_id` as failed.
pub fn job_fail(store: &mut JobStore, job_id: u128, model_id: u128)
    requires
        old(store).wf(),
        old(store).job(job_id) matches Some(j) ==> j.model_id == model_id,
    ensures
        final(store).wf(),
        final(store).next_id() == old(store).next_id(),
        final(store).last_processed() == old(store).last_processed(),
        final(store).stop_set() == old(store).stop_set(),
        final(store).jobs_view().len() == old(store).jobs_view().len(),
        forall|i: int|
            0 <= i < old(store).jobs_view().len() && i != job_id - 1
                ==> #[trigger] final(store).jobs_view()[i] == old(store).jobs_view()[i],
        old(store).job(job_id) matches Some(j) ==> is_updated_job(
            j,
            final(store).job(job_id).unwrap(),
            JOB_STATUS_FAILED@,
            None,
            None,
            None,
            None,
        ),
{
    store.update_job_status(job_id, JOB_STATUS_FAILED.to_string(), model_id);
}

/// Marks job `job_id` as completed.
pub fn job_complete(store: &mut JobStore, job_id: u128, model_id: u128)
    requires
        old(store).wf(),
        old(store).job(job_id) matches Some(j) ==> j.model_id == model_id,
    ensures
        final(store).wf(),
        final(store).next_id() == old(store).next_id(),
        final(store).last_processed() == old(store).last_processed(),
        final(store).stop_set() == old(store).stop_set(),
        final(store).jobs_view().len() == old(store).jobs_view().len(),
        forall|i: int|
            0 <= i < old(store).jobs_view().len() && i != job_id - 1
                ==> #[trigger] final(store).jobs_view()[i] == old(store).jobs_view()[i],
        old(store).job(job_id) matches Some(j) ==> is_updated_job(
            j,
            final(store).job(job_id).unwrap(),
            JOB_STATUS_COMPLETED@,
            None,
            None,
            None,
            None,
        ),
{
    store.update_job_status(job_id, JOB_STATUS_COMPLETED.to_string(), model_id);
}

/// Marks job `job_id` as in progress.
pub fn job_in_progress(store: &mut JobStore, job_id: u128, model_id: u128)
    requires
        old(store).wf(),
        old(store).job(job_id) matches Some(j) ==> j.model_id == model_id,
    ensures
        final(store).wf(),
        final(store).next_id() == old(store).next_id(),
        final(store).last_processed() == old(store).last_processed(),
        final(store).stop_set() == old(store).stop_set(),
        final(store).jobs_view().len() == old(store).jobs_view().len(),
        forall|i: int|
            0 <= i < old(store).jobs_view().len() && i != job_id - 1
                ==> #[trigger] final(store).jobs_view()[i] == old(store).jobs_view()[i],
        old(store).job(job_id) matches Some(j) ==> is_updated_job(
            j,
            final(store).job(job_id).unwrap(),
            JOB_STATUS_IN_PROGRESS@,
            None,
            None,
            None,
            None,
        ),
{
    store.update_job_status(job_id, JOB_STATUS_IN_PROGRESS.to_string(), model_id);
}

/// Marks job `job_id` as failed, with `error_detail` as its status detail when
/// given.
pub fn internal_job_fail(
    store: &mut JobStore,
    job_id: u128,
    model_id: u128,
    error_detail: Option<String>,
)
    requires
        old(store).wf(),
        old(store).job(job_id) matches Some(j) ==> j.model_id == model_id,
    ensures
        final(store).wf(),
        final(store).next_id() == old(store).next_id(),
        final(store).last_processed() == old(store).last_processed(),
        final(store).stop_set() == old(store).stop_set(),
        final(store).jobs_view().len() == old(store).jobs_view().len(),
        forall|i: int|
            0 <= i < old(store).jobs_view().len() && i != job_id - 1
                ==> #[trigger] final(store).jobs_view()[i] == old(store).jobs_view()[i],
        old(store).job(job_id) matches Some(j) ==> is_updated_job(
            j,
            final(store).job(job_id).unwrap(),
            JOB_STATUS_FAILED@,
            error_detail,
            None,
            None,
            None,
        ),
{
    store.internal_update_job_status(
        job_id,
        JOB_STATUS_FAILED.to_string(),
        model_id,
        error_detail,
        None,
        None,
        None,
    );
}

/// Marks job `job_id` as completed.
pub fn internal_job_complete(store: &mut JobStore, job_id: u128, model_id: u128)
    requires
        old(store).wf(),
        old(store).job(job_id) matches Some(j) ==> j.model_id == model_id,
    ensures
        final(store).wf(),
        final(store).next_id() == old(store).next_id(),
        final(store).last_processed() == old(store).last_processed(),
        final(store).stop_set() == old(store).stop_set(),
        final(store).jobs_view().len() == old(store).jobs_view().len(),
        forall|i: int|
            0 <= i < old(store).jobs_view().len() && i != job_id - 1
                ==> #[trigger] final(store).jobs_view()[i] == old(store).jobs_view()[i],
        old(store).job(job_id) matches Some(j) ==> is_updated_job(
            j,
            final(store).job(job_id).unwrap(),
            JOB_STATUS_COMPLETED@,
            None,
            None,
            None,
            None,
        ),
{
    store.internal_update_job_status(
        job_id,
        JOB_STATUS_COMPLETED.to_string(),
        model_id,
        None,
        None,
        None,
        None,
    );
}

/// Marks job `job_id` as in progress and records its progress counters.
pub fn internal_job_in_progress(
    store: &mut JobStore,
    job_id: u128,
    model_id: u128,
    completed: usize,
    invalid_responses: usize,
    call_errors: usize,
)
    requires
        old(store).wf(),
        old(store).job(job_id) matches Some(j) ==> j.model_id == model_id,
    ensures
        final(store).wf(),
        final(store).next_id() == old(store).next_id(),
        final(store).last_processed() == old(store).last_processed(),
        final(store).stop_set() == old(store).stop_set(),
        final(store).jobs_view().len() == old(store).jobs_view().len(),
        forall|i: int|
            0 <= i < old(store).jobs_view().len() && i != job_id - 1
                ==> #[trigger] final(store).jobs_view()[i] == old(store).jobs_view()[i],
        old(store).job(job_id) matches Some(j) ==> is_updated_job(
            j,
            final(store).job(job_id).unwrap(),
            JOB_STATUS_IN_PROGRESS@,
            None,
            Some(completed),
            Some(invalid_responses),
            Some(call_errors),
        ),
{
    store.internal_update_job_status(
        job_id,
        JOB_STATUS_IN_PROGRESS.to_string(),
        model_id,
        None,
        Some(completed),
        Some(invalid_responses),
        Some(call_errors),
    );
}

/// Marks job `job_id` as stopped and forgets the stop request for it.
pub fn internal_job_stop(store: &mut JobStore, job_id: u128, model_id: u128)
    requires
        old(store).wf(),
        old(store).job(job_id) matches Some(j) ==> j.model_id == model_id,
    ensures
        final(store).wf(),
        final(store).next_id() == old(store).next_id(),
        final(store).last_processed() == old(store).last_processed(),
        final(store).stop_set() == old(store).stop_set().remove(job_id),
        final(store).jobs_view().len() == old(store).jobs_view().len(),
        forall|i: int|
            0 <= i < old(store).jobs_view().len() && i != job_id - 1
                ==> #[trigger] final(store).jobs_view()[i] == old(store).jobs_view()[i],
        old(store).job(job_id) matches Some(j) ==> is_updated_job(
            j,
            final(store).job(job_id).unwrap(),
            JOB_STATUS_STOPPED@,
            None,
            None,
            None,
            None,
        ),
{
    store.internal_job_stop(job_id, model_id);
}

/// Whether a stop of job `job_id` has been requested and not yet honoured.
pub fn job_should_be_stopped(store: &JobStore, job_id: u128) -> (res: bool)
    ensures
        res == store.stop_set().contains(job_id),
{
    store.job_should_be_stopped(job_id)
}

/// Law: in every well-formed store a job id names one job, and the job it
/// names carries that id.
pub proof fn lemma_job_ids_identify_jobs(s: JobStore, i: int, j: int)
    requires
        s.wf(),
        0 <= i < s.jobs_view().len(),
        0 <= j < s.jobs_view().len(),
        s.jobs_view()[i].id == s.jobs_view()[j].id,
    ensures
        i == j,
        s.job(s.jobs_view()[i].id) == Some(s.jobs_view()[i]),
{
}

impl JobStore {
    /// The ids whose stop was requested and not yet honoured, as recorded.
    pub fn stop_request_ids(&self) -> (res: &Vec<u128>)
        ensures
            res@.to_set() == self.stop_set(),
    {
        &self.stop_requests
    }

    /// Rebuilds a store from its saved parts: jobs, the next id, the last
    /// processed id and the stop requests. Jobs must be numbered 1, 2, ...
    /// in order and the next id must follow the last one; otherwise nothing
    /// is rebuilt.
    pub fn restore(jobs: Vec<Job>, next_job_id: u128, last_processed_job_id: u128, stop_requests: Vec<u128>) -> (res: Option<JobStore>)
        ensures
            res is Some <==> (next_job_id == jobs@.len() + 1 && forall|i: int| 0 <= i < jobs@.len() ==> (#[trigger] jobs@[i]).id == i + 1),
            res matches Some(s) ==> {
                &&& s.wf()
                &&& s.jobs_view() == jobs@
                &&& s.next_id() == next_job_id
                &&& s.last_processed() == last_processed_job_id
                &&& s.stop_set() == stop_requests@.to_set()
            },
    {
        if jobs.len() as u128 + 1 != next_job_id {
            return None;
        }
        let mut i: usize = 0;
        while i < jobs.len()
            invariant
                i <= jobs@.len(),
                forall|k: int| 0 <= k < i ==> (#[trigger] jobs@[k]).id == k + 1,
            decreases jobs@.len() - i,
        {
            if jobs[i].id != i as u128 + 1 {
                return None;
            }
            i = i + 1;
        }
        Some(JobStore { jobs, next_job_id, last_processed_job_id, stop_requests })
    }
}

} // verus!
