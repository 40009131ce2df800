//! The state of a job and the decisions taken on it.
use vstd::prelude::*;
use vstd::hash_map::StringHashMap;
use vstd::hash_set::StringHashSet;
use std::collections::BTreeSet;
use crate::job::model::{incomplete_text, marked, number_list, strike_count, struck, JobView, PendingView, SentAt, Step, WorkerResultMsg, IDLE_LIMIT_SECS, TIMEOUT_CHECK_SECS};
use crate::options::{JobOptions, MissingChunkPolicy};
use crate::protocol::frame::{split_into_frames, FRAME_TASK};
use crate::protocol::payload::{encode_task_payload, TaskHeader};
use crate::slots::{filled, lemma_filled_bound, lemma_filled_grows, lemma_filled_none};
use crate::text::{contains, contains_text, copy_str, decimal, push_decimal};
use crate::workers::{elapsed, elapsed_secs, others, texts, without, FailedWorkers, NANOS_PER_SEC, WORKER_STRIKE_LIMIT};

verus! {

broadcast use vstd::std_specs::btree::group_btree_axioms;

/// A task in flight, kept so it can be re-sent to another worker.
#[derive(Debug, Clone)]
pub struct PendingTask {
    pub chunk_index: u32,
    pub worker_id: String,
    pub sent_at: SentAt,
    pub retry_count: u32,
}

impl View for PendingTask {
    type V = PendingView;

    open spec fn view(&self) -> PendingView {
        PendingView {
            chunk_index: self.chunk_index,
            worker_id: self.worker_id@,
            sent_at: self.sent_at,
            retry_count: self.retry_count,
        }
    }
}

/// What to do with a task that is due for another worker.
#[derive(Debug)]
pub enum RetryAction {
    /// The task is not in flight.
    NotPending,
    /// The chunk ran out of retries and is given up.
    GivenUp,
    /// Nobody is available; try again later.
    NoWorker,
    /// Send the task to this worker.
    Send { target: String },
}

/// What a message from a worker came to.
#[derive(Debug, Clone, Copy, PartialEq, Eq, Structural)]
pub enum Taken {
    /// The task was answered before.
    Duplicate,
    /// The worker could not do the task.
    Failed,
    /// The job has no such chunk.
    OutOfRange,
    /// The result was stored.
    Stored,
    /// The chunk had a result already.
    Superfluous,
}

/// A job in progress.
#[verifier::reject_recursive_types(M)]
pub struct Job<M> {
    job_id: String,
    map_function: String,
    options: JobOptions,
    chunks: Vec<(Vec<u8>, M)>,
    workers: Vec<String>,
    pending: StringHashMap<PendingTask>,
    results: Vec<Option<(M, Vec<u8>)>>,
    failed_chunks: BTreeSet<u32>,
    received: StringHashSet,
    with_module: StringHashSet,
    strikes: StringHashMap<u32>,
    cursor: usize,
    completed: usize,
    deadline: u128,
    last_activity: u64,
    last_check: u64,
}

impl<M> View for Job<M> {
    type V = JobView<M>;

    closed spec fn view(&self) -> JobView<M> {
        JobView {
            job_id: self.job_id@,
            map_function: self.map_function@,
            options: self.options,
            chunks: self.chunks@,
            workers: texts(self.workers@),
            pending: self.pending@.map_values(|p: PendingTask| p@),
            results: self.results@,
            failed_chunks: self.failed_chunks@,
            received: self.received@,
            with_module: self.with_module@,
            strikes: self.strikes@,
            cursor: self.cursor,
            deadline: self.deadline,
            last_activity: self.last_activity,
            last_check: self.last_check,
        }
    }
}

/// Counts one more strike against a worker.
fn strike(strikes: &mut StringHashMap<u32>, worker: &str) -> (n: u32)
    ensures
        final(strikes)@ == struck(old(strikes)@, worker@),
        n == strike_count(final(strikes)@, worker@),
{
    let had: u32 = match strikes.get(worker) {
        Some(n) => *n,
        None => 0,
    };
    let n: u32 = if had == u32::MAX {
        had
    } else {
        had + 1
    };
    strikes.insert(copy_str(worker), n);
    n
}

/// Appends numbers in decimal with commas between them.
fn push_number_list(out: &mut String, s: &Vec<u32>, n: usize)
    requires
        n <= s@.len(),
    ensures
        final(out)@ == old(out)@ + number_list(s@.take(n as int)),
{
    let ghost before = out@;
    assert(before + number_list(s@.take(0)) =~= before);
    let mut i: usize = 0;
    while i < n
        invariant
            i <= n <= s@.len(),
            out@ == before + number_list(s@.take(i as int)),
        decreases n - i,
    {
        let ghost more = s@.take(i + 1);
        assert(more.drop_last() =~= s@.take(i as int));
        assert(more.last() == s@[i as int]);
        if i > 0 {
            out.append(", ");
        }
        push_decimal(out, s[i] as u64);
        proof {
            if i == 0 {
                assert(number_list(s@.take(0)) =~= Seq::<char>::empty());
                assert(more[0] == s@[0]);
            }
            assert(out@ =~= before + number_list(more));
        }
        i = i + 1;
    }
}

impl<M> Job<M> {
    /// The parts of the state agree with each other.
    pub closed spec fn wf(self) -> bool {
        &&& self.completed == filled(self.results@)
        &&& self@.coherent()
    }

    /// What the agreement of the parts means for the state.
    pub proof fn wf_is_coherent(self)
        requires
            self.wf(),
        ensures
            self@.coherent(),
    {
    }

    /// A job over `chunks`, each with its metadata, for the workers that are available. There
    /// has to be one.
    pub fn start(
        job_id: String,
        map_function: &str,
        chunks: Vec<(Vec<u8>, M)>,
        workers: Vec<String>,
        options: JobOptions,
    ) -> (r: Result<Self, String>)
        requires
            chunks@.len() <= u32::MAX,
        ensures
            match r {
                Ok(job) => workers@.len() > 0 && job.wf() && job@ == JobView::begun(
                    job_id@,
                    map_function@,
                    chunks@,
                    texts(workers@),
                    options,
                ),
                Err(e) => workers@.len() == 0 && e@
                    == "no workers with open data channels available"@,
            },
    {
        if workers.len() == 0 {
            return Err(copy_str("no workers with open data channels available"));
        }
        let total: usize = chunks.len();
        let mut results: Vec<Option<(M, Vec<u8>)>> = Vec::new();
        let mut i: usize = 0;
        while i < total
            invariant
                i <= total,
                results@.len() == i,
                forall|k: int| 0 <= k < i ==> (#[trigger] results@[k]) is None,
            decreases total - i,
        {
            results.push(None);
            i = i + 1;
        }
        proof {
            lemma_filled_none(results@);
        }
        let job = Job {
            job_id,
            map_function: copy_str(map_function),
            options,
            chunks,
            workers,
            pending: StringHashMap::new(),
            results,
            failed_chunks: BTreeSet::new(),
            received: StringHashSet::new(),
            with_module: StringHashSet::new(),
            strikes: StringHashMap::new(),
            cursor: 0,
            completed: 0,
            deadline: 0,
            last_activity: 0,
            last_check: 0,
        };
        assert(job@.pending =~= Map::<Seq<char>, PendingView>::empty());
        assert(job@.results =~= JobView::<M>::begun(
            job_id@,
            map_function@,
            chunks@,
            texts(workers@),
            options,
        ).results);
        Ok(job)
    }

    /// How many chunks the job has.
    pub fn total(&self) -> (r: usize)
        requires
            self.wf(),
        ensures
            r == self@.total(),
    {
        self.results.len()
    }

    /// How many chunks have a result.
    pub fn completed(&self) -> (r: usize)
        requires
            self.wf(),
        ensures
            r == filled(self@.results),
    {
        self.completed
    }

    /// How many tasks are in flight.
    pub fn in_flight(&self) -> (r: usize)
        requires
            self.wf(),
        ensures
            r == self@.pending.dom().len(),
    {
        assert(self@.pending.dom() =~= self.pending@.dom());
        self.pending.len()
    }

    /// The id of the job.
    pub fn job_id(&self) -> (r: &str)
        ensures
            r@ == self@.job_id,
    {
        self.job_id.as_str()
    }

    /// The id of the task for the chunk number `i`.
    pub fn task_id(&self, i: usize) -> (r: String)
        ensures
            r@ == self@.task_id(i as int),
    {
        let mut r = self.job_id.clone();
        r.append("_");
        push_decimal(&mut r, i as u64);
        r
    }

    /// The worker that the chunk number `i` goes to first.
    pub fn first_worker(&self, i: usize) -> (r: String)
        requires
            self.wf(),
        ensures
            r@ == self@.first_worker(i as int),
    {
        self.workers[i % self.workers.len()].clone()
    }

    /// The header of the task for the chunk number `i`.
    pub fn task_header(&self, i: usize) -> (r: TaskHeader<M>)
        where M: Clone
        requires
            self.wf(),
            i < self@.total(),
        ensures
            self@.heads(i as int, r),
    {
        TaskHeader {
            job_id: self.job_id.clone(),
            task_id: self.task_id(i),
            chunk_index: i as u32,
            map_function: self.map_function.clone(),
            meta: self.chunks[i].1.clone(),
        }
    }

    /// The messages that carry the task for the chunk number `i` to `worker`. The module and
    /// its glue are included only when the worker was not sent them before. `write` gives the
    /// text of a header.
    pub fn task_frames<W: Fn(&TaskHeader<M>) -> Vec<u8>>(
        &self,
        i: usize,
        worker: &str,
        write: W,
        wasm: &[u8],
        glue: &[u8],
    ) -> (frames: Vec<Vec<u8>>)
        where M: Clone
        requires
            self.wf(),
            i < self@.total(),
            forall|h: &TaskHeader<M>| call_requires(write, (h,)),
        ensures
            exists|h: TaskHeader<M>, header: Vec<u8>|
                self@.heads(i as int, h) && #[trigger] call_ensures(write, (&h,), header)
                    && self@.framed(i as int, worker@, header@, wasm@, glue@, frames@),
    {
        let head = self.task_header(i);
        let written = write(&head);
        let header_json = written.as_slice();
        let input = self.chunks[i].0.as_slice();
        let payload = if self.with_module.contains(worker) {
            let none: Vec<u8> = Vec::new();
            assert(none@ =~= Seq::<u8>::empty());
            encode_task_payload(header_json, none.as_slice(), none.as_slice(), input)
        } else {
            encode_task_payload(header_json, wasm, glue, input)
        };
        let id = self.task_id(i);
        let frames = split_into_frames(FRAME_TASK, id.as_str(), payload.as_slice());
        assert(call_ensures(write, (&head,), written));
        assert(self@.framed(i as int, worker@, written@, wasm@, glue@, frames@));
        frames
    }

    /// Takes down that the chunk number `i` was sent to its first worker, or that it could not
    /// be: that worker has failed, and the task is due for another at once.
    pub fn record_dispatch(&mut self, i: usize, sent: bool, now: u64, failed: &mut FailedWorkers)
        requires
            old(self).wf(),
            i < old(self)@.total(),
        ensures
            final(self).wf(),
            final(self)@ == old(self)@.dispatched(i as int, sent, now),
            final(failed)@ == if sent {
                old(failed)@
            } else {
                old(failed)@.insert(old(self)@.first_worker(i as int), now)
            },
    {
        let ghost before = self@;
        let worker_id = self.first_worker(i);
        let id = self.task_id(i);
        let sent_at = if sent {
            self.with_module.insert(worker_id.clone());
            SentAt::At(now)
        } else {
            failed.mark_worker_failed(worker_id.as_str(), now);
            SentAt::Unsent
        };
        let task = PendingTask { chunk_index: i as u32, worker_id, sent_at, retry_count: 0 };
        self.pending.insert(id, task);
        assert(self@.pending =~= before.dispatched(i as int, sent, now).pending);
    }

    /// Begins to collect results.
    pub fn begin_collecting(&mut self, now: u64)
        requires
            old(self).wf(),
        ensures
            final(self).wf(),
            final(self)@ == old(self)@.collecting(now),
    {
        let wanted: u64 = 10 * self.results.len() as u64;
        let secs: u64 = if wanted < 120 {
            120
        } else if wanted > 600 {
            600
        } else {
            wanted
        };
        self.deadline = now as u128 + secs as u128 * NANOS_PER_SEC as u128;
        self.last_activity = now;
        self.last_check = now;
    }

    /// What to do next.
    pub fn next_step(&self, now: u64) -> (r: Step)
        requires
            self.wf(),
        ensures
            r == self@.step_at(now),
    {
        proof {
            lemma_filled_bound(self.results@);
        }
        if self.results.len() - self.completed <= self.failed_chunks.len() {
            Step::Settled
        } else if now as u128 > self.deadline {
            Step::DeadlineReached
        } else if elapsed(now, self.last_activity) > IDLE_LIMIT_SECS {
            Step::Idle
        } else {
            Step::Collect { check_timeouts: elapsed(now, self.last_check) >= TIMEOUT_CHECK_SECS }
        }
    }

    /// Takes down that tasks that take too long were looked for.
    pub fn timeouts_checked(&mut self, now: u64)
        requires
            old(self).wf(),
        ensures
            final(self).wf(),
            final(self)@ == (JobView { last_check: now, ..old(self)@ }),
    {
        self.last_check = now;
    }

    /// The chunks whose tasks exceeded the timeout, in order, regardless of whether their
    /// worker's channel is still open (a stuck worker looks exactly like a slow one from the
    /// outside).
    pub fn timed_out(&self, now: u64) -> (r: Vec<usize>)
        requires
            self.wf(),
        ensures
            r@.map_values(|k: usize| k as int) == self@.due_below(self@.results.len(), now),
    {
        let mut r: Vec<usize> = Vec::new();
        let mut i: usize = 0;
        assert(r@.map_values(|k: usize| k as int) =~= Seq::<int>::empty());
        while i < self.results.len()
            invariant
                self.wf(),
                i <= self.results@.len(),
                r@.map_values(|k: usize| k as int) == self@.due_below(i as nat, now),
            decreases self.results@.len() - i,
        {
            let id = self.task_id(i);
            let due: bool = match self.pending.get(id.as_str()) {
                Some(p) => match p.sent_at {
                    SentAt::At(t) => elapsed(now, t) > self.options.task_timeout_secs,
                    SentAt::Unsent | SentAt::Overdue => true,
                },
                None => false,
            };
            assert(due == self@.chunk_due(i as int, now));
            if due {
                let ghost had = r@;
                r.push(i);
                assert(r@.map_values(|k: usize| k as int) =~= had.map_values(
                    |k: usize| k as int,
                ).push(i as int));
            }
            i = i + 1;
        }
        r
    }

    /// Decides what becomes of the task of chunk `i`, which is due for another worker. A worker
    /// that let it time out, or that it could not be sent to, gets a strike, and has failed when
    /// it has too many; a worker that reported something about it is not struck once more. Another
    /// worker is preferred; else any that is available will do.
    pub fn plan_retry(
        &mut self,
        i: usize,
        available: &Vec<String>,
        now: u64,
        failed: &mut FailedWorkers,
    ) -> (r: RetryAction)
        requires
            old(self).wf(),
            i < old(self)@.total(),
        ensures
            final(self).wf(),
            final(self)@ == old(self)@.retry_planned(i as int, texts(available@)),
            final(failed)@ == old(self)@.failed_after_plan(old(failed)@, i as int, now),
            match r {
                RetryAction::NotPending => !old(self)@.pending.contains_key(
                    old(self)@.task_id(i as int),
                ),
                RetryAction::GivenUp => old(self)@.pending.contains_key(
                    old(self)@.task_id(i as int),
                ) && !old(self)@.may_retry(i as int),
                RetryAction::NoWorker => old(self)@.pending.contains_key(
                    old(self)@.task_id(i as int),
                ) && old(self)@.may_retry(i as int) && old(self)@.retry_target(
                    old(self)@.pending[old(self)@.task_id(i as int)].worker_id,
                    texts(available@),
                ) is None,
                RetryAction::Send { target } => old(self)@.pending.contains_key(
                    old(self)@.task_id(i as int),
                ) && old(self)@.may_retry(i as int) && old(self)@.retry_target(
                    old(self)@.pending[old(self)@.task_id(i as int)].worker_id,
                    texts(available@),
                ) == Some(target@),
            },
    {
        let ghost before = self@;
        let id = self.task_id(i);
        let (worker, chunk_index, sent_at, retries): (String, u32, SentAt, u32) =
            match self.pending.get(id.as_str()) {
            Some(p) => (p.worker_id.clone(), p.chunk_index, p.sent_at, p.retry_count),
            None => {
                return RetryAction::NotPending;
            },
        };
        let reported: bool = match sent_at {
            SentAt::Overdue => true,
            SentAt::At(_) | SentAt::Unsent => false,
        };
        if !reported {
            let n: u32 = strike(&mut self.strikes, worker.as_str());
            if n >= WORKER_STRIKE_LIMIT {
                failed.mark_worker_failed(worker.as_str(), now);
            }
        }
        if retries >= self.options.max_retries {
            self.pending.remove(id.as_str());
            self.failed_chunks.insert(chunk_index);
            assert(self@.pending =~= before.pending.remove(id@));
            return RetryAction::GivenUp;
        }
        let candidates = others(available, worker.as_str());
        if candidates.len() > 0 {
            self.cursor = if self.cursor == usize::MAX {
                0
            } else {
                self.cursor + 1
            };
            let turn: usize = self.cursor % candidates.len();
            assert(texts(candidates@)[turn as int] == candidates@[turn as int]@);
            RetryAction::Send { target: candidates[turn].clone() }
        } else if available.len() > 0 {
            RetryAction::Send { target: available[0].clone() }
        } else {
            RetryAction::NoWorker
        }
    }

    /// Takes down that the task of chunk `i` was sent to `target`, or that it could not be and
    /// `target` has failed.
    pub fn record_retry(
        &mut self,
        i: usize,
        target: &str,
        sent: bool,
        now: u64,
        failed: &mut FailedWorkers,
    )
        requires
            old(self).wf(),
            i < old(self)@.total(),
            old(self)@.may_retry(i as int),
        ensures
            final(self).wf(),
            final(self)@ == old(self)@.retried(i as int, target@, sent, now),
            final(failed)@ == if sent {
                old(failed)@
            } else {
                old(failed)@.insert(target@, now)
            },
    {
        let ghost before = self@;
        if !sent {
            failed.mark_worker_failed(target, now);
            return;
        }
        self.with_module.insert(copy_str(target));
        let id = self.task_id(i);
        let update: Option<(u32, u32)> = match self.pending.get(id.as_str()) {
            Some(p) => Some((p.chunk_index, p.retry_count)),
            None => None,
        };
        if let Some((chunk_index, retries)) = update {
            self.pending.insert(
                id,
                PendingTask {
                    chunk_index,
                    worker_id: copy_str(target),
                    sent_at: SentAt::At(now),
                    retry_count: retries + 1,
                },
            );
        }
        assert(self@.pending =~= before.retried(i as int, target@, sent, now).pending);
    }

    /// Takes a message from a worker. First result wins; late duplicates are dropped by task
    /// id. A worker that could not do a task gets a strike, and has failed when it has too many,
    /// unless it only lacked the module.
    pub fn take_result(
        &mut self,
        msg: WorkerResultMsg<M>,
        now: u64,
        failed: &mut FailedWorkers,
    ) -> (r: Taken)
        requires
            old(self).wf(),
        ensures
            final(self).wf(),
            final(self)@ == old(self)@.result_taken(msg, now),
            final(failed)@ == old(self)@.failed_after_result(old(failed)@, msg, now),
            r == if old(self)@.received.contains(msg.task_id@) {
                Taken::Duplicate
            } else if msg.error is Some {
                Taken::Failed
            } else if msg.chunk_index >= old(self)@.total() {
                Taken::OutOfRange
            } else if old(self)@.results[msg.chunk_index as int] is None {
                Taken::Stored
            } else {
                Taken::Superfluous
            },
    {
        let ghost before = self@;
        let ghost given = msg;
        if self.received.contains(msg.task_id.as_str()) {
            return Taken::Duplicate;
        }
        if let Some(error) = msg.error {
            if contains(error.as_str(), "no cached module") {
                self.with_module.remove(msg.worker_id.as_str());
            } else {
                let n: u32 = strike(&mut self.strikes, msg.worker_id.as_str());
                if n >= WORKER_STRIKE_LIMIT {
                    failed.mark_worker_failed(msg.worker_id.as_str(), now);
                }
            }
            let update: Option<(u32, String, u32)> = match self.pending.get(msg.task_id.as_str()) {
                Some(p) => Some((p.chunk_index, p.worker_id.clone(), p.retry_count)),
                None => None,
            };
            if let Some((chunk_index, worker_id, retry_count)) = update {
                self.pending.insert(
                    msg.task_id,
                    PendingTask { chunk_index, worker_id, sent_at: SentAt::Overdue, retry_count },
                );
            }
            self.last_activity = now;
            assert(self@.pending =~= before.result_taken(given, now).pending);
            return Taken::Failed;
        }
        let idx: usize = msg.chunk_index as usize;
        if idx >= self.results.len() {
            return Taken::OutOfRange;
        }
        self.pending.remove(msg.task_id.as_str());
        self.received.insert(msg.task_id);
        self.last_activity = now;
        assert(self@.pending =~= before.pending.remove(given.task_id@));
        if self.results[idx].is_none() {
            proof {
                lemma_filled_grows(self.results@, idx as int, (msg.meta, msg.bytes));
                lemma_filled_bound(self.results@);
            }
            self.results.set(idx, Some((msg.meta, msg.bytes)));
            self.completed = self.completed + 1;
            Taken::Stored
        } else {
            Taken::Superfluous
        }
    }

    /// The chunks that are missing, in order: those without a result, those given up and those
    /// whose tasks were never answered.
    pub fn missing(&self) -> (r: Vec<u32>)
        requires
            self.wf(),
        ensures
            r@ == self@.missing(),
    {
        let mut r: Vec<u32> = Vec::new();
        let mut i: usize = 0;
        while i < self.results.len()
            invariant
                self.wf(),
                i <= self.results@.len(),
                r@ == self@.missing_below(i as nat),
            decreases self.results@.len() - i,
        {
            let id = self.task_id(i);
            if self.results[i].is_none() || self.failed_chunks.contains(&(i as u32))
                || self.pending.contains_key(id.as_str()) {
                r.push(i as u32);
            }
            i = i + 1;
        }
        r
    }

    /// Ends the job. Chunks that are missing fail it or leave gaps, as its options say; what
    /// is there comes in chunk order.
    pub fn finish(self) -> (r: Result<Vec<Option<(M, Vec<u8>)>>, String>)
        requires
            self.wf(),
        ensures
            if self@.missing().len() > 0 && self@.options.missing_chunks
                == MissingChunkPolicy::Fail {
                r matches Err(e) && e@ == incomplete_text(self@.missing(), self@.total())
            } else {
                r matches Ok(v) && v@ == self@.results
            },
    {
        let missing = self.missing();
        if missing.len() > 0 {
            match self.options.missing_chunks {
                MissingChunkPolicy::Fail => {
                    return Err(report_missing(&missing, self.results.len()));
                },
                MissingChunkPolicy::AllowPartial => {},
            }
        }
        Ok(self.results)
    }
}

/// The report that chunks are missing.
pub fn report_missing(missing: &Vec<u32>, total: usize) -> (r: String)
    ensures
        r@ == incomplete_text(missing@, total as int),
{
    let named: usize = if missing.len() < 20 {
        missing.len()
    } else {
        20
    };
    assert(missing@.take(missing@.len() as int) =~= missing@);
    let mut r = copy_str("job incomplete: ");
    push_decimal(&mut r, missing.len() as u64);
    r.append("/");
    push_decimal(&mut r, total as u64);
    r.append(" chunks missing (indices [");
    push_number_list(&mut r, missing, named);
    r.append("])");
    r
}

} // verus!
