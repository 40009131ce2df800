//! What the state of a job means, and how each event changes it.
use vstd::prelude::*;
use crate::options::JobOptions;
use crate::protocol::frame::{frame_bytes, piece_count, piece_frame, FRAME_TASK};
use crate::protocol::payload::{task_payload_bytes, TaskHeader};
use crate::slots::filled;
use crate::text::{contains_text, decimal};
use crate::workers::{elapsed_secs, without, WORKER_STRIKE_LIMIT};

verus! {

/// A job stops waiting when no worker has been heard of for longer than this many seconds.
pub const IDLE_LIMIT_SECS: u64 = 90;

/// How many seconds lie between two looks for tasks that take too long.
pub const TIMEOUT_CHECK_SECS: u64 = 5;

/// A completed worker result delivered from the data-channel handler.
#[derive(Debug)]
pub struct WorkerResultMsg<M> {
    pub task_id: String,
    pub chunk_index: u32,
    pub worker_id: String,
    pub error: Option<String>,
    pub meta: M,
    pub bytes: Vec<u8>,
}

/// When a task was sent. An unsent task could not be sent to its first worker; an overdue one is
/// one of which a worker reported that it could not do it. Both are due for another worker
/// whatever the time.
#[derive(Debug, Clone, Copy, PartialEq, Eq, Structural)]
pub enum SentAt {
    At(u64),
    Unsent,
    Overdue,
}

/// What to do next while results are collected.
#[derive(Debug, Clone, Copy, PartialEq, Eq, Structural)]
pub enum Step {
    /// There are as many results and given-up chunks as chunks.
    Settled,
    /// The job has taken too long.
    DeadlineReached,
    /// No worker has been heard of for too long.
    Idle,
    /// Wait for a message; look for tasks that take too long first, if so said.
    Collect { check_timeouts: bool },
}

/// A task in flight.
pub struct PendingView {
    pub chunk_index: u32,
    pub worker_id: Seq<char>,
    pub sent_at: SentAt,
    pub retry_count: u32,
}

/// The state of a job.
pub struct JobView<M> {
    pub job_id: Seq<char>,
    pub map_function: Seq<char>,
    pub options: JobOptions,
    /// The input bytes and the metadata of each chunk.
    pub chunks: Seq<(Vec<u8>, M)>,
    /// The workers that were available when the job began.
    pub workers: Seq<Seq<char>>,
    /// The tasks in flight, by task id.
    pub pending: Map<Seq<char>, PendingView>,
    /// The first result of each chunk.
    pub results: Seq<Option<(M, Vec<u8>)>>,
    /// The chunks that ran out of retries.
    pub failed_chunks: Set<u32>,
    /// The tasks that were answered with a result.
    pub received: Set<Seq<char>>,
    /// The workers that were sent the module.
    pub with_module: Set<Seq<char>>,
    /// How often each worker let a task down.
    pub strikes: Map<Seq<char>, u32>,
    pub cursor: usize,
    /// The job is given up after this time.
    pub deadline: u128,
    /// When a worker was last heard of.
    pub last_activity: u64,
    /// When tasks that take too long were last looked for.
    pub last_check: u64,
}

/// The id of the task for the chunk number `i`.
pub open spec fn task_id_of(job_id: Seq<char>, i: int) -> Seq<char> {
    job_id + "_"@ + decimal(i as nat)
}

impl<M> JobView<M> {
    pub open spec fn total(self) -> int {
        self.results.len() as int
    }

    pub open spec fn task_id(self, i: int) -> Seq<char> {
        task_id_of(self.job_id, i)
    }

    /// The worker that the chunk number `i` goes to first: the workers take turns.
    pub open spec fn first_worker(self, i: int) -> Seq<char> {
        self.workers[i % self.workers.len() as int]
    }

    /// Each chunk has a slot for its result; the tasks in flight and the chunks given up are
    /// those of the job; no task was sent more often than it may be; somebody was there to begin
    /// with.
    pub open spec fn coherent(self) -> bool {
        &&& self.results.len() == self.chunks.len()
        &&& self.results.len() <= u32::MAX
        &&& self.workers.len() > 0
        &&& self.failed_chunks.finite()
        &&& forall|c: u32| #[trigger] self.failed_chunks.contains(c) ==> c < self.total()
        &&& forall|id: Seq<char>| #[trigger]
            self.pending.contains_key(id) ==> {
                &&& self.pending[id].chunk_index < self.total()
                &&& id == self.task_id(self.pending[id].chunk_index as int)
                &&& self.pending[id].retry_count <= self.options.max_retries
            }
    }

    /// The state in which a job begins.
    pub open spec fn begun(
        job_id: Seq<char>,
        map_function: Seq<char>,
        chunks: Seq<(Vec<u8>, M)>,
        workers: Seq<Seq<char>>,
        options: JobOptions,
    ) -> Self {
        JobView {
            job_id,
            map_function,
            options,
            chunks,
            workers,
            pending: Map::empty(),
            results: Seq::new(chunks.len(), |i: int| None),
            failed_chunks: Set::empty(),
            received: Set::empty(),
            with_module: Set::empty(),
            strikes: Map::empty(),
            cursor: 0,
            deadline: 0,
            last_activity: 0,
            last_check: 0,
        }
    }

    /// The payload of the task for the chunk number `i`, for `worker`.
    pub open spec fn task_payload(
        self,
        i: int,
        worker: Seq<char>,
        header: Seq<u8>,
        wasm: Seq<u8>,
        glue: Seq<u8>,
    ) -> Seq<u8> {
        if self.with_module.contains(worker) {
            task_payload_bytes(header, Seq::empty(), Seq::empty(), self.chunks[i].0@)
        } else {
            task_payload_bytes(header, wasm, glue, self.chunks[i].0@)
        }
    }

    /// `h` is a header of the task for the chunk number `i`. It holds a clone of the chunk's
    /// metadata.
    pub open spec fn heads(self, i: int, h: TaskHeader<M>) -> bool where M: Clone {
        &&& h.job_id@ == self.job_id
        &&& h.task_id@ == self.task_id(i)
        &&& h.chunk_index == i
        &&& h.map_function@ == self.map_function
        &&& cloned::<M>(self.chunks[i].1, h.meta)
    }

    /// The frames carry the task for the chunk number `i` to `worker`: one after the other they
    /// hold the task's payload, with this text as its header.
    pub open spec fn framed(
        self,
        i: int,
        worker: Seq<char>,
        header: Seq<u8>,
        wasm: Seq<u8>,
        glue: Seq<u8>,
        frames: Seq<Vec<u8>>,
    ) -> bool {
        let payload = self.task_payload(i, worker, header, wasm, glue);
        &&& frames.len() == piece_count(payload.len()) % 0x1_0000_0000
        &&& forall|k: int|
            0 <= k < frames.len() ==> (#[trigger] frames[k])@ == frame_bytes(
                piece_frame(FRAME_TASK, self.task_id(i), payload, k),
            )
    }

    /// After the chunk number `i` was sent to its first worker, or could not be.
    pub open spec fn dispatched(self, i: int, sent: bool, now: u64) -> Self {
        let w = self.first_worker(i);
        JobView {
            pending: self.pending.insert(
                self.task_id(i),
                PendingView {
                    chunk_index: i as u32,
                    worker_id: w,
                    sent_at: if sent {
                        SentAt::At(now)
                    } else {
                        SentAt::Unsent
                    },
                    retry_count: 0,
                },
            ),
            with_module: if sent {
                self.with_module.insert(w)
            } else {
                self.with_module
            },
            ..self
        }
    }

    /// After collection began.
    pub open spec fn collecting(self, now: u64) -> Self {
        JobView {
            deadline: (now + deadline_secs(self.total()) * 1_000_000_000) as u128,
            last_activity: now,
            last_check: now,
            ..self
        }
    }

    /// The task has been in flight for longer than the timeout.
    pub open spec fn is_due(self, p: PendingView, now: u64) -> bool {
        match p.sent_at {
            SentAt::At(t) => elapsed_secs(now, t) > self.options.task_timeout_secs,
            SentAt::Unsent | SentAt::Overdue => true,
        }
    }

    /// The task of chunk `i` is in flight and due for another worker.
    pub open spec fn chunk_due(self, i: int, now: u64) -> bool {
        self.pending.contains_key(self.task_id(i)) && self.is_due(
            self.pending[self.task_id(i)],
            now,
        )
    }

    /// The chunks below `n` that are due for another worker, in order.
    pub open spec fn due_below(self, n: nat, now: u64) -> Seq<int>
        decreases n,
    {
        if n == 0 {
            Seq::empty()
        } else {
            let before = self.due_below((n - 1) as nat, now);
            if self.chunk_due(n - 1, now) {
                before.push(n - 1)
            } else {
                before
            }
        }
    }

    /// After a worker reported that it could not do a task. A worker that only lacked the module
    /// is sent it again and not blamed. The task is due for another worker at once.
    pub open spec fn task_failed(
        self,
        task_id: Seq<char>,
        worker_id: Seq<char>,
        error: Seq<char>,
        now: u64,
    ) -> Self {
        let no_module = contains_text(error, "no cached module"@);
        JobView {
            with_module: if no_module {
                self.with_module.remove(worker_id)
            } else {
                self.with_module
            },
            strikes: if no_module {
                self.strikes
            } else {
                struck(self.strikes, worker_id)
            },
            pending: if self.pending.contains_key(task_id) {
                self.pending.insert(
                    task_id,
                    PendingView { sent_at: SentAt::Overdue, ..self.pending[task_id] },
                )
            } else {
                self.pending
            },
            last_activity: now,
            ..self
        }
    }

    /// After a result arrived for a task that was not answered before. The first result of a
    /// chunk stays.
    pub open spec fn task_done(self, task_id: Seq<char>, idx: int, result: (M, Vec<u8>), now: u64) -> Self {
        JobView {
            pending: self.pending.remove(task_id),
            received: self.received.insert(task_id),
            results: if self.results[idx] is None {
                self.results.update(idx, Some(result))
            } else {
                self.results
            },
            last_activity: now,
            ..self
        }
    }

    /// After a message from a worker. A task that was answered before, and a chunk that the job
    /// does not have, are ignored.
    pub open spec fn result_taken(self, msg: WorkerResultMsg<M>, now: u64) -> Self {
        if self.received.contains(msg.task_id@) {
            self
        } else {
            match msg.error {
                Some(error) => self.task_failed(msg.task_id@, msg.worker_id@, error@, now),
                None => if msg.chunk_index >= self.total() {
                    self
                } else {
                    self.task_done(
                        msg.task_id@,
                        msg.chunk_index as int,
                        (msg.meta, msg.bytes),
                        now,
                    )
                },
            }
        }
    }

    /// The failed workers after a message from a worker. One that could not do a task gets a
    /// strike, unless it only lacked the module.
    pub open spec fn failed_after_result(
        self,
        failed: Map<Seq<char>, u64>,
        msg: WorkerResultMsg<M>,
        now: u64,
    ) -> Map<Seq<char>, u64> {
        if self.received.contains(msg.task_id@) {
            failed
        } else {
            match msg.error {
                Some(error) => if contains_text(error@, "no cached module"@) {
                    failed
                } else {
                    marked(failed, struck(self.strikes, msg.worker_id@), msg.worker_id@, now)
                },
                None => failed,
            }
        }
    }

    /// The task of chunk `i` may be sent once more.
    pub open spec fn may_retry(self, i: int) -> bool {
        self.pending.contains_key(self.task_id(i)) ==> self.pending[self.task_id(i)].retry_count
            < self.options.max_retries
    }

    /// To whom a task goes that its worker sat on: to one of the others in turn, else to any.
    pub open spec fn retry_target(self, worker: Seq<char>, available: Seq<Seq<char>>) -> Option<
        Seq<char>,
    > {
        let others = without(available, worker);
        if others.len() > 0 {
            Some(others[next_turn(self.cursor) as int % others.len() as int])
        } else if available.len() > 0 {
            Some(available[0])
        } else {
            None
        }
    }

    /// After the task of chunk `i` was found to be due: a worker that let it time out, or that it
    /// could not be sent to, gets a strike, and a chunk without retries left is given up. Where
    /// the task is due because of a report, that was dealt with when the report came.
    pub open spec fn retry_planned(self, i: int, available: Seq<Seq<char>>) -> Self {
        let id = self.task_id(i);
        if !self.pending.contains_key(id) {
            self
        } else {
            let p = self.pending[id];
            let strikes = match p.sent_at {
                SentAt::Overdue => self.strikes,
                _ => struck(self.strikes, p.worker_id),
            };
            if p.retry_count >= self.options.max_retries {
                JobView {
                    strikes,
                    pending: self.pending.remove(id),
                    failed_chunks: self.failed_chunks.insert(p.chunk_index),
                    ..self
                }
            } else if without(available, p.worker_id).len() > 0 {
                JobView { strikes, cursor: next_turn(self.cursor), ..self }
            } else {
                JobView { strikes, ..self }
            }
        }
    }

    /// The failed workers after the task of chunk `i` was found to be due. A worker that let it
    /// time out, or that it could not be sent to, has failed when it has too many strikes.
    pub open spec fn failed_after_plan(
        self,
        failed: Map<Seq<char>, u64>,
        i: int,
        now: u64,
    ) -> Map<Seq<char>, u64> {
        let id = self.task_id(i);
        if self.pending.contains_key(id) && !(self.pending[id].sent_at is Overdue) {
            let worker = self.pending[id].worker_id;
            marked(failed, struck(self.strikes, worker), worker, now)
        } else {
            failed
        }
    }

    /// After the task of chunk `i` was sent to `target`, or could not be.
    pub open spec fn retried(self, i: int, target: Seq<char>, sent: bool, now: u64) -> Self {
        let id = self.task_id(i);
        if !sent {
            self
        } else {
            JobView {
                with_module: self.with_module.insert(target),
                pending: if self.pending.contains_key(id) {
                    let p = self.pending[id];
                    self.pending.insert(
                        id,
                        PendingView {
                            worker_id: target,
                            sent_at: SentAt::At(now),
                            retry_count: (p.retry_count + 1) as u32,
                            ..p
                        },
                    )
                } else {
                    self.pending
                },
                ..self
            }
        }
    }

    /// The chunks with a result and those given up are, counted together, as many as the chunks.
    pub open spec fn settled(self) -> bool {
        filled(self.results) + self.failed_chunks.len() >= self.total()
    }

    /// What to do next while results are collected.
    pub open spec fn step_at(self, now: u64) -> Step {
        if self.settled() {
            Step::Settled
        } else if now > self.deadline {
            Step::DeadlineReached
        } else if elapsed_secs(now, self.last_activity) > IDLE_LIMIT_SECS {
            Step::Idle
        } else {
            Step::Collect {
                check_timeouts: elapsed_secs(now, self.last_check) >= TIMEOUT_CHECK_SECS,
            }
        }
    }

    /// The chunk `i` has no result, or its task was given up or never answered.
    pub open spec fn is_missing(self, i: int) -> bool {
        ||| self.results[i] is None
        ||| self.failed_chunks.contains(i as u32)
        ||| self.pending.contains_key(self.task_id(i))
    }

    /// The missing chunks below `n`, in order.
    pub open spec fn missing_below(self, n: nat) -> Seq<u32>
        decreases n,
    {
        if n == 0 {
            Seq::empty()
        } else {
            let before = self.missing_below((n - 1) as nat);
            if self.is_missing(n - 1) {
                before.push((n - 1) as u32)
            } else {
                before
            }
        }
    }

    /// The missing chunks, in order.
    pub open spec fn missing(self) -> Seq<u32> {
        self.missing_below(self.results.len())
    }
}

/// How long a job of `total` chunks may take.
pub open spec fn deadline_secs(total: int) -> int {
    if 10 * total < 120 {
        120
    } else if 10 * total > 600 {
        600
    } else {
        10 * total
    }
}

/// How many strikes a worker has.
pub open spec fn strike_count(strikes: Map<Seq<char>, u32>, worker: Seq<char>) -> u32 {
    if strikes.contains_key(worker) {
        strikes[worker]
    } else {
        0
    }
}

/// One strike more for a worker. The count stays at the largest that fits.
pub open spec fn struck(strikes: Map<Seq<char>, u32>, worker: Seq<char>) -> Map<Seq<char>, u32> {
    let n = strike_count(strikes, worker);
    strikes.insert(
        worker,
        if n == u32::MAX {
            n
        } else {
            (n + 1) as u32
        },
    )
}

/// The failed workers after `worker` got a strike: it counts as failed when it has too many.
pub open spec fn marked(
    failed: Map<Seq<char>, u64>,
    strikes: Map<Seq<char>, u32>,
    worker: Seq<char>,
    now: u64,
) -> Map<Seq<char>, u64> {
    if strike_count(strikes, worker) >= WORKER_STRIKE_LIMIT {
        failed.insert(worker, now)
    } else {
        failed
    }
}

/// The next turn; behind the last comes the first.
pub open spec fn next_turn(cursor: usize) -> usize {
    if cursor == usize::MAX {
        0
    } else {
        (cursor + 1) as usize
    }
}

/// Numbers in decimal with commas between them.
pub open spec fn number_list(s: Seq<u32>) -> Seq<char>
    decreases s.len(),
{
    if s.len() == 0 {
        Seq::empty()
    } else if s.len() == 1 {
        decimal(s[0] as nat)
    } else {
        number_list(s.drop_last()) + ", "@ + decimal(s.last() as nat)
    }
}

/// The report that chunks are missing. It names at most twenty of them.
pub open spec fn incomplete_text(missing: Seq<u32>, total: int) -> Seq<char> {
    let named = if missing.len() < 20 {
        missing
    } else {
        missing.take(20)
    };
    "job incomplete: "@ + decimal(missing.len()) + "/"@ + decimal(total as nat)
        + " chunks missing (indices ["@ + number_list(named) + "])"@
}

} // verus!
