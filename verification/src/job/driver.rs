//! The course of a job from its first task to its end.
//!
//! The driver says what to do; its owner does it and says how it went. First every chunk is
//! sent to its first worker. Then messages are taken until the job is settled, is late or goes
//! quiet; in between, tasks that take too long are sent to other workers.
use vstd::prelude::*;
use crate::job::laws::{accounted, after, answered_have_results, answers_and_results_agree, honest, no_chunk_is_lost, possible, stays_coherent, JobEvent};
use crate::job::model::{JobView, Step, WorkerResultMsg};
use crate::job::state::{Job, RetryAction};
use crate::workers::{texts, FailedWorkers};

verus! {

/// Why a job ends.
#[derive(Debug, Clone, Copy, PartialEq, Eq, Structural)]
pub enum Ending {
    /// There are as many results and given-up chunks as chunks.
    Settled,
    /// The job has taken too long.
    DeadlineReached,
    /// No worker has been heard of for too long.
    Idle,
    /// No more messages can come.
    Closed,
}

/// What the owner is to do.
#[derive(Debug)]
pub enum Action {
    /// Send the task of this chunk to this worker.
    Send { chunk: usize, worker: String },
    /// Find out who is available.
    ListWorkers,
    /// Wait a while for a message.
    Receive,
    /// Nothing more.
    Finish(Ending),
}

/// How it went.
#[derive(Debug)]
pub enum Event<M> {
    /// The job begins.
    Begin,
    /// A task was sent, or could not be.
    Sent(bool),
    /// These workers are available.
    Workers(Vec<String>),
    /// A message came.
    Message(WorkerResultMsg<M>),
    /// No message came.
    Silence,
    /// No more messages can come.
    Closed,
}

/// What the driver waits for.
enum Phase {
    Fresh,
    Dispatching { next: usize },
    Waiting,
    Asking { due: Vec<usize> },
    Retrying { due: Vec<usize>, k: usize, available: Vec<String>, target: String },
    Finished { ending: Ending },
}

/// What an [`Action`] holds.
pub enum ActionView {
    Send { chunk: int, worker: Seq<char> },
    ListWorkers,
    Receive,
    Finish(Ending),
}

impl View for Action {
    type V = ActionView;

    open spec fn view(&self) -> ActionView {
        match *self {
            Action::Send { chunk, worker } => ActionView::Send {
                chunk: chunk as int,
                worker: worker@,
            },
            Action::ListWorkers => ActionView::ListWorkers,
            Action::Receive => ActionView::Receive,
            Action::Finish(ending) => ActionView::Finish(ending),
        }
    }
}

/// What the driver waits for.
pub enum PhaseView {
    /// The beginning.
    Fresh,
    /// The outcome of sending the chunk number `next` to its first worker.
    Dispatching { next: int },
    /// A message.
    Waiting,
    /// The workers for the chunks `due`.
    Asking { due: Seq<int> },
    /// The outcome of sending the chunk `due[k]` to `target`.
    Retrying { due: Seq<int>, k: int, available: Seq<Seq<char>>, target: Seq<char> },
    /// Nothing.
    Finished { ending: Ending },
}

/// The state of a driver.
pub struct DriverView<M> {
    pub job: JobView<M>,
    pub phase: PhaseView,
}

/// What a driver does on an event: its next state, the failed workers, and the action.
pub type Advanced<M> = (DriverView<M>, Map<Seq<char>, u64>, ActionView);

/// Chunk numbers as mathematical integers.
pub open spec fn numbers(v: Seq<usize>) -> Seq<int> {
    v.map_values(|k: usize| k as int)
}

/// The end of a job for this reason.
pub open spec fn finished<M>(
    job: JobView<M>,
    failed: Map<Seq<char>, u64>,
    ending: Ending,
) -> Advanced<M> {
    (DriverView { job, phase: PhaseView::Finished { ending } }, failed, ActionView::Finish(ending))
}

/// Wait for a message next.
pub open spec fn waiting<M>(job: JobView<M>, failed: Map<Seq<char>, u64>) -> Advanced<M> {
    (DriverView { job, phase: PhaseView::Waiting }, failed, ActionView::Receive)
}

/// What to do next while results are collected.
pub open spec fn decided<M>(job: JobView<M>, failed: Map<Seq<char>, u64>, now: u64) -> Advanced<M> {
    match job.step_at(now) {
        Step::Settled => finished(job, failed, Ending::Settled),
        Step::DeadlineReached => finished(job, failed, Ending::DeadlineReached),
        Step::Idle => finished(job, failed, Ending::Idle),
        Step::Collect { check_timeouts } => {
            let due = job.due_below(job.results.len(), now);
            if !check_timeouts {
                waiting(job, failed)
            } else if due.len() == 0 {
                waiting(JobView { last_check: now, ..job }, failed)
            } else {
                (
                    DriverView { job, phase: PhaseView::Asking { due } },
                    failed,
                    ActionView::ListWorkers,
                )
            }
        },
    }
}

/// Send the chunk number `i` to its first worker; collect results once all were sent.
pub open spec fn dispatching<M>(
    job: JobView<M>,
    failed: Map<Seq<char>, u64>,
    i: int,
    now: u64,
) -> Advanced<M> {
    if i < job.total() {
        (
            DriverView { job, phase: PhaseView::Dispatching { next: i } },
            failed,
            ActionView::Send { chunk: i, worker: job.first_worker(i) },
        )
    } else {
        decided(job.collecting(now), failed, now)
    }
}

/// Send the next of the due chunks, from `due[k]` on, that can be sent; wait for a message where
/// there is none.
pub open spec fn retrying<M>(
    job: JobView<M>,
    failed: Map<Seq<char>, u64>,
    due: Seq<int>,
    k: int,
    available: Seq<Seq<char>>,
    now: u64,
) -> Advanced<M>
    decreases due.len() - k,
{
    if k >= due.len() {
        waiting(JobView { last_check: now, ..job }, failed)
    } else {
        let i = due[k];
        let id = job.task_id(i);
        let planned = job.retry_planned(i, available);
        let blamed = job.failed_after_plan(failed, i, now);
        let target = if job.pending.contains_key(id) && job.may_retry(i) {
            job.retry_target(job.pending[id].worker_id, available)
        } else {
            None
        };
        match target {
            Some(target) => (
                DriverView {
                    job: planned,
                    phase: PhaseView::Retrying { due, k, available, target },
                },
                blamed,
                ActionView::Send { chunk: i, worker: target },
            ),
            None => retrying(planned, blamed, due, k + 1, available, now),
        }
    }
}

/// What a driver does on an event that it waits for.
pub open spec fn advanced<M>(
    d: DriverView<M>,
    failed: Map<Seq<char>, u64>,
    event: Event<M>,
    now: u64,
) -> Advanced<M> {
    match (d.phase, event) {
        (PhaseView::Fresh, _) => dispatching(d.job, failed, 0, now),
        (PhaseView::Dispatching { next }, Event::Sent(sent)) => dispatching(
            d.job.dispatched(next, sent, now),
            if sent {
                failed
            } else {
                failed.insert(d.job.first_worker(next), now)
            },
            next + 1,
            now,
        ),
        (PhaseView::Waiting, Event::Message(msg)) => decided(
            d.job.result_taken(msg, now),
            d.job.failed_after_result(failed, msg, now),
            now,
        ),
        (PhaseView::Waiting, Event::Closed) => finished(d.job, failed, Ending::Closed),
        (PhaseView::Waiting, _) => decided(d.job, failed, now),
        (PhaseView::Asking { due }, Event::Workers(available)) => retrying(
            d.job,
            failed,
            due,
            0,
            texts(available@),
            now,
        ),
        (PhaseView::Retrying { due, k, available, target }, Event::Sent(sent)) => retrying(
            d.job.retried(due[k], target, sent, now),
            if sent {
                failed
            } else {
                failed.insert(target, now)
            },
            due,
            k + 1,
            available,
            now,
        ),
        (PhaseView::Finished { ending }, _) => finished(d.job, failed, ending),
        _ => finished(d.job, failed, Ending::Closed),
    }
}

impl<M> DriverView<M> {
    /// The driver waits for an event of this kind.
    pub open spec fn expects(self, event: Event<M>) -> bool {
        match self.phase {
            PhaseView::Fresh => event is Begin,
            PhaseView::Dispatching { .. } => event is Sent,
            PhaseView::Waiting => event is Message || event is Silence || event is Closed,
            PhaseView::Asking { .. } => event is Workers,
            PhaseView::Retrying { .. } => event is Sent,
            PhaseView::Finished { .. } => true,
        }
    }

    /// Every chunk that was handed out so far is accounted for, and the phase speaks of chunks
    /// of the job.
    pub open spec fn sound(self) -> bool {
        &&& self.job.coherent()
        &&& match self.phase {
            PhaseView::Fresh => true,
            PhaseView::Dispatching { next } => 0 <= next < self.job.total() && forall|i: int|
                0 <= i < next ==> #[trigger] accounted(self.job, i),
            PhaseView::Waiting => all_accounted(self.job),
            PhaseView::Asking { due } => all_accounted(self.job) && chunks_of(self.job, due),
            PhaseView::Retrying { due, k, .. } => all_accounted(self.job) && chunks_of(
                self.job,
                due,
            ) && 0 <= k < due.len() && self.job.may_retry(due[k]),
            PhaseView::Finished { .. } => all_accounted(self.job),
        }
    }
}

/// Every chunk is accounted for.
pub open spec fn all_accounted<M>(job: JobView<M>) -> bool {
    forall|i: int| 0 <= i < job.total() ==> #[trigger] accounted(job, i)
}

/// These are chunks of the job.
pub open spec fn chunks_of<M>(job: JobView<M>, due: Seq<int>) -> bool {
    forall|k: int| 0 <= k < due.len() ==> 0 <= (#[trigger] due[k]) < job.total()
}

/// A job under way.
#[verifier::reject_recursive_types(M)]
pub struct Driver<M> {
    job: Job<M>,
    phase: Phase,
}

impl Phase {
    spec fn view(&self) -> PhaseView {
        match *self {
            Phase::Fresh => PhaseView::Fresh,
            Phase::Dispatching { next } => PhaseView::Dispatching { next: next as int },
            Phase::Waiting => PhaseView::Waiting,
            Phase::Asking { due } => PhaseView::Asking { due: numbers(due@) },
            Phase::Retrying { due, k, available, target } => PhaseView::Retrying {
                due: numbers(due@),
                k: k as int,
                available: texts(available@),
                target: target@,
            },
            Phase::Finished { ending } => PhaseView::Finished { ending },
        }
    }
}

impl<M> View for Driver<M> {
    type V = DriverView<M>;

    closed spec fn view(&self) -> DriverView<M> {
        DriverView { job: self.job@, phase: self.phase.view() }
    }
}

proof fn lemma_due_are_chunks<M>(job: JobView<M>, n: nat, now: u64)
    ensures
        forall|k: int|
            0 <= k < job.due_below(n, now).len() ==> 0 <= (#[trigger] job.due_below(n, now)[k])
                < n,
    decreases n,
{
    if n > 0 {
        let before = job.due_below((n - 1) as nat, now);
        lemma_due_are_chunks(job, (n - 1) as nat, now);
        assert forall|k: int| 0 <= k < job.due_below(n, now).len() implies 0 <= (
        #[trigger] job.due_below(n, now)[k]) < n by {
            if k < before.len() {
                assert(0 <= before[k] < n - 1);
            }
        }
    }
}

/// An event leaves the chunks accounted for that were.
proof fn lemma_accounted<M>(job: JobView<M>, e: JobEvent<M>, n: int)
    requires
        job.coherent(),
        possible(job, e),
        0 <= n <= job.total(),
        forall|i: int| 0 <= i < n ==> #[trigger] accounted(job, i),
    ensures
        after(job, e).coherent(),
        after(job, e).total() == job.total(),
        forall|i: int| 0 <= i < n ==> #[trigger] accounted(after(job, e), i),
        (e matches JobEvent::Dispatched { i, .. } && i == n) ==> accounted(
            after(job, e),
            n,
        ),
{
    stays_coherent(job, e);
    assert forall|i: int| 0 <= i < n implies #[trigger] accounted(
        after(job, e),
        i,
    ) by {
        no_chunk_is_lost(job, e, i);
    }
    if let JobEvent::Dispatched { i, .. } = e {
        if i == n {
            no_chunk_is_lost(job, e, n);
        }
    }
}

proof fn lemma_decided_sound<M>(job: JobView<M>, failed: Map<Seq<char>, u64>, now: u64)
    requires
        job.coherent(),
        all_accounted(job),
    ensures
        decided(job, failed, now).0.sound(),
{
    lemma_due_are_chunks(job, job.results.len(), now);
    lemma_accounted(job, JobEvent::TimeoutsChecked { now }, job.total());
}

proof fn lemma_retrying_sound<M>(
    job: JobView<M>,
    failed: Map<Seq<char>, u64>,
    due: Seq<int>,
    k: int,
    available: Seq<Seq<char>>,
    now: u64,
)
    requires
        job.coherent(),
        all_accounted(job),
        chunks_of(job, due),
        0 <= k,
    ensures
        retrying(job, failed, due, k, available, now).0.sound(),
    decreases due.len() - k,
{
    if k >= due.len() {
        lemma_accounted(job, JobEvent::TimeoutsChecked { now }, job.total());
    } else {
        let i = due[k];
        let planned = job.retry_planned(i, available);
        lemma_accounted(job, JobEvent::RetryPlanned { i, available }, job.total());
        assert(chunks_of(planned, due));
        lemma_retrying_sound(
            planned,
            job.failed_after_plan(failed, i, now),
            due,
            k + 1,
            available,
            now,
        );
    }
}

/// Whatever happens, every chunk that was handed out stays accounted for: in flight, answered or
/// given up. At the end that is every chunk.
pub proof fn driver_stays_sound<M>(
    d: DriverView<M>,
    failed: Map<Seq<char>, u64>,
    event: Event<M>,
    now: u64,
)
    requires
        d.sound(),
        d.expects(event),
    ensures
        advanced(d, failed, event, now).0.sound(),
{
    let job = d.job;
    match (d.phase, event) {
        (PhaseView::Fresh, _) => {
            if job.total() == 0 {
                lemma_accounted(job, JobEvent::Collecting { now }, 0);
                lemma_decided_sound(job.collecting(now), failed, now);
            }
        },
        (PhaseView::Dispatching { next }, Event::Sent(sent)) => {
            lemma_accounted(job, JobEvent::Dispatched { i: next, sent, now }, next);
            let all = job.dispatched(next, sent, now);
            if next + 1 == job.total() {
                lemma_accounted(all, JobEvent::Collecting { now }, job.total());
                lemma_decided_sound(
                    all.collecting(now),
                    if sent {
                        failed
                    } else {
                        failed.insert(job.first_worker(next), now)
                    },
                    now,
                );
            }
        },
        (PhaseView::Waiting, Event::Message(msg)) => {
            lemma_accounted(job, JobEvent::ResultTaken { msg, now }, job.total());
            lemma_decided_sound(
                job.result_taken(msg, now),
                job.failed_after_result(failed, msg, now),
                now,
            );
        },
        (PhaseView::Waiting, Event::Closed) => {},
        (PhaseView::Waiting, _) => {
            lemma_decided_sound(job, failed, now);
        },
        (PhaseView::Asking { due }, Event::Workers(available)) => {
            lemma_retrying_sound(job, failed, due, 0, texts(available@), now);
        },
        (PhaseView::Retrying { due, k, available, target }, Event::Sent(sent)) => {
            let i = due[k];
            lemma_accounted(job, JobEvent::Retried { i, target, sent, now }, job.total());
            let resent = job.retried(i, target, sent, now);
            assert(chunks_of(resent, due));
            lemma_retrying_sound(
                resent,
                if sent {
                    failed
                } else {
                    failed.insert(target, now)
                },
                due,
                k + 1,
                available,
                now,
            );
        },
        _ => {},
    }
}

/// The two states have the same results for the same answers.
spec fn same_answers<M>(a: JobView<M>, b: JobView<M>) -> bool {
    a.results == b.results && a.received == b.received && a.job_id == b.job_id
}

proof fn lemma_retrying_same_answers<M>(
    job: JobView<M>,
    failed: Map<Seq<char>, u64>,
    due: Seq<int>,
    k: int,
    available: Seq<Seq<char>>,
    now: u64,
)
    ensures
        same_answers(retrying(job, failed, due, k, available, now).0.job, job),
    decreases due.len() - k,
{
    if k < due.len() {
        let planned = job.retry_planned(due[k], available);
        lemma_retrying_same_answers(
            planned,
            job.failed_after_plan(failed, due[k], now),
            due,
            k + 1,
            available,
            now,
        );
    }
}

/// Where results name their own tasks, just the chunks whose tasks were answered have results,
/// throughout. So at the end the missing chunks are those given up and those unanswered.
pub proof fn driver_keeps_answers<M>(
    d: DriverView<M>,
    failed: Map<Seq<char>, u64>,
    event: Event<M>,
    now: u64,
)
    requires
        d.expects(event),
        answered_have_results(d.job),
        event matches Event::Message(msg) ==> honest(d.job, JobEvent::ResultTaken { msg, now }),
    ensures
        answered_have_results(advanced(d, failed, event, now).0.job),
{
    let job = d.job;
    let end = advanced(d, failed, event, now).0.job;
    match (d.phase, event) {
        (PhaseView::Waiting, Event::Message(msg)) => {
            answers_and_results_agree(job, JobEvent::ResultTaken { msg, now });
            let taken = job.result_taken(msg, now);
            assert(same_answers(end, taken));
            assert forall|i: int| 0 <= i < end.total() implies ((#[trigger] end.results[i]) is Some
                <==> end.received.contains(end.task_id(i))) by {
                assert(taken.results[i] is Some <==> taken.received.contains(taken.task_id(i)));
            }
        },
        _ => {
            match (d.phase, event) {
                (PhaseView::Asking { due }, Event::Workers(available)) => {
                    lemma_retrying_same_answers(job, failed, due, 0, texts(available@), now);
                },
                (PhaseView::Retrying { due, k, available, target }, Event::Sent(sent)) => {
                    lemma_retrying_same_answers(
                        job.retried(due[k], target, sent, now),
                        if sent {
                            failed
                        } else {
                            failed.insert(target, now)
                        },
                        due,
                        k + 1,
                        available,
                        now,
                    );
                },
                _ => {},
            }
            assert(same_answers(end, job));
            assert forall|i: int| 0 <= i < end.total() implies ((#[trigger] end.results[i]) is Some
                <==> end.received.contains(end.task_id(i))) by {
                assert(job.results[i] is Some <==> job.received.contains(job.task_id(i)));
            }
        },
    }
}

impl<M> Driver<M> {
    /// The parts of the state agree with each other.
    pub closed spec fn wf(self) -> bool {
        self.job.wf() && self@.sound()
    }

    /// A driver for a job that has just been started.
    pub fn new(job: Job<M>) -> (r: Self)
        requires
            job.wf(),
        ensures
            r.wf(),
            r@ == (DriverView { job: job@, phase: PhaseView::Fresh }),
    {
        proof {
            job.wf_is_coherent();
        }
        Driver { job, phase: Phase::Fresh }
    }

    /// The job.
    pub fn job(&self) -> (r: &Job<M>)
        requires
            self.wf(),
        ensures
            r@ == self@.job,
            r.wf(),
    {
        &self.job
    }

    /// The end that this step means, if it is one.
    fn decide(&mut self, now: u64) -> (r: Action)
        requires
            old(self).job.wf(),
        ensures
            final(self).job.wf(),
            forall|failed: Map<Seq<char>, u64>|
                (final(self)@, failed, r@) == #[trigger] decided(old(self).job@, failed, now),
    {
        let ending = match self.job.next_step(now) {
            Step::Settled => Ending::Settled,
            Step::DeadlineReached => Ending::DeadlineReached,
            Step::Idle => Ending::Idle,
            Step::Collect { check_timeouts } => {
                if check_timeouts {
                    let due = self.job.timed_out(now);
                    assert(numbers(due@).len() == due@.len());
                    if due.len() > 0 {
                        self.phase = Phase::Asking { due };
                        return Action::ListWorkers;
                    }
                    self.job.timeouts_checked(now);
                }
                self.phase = Phase::Waiting;
                return Action::Receive;
            },
        };
        self.phase = Phase::Finished { ending };
        Action::Finish(ending)
    }

    /// Sends the chunk number `i` to its first worker, or begins to collect.
    fn dispatch(&mut self, i: usize, now: u64) -> (r: Action)
        requires
            old(self).job.wf(),
        ensures
            final(self).job.wf(),
            forall|failed: Map<Seq<char>, u64>|
                (final(self)@, failed, r@) == #[trigger] dispatching(
                    old(self).job@,
                    failed,
                    i as int,
                    now,
                ),
    {
        if i < self.job.total() {
            let worker = self.job.first_worker(i);
            self.phase = Phase::Dispatching { next: i };
            return Action::Send { chunk: i, worker };
        }
        self.job.begin_collecting(now);
        let ghost job = self.job@;
        let r = self.decide(now);
        assert forall|failed: Map<Seq<char>, u64>| (self@, failed, r@) == #[trigger] dispatching(
            old(self).job@,
            failed,
            i as int,
            now,
        ) by {
            assert((self@, failed, r@) == decided(job, failed, now));
        }
        r
    }

    /// Sends the next of the due chunks that can be sent.
    fn retry(
        &mut self,
        due: Vec<usize>,
        from: usize,
        available: Vec<String>,
        now: u64,
        failed: &mut FailedWorkers,
    ) -> (r: Action)
        requires
            old(self).job.wf(),
            chunks_of(old(self).job@, numbers(due@)),
        ensures
            final(self).job.wf(),
            (final(self)@, final(failed)@, r@) == retrying(
                old(self).job@,
                old(failed)@,
                numbers(due@),
                from as int,
                texts(available@),
                now,
            ),
    {
        let mut k: usize = from;
        while k < due.len()
            invariant
                self.job.wf(),
                chunks_of(self.job@, numbers(due@)),
                retrying(
                    self.job@,
                    failed@,
                    numbers(due@),
                    k as int,
                    texts(available@),
                    now,
                ) == retrying(
                    old(self).job@,
                    old(failed)@,
                    numbers(due@),
                    from as int,
                    texts(available@),
                    now,
                ),
            decreases due@.len() - k,
        {
            let i: usize = due[k];
            assert(numbers(due@)[k as int] == i as int);
            let ghost before = self.job@;
            let action = self.job.plan_retry(i, &available, now, failed);
            assert(self.job@.total() == before.total());
            if let RetryAction::Send { target } = action {
                let worker = target.clone();
                self.phase = Phase::Retrying { due, k, available, target };
                return Action::Send { chunk: i, worker };
            }
            k = k + 1;
        }
        self.job.timeouts_checked(now);
        self.phase = Phase::Waiting;
        Action::Receive
    }

    /// Takes in how it went and says what to do next.
    pub fn next(&mut self, event: Event<M>, now: u64, failed: &mut FailedWorkers) -> (r: Action)
        requires
            old(self).wf(),
            old(self)@.expects(event),
        ensures
            final(self).wf(),
            (final(self)@, final(failed)@, r@) == advanced(old(self)@, old(failed)@, event, now),
    {
        proof {
            driver_stays_sound(self@, failed@, event, now);
        }
        let ghost was = self@;
        let ghost blamed = failed@;
        let mut phase = Phase::Fresh;
        std::mem::swap(&mut phase, &mut self.phase);
        match (phase, event) {
            (Phase::Fresh, _) => {
                let r = self.dispatch(0, now);
                assert((self@, blamed, r@) == dispatching(was.job, blamed, 0, now));
                r
            },
            (Phase::Dispatching { next }, Event::Sent(sent)) => {
                self.job.record_dispatch(next, sent, now, failed);
                let ghost job = self.job@;
                let r = self.dispatch(next + 1, now);
                assert((self@, failed@, r@) == dispatching(job, failed@, next + 1, now));
                r
            },
            (Phase::Waiting, Event::Message(msg)) => {
                self.job.take_result(msg, now, failed);
                let ghost job = self.job@;
                let r = self.decide(now);
                assert((self@, failed@, r@) == decided(job, failed@, now));
                r
            },
            (Phase::Waiting, Event::Closed) => {
                self.phase = Phase::Finished { ending: Ending::Closed };
                Action::Finish(Ending::Closed)
            },
            (Phase::Waiting, _) => {
                let r = self.decide(now);
                assert((self@, blamed, r@) == decided(was.job, blamed, now));
                r
            },
            (Phase::Asking { due }, Event::Workers(available)) => {
                self.retry(due, 0, available, now, failed)
            },
            (Phase::Retrying { due, k, available, target }, Event::Sent(sent)) => {
                let count: usize = due.len();
                assert(numbers(due@).len() == count);
                let i: usize = due[k];
                assert(numbers(due@)[k as int] == i as int);
                self.job.record_retry(i, target.as_str(), sent, now, failed);
                assert(self.job@.total() == was.job.total());
                self.retry(due, k + 1, available, now, failed)
            },
            (Phase::Finished { ending }, _) => {
                self.phase = Phase::Finished { ending };
                Action::Finish(ending)
            },
            _ => {
                self.phase = Phase::Finished { ending: Ending::Closed };
                Action::Finish(Ending::Closed)
            },
        }
    }

    /// The job, when it is over.
    pub fn into_job(self) -> (r: Job<M>)
        requires
            self.wf(),
        ensures
            r@ == self@.job,
            r.wf(),
    {
        self.job
    }
}

} // verus!
