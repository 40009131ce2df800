//! Calls that run a job: what each does to its state, and what it says.
use vstd::prelude::*;
use crate::job::driver::{advanced, Action, Driver, DriverView, Event, PhaseView};
use crate::job::id::{is_random_uuid, start_job};
use crate::job::laws::{missing_lists_each_once, retry_prefers_another};
use crate::job::meaning::{due_chunks_are_in_order, missing_chunks_are_these, report_names_twenty_at_most, task_ids_name_job_and_chunk, tasks_are_due_after_the_timeout, waiting_ends_for_these_reasons};
use crate::job::model::{incomplete_text, number_list, JobView, SentAt, Step, WorkerResultMsg};
use crate::job::state::{report_missing, Job, RetryAction, Taken};
use crate::options::{JobOptions, MissingChunkPolicy};
use crate::parse::unsigned_value;
use crate::protocol::bytes::section;
use crate::protocol::frame::split_into_frames;
use crate::protocol::payload::TaskHeader;
use crate::slots::filled;
use crate::text::decimal;
use crate::workers::{texts, FailedWorkers};

verus! {

/// A job begins over its chunks where there is a worker; else it is said that there is none. Its id
/// is a fresh UUID.
pub proof fn jobs_begin_where_there_is_a_worker<M>(
    job_id: String,
    map_function: &str,
    chunks: Vec<(Vec<u8>, M)>,
    workers: Vec<String>,
    options: JobOptions,
    a: Result<Job<M>, String>,
    b: Result<Job<M>, String>,
)
    requires
        call_ensures(Job::<M>::start, (job_id, map_function, chunks, workers, options), a),
        call_ensures(start_job::<M>, (map_function, chunks, workers, options), b),
    ensures
        a is Ok <==> workers@.len() > 0,
        b is Ok <==> workers@.len() > 0,
        a matches Err(e) ==> e@ == "no workers with open data channels available"@,
        b matches Err(e) ==> e@ == "no workers with open data channels available"@,
        a matches Ok(job) ==> job@ == JobView::begun(
            job_id@,
            map_function@,
            chunks@,
            texts(workers@),
            options,
        ),
        b matches Ok(job) ==> is_random_uuid(job@.job_id) && job@ == JobView::begun(
            job@.job_id,
            map_function@,
            chunks@,
            texts(workers@),
            options,
        ),
{
}

/// The parts of a job are told as they are: how many chunks, how many results, how many tasks in
/// flight, its id.
pub proof fn jobs_tell_their_parts<M>(job: Job<M>, n: usize, done: usize, flying: usize, id: &str)
    requires
        call_ensures(Job::<M>::total, (&job,), n),
        call_ensures(Job::<M>::completed, (&job,), done),
        call_ensures(Job::<M>::in_flight, (&job,), flying),
        call_ensures(Job::<M>::job_id, (&job,), id),
    ensures
        n == job@.results.len(),
        done == filled(job@.results),
        flying == job@.pending.dom().len(),
        id@ == job@.job_id,
{
}

/// The tasks of a job are named by its id and the number of their chunk, and go to the workers in
/// turn. Their headers say so.
pub proof fn tasks_are_named_and_go_in_turn<M: Clone>(
    job: Job<M>,
    i: usize,
    id: String,
    first: String,
    header: TaskHeader<M>,
)
    requires
        job@.workers.len() > 0,
        call_ensures(Job::<M>::task_id, (&job, i), id),
        call_ensures(Job::<M>::first_worker, (&job, i), first),
        call_ensures(Job::<M>::task_header, (&job, i), header),
    ensures
        ({
            let n = job@.job_id.len() as int;
            &&& id@.len() > n + 1
            &&& id@.take(n) == job@.job_id
            &&& id@[n] == '_'
            &&& unsigned_value(id@.skip(n + 1)) == Some(i as nat)
        }),
        first@ == job@.workers[i as int % job@.workers.len() as int],
        header.job_id@ == job@.job_id,
        header.task_id@ == id@,
        header.chunk_index == i,
        header.map_function@ == job@.map_function,
        cloned::<M>(job@.chunks[i as int].1, header.meta),
{
    task_ids_name_job_and_chunk(job@, i as int);
}

/// The messages of a task hold its payload, headed by what is written of its own header.
pub proof fn tasks_travel_with_their_header<M: Clone, W: Fn(&TaskHeader<M>) -> Vec<u8>>(
    job: Job<M>,
    i: usize,
    worker: &str,
    write: W,
    wasm: &[u8],
    glue: &[u8],
    frames: Vec<Vec<u8>>,
)
    requires
        call_ensures(Job::<M>::task_frames::<W>, (&job, i, worker, write, wasm, glue), frames),
    ensures
        exists|h: TaskHeader<M>, header: Vec<u8>|
            {
                &&& h.job_id@ == job@.job_id
                &&& h.task_id@ == job@.task_id(i as int)
                &&& h.chunk_index == i
                &&& h.map_function@ == job@.map_function
                &&& cloned::<M>(job@.chunks[i as int].1, h.meta)
                &&& #[trigger] call_ensures(write, (&h,), header)
                &&& job@.framed(i as int, worker@, header@, wasm@, glue@, frames@)
            },
{
}

/// The messages of a task are those into which its payload is cut for a transfer of kind one that is
/// named after the task. The payload holds the header, then the module and the glue code where the
/// worker has none yet, then the chunk, each behind its length.
pub proof fn task_messages_bring_the_task<M: Clone, W: Fn(&TaskHeader<M>) -> Vec<u8>>(
    job: Job<M>,
    i: usize,
    worker: &str,
    write: W,
    wasm: &[u8],
    glue: &[u8],
    frames: Vec<Vec<u8>>,
    id: &str,
    payload: &[u8],
    cut: Vec<Vec<u8>>,
)
    requires
        call_ensures(Job::<M>::task_frames::<W>, (&job, i, worker, write, wasm, glue), frames),
        call_ensures(split_into_frames, (1u8, id, payload), cut),
        id@ == job@.job_id + "_"@ + decimal(i as nat),
    ensures
        exists|h: TaskHeader<M>, header: Vec<u8>|
            {
                let sent = job@.with_module.contains(worker@);
                let modules = if sent {
                    section(Seq::empty()) + section(Seq::empty())
                } else {
                    section(wasm@) + section(glue@)
                };
                &&& h.task_id@ == id@
                &&& h.chunk_index == i
                &&& #[trigger] call_ensures(write, (&h,), header)
                &&& payload@ == section(header@) + modules + section(job@.chunks[i as int].0@) ==> {
                    &&& frames@.len() == cut@.len()
                    &&& forall|k: int| 0 <= k < cut@.len() ==> (#[trigger] frames@[k])@ == cut@[k]@
                }
            },
{
    let (h, header) = choose|h: TaskHeader<M>, header: Vec<u8>|
        job@.heads(i as int, h) && #[trigger] call_ensures(write, (&h,), header) && job@.framed(
            i as int,
            worker@,
            header@,
            wasm@,
            glue@,
            frames@,
        );
    let (a, d) = (section(header@), section(job@.chunks[i as int].0@));
    let none = section(Seq::<u8>::empty());
    assert(a + none + none + d =~= a + (none + none) + d);
    assert(a + section(wasm@) + section(glue@) + d =~= a + (section(wasm@) + section(glue@)) + d);
}

/// Handing a chunk out is taken down as the model says; a worker that could not be sent its chunk has
/// failed.
pub proof fn dispatches_are_taken_down<M>(
    job: &mut Job<M>,
    i: usize,
    sent: bool,
    now: u64,
    failed: &mut FailedWorkers,
)
    requires
        call_ensures(Job::<M>::record_dispatch, (job, i, sent, now, failed), ()),
        old(job)@.workers.len() > 0,
    ensures
        final(job)@ == old(job)@.dispatched(i as int, sent, now),
        sent ==> final(failed)@ == old(failed)@,
        !sent ==> final(failed)@ == old(failed)@.insert(
            old(job)@.workers[i as int % old(job)@.workers.len() as int],
            now,
        ),
{
}

/// Collection begins, and looks for due tasks are taken down, as the model says.
pub proof fn collection_is_taken_down<M>(a: &mut Job<M>, b: &mut Job<M>, now: u64)
    requires
        call_ensures(Job::<M>::begin_collecting, (a, now), ()),
        call_ensures(Job::<M>::timeouts_checked, (b, now), ()),
    ensures
        final(a)@ == old(a)@.collecting(now),
        final(b)@ == (JobView { last_check: now, ..old(b)@ }),
{
}

/// Waiting ends when every chunk has a result or was given up, when the deadline has passed, or after
/// more than ninety seconds of silence; else it goes on, with a look for due tasks every five seconds.
pub proof fn jobs_wait_so_long<M>(job: Job<M>, now: u64, r: Step)
    requires
        call_ensures(Job::<M>::next_step, (&job, now), r),
    ensures
        ({
            let v = job@;
            r == if filled(v.results) + v.failed_chunks.len() >= v.results.len() {
                Step::Settled
            } else if now > v.deadline {
                Step::DeadlineReached
            } else if now - v.last_activity >= 91_000_000_000 {
                Step::Idle
            } else {
                Step::Collect { check_timeouts: now - v.last_check >= 5_000_000_000 }
            }
        }),
{
    waiting_ends_for_these_reasons(job@, now);
}

proof fn lemma_numbers_contain(r: Seq<usize>, i: usize)
    ensures
        r.map_values(|k: usize| k as int).contains(i as int) <==> r.contains(i),
{
    let all = r.map_values(|k: usize| k as int);
    if r.contains(i) {
        let k = choose|k: int| 0 <= k < r.len() && r[k] == i;
        assert(all[k] == i as int);
    }
    if all.contains(i as int) {
        let k = choose|k: int| 0 <= k < all.len() && all[k] == i as int;
        assert(r[k] == i);
    }
}

/// A chunk is listed as timed out just where its task is in flight and was sent more than the
/// timeout's whole seconds ago, could not be sent, or was reported on. Nothing else plays a part.
pub proof fn chunks_time_out_by_their_task_alone<M>(job: Job<M>, now: u64, r: Vec<usize>, i: usize)
    requires
        call_ensures(Job::<M>::timed_out, (&job, now), r),
        i < job@.results.len(),
    ensures
        ({
            let v = job@;
            let id = v.job_id + "_"@ + decimal(i as nat);
            r@.contains(i) <==> v.pending.contains_key(id) && match v.pending[id].sent_at {
                SentAt::At(t) => now - t >= 1_000_000_000 * (v.options.task_timeout_secs + 1),
                SentAt::Unsent => true,
                SentAt::Overdue => true,
            }
        }),
{
    tasks_are_due_after_the_timeout(job@, now, i as int);
    lemma_numbers_contain(r@, i);
}

/// The chunks that timed out are listed in order, each once, and they are chunks of the job.
pub proof fn timed_out_chunks_are_in_order<M>(job: Job<M>, now: u64, r: Vec<usize>, a: int, b: int)
    requires
        call_ensures(Job::<M>::timed_out, (&job, now), r),
        0 <= a < b < r@.len(),
    ensures
        r@[a] < r@[b] < job@.results.len(),
{
    let all = r@.map_values(|k: usize| k as int);
    assert(all[a] == r@[a] as int && all[b] == r@[b] as int);
    due_chunks_are_in_order(job@, now, a, b);
}

/// A due task is sent to somebody who is available, to another worker if there is one, as long as it
/// has retries left; without retries it is given up; without anybody it waits. What that does to the
/// job and to the failed workers is as the model says.
pub proof fn due_tasks_are_planned<M>(
    job: &mut Job<M>,
    i: usize,
    available: Vec<String>,
    now: u64,
    failed: &mut FailedWorkers,
    r: RetryAction,
)
    requires
        call_ensures(Job::<M>::plan_retry, (job, i, &available, now, failed), r),
    ensures
        ({
            let v = old(job)@;
            let id = v.job_id + "_"@ + decimal(i as nat);
            let there = v.pending.contains_key(id);
            let left = v.pending[id].retry_count < v.options.max_retries;
            &&& final(job)@ == v.retry_planned(i as int, texts(available@))
            &&& final(failed)@ == v.failed_after_plan(old(failed)@, i as int, now)
            &&& r is NotPending <==> !there
            &&& r is GivenUp <==> there && !left
            &&& r is NoWorker <==> there && left && available@.len() == 0
            &&& r matches RetryAction::Send { target } ==> texts(available@).contains(target@) && ((
            exists|w: Seq<char>| #[trigger]
                texts(available@).contains(w) && w != v.pending[id].worker_id) ==> target@
                != v.pending[id].worker_id)
            &&& r matches RetryAction::Send { target } ==> v.retry_target(
                v.pending[id].worker_id,
                texts(available@),
            ) == Some(target@)
        }),
{
    let v = old(job)@;
    let id = v.task_id(i as int);
    retry_prefers_another(v, v.pending[id].worker_id, texts(available@));
    if let Some(target) = v.retry_target(v.pending[id].worker_id, texts(available@)) {
        assert(texts(available@).contains(target));
        assert(available@.len() == texts(available@).len());
    }
}

/// That a task was sent again, or could not be, is taken down as the model says; a worker that could
/// not be reached has failed.
pub proof fn retries_are_taken_down<M>(
    job: &mut Job<M>,
    i: usize,
    target: &str,
    sent: bool,
    now: u64,
    failed: &mut FailedWorkers,
)
    requires
        call_ensures(Job::<M>::record_retry, (job, i, target, sent, now, failed), ()),
    ensures
        final(job)@ == old(job)@.retried(i as int, target@, sent, now),
        sent ==> final(failed)@ == old(failed)@,
        !sent ==> final(failed)@ == old(failed)@.insert(target@, now),
{
}

/// A message is taken as the model says. It is a duplicate just where its task was answered before;
/// else a failure where it reports one; else it names no chunk of the job; else its result is stored
/// just where the chunk had none.
pub proof fn messages_are_taken_once<M>(
    job: &mut Job<M>,
    msg: WorkerResultMsg<M>,
    now: u64,
    failed: &mut FailedWorkers,
    r: Taken,
)
    requires
        call_ensures(Job::<M>::take_result, (job, msg, now, failed), r),
    ensures
        ({
            let v = old(job)@;
            let again = v.received.contains(msg.task_id@);
            let inside = msg.chunk_index < v.results.len();
            &&& final(job)@ == v.result_taken(msg, now)
            &&& final(failed)@ == v.failed_after_result(old(failed)@, msg, now)
            &&& r is Duplicate <==> again
            &&& r is Failed <==> !again && msg.error is Some
            &&& r is OutOfRange <==> !again && msg.error is None && !inside
            &&& r is Stored <==> !again && msg.error is None && inside
                && v.results[msg.chunk_index as int] is None
        }),
{
}

/// The missing chunks are those without a result, those given up and those whose tasks are in flight,
/// in order, each once.
pub proof fn missing_chunks_are_listed<M>(job: Job<M>, r: Vec<u32>, c: u32, a: int, b: int)
    requires
        job.wf(),
        call_ensures(Job::<M>::missing, (&job,), r),
    ensures
        r@.contains(c) <==> c < job@.results.len() && (job@.results[c as int] is None
            || job@.failed_chunks.contains(c) || job@.pending.contains_key(
            job@.job_id + "_"@ + decimal(c as nat),
        )),
        0 <= a < b < r@.len() ==> r@[a] < r@[b],
{
    job.wf_is_coherent();
    missing_chunks_are_these(job@, c);
    missing_lists_each_once(job@);
}

/// A job from which chunks are missing fails, if its options say so, and says which; else its results
/// are given in chunk order.
pub proof fn jobs_end_with_results_or_a_report<M>(
    job: Job<M>,
    missing: Vec<u32>,
    r: Result<Vec<Option<(M, Vec<u8>)>>, String>,
)
    requires
        call_ensures(Job::<M>::missing, (&job,), missing),
        call_ensures(Job::<M>::finish, (job,), r),
    ensures
        r is Err <==> missing@.len() > 0 && job@.options.missing_chunks == MissingChunkPolicy::Fail,
        r matches Ok(v) ==> v@ == job@.results,
        r matches Err(e) ==> e@ == incomplete_text(missing@, job@.total()),
{
}

/// The report tells how many of how many chunks are missing and names them, twenty at most.
pub proof fn reports_name_the_missing(missing: Vec<u32>, total: usize, r: String)
    requires
        call_ensures(report_missing, (&missing, total), r),
    ensures
        ({
            let named = if missing@.len() <= 20 {
                missing@
            } else {
                missing@.take(20)
            };
            r@ == "job incomplete: "@ + decimal(missing@.len()) + "/"@ + decimal(total as nat)
                + " chunks missing (indices ["@ + number_list(named) + "])"@
        }),
{
    if missing@.len() <= 20 {
        report_names_twenty_at_most(missing@, Seq::empty(), total as int);
    } else {
        report_names_twenty_at_most(missing@.take(20), missing@.skip(20), total as int);
        assert(missing@.take(20) + missing@.skip(20) =~= missing@);
    }
}

/// The driver goes on as the model says: its job, what it waits for, who has failed, and what it has
/// done next.
pub proof fn drivers_go_on_as_planned<M>(
    job: Job<M>,
    fresh: Driver<M>,
    d: &mut Driver<M>,
    event: Event<M>,
    now: u64,
    failed: &mut FailedWorkers,
    r: Action,
    over: Driver<M>,
    last: Job<M>,
)
    requires
        call_ensures(Driver::<M>::new, (job,), fresh),
        call_ensures(Driver::<M>::next, (d, event, now, failed), r),
        call_ensures(Driver::<M>::into_job, (over,), last),
    ensures
        fresh@ == (DriverView { job: job@, phase: PhaseView::Fresh }),
        (final(d)@, final(failed)@, r@) == advanced(old(d)@, old(failed)@, event, now),
        last@ == over@.job,
{
}

} // verus!
