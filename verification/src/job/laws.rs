//! What holds of a job whatever happens to it.
use vstd::prelude::*;
use crate::job::model::{marked, next_turn, strike_count, struck, task_id_of, JobView, SentAt, WorkerResultMsg};
use crate::options::JobOptions;
use crate::protocol::payload::task_payload_bytes;
use crate::slots::{all_filled, filled};
use crate::text::{contains_text, decimal, lemma_decimal_injective};
use crate::workers::{available_exactly_when_open_and_trusted, channel_workers, elapsed_secs, still_failed, usable_channels, without, without_leaves_out_one, Channel, WORKER_REHAB_SECS};

verus! {

/// Something that happens to a job.
pub enum JobEvent<M> {
    Dispatched { i: int, sent: bool, now: u64 },
    Collecting { now: u64 },
    TimeoutsChecked { now: u64 },
    RetryPlanned { i: int, available: Seq<Seq<char>> },
    Retried { i: int, target: Seq<char>, sent: bool, now: u64 },
    ResultTaken { msg: WorkerResultMsg<M>, now: u64 },
}

/// The event speaks of a chunk of the job, and a task is sent again only where it may be.
pub open spec fn possible<M>(v: JobView<M>, e: JobEvent<M>) -> bool {
    match e {
        JobEvent::Dispatched { i, .. } => 0 <= i < v.total(),
        JobEvent::RetryPlanned { i, .. } => 0 <= i < v.total(),
        JobEvent::Retried { i, .. } => 0 <= i < v.total() && v.may_retry(i),
        _ => true,
    }
}

/// The state of the job after the event.
pub open spec fn after<M>(v: JobView<M>, e: JobEvent<M>) -> JobView<M> {
    match e {
        JobEvent::Dispatched { i, sent, now } => v.dispatched(i, sent, now),
        JobEvent::Collecting { now } => v.collecting(now),
        JobEvent::TimeoutsChecked { now } => JobView { last_check: now, ..v },
        JobEvent::RetryPlanned { i, available } => v.retry_planned(i, available),
        JobEvent::Retried { i, target, sent, now } => v.retried(i, target, sent, now),
        JobEvent::ResultTaken { msg, now } => v.result_taken(msg, now),
    }
}

/// The task of chunk `i` is in flight or was answered, or the chunk was given up.
pub open spec fn accounted<M>(v: JobView<M>, i: int) -> bool {
    ||| v.pending.contains_key(v.task_id(i))
    ||| v.received.contains(v.task_id(i))
    ||| v.failed_chunks.contains(i as u32)
}

/// A result that names a chunk of the job names that chunk's task.
pub open spec fn honest<M>(v: JobView<M>, e: JobEvent<M>) -> bool {
    e matches JobEvent::ResultTaken { msg, .. } ==> msg.error is None && msg.chunk_index
        < v.total() ==> msg.task_id@ == v.task_id(msg.chunk_index as int)
}

/// Just the chunks whose tasks were answered have results.
pub open spec fn answered_have_results<M>(v: JobView<M>) -> bool {
    forall|i: int|
        0 <= i < v.total() ==> ((#[trigger] v.results[i]) is Some <==> v.received.contains(
            v.task_id(i),
        ))
}

/// The tasks of different chunks have different ids.
pub proof fn task_ids_differ(job_id: Seq<char>, i: int, j: int)
    requires
        0 <= i,
        0 <= j,
        task_id_of(job_id, i) == task_id_of(job_id, j),
    ensures
        i == j,
{
    let head = job_id + "_"@;
    let n = head.len() as int;
    let a = task_id_of(job_id, i);
    let b = task_id_of(job_id, j);
    assert(a.subrange(n, a.len() as int) =~= decimal(i as nat));
    assert(b.subrange(n, b.len() as int) =~= decimal(j as nat));
    lemma_decimal_injective(i as nat, j as nat);
}

/// Whatever happens to a job, its parts stay in agreement; above all, no task is sent again
/// more often than the options allow.
pub proof fn stays_coherent<M>(v: JobView<M>, e: JobEvent<M>)
    requires
        v.coherent(),
        possible(v, e),
    ensures
        after(v, e).coherent(),
{
}

/// A chunk that was handed out once stays accounted for: its task is in flight or answered, or
/// it was given up.
pub proof fn no_chunk_is_lost<M>(v: JobView<M>, e: JobEvent<M>, i: int)
    requires
        v.coherent(),
        possible(v, e),
        0 <= i < v.total(),
        accounted(v, i) || (e matches JobEvent::Dispatched { i: k, .. } && k == i),
    ensures
        accounted(after(v, e), i),
{
    if let JobEvent::RetryPlanned { i: k, .. } = e {
        if v.task_id(k) == v.task_id(i) {
            task_ids_differ(v.job_id, k, i);
        }
        if v.pending.contains_key(v.task_id(k)) {
            let c = v.pending[v.task_id(k)].chunk_index as int;
            task_ids_differ(v.job_id, c, k);
        }
    }
}

/// The first result of a chunk wins: once there, it stays.
pub proof fn first_result_wins<M>(v: JobView<M>, e: JobEvent<M>, i: int)
    requires
        possible(v, e),
        0 <= i < v.total(),
        v.results[i] is Some,
    ensures
        after(v, e).results[i] == v.results[i],
{
}

/// A task is answered once: a later message for it changes nothing.
pub proof fn late_duplicates_are_dropped<M>(
    v: JobView<M>,
    first: WorkerResultMsg<M>,
    late: WorkerResultMsg<M>,
    now: u64,
    later: u64,
)
    requires
        first.error is None,
        first.chunk_index < v.total(),
        late.task_id@ == first.task_id@,
    ensures
        v.result_taken(first, now).result_taken(late, later) == v.result_taken(first, now),
{
}

/// Where results name their own tasks, just the chunks whose tasks were answered have results.
pub proof fn answers_and_results_agree<M>(v: JobView<M>, e: JobEvent<M>)
    requires
        possible(v, e),
        honest(v, e),
        answered_have_results(v),
    ensures
        answered_have_results(after(v, e)),
{
    let w = after(v, e);
    if let JobEvent::ResultTaken { msg, .. } = e {
        assert forall|i: int| 0 <= i < w.total() implies ((#[trigger] w.results[i]) is Some
            <==> w.received.contains(w.task_id(i))) by {
            assert(v.results[i] is Some <==> v.received.contains(v.task_id(i)));
            if msg.error is None && msg.chunk_index < v.total() && w.task_id(i) == msg.task_id@ {
                task_ids_differ(v.job_id, i, msg.chunk_index as int);
            }
        }
    } else {
        assert forall|i: int| 0 <= i < w.total() implies ((#[trigger] w.results[i]) is Some
            <==> w.received.contains(w.task_id(i))) by {
            assert(v.results[i] is Some <==> v.received.contains(v.task_id(i)));
        }
    }
}

proof fn lemma_missing_below<M>(v: JobView<M>, n: nat, c: u32)
    requires
        v.coherent(),
        n <= v.total(),
    ensures
        v.missing_below(n).contains(c) <==> (c < n && v.is_missing(c as int)),
        v.missing_below(n).len() <= n,
        forall|a: int, b: int|
            0 <= a < b < v.missing_below(n).len() ==> v.missing_below(n)[a] < v.missing_below(n)[b],
        forall|a: int| 0 <= a < v.missing_below(n).len() ==> (#[trigger] v.missing_below(n)[a]) < n,
    decreases n,
{
    if n > 0 {
        let before = v.missing_below((n - 1) as nat);
        lemma_missing_below(v, (n - 1) as nat, c);
        let all = v.missing_below(n);
        if v.is_missing(n - 1) {
            assert(all[all.len() - 1] == n - 1);
            if before.contains(c) {
                let k = choose|k: int| 0 <= k < before.len() && before[k] == c;
                assert(all[k] == c);
            }
            if all.contains(c) && c != n - 1 {
                let k = choose|k: int| 0 <= k < all.len() && all[k] == c;
                assert(before[k] == c);
            }
        }
    }
}

/// The missing chunks are listed in increasing order, each once: those without a result, those
/// given up and those whose tasks are in flight.
pub proof fn missing_lists_each_once<M>(v: JobView<M>)
    requires
        v.coherent(),
    ensures
        forall|c: u32| #[trigger]
            v.missing().contains(c) <==> (c < v.total() && v.is_missing(c as int)),
        forall|a: int, b: int| 0 <= a < b < v.missing().len() ==> v.missing()[a] < v.missing()[b],
{
    assert forall|c: u32| #[trigger]
        v.missing().contains(c) <==> (c < v.total() && v.is_missing(c as int)) by {
        lemma_missing_below(v, v.results.len(), c);
    }
    lemma_missing_below(v, v.results.len(), 0);
}

/// A job from which no chunk is missing has every result.
pub proof fn nothing_missing_means_complete<M>(v: JobView<M>)
    requires
        v.coherent(),
        v.missing().len() == 0,
    ensures
        all_filled(v.results),
        v.pending.dom() =~= Set::<Seq<char>>::empty(),
        v.failed_chunks =~= Set::<u32>::empty(),
{
    missing_lists_each_once(v);
    assert forall|i: int| 0 <= i < v.results.len() implies (#[trigger] v.results[i]) is Some by {
        assert(!v.missing().contains(i as u32));
    }
    assert forall|id: Seq<char>| !v.pending.dom().contains(id) by {
        if v.pending.contains_key(id) {
            assert(!v.missing().contains(v.pending[id].chunk_index));
        }
    }
    assert forall|c: u32| !v.failed_chunks.contains(c) by {
        if v.failed_chunks.contains(c) {
            assert(!v.missing().contains(c));
        }
    }
}

/// Where every chunk was handed out and results name their own tasks, the missing chunks are
/// just those given up and those whose tasks were never answered.
pub proof fn missing_are_given_up_or_unanswered<M>(v: JobView<M>, c: u32)
    requires
        v.coherent(),
        c < v.total(),
        accounted(v, c as int),
        answered_have_results(v),
    ensures
        v.missing().contains(c) <==> (v.failed_chunks.contains(c) || v.pending.contains_key(
            v.task_id(c as int),
        )),
{
    missing_lists_each_once(v);
    assert(v.results[c as int] is Some <==> v.received.contains(v.task_id(c as int)));
}

/// A task that its worker could not do is due for another worker at once, whatever the time.
pub proof fn failed_task_is_due_at_once<M>(
    v: JobView<M>,
    msg: WorkerResultMsg<M>,
    now: u64,
    later: u64,
    i: int,
)
    requires
        msg.error is Some,
        msg.task_id@ == v.task_id(i),
        v.pending.contains_key(v.task_id(i)),
        !v.received.contains(v.task_id(i)),
    ensures
        v.result_taken(msg, now).chunk_due(i, later),
{
}

/// A worker that lost the module is not blamed, neither when it says so nor when the task is sent
/// again, and its next task brings the module along.
pub proof fn module_miss_is_no_fault<M>(
    v: JobView<M>,
    failed: Map<Seq<char>, u64>,
    msg: WorkerResultMsg<M>,
    now: u64,
    i: int,
    available: Seq<Seq<char>>,
    later: u64,
    header: Seq<u8>,
    wasm: Seq<u8>,
    glue: Seq<u8>,
)
    requires
        msg.error matches Some(error) && contains_text(error@, "no cached module"@),
        !v.received.contains(msg.task_id@),
    ensures
        v.result_taken(msg, now).strikes == v.strikes,
        v.failed_after_result(failed, msg, now) == failed,
        msg.task_id@ == v.task_id(i) ==> {
            &&& v.result_taken(msg, now).retry_planned(i, available).strikes == v.strikes
            &&& v.result_taken(msg, now).failed_after_plan(failed, i, later) == failed
            &&& v.result_taken(msg, now).retry_planned(i, available).task_payload(
                i,
                msg.worker_id@,
                header,
                wasm,
                glue,
            ) == task_payload_bytes(header, wasm, glue, v.chunks[i].0@)
        },
        v.result_taken(msg, now).task_payload(i, msg.worker_id@, header, wasm, glue)
            == task_payload_bytes(header, wasm, glue, v.chunks[i].0@),
{
}

/// A reported error counts once: from the report through the retry of the task it raises the
/// strikes of the worker that reported it by one, and nobody else's. The worker is marked as
/// failed, if at all, at the report.
pub proof fn reported_error_is_one_strike<M>(
    v: JobView<M>,
    failed: Map<Seq<char>, u64>,
    msg: WorkerResultMsg<M>,
    now: u64,
    i: int,
    available: Seq<Seq<char>>,
    later: u64,
    other: Seq<char>,
)
    requires
        msg.error matches Some(error) && !contains_text(error@, "no cached module"@),
        msg.task_id@ == v.task_id(i),
        !v.received.contains(msg.task_id@),
        strike_count(v.strikes, msg.worker_id@) < u32::MAX,
        other != msg.worker_id@,
    ensures
        ({
            let taken = v.result_taken(msg, now);
            let strikes = taken.retry_planned(i, available).strikes;
            let blamed = v.failed_after_result(failed, msg, now);
            &&& strike_count(strikes, msg.worker_id@) == strike_count(v.strikes, msg.worker_id@) + 1
            &&& strike_count(strikes, other) == strike_count(v.strikes, other)
            &&& blamed == marked(failed, strikes, msg.worker_id@, now)
            &&& taken.failed_after_plan(blamed, i, later) == blamed
        }),
{
}

/// A task that could not be sent to its first worker is due for another at once, whatever the
/// time. When it is planned for another, the first worker gets one strike and nobody else does,
/// and it is marked as failed once more if that strike is one too many.
pub proof fn failed_send_is_one_strike<M>(
    v: JobView<M>,
    failed: Map<Seq<char>, u64>,
    i: int,
    now: u64,
    available: Seq<Seq<char>>,
    later: u64,
    other: Seq<char>,
)
    requires
        strike_count(v.strikes, v.first_worker(i)) < u32::MAX,
        other != v.first_worker(i),
    ensures
        ({
            let unsent = v.dispatched(i, false, now);
            let worker = v.first_worker(i);
            let strikes = unsent.retry_planned(i, available).strikes;
            &&& unsent.chunk_due(i, later)
            &&& unsent.strikes == v.strikes
            &&& strike_count(strikes, worker) == strike_count(v.strikes, worker) + 1
            &&& strike_count(strikes, other) == strike_count(v.strikes, other)
            &&& unsent.failed_after_plan(failed, i, later) == marked(
                failed,
                strikes,
                worker,
                later,
            )
        }),
{
}

/// The event is held against the worker: it reported an error other than a missing module for
/// a task that was not answered before, or a task of it was found to be due that timed out or
/// could not be sent to it.
pub open spec fn held_against<M>(v: JobView<M>, e: JobEvent<M>, worker: Seq<char>) -> bool {
    match e {
        JobEvent::ResultTaken { msg, .. } => {
            &&& !v.received.contains(msg.task_id@)
            &&& msg.worker_id@ == worker
            &&& msg.error matches Some(error) && !contains_text(error@, "no cached module"@)
        },
        JobEvent::RetryPlanned { i, .. } => {
            &&& v.pending.contains_key(v.task_id(i))
            &&& v.pending[v.task_id(i)].worker_id == worker
            &&& !(v.pending[v.task_id(i)].sent_at is Overdue)
        },
        _ => false,
    }
}

/// Workers collect strikes for reported errors, for tasks found to have timed out and for tasks
/// found unsent, one each, and for nothing else.
pub proof fn strikes_are_for_failures_and_timeouts<M>(
    v: JobView<M>,
    e: JobEvent<M>,
    worker: Seq<char>,
)
    requires
        strike_count(v.strikes, worker) < u32::MAX,
    ensures
        strike_count(after(v, e).strikes, worker) == strike_count(v.strikes, worker)
            + if held_against(v, e, worker) {
            1int
        } else {
            0int
        },
{
}

/// The module travels with the first task of a worker only.
pub proof fn module_travels_once<M>(
    v: JobView<M>,
    i: int,
    now: u64,
    k: int,
    header: Seq<u8>,
    wasm: Seq<u8>,
    glue: Seq<u8>,
)
    ensures
        !v.with_module.contains(v.first_worker(i)) ==> v.task_payload(
            i,
            v.first_worker(i),
            header,
            wasm,
            glue,
        ) == task_payload_bytes(header, wasm, glue, v.chunks[i].0@),
        v.dispatched(i, true, now).task_payload(k, v.first_worker(i), header, wasm, glue)
            == task_payload_bytes(header, Seq::empty(), Seq::empty(), v.chunks[k].0@),
{
}

/// The filled slots, as a set of their numbers.
spec fn filled_set<A>(slots: Seq<Option<A>>) -> Set<int> {
    Set::new(|i: int| 0 <= i < slots.len() && slots[i] is Some)
}

proof fn lemma_filled_set<A>(slots: Seq<Option<A>>)
    ensures
        filled_set(slots).finite(),
        filled_set(slots).len() == filled(slots),
    decreases slots.len(),
{
    if slots.len() == 0 {
        assert(filled_set(slots) =~= Set::empty());
    } else {
        let rest = slots.drop_last();
        let k = slots.len() - 1;
        lemma_filled_set(rest);
        if slots.last() is Some {
            assert(filled_set(slots) =~= filled_set(rest).insert(k));
        } else {
            assert(filled_set(slots) =~= filled_set(rest));
        }
    }
}

/// As long as no chunk that was given up gets a result after all, collection is settled just
/// when every chunk has a result or was given up.
pub proof fn settled_when_every_chunk_is<M>(v: JobView<M>)
    requires
        v.coherent(),
        forall|c: u32| #[trigger] v.failed_chunks.contains(c) ==> v.results[c as int] is None,
    ensures
        v.settled() <==> forall|i: int|
            0 <= i < v.total() ==> (#[trigger] v.results[i]) is Some || v.failed_chunks.contains(
                i as u32,
            ),
{
    let have = filled_set(v.results);
    let gone = v.failed_chunks.map(|c: u32| c as int);
    lemma_filled_set(v.results);
    assert(gone.finite() && gone.len() == v.failed_chunks.len()) by {
        v.failed_chunks.lemma_map_finite(|c: u32| c as int);
        vstd::set_lib::lemma_map_size(v.failed_chunks, gone, |c: u32| c as int);
    }
    assert(have.disjoint(gone));
    vstd::set_lib::lemma_set_disjoint_lens(have, gone);
    let all = vstd::set_lib::set_int_range(0, v.total());
    vstd::set_lib::lemma_int_range(0, v.total());
    let both = have + gone;
    assert(both.subset_of(all));
    assert(both.len() == filled(v.results) + v.failed_chunks.len());
    if v.settled() {
        vstd::set_lib::lemma_len_subset(both, all);
        vstd::set_lib::lemma_subset_equality(both, all);
        assert forall|i: int| 0 <= i < v.total() implies (#[trigger] v.results[i]) is Some
            || v.failed_chunks.contains(i as u32) by {
            assert(all.contains(i));
            assert(both.contains(i));
        }
    } else if forall|i: int|
        0 <= i < v.total() ==> (#[trigger] v.results[i]) is Some || v.failed_chunks.contains(
            i as u32,
        ) {
        assert forall|i: int| all.contains(i) implies both.contains(i) by {
            assert(v.results[i] is Some || v.failed_chunks.contains(i as u32));
            if v.failed_chunks.contains(i as u32) {
                assert(gone.contains((i as u32) as int));
            }
        }
        assert(both =~= all);
    }
}

/// The state after events in a row.
pub open spec fn after_all<M>(v: JobView<M>, events: Seq<JobEvent<M>>) -> JobView<M>
    decreases events.len(),
{
    if events.len() == 0 {
        v
    } else {
        after(after_all(v, events.drop_last()), events.last())
    }
}

/// Each event is possible when its turn comes, and results name their own tasks.
pub open spec fn proper_run<M>(v: JobView<M>, events: Seq<JobEvent<M>>) -> bool
    decreases events.len(),
{
    events.len() > 0 ==> {
        let before = after_all(v, events.drop_last());
        &&& proper_run(v, events.drop_last())
        &&& possible(before, events.last())
        &&& honest(before, events.last())
    }
}

/// The chunk `i` is handed out by one of the events.
pub open spec fn handed_out<M>(events: Seq<JobEvent<M>>, i: int) -> bool {
    exists|n: int|
        0 <= n < events.len() && ((#[trigger] events[n]) matches JobEvent::Dispatched { i: k, .. }
            && k == i)
}

proof fn lemma_run<M>(v: JobView<M>, events: Seq<JobEvent<M>>, i: int)
    requires
        v.coherent(),
        answered_have_results(v),
        proper_run(v, events),
        0 <= i < v.total(),
    ensures
        after_all(v, events).coherent(),
        answered_have_results(after_all(v, events)),
        after_all(v, events).total() == v.total(),
        after_all(v, events).job_id == v.job_id,
        handed_out(events, i) ==> accounted(after_all(v, events), i),
    decreases events.len(),
{
    if events.len() > 0 {
        let rest = events.drop_last();
        let before = after_all(v, rest);
        let e = events.last();
        lemma_run(v, rest, i);
        stays_coherent(before, e);
        answers_and_results_agree(before, e);
        if handed_out(events, i) {
            if !(e matches JobEvent::Dispatched { i: k, .. } && k == i) {
                let n = choose|n: int|
                    0 <= n < events.len() && ((#[trigger] events[n]) matches JobEvent::Dispatched {
                        i: k,
                        ..
                    } && k == i);
                assert(rest[n] == events[n]);
            }
            no_chunk_is_lost(before, e, i);
        }
    }
}

/// However a job goes, once every chunk was handed out each of them has a result, or is listed
/// as missing because it was given up or its task was never answered.
pub proof fn every_run_accounts_for_its_chunks<M>(
    job_id: Seq<char>,
    map_function: Seq<char>,
    chunks: Seq<(Vec<u8>, M)>,
    workers: Seq<Seq<char>>,
    options: JobOptions,
    events: Seq<JobEvent<M>>,
    c: u32,
)
    requires
        chunks.len() <= u32::MAX,
        workers.len() > 0,
        c < chunks.len(),
        proper_run(JobView::begun(job_id, map_function, chunks, workers, options), events),
        handed_out(events, c as int),
    ensures
        ({
            let v = after_all(
                JobView::begun(job_id, map_function, chunks, workers, options),
                events,
            );
            &&& v.results[c as int] is Some || v.missing().contains(c)
            &&& v.missing().contains(c) <==> (v.failed_chunks.contains(c)
                || v.pending.contains_key(v.task_id(c as int)))
        }),
{
    let v0 = JobView::begun(job_id, map_function, chunks, workers, options);
    let v = after_all(v0, events);
    lemma_run(v0, events, c as int);
    missing_lists_each_once(v);
    missing_are_given_up_or_unanswered(v, c);
}

proof fn lemma_due_below<M>(v: JobView<M>, n: nat, now: u64, i: int)
    ensures
        v.due_below(n, now).contains(i) <==> (0 <= i < n && v.chunk_due(i, now)),
        forall|a: int, b: int|
            0 <= a < b < v.due_below(n, now).len() ==> v.due_below(n, now)[a] < v.due_below(
                n,
                now,
            )[b],
        forall|a: int|
            0 <= a < v.due_below(n, now).len() ==> (#[trigger] v.due_below(n, now)[a]) < n,
    decreases n,
{
    if n > 0 {
        let before = v.due_below((n - 1) as nat, now);
        lemma_due_below(v, (n - 1) as nat, now, i);
        let all = v.due_below(n, now);
        if v.chunk_due(n - 1, now) {
            assert(all[all.len() - 1] == n - 1);
            if before.contains(i) {
                let k = choose|k: int| 0 <= k < before.len() && before[k] == i;
                assert(all[k] == i);
            }
            if all.contains(i) && i != n - 1 {
                let k = choose|k: int| 0 <= k < all.len() && all[k] == i;
                assert(before[k] == i);
            }
        }
    }
}

/// The chunks that are due for another worker are listed in order, each once, and none else.
pub proof fn due_chunks_are_all_listed<M>(v: JobView<M>, now: u64)
    ensures
        forall|i: int| #[trigger]
            v.due_below(v.results.len(), now).contains(i) <==> (0 <= i < v.total() && v.chunk_due(
                i,
                now,
            )),
        forall|a: int, b: int|
            0 <= a < b < v.due_below(v.results.len(), now).len() ==> v.due_below(
                v.results.len(),
                now,
            )[a] < v.due_below(v.results.len(), now)[b],
{
    assert forall|i: int| #[trigger]
        v.due_below(v.results.len(), now).contains(i) <==> (0 <= i < v.total() && v.chunk_due(
            i,
            now,
        )) by {
        lemma_due_below(v, v.results.len(), now, i);
    }
    lemma_due_below(v, v.results.len(), now, 0);
}

/// A task that its worker sat on goes to another worker where there is one, else to the same;
/// it waits just when nobody is available.
pub proof fn retry_prefers_another<M>(v: JobView<M>, worker: Seq<char>, available: Seq<Seq<char>>)
    ensures
        match v.retry_target(worker, available) {
            Some(target) => available.contains(target) && ((exists|w: Seq<char>| #[trigger]
                available.contains(w) && w != worker) ==> target != worker),
            None => available.len() == 0,
        },
{
    let others = without(available, worker);
    without_leaves_out_one(available, worker);
    if others.len() > 0 {
        let k = next_turn(v.cursor) as int % others.len() as int;
        assert(others.contains(others[k]));
    } else {
        assert forall|w: Seq<char>| #[trigger] available.contains(w) implies w == worker by {
            if w != worker {
                assert(others.contains(w));
            }
        }
        if available.len() > 0 {
            assert(available.contains(available[0]));
        }
    }
}

/// A chunk whose task is due after its last retry is given up: the task leaves, and the chunk
/// is missing from then on.
pub proof fn exhausted_chunk_is_given_up<M>(v: JobView<M>, i: int, available: Seq<Seq<char>>)
    requires
        v.coherent(),
        0 <= i < v.total(),
        v.pending.contains_key(v.task_id(i)),
        v.pending[v.task_id(i)].retry_count == v.options.max_retries,
    ensures
        !v.retry_planned(i, available).pending.contains_key(v.task_id(i)),
        v.retry_planned(i, available).missing().contains(i as u32),
{
    let w = v.retry_planned(i, available);
    let c = v.pending[v.task_id(i)].chunk_index as int;
    task_ids_differ(v.job_id, c, i);
    stays_coherent(v, JobEvent::RetryPlanned { i, available });
    missing_lists_each_once(w);
    assert(w.is_missing(i));
}

/// Each time that a due task is sent again uses up one of its retries.
pub proof fn each_retry_counts<M>(
    v: JobView<M>,
    i: int,
    available: Seq<Seq<char>>,
    target: Seq<char>,
    now: u64,
)
    requires
        v.coherent(),
        0 <= i < v.total(),
        v.pending.contains_key(v.task_id(i)),
        v.may_retry(i),
    ensures
        ({
            let id = v.task_id(i);
            let w = v.retry_planned(i, available).retried(i, target, true, now);
            &&& w.pending.contains_key(id)
            &&& w.pending[id].retry_count == v.pending[id].retry_count + 1
            &&& w.pending[id].worker_id == target
            &&& w.pending[id].sent_at == SentAt::At(now)
        }),
{
}

/// A worker is excluded with its third strike, and stays so until it has served its time. With
/// fewer strikes it is not excluded on their account.
pub proof fn third_strike_excludes(
    failed: Map<Seq<char>, u64>,
    strikes: Map<Seq<char>, u32>,
    worker: Seq<char>,
    now: u64,
    channels: Seq<Channel>,
    later: u64,
)
    ensures
        strike_count(strikes, worker) >= 2 && elapsed_secs(later, now) < WORKER_REHAB_SECS
            ==> !channel_workers(
            usable_channels(
                channels,
                still_failed(
                    marked(failed, struck(strikes, worker), worker, now),
                    channels,
                    later,
                ),
            ),
        ).contains(worker),
        strike_count(strikes, worker) < 2 ==> marked(
            failed,
            struck(strikes, worker),
            worker,
            now,
        ) == failed,
{
    let after = marked(failed, struck(strikes, worker), worker, now);
    available_exactly_when_open_and_trusted(after, channels, later, worker);
}

/// How many of the events are held against the worker.
pub open spec fn faults<M>(v: JobView<M>, events: Seq<JobEvent<M>>, worker: Seq<char>) -> nat
    decreases events.len(),
{
    if events.len() == 0 {
        0
    } else {
        let rest = events.drop_last();
        faults(v, rest, worker) + if held_against(after_all(v, rest), events.last(), worker) {
            1nat
        } else {
            0nat
        }
    }
}

/// A worker has as many strikes as there were events held against it: errors it reported, and
/// tasks of it found to have timed out or to be unsent. So with fewer than three of them it is
/// not excluded on their account.
pub proof fn strikes_count_the_faults<M>(
    v: JobView<M>,
    events: Seq<JobEvent<M>>,
    worker: Seq<char>,
)
    requires
        strike_count(v.strikes, worker) + faults(v, events, worker) <= u32::MAX,
    ensures
        strike_count(after_all(v, events).strikes, worker) == strike_count(v.strikes, worker)
            + faults(v, events, worker),
        strike_count(v.strikes, worker) + faults(v, events, worker) < 3 ==> forall|
            failed: Map<Seq<char>, u64>,
            now: u64,
        | #[trigger]
            marked(failed, after_all(v, events).strikes, worker, now) == failed,
    decreases events.len(),
{
    if events.len() > 0 {
        let rest = events.drop_last();
        strikes_count_the_faults(v, rest, worker);
        let before = after_all(v, rest);
        if strike_count(before.strikes, worker) < u32::MAX {
            strikes_are_for_failures_and_timeouts(before, events.last(), worker);
        } else {
            assert(!held_against(before, events.last(), worker));
        }
    }
}

} // verus!
