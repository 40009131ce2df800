//! What each event does to a job, part by part.
use vstd::prelude::*;
use crate::job::driver::{advanced, decided, retrying, ActionView, DriverView, Ending, Event, PhaseView};
use crate::job::laws::{due_chunks_are_all_listed, missing_lists_each_once, retry_prefers_another};
use crate::job::model::{deadline_secs, incomplete_text, marked, next_turn, number_list, strike_count, struck, JobView, SentAt, Step, WorkerResultMsg};
use crate::options::JobOptions;
use crate::parse::{numerals_read_back, unsigned_value};
use crate::protocol::bytes::section_at;
use crate::protocol::payload::{sections_after_header, task_sections_read_back};
use crate::slots::filled;
use crate::text::{contains_text, decimal};
use crate::workers::{elapsed_secs, seconds_are_whole, without};

verus! {

/// The id of a task is the id of its job, an underscore, and the numeral of its chunk.
pub proof fn task_ids_name_job_and_chunk<M>(v: JobView<M>, i: int)
    requires
        0 <= i,
    ensures
        ({
            let id = v.task_id(i);
            let n = v.job_id.len() as int;
            &&& id.len() > n + 1
            &&& id.take(n) == v.job_id
            &&& id[n] == '_'
            &&& unsigned_value(id.skip(n + 1)) == Some(i as nat)
        }),
{
    reveal_strlit("_");
    let id = v.task_id(i);
    let n = v.job_id.len() as int;
    numerals_read_back(i as nat);
    crate::text::lemma_decimal_shape(i as nat);
    assert(id.take(n) =~= v.job_id);
    assert(id.skip(n + 1) =~= decimal(i as nat));
}

/// A job begins with nothing in flight, nothing answered, nothing given up, no strikes, and the
/// module at nobody.
pub proof fn jobs_begin_with_nothing_done<M>(
    job_id: Seq<char>,
    map_function: Seq<char>,
    chunks: Seq<(Vec<u8>, M)>,
    workers: Seq<Seq<char>>,
    options: JobOptions,
    id: Seq<char>,
    c: u32,
    i: int,
)
    ensures
        ({
            let v = JobView::begun(job_id, map_function, chunks, workers, options);
            &&& v.job_id == job_id
            &&& v.map_function == map_function
            &&& v.chunks == chunks
            &&& v.workers == workers
            &&& v.options == options
            &&& v.results.len() == chunks.len()
            &&& 0 <= i < chunks.len() ==> v.results[i] is None
            &&& !v.pending.contains_key(id)
            &&& !v.received.contains(id)
            &&& !v.with_module.contains(id)
            &&& !v.failed_chunks.contains(c)
            &&& strike_count(v.strikes, id) == 0
            &&& v.cursor == 0
        }),
{
}

/// The workers take turns: the first chunks go to the workers in their order, and as many chunks
/// further on it is the same worker's turn again.
pub proof fn workers_take_turns<M>(v: JobView<M>, i: int)
    requires
        0 <= i,
        v.workers.len() > 0,
    ensures
        i < v.workers.len() ==> v.first_worker(i) == v.workers[i],
        v.first_worker(i + v.workers.len()) == v.first_worker(i),
{
    let n = v.workers.len() as int;
    vstd::arithmetic::div_mod::lemma_mod_add_multiples_vanish(i, n);
    if i < n {
        vstd::arithmetic::div_mod::lemma_small_mod(i as nat, n as nat);
    }
}

/// Handing a chunk out puts its task in flight, at the worker whose turn it is, never sent again
/// so far: sent now, or not. A worker that was sent a task has the module. Nothing else changes.
pub proof fn handing_out_changes_one_task<M>(
    v: JobView<M>,
    i: int,
    sent: bool,
    now: u64,
    id: Seq<char>,
    worker: Seq<char>,
)
    requires
        0 <= i <= u32::MAX,
        v.workers.len() > 0,
    ensures
        ({
            let w = v.dispatched(i, sent, now);
            let task = v.job_id + "_"@ + decimal(i as nat);
            let turn = v.workers[i % v.workers.len() as int];
            &&& w.pending.contains_key(task)
            &&& w.pending[task].chunk_index == i
            &&& w.pending[task].worker_id == turn
            &&& w.pending[task].retry_count == 0
            &&& w.pending[task].sent_at == if sent {
                SentAt::At(now)
            } else {
                SentAt::Unsent
            }
            &&& id != task ==> w.pending.contains_key(id) == v.pending.contains_key(id)
            &&& id != task && v.pending.contains_key(id) ==> w.pending[id] == v.pending[id]
            &&& w.with_module.contains(worker) <==> v.with_module.contains(worker) || (sent && worker
                == turn)
            &&& (JobView { pending: v.pending, with_module: v.with_module, ..w }) == v
        }),
{
}

/// A task in flight is due for another worker just when more than the timeout's whole seconds have
/// passed since it was sent, whatever its chunk, its worker and its retries. One that could not be
/// sent, or that a worker reported on, is due at any time; one that is not in flight never is.
pub proof fn tasks_are_due_after_the_timeout<M>(v: JobView<M>, now: u64, i: int)
    requires
        0 <= i < v.total(),
    ensures
        ({
            let due = v.due_below(v.results.len(), now);
            let id = v.job_id + "_"@ + decimal(i as nat);
            &&& !v.pending.contains_key(id) ==> !due.contains(i)
            &&& v.pending.contains_key(id) ==> match v.pending[id].sent_at {
                SentAt::At(t) => {
                    &&& due.contains(i) <==> elapsed_secs(now, t) > v.options.task_timeout_secs
                    &&& due.contains(i) <==> now - t >= 1_000_000_000 * (v.options.task_timeout_secs
                        + 1)
                },
                SentAt::Unsent => due.contains(i),
                SentAt::Overdue => due.contains(i),
            }
        }),
{
    due_chunks_are_all_listed(v, now);
    let id = v.task_id(i);
    if v.pending.contains_key(id) {
        if let SentAt::At(t) = v.pending[id].sent_at {
            seconds_are_whole(now, t);
        }
    }
}

/// The due chunks are chunks of the job, in order, none of them twice.
pub proof fn due_chunks_are_in_order<M>(v: JobView<M>, now: u64, a: int, b: int)
    requires
        0 <= a < b < v.due_below(v.results.len(), now).len(),
    ensures
        0 <= v.due_below(v.results.len(), now)[a] < v.due_below(v.results.len(), now)[b]
            < v.total(),
{
    due_chunks_are_all_listed(v, now);
    let due = v.due_below(v.results.len(), now);
    assert(due.contains(due[a]) && due.contains(due[b]));
}

/// A job may take ten seconds a chunk, but two minutes at least and ten at most. That time, and the
/// silence, count from when collection begins.
pub proof fn jobs_end_in_time<M>(v: JobView<M>, now: u64)
    requires
        v.total() <= u32::MAX,
    ensures
        ({
            let w = v.collecting(now);
            &&& v.total() <= 12 ==> w.deadline == now + 120_000_000_000
            &&& 12 <= v.total() <= 60 ==> w.deadline == now + 10_000_000_000 * v.total()
            &&& v.total() >= 60 ==> w.deadline == now + 600_000_000_000
            &&& w.last_activity == now
            &&& w.last_check == now
            &&& (JobView {
                deadline: v.deadline,
                last_activity: v.last_activity,
                last_check: v.last_check,
                ..w
            }) == v
        }),
{
    assert(deadline_secs(v.total()) <= 600);
}

/// Waiting ends when every chunk has a result or was given up; else when the deadline has passed;
/// else after more than ninety whole seconds of silence. It goes on otherwise, with a look for due
/// tasks when the last one was five seconds ago or longer.
pub proof fn waiting_ends_for_these_reasons<M>(v: JobView<M>, now: u64)
    ensures
        ({
            let all = filled(v.results) + v.failed_chunks.len() >= v.results.len();
            let quiet = now - v.last_activity >= 91_000_000_000;
            v.step_at(now) == if all {
                Step::Settled
            } else if now > v.deadline {
                Step::DeadlineReached
            } else if quiet {
                Step::Idle
            } else {
                Step::Collect { check_timeouts: now - v.last_check >= 5_000_000_000 }
            }
        }),
{
    seconds_are_whole(now, v.last_activity);
    seconds_are_whole(now, v.last_check);
}

/// A result for a task that was not answered before answers it: the task is no longer in flight,
/// and its chunk has this result, unless it had one. No other chunk and no other task changes, and
/// nobody is blamed.
pub proof fn results_are_stored_once<M>(
    v: JobView<M>,
    failed: Map<Seq<char>, u64>,
    msg: WorkerResultMsg<M>,
    now: u64,
    id: Seq<char>,
    i: int,
)
    requires
        msg.error is None,
        msg.chunk_index < v.total(),
        !v.received.contains(msg.task_id@),
    ensures
        ({
            let w = v.result_taken(msg, now);
            let c = msg.chunk_index as int;
            &&& w.results.len() == v.results.len()
            &&& w.results[c] == if v.results[c] is Some {
                v.results[c]
            } else {
                Some((msg.meta, msg.bytes))
            }
            &&& 0 <= i < v.total() && i != c ==> w.results[i] == v.results[i]
            &&& w.received.contains(id) <==> v.received.contains(id) || id == msg.task_id@
            &&& w.pending.contains_key(id) <==> v.pending.contains_key(id) && id != msg.task_id@
            &&& w.pending.contains_key(id) ==> w.pending[id] == v.pending[id]
            &&& w.last_activity == now
            &&& (JobView {
                results: v.results,
                received: v.received,
                pending: v.pending,
                last_activity: v.last_activity,
                ..w
            }) == v
            &&& v.failed_after_result(failed, msg, now) == failed
        }),
{
}

/// A message for a task that was answered before changes nothing, and neither does a result for a
/// chunk that the job does not have.
pub proof fn other_messages_change_nothing<M>(
    v: JobView<M>,
    failed: Map<Seq<char>, u64>,
    msg: WorkerResultMsg<M>,
    now: u64,
)
    requires
        v.received.contains(msg.task_id@) || (msg.error is None && msg.chunk_index >= v.total()),
    ensures
        v.result_taken(msg, now) == v,
        v.failed_after_result(failed, msg, now) == failed,
{
}

/// A worker that could not do a task is no longer known to have the module if that is what it
/// lacked; else it gets a strike, and has failed from its third on. The task, if it is in flight,
/// is due from then on and otherwise as it was. Nothing else changes.
pub proof fn reports_make_tasks_due<M>(
    v: JobView<M>,
    failed: Map<Seq<char>, u64>,
    msg: WorkerResultMsg<M>,
    now: u64,
    id: Seq<char>,
    worker: Seq<char>,
)
    requires
        msg.error is Some,
        !v.received.contains(msg.task_id@),
    ensures
        ({
            let w = v.result_taken(msg, now);
            let lacked = contains_text(msg.error->Some_0@, "no cached module"@);
            let had = strike_count(v.strikes, msg.worker_id@);
            &&& w.with_module.contains(worker) <==> v.with_module.contains(worker) && !(lacked
                && worker == msg.worker_id@)
            &&& strike_count(w.strikes, worker) == if worker == msg.worker_id@ && !lacked && had
                < u32::MAX {
                had + 1
            } else {
                strike_count(v.strikes, worker) as int
            }
            &&& v.failed_after_result(failed, msg, now) == if !lacked && had >= 2 {
                failed.insert(msg.worker_id@, now)
            } else {
                failed
            }
            &&& w.pending.contains_key(id) == v.pending.contains_key(id)
            &&& v.pending.contains_key(id) && id != msg.task_id@ ==> w.pending[id] == v.pending[id]
            &&& v.pending.contains_key(msg.task_id@) ==> {
                &&& w.pending[msg.task_id@].sent_at == SentAt::Overdue
                &&& w.pending[msg.task_id@].worker_id == v.pending[msg.task_id@].worker_id
                &&& w.pending[msg.task_id@].chunk_index == v.pending[msg.task_id@].chunk_index
                &&& w.pending[msg.task_id@].retry_count == v.pending[msg.task_id@].retry_count
            }
            &&& w.last_activity == now
            &&& (JobView {
                with_module: v.with_module,
                strikes: v.strikes,
                pending: v.pending,
                last_activity: v.last_activity,
                ..w
            }) == v
        }),
{
}

/// Planning a due task for another worker strikes the worker that sat on it or could not be reached,
/// unless that worker's report is why it is due; it has failed from its third strike on. A task that
/// was sent again as often as it may be is taken out of flight and its chunk given up. The turn
/// moves on just where there is another worker to choose. Nothing else changes.
pub proof fn planning_strikes_and_gives_up<M>(
    v: JobView<M>,
    failed: Map<Seq<char>, u64>,
    i: int,
    available: Seq<Seq<char>>,
    now: u64,
    id: Seq<char>,
    worker: Seq<char>,
    c: u32,
)
    requires
        v.pending.contains_key(v.task_id(i)),
    ensures
        ({
            let w = v.retry_planned(i, available);
            let task = v.task_id(i);
            let p = v.pending[task];
            let had = strike_count(v.strikes, p.worker_id);
            let reported = p.sent_at == SentAt::Overdue;
            let spent = p.retry_count >= v.options.max_retries;
            let choice = exists|k: int|
                0 <= k < available.len() && #[trigger] available[k] != p.worker_id;
            &&& strike_count(w.strikes, worker) == if worker == p.worker_id && !reported && had
                < u32::MAX {
                had + 1
            } else {
                strike_count(v.strikes, worker) as int
            }
            &&& v.failed_after_plan(failed, i, now) == if !reported && had >= 2 {
                failed.insert(p.worker_id, now)
            } else {
                failed
            }
            &&& w.pending.contains_key(id) <==> v.pending.contains_key(id) && !(spent && id == task)
            &&& w.pending.contains_key(id) ==> w.pending[id] == v.pending[id]
            &&& w.failed_chunks.contains(c) <==> v.failed_chunks.contains(c) || (spent && c
                == p.chunk_index)
            &&& w.cursor == if !spent && choice {
                next_turn(v.cursor)
            } else {
                v.cursor
            }
            &&& (JobView {
                strikes: v.strikes,
                pending: v.pending,
                failed_chunks: v.failed_chunks,
                cursor: v.cursor,
                ..w
            }) == v
        }),
{
    let p = v.pending[v.task_id(i)];
    let others = without(available, p.worker_id);
    crate::workers::without_leaves_out_one(available, p.worker_id);
    if others.len() > 0 {
        assert(others.contains(others[0]));
        assert(available.contains(others[0]));
    }
    if exists|k: int| 0 <= k < available.len() && #[trigger] available[k] != p.worker_id {
        let k = choose|k: int| 0 <= k < available.len() && #[trigger] available[k] != p.worker_id;
        assert(available.contains(available[k]));
        assert(others.contains(available[k]));
    }
}

/// A task that is not in flight is not planned.
pub proof fn absent_tasks_are_not_planned<M>(
    v: JobView<M>,
    failed: Map<Seq<char>, u64>,
    i: int,
    available: Seq<Seq<char>>,
    now: u64,
)
    requires
        !v.pending.contains_key(v.task_id(i)),
    ensures
        v.retry_planned(i, available) == v,
        v.failed_after_plan(failed, i, now) == failed,
{
}

/// The other workers take turns at the tasks that are sent again: the next turn, counted around
/// them, says which of them it is. Each turn is one further than the last.
pub proof fn retries_take_turns<M>(
    v: JobView<M>,
    worker: Seq<char>,
    available: Seq<Seq<char>>,
    rounds: int,
    place: int,
)
    requires
        v.cursor < usize::MAX,
        0 <= place < without(available, worker).len(),
        v.cursor + 1 == rounds * without(available, worker).len() + place,
    ensures
        v.retry_target(worker, available) == Some(without(available, worker)[place]),
        next_turn(v.cursor) == v.cursor + 1,
        next_turn(usize::MAX) == 0,
{
    let n = without(available, worker).len() as int;
    vstd::arithmetic::div_mod::lemma_fundamental_div_mod_converse(
        v.cursor + 1,
        n,
        rounds,
        place,
    );
}

/// A task that its only worker sat on goes to the first that is available: to that worker.
pub proof fn lone_worker_is_tried_again<M>(v: JobView<M>, worker: Seq<char>, n: nat)
    requires
        n > 0,
    ensures
        v.retry_target(worker, Seq::new(n, |k: int| worker)) == Some(worker),
        v.retry_target(worker, Seq::<Seq<char>>::empty()) is None,
{
    let all = Seq::new(n, |k: int| worker);
    retry_prefers_another(v, worker, all);
    retry_prefers_another(v, worker, Seq::<Seq<char>>::empty());
    let target = v.retry_target(worker, all);
    assert(all.contains(target->Some_0));
}

/// Sending a task again puts it at its new worker, sent now, with one retry more; the worker has the
/// module then. Where it could not be sent nothing changes.
pub proof fn sending_again_changes_one_task<M>(
    v: JobView<M>,
    i: int,
    target: Seq<char>,
    now: u64,
    id: Seq<char>,
    worker: Seq<char>,
)
    requires
        v.pending.contains_key(v.task_id(i)),
        v.pending[v.task_id(i)].retry_count < u32::MAX,
    ensures
        v.retried(i, target, false, now) == v,
        ({
            let w = v.retried(i, target, true, now);
            let task = v.task_id(i);
            &&& w.pending.contains_key(id) == v.pending.contains_key(id)
            &&& v.pending.contains_key(id) && id != task ==> w.pending[id] == v.pending[id]
            &&& w.pending[task].worker_id == target
            &&& w.pending[task].sent_at == SentAt::At(now)
            &&& w.pending[task].retry_count == v.pending[task].retry_count + 1
            &&& w.pending[task].chunk_index == v.pending[task].chunk_index
            &&& w.with_module.contains(worker) <==> v.with_module.contains(worker) || worker
                == target
            &&& (JobView { pending: v.pending, with_module: v.with_module, ..w }) == v
        }),
{
}

/// A chunk is missing just where it has no result, was given up, or has its task in flight.
pub proof fn missing_chunks_are_these<M>(v: JobView<M>, c: u32)
    requires
        v.coherent(),
    ensures
        v.missing().contains(c) <==> c < v.results.len() && (v.results[c as int] is None
            || v.failed_chunks.contains(c) || v.pending.contains_key(
            v.job_id + "_"@ + decimal(c as nat),
        )),
{
    missing_lists_each_once(v);
}

/// A strike counts one more against its worker and nobody else, as far as can be counted; a worker
/// is marked as failed, now, just where it has three or more.
pub proof fn strikes_are_counted(
    strikes: Map<Seq<char>, u32>,
    failed: Map<Seq<char>, u64>,
    worker: Seq<char>,
    other: Seq<char>,
    now: u64,
)
    requires
        other != worker,
    ensures
        strike_count(Map::empty(), worker) == 0,
        strike_count(strikes, worker) < u32::MAX ==> strike_count(struck(strikes, worker), worker)
            == strike_count(strikes, worker) + 1,
        strike_count(strikes, worker) == u32::MAX ==> strike_count(struck(strikes, worker), worker)
            == u32::MAX,
        strike_count(struck(strikes, worker), other) == strike_count(strikes, other),
        strike_count(strikes, worker) < 3 ==> marked(failed, strikes, worker, now) == failed,
        strike_count(strikes, worker) >= 3 ==> marked(failed, strikes, worker, now)
            == failed.insert(worker, now),
{
}

/// A task brings the module and its glue along just for a worker that was not sent them before; its
/// header and its input travel every time. All of it can be read back.
pub proof fn tasks_bring_what_is_needed<M>(
    v: JobView<M>,
    i: int,
    worker: Seq<char>,
    header: Seq<u8>,
    wasm: Seq<u8>,
    glue: Seq<u8>,
)
    requires
        header.len() < 0x1_0000_0000,
        wasm.len() < 0x1_0000_0000,
        glue.len() < 0x1_0000_0000,
        v.chunks[i].0@.len() < 0x1_0000_0000,
    ensures
        ({
            let payload = v.task_payload(i, worker, header, wasm, glue);
            let none = Seq::<u8>::empty();
            section_at(payload, 0) matches Ok((h, pos)) && h == header && sections_after_header(
                payload,
                pos,
            ) == if v.with_module.contains(worker) {
                Ok::<(Seq<u8>, Seq<u8>, Seq<u8>), Seq<char>>((none, none, v.chunks[i].0@))
            } else {
                Ok::<(Seq<u8>, Seq<u8>, Seq<u8>), Seq<char>>((wasm, glue, v.chunks[i].0@))
            }
        }),
{
    let none = Seq::<u8>::empty();
    let payload = v.task_payload(i, worker, header, wasm, glue);
    assert(payload + none =~= payload);
    if v.with_module.contains(worker) {
        task_sections_read_back(header, none, none, v.chunks[i].0@, none);
    } else {
        task_sections_read_back(header, wasm, glue, v.chunks[i].0@, none);
    }
}

/// Numbers are listed in order, each in decimal, with a comma and a space between two.
pub proof fn numbers_are_listed_in_order(s: Seq<u32>, n: u32)
    ensures
        number_list(Seq::<u32>::empty()).len() == 0,
        number_list(seq![n]) == decimal(n as nat),
        s.len() > 0 ==> number_list(s.push(n)) == number_list(s) + seq![',', ' '] + decimal(
            n as nat,
        ),
{
    reveal_strlit(", ");
    assert(", "@ =~= seq![',', ' ']);
    assert(s.push(n).drop_last() =~= s);
}

/// The report of missing chunks tells how many of how many are missing, and names all of them up to
/// twenty, else the first twenty.
pub proof fn report_names_twenty_at_most(missing: Seq<u32>, more: Seq<u32>, total: int)
    ensures
        missing.len() <= 20 ==> incomplete_text(missing, total) == "job incomplete: "@ + decimal(
            missing.len(),
        ) + "/"@ + decimal(total as nat) + " chunks missing (indices ["@ + number_list(missing)
            + "])"@,
        missing.len() == 20 ==> incomplete_text(missing + more, total) == "job incomplete: "@
            + decimal((missing + more).len()) + "/"@ + decimal(total as nat)
            + " chunks missing (indices ["@ + number_list(missing) + "])"@,
{
    assert(missing.take(missing.len() as int) =~= missing);
    if missing.len() == 20 {
        assert((missing + more).take(20) =~= missing);
        assert(more.len() == 0 ==> missing + more =~= missing);
    }
}

/// At first the driver has every chunk sent, one after the other, each to the worker whose turn it
/// is. A worker that cannot be sent its chunk has failed. Then results are collected.
pub proof fn driver_sends_every_chunk<M>(
    d: DriverView<M>,
    failed: Map<Seq<char>, u64>,
    sent: bool,
    now: u64,
)
    requires
        d.job.workers.len() > 0,
        d.job.total() <= u32::MAX,
    ensures
        d.phase is Fresh && d.job.total() > 0 ==> advanced(d, failed, Event::Begin, now) == (
            DriverView { job: d.job, phase: PhaseView::Dispatching { next: 0 } },
            failed,
            ActionView::Send { chunk: 0, worker: d.job.workers[0] },
        ),
        d.phase matches PhaseView::Dispatching { next } ==> 0 <= next < d.job.total() ==> {
            let job = d.job.dispatched(next, sent, now);
            let turn = d.job.workers[next % d.job.workers.len() as int];
            let (after, blamed, action) = advanced(d, failed, Event::Sent(sent), now);
            let expected = if sent {
                failed
            } else {
                failed.insert(turn, now)
            };
            if next + 1 < d.job.total() {
                &&& after.job == job
                &&& after.phase == (PhaseView::Dispatching { next: next + 1 })
                &&& blamed == expected
                &&& action == (ActionView::Send {
                    chunk: next + 1,
                    worker: d.job.workers[(next + 1) % d.job.workers.len() as int],
                })
            } else {
                (after, blamed, action) == decided(job.collecting(now), expected, now)
            }
        },
{
    vstd::arithmetic::div_mod::lemma_small_mod(0, d.job.workers.len());
}

/// While results are collected, the driver waits for a message, or has the workers listed because
/// it is time to look and a task is due, or ends for the reason that holds. Nobody is blamed for it.
pub proof fn driver_waits_looks_or_ends<M>(job: JobView<M>, failed: Map<Seq<char>, u64>, now: u64)
    ensures
        ({
            let (after, blamed, action) = decided(job, failed, now);
            let due = job.due_below(job.results.len(), now);
            let look = now - job.last_check >= 5_000_000_000;
            &&& blamed == failed
            &&& match job.step_at(now) {
                Step::Settled => action == ActionView::Finish(Ending::Settled) && after.job == job
                    && after.phase == (PhaseView::Finished { ending: Ending::Settled }),
                Step::DeadlineReached => action == ActionView::Finish(Ending::DeadlineReached)
                    && after.job == job && after.phase == (PhaseView::Finished {
                    ending: Ending::DeadlineReached,
                }),
                Step::Idle => action == ActionView::Finish(Ending::Idle) && after.job == job
                    && after.phase == (PhaseView::Finished { ending: Ending::Idle }),
                Step::Collect { .. } => if look && due.len() > 0 {
                    action == ActionView::ListWorkers && after.job == job && after.phase == (
                    PhaseView::Asking { due })
                } else {
                    action == ActionView::Receive && after.phase == PhaseView::Waiting && after.job
                        == (JobView {
                        last_check: if look {
                            now
                        } else {
                            job.last_check
                        },
                        ..job
                    })
                },
            }
        }),
{
    waiting_ends_for_these_reasons(job, now);
}

/// A message is taken in before the driver decides; silence changes nothing; when no more messages
/// can come the job ends. A job that has ended stays so.
pub proof fn driver_takes_what_comes<M>(
    d: DriverView<M>,
    failed: Map<Seq<char>, u64>,
    msg: WorkerResultMsg<M>,
    event: Event<M>,
    now: u64,
)
    ensures
        d.phase is Waiting ==> advanced(d, failed, Event::Message(msg), now) == decided(
            d.job.result_taken(msg, now),
            d.job.failed_after_result(failed, msg, now),
            now,
        ),
        d.phase is Waiting ==> advanced(d, failed, Event::Silence, now) == decided(
            d.job,
            failed,
            now,
        ),
        d.phase is Waiting ==> {
            let (after, blamed, action) = advanced(d, failed, Event::Closed, now);
            after.job == d.job && blamed == failed && action == ActionView::Finish(Ending::Closed)
        },
        d.phase matches PhaseView::Finished { ending } ==> advanced(d, failed, event, now) == (
            d,
            failed,
            ActionView::Finish(ending),
        ),
{
}

/// A due task that is in flight and has retries left is sent to somebody who is available, to
/// another worker if there is one. A due task that is not in flight, has no retries left or for
/// which nobody is available is passed over. After the last one the driver waits for a message.
pub proof fn driver_sends_due_tasks_again<M>(
    job: JobView<M>,
    failed: Map<Seq<char>, u64>,
    due: Seq<int>,
    k: int,
    available: Seq<Seq<char>>,
    now: u64,
)
    requires
        0 <= k,
    ensures
        k >= due.len() ==> retrying(job, failed, due, k, available, now) == (
            DriverView { job: JobView { last_check: now, ..job }, phase: PhaseView::Waiting },
            failed,
            ActionView::Receive,
        ),
        k < due.len() ==> {
            let id = job.task_id(due[k]);
            let planned = job.retry_planned(due[k], available);
            let blamed = job.failed_after_plan(failed, due[k], now);
            if job.pending.contains_key(id) && job.pending[id].retry_count
                < job.options.max_retries && available.len() > 0 {
                let (after, still, action) = retrying(job, failed, due, k, available, now);
                &&& after.job == planned
                &&& still == blamed
                &&& action matches ActionView::Send { chunk, worker } && chunk == due[k]
                    && available.contains(worker) && ((exists|w: Seq<char>| #[trigger]
                    available.contains(w) && w != job.pending[id].worker_id) ==> worker
                    != job.pending[id].worker_id) && after.phase == (PhaseView::Retrying {
                    due,
                    k,
                    available,
                    target: worker,
                })
            } else {
                retrying(job, failed, due, k, available, now) == retrying(
                    planned,
                    blamed,
                    due,
                    k + 1,
                    available,
                    now,
                )
            }
        },
{
    if k < due.len() {
        let id = job.task_id(due[k]);
        retry_prefers_another(job, job.pending[id].worker_id, available);
        if job.retry_target(job.pending[id].worker_id, available) is Some {
            assert(available.contains(
                job.retry_target(job.pending[id].worker_id, available)->Some_0,
            ));
        }
    }
}

/// When the workers are known the driver begins with the first due task. When one was sent again,
/// or could not be, that is taken down, the worker that could not be reached has failed, and the
/// next is looked at.
pub proof fn driver_goes_through_the_due_tasks<M>(
    d: DriverView<M>,
    failed: Map<Seq<char>, u64>,
    workers: Vec<String>,
    sent: bool,
    now: u64,
)
    ensures
        d.phase matches PhaseView::Asking { due } ==> advanced(
            d,
            failed,
            Event::Workers(workers),
            now,
        ) == retrying(
            d.job,
            failed,
            due,
            0,
            Seq::new(workers@.len(), |i: int| workers@[i]@),
            now,
        ),
        d.phase matches PhaseView::Retrying { due, k, available, target } ==> advanced(
            d,
            failed,
            Event::Sent(sent),
            now,
        ) == retrying(
            d.job.retried(due[k], target, sent, now),
            if sent {
                failed
            } else {
                failed.insert(target, now)
            },
            due,
            k + 1,
            available,
            now,
        ),
{
    assert(crate::workers::texts(workers@) =~= Seq::new(workers@.len(), |i: int| workers@[i]@));
}

} // verus!
