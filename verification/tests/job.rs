use wasmhive::job::driver::{Action, Driver, Ending, Event};
use wasmhive::job::id::start_job;
use wasmhive::job::model::{Step, WorkerResultMsg};
use wasmhive::job::state::{Job, RetryAction, Taken};
use wasmhive::options::{ExecutionMode, JobOptions, MissingChunkPolicy};
use wasmhive::protocol::bytes::read_section;
use wasmhive::protocol::frame::decode_frame;
use wasmhive::protocol::TaskHeader;
use wasmhive::sending::{SendStep, Sending};
use wasmhive::workers::{
    connection_lost, must_wait, Channel, FailedWorkers, PeerState, NANOS_PER_SEC,
};

const SEC: u64 = NANOS_PER_SEC;

fn names(n: usize) -> Vec<String> {
    (0..n).map(|i| format!("w{}", i)).collect()
}

fn job(chunks: usize, workers: usize, options: JobOptions) -> Job<u32> {
    let chunks = (0..chunks).map(|i| (vec![i as u8, 1], i as u32)).collect();
    Job::start("job".to_string(), "cpu_map", chunks, names(workers), options)
        .ok()
        .unwrap()
}

fn dispatched(chunks: usize, workers: usize, options: JobOptions) -> (Job<u32>, FailedWorkers) {
    let mut job = job(chunks, workers, options);
    let mut failed = FailedWorkers::new();
    for i in 0..chunks {
        job.record_dispatch(i, true, 0, &mut failed);
    }
    job.begin_collecting(0);
    (job, failed)
}

fn answer(i: u32, worker: &str, bytes: Vec<u8>) -> WorkerResultMsg<u32> {
    WorkerResultMsg {
        task_id: format!("job_{}", i),
        chunk_index: i,
        worker_id: worker.to_string(),
        error: None,
        meta: i,
        bytes,
    }
}

fn failure(i: u32, worker: &str, error: &str) -> WorkerResultMsg<u32> {
    WorkerResultMsg {
        error: Some(error.to_string()),
        ..answer(i, worker, vec![])
    }
}

fn open_channels(n: usize) -> Vec<Channel> {
    names(n)
        .into_iter()
        .map(|worker_id| Channel { worker_id, open: true })
        .collect()
}

#[test]
fn options_have_their_defaults() {
    let options = JobOptions::default();
    assert_eq!(options.missing_chunks, MissingChunkPolicy::Fail);
    assert_eq!(options.task_timeout_secs, 30);
    assert_eq!(options.max_retries, 3);
    assert_eq!(ExecutionMode::CPU.map_function(), "cpu_map");
    assert_eq!(ExecutionMode::GPU.map_function(), "gpu_map");
    assert_eq!(ExecutionMode::GPU.label(), "GPU");
}

#[test]
fn a_job_needs_a_worker() {
    let chunks: Vec<(Vec<u8>, u32)> = vec![(vec![1], 0)];
    let r = start_job("f", chunks, vec![], JobOptions::default());
    assert_eq!(r.err().unwrap(), "no workers with open data channels available");
}

#[test]
fn fresh_jobs_have_uuids() {
    let one: Vec<(Vec<u8>, u32)> = vec![(vec![1], 0)];
    let two: Vec<(Vec<u8>, u32)> = vec![(vec![1], 0)];
    let a = start_job("f", one, names(1), JobOptions::default()).ok().unwrap();
    let b = start_job("f", two, names(1), JobOptions::default()).ok().unwrap();
    assert_eq!(a.job_id().len(), 36);
    assert!(a.job_id().chars().enumerate().all(|(i, c)| match i {
        8 | 13 | 18 | 23 => c == '-',
        14 => c == '4',
        _ => c.is_ascii_hexdigit() && !c.is_ascii_uppercase(),
    }));
    assert_ne!(a.job_id(), b.job_id());
}

#[test]
fn chunks_go_round_robin() {
    let job = job(5, 2, JobOptions::default());
    let first: Vec<String> = (0..5).map(|i| job.first_worker(i)).collect();
    assert_eq!(first, vec!["w0", "w1", "w0", "w1", "w0"]);
    assert_eq!(job.task_id(4), "job_4");
    let header = job.task_header(3);
    assert_eq!(header.job_id, "job");
    assert_eq!(header.task_id, "job_3");
    assert_eq!(header.chunk_index, 3);
    assert_eq!(header.map_function, "cpu_map");
    assert_eq!(header.meta, 3);
}

#[test]
fn the_module_travels_once_per_worker() {
    let mut job = job(3, 2, JobOptions::default());
    let mut failed = FailedWorkers::new();
    let sections = |frames: &Vec<Vec<u8>>| {
        let payload = decode_frame(&frames[0]).unwrap().payload;
        let mut pos = 0;
        (0..4)
            .map(|_| read_section(&payload, &mut pos).unwrap())
            .collect::<Vec<_>>()
    };
    let no_header = |_: &TaskHeader<u32>| b"{}".to_vec();
    let frames = job.task_frames(0, "w0", no_header, &[1, 2], &[3]);
    assert_eq!(frames.len(), 1);
    assert_eq!(decode_frame(&frames[0]).unwrap().transfer_id, "job_0");
    assert_eq!(sections(&frames), vec![b"{}".to_vec(), vec![1, 2], vec![3], vec![0, 1]]);
    job.record_dispatch(0, true, 0, &mut failed);
    let frames = job.task_frames(2, "w0", no_header, &[1, 2], &[3]);
    assert_eq!(sections(&frames), vec![b"{}".to_vec(), vec![], vec![], vec![2, 1]]);
    let frames = job.task_frames(1, "w1", no_header, &[1, 2], &[3]);
    assert_eq!(sections(&frames)[1], vec![1, 2]);
    // A worker that lost the module is sent it again, and not blamed.
    for k in 0..5 {
        let msg = failure(0, "w0", "no cached module for job");
        assert_eq!(job.take_result(msg, k, &mut failed), Taken::Failed);
    }
    let frames = job.task_frames(2, "w0", no_header, &[1, 2], &[3]);
    assert_eq!(sections(&frames)[1], vec![1, 2]);
    assert_eq!(failed.get_available_workers(&open_channels(2), 0), names(2));
}

#[test]
fn results_come_in_chunk_order() {
    let (mut job, mut failed) = dispatched(3, 2, JobOptions::default());
    assert_eq!(job.next_step(0), Step::Collect { check_timeouts: false });
    for i in [2u32, 0, 1] {
        let msg = answer(i, "w0", vec![i as u8 * 10]);
        assert_eq!(job.take_result(msg, 1, &mut failed), Taken::Stored);
    }
    assert_eq!(job.completed(), 3);
    assert_eq!(job.in_flight(), 0);
    assert_eq!(job.next_step(1), Step::Settled);
    assert!(job.missing().is_empty());
    let results = job.finish().unwrap();
    assert_eq!(
        results,
        vec![Some((0, vec![0])), Some((1, vec![10])), Some((2, vec![20]))]
    );
}

#[test]
fn first_result_wins_and_duplicates_are_dropped() {
    let (mut job, mut failed) = dispatched(2, 2, JobOptions::default());
    assert_eq!(job.take_result(answer(0, "w0", vec![1]), 5, &mut failed), Taken::Stored);
    assert_eq!(job.take_result(answer(0, "w1", vec![2]), 6, &mut failed), Taken::Duplicate);
    // Another task that names the same chunk does not replace its result either.
    let mut other = answer(0, "w1", vec![3]);
    other.task_id = "job_1".to_string();
    assert_eq!(job.take_result(other, 7, &mut failed), Taken::Superfluous);
    let mut stray = answer(9, "w1", vec![3]);
    stray.task_id = "stray".to_string();
    assert_eq!(job.take_result(stray, 7, &mut failed), Taken::OutOfRange);
    assert_eq!(job.completed(), 1);
    // The second chunk never got a result: the job is incomplete.
    assert_eq!(
        job.finish().unwrap_err(),
        "job incomplete: 1/2 chunks missing (indices [1])"
    );
}

#[test]
fn slow_tasks_move_to_other_workers() {
    let (mut job, mut failed) = dispatched(2, 3, JobOptions::default());
    assert!(job.timed_out(30 * SEC + SEC - 1).is_empty());
    assert_eq!(job.timed_out(31 * SEC), vec![0, 1]);
    match job.plan_retry(0, &names(3), 31 * SEC, &mut failed) {
        RetryAction::Send { target } => {
            assert_eq!(target, "w2");
            job.record_retry(0, &target, true, 31 * SEC, &mut failed);
        }
        _ => panic!("not sent"),
    }
    assert_eq!(job.timed_out(31 * SEC), vec![1]);
    match job.plan_retry(1, &names(3), 31 * SEC, &mut failed) {
        RetryAction::Send { target } => {
            assert_eq!(target, "w0");
            // The target cannot be reached: it has failed, and the task stays due.
            job.record_retry(1, &target, false, 31 * SEC, &mut failed);
        }
        _ => panic!("not sent"),
    }
    assert_eq!(job.timed_out(31 * SEC), vec![1]);
    assert_eq!(
        failed.get_available_workers(&open_channels(3), 31 * SEC),
        vec!["w1", "w2"]
    );
    assert_eq!(job.in_flight(), 2);
}

#[test]
fn a_lone_worker_is_tried_again() {
    let (mut job, mut failed) = dispatched(1, 1, JobOptions::default());
    match job.plan_retry(0, &names(1), 40 * SEC, &mut failed) {
        RetryAction::Send { target } => assert_eq!(target, "w0"),
        _ => panic!("not sent"),
    }
    assert!(matches!(
        job.plan_retry(0, &vec![], 40 * SEC, &mut failed),
        RetryAction::NoWorker
    ));
    assert_eq!(job.take_result(answer(0, "w0", vec![]), 41 * SEC, &mut failed), Taken::Stored);
    assert!(matches!(
        job.plan_retry(0, &names(1), 42 * SEC, &mut failed),
        RetryAction::NotPending
    ));
}

#[test]
fn chunks_without_retries_left_are_given_up() {
    let options = JobOptions { max_retries: 1, ..JobOptions::default() };
    let (mut job, mut failed) = dispatched(2, 2, options);
    assert_eq!(job.take_result(answer(1, "w1", vec![4]), 1, &mut failed), Taken::Stored);
    match job.plan_retry(0, &names(2), 40 * SEC, &mut failed) {
        RetryAction::Send { target } => {
            job.record_retry(0, &target, true, 40 * SEC, &mut failed)
        }
        _ => panic!("not sent"),
    }
    assert!(matches!(
        job.plan_retry(0, &names(2), 80 * SEC, &mut failed),
        RetryAction::GivenUp
    ));
    assert_eq!(job.next_step(80 * SEC), Step::Settled);
    assert_eq!(job.missing(), vec![0]);
    assert_eq!(
        job.finish().unwrap_err(),
        "job incomplete: 1/2 chunks missing (indices [0])"
    );
}

#[test]
fn partial_results_keep_their_order() {
    let options = JobOptions {
        missing_chunks: MissingChunkPolicy::AllowPartial,
        ..JobOptions::default()
    };
    let (mut job, mut failed) = dispatched(3, 1, options);
    job.take_result(answer(2, "w0", vec![2]), 1, &mut failed);
    job.take_result(answer(0, "w0", vec![0]), 1, &mut failed);
    assert_eq!(job.missing(), vec![1]);
    let results = job.finish().unwrap();
    assert_eq!(results, vec![Some((0, vec![0])), None, Some((2, vec![2]))]);
}

#[test]
fn at_most_twenty_missing_chunks_are_named() {
    let (job, _) = dispatched(25, 1, JobOptions::default());
    let named: Vec<String> = (0..20).map(|i| i.to_string()).collect();
    assert_eq!(
        job.finish().unwrap_err(),
        format!("job incomplete: 25/25 chunks missing (indices [{}])", named.join(", "))
    );
}

#[test]
fn failures_are_retried_at_once_and_counted() {
    let (mut job, mut failed) = dispatched(1, 2, JobOptions::default());
    let channels = open_channels(2);
    for k in 1..=2u64 {
        job.take_result(failure(0, "w0", "boom"), k, &mut failed);
        assert_eq!(job.timed_out(k), vec![0]);
        assert_eq!(failed.get_available_workers(&channels, k), names(2));
    }
    job.take_result(failure(0, "w0", "boom"), 3, &mut failed);
    assert_eq!(failed.get_available_workers(&channels, 3), vec!["w1"]);
    // After a minute it is taken back, as long as its channel is open.
    assert_eq!(failed.get_available_workers(&channels, 59 * SEC), vec!["w1"]);
    let closed = vec![
        Channel { worker_id: "w0".to_string(), open: false },
        Channel { worker_id: "w1".to_string(), open: true },
    ];
    assert_eq!(failed.get_available_workers(&closed, 70 * SEC), vec!["w1"]);
    assert_eq!(failed.get_available_workers(&channels, 60 * SEC + 3), names(2));
}

#[test]
fn module_misses_are_never_held_against_a_worker() {
    let (mut job, mut failed) = dispatched(3, 1, JobOptions::default());
    for i in 0..3u32 {
        let msg = failure(i, "w0", "no cached module for job");
        assert_eq!(job.take_result(msg, SEC, &mut failed), Taken::Failed);
        match job.plan_retry(i as usize, &names(1), 5 * SEC, &mut failed) {
            RetryAction::Send { target } => {
                assert_eq!(target, "w0");
                job.record_retry(i as usize, &target, true, 5 * SEC, &mut failed);
            }
            _ => panic!("not sent"),
        }
        assert_eq!(failed.get_available_workers(&open_channels(1), 5 * SEC), names(1));
    }
}

#[test]
fn a_reported_error_is_one_strike() {
    let (mut job, mut failed) = dispatched(3, 1, JobOptions::default());
    let channels = open_channels(1);
    for i in 0..2usize {
        job.take_result(failure(i as u32, "w0", "boom"), SEC, &mut failed);
        match job.plan_retry(i, &names(1), 5 * SEC, &mut failed) {
            RetryAction::Send { target } => job.record_retry(i, &target, true, 5 * SEC, &mut failed),
            _ => panic!("not sent"),
        }
    }
    assert_eq!(failed.get_available_workers(&channels, 5 * SEC), names(1));
    // The third strike excludes, here for a timeout.
    job.plan_retry(2, &names(1), 40 * SEC, &mut failed);
    assert!(failed.get_available_workers(&channels, 40 * SEC).is_empty());
}

#[test]
fn timeouts_are_struck_when_they_are_found() {
    let (mut job, mut failed) = dispatched(3, 1, JobOptions::default());
    let channels = open_channels(1);
    for i in 0..2 {
        job.plan_retry(i, &names(1), 40 * SEC, &mut failed);
        assert_eq!(failed.get_available_workers(&channels, 40 * SEC), names(1));
    }
    job.plan_retry(2, &names(1), 40 * SEC, &mut failed);
    assert!(failed.get_available_workers(&channels, 40 * SEC).is_empty());
}

#[test]
fn a_failed_dispatch_is_due_at_once() {
    let mut job = job(1, 1, JobOptions::default());
    let mut failed = FailedWorkers::new();
    job.record_dispatch(0, false, 7, &mut failed);
    assert_eq!(job.timed_out(7), vec![0]);
    assert!(failed.get_available_workers(&open_channels(1), 7).is_empty());
}

#[test]
fn a_failed_dispatch_is_one_strike() {
    let mut job = job(3, 1, JobOptions::default());
    let mut failed = FailedWorkers::new();
    let channels = open_channels(1);
    job.record_dispatch(0, false, 0, &mut failed);
    job.record_dispatch(1, false, 0, &mut failed);
    job.record_dispatch(2, true, 0, &mut failed);
    job.begin_collecting(0);
    assert_eq!(job.timed_out(5 * SEC), vec![0, 1]);
    // The worker has failed, so nobody is there; each of the two tasks is a strike.
    for i in 0..2 {
        assert!(matches!(
            job.plan_retry(i, &vec![], 5 * SEC, &mut failed),
            RetryAction::NoWorker
        ));
    }
    // It is taken back after a minute, and one reported error is the third strike.
    assert_eq!(failed.get_available_workers(&channels, 60 * SEC), names(1));
    job.take_result(failure(2, "w0", "boom"), 61 * SEC, &mut failed);
    assert!(failed.get_available_workers(&channels, 61 * SEC).is_empty());
}

#[test]
fn a_failed_dispatch_and_a_report_are_two_strikes() {
    let mut job = job(2, 2, JobOptions::default());
    let mut failed = FailedWorkers::new();
    job.record_dispatch(0, false, 0, &mut failed);
    job.record_dispatch(1, true, 0, &mut failed);
    job.begin_collecting(0);
    match job.plan_retry(0, &vec!["w1".to_string()], 5 * SEC, &mut failed) {
        RetryAction::Send { target } => job.record_retry(0, &target, true, 5 * SEC, &mut failed),
        _ => panic!("not sent"),
    }
    let channels = open_channels(2);
    assert_eq!(failed.get_available_workers(&channels, 60 * SEC), names(2));
    job.take_result(failure(1, "w0", "boom"), 60 * SEC, &mut failed);
    assert_eq!(failed.get_available_workers(&channels, 60 * SEC), names(2));
    job.take_result(failure(1, "w0", "boom"), 61 * SEC, &mut failed);
    assert_eq!(failed.get_available_workers(&channels, 61 * SEC), vec!["w1"]);
}

#[test]
fn tasks_carry_their_own_header() {
    let job = job(3, 2, JobOptions::default());
    let write = |h: &TaskHeader<u32>| {
        format!("{}|{}|{}|{}|{}", h.job_id, h.task_id, h.chunk_index, h.map_function, h.meta)
            .into_bytes()
    };
    let frames = job.task_frames(2, "w0", write, &[1], &[2]);
    let payload = decode_frame(&frames[0]).unwrap().payload;
    assert_eq!(read_section(&payload, &mut 0).unwrap(), b"job|job_2|2|cpu_map|2".to_vec());
}

#[test]
fn frames_are_sent_once_in_order() {
    let limit = 4 * 1024 * 1024;
    let mut sending = Sending::new(3);
    for k in 0..3 {
        assert_eq!(sending.offer(limit + 1), SendStep::Pause);
        assert_eq!(sending.offer(limit), SendStep::Send { k });
        assert_eq!(sending.offer(0), SendStep::Send { k });
        sending.sent(true);
    }
    assert_eq!(sending.offer(0), SendStep::Done);
    assert_eq!(sending.offer(limit + 1), SendStep::Done);
    assert_eq!(Sending::new(0).offer(0), SendStep::Done);
}

#[test]
fn the_first_failure_ends_sending() {
    let mut sending = Sending::new(3);
    sending.sent(true);
    sending.sent(false);
    assert_eq!(sending.offer(0), SendStep::Failed);
    assert_eq!(sending.offer(usize::MAX), SendStep::Failed);
}

#[test]
fn waiting_ends_in_time() {
    let (job, _) = dispatched(1, 1, JobOptions::default());
    assert_eq!(job.next_step(4 * SEC), Step::Collect { check_timeouts: false });
    assert_eq!(job.next_step(5 * SEC), Step::Collect { check_timeouts: true });
    assert_eq!(job.next_step(90 * SEC), Step::Collect { check_timeouts: true });
    assert_eq!(job.next_step(91 * SEC), Step::Idle);
    assert_eq!(job.next_step(120 * SEC + 1), Step::DeadlineReached);
    let (mut job, mut failed) = dispatched(30, 1, JobOptions::default());
    job.take_result(answer(0, "w0", vec![]), 299 * SEC, &mut failed);
    job.timeouts_checked(299 * SEC);
    assert_eq!(job.next_step(300 * SEC), Step::Collect { check_timeouts: false });
    assert_eq!(job.next_step(300 * SEC + 1), Step::DeadlineReached);
    let (mut job, mut failed) = dispatched(100, 1, JobOptions::default());
    job.take_result(answer(0, "w0", vec![]), 590 * SEC, &mut failed);
    assert_eq!(job.next_step(600 * SEC), Step::Collect { check_timeouts: true });
    assert_eq!(job.next_step(600 * SEC + 1), Step::DeadlineReached);
}

#[test]
fn an_empty_job_is_settled() {
    let (job, _) = dispatched(0, 1, JobOptions::default());
    assert_eq!(job.next_step(0), Step::Settled);
    assert_eq!(job.total(), 0);
    assert_eq!(job.finish().unwrap(), vec![]);
}

#[test]
fn full_channels_are_waited_for() {
    assert!(!must_wait(4 * 1024 * 1024));
    assert!(must_wait(4 * 1024 * 1024 + 1));
    assert!(connection_lost(PeerState::Closed));
    assert!(connection_lost(PeerState::Failed));
    assert!(connection_lost(PeerState::Disconnected));
    assert!(!connection_lost(PeerState::Connected));
}

/// Runs a driver against workers that answer by a rule, one second per action, and returns what
/// was sent to whom.
fn run(
    driver: &mut Driver<u32>,
    workers: usize,
    reply: impl Fn(usize, &str) -> Option<WorkerResultMsg<u32>>,
) -> (Vec<(usize, String)>, Ending) {
    let mut failed = FailedWorkers::new();
    let mut sent = vec![];
    let mut inbox: Vec<WorkerResultMsg<u32>> = vec![];
    let mut event = Event::Begin;
    let mut now = 0;
    loop {
        now += SEC;
        event = match driver.next(event, now, &mut failed) {
            Action::Send { chunk, worker } => {
                if let Some(msg) = reply(chunk, &worker) {
                    inbox.push(msg);
                }
                sent.push((chunk, worker));
                Event::Sent(true)
            }
            Action::ListWorkers => {
                Event::Workers(failed.get_available_workers(&open_channels(workers), now))
            }
            Action::Receive => match inbox.pop() {
                Some(msg) => Event::Message(msg),
                None => Event::Silence,
            },
            Action::Finish(ending) => return (sent, ending),
        };
    }
}

#[test]
fn a_driver_sends_every_chunk_and_collects() {
    let mut driver = Driver::new(job(3, 2, JobOptions::default()));
    let (sent, ending) = run(&mut driver, 2, |i, w| Some(answer(i as u32, w, vec![i as u8])));
    assert_eq!(ending, Ending::Settled);
    assert_eq!(
        sent,
        vec![(0, "w0".to_string()), (1, "w1".to_string()), (2, "w0".to_string())]
    );
    let results = driver.into_job().finish().unwrap();
    assert_eq!(results, vec![Some((0, vec![0])), Some((1, vec![1])), Some((2, vec![2]))]);
}

#[test]
fn a_driver_moves_the_work_of_a_stuck_worker() {
    let mut driver = Driver::new(job(2, 2, JobOptions::default()));
    let (sent, ending) = run(&mut driver, 2, |i, w| {
        if w == "w0" {
            None
        } else {
            Some(answer(i as u32, w, vec![7]))
        }
    });
    assert_eq!(ending, Ending::Settled);
    assert_eq!(sent.last().unwrap(), &(0, "w1".to_string()));
    assert_eq!(sent.len(), 3);
    assert!(driver.job().missing().is_empty());
}

#[test]
fn a_driver_gives_up_when_nobody_answers() {
    let options = JobOptions { task_timeout_secs: 5, max_retries: 2, ..JobOptions::default() };
    let mut driver = Driver::new(job(1, 2, options));
    let (sent, ending) = run(&mut driver, 2, |_, _| None);
    assert_eq!(ending, Ending::Settled);
    assert_eq!(sent.len(), 3);
    assert_eq!(
        driver.into_job().finish().unwrap_err(),
        "job incomplete: 1/1 chunks missing (indices [0])"
    );
    let mut driver = Driver::new(job(1, 1, JobOptions::default()));
    let (_, ending) = run(&mut driver, 0, |_, _| None);
    assert_eq!(ending, Ending::Idle);
    let mut driver = Driver::new(job(1, 1, JobOptions::default()));
    let mut failed = FailedWorkers::new();
    driver.next(Event::Begin, 0, &mut failed);
    assert!(matches!(driver.next(Event::Sent(true), 0, &mut failed), Action::Receive));
    assert!(matches!(
        driver.next(Event::Closed, 0, &mut failed),
        Action::Finish(Ending::Closed)
    ));
}

#[test]
fn a_driver_keeps_a_worker_that_only_lost_the_module() {
    let mut driver = Driver::new(job(3, 1, JobOptions::default()));
    let tries = std::cell::RefCell::new(vec![0; 3]);
    let (sent, ending) = run(&mut driver, 1, |i, w| {
        tries.borrow_mut()[i] += 1;
        if tries.borrow()[i] <= 2 {
            Some(failure(i as u32, w, "no cached module for job"))
        } else {
            Some(answer(i as u32, w, vec![1]))
        }
    });
    // Six misses, and still the one worker gets every task.
    assert_eq!(ending, Ending::Settled);
    assert_eq!(sent.len(), 9);
    assert!(sent.iter().all(|(_, w)| w == "w0"));
    assert!(driver.job().missing().is_empty());
}
