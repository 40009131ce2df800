//! A numeric job in one round: every worker gets one share of the data, and all of them have to
//! answer.
use vstd::prelude::*;
use base64::Engine;
use crate::options::ExecutionMode;
use crate::text::{copy_str, decimal, push_decimal, same_text};
use crate::workers::{texts, NANOS_PER_SEC};

verus! {

/// No share but the last is larger than this.
pub const MAX_CHUNK_SIZE: usize = 1000;

/// Answers are waited for this long.
pub const RESULT_TIMEOUT_SECS: u64 = 10;

/// A share of the data for one worker. `T` is the type of the numbers.
#[derive(Debug)]
pub struct ComputeTask<T> {
    pub task_id: String,
    /// The module, in base64.
    pub wasm_module: String,
    pub js_glue: String,
    pub data_chunk: Vec<T>,
    pub map_function: String,
}

/// What a worker made of its share.
#[derive(Debug)]
pub struct ComputeResult<T> {
    pub task_id: String,
    pub result: Vec<T>,
    pub worker_id: String,
}

/// The character for a number below 64 in the standard base64 alphabet.
pub open spec fn base64_char(n: int) -> char {
    if n < 26 {
        (65 + n) as char
    } else if n < 52 {
        (71 + n) as char
    } else if n < 62 {
        (n - 4) as char
    } else if n == 62 {
        '+'
    } else {
        '/'
    }
}

/// Three bytes as one number, zero for those that are not there.
pub open spec fn base64_group(bytes: Seq<u8>, g: int) -> int {
    let b = |k: int|
        if k < bytes.len() {
            bytes[k] as int
        } else {
            0
        };
    65536 * b(3 * g) + 256 * b(3 * g + 1) + b(3 * g + 2)
}

/// Bytes in base64: each three of them make four characters of six bits, highest bits first;
/// equals signs fill up the last four.
pub open spec fn base64_text(bytes: Seq<u8>) -> Seq<char> {
    Seq::new(
        4 * ((bytes.len() + 2) / 3),
        |i: int|
            {
                let v = base64_group(bytes, i / 4);
                if i % 4 == 0 {
                    base64_char(v / 262144)
                } else if i % 4 == 1 {
                    base64_char((v / 4096) % 64)
                } else if i % 4 == 2 {
                    if 3 * (i / 4) + 1 < bytes.len() {
                        base64_char((v / 64) % 64)
                    } else {
                        '='
                    }
                } else if 3 * (i / 4) + 2 < bytes.len() {
                    base64_char(v % 64)
                } else {
                    '='
                }
            },
    )
}

/// `base64::Engine::encode` with `base64::engine::general_purpose::STANDARD` writes bytes in
/// base64 with the standard alphabet and with padding. It panics where the text would be too
/// long for a string.
#[verifier::external_body]
pub(crate) fn to_base64(bytes: &[u8]) -> (r: String)
    requires
        4 * ((bytes@.len() + 2) / 3) <= isize::MAX,
    ensures
        r@ == base64_text(bytes@),
{
    base64::engine::general_purpose::STANDARD.encode(bytes)
}

/// `chrono::Utc::now` reads the clock, and `chrono::DateTime::timestamp_millis` counts the
/// milliseconds since 1970. It does not go back before then. Which time it is, and whether a
/// later call gives a later time, is left open.
#[verifier::external_body]
pub(crate) fn millis_now() -> (r: i64)
    ensures
        r >= 0,
{
    chrono::Utc::now().timestamp_millis()
}

/// The workers that a channel leads to, in their order.
pub open spec fn connected_among(workers: Seq<Seq<char>>, channels: Seq<Seq<char>>) -> Seq<
    Seq<char>,
>
    decreases workers.len(),
{
    if workers.len() == 0 {
        Seq::empty()
    } else {
        let before = connected_among(workers.drop_last(), channels);
        if channels.contains(workers.last()) {
            before.push(workers.last())
        } else {
            before
        }
    }
}

fn among(names: &Vec<String>, name: &str) -> (r: bool)
    ensures
        r == texts(names@).contains(name@),
{
    let mut i: usize = 0;
    while i < names.len()
        invariant
            i <= names@.len(),
            forall|k: int| 0 <= k < i ==> (#[trigger] names@[k])@ != name@,
        decreases names@.len() - i,
    {
        if same_text(names[i].as_str(), name) {
            assert(texts(names@)[i as int] == name@);
            return true;
        }
        i = i + 1;
    }
    proof {
        if texts(names@).contains(name@) {
            let k = choose|k: int| 0 <= k < texts(names@).len() && texts(names@)[k] == name@;
            assert(names@[k]@ == name@);
        }
    }
    false
}

/// The workers that can be given a share: those that a channel leads to. There have to be some.
pub fn connected_workers(workers: &Vec<String>, channels: &Vec<String>) -> (r: Result<
    Vec<String>,
    String,
>)
    ensures
        if workers@.len() == 0 {
            r matches Err(e) && e@ == "No workers available for computation"@
        } else if connected_among(texts(workers@), texts(channels@)).len() == 0 {
            r matches Err(e) && e@ == "No workers with data channels available for computation"@
        } else {
            r matches Ok(v) && texts(v@) == connected_among(texts(workers@), texts(channels@))
        },
{
    if workers.len() == 0 {
        return Err(copy_str("No workers available for computation"));
    }
    let ghost all = texts(workers@);
    let mut r: Vec<String> = Vec::new();
    let mut i: usize = 0;
    while i < workers.len()
        invariant
            i <= workers@.len(),
            all == texts(workers@),
            texts(r@) == connected_among(all.take(i as int), texts(channels@)),
        decreases workers@.len() - i,
    {
        let ghost more = all.take(i + 1);
        let ghost had = r@;
        assert(more.drop_last() =~= all.take(i as int));
        assert(more.last() == workers@[i as int]@);
        if among(channels, workers[i].as_str()) {
            r.push(workers[i].clone());
            assert(texts(r@) =~= texts(had).push(workers@[i as int]@));
        }
        i = i + 1;
    }
    assert(all.take(i as int) =~= all);
    assert(r@.len() == texts(r@).len());
    if r.len() == 0 {
        return Err(copy_str("No workers with data channels available for computation"));
    }
    Ok(r)
}

/// How much data a worker gets that is not the last.
pub open spec fn share_size(n: nat, workers: nat) -> nat {
    let even = n / workers;
    if even < MAX_CHUNK_SIZE {
        even
    } else {
        MAX_CHUNK_SIZE as nat
    }
}

/// Where the share of the worker number `i` starts.
pub open spec fn share_start(n: nat, workers: nat, i: int) -> int {
    i * share_size(n, workers)
}

/// Where the share of the worker number `i` ends. The last worker gets the remainder.
pub open spec fn share_end(n: nat, workers: nat, i: int) -> int {
    if i == workers - 1 {
        n as int
    } else {
        share_start(n, workers, i + 1)
    }
}

proof fn lemma_shares_inside(n: nat, workers: nat, i: int)
    requires
        0 <= i < workers,
    ensures
        0 <= share_start(n, workers, i) <= share_end(n, workers, i) <= n,
        n > 0 ==> share_start(n, workers, i) < n,
        share_start(n, workers, i + 1) == share_start(n, workers, i) + share_size(n, workers),
{
    let c = share_size(n, workers) as int;
    let w = workers as int;
    assert(w * c <= n) by {
        vstd::arithmetic::div_mod::lemma_fundamental_div_mod(n as int, w);
        vstd::arithmetic::div_mod::lemma_mod_bound(n as int, w);
        assert(w * c <= w * (n as int / w)) by (nonlinear_arith)
            requires
                0 < w,
                c <= n as int / w,
        ;
    }
    assert(0 <= i * c && i * c + c <= w * c) by (nonlinear_arith)
        requires
            0 <= i < w,
            0 <= c,
    ;
    assert((i + 1) * c == i * c + c) by (nonlinear_arith);
    if c == 0 {
        assert(i * c == 0) by (nonlinear_arith)
            requires
                c == 0,
        ;
    }
}

/// The share of the worker number `i` in a task of its own.
pub open spec fn is_share<T>(
    task: ComputeTask<T>,
    i: int,
    stamp: u64,
    data: Seq<T>,
    workers: nat,
    mode: ExecutionMode,
    wasm: Seq<u8>,
    js_glue: Seq<char>,
) -> bool {
    &&& task.task_id@ == "task_"@ + decimal(stamp as nat) + "_"@ + decimal(i as nat)
    &&& task.wasm_module@ == base64_text(wasm)
    &&& task.js_glue@ == js_glue
    &&& task.data_chunk@ == data.subrange(
        share_start(data.len(), workers, i),
        share_end(data.len(), workers, i),
    )
    &&& task.map_function@ == mode.map_function_text()
}

/// The same, whatever the time stamp.
pub open spec fn is_stamped_share<T>(
    task: ComputeTask<T>,
    i: int,
    data: Seq<T>,
    workers: nat,
    mode: ExecutionMode,
    wasm: Seq<u8>,
    js_glue: Seq<char>,
) -> bool {
    exists|stamp: u64| is_share(task, i, stamp, data, workers, mode, wasm, js_glue)
}

/// Shares the data out to the workers, each with the time stamp that its task is named by.
/// Where there is no data, nobody gets a task.
pub fn plan_tasks<T: Copy>(
    data: &Vec<T>,
    workers: &Vec<String>,
    stamps: &Vec<u64>,
    mode: ExecutionMode,
    wasm: &[u8],
    js_glue: &str,
) -> (r: Vec<(String, ComputeTask<T>)>)
    requires
        workers@.len() > 0,
        stamps@.len() == workers@.len(),
        4 * ((wasm@.len() + 2) / 3) <= isize::MAX,
    ensures
        r@.len() == if data@.len() == 0 {
            0
        } else {
            workers@.len()
        },
        forall|i: int|
            0 <= i < r@.len() ==> (#[trigger] r@[i]).0@ == workers@[i]@ && is_share(
                r@[i].1,
                i,
                stamps@[i],
                data@,
                workers@.len(),
                mode,
                wasm@,
                js_glue@,
            ),
{
    let n: usize = data.len();
    let count: usize = workers.len();
    let even: usize = n / count;
    let size: usize = if even < MAX_CHUNK_SIZE {
        even
    } else {
        MAX_CHUNK_SIZE
    };
    let wasm_b64 = to_base64(wasm);
    let mut tasks: Vec<(String, ComputeTask<T>)> = Vec::new();
    let mut i: usize = 0;
    while i < count
        invariant
            n == data@.len(),
            count == workers@.len(),
            count > 0,
            stamps@.len() == count,
            size == share_size(n as nat, count as nat),
            wasm_b64@ == base64_text(wasm@),
            i <= count,
            tasks@.len() == if n == 0 {
                0
            } else {
                i as int
            },
            forall|k: int|
                0 <= k < tasks@.len() ==> (#[trigger] tasks@[k]).0@ == workers@[k]@ && is_share(
                    tasks@[k].1,
                    k,
                    stamps@[k],
                    data@,
                    count as nat,
                    mode,
                    wasm@,
                    js_glue@,
                ),
        decreases count - i,
    {
        proof {
            lemma_shares_inside(n as nat, count as nat, i as int);
            if i + 1 < count {
                lemma_shares_inside(n as nat, count as nat, i + 1);
            }
        }
        let start: usize = i * size;
        let end: usize = if i == count - 1 {
            n
        } else {
            start + size
        };
        if start < n {
            let mut chunk: Vec<T> = Vec::new();
            let mut k: usize = start;
            while k < end
                invariant
                    start <= k <= end <= data@.len(),
                    chunk@ == data@.subrange(start as int, k as int),
                decreases end - k,
            {
                chunk.push(data[k]);
                k = k + 1;
                assert(chunk@ =~= data@.subrange(start as int, k as int));
            }
            let mut task_id = copy_str("task_");
            push_decimal(&mut task_id, stamps[i]);
            task_id.append("_");
            push_decimal(&mut task_id, i as u64);
            tasks.push(
                (
                    workers[i].clone(),
                    ComputeTask {
                        task_id,
                        wasm_module: wasm_b64.clone(),
                        js_glue: copy_str(js_glue),
                        data_chunk: chunk,
                        map_function: mode.map_function(),
                    },
                ),
            );
        }
        i = i + 1;
    }
    tasks
}

/// Shares the data out to the workers now.
pub fn plan_tasks_now<T: Copy>(
    data: &Vec<T>,
    workers: &Vec<String>,
    mode: ExecutionMode,
    wasm: &[u8],
    js_glue: &str,
) -> (r: Vec<(String, ComputeTask<T>)>)
    requires
        workers@.len() > 0,
        4 * ((wasm@.len() + 2) / 3) <= isize::MAX,
    ensures
        r@.len() == if data@.len() == 0 {
            0
        } else {
            workers@.len()
        },
        forall|i: int|
            0 <= i < r@.len() ==> (#[trigger] r@[i]).0@ == workers@[i]@ && is_stamped_share(
                r@[i].1,
                i,
                data@,
                workers@.len(),
                mode,
                wasm@,
                js_glue@,
            ),
{
    let mut stamps: Vec<u64> = Vec::new();
    let mut i: usize = 0;
    while i < workers.len()
        invariant
            i <= workers@.len(),
            stamps@.len() == i,
        decreases workers@.len() - i,
    {
        let now: i64 = millis_now();
        stamps.push(now as u64);
        i = i + 1;
    }
    let r = plan_tasks(data, workers, &stamps, mode, wasm, js_glue);
    assert forall|i: int| 0 <= i < r@.len() implies (#[trigger] r@[i]).0@ == workers@[i]@
        && is_stamped_share(r@[i].1, i, data@, workers@.len(), mode, wasm@, js_glue@) by {
        assert(is_share(
            r@[i].1,
            i,
            stamps@[i],
            data@,
            workers@.len(),
            mode,
            wasm@,
            js_glue@,
        ));
    }
    r
}

/// The first `k` shares one after the other.
pub open spec fn joined_shares<T>(data: Seq<T>, workers: nat, k: nat) -> Seq<T>
    decreases k,
{
    if k == 0 {
        Seq::empty()
    } else {
        joined_shares(data, workers, (k - 1) as nat) + data.subrange(
            share_start(data.len(), workers, k - 1),
            share_end(data.len(), workers, k - 1),
        )
    }
}

proof fn lemma_joined_shares<T>(data: Seq<T>, workers: nat, k: nat)
    requires
        workers > 0,
        k <= workers,
    ensures
        joined_shares(data, workers, k) == if k == 0 {
            Seq::empty()
        } else {
            data.take(share_end(data.len(), workers, k - 1))
        },
    decreases k,
{
    if k > 0 {
        let n = data.len();
        lemma_joined_shares(data, workers, (k - 1) as nat);
        lemma_shares_inside(n, workers, k - 1);
        if k > 1 {
            lemma_shares_inside(n, workers, k - 2);
        } else {
            assert(share_start(n, workers, 0) == 0);
        }
        assert(joined_shares(data, workers, k) =~= data.take(share_end(n, workers, k - 1)));
    }
}

/// The shares hold all the data, each number once and in order.
pub proof fn shares_make_up_the_data<T>(data: Seq<T>, workers: nat)
    requires
        workers > 0,
    ensures
        joined_shares(data, workers, workers) == data,
        forall|i: int|
            0 <= i < workers - 1 ==> #[trigger] share_end(data.len(), workers, i) - share_start(
                data.len(),
                workers,
                i,
            ) <= MAX_CHUNK_SIZE,
{
    lemma_joined_shares(data, workers, workers);
    assert(data.take(data.len() as int) =~= data);
    assert forall|i: int| 0 <= i < workers - 1 implies #[trigger] share_end(
        data.len(),
        workers,
        i,
    ) - share_start(data.len(), workers, i) <= MAX_CHUNK_SIZE by {
        lemma_shares_inside(data.len(), workers, i);
    }
}

/// The answers that came in so far.
pub struct Collection<T> {
    pub sent: usize,
    pub received: usize,
    pub values: Vec<T>,
    /// When waiting began.
    pub started: u64,
}

impl<T: Copy> Collection<T> {
    /// Waits for the answers to `sent` tasks.
    pub fn new(sent: usize, started: u64) -> (r: Self)
        ensures
            r.sent == sent,
            r.received == 0,
            r.values@ == Seq::<T>::empty(),
            r.started == started,
    {
        Collection { sent, received: 0, values: Vec::new(), started }
    }

    /// Whether to wait on: answers are missing, and there is time left.
    pub fn waiting(&self, now: u64) -> (r: bool)
        ensures
            r == (self.received < self.sent && (now <= self.started || now - self.started
                < RESULT_TIMEOUT_SECS * NANOS_PER_SEC)),
    {
        self.received < self.sent && (now <= self.started || now - self.started
            < RESULT_TIMEOUT_SECS * NANOS_PER_SEC)
    }

    /// Takes an answer in.
    pub fn take(&mut self, result: &Vec<T>)
        requires
            old(self).received < old(self).sent,
        ensures
            final(self).sent == old(self).sent,
            final(self).received == old(self).received + 1,
            final(self).values@ == old(self).values@ + result@,
            final(self).started == old(self).started,
    {
        let ghost before = self.values@;
        let mut i: usize = 0;
        assert(before + result@.take(0) =~= before);
        while i < result.len()
            invariant
                i <= result@.len(),
                self.sent == old(self).sent,
                self.received == old(self).received,
                self.started == old(self).started,
                self.values@ == before + result@.take(i as int),
            decreases result@.len() - i,
        {
            self.values.push(result[i]);
            i = i + 1;
            assert(self.values@ =~= before + result@.take(i as int));
        }
        assert(result@.take(i as int) =~= result@);
        self.received = self.received + 1;
    }

    /// The numbers that came back, where every task was answered and there was one.
    pub fn finish(self) -> (r: Result<Vec<T>, String>)
        ensures
            if self.sent > 0 && self.received == self.sent {
                r matches Ok(v) && v@ == self.values@
            } else {
                r matches Err(e) && e@
                    == "Failed to get results from distributed workers - remote execution required"@
            },
    {
        if self.sent > 0 && self.received == self.sent {
            Ok(self.values)
        } else {
            Err(
                copy_str(
                    "Failed to get results from distributed workers - remote execution required",
                ),
            )
        }
    }
}

/// The text that stands for the result: the result itself, or zero where there is none.
pub fn result_text(outcome: Result<String, String>) -> (r: String)
    ensures
        match outcome {
            Ok(text) => r@ == text@,
            Err(_) => r@ == "{\"value\": 0.0}"@,
        },
{
    match outcome {
        Ok(text) => text,
        Err(_) => copy_str("{\"value\": 0.0}"),
    }
}

/// The workers that a channel leads to are connected, and no others, in order and as often as they
/// are named.
pub proof fn connected_workers_keep_their_order(
    a: Seq<Seq<char>>,
    b: Seq<Seq<char>>,
    w: Seq<char>,
    channels: Seq<Seq<char>>,
)
    ensures
        connected_among(a + b, channels) == connected_among(a, channels) + connected_among(
            b,
            channels,
        ),
        (exists|i: int| 0 <= i < channels.len() && #[trigger] channels[i] == w) ==> connected_among(
            seq![w],
            channels,
        ) == seq![w],
        (forall|i: int| 0 <= i < channels.len() ==> #[trigger] channels[i] != w)
            ==> connected_among(seq![w], channels).len() == 0,
    decreases b.len(),
{
    reveal_with_fuel(connected_among, 2);
    if b.len() == 0 {
        assert(a + b =~= a);
        assert(connected_among(a, channels) + connected_among(b, channels) =~= connected_among(
            a,
            channels,
        ));
    } else {
        assert((a + b).drop_last() =~= a + b.drop_last());
        assert((a + b).last() == b.last());
        connected_workers_keep_their_order(a, b.drop_last(), w, channels);
        assert(connected_among(a + b, channels) =~= connected_among(a, channels) + connected_among(
            b,
            channels,
        ));
    }
    assert(seq![w].drop_last() =~= Seq::<Seq<char>>::empty());
    if exists|i: int| 0 <= i < channels.len() && #[trigger] channels[i] == w {
        let i = choose|i: int| 0 <= i < channels.len() && #[trigger] channels[i] == w;
        assert(channels.contains(w));
        assert(connected_among(seq![w], channels) =~= seq![w]);
    }
}

/// Every worker but the last gets the same number of items: as many as an even share has, but a
/// thousand at most. Each share begins where the one before it ends; the last goes to the end.
pub proof fn shares_are_even_up_to_a_thousand(n: nat, workers: nat, i: int)
    requires
        0 <= i < workers,
    ensures
        ({
            let s = share_size(n, workers) as int;
            &&& s <= 1000
            &&& workers * s <= n
            &&& s < 1000 ==> n < workers * (s + 1)
            &&& share_start(n, workers, 0) == 0
            &&& i < workers - 1 ==> share_end(n, workers, i) == share_start(n, workers, i) + s
            &&& i < workers - 1 ==> share_start(n, workers, i + 1) == share_end(n, workers, i)
            &&& i == workers - 1 ==> share_end(n, workers, i) == n
        }),
{
    let s = share_size(n, workers) as int;
    let w = workers as int;
    lemma_shares_inside(n, workers, i);
    vstd::arithmetic::div_mod::lemma_fundamental_div_mod(n as int, w);
    vstd::arithmetic::div_mod::lemma_mod_bound(n as int, w);
    let even = n as int / w;
    assert(w * s <= w * even) by (nonlinear_arith)
        requires
            0 < w,
            s <= even,
    ;
    assert(w * (even + 1) == w * even + w) by (nonlinear_arith);
    assert(share_start(n, workers, 0) == 0) by (nonlinear_arith)
        requires
            share_start(n, workers, 0) == 0 * s,
    ;
}

/// A share carries its part of the data in order, the module, the glue, the name of the map function
/// for its mode, and an id made of the time stamp and the worker's number.
pub proof fn shares_carry_their_data<T>(
    task: ComputeTask<T>,
    i: int,
    stamp: u64,
    data: Seq<T>,
    workers: nat,
    mode: ExecutionMode,
    wasm: Seq<u8>,
    js_glue: Seq<char>,
    k: int,
)
    requires
        0 <= i < workers,
        is_share(task, i, stamp, data, workers, mode, wasm, js_glue),
    ensures
        ({
            let start = share_start(data.len(), workers, i);
            let end = share_end(data.len(), workers, i);
            &&& task.data_chunk@.len() == end - start
            &&& 0 <= k < end - start ==> task.data_chunk@[k] == data[start + k]
        }),
        task.wasm_module@ == base64_text(wasm),
        task.js_glue@ == js_glue,
        mode == ExecutionMode::CPU ==> task.map_function@ == "cpu_map"@,
        mode == ExecutionMode::GPU ==> task.map_function@ == "gpu_map"@,
        task.task_id@ == "task_"@ + decimal(stamp as nat) + "_"@ + decimal(i as nat),
{
    lemma_shares_inside(data.len(), workers, i);
}

} // verus!
