//! Calls that split, compute, collect and reduce.
use vstd::prelude::*;
use crate::bench::{bytes_per_run, modes_named, module_size, over_runs, pause_after};
use crate::direct::{base64_text, connected_among, connected_workers, connected_workers_keep_their_order, is_share, plan_tasks, plan_tasks_now, result_text, share_end, share_start, shares_are_even_up_to_a_thousand, shares_carry_their_data, Collection, ComputeTask};
use crate::numeric::{le_bytes_to_words, words_of, words_read_back, words_to_le_bytes, words_travel_lowest_byte_first};
use crate::options::ExecutionMode;
use crate::pipeline::{chunks_with_bytes_are_kept, encode_chunks, non_empty, present, reduce_results, result_or_empty, results_are_reduced_in_order, run_distributed_impl, ComputeFunction};
use crate::text::decimal;
use crate::workers::texts;

verus! {

/// The chunks are encoded one by one, in order. Where each of them has a byte, all of them are
/// given; where none has, that is said; and whatever is given, some chunk is.
pub proof fn chunks_are_encoded_one_by_one<
    Input,
    M,
    ChunkFn: Fn(&Input) -> Vec<Input>,
    EncodeFn: Fn(&Input) -> (Vec<u8>, M),
>(
    input: Input,
    chunker: ChunkFn,
    encoder: EncodeFn,
    r: Result<Vec<(Vec<u8>, M)>, String>,
)
    requires
        call_ensures(encode_chunks::<Input, M, ChunkFn, EncodeFn>, (&input, chunker, encoder), r),
    ensures
        exists|chunks: Vec<Input>, encoded: Seq<(Vec<u8>, M)>|
            {
                &&& #[trigger] call_ensures(chunker, (&input,), chunks)
                &&& #[trigger] encoded.len() == chunks@.len()
                &&& forall|i: int|
                    0 <= i < chunks@.len() ==> call_ensures(
                        encoder,
                        (&chunks@[i],),
                        #[trigger] encoded[i],
                    )
                &&& r matches Ok(v) ==> v@.len() > 0 && kept_are_those_with_bytes(encoded, v@)
                &&& r is Ok <==> exists|i: int|
                    0 <= i < encoded.len() && (#[trigger] encoded[i]).0@.len() > 0
                &&& r matches Err(e) ==> e@ == "chunker produced no non-empty chunks"@
            },
{
    let (chunks, encoded) = choose|chunks: Vec<Input>, encoded: Seq<(Vec<u8>, M)>| #[trigger]
        call_ensures(chunker, (&input,), chunks) && #[trigger] crate::pipeline::encodes_to(
            encoder,
            chunks@,
            encoded,
        ) && match r {
            Ok(v) => v@ == non_empty(encoded) && v@.len() > 0,
            Err(e) => non_empty(encoded).len() == 0 && e@
                == "chunker produced no non-empty chunks"@,
        };
    lemma_kept(encoded);
    assert(encoded.len() == chunks@.len());
}

/// `kept` are the chunks of `encoded` that have a byte, in order: each chunk that has one stands in
/// `kept` behind those of the chunks before it, and nothing else does.
pub open spec fn kept_are_those_with_bytes<M>(
    encoded: Seq<(Vec<u8>, M)>,
    kept: Seq<(Vec<u8>, M)>,
) -> bool
    decreases encoded.len(),
{
    if encoded.len() == 0 {
        kept.len() == 0
    } else if encoded.last().0@.len() == 0 {
        kept_are_those_with_bytes(encoded.drop_last(), kept)
    } else {
        kept.len() > 0 && kept.last() == encoded.last() && kept_are_those_with_bytes(
            encoded.drop_last(),
            kept.drop_last(),
        )
    }
}

proof fn lemma_kept<M>(encoded: Seq<(Vec<u8>, M)>)
    ensures
        kept_are_those_with_bytes(encoded, non_empty(encoded)),
        non_empty(encoded).len() > 0 <==> exists|i: int|
            0 <= i < encoded.len() && (#[trigger] encoded[i]).0@.len() > 0,
    decreases encoded.len(),
{
    if encoded.len() > 0 {
        let rest = encoded.drop_last();
        let last = encoded.last();
        lemma_kept(rest);
        chunks_with_bytes_are_kept(rest, seq![last], last);
        assert(rest + seq![last] =~= encoded);
        assert(encoded[encoded.len() - 1] == last);
        if last.0@.len() > 0 {
            assert(non_empty(encoded).drop_last() =~= non_empty(rest));
        } else {
            assert(non_empty(encoded) =~= non_empty(rest));
        }
        if exists|i: int| 0 <= i < rest.len() && (#[trigger] rest[i]).0@.len() > 0 {
            let i = choose|i: int| 0 <= i < rest.len() && (#[trigger] rest[i]).0@.len() > 0;
            assert(encoded[i].0@.len() > 0);
        }
        if exists|i: int| 0 <= i < encoded.len() && (#[trigger] encoded[i]).0@.len() > 0 {
            let i = choose|i: int| 0 <= i < encoded.len() && (#[trigger] encoded[i]).0@.len() > 0;
            if i < rest.len() {
                assert(rest[i].0@.len() > 0);
            }
        }
    } else {
        chunks_with_bytes_are_kept(encoded, encoded, arbitrary::<(Vec<u8>, M)>());
    }
}

/// `there` are the results that are not missing, in chunk order.
pub open spec fn there_are_the_results<M>(
    results: Seq<Option<(M, Vec<u8>)>>,
    there: Seq<(M, Vec<u8>)>,
) -> bool
    decreases results.len(),
{
    if results.len() == 0 {
        there.len() == 0
    } else {
        match results.last() {
            None => there_are_the_results(results.drop_last(), there),
            Some(last) => there.len() > 0 && there.last() == last && there_are_the_results(
                results.drop_last(),
                there.drop_last(),
            ),
        }
    }
}

proof fn lemma_there<M>(results: Seq<Option<(M, Vec<u8>)>>)
    ensures
        there_are_the_results(results, present(results)),
    decreases results.len(),
{
    if results.len() > 0 {
        let rest = results.drop_last();
        lemma_there(rest);
        match results.last() {
            Some(last) => {
                results_are_reduced_in_order(rest, seq![Some(last)], last);
                assert(rest + seq![Some(last)] =~= results);
                assert(present(results).drop_last() =~= present(rest));
            },
            None => {
                results_are_reduced_in_order(
                    rest,
                    seq![None::<(M, Vec<u8>)>],
                    arbitrary::<(M, Vec<u8>)>(),
                );
                assert(rest + seq![None::<(M, Vec<u8>)>] =~= results);
                assert(present(results) =~= present(rest));
            },
        }
    } else {
        results_are_reduced_in_order(results, results, arbitrary::<(M, Vec<u8>)>());
    }
}

/// The results that are there are decoded one by one, in chunk order, and all of them are reduced.
pub proof fn results_are_decoded_and_reduced<
    M,
    Item,
    FinalOutput,
    DecodeFn: Fn(Vec<u8>, M) -> Item,
    ReduceFn: Fn(Vec<Item>) -> FinalOutput,
>(
    results: Vec<Option<(M, Vec<u8>)>>,
    decoder: DecodeFn,
    reducer: ReduceFn,
    r: FinalOutput,
)
    requires
        call_ensures(
            reduce_results::<M, Item, FinalOutput, DecodeFn, ReduceFn>,
            (results, decoder, reducer),
            r,
        ),
    ensures
        exists|there: Seq<(M, Vec<u8>)>, outputs: Vec<Item>|
            {
                &&& #[trigger] there_are_the_results(results@, there)
                &&& outputs@.len() == there.len()
                &&& forall|i: int|
                    0 <= i < there.len() ==> call_ensures(
                        decoder,
                        (there[i].1, there[i].0),
                        #[trigger] outputs@[i],
                    )
                &&& #[trigger] call_ensures(reducer, (outputs,), r)
            },
{
    lemma_there(results@);
    let outputs = choose|outputs: Vec<Item>| #[trigger]
        crate::pipeline::decodes_to(decoder, present(results@), outputs@) && call_ensures(
            reducer,
            (outputs,),
            r,
        );
    assert(there_are_the_results(results@, present(results@)));
    assert(call_ensures(reducer, (outputs,), r));
}

/// A computation that runs here applies its function to a copy of each chunk, in order, and reduces
/// what comes out of all of them, whatever the mode.
pub proof fn computations_run_chunk_by_chunk<F, Input, Output, ChunkFn, ReduceFn>(
    compute_fn: F,
    input: Input,
    chunker: ChunkFn,
    reducer: ReduceFn,
    mode: ExecutionMode,
    r: Output,
) where
    F: ComputeFunction<Input, Output>,
    Input: Clone,
    ChunkFn: Fn(&Input) -> Vec<Input>,
    ReduceFn: Fn(Vec<Output>) -> Output,

    requires
        call_ensures(
            run_distributed_impl::<F, Input, Output, ChunkFn, ReduceFn>,
            (compute_fn, input, chunker, reducer, mode),
            r,
        ),
    ensures
        exists|chunks: Vec<Input>, copies: Seq<Input>, outputs: Vec<Output>|
            {
                &&& #[trigger] call_ensures(chunker, (&input,), chunks)
                &&& #[trigger] copies.len() == chunks@.len()
                &&& outputs@.len() == chunks@.len()
                &&& forall|i: int|
                    0 <= i < chunks@.len() ==> cloned::<Input>(chunks@[i], #[trigger] copies[i])
                &&& forall|i: int|
                    0 <= i < chunks@.len() ==> compute_fn.yields(
                        copies[i],
                        #[trigger] outputs@[i],
                    )
                &&& #[trigger] call_ensures(reducer, (outputs,), r)
            },
{
    let (chunks, copies, outputs) = choose|
        chunks: Vec<Input>,
        copies: Seq<Input>,
        outputs: Vec<Output>,
    |
        #![trigger call_ensures(chunker, (&input,), chunks), crate::pipeline::computes_to(compute_fn, chunks@, copies, outputs@)]
        call_ensures(chunker, (&input,), chunks) && crate::pipeline::computes_to(
            compute_fn,
            chunks@,
            copies,
            outputs@,
        ) && call_ensures(reducer, (outputs,), r);
    assert(copies.len() == chunks@.len());
    assert(call_ensures(reducer, (outputs,), r));
}

/// A result that could be read is the result; else it is what the reducer makes of nothing.
pub proof fn unread_results_are_reduced_from_nothing<Output, ReduceFn: Fn(Vec<Output>) -> Output>(
    output: Output,
    reducer: ReduceFn,
    a: Output,
    b: Output,
)
    requires
        call_ensures(result_or_empty::<Output, ReduceFn>, (Some(output), reducer), a),
        call_ensures(result_or_empty::<Output, ReduceFn>, (None::<Output>, reducer), b),
    ensures
        a == output,
        exists|none: Vec<Output>| none@.len() == 0 && #[trigger] call_ensures(reducer, (none,), b),
{
}

/// The workers that a channel leads to are given, in order and as often as they are named. Where
/// there is no worker, or no channel to any, that is said.
pub proof fn workers_need_a_channel(
    workers: Vec<String>,
    channels: Vec<String>,
    r: Result<Vec<String>, String>,
)
    requires
        call_ensures(connected_workers, (&workers, &channels), r),
    ensures
        workers@.len() == 0 ==> (r matches Err(e) && e@ == "No workers available for computation"@),
        r is Ok <==> exists|k: int, j: int|
            0 <= k < workers@.len() && 0 <= j < channels@.len() && (#[trigger] workers@[k])@ == (
            #[trigger] channels@[j])@,
        workers@.len() > 0 && r is Err ==> (r matches Err(e) && e@
            == "No workers with data channels available for computation"@),
        r matches Ok(v) ==> texts(v@) == connected_among(texts(workers@), texts(channels@)),
{
    let (all, open) = (texts(workers@), texts(channels@));
    lemma_some_connected(all, open);
    if exists|k: int, j: int|
        0 <= k < workers@.len() && 0 <= j < channels@.len() && (#[trigger] workers@[k])@ == (
        #[trigger] channels@[j])@ {
        let (k, j) = choose|k: int, j: int|
            0 <= k < workers@.len() && 0 <= j < channels@.len() && (#[trigger] workers@[k])@ == (
            #[trigger] channels@[j])@;
        assert(all[k] == open[j]);
    }
    if connected_among(all, open).len() > 0 {
        let (k, j) = choose|k: int, j: int|
            0 <= k < all.len() && 0 <= j < open.len() && #[trigger] all[k] == #[trigger] open[j];
        assert(workers@[k]@ == channels@[j]@);
    }
}

proof fn lemma_some_connected(workers: Seq<Seq<char>>, channels: Seq<Seq<char>>)
    ensures
        connected_among(workers, channels).len() > 0 <==> exists|k: int, j: int|
            0 <= k < workers.len() && 0 <= j < channels.len() && #[trigger] workers[k]
                == #[trigger] channels[j],
    decreases workers.len(),
{
    if workers.len() > 0 {
        let rest = workers.drop_last();
        let w = workers.last();
        lemma_some_connected(rest, channels);
        connected_workers_keep_their_order(rest, seq![w], w, channels);
        assert(rest + seq![w] =~= workers);
        assert(workers[workers.len() - 1] == w);
        if exists|k: int, j: int|
            0 <= k < rest.len() && 0 <= j < channels.len() && #[trigger] rest[k]
                == #[trigger] channels[j] {
            let (k, j) = choose|k: int, j: int|
                0 <= k < rest.len() && 0 <= j < channels.len() && #[trigger] rest[k]
                    == #[trigger] channels[j];
            assert(workers[k] == channels[j]);
        }
        if exists|j: int| 0 <= j < channels.len() && #[trigger] channels[j] == w {
            let j = choose|j: int| 0 <= j < channels.len() && #[trigger] channels[j] == w;
            assert(workers[workers.len() - 1] == channels[j]);
        }
        if exists|k: int, j: int|
            0 <= k < workers.len() && 0 <= j < channels.len() && #[trigger] workers[k]
                == #[trigger] channels[j] {
            let (k, j) = choose|k: int, j: int|
                0 <= k < workers.len() && 0 <= j < channels.len() && #[trigger] workers[k]
                    == #[trigger] channels[j];
            if k < rest.len() {
                assert(rest[k] == channels[j]);
            } else {
                assert(channels[j] == w);
            }
        }
    } else {
        connected_workers_keep_their_order(workers, workers, Seq::empty(), channels);
    }
}

/// Every worker gets one task, where there are data: each but the last an even share of a thousand
/// items at most, the last what is left; the shares follow each other from the first item to the
/// last.
pub proof fn data_are_shared_out<T: Copy>(
    data: Vec<T>,
    workers: Vec<String>,
    stamps: Vec<u64>,
    mode: ExecutionMode,
    wasm: &[u8],
    glue: &str,
    r: Vec<(String, ComputeTask<T>)>,
    i: int,
    k: int,
)
    requires
        call_ensures(plan_tasks::<T>, (&data, &workers, &stamps, mode, wasm, glue), r),
        workers@.len() > 0,
        0 <= i < workers@.len(),
    ensures
        data@.len() == 0 ==> r@.len() == 0,
        data@.len() > 0 ==> r@.len() == workers@.len(),
        data@.len() > 0 ==> ({
            let n = data@.len();
            let w = workers@.len();
            let size = if n / w < 1000 {
                n / w
            } else {
                1000nat
            };
            let start = i * size;
            let end = if i == w - 1 {
                n as int
            } else {
                start + size
            };
            let task = r@[i].1;
            &&& r@[i].0@ == workers@[i]@
            &&& task.data_chunk@.len() == end - start
            &&& 0 <= k < end - start ==> task.data_chunk@[k] == data@[start + k]
            &&& task.js_glue@ == glue@
            &&& task.wasm_module@ == base64_text(wasm@)
            &&& task.map_function@ == match mode {
                ExecutionMode::CPU => "cpu_map"@,
                ExecutionMode::GPU => "gpu_map"@,
            }
            &&& task.task_id@ == "task_"@ + decimal(stamps@[i] as nat) + "_"@ + decimal(i as nat)
        }),
{
    let n = data@.len();
    let w = workers@.len();
    shares_are_even_up_to_a_thousand(n, w, i);
    if n > 0 {
        let task = r@[i].1;
        shares_carry_their_data(task, i, stamps@[i], data@, w, mode, wasm@, glue@, k);
        let size = if n / w < 1000 {
            n / w
        } else {
            1000nat
        };
        lemma_share_size(n, w);
        assert(share_start(n, w, i) == i * size);
        assert(share_end(n, w, i) == if i == w - 1 {
            n as int
        } else {
            i * size + size
        });
    }
}

/// Data that are shared out now are shared out as at any other time; only the task ids tell when.
pub proof fn data_are_shared_out_now<T: Copy>(
    data: Vec<T>,
    workers: Vec<String>,
    mode: ExecutionMode,
    wasm: &[u8],
    glue: &str,
    r: Vec<(String, ComputeTask<T>)>,
    i: int,
    k: int,
)
    requires
        call_ensures(plan_tasks_now::<T>, (&data, &workers, mode, wasm, glue), r),
        workers@.len() > 0,
        0 <= i < workers@.len(),
    ensures
        data@.len() == 0 ==> r@.len() == 0,
        data@.len() > 0 ==> r@.len() == workers@.len(),
        data@.len() > 0 ==> ({
            let n = data@.len();
            let w = workers@.len();
            let size = if n / w < 1000 {
                n / w
            } else {
                1000nat
            };
            let start = i * size;
            let end = if i == w - 1 {
                n as int
            } else {
                start + size
            };
            let task = r@[i].1;
            &&& r@[i].0@ == workers@[i]@
            &&& task.data_chunk@.len() == end - start
            &&& 0 <= k < end - start ==> task.data_chunk@[k] == data@[start + k]
            &&& task.js_glue@ == glue@
            &&& task.wasm_module@ == base64_text(wasm@)
            &&& task.map_function@ == match mode {
                ExecutionMode::CPU => "cpu_map"@,
                ExecutionMode::GPU => "gpu_map"@,
            }
            &&& exists|stamp: u64|
                task.task_id@ == "task_"@ + #[trigger] decimal(stamp as nat) + "_"@ + decimal(
                    i as nat,
                )
        }),
{
    let n = data@.len();
    let w = workers@.len();
    shares_are_even_up_to_a_thousand(n, w, i);
    if n > 0 {
        let task = r@[i].1;
        let stamp = choose|stamp: u64| is_share(task, i, stamp, data@, w, mode, wasm@, glue@);
        shares_carry_their_data(task, i, stamp, data@, w, mode, wasm@, glue@, k);
        lemma_share_size(n, w);
    }
}

proof fn lemma_share_size(n: nat, w: nat)
    requires
        w > 0,
    ensures
        crate::direct::share_size(n, w) == if n / w < 1000 {
            n / w
        } else {
            1000nat
        },
{
}

/// Answers are waited for while some are missing and ten seconds have not passed since waiting began.
/// It begins with none. An answer counts once, and its numbers come behind those before it.
pub proof fn answers_are_collected<T: Copy>(
    sent: usize,
    started: u64,
    fresh: Collection<T>,
    c: &mut Collection<T>,
    answer: Vec<T>,
    now: u64,
    wait: bool,
    other: Collection<T>,
)
    requires
        call_ensures(Collection::<T>::new, (sent, started), fresh),
        call_ensures(Collection::<T>::take, (c, &answer), ()),
        call_ensures(Collection::<T>::waiting, (&other, now), wait),
    ensures
        fresh.sent == sent && fresh.received == 0 && fresh.values@.len() == 0 && fresh.started
            == started,
        final(c).values@ == old(c).values@ + answer@,
        final(c).received == old(c).received + 1,
        final(c).sent == old(c).sent,
        final(c).started == old(c).started,
        wait <==> other.received < other.sent && now - other.started < 10_000_000_000,
{
}

/// The numbers that came back are the result just where every task was answered, and there was one.
pub proof fn all_answers_make_the_result<T: Copy>(c: Collection<T>, r: Result<Vec<T>, String>)
    requires
        call_ensures(Collection::<T>::finish, (c,), r),
    ensures
        r is Ok <==> c.sent > 0 && c.received == c.sent,
        r matches Ok(v) ==> v@ == c.values@,
        r matches Err(e) ==> e@
            == "Failed to get results from distributed workers - remote execution required"@,
{
}

/// The text for a result is the result; where there is none it is that of a zero.
pub proof fn missing_results_are_zero(text: String, why: String, a: String, b: String)
    requires
        call_ensures(result_text, (Ok::<String, String>(text),), a),
        call_ensures(result_text, (Err::<String, String>(why),), b),
    ensures
        a@ == text@,
        b@ == "{\"value\": 0.0}"@,
{
}

/// Words come back as they were sent, even with up to three bytes behind them. Each takes four bytes,
/// the lowest first.
pub proof fn words_come_back(
    words: &[u32],
    bytes: Vec<u8>,
    received: &[u8],
    rest: Seq<u8>,
    r: Vec<u32>,
    i: int,
)
    requires
        call_ensures(words_to_le_bytes, (words,), bytes),
        call_ensures(le_bytes_to_words, (received,), r),
        received@ == bytes@ + rest,
        rest.len() < 4,
        0 <= i < words@.len(),
    ensures
        r@ == words@,
        bytes@.len() == 4 * words@.len(),
        bytes@[4 * i] + 256 * (bytes@[4 * i + 1] + 256 * (bytes@[4 * i + 2] + 256 * bytes@[4 * i
            + 3])) == words@[i],
{
    words_travel_lowest_byte_first(words@, 0, rest);
    words_read_back(words@);
    assert(words_of(bytes@)[i] == words@[i]);
}

/// A name stands for these modes.
pub proof fn names_stand_for_modes(name: &str, r: Vec<ExecutionMode>)
    requires
        call_ensures(modes_named, (name,), r),
    ensures
        r@.contains(ExecutionMode::CPU) <==> name@ == "both"@ || name@ == "cpu"@,
        r@.contains(ExecutionMode::GPU) <==> name@ == "both"@ || name@ == "gpu"@,
        r@.len() == if name@ == "both"@ {
            2int
        } else if name@ == "cpu"@ || name@ == "gpu"@ {
            1
        } else {
            0
        },
        name@ == "both"@ ==> r@[0] == ExecutionMode::CPU,
{
    reveal_strlit("both");
    reveal_strlit("cpu");
    reveal_strlit("gpu");
    assert("both"@.len() != "cpu"@.len());
    assert("cpu"@[0] != "gpu"@[0]);
    if name@ == "both"@ {
        assert(r@[0] == ExecutionMode::CPU && r@[1] == ExecutionMode::GPU);
    } else if name@ == "cpu"@ {
        assert(r@[0] == ExecutionMode::CPU);
    } else if name@ == "gpu"@ {
        assert(r@[0] == ExecutionMode::GPU);
    }
}

/// The size of a module is the first that is known, else a hundred thousand bytes. A run sends the
/// module, ten thousand bytes of glue, eight bytes for each number there and back, and five hundred
/// more. A count is taken for each run that succeeded. There is a pause behind each run but the last.
pub proof fn benchmarks_count_so(
    sizes: Vec<Option<u64>>,
    size: u64,
    wasm: usize,
    numbers: usize,
    bytes: Option<usize>,
    count: usize,
    successes: usize,
    total: Option<usize>,
    i: usize,
    runs: usize,
    secs: u64,
    pause: bool,
    k: int,
)
    requires
        call_ensures(module_size, (&sizes,), size),
        call_ensures(bytes_per_run, (wasm, numbers), bytes),
        call_ensures(over_runs, (count, successes), total),
        call_ensures(pause_after, (i, runs, secs), pause),
    ensures
        (forall|j: int| 0 <= j < sizes@.len() ==> (#[trigger] sizes@[j]) is None) ==> size == 100_000,
        0 <= k < sizes@.len() && sizes@[k] is Some && (forall|j: int|
            0 <= j < k ==> (#[trigger] sizes@[j]) is None) ==> sizes@[k] == Some(size),
        bytes matches Some(n) ==> n == wasm + 10_000 + 16 * numbers + 500,
        bytes is None <==> wasm + 10_000 + 16 * numbers + 500 > usize::MAX,
        total matches Some(n) ==> n == count * successes,
        total is None <==> count * successes > usize::MAX,
        pause <==> secs > 0 && i + 1 < runs,
{
}

} // verus!
