//! Map-reduce around a job: chunks are encoded before it, results are decoded and reduced after
//! it.
use vstd::prelude::*;
use crate::options::ExecutionMode;
use crate::slots::{all_filled, filled};
use crate::text::copy_str;

verus! {

/// The encoded chunks that hold any bytes, in order.
pub open spec fn non_empty<M>(encoded: Seq<(Vec<u8>, M)>) -> Seq<(Vec<u8>, M)>
    decreases encoded.len(),
{
    if encoded.len() == 0 {
        Seq::empty()
    } else {
        let before = non_empty(encoded.drop_last());
        if encoded.last().0@.len() > 0 {
            before.push(encoded.last())
        } else {
            before
        }
    }
}

/// The chunks encode to `encoded`, one by one.
pub open spec fn encodes_to<Input, M, E: Fn(&Input) -> (Vec<u8>, M)>(
    encoder: E,
    chunks: Seq<Input>,
    encoded: Seq<(Vec<u8>, M)>,
) -> bool {
    &&& encoded.len() == chunks.len()
    &&& forall|i: int|
        0 <= i < chunks.len() ==> call_ensures(encoder, (&chunks[i],), #[trigger] encoded[i])
}

/// Splits the input and encodes each chunk. Chunks without bytes are dropped; some have to be
/// left.
pub fn encode_chunks<
    Input,
    M,
    ChunkFn: Fn(&Input) -> Vec<Input>,
    EncodeFn: Fn(&Input) -> (Vec<u8>, M),
>(input: &Input, chunker: ChunkFn, chunk_encoder: EncodeFn) -> (r: Result<Vec<(Vec<u8>, M)>, String>)
    requires
        call_requires(chunker, (input,)),
        forall|chunks: Vec<Input>, i: int|
            #![trigger call_ensures(chunker, (input,), chunks), chunks@[i]]
            call_ensures(chunker, (input,), chunks) && 0 <= i < chunks@.len() ==> call_requires(
                chunk_encoder,
                (&chunks@[i],),
            ),
    ensures
        exists|chunks: Vec<Input>, encoded: Seq<(Vec<u8>, M)>| #[trigger]
            call_ensures(chunker, (input,), chunks) && #[trigger] encodes_to(
                chunk_encoder,
                chunks@,
                encoded,
            ) && match r {
                Ok(v) => v@ == non_empty(encoded) && v@.len() > 0,
                Err(e) => non_empty(encoded).len() == 0 && e@
                    == "chunker produced no non-empty chunks"@,
            },
{
    let chunks = chunker(input);
    let mut kept: Vec<(Vec<u8>, M)> = Vec::new();
    let ghost mut encoded: Seq<(Vec<u8>, M)> = Seq::empty();
    let mut i: usize = 0;
    while i < chunks.len()
        invariant
            i <= chunks@.len(),
            forall|k: int|
                0 <= k < chunks@.len() ==> call_requires(chunk_encoder, (&#[trigger] chunks@[k],)),
            encodes_to(chunk_encoder, chunks@.take(i as int), encoded),
            kept@ == non_empty(encoded),
        decreases chunks@.len() - i,
    {
        let pair = chunk_encoder(&chunks[i]);
        proof {
            let longer = encoded.push(pair);
            assert(longer.drop_last() =~= encoded);
            assert(forall|k: int| 0 <= k < i ==> chunks@.take(i + 1)[k] == chunks@.take(i as int)[k]);
            encoded = longer;
        }
        if pair.0.len() > 0 {
            kept.push(pair);
        }
        i = i + 1;
    }
    assert(chunks@.take(i as int) =~= chunks@);
    if kept.len() == 0 {
        return Err(copy_str("chunker produced no non-empty chunks"));
    }
    Ok(kept)
}

/// The results that are there, in chunk order.
pub open spec fn present<M>(results: Seq<Option<(M, Vec<u8>)>>) -> Seq<(M, Vec<u8>)>
    decreases results.len(),
{
    if results.len() == 0 {
        Seq::empty()
    } else {
        let before = present(results.drop_last());
        match results.last() {
            Some(result) => before.push(result),
            None => before,
        }
    }
}

/// The results decode to `outputs`, one by one.
pub open spec fn decodes_to<M, Item, D: Fn(Vec<u8>, M) -> Item>(
    decoder: D,
    results: Seq<(M, Vec<u8>)>,
    outputs: Seq<Item>,
) -> bool {
    &&& outputs.len() == results.len()
    &&& forall|i: int|
        0 <= i < results.len() ==> call_ensures(
            decoder,
            (results[i].1, results[i].0),
            #[trigger] outputs[i],
        )
}

/// Decodes the results in chunk order, skipping those that are missing, and reduces them.
pub fn reduce_results<
    M,
    Item,
    FinalOutput,
    DecodeFn: Fn(Vec<u8>, M) -> Item,
    ReduceFn: Fn(Vec<Item>) -> FinalOutput,
>(results: Vec<Option<(M, Vec<u8>)>>, result_decoder: DecodeFn, reducer: ReduceFn) -> (r:
    FinalOutput)
    requires
        forall|b: Vec<u8>, m: M| call_requires(result_decoder, (b, m)),
        forall|v: Vec<Item>| call_requires(reducer, (v,)),
    ensures
        exists|outputs: Vec<Item>| #[trigger]
            decodes_to(result_decoder, present(results@), outputs@) && call_ensures(
                reducer,
                (outputs,),
                r,
            ),
{
    let ghost all = results@;
    let mut outputs: Vec<Item> = Vec::new();
    let ghost mut done: int = 0;
    for slot in it: results
        invariant
            it.seq() == all,
            forall|b: Vec<u8>, m: M| call_requires(result_decoder, (b, m)),
            decodes_to(result_decoder, present(all.take(it.index() as int)), outputs@),
    {
        proof {
            done = it.index() as int;
            let more = all.take(done + 1);
            assert(more.drop_last() =~= all.take(done));
            assert(more.last() == slot);
        }
        let ghost before = present(all.take(done));
        let ghost had = outputs@;
        if let Some((meta, bytes)) = slot {
            let item = result_decoder(bytes, meta);
            outputs.push(item);
            proof {
                let now = before.push((meta, bytes));
                assert forall|k: int| 0 <= k < now.len() implies call_ensures(
                    result_decoder,
                    (now[k].1, now[k].0),
                    #[trigger] outputs@[k],
                ) by {
                    if k < before.len() {
                        assert(outputs@[k] == had[k]);
                    }
                }
            }
        }
    }
    assert(all.take(all.len() as int) =~= all);
    let ghost outs = outputs;
    let r = reducer(outputs);
    assert(decodes_to(result_decoder, present(all), outs@));
    r
}

/// Where nothing is missing, every result is reduced, in chunk order.
pub proof fn complete_results_are_all_reduced<M>(results: Seq<Option<(M, Vec<u8>)>>)
    requires
        all_filled(results),
    ensures
        present(results).len() == results.len(),
        forall|i: int| 0 <= i < results.len() ==> Some(#[trigger] present(results)[i]) == results[i],
    decreases results.len(),
{
    if results.len() > 0 {
        let rest = results.drop_last();
        assert forall|i: int| 0 <= i < rest.len() implies (#[trigger] rest[i]) is Some by {
            assert(results[i] is Some);
        }
        complete_results_are_all_reduced(rest);
        assert(results[results.len() - 1] is Some);
        assert forall|i: int| 0 <= i < results.len() implies Some(#[trigger] present(results)[i])
            == results[i] by {
            if i < rest.len() {
                assert(Some(present(rest)[i]) == rest[i]);
            }
        }
    }
}

/// As many results are reduced as are there.
pub proof fn present_counts_the_filled<M>(results: Seq<Option<(M, Vec<u8>)>>)
    ensures
        present(results).len() == filled(results),
    decreases results.len(),
{
    if results.len() > 0 {
        present_counts_the_filled(results.drop_last());
    }
}

/// A function that a computation applies to each of its chunks.
pub trait ComputeFunction<Input, Output> {
    /// The function can be called on the input.
    spec fn accepts(&self, input: Input) -> bool;

    /// The function may give the output on the input.
    spec fn yields(&self, input: Input, output: Output) -> bool;

    fn call(&self, input: Input) -> (r: Output)
        requires
            self.accepts(input),
        ensures
            self.yields(input, r),
    ;
}

impl<F, Input, Output> ComputeFunction<Input, Output> for F where F: Fn(Input) -> Output {
    open spec fn accepts(&self, input: Input) -> bool {
        call_requires(*self, (input,))
    }

    open spec fn yields(&self, input: Input, output: Output) -> bool {
        call_ensures(*self, (input,), output)
    }

    fn call(&self, input: Input) -> (r: Output) {
        self(input)
    }
}

/// The function may give `outputs` on copies of `chunks`, one by one.
pub open spec fn computes_to<Input, Output, F: ComputeFunction<Input, Output>>(
    compute_fn: F,
    chunks: Seq<Input>,
    copies: Seq<Input>,
    outputs: Seq<Output>,
) -> bool where Input: Clone {
    &&& copies.len() == chunks.len()
    &&& outputs.len() == chunks.len()
    &&& forall|i: int| 0 <= i < chunks.len() ==> cloned::<Input>(chunks[i], #[trigger] copies[i])
    &&& forall|i: int|
        0 <= i < chunks.len() ==> compute_fn.yields(copies[i], #[trigger] outputs[i])
}

/// Splits the input, computes each chunk here, and reduces what comes out. The mode makes no
/// difference to what is computed.
pub fn run_distributed_impl<F, Input, Output, ChunkFn, ReduceFn>(
    compute_fn: F,
    input: Input,
    chunker: ChunkFn,
    reducer: ReduceFn,
    _execution_mode: ExecutionMode,
) -> (r: Output) where
    F: ComputeFunction<Input, Output>,
    Input: Clone,
    ChunkFn: Fn(&Input) -> Vec<Input>,
    ReduceFn: Fn(Vec<Output>) -> Output,

    requires
        call_requires(chunker, (&input,)),
        forall|chunks: Vec<Input>, i: int, c: Input|
            #![trigger call_ensures(chunker, (&input,), chunks), cloned::<Input>(chunks@[i], c)]
            call_ensures(chunker, (&input,), chunks) && 0 <= i < chunks@.len() && cloned::<Input>(
                chunks@[i],
                c,
            ) ==> compute_fn.accepts(c),
        forall|v: Vec<Output>| call_requires(reducer, (v,)),
    ensures
        exists|chunks: Vec<Input>, copies: Seq<Input>, outputs: Vec<Output>|
            #![trigger call_ensures(chunker, (&input,), chunks), computes_to(compute_fn, chunks@, copies, outputs@)]
            call_ensures(chunker, (&input,), chunks) && computes_to(
                compute_fn,
                chunks@,
                copies,
                outputs@,
            ) && call_ensures(reducer, (outputs,), r),
{
    let chunks = chunker(&input);
    let mut results: Vec<Output> = Vec::new();
    let ghost mut copies: Seq<Input> = Seq::empty();
    let mut i: usize = 0;
    while i < chunks.len()
        invariant
            i <= chunks@.len(),
            forall|k: int, c: Input|
                0 <= k < chunks@.len() && #[trigger] cloned::<Input>(chunks@[k], c)
                    ==> compute_fn.accepts(c),
            computes_to(compute_fn, chunks@.take(i as int), copies, results@),
        decreases chunks@.len() - i,
    {
        let ghost had = results@;
        let ghost had_copies = copies;
        let copy = chunks[i].clone();
        let ghost seen = copy;
        assert(cloned::<Input>(chunks@[i as int], seen));
        let result = compute_fn.call(copy);
        results.push(result);
        proof {
            copies = copies.push(seen);
            let more = chunks@.take(i + 1);
            assert forall|k: int| 0 <= k < more.len() implies cloned::<Input>(
                more[k],
                #[trigger] copies[k],
            ) by {
                if k < i {
                    assert(cloned::<Input>(chunks@.take(i as int)[k], had_copies[k]));
                }
            }
            assert forall|k: int| 0 <= k < more.len() implies compute_fn.yields(
                copies[k],
                #[trigger] results@[k],
            ) by {
                if k < i {
                    assert(compute_fn.yields(had_copies[k], had[k]));
                }
            }
        }
        i = i + 1;
    }
    assert(chunks@.take(i as int) =~= chunks@);
    let ghost outs = results;
    let r = reducer(results);
    assert(computes_to(compute_fn, chunks@, copies, outs@));
    r
}

/// What a computation comes to when its result could be read, and what it comes to otherwise:
/// whatever the reducer makes of nothing.
pub fn result_or_empty<Output, ReduceFn: Fn(Vec<Output>) -> Output>(
    parsed: Option<Output>,
    reducer: ReduceFn,
) -> (r: Output)
    requires
        forall|v: Vec<Output>| call_requires(reducer, (v,)),
    ensures
        match parsed {
            Some(output) => r == output,
            None => exists|none: Vec<Output>|
                none@.len() == 0 && #[trigger] call_ensures(reducer, (none,), r),
        },
{
    match parsed {
        Some(output) => output,
        None => {
            let none: Vec<Output> = Vec::new();
            reducer(none)
        },
    }
}

/// Every chunk that has a byte is kept, and no other, in order and as often as it occurs: what is
/// kept of two lists one after the other is what is kept of the first, then what is kept of the
/// second; a chunk by itself is kept just where it has a byte. So where each has one, all are kept.
pub proof fn chunks_with_bytes_are_kept<M>(
    a: Seq<(Vec<u8>, M)>,
    b: Seq<(Vec<u8>, M)>,
    chunk: (Vec<u8>, M),
)
    ensures
        non_empty(a + b) == non_empty(a) + non_empty(b),
        chunk.0@.len() == 0 ==> non_empty(seq![chunk]).len() == 0,
        chunk.0@.len() >= 1 ==> non_empty(seq![chunk]) == seq![chunk],
        (forall|i: int| 0 <= i < a.len() ==> (#[trigger] a[i]).0@.len() >= 1) ==> non_empty(a) == a,
        (forall|i: int| 0 <= i < a.len() ==> (#[trigger] a[i]).0@.len() == 0) ==> non_empty(
            a,
        ).len() == 0,
    decreases a.len() + b.len(),
{
    reveal_with_fuel(non_empty, 2);
    if b.len() == 0 {
        assert(a + b =~= a);
        assert(non_empty(a) + non_empty(b) =~= non_empty(a));
    } else {
        assert((a + b).drop_last() =~= a + b.drop_last());
        assert((a + b).last() == b.last());
        chunks_with_bytes_are_kept(a, b.drop_last(), chunk);
        assert(non_empty(a + b) =~= non_empty(a) + non_empty(b));
    }
    assert(seq![chunk].drop_last() =~= Seq::<(Vec<u8>, M)>::empty());
    assert(chunk.0@.len() >= 1 ==> non_empty(seq![chunk]) =~= seq![chunk]);
    if a.len() > 0 {
        let rest = a.drop_last();
        chunks_with_bytes_are_kept(rest, Seq::empty(), chunk);
        assert(a =~= rest.push(a.last()));
        assert(a[a.len() - 1] == a.last());
        if forall|i: int| 0 <= i < a.len() ==> (#[trigger] a[i]).0@.len() >= 1 {
            assert forall|i: int| 0 <= i < rest.len() implies (#[trigger] rest[i]).0@.len() >= 1 by {
                assert(a[i].0@.len() >= 1);
            }
        }
        if forall|i: int| 0 <= i < a.len() ==> (#[trigger] a[i]).0@.len() == 0 {
            assert forall|i: int| 0 <= i < rest.len() implies (#[trigger] rest[i]).0@.len() == 0 by {
                assert(a[i].0@.len() == 0);
            }
        }
    } else {
        assert(non_empty(a) =~= a);
    }
}

/// Every result that is there is reduced, and no gap is, in order: the results of two stretches of
/// chunks come one after the other; a chunk by itself gives its result or nothing.
pub proof fn results_are_reduced_in_order<M>(
    a: Seq<Option<(M, Vec<u8>)>>,
    b: Seq<Option<(M, Vec<u8>)>>,
    result: (M, Vec<u8>),
)
    ensures
        present(a + b) == present(a) + present(b),
        present(seq![Some(result)]) == seq![result],
        present(seq![None::<(M, Vec<u8>)>]).len() == 0,
    decreases b.len(),
{
    reveal_with_fuel(present, 2);
    if b.len() == 0 {
        assert(a + b =~= a);
        assert(present(a) + present(b) =~= present(a));
    } else {
        assert((a + b).drop_last() =~= a + b.drop_last());
        assert((a + b).last() == b.last());
        results_are_reduced_in_order(a, b.drop_last(), result);
        assert(present(a + b) =~= present(a) + present(b));
    }
    let one = seq![Some(result)];
    assert(one.drop_last() =~= Seq::<Option<(M, Vec<u8>)>>::empty());
    assert(present(one) =~= seq![result]);
    let none = seq![None::<(M, Vec<u8>)>];
    assert(none.drop_last() =~= Seq::<Option<(M, Vec<u8>)>>::empty());
}

} // verus!
