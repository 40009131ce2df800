//! The countable side of the benchmark: what is run, and how much is sent.
use vstd::prelude::*;
use crate::options::ExecutionMode;
use crate::text::same_text;

verus! {

/// The size that a module is taken to have where it cannot be looked up.
pub const TYPICAL_WASM_BYTES: u64 = 100_000;

/// The size that the glue code is taken to have.
pub const TYPICAL_GLUE_BYTES: usize = 10_000;

/// The size that the rest of a task is taken to have.
pub const TASK_OVERHEAD_BYTES: usize = 500;

/// The size that a number in a JSON text is taken to have.
pub const JSON_NUMBER_BYTES: usize = 8;

/// The modes that a name stands for. An unknown name stands for none.
pub fn modes_named(name: &str) -> (r: Vec<ExecutionMode>)
    ensures
        r@ == if name@ == "both"@ {
            seq![ExecutionMode::CPU, ExecutionMode::GPU]
        } else if name@ == "cpu"@ {
            seq![ExecutionMode::CPU]
        } else if name@ == "gpu"@ {
            seq![ExecutionMode::GPU]
        } else {
            Seq::empty()
        },
{
    let mut r: Vec<ExecutionMode> = Vec::new();
    if same_text(name, "both") || same_text(name, "cpu") {
        r.push(ExecutionMode::CPU);
    }
    if same_text(name, "both") || same_text(name, "gpu") {
        r.push(ExecutionMode::GPU);
    }
    proof {
        reveal_strlit("both");
        reveal_strlit("cpu");
        reveal_strlit("gpu");
        assert("both"@.len() != "cpu"@.len());
        assert("cpu"@[0] != "gpu"@[0]);
    }
    r
}

/// The size of the module: the first that is known.
pub fn module_size(sizes: &Vec<Option<u64>>) -> (r: u64)
    ensures
        (exists|k: int|
            0 <= k < sizes@.len() && (#[trigger] sizes@[k]) == Some(r) && forall|i: int|
                0 <= i < k ==> (#[trigger] sizes@[i]) is None) || (r == TYPICAL_WASM_BYTES
            && forall|i: int| 0 <= i < sizes@.len() ==> (#[trigger] sizes@[i]) is None),
{
    let mut i: usize = 0;
    while i < sizes.len()
        invariant
            i <= sizes@.len(),
            forall|k: int| 0 <= k < i ==> (#[trigger] sizes@[k]) is None,
        decreases sizes@.len() - i,
    {
        if let Some(n) = sizes[i] {
            assert(sizes@[i as int] == Some(n));
            return n;
        }
        i = i + 1;
    }
    TYPICAL_WASM_BYTES
}

/// How many bytes one run over `numbers` numbers is taken to send: the module in base64, the
/// glue code, the numbers there and back, and the rest of a task. Nothing where that is too
/// large a number.
pub fn bytes_per_run(wasm_base64: usize, numbers: usize) -> (r: Option<usize>)
    ensures
        ({
            let total = wasm_base64 + TYPICAL_GLUE_BYTES + 2 * (numbers * JSON_NUMBER_BYTES)
                + TASK_OVERHEAD_BYTES;
            r == if total <= usize::MAX {
                Some(total as usize)
            } else {
                None
            }
        }),
{
    let there: usize = match numbers.checked_mul(JSON_NUMBER_BYTES) {
        Some(n) => n,
        None => return None,
    };
    let both: usize = match there.checked_mul(2) {
        Some(n) => n,
        None => return None,
    };
    let with_module: usize = match both.checked_add(wasm_base64) {
        Some(n) => n,
        None => return None,
    };
    with_module.checked_add(TYPICAL_GLUE_BYTES + TASK_OVERHEAD_BYTES)
}

/// A count for each of the runs that succeeded. Nothing where that is too large a number.
pub fn over_runs(count: usize, successes: usize) -> (r: Option<usize>)
    ensures
        r == if count * successes <= usize::MAX {
            Some((count * successes) as usize)
        } else {
            None
        },
{
    count.checked_mul(successes)
}

/// Whether to pause behind the iteration number `i`: not behind the last.
pub fn pause_after(i: usize, iterations: usize, wait_secs: u64) -> (r: bool)
    ensures
        r == (wait_secs > 0 && i + 1 < iterations),
{
    wait_secs > 0 && i < iterations && iterations - i > 1
}

} // verus!
