//! How a job is run.
use vstd::prelude::*;
use crate::text::copy_str;

verus! {

/// Where the map function of a numeric job runs on a worker.
#[derive(Debug, Clone, Copy, PartialEq, Eq, Structural)]
pub enum ExecutionMode {
    CPU,
    GPU,
}

/// What to do when some chunks never produce a result.
#[derive(Debug, Clone, Copy, PartialEq, Eq, Structural)]
pub enum MissingChunkPolicy {
    /// Fail the whole job (default). A partial sum is a wrong sum.
    Fail,
    /// Return the results that did arrive, in chunk order, and report what was dropped.
    AllowPartial,
}

#[derive(Debug, Clone, Copy)]
pub struct JobOptions {
    pub missing_chunks: MissingChunkPolicy,
    /// Per-task timeout before the task is reassigned to another worker.
    pub task_timeout_secs: u64,
    /// How many times a chunk may be reassigned before it counts as missing.
    pub max_retries: u32,
}

impl Default for JobOptions {
    fn default() -> (r: Self)
        ensures
            r == (JobOptions {
                missing_chunks: MissingChunkPolicy::Fail,
                task_timeout_secs: 30,
                max_retries: 3,
            }),
    {
        JobOptions {
            missing_chunks: MissingChunkPolicy::Fail,
            task_timeout_secs: 30,
            max_retries: 3,
        }
    }
}

impl ExecutionMode {
    /// The map function that numeric jobs run in this mode.
    pub open spec fn map_function_text(self) -> Seq<char> {
        match self {
            ExecutionMode::CPU => "cpu_map"@,
            ExecutionMode::GPU => "gpu_map"@,
        }
    }

    /// The name of the map function that numeric jobs run in this mode.
    pub fn map_function(self) -> (r: String)
        ensures
            r@ == self.map_function_text(),
    {
        match self {
            ExecutionMode::CPU => copy_str("cpu_map"),
            ExecutionMode::GPU => copy_str("gpu_map"),
        }
    }

    /// The name of the mode.
    pub fn label(self) -> (r: String)
        ensures
            r@ == match self {
                ExecutionMode::CPU => "CPU"@,
                ExecutionMode::GPU => "GPU"@,
            },
    {
        match self {
            ExecutionMode::CPU => copy_str("CPU"),
            ExecutionMode::GPU => copy_str("GPU"),
        }
    }
}

} // verus!
