//! Verified core of a master-worker map-reduce system whose workers are browser tabs.
#![allow(unused_imports)]

pub mod bench;
pub mod channel;
pub mod crawl;
pub mod direct;
pub mod job;
pub mod json;
pub mod numeric;
pub mod options;
pub mod parse;
pub mod pipeline;
pub mod promises;
pub mod protocol;
pub mod raytrace;
pub mod sending;
pub mod setup;
pub mod signaling;
pub mod slots;
pub mod text;
pub mod video;
pub mod worker;
pub mod workers;

pub use crate::options::{ExecutionMode, JobOptions, MissingChunkPolicy};
pub use crate::pipeline::{run_distributed_impl, ComputeFunction};
