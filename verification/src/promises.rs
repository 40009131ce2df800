//! What calls promise: what a result must satisfy, and how the results of calls relate.
//!
//! Each law speaks of calls of the library's functions, whatever they returned.

pub mod crawling;
pub mod jobs;
pub mod pictures;
pub mod reducing;
pub mod setting_up;
pub mod texts;
pub mod wire;
