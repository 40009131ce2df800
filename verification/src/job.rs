//! One job: its chunks are handed out to workers, handed out again when a worker fails or takes
//! too long, and their results are collected in chunk order.
//!
//! A [`driver::Driver`] runs a [`state::Job`] from its first task to its end. It decides; its
//! owner acts: it sends, waits or receives as it is told, and says how it went.

pub mod driver;
pub mod id;
pub mod laws;
pub mod meaning;
pub mod model;
pub mod state;
