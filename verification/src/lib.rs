//! Verified core of a benchmark-regression bot.
//!
//! A requester publishes a job naming a repository, branch and commit; a
//! worker consumes the job, builds the benchmark suite at that commit, runs
//! each discovered benchmark, parses its tabular result file and uploads one
//! record per measured backend.  This crate holds the verified logic of that
//! pipeline: the wire codecs, the result-file parser, the record assembly,
//! the job state machine and the read-side query functions.  The surrounding
//! process (queue, store, subprocesses, clock) feeds the library plain values
//! and performs the actions it decides.

pub mod config;
pub mod csv;
pub mod json;
pub mod message;
pub mod pipeline;
pub mod records;
pub mod server;
pub mod text;
pub mod types;
