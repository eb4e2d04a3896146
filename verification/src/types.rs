//! Data carried through the pipeline and the errors its steps can raise.

use vstd::prelude::*;

verus! {

/// Process-wide configuration, loaded once at startup and never mutated.
#[derive(Clone, Debug, PartialEq, Eq)]
pub struct BenchConfig {
    pub mongodb_bencher_uri: String,
    pub mongodb_server_uri: String,
    pub rabbitmq_uri: String,
    pub mongodb_db: String,
}

/// A job request: benchmark this commit of this repository.
#[derive(Clone, Debug, PartialEq, Eq)]
pub struct BenchMessage {
    pub repository: String,
    pub branch: String,
    pub commit: String,
}

/// Identifies one job execution.  `date` is the run time in milliseconds
/// since the Unix epoch, assigned once at job start by the pipeline.
#[derive(Clone, Debug, PartialEq, Eq)]
pub struct BenchKey {
    /// The commit SHA where this benchmark is run.
    pub commit: String,
    /// The branch where this benchmark is run.
    pub branch: String,
    /// When this benchmark is run, in milliseconds since the Unix epoch.
    pub date: i64,
}

/// Identifies one measured variant of one benchmark program.
#[derive(Clone, Debug, PartialEq, Eq)]
pub struct BenchContext {
    /// Name of what is being benched.
    pub name: String,
    /// The backend used for this benchmark.
    pub backend: String,
}

/// Details about the platform the benchmarks run on.
#[derive(Clone, Debug, PartialEq, Eq)]
pub struct BenchPlatform {
    /// Compiler version used to build the benchmarks.
    pub compiler: String,
}

/// One persisted measurement: the timings of one backend column of one
/// benchmark's result file.  Each timing is kept exactly as it stood in the
/// file, a decimal token already checked to be a well-formed floating-point
/// literal (see `csv::is_float_token`).
#[derive(Clone, Debug, PartialEq, Eq)]
pub struct BenchCSVEntry {
    /// Benchmark key.
    pub key: BenchKey,
    /// Benchmark context.
    pub context: BenchContext,
    /// Details about the platform the benchmark is run on.
    pub platform: BenchPlatform,
    /// Timings in milliseconds, one decimal token per sample row.
    pub timings: Vec<String>,
}

/// Everything a pipeline step can fail with.
#[derive(Clone, Debug, PartialEq, Eq)]
pub enum BenchError {
    /// Missing or malformed configuration.
    Config,
    /// The queue could not be reached or a publish/consume failed.
    Channel,
    /// The message body is not a well-formed job request.
    Decode,
    /// Cloning the repository or checking out the commit failed.
    Checkout,
    /// Compiling the suite failed; carries the captured build output.
    Build(String),
    /// Listing the runnable benchmarks failed.
    Discovery,
    /// Running a benchmark failed; carries the reported exit code.
    Execution(i32),
    /// The result file is missing or not a well-formed table of numbers.
    Parse,
    /// Persisting records failed; carries how many records were not stored.
    Store(usize),
}

} // verus!
