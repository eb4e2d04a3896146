//! The job pipeline as a state machine.
//!
//! The caller runs the loop: it receives messages, runs subprocesses, reads
//! files and talks to the store.  Each outside outcome becomes a `JobEvent`;
//! `pipeline_step` decides everything — whether a message is executed,
//! dropped or acknowledged, what runs next, which records are uploaded — and
//! answers with the next state and one `JobAction` for the caller to
//! perform.  `step_ok` is the full transition relation; every decision the
//! pipeline makes is pinned by it.

use crate::csv::{csv_columns, csv_headers, csv_wf, parse_csv};
use crate::message::{decode_message, msg_fields};
use crate::records::{entry_model, make_entries, spec_entries};
use crate::text::{spec_split_ws, split_ws, to_chars};
use crate::types::{BenchCSVEntry, BenchError, BenchKey, BenchPlatform};
use vstd::prelude::*;

verus! {

/// What one job carries while it runs: where it came from, its key and the
/// platform stamp shared by all its records.
pub struct JobData {
    pub repository: String,
    pub key: BenchKey,
    pub platform: BenchPlatform,
}

/// Where the pipeline stands.  `Running`, `Parsing` and `Uploading` hold the
/// discovered benchmark names and which one is being worked.
pub enum PipelineState {
    Idle,
    CheckingOut { job: JobData },
    Building { job: JobData },
    Discovering { job: JobData },
    Running { job: JobData, benches: Vec<String>, current: usize },
    Parsing { job: JobData, benches: Vec<String>, current: usize },
    Uploading { job: JobData, benches: Vec<String>, current: usize },
    Acknowledged,
    Failed { error: BenchError },
}

/// One outside outcome, handed in by the caller.
pub enum JobEvent {
    /// A message arrived: its body, the queue's redelivery flag, the wall
    /// clock in milliseconds and the compiler version.
    Delivered { body: String, redelivered: bool, now: i64, compiler: String },
    /// The clone and checkout commands finished.
    CheckoutFinished { ok: bool },
    /// The build command finished; `output` is what it printed.
    BuildFinished { ok: bool, output: String },
    /// The listing command finished; `stdout` is what it printed.
    ListFinished { ok: bool, stdout: String },
    /// One benchmark run finished.  Its exit status is recorded by the
    /// caller; the result file decides what happens next.
    RunFinished { ok: bool },
    /// The result file was read, or was missing.
    ResultFile { contents: Option<String> },
    /// The store reported how many records it failed to persist.
    UploadFinished { failed: usize },
}

/// What the caller must do next.
pub enum JobAction {
    /// Acknowledge the message.
    Ack,
    /// Remove the message without executing it: it could not be decoded.
    Discard,
    /// Leave the message unacknowledged: the job failed and the message
    /// stays eligible for redelivery.
    Reject,
    /// Clone `repository` and check out `commit` in a fresh directory.
    Checkout { repository: String, commit: String },
    /// Compile the benchmark suite.
    BuildSuite,
    /// Ask the built suite for its benchmark names.
    ListBenches,
    /// Run the named benchmark.
    RunBench { name: String },
    /// Read the named benchmark's result file.
    ReadResultFile { name: String },
    /// Persist these records, each as an independent document.
    Upload { records: Vec<BenchCSVEntry> },
}

/// Which event answers which state: each outside outcome is accepted
/// exactly in the state whose action asked for it.
pub open spec fn accepts(s: PipelineState, e: JobEvent) -> bool {
    match e {
        JobEvent::Delivered { .. } => s is Idle || s is Acknowledged || s is Failed,
        JobEvent::CheckoutFinished { .. } => s is CheckingOut,
        JobEvent::BuildFinished { .. } => s is Building,
        JobEvent::ListFinished { .. } => s is Discovering,
        JobEvent::RunFinished { .. } => s matches PipelineState::Running { benches, current, .. }
            && current < benches@.len(),
        JobEvent::ResultFile { .. } => s matches PipelineState::Parsing { benches, current, .. }
            && current < benches@.len(),
        JobEvent::UploadFinished { .. } => s matches PipelineState::Uploading {
            benches,
            current,
            ..
        } && current < benches@.len(),
    }
}

/// The transition relation of the pipeline: what state and action follow
/// from `s` on event `e`.
pub open spec fn step_ok(s: PipelineState, e: JobEvent, s2: PipelineState, a: JobAction) -> bool {
    match e {
        JobEvent::Delivered { body, redelivered, now, compiler } => {
            if redelivered {
                // At-most-once execution: never re-run a redelivered job.
                s2 is Idle && a is Ack
            } else {
                match msg_fields(body@) {
                    None => s2 is Idle && a is Discard,
                    Some(f) => {
                        &&& s2 matches PipelineState::CheckingOut { job }
                        &&& job.repository@ == f.0
                        &&& job.key.branch@ == f.1
                        &&& job.key.commit@ == f.2
                        &&& job.key.date == now
                        &&& job.platform.compiler@ == compiler@
                        &&& a matches JobAction::Checkout { repository, commit }
                        &&& repository@ == f.0
                        &&& commit@ == f.2
                    },
                }
            }
        },
        JobEvent::CheckoutFinished { ok } => match s {
            PipelineState::CheckingOut { job } => {
                if ok {
                    s2 matches PipelineState::Building { job: j2 } && j2 == job
                        && a is BuildSuite
                } else {
                    s2 matches PipelineState::Failed { error } && error is Checkout && a is Reject
                }
            },
            _ => true,
        },
        JobEvent::BuildFinished { ok, output } => match s {
            PipelineState::Building { job } => {
                if ok {
                    s2 matches PipelineState::Discovering { job: j2 } && j2 == job
                        && a is ListBenches
                } else {
                    // A suite that failed to compile aborts the job.
                    &&& s2 matches PipelineState::Failed { error }
                    &&& error matches BenchError::Build(o)
                    &&& o@ == output@
                    &&& a is Reject
                }
            },
            _ => true,
        },
        JobEvent::ListFinished { ok, stdout } => match s {
            PipelineState::Discovering { job } => {
                if !ok {
                    s2 matches PipelineState::Failed { error } && error is Discovery && a is Reject
                } else {
                    let names = spec_split_ws(stdout@);
                    if names.len() == 0 {
                        s2 is Acknowledged && a is Ack
                    } else {
                        &&& s2 matches PipelineState::Running { job: j2, benches, current }
                        &&& j2 == job
                        &&& benches.deep_view() == names
                        &&& current == 0
                        &&& a matches JobAction::RunBench { name }
                        &&& name@ == names[0]
                    }
                }
            },
            _ => true,
        },
        JobEvent::RunFinished { .. } => match s {
            PipelineState::Running { job, benches, current } => {
                &&& s2 matches PipelineState::Parsing { job: j2, benches: b2, current: c2 }
                &&& j2 == job
                &&& b2 == benches
                &&& c2 == current
                &&& a matches JobAction::ReadResultFile { name }
                &&& name@ == benches.deep_view()[current as int]
            },
            _ => true,
        },
        JobEvent::ResultFile { contents } => match s {
            PipelineState::Parsing { job, benches, current } => match contents {
                None => s2 matches PipelineState::Failed { error } && error is Parse
                    && a is Reject,
                Some(text) => {
                    if !csv_wf(text@) {
                        s2 matches PipelineState::Failed { error } && error is Parse
                            && a is Reject
                    } else {
                        &&& s2 matches PipelineState::Uploading {
                            job: j2,
                            benches: b2,
                            current: c2,
                        }
                        &&& j2 == job
                        &&& b2 == benches
                        &&& c2 == current
                        &&& a matches JobAction::Upload { records }
                        &&& records@.map_values(|r: BenchCSVEntry| entry_model(r)) == spec_entries(
                            job.key.commit@,
                            job.key.branch@,
                            job.key.date,
                            benches.deep_view()[current as int],
                            job.platform.compiler@,
                            csv_headers(text@),
                            csv_columns(text@),
                        )
                    }
                },
            },
            _ => true,
        },
        JobEvent::UploadFinished { failed } => match s {
            PipelineState::Uploading { job, benches, current } => {
                if failed > 0 {
                    // The job is not complete while any record is missing.
                    &&& s2 matches PipelineState::Failed { error }
                    &&& error == BenchError::Store(failed)
                    &&& a is Reject
                } else if current + 1 < benches@.len() {
                    &&& s2 matches PipelineState::Running { job: j2, benches: b2, current: c2 }
                    &&& j2 == job
                    &&& b2 == benches
                    &&& c2 == current + 1
                    &&& a matches JobAction::RunBench { name }
                    &&& name@ == benches.deep_view()[current + 1]
                } else {
                    // Every discovered benchmark ran, parsed and uploaded.
                    s2 is Acknowledged && a is Ack
                }
            },
            _ => true,
        },
    }
}

/// One decision of the pipeline, as `step_ok` says.
pub fn pipeline_step(state: PipelineState, event: JobEvent) -> (r: (PipelineState, JobAction))
    requires
        accepts(state, event),
    ensures
        step_ok(state, event, r.0, r.1),
{
    match event {
        JobEvent::Delivered { body, redelivered, now, compiler } => {
            if redelivered {
                return (PipelineState::Idle, JobAction::Ack);
            }
            match decode_message(body.as_str()) {
                Err(_) => (PipelineState::Idle, JobAction::Discard),
                Ok(m) => {
                    let repository = m.repository.clone();
                    let commit = m.commit.clone();
                    let job = JobData {
                        repository: m.repository,
                        key: BenchKey { commit: m.commit, branch: m.branch, date: now },
                        platform: BenchPlatform { compiler },
                    };
                    (
                        PipelineState::CheckingOut { job },
                        JobAction::Checkout { repository, commit },
                    )
                },
            }
        },
        JobEvent::CheckoutFinished { ok } => match state {
            PipelineState::CheckingOut { job } => {
                if ok {
                    (PipelineState::Building { job }, JobAction::BuildSuite)
                } else {
                    (
                        PipelineState::Failed { error: BenchError::Checkout },
                        JobAction::Reject,
                    )
                }
            },
            _ => (PipelineState::Idle, JobAction::Reject),
        },
        JobEvent::BuildFinished { ok, output } => match state {
            PipelineState::Building { job } => {
                if ok {
                    (PipelineState::Discovering { job }, JobAction::ListBenches)
                } else {
                    (
                        PipelineState::Failed { error: BenchError::Build(output) },
                        JobAction::Reject,
                    )
                }
            },
            _ => (PipelineState::Idle, JobAction::Reject),
        },
        JobEvent::ListFinished { ok, stdout } => match state {
            PipelineState::Discovering { job } => {
                if !ok {
                    return (
                        PipelineState::Failed { error: BenchError::Discovery },
                        JobAction::Reject,
                    );
                }
                let chars = to_chars(stdout.as_str());
                let words = split_ws(&chars);
                let nw = words.len();
                let mut benches: Vec<String> = Vec::new();
                let mut k: usize = 0;
                while k < nw
                    invariant
                        k <= nw,
                        nw == words@.len(),
                        words.deep_view() == spec_split_ws(stdout@),
                        benches.deep_view() == spec_split_ws(stdout@).take(k as int),
                    decreases nw - k,
                {
                    let word = &words[k];
                    proof {
                        crate::text::lemma_index_deep_view(words, k as int);
                        crate::text::lemma_chars_deep(words@[k as int]);
                    }
                    let s = crate::text::chars_to_string(word);
                    let ghost benches0 = benches;
                    benches.push(s);
                    k = k + 1;
                    proof {
                        crate::text::lemma_push_deep_view(benches0, benches, s);
                        assert(spec_split_ws(stdout@).take(k as int) =~= spec_split_ws(
                            stdout@,
                        ).take(k - 1).push(spec_split_ws(stdout@)[k - 1]));
                    }
                }
                proof {
                    assert(spec_split_ws(stdout@).take(nw as int) =~= spec_split_ws(stdout@));
                }
                if benches.len() == 0 {
                    return (PipelineState::Acknowledged, JobAction::Ack);
                }
                let first = benches[0].clone();
                proof {
                    crate::text::lemma_index_deep_view(benches, 0);
                }
                (
                    PipelineState::Running { job, benches, current: 0 },
                    JobAction::RunBench { name: first },
                )
            },
            _ => (PipelineState::Idle, JobAction::Reject),
        },
        JobEvent::RunFinished { .. } => match state {
            PipelineState::Running { job, benches, current } => {
                let name = benches[current].clone();
                proof {
                    crate::text::lemma_index_deep_view(benches, current as int);
                }
                (
                    PipelineState::Parsing { job, benches, current },
                    JobAction::ReadResultFile { name },
                )
            },
            _ => (PipelineState::Idle, JobAction::Reject),
        },
        JobEvent::ResultFile { contents } => match state {
            PipelineState::Parsing { job, benches, current } => match contents {
                None => (
                    PipelineState::Failed { error: BenchError::Parse },
                    JobAction::Reject,
                ),
                Some(text) => match parse_csv(text.as_str()) {
                    Err(_) => (
                        PipelineState::Failed { error: BenchError::Parse },
                        JobAction::Reject,
                    ),
                    Ok((headers, columns)) => {
                        proof {
                            assert(headers@.len() == headers.deep_view().len());
                            assert(columns@.len() == columns.deep_view().len());
                        }
                        let name_ref = &benches[current];
                        proof {
                            crate::text::lemma_index_deep_view(benches, current as int);
                        }
                        let records = make_entries(
                            &job.key,
                            name_ref,
                            &job.platform,
                            &headers,
                            &columns,
                        );
                        proof {
                            assert(headers.deep_view() == csv_headers(text@));
                            assert(columns.deep_view() =~= csv_columns(text@));
                        }
                        (
                            PipelineState::Uploading { job, benches, current },
                            JobAction::Upload { records },
                        )
                    },
                },
            },
            _ => (PipelineState::Idle, JobAction::Reject),
        },
        JobEvent::UploadFinished { failed } => match state {
            PipelineState::Uploading { job, benches, current } => {
                let nb = benches.len();
                if failed > 0 {
                    (
                        PipelineState::Failed { error: BenchError::Store(failed) },
                        JobAction::Reject,
                    )
                } else if current + 1 < nb {
                    let next = current + 1;
                    let name = benches[next].clone();
                    proof {
                        crate::text::lemma_index_deep_view(benches, next as int);
                    }
                    (
                        PipelineState::Running { job, benches, current: next },
                        JobAction::RunBench { name },
                    )
                } else {
                    (PipelineState::Acknowledged, JobAction::Ack)
                }
            },
            _ => (PipelineState::Idle, JobAction::Reject),
        },
    }
}

/// Law: a redelivered message is acknowledged at once and the pipeline stays
/// idle — no checkout begins and nothing is uploaded for it.
pub proof fn lemma_redelivered_message_is_acknowledged(
    s: PipelineState,
    e: JobEvent,
    s2: PipelineState,
    a: JobAction,
)
    requires
        e matches JobEvent::Delivered { redelivered, .. } && redelivered,
        step_ok(s, e, s2, a),
    ensures
        s2 is Idle,
        a is Ack,
{
}

/// Law: a message that fails to decode is discarded without entering the
/// job, the pipeline stays idle, and a following well-formed message is
/// accepted and starts a checkout — one bad message never stops the loop.
pub proof fn lemma_bad_message_is_skipped(
    s: PipelineState,
    e: JobEvent,
    s2: PipelineState,
    a: JobAction,
    e2: JobEvent,
)
    requires
        e matches JobEvent::Delivered { body, redelivered, .. } && !redelivered && msg_fields(
            body@,
        ) is None,
        step_ok(s, e, s2, a),
        e2 matches JobEvent::Delivered { body, redelivered, .. } && !redelivered && msg_fields(
            body@,
        ) is Some,
    ensures
        s2 is Idle,
        a is Discard,
        accepts(s2, e2),
        forall|s3: PipelineState, a2: JobAction|
            step_ok(s2, e2, s3, a2) ==> (s3 is CheckingOut
                && a2 is Checkout),
{
}

} // verus!
