use benchbot::pipeline::{pipeline_step, JobAction, JobEvent, PipelineState};
use benchbot::records::store_upload;
use benchbot::types::{BenchCSVEntry, BenchError};

fn delivered(body: &str, redelivered: bool) -> JobEvent {
    JobEvent::Delivered {
        body: String::from(body),
        redelivered,
        now: 1_700_000_000_000,
        compiler: String::from("rustc 1.70.0"),
    }
}

const GOOD_BODY: &str =
    "{\"repository\":\"https://example/repo\",\"branch\":\"main\",\"commit\":\"abcd123\"}";

#[test]
fn redelivered_message_is_acknowledged_without_work() {
    let (state, action) = pipeline_step(PipelineState::Idle, delivered(GOOD_BODY, true));
    assert!(matches!(state, PipelineState::Idle));
    assert!(matches!(action, JobAction::Ack));
}

#[test]
fn undecodable_message_is_discarded_and_loop_continues() {
    let (state, action) = pipeline_step(PipelineState::Idle, delivered("not json", false));
    assert!(matches!(state, PipelineState::Idle));
    assert!(matches!(action, JobAction::Discard));
    // A following valid message is still processed.
    let (state, action) = pipeline_step(state, delivered(GOOD_BODY, false));
    assert!(matches!(state, PipelineState::CheckingOut { .. }));
    match action {
        JobAction::Checkout { repository, commit } => {
            assert_eq!(repository, "https://example/repo");
            assert_eq!(commit, "abcd123");
        }
        other => panic!("expected a checkout, got {:?}", action_name(&other)),
    }
}

#[test]
fn checkout_failure_fails_the_job_and_leaves_the_message() {
    let (state, _) = pipeline_step(PipelineState::Idle, delivered(GOOD_BODY, false));
    let (state, action) = pipeline_step(state, JobEvent::CheckoutFinished { ok: false });
    assert!(matches!(
        state,
        PipelineState::Failed { error: BenchError::Checkout }
    ));
    assert!(matches!(action, JobAction::Reject));
}

#[test]
fn build_failure_aborts_the_job_with_its_output() {
    let (state, _) = pipeline_step(PipelineState::Idle, delivered(GOOD_BODY, false));
    let (state, _) = pipeline_step(state, JobEvent::CheckoutFinished { ok: true });
    let (state, action) = pipeline_step(
        state,
        JobEvent::BuildFinished { ok: false, output: String::from("compile error") },
    );
    match &state {
        PipelineState::Failed { error: BenchError::Build(out) } => {
            assert_eq!(out, "compile error");
        }
        _ => panic!("expected a build failure"),
    }
    assert!(matches!(action, JobAction::Reject));
}

#[test]
fn empty_discovery_acknowledges_at_once() {
    let (state, _) = pipeline_step(PipelineState::Idle, delivered(GOOD_BODY, false));
    let (state, _) = pipeline_step(state, JobEvent::CheckoutFinished { ok: true });
    let (state, _) = pipeline_step(
        state,
        JobEvent::BuildFinished { ok: true, output: String::new() },
    );
    let (state, action) = pipeline_step(
        state,
        JobEvent::ListFinished { ok: true, stdout: String::from("  \n") },
    );
    assert!(matches!(state, PipelineState::Acknowledged));
    assert!(matches!(action, JobAction::Ack));
}

#[test]
fn missing_result_file_is_a_parse_failure() {
    let (state, _) = pipeline_step(PipelineState::Idle, delivered(GOOD_BODY, false));
    let (state, _) = pipeline_step(state, JobEvent::CheckoutFinished { ok: true });
    let (state, _) = pipeline_step(
        state,
        JobEvent::BuildFinished { ok: true, output: String::new() },
    );
    let (state, _) = pipeline_step(
        state,
        JobEvent::ListFinished { ok: true, stdout: String::from("a") },
    );
    let (state, _) = pipeline_step(state, JobEvent::RunFinished { ok: true });
    let (state, action) = pipeline_step(state, JobEvent::ResultFile { contents: None });
    assert!(matches!(
        state,
        PipelineState::Failed { error: BenchError::Parse }
    ));
    assert!(matches!(action, JobAction::Reject));
}

#[test]
fn store_failure_leaves_the_job_unacknowledged() {
    let (state, _) = pipeline_step(PipelineState::Idle, delivered(GOOD_BODY, false));
    let (state, _) = pipeline_step(state, JobEvent::CheckoutFinished { ok: true });
    let (state, _) = pipeline_step(
        state,
        JobEvent::BuildFinished { ok: true, output: String::new() },
    );
    let (state, _) = pipeline_step(
        state,
        JobEvent::ListFinished { ok: true, stdout: String::from("a") },
    );
    let (state, _) = pipeline_step(state, JobEvent::RunFinished { ok: true });
    let (state, _) = pipeline_step(
        state,
        JobEvent::ResultFile { contents: Some(String::from("x,y\n1,2\n")) },
    );
    let (state, action) = pipeline_step(state, JobEvent::UploadFinished { failed: 2 });
    assert!(matches!(
        state,
        PipelineState::Failed { error: BenchError::Store(2) }
    ));
    assert!(matches!(action, JobAction::Reject));
}

#[test]
fn end_to_end_two_benchmarks_four_records() {
    // Job -> checkout -> build -> discover ["a", "b"] -> each produces a
    // two-column file with three rows -> four records uploaded -> ack.
    let csv = "rapier,other\n1.0,2.0\n3.0,4.0\n5.0,6.0\n";
    let mut state = PipelineState::Idle;
    let mut uploaded: Vec<BenchCSVEntry> = Vec::new();

    let (s, a) = pipeline_step(state, delivered(GOOD_BODY, false));
    state = s;
    assert!(matches!(a, JobAction::Checkout { .. }));
    let (s, _) = pipeline_step(state, JobEvent::CheckoutFinished { ok: true });
    state = s;
    let (s, _) = pipeline_step(
        state,
        JobEvent::BuildFinished { ok: true, output: String::new() },
    );
    state = s;
    let (s, a) = pipeline_step(
        state,
        JobEvent::ListFinished { ok: true, stdout: String::from("a b\n") },
    );
    state = s;
    let mut next_bench = match a {
        JobAction::RunBench { name } => name,
        _ => panic!("expected a benchmark run"),
    };
    assert_eq!(next_bench, "a");

    loop {
        let (s, a) = pipeline_step(state, JobEvent::RunFinished { ok: true });
        state = s;
        match a {
            JobAction::ReadResultFile { name } => assert_eq!(name, next_bench),
            _ => panic!("expected a result-file read"),
        }
        let (s, a) = pipeline_step(
            state,
            JobEvent::ResultFile { contents: Some(String::from(csv)) },
        );
        state = s;
        match a {
            JobAction::Upload { records } => {
                assert_eq!(records.len(), 2);
                store_upload(&mut uploaded, records);
            }
            _ => panic!("expected an upload"),
        }
        let (s, a) = pipeline_step(state, JobEvent::UploadFinished { failed: 0 });
        state = s;
        match a {
            JobAction::RunBench { name } => {
                next_bench = name;
                assert_eq!(next_bench, "b");
            }
            JobAction::Ack => break,
            _ => panic!("expected the next run or the ack"),
        }
    }
    assert!(matches!(state, PipelineState::Acknowledged));

    // 2 benchmarks x 2 backends = 4 records, each with 3 timings.
    assert_eq!(uploaded.len(), 4);
    for entry in &uploaded {
        assert_eq!(entry.timings.len(), 3);
        assert_eq!(entry.key.commit, "abcd123");
        assert_eq!(entry.key.branch, "main");
        assert_eq!(entry.platform.compiler, "rustc 1.70.0");
    }
    assert_eq!(uploaded[0].context.name, "a");
    assert_eq!(uploaded[0].context.backend, "rapier");
    assert_eq!(uploaded[1].context.backend, "other");
    assert_eq!(uploaded[2].context.name, "b");
    assert_eq!(
        uploaded[0].timings,
        vec![String::from("1.0"), String::from("3.0"), String::from("5.0")]
    );
    assert_eq!(
        uploaded[1].timings,
        vec![String::from("2.0"), String::from("4.0"), String::from("6.0")]
    );
}

#[test]
fn replayed_job_stores_two_equal_batches() {
    // No deduplication key: running the same job twice doubles the store.
    let csv = "rapier\n1.0\n";
    let mut store: Vec<BenchCSVEntry> = Vec::new();
    for _ in 0..2 {
        let (state, _) = pipeline_step(PipelineState::Idle, delivered(GOOD_BODY, false));
        let (state, _) = pipeline_step(state, JobEvent::CheckoutFinished { ok: true });
        let (state, _) = pipeline_step(
            state,
            JobEvent::BuildFinished { ok: true, output: String::new() },
        );
        let (state, _) = pipeline_step(
            state,
            JobEvent::ListFinished { ok: true, stdout: String::from("a") },
        );
        let (state, _) = pipeline_step(state, JobEvent::RunFinished { ok: true });
        let (_, a) = pipeline_step(
            state,
            JobEvent::ResultFile { contents: Some(String::from(csv)) },
        );
        match a {
            JobAction::Upload { records } => store_upload(&mut store, records),
            _ => panic!("expected an upload"),
        }
    }
    assert_eq!(store.len(), 2);
    assert_eq!(store[0], store[1]);
}

fn action_name(a: &JobAction) -> &'static str {
    match a {
        JobAction::Ack => "ack",
        JobAction::Discard => "discard",
        JobAction::Reject => "reject",
        JobAction::Checkout { .. } => "checkout",
        JobAction::BuildSuite => "build",
        JobAction::ListBenches => "list",
        JobAction::RunBench { .. } => "run",
        JobAction::ReadResultFile { .. } => "read",
        JobAction::Upload { .. } => "upload",
    }
}
