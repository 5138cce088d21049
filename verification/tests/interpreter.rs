use harness::digest::Digest;
use harness::feedback::SessionId;
use harness::interpreter::{
    check_checkpoint, check_result, Budget, CellFailure, CellRun, CellStatus, CellStep,
    Checkpoint, CheckpointRef, InterpreterEvent, InterpreterState, VmLimits, MAX_VALUE_BYTES,
};
use harness::json::Json;
use harness::manual::TaskId;
use harness::uuid::Uuid;

#[test]
fn interpreter_checkpoint_detects_tampering_and_wrong_identity() {
    let session = SessionId(Uuid::from_u128(1));
    let runtime = Digest::of(b"runtime");
    let source = Digest::of(b"cell source");
    let values = || Json::parse(br#"{"value":42}"#).unwrap();
    let checkpoint = Checkpoint::new(session, runtime, source, values());
    assert!(checkpoint.validate(session, runtime, source).is_ok());
    assert!(checkpoint
        .validate(SessionId(Uuid::from_u128(2)), runtime, source)
        .is_err());
    assert!(checkpoint
        .validate(session, runtime, Digest::of(b"different source"))
        .is_err());
    for field in ["version", "runtime", "digest", "values"] {
        let mut altered = Checkpoint::new(session, runtime, source, values());
        match field {
            "version" => altered.version += 1,
            "runtime" => altered.runtime = Digest::of(b"other"),
            "digest" => altered.digest = Digest::of(b"other"),
            _ => altered.values = Json::parse(b"43").unwrap(),
        }
        assert!(altered.validate(session, runtime, source).is_err());
    }
}

#[test]
fn checkpoints_are_digests_of_what_they_bind() {
    let session = SessionId(Uuid::from_u128(1));
    let runtime = Digest::of(b"r");
    let source = Digest::of(b"s");
    let checkpoint = Checkpoint::new(session, runtime, source, Json::Null);
    let text = format!(
        "[1,\"00000000-0000-0000-0000-000000000001\",\"{}\",\"{}\",null]",
        runtime.to_string(),
        source.to_string()
    );
    assert_eq!(checkpoint.digest, Digest::of(text.as_bytes()));
}

fn started(cell: u128, task: u128) -> InterpreterEvent {
    InterpreterEvent::Started {
        cell: Uuid::from_u128(cell),
        task: TaskId(Uuid::from_u128(task)),
        outer_call: "call".to_string(),
        source: Digest::of(b"s"),
        runtime: Digest::of(b"r"),
        generation: 1,
        environment: Digest::of(b"e"),
    }
}

fn call(cell: u128, ordinal: u64) -> InterpreterEvent {
    InterpreterEvent::CallStarted {
        cell: Uuid::from_u128(cell),
        ordinal,
        call_id: format!("{}/{ordinal}", Uuid::from_u128(cell).to_string()),
        name: "read".to_string(),
        arguments: Digest::of(b"a"),
    }
}

#[test]
fn only_pending_cells_make_calls() {
    let request = Uuid::from_u128(7);
    let task = TaskId(Uuid::from_u128(8));
    let mut state = InterpreterState::new();
    assert!(state.is_empty());
    state.apply(request, &started(1, 8));
    state.apply(request, &started(2, 8));
    state.apply(request, &call(1, 1));
    state.apply(request, &call(1, 2));
    state.apply(request, &call(2, 1));
    let name = |cell: u128, ordinal: u64| format!("{}/{ordinal}", Uuid::from_u128(cell).to_string());
    assert!(state.admits(&name(1, 1), request, task));
    assert!(!state.admits(&name(1, 1), Uuid::from_u128(9), task));
    state.apply(
        request,
        &InterpreterEvent::CallSettled {
            cell: Uuid::from_u128(1),
            ordinal: 1,
            result: Digest::of(b"x"),
        },
    );
    assert!(!state.admits(&name(1, 1), request, task));
    assert!(state.admits(&name(1, 2), request, task));
    let kept = CheckpointRef { artifact: Digest::of(b"c"), source: Digest::of(b"s") };
    state.apply(
        request,
        &InterpreterEvent::Settled {
            cell: Uuid::from_u128(1),
            result: Digest::of(b"x"),
            checkpoint: Some(kept),
            state_lost: false,
        },
    );
    assert!(!state.admits(&name(1, 2), request, task));
    assert!(state.admits(&name(2, 1), request, task));
    assert_eq!(state.checkpoint, Some(kept));
    state.interrupt(request);
    assert!(!state.admits(&name(2, 1), request, task));
    let cell = Uuid::from_u128(2).to_string();
    assert_eq!(state.cells.get(&cell).unwrap().status, CellStatus::Interrupted);
    assert!(!CellStatus::Interrupted.pending());
}

#[test]
fn cells_run_within_their_bounds() {
    let limits = VmLimits::default();
    let mut budget = Budget::new();
    assert_eq!(limits.memory, 32 * 1024 * 1024);
    assert_eq!(limits.cpu_ns, 1_000_000_000);
    assert!(!budget.tick(false, 10, &limits));
    assert!(budget.tick(true, 10, &limits));
    budget.pause(900_000_000);
    assert!(!budget.tick(false, 99_999_999, &limits));
    assert!(budget.tick(false, 100_000_000, &limits));
    assert!(budget.spent(100_000_000, &limits));
    assert!(!budget.spent(99_999_999, &limits));
    let mut often = Budget::new();
    for _ in 0..1000 {
        often.pause(999_999);
    }
    assert_eq!(often.elapsed_ns, 999_999_000);
    let few = VmLimits { ticks: 1, ..limits };
    let mut budget = Budget::new();
    assert!(!budget.tick(false, 0, &few));
    assert!(budget.tick(false, 0, &few));
}

#[test]
fn calls_settle_before_a_cell_is_finished() {
    let mut run = CellRun::new();
    assert_eq!(run.next(true, false, false, false), Ok(CellStep::RunJob));
    assert_eq!(run.next(true, true, false, false), Err(CellFailure::Cancelled));
    assert_eq!(run.next(true, false, true, false), Err(CellFailure::CpuExceeded));
    assert_eq!(run.start_call(1), Ok(1));
    assert_eq!(run.next(false, false, false, true), Ok(CellStep::AwaitReply));
    assert_eq!(run.take_reply(true, false), Ok(()));
    assert_eq!(run.next(false, false, false, true), Ok(CellStep::Finish));
    assert_eq!(run.next(false, false, false, false), Err(CellFailure::Unresolved));
    assert_eq!(run.start_call(MAX_VALUE_BYTES + 1), Err(CellFailure::CallWindow));
    for expected in 2..34 {
        assert_eq!(run.start_call(0), Ok(expected));
    }
    assert_eq!(run.start_call(0), Err(CellFailure::CallWindow));
    assert_eq!(run.take_reply(false, false), Err(CellFailure::CallInterrupted));
    assert_eq!(run.take_reply(true, true), Err(CellFailure::CancelledInCall));
    assert_eq!(check_checkpoint(MAX_VALUE_BYTES + 1), Err(CellFailure::CheckpointTooLarge));
    assert_eq!(check_result(MAX_VALUE_BYTES), Ok(()));
    assert_eq!(check_result(MAX_VALUE_BYTES + 1), Err(CellFailure::ResultTooLarge));
    assert_eq!(CellFailure::Cancelled.message(), "cell cancelled");
}
