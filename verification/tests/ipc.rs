use harness::feedback::SessionId;
use harness::ipc::{
    begin, frame, frame_size, handling, needs_run, response_to, CommandKind, FrameError, Handling,
    ResponseKind, Watch, WatchAction, WatchEvent, MAX_FRAME_BYTES, PROTOCOL_VERSION,
    UNSUPPORTED_PROTOCOL_VERSION,
};
use harness::uuid::Uuid;

#[test]
fn frames_are_read_back() {
    let bytes = frame(b"{}").unwrap();
    assert_eq!(bytes, vec![0, 0, 0, 2, b'{', b'}']);
    assert_eq!(frame_size([0, 0, 0, 2]), Ok(2));
    assert_eq!(frame_size([0, 1, 2, 3]), Ok(66051));
    assert_eq!(frame_size([0, 0, 0, 0]), Err(FrameError::ReadLimit));
    assert_eq!(frame_size([0, 0x80, 0, 0]), Ok(MAX_FRAME_BYTES));
    assert_eq!(frame_size([0, 0x80, 0, 1]), Err(FrameError::ReadLimit));
    let large = vec![b' '; MAX_FRAME_BYTES];
    let bytes = frame(&large).unwrap();
    assert_eq!(&bytes[..4], &[0, 0x80, 0, 0]);
    assert_eq!(frame(&vec![b' '; MAX_FRAME_BYTES + 1]), Err(FrameError::WriteLimit));
    assert_eq!(
        FrameError::WriteLimit.message(),
        "operator response exceeds limit; use bounded queries"
    );
}

#[test]
fn other_versions_are_refused_before_they_watch() {
    assert_eq!(
        handling(PROTOCOL_VERSION - 1, CommandKind::Watch),
        Handling::Unsupported
    );
    assert_eq!(handling(PROTOCOL_VERSION, CommandKind::Watch), Handling::Watch);
    assert_eq!(handling(PROTOCOL_VERSION, CommandKind::Info), Handling::Execute);
    assert_eq!(handling(1, CommandKind::ShutdownIfIdle), Handling::Shutdown);
    assert_eq!(UNSUPPORTED_PROTOCOL_VERSION, "unsupported operator protocol version");
    assert_eq!(ResponseKind::Error.name(), "error");
}

#[test]
fn executions_hold_a_run() {
    assert!(needs_run(CommandKind::ExecuteInput));
    assert!(!needs_run(CommandKind::Submit));
    assert_eq!(
        begin(CommandKind::ResumeTask, false),
        Err("host execution capacity is occupied; retry this request ID later")
    );
    assert_eq!(begin(CommandKind::ResumeTask, true), Ok(Some(ResponseKind::TaskFinished)));
    assert_eq!(begin(CommandKind::Info, false), Ok(Some(ResponseKind::Info)));
    assert_eq!(response_to(CommandKind::ForkSession), Some(ResponseKind::Session));
    assert_eq!(CommandKind::InspectTaskReview.name(), "inspect_task_review");
}

#[test]
fn spectators_are_sent_what_is_new() {
    let session = SessionId(Uuid::from_u128(1));
    let mut watch = Watch::new(4, Some(session));
    assert!(watch.warn(vec![]));
    assert!(!watch.warn(vec![]));
    assert!(watch.warn(vec!["monitor_unavailable".to_string()]));
    assert!(!watch.warn(vec!["monitor_unavailable".to_string()]));
    assert!(!watch.sent(&vec![]));
    assert!(watch.sent(&vec![5, 9]));
    assert_eq!(watch.after, 9);
    assert_eq!(watch.react(WatchEvent::Subagent { session }), WatchAction::SendSubagent);
    let other = SessionId(Uuid::from_u128(2));
    assert_eq!(watch.react(WatchEvent::Subagent { session: other }), WatchAction::Continue);
    assert_eq!(watch.react(WatchEvent::SubagentsLagged), WatchAction::SendSnapshot { session });
    assert_eq!(watch.react(WatchEvent::ClientSent), WatchAction::Refuse);
    assert_eq!(
        watch.react(WatchEvent::PreviewsLagged { dropped: 3 }),
        WatchAction::SendGap { dropped: 3 }
    );
    let all = Watch::new(0, None);
    assert_eq!(all.react(WatchEvent::Subagent { session: other }), WatchAction::SendSubagent);
    assert_eq!(all.react(WatchEvent::SubagentsLagged), WatchAction::Continue);
    assert_eq!(all.react(WatchEvent::Stopped), WatchAction::Finish);
}
