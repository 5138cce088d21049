//! The bounded protocol that operators speak with a host.
use crate::digest::Digest;
use crate::evolution::registry::{HarnessBinding, HarnessProvenance};
use crate::feedback::SessionId;
use crate::split::shown;
use crate::text::same_text;
use vstd::prelude::*;

verus! {

pub const PROTOCOL_VERSION: u32 = 6;

pub const UNSUPPORTED_PROTOCOL_VERSION: &'static str = "unsupported operator protocol version";

/// The most bytes of a frame.
pub const MAX_FRAME_BYTES: usize = 8388608;

/// The most bytes of a page of history.
pub const HISTORY_PAGE_BYTES: usize = 786432;

/// How many clients, runs and spectators a host serves at once.
pub const MAX_CLIENTS: usize = 16;

pub const MAX_RUNS: usize = 4;

pub const MAX_WATCHERS: usize = 8;

/// How many journal records a spectator is sent at once.
pub const WATCH_RECORDS: u32 = 16;

/// Why a frame is refused.
#[derive(Clone, Copy, Debug, PartialEq, Eq, Structural)]
pub enum FrameError {
    ReadLimit,
    WriteLimit,
}

impl FrameError {
    pub open spec fn spec_message(self) -> Seq<char> {
        match self {
            FrameError::ReadLimit => "operator frame exceeds limit"@,
            FrameError::WriteLimit => "operator response exceeds limit; use bounded queries"@,
        }
    }

    pub fn message(self) -> (r: &'static str)
        ensures
            r@ == self.spec_message(),
    {
        match self {
            FrameError::ReadLimit => "operator frame exceeds limit",
            FrameError::WriteLimit => "operator response exceeds limit; use bounded queries",
        }
    }
}

/// The number that four bytes spell, the most significant first.
pub open spec fn size_of(header: Seq<u8>) -> int {
    header[0] * 16777216 + header[1] * 65536 + header[2] * 256 + header[3]
}

/// The size of the frame that a header announces.
pub open spec fn announced(header: Seq<u8>) -> Result<usize, FrameError> {
    let size = size_of(header);
    if size == 0 || size > MAX_FRAME_BYTES {
        Err(FrameError::ReadLimit)
    } else {
        Ok(size as usize)
    }
}

/// Reads the size of the frame that a header announces.
pub fn frame_size(header: [u8; 4]) -> (r: Result<usize, FrameError>)
    ensures
        r == announced(header@),
{
    let size: u32 = header[0] as u32 * 16777216 + header[1] as u32 * 65536 + header[2] as u32 * 256
        + header[3] as u32;
    if size == 0 || size > 8388608u32 {
        return Err(FrameError::ReadLimit);
    }
    Ok(size as usize)
}

/// The bytes that announce a frame of a size.
pub open spec fn header_of(size: int) -> Seq<u8> {
    seq![
        (size / 16777216) as u8,
        (size / 65536 % 256) as u8,
        (size / 256 % 256) as u8,
        (size % 256) as u8,
    ]
}

/// A payload with the header that announces it.
pub open spec fn framed(payload: Seq<u8>) -> Result<Seq<u8>, FrameError> {
    if payload.len() > MAX_FRAME_BYTES {
        Err(FrameError::WriteLimit)
    } else {
        Ok(header_of(payload.len() as int) + payload)
    }
}

/// Puts a payload behind the header that announces it.
pub fn frame(payload: &[u8]) -> (r: Result<Vec<u8>, FrameError>)
    ensures
        match (r, framed(payload@)) {
            (Ok(bytes), Ok(expected)) => bytes@ == expected,
            (Err(error), Err(expected)) => error == expected,
            _ => false,
        },
{
    let size: usize = payload.len();
    if size > MAX_FRAME_BYTES {
        return Err(FrameError::WriteLimit);
    }
    let mut bytes: Vec<u8> = Vec::new();
    bytes.push((size / 16777216) as u8);
    bytes.push((size / 65536 % 256) as u8);
    bytes.push((size / 256 % 256) as u8);
    bytes.push((size % 256) as u8);
    assert(bytes@ =~= header_of(size as int));
    let mut i: usize = 0;
    while i < size
        invariant
            i <= size == payload@.len(),
            bytes@ == header_of(size as int) + payload@.subrange(0, i as int),
        decreases size - i,
    {
        bytes.push(payload[i]);
        assert(header_of(size as int) + payload@.subrange(0, i + 1) =~= (header_of(size as int)
            + payload@.subrange(0, i as int)).push(payload@[i as int]));
        i += 1;
    }
    assert(payload@.subrange(0, size as int) =~= payload@);
    Ok(bytes)
}

/// A frame announces the payload that stands behind its header: what was written is read,
/// unless it was empty.
pub proof fn law_frames_are_read_back(payload: Seq<u8>)
    requires
        0 < payload.len() <= MAX_FRAME_BYTES,
    ensures
        framed(payload) is Ok,
        announced(framed(payload)->Ok_0.subrange(0, 4)) == Ok::<usize, FrameError>(
            payload.len() as usize,
        ),
        framed(payload)->Ok_0.subrange(4, 4 + payload.len() as int) == payload,
{
    let size = payload.len() as int;
    let frame = framed(payload)->Ok_0;
    assert(frame.subrange(0, 4) =~= header_of(size));
    assert(frame.subrange(4, 4 + payload.len() as int) =~= payload);
    assert(size_of(header_of(size)) == size);
}

/// What an operator asks for.
#[derive(Clone, Copy, Debug, PartialEq, Eq, Structural)]
pub enum CommandKind {
    MonitorReport,
    MonitorSampling,
    InstallReadBehavior,
    RollbackReadBehavior,
    RegisterEventSource,
    EventSource,
    DisableEventSource,
    DeliverEvent,
    InspectEvent,
    CancelEvent,
    RecordReview,
    InspectSessionReview,
    HandoffSession,
    InspectTaskReview,
    MoveSubmission,
    ReviewCatalog,
    InspectWorkspace,
    ReviewFile,
    ReviewFiles,
    Submissions,
    ReplaceSubmission,
    PromoteSubmission,
    Submit,
    Submission,
    CancelSubmission,
    LegacySessions,
    ImportLegacy,
    LegacyPage,
    ExecuteInput,
    InspectTask,
    ReadArtifact,
    ArtifactFile,
    ArtifactTree,
    RecentInputs,
    Info,
    ShutdownIfIdle,
    Sessions,
    ForkSession,
    History,
    HistoryText,
    CreateSession,
    Session,
    Task,
    RegisterProgram,
    ExecuteContract,
    ExecuteRequest,
    ResumeTask,
    Cancel,
    Journal,
    Watch,
}

impl CommandKind {
    /// The name that it has on the wire.
    pub open spec fn spec_name(self) -> Seq<char> {
        match self {
            CommandKind::MonitorReport => "monitor_report"@,
            CommandKind::MonitorSampling => "monitor_sampling"@,
            CommandKind::InstallReadBehavior => "install_read_behavior"@,
            CommandKind::RollbackReadBehavior => "rollback_read_behavior"@,
            CommandKind::RegisterEventSource => "register_event_source"@,
            CommandKind::EventSource => "event_source"@,
            CommandKind::DisableEventSource => "disable_event_source"@,
            CommandKind::DeliverEvent => "deliver_event"@,
            CommandKind::InspectEvent => "inspect_event"@,
            CommandKind::CancelEvent => "cancel_event"@,
            CommandKind::RecordReview => "record_review"@,
            CommandKind::InspectSessionReview => "inspect_session_review"@,
            CommandKind::HandoffSession => "handoff_session"@,
            CommandKind::InspectTaskReview => "inspect_task_review"@,
            CommandKind::MoveSubmission => "move_submission"@,
            CommandKind::ReviewCatalog => "review_catalog"@,
            CommandKind::InspectWorkspace => "inspect_workspace"@,
            CommandKind::ReviewFile => "review_file"@,
            CommandKind::ReviewFiles => "review_files"@,
            CommandKind::Submissions => "submissions"@,
            CommandKind::ReplaceSubmission => "replace_submission"@,
            CommandKind::PromoteSubmission => "promote_submission"@,
            CommandKind::Submit => "submit"@,
            CommandKind::Submission => "submission"@,
            CommandKind::CancelSubmission => "cancel_submission"@,
            CommandKind::LegacySessions => "legacy_sessions"@,
            CommandKind::ImportLegacy => "import_legacy"@,
            CommandKind::LegacyPage => "legacy_page"@,
            CommandKind::ExecuteInput => "execute_input"@,
            CommandKind::InspectTask => "inspect_task"@,
            CommandKind::ReadArtifact => "read_artifact"@,
            CommandKind::ArtifactFile => "artifact_file"@,
            CommandKind::ArtifactTree => "artifact_tree"@,
            CommandKind::RecentInputs => "recent_inputs"@,
            CommandKind::Info => "info"@,
            CommandKind::ShutdownIfIdle => "shutdown_if_idle"@,
            CommandKind::Sessions => "sessions"@,
            CommandKind::ForkSession => "fork_session"@,
            CommandKind::History => "history"@,
            CommandKind::HistoryText => "history_text"@,
            CommandKind::CreateSession => "create_session"@,
            CommandKind::Session => "session"@,
            CommandKind::Task => "task"@,
            CommandKind::RegisterProgram => "register_program"@,
            CommandKind::ExecuteContract => "execute_contract"@,
            CommandKind::ExecuteRequest => "execute_request"@,
            CommandKind::ResumeTask => "resume_task"@,
            CommandKind::Cancel => "cancel"@,
            CommandKind::Journal => "journal"@,
            CommandKind::Watch => "watch"@,
        }
    }

    /// The name that it has on the wire.
    pub fn name(self) -> (r: &'static str)
        ensures
            r@ == self.spec_name(),
    {
        match self {
            CommandKind::MonitorReport => "monitor_report",
            CommandKind::MonitorSampling => "monitor_sampling",
            CommandKind::InstallReadBehavior => "install_read_behavior",
            CommandKind::RollbackReadBehavior => "rollback_read_behavior",
            CommandKind::RegisterEventSource => "register_event_source",
            CommandKind::EventSource => "event_source",
            CommandKind::DisableEventSource => "disable_event_source",
            CommandKind::DeliverEvent => "deliver_event",
            CommandKind::InspectEvent => "inspect_event",
            CommandKind::CancelEvent => "cancel_event",
            CommandKind::RecordReview => "record_review",
            CommandKind::InspectSessionReview => "inspect_session_review",
            CommandKind::HandoffSession => "handoff_session",
            CommandKind::InspectTaskReview => "inspect_task_review",
            CommandKind::MoveSubmission => "move_submission",
            CommandKind::ReviewCatalog => "review_catalog",
            CommandKind::InspectWorkspace => "inspect_workspace",
            CommandKind::ReviewFile => "review_file",
            CommandKind::ReviewFiles => "review_files",
            CommandKind::Submissions => "submissions",
            CommandKind::ReplaceSubmission => "replace_submission",
            CommandKind::PromoteSubmission => "promote_submission",
            CommandKind::Submit => "submit",
            CommandKind::Submission => "submission",
            CommandKind::CancelSubmission => "cancel_submission",
            CommandKind::LegacySessions => "legacy_sessions",
            CommandKind::ImportLegacy => "import_legacy",
            CommandKind::LegacyPage => "legacy_page",
            CommandKind::ExecuteInput => "execute_input",
            CommandKind::InspectTask => "inspect_task",
            CommandKind::ReadArtifact => "read_artifact",
            CommandKind::ArtifactFile => "artifact_file",
            CommandKind::ArtifactTree => "artifact_tree",
            CommandKind::RecentInputs => "recent_inputs",
            CommandKind::Info => "info",
            CommandKind::ShutdownIfIdle => "shutdown_if_idle",
            CommandKind::Sessions => "sessions",
            CommandKind::ForkSession => "fork_session",
            CommandKind::History => "history",
            CommandKind::HistoryText => "history_text",
            CommandKind::CreateSession => "create_session",
            CommandKind::Session => "session",
            CommandKind::Task => "task",
            CommandKind::RegisterProgram => "register_program",
            CommandKind::ExecuteContract => "execute_contract",
            CommandKind::ExecuteRequest => "execute_request",
            CommandKind::ResumeTask => "resume_task",
            CommandKind::Cancel => "cancel",
            CommandKind::Journal => "journal",
            CommandKind::Watch => "watch",
        }
    }
}

/// What an operator is answered with.
#[derive(Clone, Copy, Debug, PartialEq, Eq, Structural)]
pub enum ResponseKind {
    Monitor,
    Behavior,
    EventSource,
    Event,
    ReviewFeedback,
    TaskReview,
    ReviewCatalog,
    WorkspaceReview,
    ReviewFile,
    ReviewFiles,
    Submissions,
    Submission,
    LegacySessions,
    LegacyPage,
    ArtifactView,
    Artifact,
    RecentInputs,
    Info,
    Shutdown,
    Sessions,
    History,
    HistoryText,
    Session,
    Task,
    Program,
    TaskFinished,
    Cancelled,
    Journal,
    Error,
}

impl ResponseKind {
    /// The name that it has on the wire.
    pub open spec fn spec_name(self) -> Seq<char> {
        match self {
            ResponseKind::Monitor => "monitor"@,
            ResponseKind::Behavior => "behavior"@,
            ResponseKind::EventSource => "event_source"@,
            ResponseKind::Event => "event"@,
            ResponseKind::ReviewFeedback => "review_feedback"@,
            ResponseKind::TaskReview => "task_review"@,
            ResponseKind::ReviewCatalog => "review_catalog"@,
            ResponseKind::WorkspaceReview => "workspace_review"@,
            ResponseKind::ReviewFile => "review_file"@,
            ResponseKind::ReviewFiles => "review_files"@,
            ResponseKind::Submissions => "submissions"@,
            ResponseKind::Submission => "submission"@,
            ResponseKind::LegacySessions => "legacy_sessions"@,
            ResponseKind::LegacyPage => "legacy_page"@,
            ResponseKind::ArtifactView => "artifact_view"@,
            ResponseKind::Artifact => "artifact"@,
            ResponseKind::RecentInputs => "recent_inputs"@,
            ResponseKind::Info => "info"@,
            ResponseKind::Shutdown => "shutdown"@,
            ResponseKind::Sessions => "sessions"@,
            ResponseKind::History => "history"@,
            ResponseKind::HistoryText => "history_text"@,
            ResponseKind::Session => "session"@,
            ResponseKind::Task => "task"@,
            ResponseKind::Program => "program"@,
            ResponseKind::TaskFinished => "task_finished"@,
            ResponseKind::Cancelled => "cancelled"@,
            ResponseKind::Journal => "journal"@,
            ResponseKind::Error => "error"@,
        }
    }

    /// The name that it has on the wire.
    pub fn name(self) -> (r: &'static str)
        ensures
            r@ == self.spec_name(),
    {
        match self {
            ResponseKind::Monitor => "monitor",
            ResponseKind::Behavior => "behavior",
            ResponseKind::EventSource => "event_source",
            ResponseKind::Event => "event",
            ResponseKind::ReviewFeedback => "review_feedback",
            ResponseKind::TaskReview => "task_review",
            ResponseKind::ReviewCatalog => "review_catalog",
            ResponseKind::WorkspaceReview => "workspace_review",
            ResponseKind::ReviewFile => "review_file",
            ResponseKind::ReviewFiles => "review_files",
            ResponseKind::Submissions => "submissions",
            ResponseKind::Submission => "submission",
            ResponseKind::LegacySessions => "legacy_sessions",
            ResponseKind::LegacyPage => "legacy_page",
            ResponseKind::ArtifactView => "artifact_view",
            ResponseKind::Artifact => "artifact",
            ResponseKind::RecentInputs => "recent_inputs",
            ResponseKind::Info => "info",
            ResponseKind::Shutdown => "shutdown",
            ResponseKind::Sessions => "sessions",
            ResponseKind::History => "history",
            ResponseKind::HistoryText => "history_text",
            ResponseKind::Session => "session",
            ResponseKind::Task => "task",
            ResponseKind::Program => "program",
            ResponseKind::TaskFinished => "task_finished",
            ResponseKind::Cancelled => "cancelled",
            ResponseKind::Journal => "journal",
            ResponseKind::Error => "error",
        }
    }
}

/// How a request is handled.
#[derive(Clone, Copy, Debug, PartialEq, Eq, Structural)]
pub enum Handling {
    /// The service decides whether it shuts down.
    Shutdown,
    /// The client becomes a spectator.
    Watch,
    /// The client speaks another version.
    Unsupported,
    /// The host executes the command.
    Execute,
}

/// How a request of a version is handled. Any version may ask for a shutdown.
pub open spec fn handled(version: u32, kind: CommandKind) -> Handling {
    if kind == CommandKind::ShutdownIfIdle {
        Handling::Shutdown
    } else if version != PROTOCOL_VERSION {
        Handling::Unsupported
    } else if kind == CommandKind::Watch {
        Handling::Watch
    } else {
        Handling::Execute
    }
}

/// Decides how a request of a version is handled.
pub fn handling(version: u32, kind: CommandKind) -> (r: Handling)
    ensures
        r == handled(version, kind),
{
    if kind == CommandKind::ShutdownIfIdle {
        return Handling::Shutdown;
    }
    if version == PROTOCOL_VERSION && kind == CommandKind::Watch {
        return Handling::Watch;
    }
    if version != PROTOCOL_VERSION {
        Handling::Unsupported
    } else {
        Handling::Execute
    }
}

/// A client of another version is never made a spectator, nor is any command of it executed.
pub proof fn law_other_versions_are_refused(version: u32, kind: CommandKind)
    requires
        version != PROTOCOL_VERSION,
        kind != CommandKind::ShutdownIfIdle,
    ensures
        handled(version, kind) == Handling::Unsupported,
{
}

/// Whether a command holds one of the host's runs while it is executed.
pub open spec fn holds_run(kind: CommandKind) -> bool {
    kind == CommandKind::ExecuteInput
        || kind == CommandKind::ExecuteContract
        || kind == CommandKind::ExecuteRequest
        || kind == CommandKind::ResumeTask
}

/// What answers a command that the host executes.
pub open spec fn answered(kind: CommandKind) -> Option<ResponseKind> {
    match kind {
        CommandKind::MonitorReport => Some(ResponseKind::Monitor),
        CommandKind::MonitorSampling => Some(ResponseKind::Monitor),
        CommandKind::InstallReadBehavior => Some(ResponseKind::Behavior),
        CommandKind::RollbackReadBehavior => Some(ResponseKind::Behavior),
        CommandKind::RegisterEventSource => Some(ResponseKind::EventSource),
        CommandKind::EventSource => Some(ResponseKind::EventSource),
        CommandKind::DisableEventSource => Some(ResponseKind::EventSource),
        CommandKind::DeliverEvent => Some(ResponseKind::Event),
        CommandKind::InspectEvent => Some(ResponseKind::Event),
        CommandKind::CancelEvent => Some(ResponseKind::Event),
        CommandKind::RecordReview => Some(ResponseKind::ReviewFeedback),
        CommandKind::InspectSessionReview => Some(ResponseKind::WorkspaceReview),
        CommandKind::HandoffSession => Some(ResponseKind::Session),
        CommandKind::InspectTaskReview => Some(ResponseKind::TaskReview),
        CommandKind::MoveSubmission => Some(ResponseKind::Submission),
        CommandKind::ReviewCatalog => Some(ResponseKind::ReviewCatalog),
        CommandKind::InspectWorkspace => Some(ResponseKind::WorkspaceReview),
        CommandKind::ReviewFile => Some(ResponseKind::ReviewFile),
        CommandKind::ReviewFiles => Some(ResponseKind::ReviewFiles),
        CommandKind::Submissions => Some(ResponseKind::Submissions),
        CommandKind::ReplaceSubmission => Some(ResponseKind::Submission),
        CommandKind::PromoteSubmission => Some(ResponseKind::Submission),
        CommandKind::Submit => Some(ResponseKind::Submission),
        CommandKind::Submission => Some(ResponseKind::Submission),
        CommandKind::CancelSubmission => Some(ResponseKind::Submission),
        CommandKind::LegacySessions => Some(ResponseKind::LegacySessions),
        CommandKind::ImportLegacy => Some(ResponseKind::Session),
        CommandKind::LegacyPage => Some(ResponseKind::LegacyPage),
        CommandKind::ExecuteInput => Some(ResponseKind::TaskFinished),
        CommandKind::InspectTask => Some(ResponseKind::ArtifactView),
        CommandKind::ReadArtifact => Some(ResponseKind::Artifact),
        CommandKind::ArtifactFile => Some(ResponseKind::Artifact),
        CommandKind::ArtifactTree => Some(ResponseKind::Artifact),
        CommandKind::RecentInputs => Some(ResponseKind::RecentInputs),
        CommandKind::Info => Some(ResponseKind::Info),
        CommandKind::ShutdownIfIdle => None,
        CommandKind::Sessions => Some(ResponseKind::Sessions),
        CommandKind::ForkSession => Some(ResponseKind::Session),
        CommandKind::History => Some(ResponseKind::History),
        CommandKind::HistoryText => Some(ResponseKind::HistoryText),
        CommandKind::CreateSession => Some(ResponseKind::Session),
        CommandKind::Session => Some(ResponseKind::Session),
        CommandKind::Task => Some(ResponseKind::Task),
        CommandKind::RegisterProgram => Some(ResponseKind::Program),
        CommandKind::ExecuteContract => Some(ResponseKind::TaskFinished),
        CommandKind::ExecuteRequest => Some(ResponseKind::TaskFinished),
        CommandKind::ResumeTask => Some(ResponseKind::TaskFinished),
        CommandKind::Cancel => Some(ResponseKind::Cancelled),
        CommandKind::Journal => Some(ResponseKind::Journal),
        CommandKind::Watch => None,
    }
}

/// What a command leads to: an answer, or the message of an error.
pub open spec fn begun(kind: CommandKind, free: bool) -> Result<Option<ResponseKind>, Seq<char>> {
    if holds_run(kind) && !free {
        Err("host execution capacity is occupied; retry this request ID later"@)
    } else {
        Ok(answered(kind))
    }
}

/// Begins a command, when a run is free or not. The shutdown and the watch have no answer
/// here: they are not executed.
pub fn begin(kind: CommandKind, free: bool) -> (r: Result<Option<ResponseKind>, &'static str>)
    ensures
        match (r, begun(kind, free)) {
            (Ok(answer), Ok(expected)) => answer == expected,
            (Err(message), Err(expected)) => message@ == expected,
            _ => false,
        },
{
    if needs_run(kind) && !free {
        return Err("host execution capacity is occupied; retry this request ID later");
    }
    Ok(response_to(kind))
}

/// Whether a command holds one of the host's runs while it is executed.
pub fn needs_run(kind: CommandKind) -> (r: bool)
    ensures
        r == holds_run(kind),
{
    kind == CommandKind::ExecuteInput
        || kind == CommandKind::ExecuteContract
        || kind == CommandKind::ExecuteRequest
        || kind == CommandKind::ResumeTask
}

/// What answers a command that the host executes.
pub fn response_to(kind: CommandKind) -> (r: Option<ResponseKind>)
    ensures
        r == answered(kind),
{
    match kind {
        CommandKind::MonitorReport => Some(ResponseKind::Monitor),
        CommandKind::MonitorSampling => Some(ResponseKind::Monitor),
        CommandKind::InstallReadBehavior => Some(ResponseKind::Behavior),
        CommandKind::RollbackReadBehavior => Some(ResponseKind::Behavior),
        CommandKind::RegisterEventSource => Some(ResponseKind::EventSource),
        CommandKind::EventSource => Some(ResponseKind::EventSource),
        CommandKind::DisableEventSource => Some(ResponseKind::EventSource),
        CommandKind::DeliverEvent => Some(ResponseKind::Event),
        CommandKind::InspectEvent => Some(ResponseKind::Event),
        CommandKind::CancelEvent => Some(ResponseKind::Event),
        CommandKind::RecordReview => Some(ResponseKind::ReviewFeedback),
        CommandKind::InspectSessionReview => Some(ResponseKind::WorkspaceReview),
        CommandKind::HandoffSession => Some(ResponseKind::Session),
        CommandKind::InspectTaskReview => Some(ResponseKind::TaskReview),
        CommandKind::MoveSubmission => Some(ResponseKind::Submission),
        CommandKind::ReviewCatalog => Some(ResponseKind::ReviewCatalog),
        CommandKind::InspectWorkspace => Some(ResponseKind::WorkspaceReview),
        CommandKind::ReviewFile => Some(ResponseKind::ReviewFile),
        CommandKind::ReviewFiles => Some(ResponseKind::ReviewFiles),
        CommandKind::Submissions => Some(ResponseKind::Submissions),
        CommandKind::ReplaceSubmission => Some(ResponseKind::Submission),
        CommandKind::PromoteSubmission => Some(ResponseKind::Submission),
        CommandKind::Submit => Some(ResponseKind::Submission),
        CommandKind::Submission => Some(ResponseKind::Submission),
        CommandKind::CancelSubmission => Some(ResponseKind::Submission),
        CommandKind::LegacySessions => Some(ResponseKind::LegacySessions),
        CommandKind::ImportLegacy => Some(ResponseKind::Session),
        CommandKind::LegacyPage => Some(ResponseKind::LegacyPage),
        CommandKind::ExecuteInput => Some(ResponseKind::TaskFinished),
        CommandKind::InspectTask => Some(ResponseKind::ArtifactView),
        CommandKind::ReadArtifact => Some(ResponseKind::Artifact),
        CommandKind::ArtifactFile => Some(ResponseKind::Artifact),
        CommandKind::ArtifactTree => Some(ResponseKind::Artifact),
        CommandKind::RecentInputs => Some(ResponseKind::RecentInputs),
        CommandKind::Info => Some(ResponseKind::Info),
        CommandKind::ShutdownIfIdle => None,
        CommandKind::Sessions => Some(ResponseKind::Sessions),
        CommandKind::ForkSession => Some(ResponseKind::Session),
        CommandKind::History => Some(ResponseKind::History),
        CommandKind::HistoryText => Some(ResponseKind::HistoryText),
        CommandKind::CreateSession => Some(ResponseKind::Session),
        CommandKind::Session => Some(ResponseKind::Session),
        CommandKind::Task => Some(ResponseKind::Task),
        CommandKind::RegisterProgram => Some(ResponseKind::Program),
        CommandKind::ExecuteContract => Some(ResponseKind::TaskFinished),
        CommandKind::ExecuteRequest => Some(ResponseKind::TaskFinished),
        CommandKind::ResumeTask => Some(ResponseKind::TaskFinished),
        CommandKind::Cancel => Some(ResponseKind::Cancelled),
        CommandKind::Journal => Some(ResponseKind::Journal),
        CommandKind::Watch => None,
    }
}

/// Every command that is executed has an answer.
pub proof fn law_executed_commands_are_answered(version: u32, kind: CommandKind)
    requires
        handled(version, kind) == Handling::Execute,
    ensures
        answered(kind) is Some,
{
}

/// What a session was admitted under.
#[derive(Clone, Copy, Debug, PartialEq, Eq, Structural)]
pub struct SessionAdmissionView {
    pub version: u32,
    pub binding: HarnessBinding,
    pub provenance: HarnessProvenance,
    pub authority: Digest,
    pub request_digest: Digest,
}

/// What a spectator was sent: the last journal record, and the warnings of the host.
pub struct Watch {
    pub after: u64,
    pub session: Option<SessionId>,
    pub warnings: Option<Vec<String>>,
}

/// What reaches the host while a spectator waits.
#[derive(Clone, Copy, Debug, PartialEq, Eq, Structural)]
pub enum WatchEvent {
    /// The host shuts down.
    Stopped,
    /// The client closed its side.
    ClientClosed,
    /// The client sent something.
    ClientSent,
    /// Time passed.
    Elapsed,
    /// The warnings changed.
    Warned,
    WarningsClosed,
    /// Part of an answer that is still being made.
    Preview,
    PreviewGap,
    OtherUpdate,
    PreviewsLagged { dropped: u64 },
    PreviewsClosed,
    /// An event of a subagent of a session.
    Subagent { session: SessionId },
    SubagentsLagged,
    SubagentsClosed,
}

/// What is done for a spectator.
#[derive(Clone, Copy, Debug, PartialEq, Eq, Structural)]
pub enum WatchAction {
    Continue,
    SendPreview,
    SendGap { dropped: u64 },
    SendSubagent,
    /// All that is known of the subagents of a session is sent.
    SendSnapshot { session: SessionId },
    Finish,
    /// The client may send nothing more.
    Refuse,
}

/// What an event does to a spectator of a session, or of all sessions.
pub open spec fn reaction(session: Option<SessionId>, event: WatchEvent) -> WatchAction {
    match event {
        WatchEvent::Stopped | WatchEvent::ClientClosed | WatchEvent::WarningsClosed
        | WatchEvent::PreviewsClosed | WatchEvent::SubagentsClosed => WatchAction::Finish,
        WatchEvent::ClientSent => WatchAction::Refuse,
        WatchEvent::Elapsed | WatchEvent::Warned | WatchEvent::OtherUpdate => WatchAction::Continue,
        WatchEvent::Preview => WatchAction::SendPreview,
        WatchEvent::PreviewGap => WatchAction::SendGap { dropped: 1 },
        WatchEvent::PreviewsLagged { dropped } => WatchAction::SendGap { dropped },
        WatchEvent::Subagent { session: owner } => if session is None || session == Some(owner) {
            WatchAction::SendSubagent
        } else {
            WatchAction::Continue
        },
        WatchEvent::SubagentsLagged => match session {
            Some(session) => WatchAction::SendSnapshot { session },
            None => WatchAction::Continue,
        },
    }
}

/// Whether a spectator was sent these warnings last.
pub open spec fn knows(watch: Watch, warnings: Seq<Seq<char>>) -> bool {
    watch.warnings is Some && shown(watch.warnings->0@) == warnings
}

fn same_list(a: &Vec<String>, b: &Vec<String>) -> (r: bool)
    ensures
        r == (shown(a@) == shown(b@)),
{
    if a.len() != b.len() {
        assert(shown(a@).len() != shown(b@).len());
        return false;
    }
    let mut i: usize = 0;
    while i < a.len()
        invariant
            i <= a@.len() == b@.len(),
            forall|j: int| 0 <= j < i ==> #[trigger] a@[j]@ == b@[j]@,
        decreases a@.len() - i,
    {
        if !same_text(a[i].as_str(), b[i].as_str()) {
            assert(shown(a@)[i as int] != shown(b@)[i as int]);
            return false;
        }
        i += 1;
    }
    assert(shown(a@) =~= shown(b@));
    true
}

impl Watch {
    /// A spectator from a journal record on, of a session or of all.
    pub fn new(after: u64, session: Option<SessionId>) -> (r: Self)
        ensures
            r == (Watch { after, session, warnings: None }),
    {
        Watch { after, session, warnings: None }
    }

    /// Takes the host's warnings. Answers whether the spectator has to be sent them.
    pub fn warn(&mut self, warnings: Vec<String>) -> (r: bool)
        ensures
            r == !knows(*old(self), shown(warnings@)),
            knows(*final(self), shown(warnings@)),
            final(self).after == old(self).after,
            final(self).session == old(self).session,
    {
        let known = match &self.warnings {
            Some(sent) => same_list(sent, &warnings),
            None => false,
        };
        self.warnings = Some(warnings);
        !known
    }

    /// Takes the numbers of the records that the spectator was sent. Answers whether there
    /// were any: then more are looked for before anything is awaited.
    pub fn sent(&mut self, sequences: &Vec<u64>) -> (r: bool)
        ensures
            r == (sequences@.len() > 0),
            *final(self) == if r {
                Watch { after: sequences@.last(), ..*old(self) }
            } else {
                *old(self)
            },
    {
        let count = sequences.len();
        if count == 0 {
            return false;
        }
        self.after = sequences[count - 1];
        true
    }

    /// What an event does to the spectator.
    pub fn react(&self, event: WatchEvent) -> (r: WatchAction)
        ensures
            r == reaction(self.session, event),
    {
        match event {
            WatchEvent::Stopped | WatchEvent::ClientClosed | WatchEvent::WarningsClosed
            | WatchEvent::PreviewsClosed | WatchEvent::SubagentsClosed => WatchAction::Finish,
            WatchEvent::ClientSent => WatchAction::Refuse,
            WatchEvent::Elapsed
            | WatchEvent::Warned
            | WatchEvent::OtherUpdate => WatchAction::Continue,
            WatchEvent::Preview => WatchAction::SendPreview,
            WatchEvent::PreviewGap => WatchAction::SendGap { dropped: 1 },
            WatchEvent::PreviewsLagged { dropped } => WatchAction::SendGap { dropped },
            WatchEvent::Subagent { session: owner } => match self.session {
                None => WatchAction::SendSubagent,
                Some(session) => if session == owner {
                    WatchAction::SendSubagent
                } else {
                    WatchAction::Continue
                },
            },
            WatchEvent::SubagentsLagged => match self.session {
                Some(session) => WatchAction::SendSnapshot { session },
                None => WatchAction::Continue,
            },
        }
    }
}

/// A spectator of one session is sent no subagent event of another.
pub proof fn law_spectators_see_their_session(
    session: SessionId,
    other: SessionId,
)
    requires
        session != other,
    ensures
        reaction(Some(session), WatchEvent::Subagent { session: other }) == WatchAction::Continue,
{
}

} // verus!
