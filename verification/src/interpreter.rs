//! Session-local computation: what is kept of it, and the bounds that it runs under.
use crate::canonical::{push_digest, push_uuid, quoted};
use crate::digest::{digest_of_text, Digest};
use crate::feedback::SessionId;
use crate::json::{notation, Json, JsonModel};
use crate::manual::TaskId;
use crate::text::{decimal, push_decimal, same_text};
use crate::text_map::{has_key, key_at, keys_ascend, lemma_value_at, value_of, Entry, TextMap};
use crate::uuid::Uuid;
use vstd::prelude::*;

verus! {

/// The most bytes of a value that crosses between a cell and its host.
pub const MAX_VALUE_BYTES: usize = 4194304;

/// How many calls a cell may have open.
pub const MAX_PENDING_CALLS: usize = 32;

/// The values of a session, bound to it and to what computed them.
#[derive(Debug)]
pub struct Checkpoint {
    pub version: u32,
    pub session: SessionId,
    pub runtime: Digest,
    pub source: Digest,
    pub values: Json,
    pub digest: Digest,
}

/// What identifies a checkpoint.
pub open spec fn checkpoint_json(
    session: SessionId,
    runtime: Digest,
    source: Digest,
    values: JsonModel,
) -> Seq<char> {
    "[1,"@ + quoted(session.0.text()) + ","@ + quoted(runtime.text()) + ","@ + quoted(source.text())
        + ","@ + notation(values) + "]"@
}

/// Whether a checkpoint is that of a session, made by a runtime from a source, unaltered.
pub open spec fn checkpoint_sound(
    checkpoint: Checkpoint,
    session: SessionId,
    runtime: Digest,
    source: Digest,
) -> bool {
    &&& checkpoint.version == 1
    &&& checkpoint.session == session
    &&& checkpoint.runtime == runtime
    &&& checkpoint.source == source
    &&& checkpoint.digest == digest_of_text(
        checkpoint_json(session, runtime, source, checkpoint.values@),
    )
}

fn checkpoint_digest(session: SessionId, runtime: Digest, source: Digest, values: &Json) -> (r:
    Digest)
    ensures
        r == digest_of_text(checkpoint_json(session, runtime, source, values@)),
{
    let mut json = "[1,".to_owned();
    push_uuid(&mut json, &session.0);
    json.push_str(",");
    push_digest(&mut json, &runtime);
    json.push_str(",");
    push_digest(&mut json, &source);
    json.push_str(",");
    json.push_str(values.to_text().as_str());
    json.push_str("]");
    Digest::of_text(json.as_str())
}

impl Checkpoint {
    /// The checkpoint of a session, made by a runtime from a source.
    pub fn new(session: SessionId, runtime: Digest, source: Digest, values: Json) -> (r: Self)
        ensures
            checkpoint_sound(r, session, runtime, source),
            r.values == values,
    {
        let digest = checkpoint_digest(session, runtime, source, &values);
        Checkpoint { version: 1, session, runtime, source, values, digest }
    }

    /// Checks that a checkpoint is that of a session, made by a runtime from a source.
    pub fn validate(&self, session: SessionId, runtime: Digest, source: Digest) -> (r: Result<
        (),
        &'static str,
    >)
        ensures
            r == if checkpoint_sound(*self, session, runtime, source) {
                Ok::<(), &'static str>(())
            } else {
                Err("checkpoint version, session, runtime, source or digest mismatch")
            },
    {
        if self.version != 1 || self.session != session || self.runtime != runtime || self.source
            != source || self.digest != checkpoint_digest(session, runtime, source, &self.values) {
            return Err("checkpoint version, session, runtime, source or digest mismatch");
        }
        Ok(())
    }
}

/// Where a checkpoint is kept.
#[derive(Clone, Copy, Debug, PartialEq, Eq, Structural)]
pub struct CheckpointRef {
    pub artifact: Digest,
    pub source: Digest,
}

/// What happens in a session's interpreter.
#[allow(inconsistent_fields)]
#[derive(Debug, PartialEq, Eq)]
pub enum InterpreterEvent {
    Started {
        cell: Uuid,
        task: TaskId,
        outer_call: String,
        source: Digest,
        runtime: Digest,
        generation: u64,
        environment: Digest,
    },
    CallStarted { cell: Uuid, ordinal: u64, call_id: String, name: String, arguments: Digest },
    CallSettled { cell: Uuid, ordinal: u64, result: Digest },
    Settled { cell: Uuid, result: Digest, checkpoint: Option<CheckpointRef>, state_lost: bool },
}

/// Where a cell stands.
#[derive(Clone, Copy, Debug, PartialEq, Eq, Structural)]
pub enum CellStatus {
    Pending,
    Settled { result: Digest },
    Interrupted,
}

impl CellStatus {
    pub fn pending(self) -> (r: bool)
        ensures
            r == (self is Pending),
    {
        match self {
            CellStatus::Pending => true,
            _ => false,
        }
    }
}

/// A cell: whom it runs for, and where it stands.
#[derive(Clone, Copy, Debug, PartialEq, Eq, Structural)]
pub struct CellState {
    pub request: Uuid,
    pub task: TaskId,
    pub status: CellStatus,
}

/// The cells of a session and their open calls. Cells are found by the text of their
/// identifier, calls by theirs.
pub struct InterpreterState {
    pub checkpoint: Option<CheckpointRef>,
    pub cells: TextMap<CellState>,
    pub pending_calls: TextMap<Uuid>,
}

/// The text that a call of a cell is found by.
pub open spec fn call_key(cell: Uuid, ordinal: u64) -> Seq<char> {
    cell.text() + "/"@ + decimal(ordinal as nat)
}

fn call_text(cell: Uuid, ordinal: u64) -> (r: String)
    ensures
        r@ == call_key(cell, ordinal),
{
    let mut text = cell.to_string();
    text.push_str("/");
    push_decimal(&mut text, ordinal);
    text
}

/// What an interruption makes of a cell.
pub open spec fn interrupted(cell: CellState, request: Uuid) -> CellState {
    if cell.request == request && cell.status is Pending {
        CellState { status: CellStatus::Interrupted, ..cell }
    } else {
        cell
    }
}

/// What stays of the open calls when a cell settles.
pub open spec fn unless_owned(owner: Option<Uuid>, cell: Uuid) -> Option<Uuid> {
    if owner == Some(cell) {
        None
    } else {
        owner
    }
}

proof fn lemma_absent<V>(entries: Seq<Entry<V>>, key: Seq<char>)
    requires
        forall|j: int| 0 <= j < entries.len() ==> (#[trigger] entries[j]).key@ != key,
    ensures
        value_of(entries, key) is None,
{
    if has_key(entries, key) {
        let j = choose|j: int| key_at(entries, key, j);
        assert(entries[j].key@ == key);
    }
}

fn interrupt_cells(cells: &TextMap<CellState>, request: Uuid) -> (r: TextMap<CellState>)
    ensures
        forall|key: Seq<char>|
            #[trigger] value_of(r@, key) == match value_of(cells@, key) {
                Some(cell) => Some(interrupted(cell, request)),
                None => None,
            },
{
    let mut next: TextMap<CellState> = TextMap::new();
    let count = cells.len();
    let mut i: usize = 0;
    proof {
        assert forall|key: Seq<char>| value_of(next@, key) is None by {
            lemma_absent(next@, key);
        }
    }
    while i < count
        invariant
            i <= count == cells@.len(),
            keys_ascend(cells@),
            forall|j: int|
                0 <= j < i ==> value_of(next@, (#[trigger] cells@[j]).key@) == Some(
                    interrupted(cells@[j].value, request),
                ),
            forall|key: Seq<char>|
                (forall|j: int| 0 <= j < i ==> (#[trigger] cells@[j]).key@ != key)
                    ==> #[trigger] value_of(next@, key) is None,
        decreases count - i,
    {
        let cell = *cells.value(i);
        let status = if cell.request == request && cell.status.pending() {
            CellStatus::Interrupted
        } else {
            cell.status
        };
        let ghost before = next@;
        next.insert(
            cells.key(i).to_owned(),
            CellState { request: cell.request, task: cell.task, status },
        );
        proof {
            let key = cells@[i as int].key@;
            assert forall|j: int| 0 <= j < i + 1 implies value_of(
                next@,
                (#[trigger] cells@[j]).key@,
            ) == Some(interrupted(cells@[j].value, request)) by {
                if j < i {
                    crate::text::lemma_text_precedes_total(cells@[j].key@, key);
                    assert(cells@[j].key@ != key);
                    assert(value_of(before, cells@[j].key@) == Some(
                        interrupted(cells@[j].value, request),
                    ));
                }
            }
            assert forall|other: Seq<char>|
                (forall|j: int| 0 <= j < i + 1 ==> (#[trigger] cells@[j]).key@ != other) implies
                #[trigger] value_of(next@, other) is None by {
                assert(cells@[i as int].key@ != other);
                assert(value_of(before, other) is None);
            }
        }
        i += 1;
    }
    proof {
        assert forall|key: Seq<char>|
            #[trigger] value_of(next@, key) == match value_of(cells@, key) {
                Some(cell) => Some(interrupted(cell, request)),
                None => None,
            } by {
            if has_key(cells@, key) {
                let j = choose|j: int| key_at(cells@, key, j);
                lemma_value_at(cells@, j);
                assert(cells@[j].key@ == key);
            } else {
                assert forall|j: int| 0 <= j < cells@.len() implies (
                #[trigger] cells@[j]).key@ != key by {
                    if cells@[j].key@ == key {
                        assert(key_at(cells@, key, j));
                    }
                }
            }
        }
    }
    next
}

/// The open calls without those that a cell owns, and without one of its calls.
fn keep_calls(calls: &TextMap<Uuid>, owner: Option<Uuid>, dropped: Option<&str>) -> (r: TextMap<
    Uuid,
>)
    ensures
        forall|key: Seq<char>|
            #[trigger] value_of(r@, key) == kept(value_of(calls@, key), key, owner, dropped),
{
    let mut next: TextMap<Uuid> = TextMap::new();
    let count = calls.len();
    let mut i: usize = 0;
    proof {
        assert forall|key: Seq<char>| value_of(next@, key) is None by {
            lemma_absent(next@, key);
        }
    }
    while i < count
        invariant
            i <= count == calls@.len(),
            keys_ascend(calls@),
            forall|j: int|
                0 <= j < i ==> value_of(next@, (#[trigger] calls@[j]).key@) == kept(
                    Some(calls@[j].value),
                    calls@[j].key@,
                    owner,
                    dropped,
                ),
            forall|key: Seq<char>|
                (forall|j: int| 0 <= j < i ==> (#[trigger] calls@[j]).key@ != key)
                    ==> #[trigger] value_of(next@, key) is None,
        decreases count - i,
    {
        let cell = *calls.value(i);
        let owned = match owner {
            Some(owner) => cell == owner,
            None => false,
        };
        let named = match dropped {
            Some(dropped) => same_text(calls.key(i), dropped),
            None => false,
        };
        let ghost before = next@;
        let ghost key = calls@[i as int].key@;
        proof {
            assert forall|j: int| 0 <= j < i implies (#[trigger] calls@[j]).key@ != key by {
                crate::text::lemma_text_precedes_total(calls@[j].key@, key);
            }
            assert(value_of(before, key) is None);
        }
        if !owned && !named {
            next.insert(calls.key(i).to_owned(), cell);
        }
        proof {
            assert forall|j: int| 0 <= j < i + 1 implies value_of(
                next@,
                (#[trigger] calls@[j]).key@,
            ) == kept(Some(calls@[j].value), calls@[j].key@, owner, dropped) by {
                if j < i {
                    assert(calls@[j].key@ != key);
                    assert(value_of(before, calls@[j].key@) == kept(
                        Some(calls@[j].value),
                        calls@[j].key@,
                        owner,
                        dropped,
                    ));
                }
            }
            assert forall|other: Seq<char>|
                (forall|j: int| 0 <= j < i + 1 ==> (#[trigger] calls@[j]).key@ != other) implies
                #[trigger] value_of(next@, other) is None by {
                assert(calls@[i as int].key@ != other);
                assert(value_of(before, other) is None);
            }
        }
        i += 1;
    }
    proof {
        assert forall|key: Seq<char>|
            #[trigger] value_of(next@, key) == kept(value_of(calls@, key), key, owner, dropped) by {
            if has_key(calls@, key) {
                let j = choose|j: int| key_at(calls@, key, j);
                lemma_value_at(calls@, j);
                assert(calls@[j].key@ == key);
            } else {
                assert forall|j: int| 0 <= j < calls@.len() implies (
                #[trigger] calls@[j]).key@ != key by {
                    if calls@[j].key@ == key {
                        assert(key_at(calls@, key, j));
                    }
                }
            }
        }
    }
    next
}

/// What stays of an open call.
pub open spec fn kept(
    found: Option<Uuid>,
    key: Seq<char>,
    owner: Option<Uuid>,
    dropped: Option<&str>,
) -> Option<Uuid> {
    if owner is Some && found == owner {
        None
    } else if dropped is Some && dropped->0@ == key {
        None
    } else {
        found
    }
}

/// What an event of a request makes of the state.
pub open spec fn applied(
    before: InterpreterState,
    request: Uuid,
    event: InterpreterEvent,
    after: InterpreterState,
) -> bool {
    match event {
        InterpreterEvent::Started { cell, task, .. } => {
            &&& after.checkpoint == before.checkpoint
            &&& after.pending_calls == before.pending_calls
            &&& forall|key: Seq<char>|
                #[trigger] value_of(after.cells@, key) == if key == cell.text() {
                    Some(CellState { request, task, status: CellStatus::Pending })
                } else {
                    value_of(before.cells@, key)
                }
        },
        InterpreterEvent::Settled { cell, result, checkpoint, .. } => {
            &&& after.checkpoint == if checkpoint is Some {
                checkpoint
            } else {
                before.checkpoint
            }
            &&& forall|key: Seq<char>|
                #[trigger] value_of(after.cells@, key) == match value_of(
                    before.cells@,
                    key,
                ) {
                    Some(state) => if key == cell.text() {
                        Some(
                            CellState { status: CellStatus::Settled { result }, ..state },
                        )
                    } else {
                        Some(state)
                    },
                    None => None,
                }
            &&& forall|key: Seq<char>|
                #[trigger] value_of(after.pending_calls@, key) == unless_owned(
                    value_of(before.pending_calls@, key),
                    cell,
                )
        },
        InterpreterEvent::CallStarted { cell, call_id, .. } => {
            &&& after.checkpoint == before.checkpoint
            &&& after.cells == before.cells
            &&& forall|key: Seq<char>|
                #[trigger] value_of(after.pending_calls@, key) == if key
                    == call_id@ {
                    Some(cell)
                } else {
                    value_of(before.pending_calls@, key)
                }
        },
        InterpreterEvent::CallSettled { cell, ordinal, .. } => {
            &&& after.checkpoint == before.checkpoint
            &&& after.cells == before.cells
            &&& forall|key: Seq<char>|
                #[trigger] value_of(after.pending_calls@, key) == if key
                    == call_key(cell, ordinal) {
                    None
                } else {
                    value_of(before.pending_calls@, key)
                }
        },
    }
}

/// What the interruption of a request makes of the state.
pub open spec fn interruption(
    before: InterpreterState,
    request: Uuid,
    after: InterpreterState,
) -> bool {
    &&& after.checkpoint == before.checkpoint
    &&& after.pending_calls == before.pending_calls
    &&& forall|key: Seq<char>|
        #[trigger] value_of(after.cells@, key) == match value_of(before.cells@, key) {
            Some(cell) => Some(interrupted(cell, request)),
            None => None,
        }
}

/// Whether a call is open in a pending cell of a request and its task.
pub open spec fn admitted(
    state: InterpreterState,
    call_id: Seq<char>,
    request: Uuid,
    task: TaskId,
) -> bool {
    match value_of(state.pending_calls@, call_id) {
        None => false,
        Some(cell) => match value_of(state.cells@, cell.text()) {
            None => false,
            Some(found) => found.request == request && found.task == task && found.status
                is Pending,
        },
    }
}

/// No call of a cell stays open when it settles.
pub proof fn law_settled_cells_have_no_calls(
    before: InterpreterState,
    request: Uuid,
    event: InterpreterEvent,
    after: InterpreterState,
    call_id: Seq<char>,
)
    requires
        event is Settled,
        applied(before, request, event, after),
    ensures
        value_of(after.pending_calls@, call_id) != Some(event->Settled_cell),
{
}

/// No call of a request is taken after it was interrupted.
pub proof fn law_interrupted_requests_make_no_calls(
    before: InterpreterState,
    request: Uuid,
    after: InterpreterState,
    call_id: Seq<char>,
    task: TaskId,
)
    requires
        interruption(before, request, after),
    ensures
        !admitted(after, call_id, request, task),
{
}

impl InterpreterState {
    pub fn new() -> (r: Self)
        ensures
            r.checkpoint is None,
            r.cells@ == Seq::<Entry<CellState>>::empty(),
            r.pending_calls@ == Seq::<Entry<Uuid>>::empty(),
    {
        InterpreterState {
            checkpoint: None,
            cells: TextMap::new(),
            pending_calls: TextMap::new(),
        }
    }

    pub fn is_empty(&self) -> (r: bool)
        ensures
            r == (self.cells@.len() == 0 && self.checkpoint is None),
    {
        self.cells.len() == 0 && self.checkpoint.is_none()
    }

    /// Interrupts the pending cells of a request.
    pub fn interrupt(&mut self, request: Uuid)
        ensures
            interruption(*old(self), request, *final(self)),
    {
        self.cells = interrupt_cells(&self.cells, request);
    }

    /// Whether a call is open in a pending cell of a request and its task.
    pub fn admits(&self, call_id: &str, request: Uuid, task: TaskId) -> (r: bool)
        ensures
            r == admitted(*self, call_id@, request, task),
    {
        match self.pending_calls.get(call_id) {
            None => false,
            Some(cell) => match self.cells.get(cell.to_string().as_str()) {
                None => false,
                Some(state) => state.request == request && state.task == task
                    && state.status.pending(),
            },
        }
    }

    /// Takes an event of a request.
    pub fn apply(&mut self, request: Uuid, event: &InterpreterEvent)
        ensures
            applied(*old(self), request, *event, *final(self)),
    {
        match event {
            InterpreterEvent::Started { cell, task, .. } => {
                self.cells.insert(
                    cell.to_string(),
                    CellState { request, task: *task, status: CellStatus::Pending },
                );
            },
            InterpreterEvent::Settled { cell, result, checkpoint, .. } => {
                let name = cell.to_string();
                let found = match self.cells.get(name.as_str()) {
                    Some(state) => Some(*state),
                    None => None,
                };
                match found {
                    Some(state) => {
                        self.cells.insert(
                            name,
                            CellState {
                                request: state.request,
                                task: state.task,
                                status: CellStatus::Settled { result: *result },
                            },
                        );
                    },
                    None => {},
                }
                self.pending_calls = keep_calls(&self.pending_calls, Some(*cell), None);
                match checkpoint {
                    Some(checkpoint) => {
                        self.checkpoint = Some(*checkpoint);
                    },
                    None => {},
                }
            },
            InterpreterEvent::CallStarted { cell, call_id, .. } => {
                self.pending_calls.insert(call_id.clone(), *cell);
            },
            InterpreterEvent::CallSettled { cell, ordinal, .. } => {
                let name = call_text(*cell, *ordinal);
                self.pending_calls = keep_calls(&self.pending_calls, None, Some(name.as_str()));
            },
        }
    }
}

/// A checkpoint is accepted only for the session, the runtime and the source that it was
/// made for: one that is accepted for two of each was made for the same.
pub proof fn law_checkpoints_are_bound(
    checkpoint: Checkpoint,
    session: SessionId,
    runtime: Digest,
    source: Digest,
    other_session: SessionId,
    other_runtime: Digest,
    other_source: Digest,
)
    requires
        checkpoint_sound(checkpoint, session, runtime, source),
        checkpoint_sound(checkpoint, other_session, other_runtime, other_source),
    ensures
        session == other_session,
        runtime == other_runtime,
        source == other_source,
{
}

/// The bounds that a cell runs under.
#[derive(Clone, Copy, Debug, PartialEq, Eq, Structural)]
pub struct VmLimits {
    pub memory: usize,
    pub cpu_ns: u128,
    pub ticks: u64,
}

impl Default for VmLimits {
    fn default() -> (r: Self)
        ensures
            r == (VmLimits { memory: 33554432, cpu_ns: 1_000_000_000, ticks: 1000000 }),
    {
        VmLimits { memory: 33554432, cpu_ns: 1_000_000_000, ticks: 1000000 }
    }
}

/// What a cell has used. Waiting for its host does not count.
#[derive(Clone, Copy, Debug, PartialEq, Eq, Structural)]
pub struct Budget {
    pub elapsed_ns: u128,
    pub ticks: u64,
}

/// The time that a cell has used, when it runs since so long.
pub open spec fn used_ns(budget: Budget, running_ns: u128) -> int {
    budget.elapsed_ns + running_ns
}

impl Budget {
    pub fn new() -> (r: Self)
        ensures
            r == (Budget { elapsed_ns: 0, ticks: 0 }),
    {
        Budget { elapsed_ns: 0, ticks: 0 }
    }

    /// Counts a tick of a cell that runs since so long. Answers whether it has to stop.
    pub fn tick(&mut self, cancelled: bool, running_ns: u128, limits: &VmLimits) -> (r: bool)
        ensures
            final(self).elapsed_ns == old(self).elapsed_ns,
            final(self).ticks == if old(self).ticks < u64::MAX {
                old(self).ticks + 1
            } else {
                u64::MAX as int
            },
            r == (cancelled || final(self).ticks > limits.ticks || used_ns(*old(self), running_ns)
                >= limits.cpu_ns),
    {
        self.ticks = self.ticks.saturating_add(1);
        cancelled || self.ticks > limits.ticks || self.spent(running_ns, limits)
    }

    /// Whether a cell that runs since so long has used up its time.
    pub fn spent(&self, running_ns: u128, limits: &VmLimits) -> (r: bool)
        ensures
            r == (used_ns(*self, running_ns) >= limits.cpu_ns),
    {
        self.elapsed_ns >= limits.cpu_ns || running_ns >= limits.cpu_ns - self.elapsed_ns
    }

    /// Stops the clock of a cell that ran so long and now waits for its host.
    pub fn pause(&mut self, running_ns: u128)
        ensures
            final(self).ticks == old(self).ticks,
            final(self).elapsed_ns == if used_ns(*old(self), running_ns) <= u128::MAX {
                used_ns(*old(self), running_ns)
            } else {
                u128::MAX as int
            },
    {
        self.elapsed_ns = self.elapsed_ns.saturating_add(running_ns);
    }
}

/// Why a cell fails.
#[derive(Clone, Copy, Debug, PartialEq, Eq, Structural)]
pub enum CellFailure {
    Cancelled,
    CancelledInCall,
    CpuExceeded,
    CallInterrupted,
    CallWindow,
    CheckpointTooLarge,
    ResultTooLarge,
    Unresolved,
}

impl CellFailure {
    pub open spec fn spec_message(self) -> Seq<char> {
        match self {
            CellFailure::Cancelled => "cell cancelled"@,
            CellFailure::CancelledInCall => "cell cancelled; inspect inner receipts"@,
            CellFailure::CpuExceeded => "VM CPU budget exceeded"@,
            CellFailure::CallInterrupted => "host call interrupted; effects may be unresolved"@,
            CellFailure::CallWindow => "host arguments or pending-call window exceeds limit"@,
            CellFailure::CheckpointTooLarge => "checkpoint exceeds limit"@,
            CellFailure::ResultTooLarge => "cell result exceeds limit"@,
            CellFailure::Unresolved => "cell has an unresolved promise without a host operation"@,
        }
    }

    pub fn message(self) -> (r: &'static str)
        ensures
            r@ == self.spec_message(),
    {
        match self {
            CellFailure::Cancelled => "cell cancelled",
            CellFailure::CancelledInCall => "cell cancelled; inspect inner receipts",
            CellFailure::CpuExceeded => "VM CPU budget exceeded",
            CellFailure::CallInterrupted => "host call interrupted; effects may be unresolved",
            CellFailure::CallWindow => "host arguments or pending-call window exceeds limit",
            CellFailure::CheckpointTooLarge => "checkpoint exceeds limit",
            CellFailure::ResultTooLarge => "cell result exceeds limit",
            CellFailure::Unresolved => "cell has an unresolved promise without a host operation",
        }
    }
}

/// What a running cell does next.
#[derive(Clone, Copy, Debug, PartialEq, Eq, Structural)]
pub enum CellStep {
    /// A job of the runtime is run.
    RunJob,
    /// The reply to the oldest open call is awaited.
    AwaitReply,
    /// The result is taken.
    Finish,
}

/// The run of a cell: the calls that it started, and those that wait for a reply.
#[derive(Clone, Copy, Debug, PartialEq, Eq, Structural)]
pub struct CellRun {
    pub ordinal: u64,
    pub pending: usize,
}

/// What a running cell does next. Its jobs and its calls come to an end before its result
/// is taken, so that nothing of it is left over for a later cell.
pub open spec fn next_of(run: CellRun, jobs: bool, cancelled: bool, spent: bool, resolved: bool) -> Result<
    CellStep,
    CellFailure,
> {
    if jobs {
        if cancelled {
            Err(CellFailure::Cancelled)
        } else if spent {
            Err(CellFailure::CpuExceeded)
        } else {
            Ok(CellStep::RunJob)
        }
    } else if run.pending > 0 {
        Ok(CellStep::AwaitReply)
    } else if resolved {
        Ok(CellStep::Finish)
    } else {
        Err(CellFailure::Unresolved)
    }
}

impl CellRun {
    pub fn new() -> (r: Self)
        ensures
            r == (CellRun { ordinal: 0, pending: 0 }),
    {
        CellRun { ordinal: 0, pending: 0 }
    }

    /// Starts a call with arguments of so many bytes. Answers with its number.
    pub fn start_call(&mut self, bytes: usize) -> (r: Result<u64, CellFailure>)
        ensures
            if bytes > MAX_VALUE_BYTES || old(self).pending >= MAX_PENDING_CALLS
                || old(self).ordinal == u64::MAX {
                &&& r == Err::<u64, CellFailure>(CellFailure::CallWindow)
                &&& *final(self) == *old(self)
            } else {
                &&& r == Ok::<u64, CellFailure>((old(self).ordinal + 1) as u64)
                &&& *final(self) == (CellRun {
                    ordinal: (old(self).ordinal + 1) as u64,
                    pending: (old(self).pending + 1) as usize,
                })
            },
    {
        if bytes > MAX_VALUE_BYTES || self.pending >= MAX_PENDING_CALLS || self.ordinal
            == u64::MAX {
            return Err(CellFailure::CallWindow);
        }
        self.ordinal = self.ordinal + 1;
        self.pending = self.pending + 1;
        Ok(self.ordinal)
    }

    /// What the cell does next, after a job of the runtime was run or none was left.
    pub fn next(&self, jobs: bool, cancelled: bool, spent: bool, resolved: bool) -> (r: Result<
        CellStep,
        CellFailure,
    >)
        ensures
            r == next_of(*self, jobs, cancelled, spent, resolved),
    {
        if jobs {
            if cancelled {
                return Err(CellFailure::Cancelled);
            }
            if spent {
                return Err(CellFailure::CpuExceeded);
            }
            return Ok(CellStep::RunJob);
        }
        if self.pending > 0 {
            return Ok(CellStep::AwaitReply);
        }
        if resolved {
            Ok(CellStep::Finish)
        } else {
            Err(CellFailure::Unresolved)
        }
    }

    /// Takes the reply to the oldest open call, if one came.
    pub fn take_reply(&mut self, received: bool, cancelled: bool) -> (r: Result<(), CellFailure>)
        requires
            old(self).pending > 0,
        ensures
            *final(self) == (CellRun { pending: (old(self).pending - 1) as usize, ..*old(self) }),
            r == if !received {
                Err::<(), CellFailure>(CellFailure::CallInterrupted)
            } else if cancelled {
                Err(CellFailure::CancelledInCall)
            } else {
                Ok(())
            },
    {
        self.pending = self.pending - 1;
        if !received {
            return Err(CellFailure::CallInterrupted);
        }
        if cancelled {
            return Err(CellFailure::CancelledInCall);
        }
        Ok(())
    }
}

/// Checks the size of a checkpoint.
pub fn check_checkpoint(bytes: usize) -> (r: Result<(), CellFailure>)
    ensures
        r == if bytes > MAX_VALUE_BYTES {
            Err::<(), CellFailure>(CellFailure::CheckpointTooLarge)
        } else {
            Ok(())
        },
{
    if bytes > MAX_VALUE_BYTES {
        Err(CellFailure::CheckpointTooLarge)
    } else {
        Ok(())
    }
}

/// Checks the size of a result.
pub fn check_result(bytes: usize) -> (r: Result<(), CellFailure>)
    ensures
        r == if bytes > MAX_VALUE_BYTES {
            Err::<(), CellFailure>(CellFailure::ResultTooLarge)
        } else {
            Ok(())
        },
{
    if bytes > MAX_VALUE_BYTES {
        Err(CellFailure::ResultTooLarge)
    } else {
        Ok(())
    }
}

/// A cell is finished only when nothing of it is left open.
pub proof fn law_finished_cells_leave_nothing_open(
    run: CellRun,
    jobs: bool,
    cancelled: bool,
    spent: bool,
    resolved: bool,
)
    requires
        next_of(run, jobs, cancelled, spent, resolved) == Ok::<CellStep, CellFailure>(
            CellStep::Finish,
        ),
    ensures
        !jobs,
        run.pending == 0,
        resolved,
{
}

} // verus!
