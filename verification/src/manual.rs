//! Commands of an operator. They share the executor and grant a model nothing.
use crate::digest::Digest;
use crate::input::InputError;
use crate::text::{blank, byte_len, is_blank};
use crate::uuid::Uuid;
use vstd::prelude::*;
use vstd::utf8::encode_utf8;

verus! {

/// A task.
#[derive(Clone, Copy, Debug, PartialEq, Eq, PartialOrd, Ord, Hash, Structural)]
pub struct TaskId(pub Uuid);

/// A shell command, and the bounds of its execution.
#[derive(Debug, PartialEq, Eq)]
pub struct ShellSpec {
    pub command: String,
    pub expected_task: Option<TaskId>,
    pub scope_revision: Option<u64>,
    pub timeout_ms: u64,
    pub output_bytes: u64,
}

/// Whether a command can be executed within its bounds.
pub open spec fn bounded(shell: ShellSpec) -> bool {
    &&& !blank(shell.command@)
    &&& encode_utf8(shell.command@).len() <= 131072
    &&& !shell.command@.contains('\0')
    &&& 0 < shell.timeout_ms <= 300000
    &&& 0 < shell.output_bytes <= 1048576
}

impl ShellSpec {
    /// Checks a command and its bounds. A scope belongs to a task.
    pub fn validate(&self) -> (r: Result<(), InputError>)
        ensures
            r == if !bounded(*self) {
                Err::<(), InputError>(
                    InputError::Invalid("shell command or execution bounds are invalid"),
                )
            } else if self.scope_revision is Some && self.expected_task is None {
                Err(InputError::Invalid("shell scope requires its task identity"))
            } else {
                Ok(())
            },
    {
        if is_blank(self.command.as_str()) || byte_len(self.command.as_str()) > 131072
            || crate::review::model::holds_nul(self.command.as_str()) || self.timeout_ms == 0
            || self.timeout_ms > 300000 || self.output_bytes == 0 || self.output_bytes > 1048576 {
            return Err(InputError::Invalid("shell command or execution bounds are invalid"));
        }
        if self.scope_revision.is_some() && self.expected_task.is_none() {
            return Err(InputError::Invalid("shell scope requires its task identity"));
        }
        Ok(())
    }
}

/// A command that an operator started.
#[derive(Clone, Copy, Debug, PartialEq, Eq, Structural)]
pub struct ManualJob {
    pub job: Uuid,
    pub task: Option<TaskId>,
    pub before: Digest,
    pub origin: Digest,
    pub environment: Digest,
    pub started_ms: u64,
    pub scope_revision: Option<u64>,
}

} // verus!
