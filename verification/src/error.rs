//! The applet's error type and the wording of its messages.

use vstd::prelude::*;

verus! {

/// What went wrong, as a message for the user.
#[derive(Debug, Clone)]
pub enum WmError {
    Command(String),
}

/// A step of the applet that can fail with a cause of its own.
#[derive(Debug, Clone, Copy, PartialEq, Eq, Structural)]
pub enum Operation {
    SpawnThread,
    Startup,
    SendRequest,
    Response,
    Connect,
    InitRegistry,
    CreateEventLoop,
    InsertWaylandSource,
    AddRequestSource,
    DispatchWarmup,
    Dispatch,
    SerializeSnapshot,
}

/// A step on a file or a directory that can fail with a cause of its own.
#[derive(Debug, Clone, Copy, PartialEq, Eq, Structural)]
pub enum FileOperation {
    ReadSnapshot,
    ParseSnapshot,
    CreateSnapshotDirectory,
    WriteSnapshot,
    RemoveSnapshot,
}

/// The words with which a failure of `operation` is reported.
pub open spec fn operation_text(operation: Operation) -> Seq<char> {
    match operation {
        Operation::SpawnThread => "failed to spawn wayland thread"@,
        Operation::Startup => "wayland startup timeout/error"@,
        Operation::SendRequest => "failed to send request"@,
        Operation::Response => "response timeout/error"@,
        Operation::Connect => "wayland connect failed"@,
        Operation::InitRegistry => "registry init failed"@,
        Operation::CreateEventLoop => "event loop create failed"@,
        Operation::InsertWaylandSource => "failed to insert wayland source"@,
        Operation::AddRequestSource => "failed to add request source"@,
        Operation::DispatchWarmup => "event loop warmup dispatch failed"@,
        Operation::Dispatch => "event loop dispatch failed"@,
        Operation::SerializeSnapshot => "failed to serialize snapshot"@,
    }
}

/// The words that stand before the path when `operation` failed.
pub open spec fn file_operation_text(operation: FileOperation) -> Seq<char> {
    match operation {
        FileOperation::ReadSnapshot => "failed to read snapshot at "@,
        FileOperation::ParseSnapshot => "failed to parse snapshot at "@,
        FileOperation::CreateSnapshotDirectory => "failed to create snapshot directory "@,
        FileOperation::WriteSnapshot => "failed to write snapshot at "@,
        FileOperation::RemoveSnapshot => "failed to remove snapshot at "@,
    }
}

/// The message when the compositor offers no toplevel manager.
pub open spec fn manager_unavailable_text() -> Seq<char> {
    "cosmic toplevel manager is unavailable"@
}

/// The message when the user has no configuration directory.
pub open spec fn no_config_dir_text() -> Seq<char> {
    "failed to resolve ~/.config directory"@
}

/// A result with its error read as a message.
pub open spec fn outcome(result: Result<(), WmError>) -> Result<(), Seq<char>> {
    match result {
        Ok(()) => Ok(()),
        Err(error) => Err(error.text()),
    }
}

impl WmError {
    /// The message that the error carries.
    pub open spec fn text(self) -> Seq<char> {
        match self {
            WmError::Command(text) => text@,
        }
    }

    /// The error as it is shown to the user.
    pub fn message(&self) -> (message: String)
        ensures
            message@ == "failed to execute command: "@ + self.text(),
    {
        match self {
            WmError::Command(text) => {
                String::from_str("failed to execute command: ").concat(text.as_str())
            },
        }
    }

    /// `operation` failed because of `cause`.
    pub fn failed(operation: Operation, cause: &str) -> (error: WmError)
        ensures
            error.text() == operation_text(operation) + ": "@ + cause@,
    {
        let words = match operation {
            Operation::SpawnThread => "failed to spawn wayland thread",
            Operation::Startup => "wayland startup timeout/error",
            Operation::SendRequest => "failed to send request",
            Operation::Response => "response timeout/error",
            Operation::Connect => "wayland connect failed",
            Operation::InitRegistry => "registry init failed",
            Operation::CreateEventLoop => "event loop create failed",
            Operation::InsertWaylandSource => "failed to insert wayland source",
            Operation::AddRequestSource => "failed to add request source",
            Operation::DispatchWarmup => "event loop warmup dispatch failed",
            Operation::Dispatch => "event loop dispatch failed",
            Operation::SerializeSnapshot => "failed to serialize snapshot",
        };
        WmError::Command(String::from_str(words).concat(": ").concat(cause))
    }

    /// `operation` failed on `path` because of `cause`.
    pub fn failed_at(operation: FileOperation, path: &str, cause: &str) -> (error: WmError)
        ensures
            error.text() == file_operation_text(operation) + path@ + ": "@ + cause@,
    {
        let words = match operation {
            FileOperation::ReadSnapshot => "failed to read snapshot at ",
            FileOperation::ParseSnapshot => "failed to parse snapshot at ",
            FileOperation::CreateSnapshotDirectory => "failed to create snapshot directory ",
            FileOperation::WriteSnapshot => "failed to write snapshot at ",
            FileOperation::RemoveSnapshot => "failed to remove snapshot at ",
        };
        WmError::Command(String::from_str(words).concat(path).concat(": ").concat(cause))
    }

    /// The snapshot file at `path` has no parent directory.
    pub fn no_parent(path: &str) -> (error: WmError)
        ensures
            error.text() == "failed to resolve snapshot parent path for "@ + path@,
    {
        WmError::Command(String::from_str("failed to resolve snapshot parent path for ").concat(path))
    }

    /// The user has no configuration directory.
    pub fn no_config_dir() -> (error: WmError)
        ensures
            error.text() == no_config_dir_text(),
    {
        WmError::Command(String::from_str("failed to resolve ~/.config directory"))
    }

    /// The compositor offers no toplevel manager.
    pub fn manager_unavailable() -> (error: WmError)
        ensures
            error.text() == manager_unavailable_text(),
    {
        WmError::Command(String::from_str("cosmic toplevel manager is unavailable"))
    }
}

/// What a request over a channel amounts to, once its reply was waited for:
/// the reply itself, or a failure of `operation` where none came.
pub fn received(
    operation: Operation,
    reply: Result<Result<(), WmError>, String>,
) -> (result: Result<(), WmError>)
    ensures
        reply matches Ok(answer) ==> result == answer,
        reply matches Err(cause) ==> outcome(result) == Err::<(), Seq<char>>(
            operation_text(operation) + ": "@ + cause@,
        ),
{
    match reply {
        Ok(answer) => answer,
        Err(cause) => Err(WmError::failed(operation, cause.as_str())),
    }
}

/// An outcome is read as it is, an error by the message that it carries.
pub proof fn law_outcomes_are_read_as_they_are(text: String)
    ensures
        WmError::Command(text).text() == text@,
        outcome(Ok(())) == Ok::<(), Seq<char>>(()),
        outcome(Err(WmError::Command(text))) == Err::<(), Seq<char>>(text@),
{
}

} // verus!
