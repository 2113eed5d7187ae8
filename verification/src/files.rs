//! What becomes of reading, writing and removing the snapshot file. The paths are given as
//! they are shown to the user.

use vstd::prelude::*;

use crate::error::{FileOperation, Operation, WmError};
use crate::snapshot::PersistedSnapshot;

verus! {

/// The message of a failed step on a file or a directory.
pub open spec fn failed_at_text(
    operation: FileOperation,
    path: Seq<char>,
    cause: Seq<char>,
) -> Seq<char> {
    crate::error::file_operation_text(operation) + path + ": "@ + cause
}

/// The snapshot file was read and what it holds was parsed, or one of these failed.
pub fn load_result(
    path: &str,
    read: Result<Result<PersistedSnapshot, String>, String>,
) -> (loaded: Result<PersistedSnapshot, WmError>)
    ensures
        match read {
            Ok(Ok(snapshot)) => loaded == Ok::<PersistedSnapshot, WmError>(snapshot),
            Ok(Err(cause)) => loaded matches Err(error) && error.text() == failed_at_text(
                FileOperation::ParseSnapshot,
                path@,
                cause@,
            ),
            Err(cause) => loaded matches Err(error) && error.text() == failed_at_text(
                FileOperation::ReadSnapshot,
                path@,
                cause@,
            ),
        },
{
    match read {
        Ok(Ok(snapshot)) => Ok(snapshot),
        Ok(Err(cause)) => Err(
            WmError::failed_at(FileOperation::ParseSnapshot, path, cause.as_str()),
        ),
        Err(cause) => Err(WmError::failed_at(FileOperation::ReadSnapshot, path, cause.as_str())),
    }
}

/// The snapshot file was removed, or could not be; there is nothing to remove where there is
/// no such file.
pub fn clear_result(path: &str, removal: Option<Result<(), String>>) -> (cleared: Result<
    (),
    WmError,
>)
    ensures
        crate::error::outcome(cleared) == match removal {
            Some(Err(cause)) => Err::<(), Seq<char>>(
                failed_at_text(FileOperation::RemoveSnapshot, path@, cause@),
            ),
            _ => Ok::<(), Seq<char>>(()),
        },
{
    match removal {
        Some(Err(cause)) => Err(
            WmError::failed_at(FileOperation::RemoveSnapshot, path, cause.as_str()),
        ),
        Some(Ok(())) => Ok(()),
        None => Ok(()),
    }
}

/// A step on the way to a written snapshot file.
#[derive(Debug, Clone, Copy, PartialEq, Eq, Structural)]
pub enum SaveStep {
    CreateDirectory,
    Serialize,
    Write,
}

/// The step that follows on `step`, if any.
pub open spec fn next_save_step(step: SaveStep) -> Option<SaveStep> {
    match step {
        SaveStep::CreateDirectory => Some(SaveStep::Serialize),
        SaveStep::Serialize => Some(SaveStep::Write),
        SaveStep::Write => None,
    }
}

/// The message when `step` fails.
pub open spec fn save_failure_text(
    step: SaveStep,
    path: Seq<char>,
    directory: Seq<char>,
    cause: Seq<char>,
) -> Seq<char> {
    match step {
        SaveStep::CreateDirectory => failed_at_text(
            FileOperation::CreateSnapshotDirectory,
            directory,
            cause,
        ),
        SaveStep::Serialize => crate::error::operation_text(Operation::SerializeSnapshot) + ": "@
            + cause,
        SaveStep::Write => failed_at_text(FileOperation::WriteSnapshot, path, cause),
    }
}

/// The first step, which needs the directory of the snapshot file.
pub fn save_begin(path: &str, has_parent: bool) -> (first: Result<SaveStep, WmError>)
    ensures
        match first {
            Ok(step) => has_parent && step == SaveStep::CreateDirectory,
            Err(error) => !has_parent && error.text()
                == "failed to resolve snapshot parent path for "@ + path@,
        },
{
    if has_parent {
        Ok(SaveStep::CreateDirectory)
    } else {
        Err(WmError::no_parent(path))
    }
}

/// `step` was done, or failed: the step that follows, if any.
pub fn save_advance(
    step: SaveStep,
    done: Result<(), String>,
    path: &str,
    directory: &str,
) -> (next: Result<Option<SaveStep>, WmError>)
    ensures
        match done {
            Ok(()) => next == Ok::<Option<SaveStep>, WmError>(next_save_step(step)),
            Err(cause) => next matches Err(error) && error.text() == save_failure_text(
                step,
                path@,
                directory@,
                cause@,
            ),
        },
{
    match done {
        Ok(()) => match step {
            SaveStep::CreateDirectory => Ok(Some(SaveStep::Serialize)),
            SaveStep::Serialize => Ok(Some(SaveStep::Write)),
            SaveStep::Write => Ok(None),
        },
        Err(cause) => match step {
            SaveStep::CreateDirectory => Err(
                WmError::failed_at(
                    FileOperation::CreateSnapshotDirectory,
                    directory,
                    cause.as_str(),
                ),
            ),
            SaveStep::Serialize => Err(
                WmError::failed(Operation::SerializeSnapshot, cause.as_str()),
            ),
            SaveStep::Write => Err(
                WmError::failed_at(FileOperation::WriteSnapshot, path, cause.as_str()),
            ),
        },
    }
}

/// The message of a failed step names the step, then the path, then the cause.
pub proof fn law_failures_name_path_and_cause(path: Seq<char>, cause: Seq<char>)
    ensures
        failed_at_text(FileOperation::ReadSnapshot, path, cause) == "failed to read snapshot at "@
            + path + ": "@ + cause,
        failed_at_text(FileOperation::ParseSnapshot, path, cause)
            == "failed to parse snapshot at "@ + path + ": "@ + cause,
        failed_at_text(FileOperation::CreateSnapshotDirectory, path, cause)
            == "failed to create snapshot directory "@ + path + ": "@ + cause,
        failed_at_text(FileOperation::WriteSnapshot, path, cause)
            == "failed to write snapshot at "@ + path + ": "@ + cause,
        failed_at_text(FileOperation::RemoveSnapshot, path, cause)
            == "failed to remove snapshot at "@ + path + ": "@ + cause,
{
}

/// Saving goes on from the directory to what is to be written and then to the file, and ends
/// there. A failure names the directory or the file, whichever was at stake, and the cause.
pub proof fn law_saving_ends_with_the_file(
    path: Seq<char>,
    directory: Seq<char>,
    cause: Seq<char>,
)
    ensures
        next_save_step(SaveStep::CreateDirectory) == Some(SaveStep::Serialize),
        next_save_step(SaveStep::Serialize) == Some(SaveStep::Write),
        next_save_step(SaveStep::Write) is None,
        save_failure_text(SaveStep::CreateDirectory, path, directory, cause)
            == "failed to create snapshot directory "@ + directory + ": "@ + cause,
        save_failure_text(SaveStep::Serialize, path, directory, cause)
            == "failed to serialize snapshot"@ + ": "@ + cause,
        save_failure_text(SaveStep::Write, path, directory, cause)
            == "failed to write snapshot at "@ + path + ": "@ + cause,
{
}

} // verus!
