//! The steps of toggling across runs of the applet. Each function takes what became of the
//! step before and says what to do next.

use vstd::prelude::*;

use crate::app_data::AppData;
use crate::error::WmError;
use crate::paths::snapshot_file_path;
use crate::request::ToplevelRequest;
use crate::snapshot::{PersistedEntryView, PersistedSnapshot};
use crate::toplevel::{Toplevel, ToplevelView};

verus! {

/// What to do next.
#[derive(Debug)]
pub enum PersistentStep {
    /// Find out whether there is a snapshot file at this path.
    CheckFile { path: Vec<u8> },
    /// Read the snapshot file.
    Load,
    /// Send the requests, then remove the snapshot file.
    RestoreAndClear { requests: Vec<ToplevelRequest>, restored: Result<(), WmError> },
    /// Send the requests, then write the snapshot file and reply with what became of that.
    MinimizeAndSave { requests: Vec<ToplevelRequest>, snapshot: PersistedSnapshot },
    /// Reply to the one who asked.
    Reply(Result<(), WmError>),
}

/// What to do next, mathematically.
pub ghost enum PersistentStepView {
    CheckFile { path: Seq<u8> },
    Load,
    RestoreAndClear { requests: Seq<ToplevelRequest>, restored: Result<(), Seq<char>> },
    MinimizeAndSave { requests: Seq<ToplevelRequest>, snapshot: Seq<PersistedEntryView> },
    Reply(Result<(), Seq<char>>),
}

impl View for PersistentStep {
    type V = PersistentStepView;

    open spec fn view(&self) -> PersistentStepView {
        match *self {
            PersistentStep::CheckFile { path } => PersistentStepView::CheckFile { path: path@ },
            PersistentStep::Load => PersistentStepView::Load,
            PersistentStep::RestoreAndClear {
                requests,
                restored,
            } => PersistentStepView::RestoreAndClear {
                requests: requests@,
                restored: crate::error::outcome(restored),
            },
            PersistentStep::MinimizeAndSave {
                requests,
                snapshot,
            } => PersistentStepView::MinimizeAndSave {
                requests: requests@,
                snapshot: snapshot@,
            },
            PersistentStep::Reply(result) => PersistentStepView::Reply(
                crate::error::outcome(result),
            ),
        }
    }
}

/// A persisted snapshot that was read, with the error read as a message.
pub open spec fn loaded_result(
    loaded: Result<PersistedSnapshot, WmError>,
) -> Result<Seq<PersistedEntryView>, Seq<char>> {
    match loaded {
        Ok(snapshot) => Ok(snapshot@),
        Err(error) => Err(error.text()),
    }
}

/// First the snapshot file is looked for; without a path the toggle fails.
pub open spec fn begin(path: Result<Seq<u8>, Seq<char>>) -> PersistentStepView {
    match path {
        Ok(path) => PersistentStepView::CheckFile { path },
        Err(text) => PersistentStepView::Reply(Err(text)),
    }
}

/// Where there is a snapshot file it is read; else all windows are minimized and a snapshot is
/// written.
pub open spec fn file_checked(
    state: crate::model::AppView,
    exists: bool,
    windows: Seq<ToplevelView>,
) -> PersistentStepView {
    if exists {
        PersistentStepView::Load
    } else {
        match crate::persisted::minimize_and_persist(state, windows) {
            Ok((requests, snapshot)) => PersistentStepView::MinimizeAndSave { requests, snapshot },
            Err(text) => PersistentStepView::Reply(Err(text)),
        }
    }
}

/// What was read is restored. The snapshot file is removed even if that fails, but not if it
/// could not be read.
pub open spec fn loaded(
    state: crate::model::AppView,
    entries: Result<Seq<PersistedEntryView>, Seq<char>>,
    windows: Seq<ToplevelView>,
) -> PersistentStepView {
    match entries {
        Ok(entries) => match crate::persisted::restore_persisted(state, entries, windows) {
            Ok(requests) => PersistentStepView::RestoreAndClear { requests, restored: Ok(()) },
            Err(text) => PersistentStepView::RestoreAndClear {
                requests: seq![],
                restored: Err(text),
            },
        },
        Err(text) => PersistentStepView::Reply(Err(text)),
    }
}

/// A failure to restore is reported before a failure to remove the snapshot file.
pub open spec fn cleared(
    restored: Result<(), Seq<char>>,
    removed: Result<(), Seq<char>>,
) -> Result<(), Seq<char>> {
    match restored {
        Err(text) => Err(text),
        Ok(()) => removed,
    }
}

impl AppData {
    /// The first step: the snapshot file is looked for below the configuration directory.
    pub fn handle_toggle_persistent(&self) -> (step: PersistentStep)
        ensures
            exists|config: Option<Seq<u8>>|
                step@ == begin(#[trigger] crate::paths::snapshot_path(config)),
    {
        let path = snapshot_file_path();
        let ghost config = choose|config: Option<Seq<u8>>|
            crate::paths::path_result(path) == #[trigger] crate::paths::snapshot_path(config);
        let step = Self::path_resolved(path);
        assert(step@ == begin(crate::paths::snapshot_path(config)));
        step
    }

    /// The path of the snapshot file was resolved, or could not be.
    pub fn path_resolved(path: Result<Vec<u8>, WmError>) -> (step: PersistentStep)
        ensures
            step@ == begin(crate::paths::path_result(path)),
    {
        match path {
            Ok(path) => PersistentStep::CheckFile { path },
            Err(error) => PersistentStep::Reply(Err(error)),
        }
    }

    /// It was found out whether there is a snapshot file.
    pub fn snapshot_file_checked(&self, exists: bool, toplevels: &Vec<Toplevel>) -> (step:
        PersistentStep)
        ensures
            step@ == file_checked(self@, exists, crate::toplevel::listing(toplevels@)),
    {
        if exists {
            return PersistentStep::Load;
        }
        match self.minimize_all_and_persist(toplevels) {
            Ok((requests, snapshot)) => PersistentStep::MinimizeAndSave { requests, snapshot },
            Err(error) => PersistentStep::Reply(Err(error)),
        }
    }

    /// The snapshot file was read, or could not be.
    pub fn snapshot_loaded(
        &self,
        snapshot: Result<PersistedSnapshot, WmError>,
        toplevels: &Vec<Toplevel>,
    ) -> (step: PersistentStep)
        ensures
            step@ == loaded(
                self@,
                loaded_result(snapshot),
                crate::toplevel::listing(toplevels@),
            ),
    {
        match snapshot {
            Ok(entries) => match self.restore_persisted_snapshot(&entries, toplevels) {
                Ok(requests) => PersistentStep::RestoreAndClear { requests, restored: Ok(()) },
                Err(error) => {
                    let step = PersistentStep::RestoreAndClear {
                        requests: Vec::new(),
                        restored: Err(error),
                    };
                    assert(step@->RestoreAndClear_requests =~= seq![]);
                    step
                },
            },
            Err(error) => PersistentStep::Reply(Err(error)),
        }
    }
}

/// The snapshot file was removed after a restore, or could not be: what to reply.
pub fn snapshot_cleared(restored: Result<(), WmError>, removed: Result<(), WmError>) -> (reply:
    Result<(), WmError>)
    ensures
        crate::error::outcome(reply) == cleared(
            crate::error::outcome(restored),
            crate::error::outcome(removed),
        ),
{
    match restored {
        Err(error) => Err(error),
        Ok(()) => removed,
    }
}

/// A snapshot file that cannot be read is left alone, and so are the windows: all that
/// happens is that the failure is reported.
pub proof fn law_unreadable_snapshot_is_left_alone(
    state: crate::model::AppView,
    text: Seq<char>,
    windows: Seq<ToplevelView>,
)
    ensures
        loaded(state, Err(text), windows) == PersistentStepView::Reply(Err(text)),
{
}

/// A snapshot file that was read is removed, even where nothing can be restored from it; the
/// failure to restore is then what is reported, whatever becomes of the removal.
pub proof fn law_read_snapshot_is_removed(
    state: crate::model::AppView,
    entries: Seq<PersistedEntryView>,
    windows: Seq<ToplevelView>,
    removed: Result<(), Seq<char>>,
)
    ensures
        loaded(state, Ok(entries), windows) matches PersistentStepView::RestoreAndClear {
            requests,
            restored,
        } && cleared(restored, removed) == if state.has_manager {
            removed
        } else {
            Err::<(), Seq<char>>(crate::error::manager_unavailable_text())
        },
{
}

/// Without a toplevel manager no snapshot file is written.
pub proof fn law_nothing_is_saved_without_manager(
    state: crate::model::AppView,
    windows: Seq<ToplevelView>,
)
    requires
        !state.has_manager,
    ensures
        file_checked(state, false, windows) == PersistentStepView::Reply(
            Err(crate::error::manager_unavailable_text()),
        ),
{
}

/// The toggle begins by looking for the snapshot file where it should lie, and ends at once if
/// that cannot be told.
pub proof fn law_begins_with_the_file(path: Seq<u8>, text: Seq<char>)
    ensures
        begin(Ok(path)) == (PersistentStepView::CheckFile { path }),
        begin(Err(text)) == PersistentStepView::Reply(Err(text)),
{
}

/// The reply after a restore is its failure if it failed, and else what became of the removal.
pub proof fn law_failed_restore_is_reported_first(
    text: Seq<char>,
    removed: Result<(), Seq<char>>,
)
    ensures
        cleared(Err(text), removed) == Err::<(), Seq<char>>(text),
        cleared(Ok(()), removed) == removed,
{
}

/// A step says what it holds, a snapshot that was read is read as it is, and an error by its
/// message.
pub proof fn law_steps_are_read_as_they_are(
    path: Vec<u8>,
    requests: Vec<ToplevelRequest>,
    result: Result<(), WmError>,
    snapshot: PersistedSnapshot,
    text: String,
)
    ensures
        (PersistentStep::CheckFile { path })@ == (PersistentStepView::CheckFile { path: path@ }),
        PersistentStep::Load@ == PersistentStepView::Load,
        (PersistentStep::RestoreAndClear { requests, restored: result })@ == (
        PersistentStepView::RestoreAndClear {
            requests: requests@,
            restored: crate::error::outcome(result),
        }),
        (PersistentStep::MinimizeAndSave { requests, snapshot })@ == (
        PersistentStepView::MinimizeAndSave { requests: requests@, snapshot: snapshot@ }),
        PersistentStep::Reply(result)@ == PersistentStepView::Reply(
            crate::error::outcome(result),
        ),
        loaded_result(Ok(snapshot)) == Ok::<Seq<PersistedEntryView>, Seq<char>>(snapshot@),
        loaded_result(Err(WmError::Command(text))) == Err::<
            Seq<PersistedEntryView>,
            Seq<char>,
        >(text@),
{
}

} // verus!
