//! What the applet remembers of a window in order to restore it.

use vstd::prelude::*;

use crate::toplevel::{Toplevel, ToplevelState};

verus! {

/// The state to which a window is restored.
#[derive(Debug, Clone, Copy, PartialEq, Eq, Structural)]
pub enum RestoreKind {
    Normal,
    Maximized,
}

/// A window that was minimized, remembered as long as the applet runs.
#[derive(Debug, Clone, Copy, PartialEq, Eq, Structural)]
pub struct SnapshotEntry {
    pub foreign_id: u32,
    pub restore_kind: RestoreKind,
    /// The protocol id of the workspace to move the window back to.
    pub workspace: Option<u32>,
    pub was_active: bool,
}

/// A window that was minimized, as it is kept on disk.
#[derive(Debug, Clone)]
pub struct PersistedSnapshotEntry {
    pub identifier: String,
    pub app_id: String,
    pub restore_kind: RestoreKind,
    pub was_active: bool,
}

/// The windows that were minimized, as they are kept on disk.
#[derive(Debug, Clone)]
pub struct PersistedSnapshot {
    pub entries: Vec<PersistedSnapshotEntry>,
}

/// What a persisted entry says, mathematically.
pub ghost struct PersistedEntryView {
    pub identifier: Seq<char>,
    pub app_id: Seq<char>,
    pub restore_kind: RestoreKind,
    pub was_active: bool,
}

impl View for PersistedSnapshotEntry {
    type V = PersistedEntryView;

    open spec fn view(&self) -> PersistedEntryView {
        PersistedEntryView {
            identifier: self.identifier@,
            app_id: self.app_id@,
            restore_kind: self.restore_kind,
            was_active: self.was_active,
        }
    }
}

impl View for PersistedSnapshot {
    type V = Seq<PersistedEntryView>;

    open spec fn view(&self) -> Seq<PersistedEntryView> {
        self.entries@.map_values(|entry: PersistedSnapshotEntry| entry@)
    }
}

/// `id` is the lowest of `ids`.
pub open spec fn is_lowest(ids: Seq<u32>, id: u32) -> bool {
    ids.contains(id) && forall|other: u32| ids.contains(other) ==> id <= other
}

/// The lowest of `ids`, where there is any.
pub open spec fn lowest(ids: Seq<u32>) -> Option<u32> {
    if ids.len() == 0 {
        None
    } else {
        Some(choose|id: u32| is_lowest(ids, id))
    }
}

impl crate::toplevel::ToplevelView {
    /// The state to restore the window to.
    pub open spec fn restore_kind(self) -> RestoreKind {
        if self.maximized() {
            RestoreKind::Maximized
        } else {
            RestoreKind::Normal
        }
    }

    /// What a snapshot remembers of the window.
    pub open spec fn snapshot_entry(self) -> SnapshotEntry {
        SnapshotEntry {
            foreign_id: self.foreign_id,
            restore_kind: self.restore_kind(),
            workspace: lowest(self.workspaces),
            was_active: self.activated(),
        }
    }

    /// What a persisted snapshot remembers of the window.
    pub open spec fn persisted_entry(self) -> PersistedEntryView {
        PersistedEntryView {
            identifier: self.identifier,
            app_id: self.app_id,
            restore_kind: self.restore_kind(),
            was_active: self.activated(),
        }
    }
}

/// The lowest of some ids is one of them and none of them is lower; there is none only where
/// there are no ids.
pub proof fn law_lowest(ids: Seq<u32>)
    ensures
        match lowest(ids) {
            Some(id) => ids.contains(id) && forall|k: int|
                0 <= k < ids.len() ==> id <= #[trigger] ids[k],
            None => ids.len() == 0,
        },
{
    if ids.len() > 0 {
        lemma_lowest_exists(ids);
        let id = lowest(ids)->0;
        assert(is_lowest(ids, id));
        assert forall|k: int| 0 <= k < ids.len() implies id <= #[trigger] ids[k] by {
            assert(ids.contains(ids[k]));
        }
    }
}

proof fn lemma_lowest_exists(ids: Seq<u32>)
    requires
        ids.len() > 0,
    ensures
        exists|id: u32| is_lowest(ids, id),
    decreases ids.len(),
{
    let rest = ids.drop_last();
    let last = ids.last();
    if rest.len() == 0 {
        assert(ids[0] == last);
        assert(is_lowest(ids, last));
    } else {
        lemma_lowest_exists(rest);
        let id = choose|id: u32| is_lowest(rest, id);
        let k = choose|k: int| 0 <= k < rest.len() && rest[k] == id;
        assert(ids[k] == id);
        assert(ids[ids.len() - 1] == last);
        let low = if last < id { last } else { id };
        assert forall|other: u32| ids.contains(other) implies low <= other by {
            let m = choose|m: int| 0 <= m < ids.len() && ids[m] == other;
            if m < rest.len() {
                assert(rest[m] == other);
                assert(rest.contains(other));
            }
        }
        assert(is_lowest(ids, low));
    }
}

/// What is kept of a window is what the compositor reports of it: whether it is maximized,
/// whether it is active, its names, and the lowest of its workspaces.
pub proof fn law_kept_as_reported(window: crate::toplevel::ToplevelView)
    ensures
        window.snapshot_entry().foreign_id == window.foreign_id,
        window.snapshot_entry().restore_kind is Maximized <==> window.state.contains(
            ToplevelState::Maximized,
        ),
        window.snapshot_entry().was_active <==> window.state.contains(ToplevelState::Activated),
        match window.snapshot_entry().workspace {
            Some(id) => window.workspaces.contains(id) && forall|k: int|
                0 <= k < window.workspaces.len() ==> id <= #[trigger] window.workspaces[k],
            None => window.workspaces.len() == 0,
        },
        window.persisted_entry().identifier == window.identifier,
        window.persisted_entry().app_id == window.app_id,
        window.persisted_entry().restore_kind is Maximized <==> window.state.contains(
            ToplevelState::Maximized,
        ),
        window.persisted_entry().was_active <==> window.state.contains(ToplevelState::Activated),
{
    law_lowest(window.workspaces);
}

/// The lowest of `ids`, where there is any.
pub fn lowest_id(ids: &Vec<u32>) -> (id: Option<u32>)
    ensures
        id == lowest(ids@),
        id matches Some(found) ==> is_lowest(ids@, found),
{
    if ids.len() == 0 {
        return None;
    }
    let mut found: u32 = ids[0];
    let mut k: usize = 1;
    while k < ids.len()
        invariant
            1 <= k <= ids@.len(),
            ids@.contains(found),
            forall|j: int| 0 <= j < k ==> found <= ids@[j],
        decreases ids@.len() - k,
    {
        if ids[k] < found {
            found = ids[k];
        }
        k += 1;
    }
    assert(is_lowest(ids@, found));
    Some(found)
}

/// What a snapshot remembers of the window.
pub fn snapshot_entry(info: &Toplevel) -> (entry: SnapshotEntry)
    ensures
        entry == info@.snapshot_entry(),
{
    let restore_kind = if info.has_state(ToplevelState::Maximized) {
        RestoreKind::Maximized
    } else {
        RestoreKind::Normal
    };
    SnapshotEntry {
        foreign_id: info.foreign_id,
        restore_kind,
        workspace: lowest_id(&info.workspaces),
        was_active: info.has_state(ToplevelState::Activated),
    }
}

/// What a persisted snapshot remembers of the window.
pub fn persisted_entry(info: &Toplevel) -> (entry: PersistedSnapshotEntry)
    ensures
        entry@ == info@.persisted_entry(),
{
    let restore_kind = if info.has_state(ToplevelState::Maximized) {
        RestoreKind::Maximized
    } else {
        RestoreKind::Normal
    };
    PersistedSnapshotEntry {
        identifier: info.identifier.clone(),
        app_id: info.app_id.clone(),
        restore_kind,
        was_active: info.has_state(ToplevelState::Activated),
    }
}

} // verus!
