//! What each operation of the applet does, as a function of what it remembers
//! and of the windows that are listed.

use vstd::prelude::*;

use crate::error::manager_unavailable_text;
use crate::request::{AnnouncedCapability, Capability, ToplevelRequest};
use crate::snapshot::{RestoreKind, SnapshotEntry};
use crate::toplevel::ToplevelView;

verus! {

/// What the applet remembers between two operations.
pub ghost struct AppView {
    /// The request channel was closed.
    pub exit: bool,
    /// The compositor offers a toplevel manager.
    pub has_manager: bool,
    /// The windows that were minimized last and not restored since.
    pub snapshot: Seq<SnapshotEntry>,
    /// The compositor can move a window to a workspace.
    pub supports_move_to_ext_workspace: bool,
}

/// What an operation asks of the compositor, or the message with which it fails.
pub type Requests = Result<Seq<ToplevelRequest>, Seq<char>>;

/// The positions of the windows that satisfy `pred`, in the order of the listing.
pub open spec fn positions(
    windows: Seq<ToplevelView>,
    pred: spec_fn(ToplevelView) -> bool,
) -> Seq<int> {
    Seq::new(windows.len(), |i: int| i).filter(|i: int| pred(windows[i]))
}

/// One request to minimize for each window that is to be minimized, in the order of the
/// listing.
pub open spec fn minimize_requests(windows: Seq<ToplevelView>) -> Seq<ToplevelRequest> {
    positions(windows, |window: ToplevelView| window.to_minimize()).map_values(
        |i: int| ToplevelRequest::SetMinimized { window: i as usize },
    )
}

/// What is remembered of the windows that are to be minimized.
pub open spec fn snapshot_of(windows: Seq<ToplevelView>) -> Seq<SnapshotEntry> {
    windows.filter(|window: ToplevelView| window.to_minimize()).map_values(
        |window: ToplevelView| window.snapshot_entry(),
    )
}

/// Minimizes every window that is to be minimized and remembers these windows.
pub open spec fn minimize_all(state: AppView, windows: Seq<ToplevelView>) -> (AppView, Requests) {
    if !state.has_manager {
        (state, Err(manager_unavailable_text()))
    } else {
        (AppView { snapshot: snapshot_of(windows), ..state }, Ok(minimize_requests(windows)))
    }
}

/// The entries of windows that were not active, then those of windows that were.
pub open spec fn restoring_order<E>(entries: Seq<E>, was_active: spec_fn(E) -> bool) -> Seq<E> {
    entries.filter(|entry: E| !was_active(entry)) + entries.filter(was_active)
}

/// The order of restoring holds the same entries.
pub proof fn lemma_restoring_order_multiset<E>(entries: Seq<E>, was_active: spec_fn(E) -> bool)
    ensures
        restoring_order(entries, was_active).to_multiset() == entries.to_multiset(),
{
    let was_not_active = |entry: E| !was_active(entry);
    let first = entries.filter(was_not_active);
    let second = entries.filter(was_active);
    vstd::seq_lib::lemma_multiset_commutative(first, second);
    assert forall|v: E| #[trigger]
        (first + second).to_multiset().count(v) == entries.to_multiset().count(v) by {
        crate::sequences::lemma_filter_count(entries, was_not_active, v);
        crate::sequences::lemma_filter_count(entries, was_active, v);
    }
    assert((first + second).to_multiset() =~= entries.to_multiset());
}

/// The position of the last window that is listed under `foreign_id`.
pub open spec fn last_listed(windows: Seq<ToplevelView>, foreign_id: u32) -> Option<int>
    decreases windows.len(),
{
    if windows.len() == 0 {
        None
    } else if windows.last().foreign_id == foreign_id {
        Some(windows.len() - 1)
    } else {
        last_listed(windows.drop_last(), foreign_id)
    }
}

/// The last position of an id is one at which it is listed, and it is listed nowhere after.
pub proof fn lemma_last_listed(windows: Seq<ToplevelView>, foreign_id: u32)
    ensures
        match last_listed(windows, foreign_id) {
            Some(at) => {
                &&& 0 <= at < windows.len()
                &&& windows[at].foreign_id == foreign_id
                &&& forall|k: int|
                    at < k < windows.len() ==> (#[trigger] windows[k]).foreign_id != foreign_id
            },
            None => forall|k: int|
                0 <= k < windows.len() ==> (#[trigger] windows[k]).foreign_id != foreign_id,
        },
    decreases windows.len(),
{
    if windows.len() > 0 {
        lemma_last_listed(windows.drop_last(), foreign_id);
        assert forall|k: int| 0 <= k < windows.len() - 1 implies #[trigger] windows[k]
            == windows.drop_last()[k] by {}
    }
}

/// The request that gives a window the state it is restored to.
pub open spec fn restore_kind_request(kind: RestoreKind, window: int) -> ToplevelRequest {
    match kind {
        RestoreKind::Maximized => ToplevelRequest::SetMaximized { window: window as usize },
        RestoreKind::Normal => ToplevelRequest::UnsetMaximized { window: window as usize },
    }
}

/// The request that moves a window back to its workspace: made where the compositor can do
/// that, the entry remembers a workspace and the window is on an output.
pub open spec fn move_requests(
    entry: SnapshotEntry,
    window: ToplevelView,
    at: int,
    can_move: bool,
) -> Seq<ToplevelRequest> {
    if can_move && entry.workspace is Some && window.outputs.len() > 0 {
        seq![
            ToplevelRequest::MoveToExtWorkspace {
                window: at as usize,
                workspace: entry.workspace->0,
                output: window.outputs[0],
            },
        ]
    } else {
        seq![]
    }
}

/// The requests that restore the window of `entry`: none where it is no longer listed or
/// takes no requests.
pub open spec fn restore_requests(
    entry: SnapshotEntry,
    windows: Seq<ToplevelView>,
    can_move: bool,
) -> Seq<ToplevelRequest> {
    match last_listed(windows, entry.foreign_id) {
        Some(at) => if windows[at].controllable {
            move_requests(entry, windows[at], at, can_move) + seq![
                ToplevelRequest::UnsetMinimized { window: at as usize },
                restore_kind_request(entry.restore_kind, at),
            ]
        } else {
            seq![]
        },
        None => seq![],
    }
}

/// The requests that restore all of `snapshot`: the windows that were active come last.
pub open spec fn restore_all_requests(
    snapshot: Seq<SnapshotEntry>,
    windows: Seq<ToplevelView>,
    can_move: bool,
) -> Seq<ToplevelRequest> {
    restoring_order(snapshot, |entry: SnapshotEntry| entry.was_active).flat_map(
        |entry: SnapshotEntry| restore_requests(entry, windows, can_move),
    )
}

/// Restores every remembered window and forgets them all.
pub open spec fn restore_snapshot(state: AppView, windows: Seq<ToplevelView>) -> (
    AppView,
    Requests,
) {
    if !state.has_manager {
        (state, Err(manager_unavailable_text()))
    } else {
        (
            AppView { snapshot: seq![], ..state },
            Ok(
                restore_all_requests(
                    state.snapshot,
                    windows,
                    state.supports_move_to_ext_workspace,
                ),
            ),
        )
    }
}

/// Minimizes all windows where none is remembered, else restores the remembered ones.
pub open spec fn toggle(state: AppView, windows: Seq<ToplevelView>) -> (AppView, Requests) {
    if state.snapshot.len() == 0 {
        minimize_all(state, windows)
    } else {
        restore_snapshot(state, windows)
    }
}

/// A window that was listed under `foreign_id` is remembered.
pub open spec fn remembers(state: AppView, foreign_id: u32) -> bool {
    exists|k: int|
        0 <= k < state.snapshot.len() && (#[trigger] state.snapshot[k]).foreign_id == foreign_id
}

/// A window appeared or changed. What is remembered is forgotten if the window is a managed
/// one, is visible and is not itself remembered.
pub open spec fn observe(state: AppView, info: Option<ToplevelView>) -> AppView {
    match info {
        Some(window) => if window.managed() && !window.minimized() && !remembers(
            state,
            window.foreign_id,
        ) {
            AppView { snapshot: seq![], ..state }
        } else {
            state
        },
        None => state,
    }
}

/// The toplevel manager announced what it can do.
pub open spec fn announce(state: AppView, capabilities: Seq<AnnouncedCapability>) -> AppView {
    AppView {
        supports_move_to_ext_workspace: capabilities.contains(
            AnnouncedCapability::Value(Capability::MoveToExtWorkspace),
        ),
        ..state
    }
}

/// A window that appears or changes makes the applet forget all it remembers if it is managed,
/// visible and none of those that are remembered, and is of no consequence otherwise.
pub proof fn law_observing(state: AppView, window: ToplevelView)
    ensures
        observe(state, None) == state,
        ({
            let after = observe(state, Some(window));
            let known = exists|k: int|
                0 <= k < state.snapshot.len() && (#[trigger] state.snapshot[k]).foreign_id
                    == window.foreign_id;
            &&& after.exit == state.exit
            &&& after.has_manager == state.has_manager
            &&& after.supports_move_to_ext_workspace == state.supports_move_to_ext_workspace
            &&& if window.managed() && !window.state.contains(
                crate::toplevel::ToplevelState::Minimized,
            ) && !known {
                after.snapshot.len() == 0
            } else {
                after.snapshot == state.snapshot
            }
        }),
{
}

/// A window can be moved back to its workspace just if this was last announced, among whatever
/// else; nothing else changes.
pub proof fn law_announcing(state: AppView, capabilities: Seq<AnnouncedCapability>)
    ensures
        ({
            let after = announce(state, capabilities);
            &&& after.exit == state.exit
            &&& after.has_manager == state.has_manager
            &&& after.snapshot == state.snapshot
            &&& after.supports_move_to_ext_workspace <==> exists|k: int|
                0 <= k < capabilities.len() && #[trigger] capabilities[k]
                    == AnnouncedCapability::Value(Capability::MoveToExtWorkspace)
        }),
{
}

} // verus!
