//! What a toggle asks of the compositor and remembers, said of its outcome.

use vstd::prelude::*;

use crate::effects::windows_after;
use crate::model::{
    last_listed, lemma_last_listed, minimize_all, minimize_requests, move_requests, positions,
    restore_all_requests, restore_requests, restore_snapshot, restoring_order, snapshot_of, toggle, AppView,
};
use crate::request::ToplevelRequest;
use crate::snapshot::SnapshotEntry;
use crate::toplevel::{ToplevelState, ToplevelView};

verus! {

/// Without a toplevel manager nothing is asked, nothing changes, and the user is told why.
pub proof fn law_nothing_works_without_manager(state: AppView, windows: Seq<ToplevelView>)
    requires
        !state.has_manager,
    ensures
        ({
            let failed = (
                state,
                Err::<Seq<ToplevelRequest>, Seq<char>>("cosmic toplevel manager is unavailable"@),
            );
            &&& toggle(state, windows) == failed
            &&& minimize_all(state, windows) == failed
            &&& restore_snapshot(state, windows) == failed
        }),
{
}

/// A toggle restores if anything is remembered, and else minimizes.
pub proof fn law_toggle_restores_what_is_remembered(state: AppView, windows: Seq<ToplevelView>)
    ensures
        state.snapshot.len() > 0 ==> toggle(state, windows) == restore_snapshot(state, windows),
        state.snapshot.len() == 0 ==> toggle(state, windows) == minimize_all(state, windows),
{
}

/// Every managed window that takes requests and is visible is asked to be minimized, each once
/// and in the order of the listing, and nothing else is asked. Of each of them it is
/// remembered, in this order, under which id it is listed, whether it is maximized, whether it
/// is active, and the lowest of its workspaces.
pub proof fn law_minimizing_asks_and_remembers(state: AppView, windows: Seq<ToplevelView>)
    requires
        windows.len() <= usize::MAX,
        state.has_manager,
    ensures
        ({
            let (after, result) = minimize_all(state, windows);
            let asked = result->Ok_0;
            &&& result is Ok
            &&& forall|i: int|
                0 <= i < windows.len() && (#[trigger] windows[i]).managed()
                    && windows[i].controllable && !windows[i].state.contains(
                    ToplevelState::Minimized,
                ) ==> asked.contains(ToplevelRequest::SetMinimized { window: i as usize })
            &&& forall|k: int|
                0 <= k < asked.len() ==> {
                    let i = (#[trigger] asked[k])->SetMinimized_window as int;
                    &&& asked[k] is SetMinimized
                    &&& i < windows.len()
                    &&& windows[i].managed()
                    &&& windows[i].controllable
                    &&& !windows[i].state.contains(ToplevelState::Minimized)
                }
            &&& forall|j: int, k: int|
                0 <= j < k < asked.len() ==> (#[trigger] asked[j])->SetMinimized_window < (
                #[trigger] asked[k])->SetMinimized_window
            &&& after.snapshot.len() == asked.len()
            &&& forall|k: int|
                0 <= k < asked.len() ==> {
                    let window = windows[asked[k]->SetMinimized_window as int];
                    let entry = #[trigger] after.snapshot[k];
                    &&& entry.foreign_id == window.foreign_id
                    &&& entry.restore_kind is Maximized <==> window.state.contains(
                        ToplevelState::Maximized,
                    )
                    &&& entry.was_active <==> window.state.contains(ToplevelState::Activated)
                    &&& match entry.workspace {
                        Some(id) => window.workspaces.contains(id) && forall|m: int|
                            0 <= m < window.workspaces.len() ==> id
                                <= #[trigger] window.workspaces[m],
                        None => window.workspaces.len() == 0,
                    }
                }
            &&& after.exit == state.exit
            &&& after.has_manager
            &&& after.supports_move_to_ext_workspace == state.supports_move_to_ext_workspace
        }),
{
    let pred = |window: ToplevelView| window.to_minimize();
    let all = Seq::new(windows.len(), |i: int| i);
    let at_pred = |i: int| pred(windows[i]);
    let at = |i: int| windows[i];
    let found = positions(windows, pred);
    let (after, result) = minimize_all(state, windows);
    let asked = result->Ok_0;
    assert(asked == minimize_requests(windows));
    assert forall|k: int| 0 <= k < found.len() implies {
        &&& 0 <= #[trigger] found[k] < windows.len()
        &&& windows[found[k]].to_minimize()
        &&& asked[k] == (ToplevelRequest::SetMinimized { window: found[k] as usize })
    } by {
        assert(found.contains(found[k]));
        crate::laws::lemma_positions_members(windows, pred, found[k]);
    }
    assert forall|i: int|
        0 <= i < windows.len() && (#[trigger] windows[i]).managed() && windows[i].controllable
            && !windows[i].state.contains(ToplevelState::Minimized) implies asked.contains(
        ToplevelRequest::SetMinimized { window: i as usize },
    ) by {
        crate::laws::lemma_positions_members(windows, pred, i);
        let k = choose|k: int| 0 <= k < found.len() && found[k] == i;
        assert(asked[k] == (ToplevelRequest::SetMinimized { window: i as usize }));
    }
    let below = |a: int, b: int| a < b;
    crate::sequences::lemma_filter_numbers_increase(windows.len(), at_pred);
    assert forall|j: int, k: int| 0 <= j < k < asked.len() implies (
    #[trigger] asked[j])->SetMinimized_window < (#[trigger] asked[k])->SetMinimized_window by {
        assert(below(found[j], found[k]));
    }
    crate::sequences::lemma_map_filter(all, at, pred, at_pred);
    assert(all.map_values(at) =~= windows);
    assert forall|k: int| 0 <= k < asked.len() implies #[trigger] after.snapshot[k]
        == windows[found[k]].snapshot_entry() by {}
    assert forall|i: int| 0 <= i < windows.len() implies match (
    #[trigger] windows[i]).snapshot_entry().workspace {
        Some(id) => windows[i].workspaces.contains(id) && forall|m: int|
            0 <= m < windows[i].workspaces.len() ==> id <= #[trigger] windows[i].workspaces[m],
        None => windows[i].workspaces.len() == 0,
    } by {
        crate::snapshot::law_kept_as_reported(windows[i]);
    }
}

/// A toggle with nothing remembered shows the desktop: once it is carried out, no managed window
/// that takes requests is visible, and nothing else about any window has changed.
pub proof fn law_toggle_shows_the_desktop(state: AppView, windows: Seq<ToplevelView>, i: int)
    requires
        0 <= i < windows.len() <= usize::MAX,
        state.has_manager,
        state.snapshot.len() == 0,
    ensures
        ({
            let asked = toggle(state, windows).1->Ok_0;
            let after = windows_after(asked, windows)[i];
            &&& toggle(state, windows).1 is Ok
            &&& windows_after(asked, windows).len() == windows.len()
            &&& windows[i].managed() && windows[i].controllable ==> after.state.contains(
                ToplevelState::Minimized,
            )
            &&& !(windows[i].managed() && windows[i].controllable) ==> after == windows[i]
            &&& after == (ToplevelView { state: after.state, ..windows[i] })
            &&& forall|state: ToplevelState|
                state !is Minimized ==> (#[trigger] after.state.contains(state)
                    <==> windows[i].state.contains(state))
        }),
{
    crate::laws::law_minimize_all_minimizes(windows);
}

/// Restoring forgets all that was remembered and changes nothing else that the applet keeps.
pub proof fn law_restoring_forgets(state: AppView, now: Seq<ToplevelView>)
    requires
        state.has_manager,
    ensures
        restore_snapshot(state, now).1 is Ok,
        restore_snapshot(state, now).0.snapshot.len() == 0,
        restore_snapshot(state, now).0.exit == state.exit,
        restore_snapshot(state, now).0.has_manager,
        restore_snapshot(state, now).0.supports_move_to_ext_workspace
            == state.supports_move_to_ext_workspace,
{
}

/// The last window that is listed under an id is the one at `k`.
proof fn lemma_listed_last(now: Seq<ToplevelView>, foreign_id: u32, k: int)
    requires
        0 <= k < now.len(),
        now[k].foreign_id == foreign_id,
        forall|j: int| k < j < now.len() ==> (#[trigger] now[j]).foreign_id != foreign_id,
    ensures
        last_listed(now, foreign_id) == Some(k),
{
    lemma_last_listed(now, foreign_id);
    let at = last_listed(now, foreign_id)->0;
    if at > k {
        assert(now[at].foreign_id != foreign_id);
    } else if at < k {
        assert(now[k].foreign_id != foreign_id);
    }
}

/// Whatever became of the other windows, each remembered window that is still listed and takes
/// requests comes back, and is then maximized just if it was. If the compositor can do that, it
/// is first moved to its workspace on the first of the outputs that it is on. A window is found
/// again by its id, the last one listed where there are several.
pub proof fn law_each_remembered_window_comes_back(
    state: AppView,
    now: Seq<ToplevelView>,
    e: int,
    k: int,
)
    requires
        state.has_manager,
        0 <= e < state.snapshot.len(),
        0 <= k < now.len() <= usize::MAX,
        now[k].foreign_id == state.snapshot[e].foreign_id,
        forall|j: int|
            k < j < now.len() ==> (#[trigger] now[j]).foreign_id != state.snapshot[e].foreign_id,
        now[k].controllable,
    ensures
        restore_snapshot(state, now).1 is Ok,
        toggle(state, now).1 == restore_snapshot(state, now).1,
        ({
            let asked = restore_snapshot(state, now).1->Ok_0;
            let entry = state.snapshot[e];
            let window = k as usize;
            exists|p: int|
                {
                    &&& 0 <= p < asked.len() - 1
                    &&& #[trigger] asked[p] == (ToplevelRequest::UnsetMinimized { window })
                    &&& asked[p + 1] == if entry.restore_kind is Maximized {
                        ToplevelRequest::SetMaximized { window }
                    } else {
                        ToplevelRequest::UnsetMaximized { window }
                    }
                    &&& state.supports_move_to_ext_workspace && entry.workspace is Some
                        && now[k].outputs.len() > 0 ==> p > 0 && asked[p - 1] == (
                    ToplevelRequest::MoveToExtWorkspace {
                        window,
                        workspace: entry.workspace->0,
                        output: now[k].outputs[0],
                    })
                }
        }),
{
    let can_move = state.supports_move_to_ext_workspace;
    let was_active = |entry: SnapshotEntry| entry.was_active;
    let order = restoring_order(state.snapshot, was_active);
    let restore = |entry: SnapshotEntry| restore_requests(entry, now, can_move);
    let groups = order.map_values(restore);
    let entry = state.snapshot[e];
    crate::laws::lemma_order_members(state.snapshot, was_active, entry);
    assert(state.snapshot.contains(entry));
    let j = choose|j: int| 0 <= j < order.len() && order[j] == entry;
    let start = crate::sequences::lemma_flatten_block(groups, j);
    lemma_listed_last(now, entry.foreign_id, k);
    let moving = move_requests(entry, now[k], k, can_move);
    let group = groups[j];
    assert(group == restore_requests(entry, now, can_move));
    let asked = restore_snapshot(state, now).1->Ok_0;
    assert(asked == groups.flatten());
    let m = moving.len() as int;
    let p = start + m;
    assert(asked[start + m] == group[m]);
    assert(asked[start + (m + 1)] == group[m + 1]);
    if m > 0 {
        assert(asked[start + (m - 1)] == group[m - 1]);
    }
    assert(asked[p] == (ToplevelRequest::UnsetMinimized { window: k as usize }));
}

/// Nothing is asked but what brings back a remembered window that is still listed and takes
/// requests.
pub proof fn law_only_remembered_windows_come_back(
    state: AppView,
    now: Seq<ToplevelView>,
    request: ToplevelRequest,
)
    requires
        state.has_manager,
        now.len() <= usize::MAX,
        restore_snapshot(state, now).1->Ok_0.contains(request),
    ensures
        exists|e: int, k: int|
            {
                let entry = #[trigger] state.snapshot[e];
                let window = k as usize;
                &&& 0 <= e < state.snapshot.len()
                &&& 0 <= k < now.len()
                &&& (#[trigger] now[k]).foreign_id == entry.foreign_id
                &&& now[k].controllable
                &&& forall|j: int| k < j < now.len() ==> now[j].foreign_id != entry.foreign_id
                &&& {
                    ||| request == ToplevelRequest::UnsetMinimized { window }
                    ||| entry.restore_kind is Maximized && request
                        == ToplevelRequest::SetMaximized { window }
                    ||| entry.restore_kind is Normal && request
                        == ToplevelRequest::UnsetMaximized { window }
                    ||| state.supports_move_to_ext_workspace && entry.workspace is Some
                        && now[k].outputs.len() > 0 && request
                        == ToplevelRequest::MoveToExtWorkspace {
                        window,
                        workspace: entry.workspace->0,
                        output: now[k].outputs[0],
                    }
                }
            },
{
    let can_move = state.supports_move_to_ext_workspace;
    let was_active = |entry: SnapshotEntry| entry.was_active;
    let order = restoring_order(state.snapshot, was_active);
    let restore = |entry: SnapshotEntry| restore_requests(entry, now, can_move);
    let groups = order.map_values(restore);
    crate::sequences::lemma_flatten_contains(groups, request);
    let g = choose|g: int| 0 <= g < groups.len() && (#[trigger] groups[g]).contains(request);
    let entry = order[g];
    assert(order.contains(entry));
    crate::laws::lemma_order_members(state.snapshot, was_active, entry);
    let e = choose|e: int| 0 <= e < state.snapshot.len() && state.snapshot[e] == entry;
    lemma_last_listed(now, entry.foreign_id);
    assert(groups[g] == restore_requests(entry, now, can_move));
    let k = last_listed(now, entry.foreign_id)->0;
    assert(state.snapshot[e] == entry && now[k].foreign_id == entry.foreign_id);
}

/// What is asked for one remembered window: to move it back where that can be done, to
/// un-minimize it, and to give back its maximize state, in this order; nothing if the window is
/// gone or takes no requests.
pub proof fn law_restoring_one_window(
    state: AppView,
    now: Seq<ToplevelView>,
    entry: SnapshotEntry,
    k: int,
)
    requires
        state.has_manager,
        state.snapshot == seq![entry],
        now.len() <= usize::MAX,
        k == -1 || (0 <= k < now.len() && now[k].foreign_id == entry.foreign_id),
        forall|j: int| k < j < now.len() ==> (#[trigger] now[j]).foreign_id != entry.foreign_id,
    ensures
        ({
            let asked = restore_snapshot(state, now).1->Ok_0;
            let window = k as usize;
            let kind = if entry.restore_kind is Maximized {
                ToplevelRequest::SetMaximized { window }
            } else {
                ToplevelRequest::UnsetMaximized { window }
            };
            if k == -1 || !now[k].controllable {
                asked.len() == 0
            } else if state.supports_move_to_ext_workspace && entry.workspace is Some
                && now[k].outputs.len() > 0 {
                asked == seq![
                    ToplevelRequest::MoveToExtWorkspace {
                        window,
                        workspace: entry.workspace->0,
                        output: now[k].outputs[0],
                    },
                    ToplevelRequest::UnsetMinimized { window },
                    kind,
                ]
            } else {
                asked == seq![ToplevelRequest::UnsetMinimized { window }, kind]
            }
        }),
{
    let can_move = state.supports_move_to_ext_workspace;
    let restore = |entry: SnapshotEntry| restore_requests(entry, now, can_move);
    let asked = restore_snapshot(state, now).1->Ok_0;
    assert(asked == restore_requests(entry, now, can_move)) by {
        lemma_alike_in_turn(state.snapshot, now, can_move, entry.was_active);
        seq![entry].lemma_flat_map_singleton(restore);
    }
    lemma_restore_one(entry, now, can_move, k);
}

/// The requests that restore one window.
proof fn lemma_restore_one(
    entry: SnapshotEntry,
    now: Seq<ToplevelView>,
    can_move: bool,
    k: int,
)
    requires
        k == -1 || (0 <= k < now.len() && now[k].foreign_id == entry.foreign_id),
        forall|j: int| k < j < now.len() ==> (#[trigger] now[j]).foreign_id != entry.foreign_id,
    ensures
        ({
            let asked = restore_requests(entry, now, can_move);
            let unset = ToplevelRequest::UnsetMinimized { window: k as usize };
            let kind = crate::model::restore_kind_request(entry.restore_kind, k);
            if k == -1 || !now[k].controllable {
                asked.len() == 0
            } else {
                let moving = move_requests(entry, now[k], k, can_move);
                if moving.len() > 0 {
                    moving.len() == 1 && asked == seq![moving[0], unset, kind]
                } else {
                    asked == seq![unset, kind]
                }
            }
        }),
{
    if k == -1 {
        lemma_last_listed(now, entry.foreign_id);
    } else {
        lemma_listed_last(now, entry.foreign_id, k);
    }
}

/// Entries that are all of active windows, or all of others, are restored in their order.
proof fn lemma_alike_keep_their_order(entries: Seq<SnapshotEntry>, active: bool)
    requires
        forall|k: int| 0 <= k < entries.len() ==> (#[trigger] entries[k]).was_active == active,
    ensures
        restoring_order(entries, |entry: SnapshotEntry| entry.was_active) == entries,
{
    let was_active = |entry: SnapshotEntry| entry.was_active;
    let was_not_active = |entry: SnapshotEntry| !was_active(entry);
    if active {
        crate::sequences::lemma_filter_all(entries, was_active);
        crate::sequences::lemma_filter_fails(entries, was_not_active);
    } else {
        crate::sequences::lemma_filter_all(entries, was_not_active);
        crate::sequences::lemma_filter_fails(entries, was_active);
    }
    assert(restoring_order(entries, was_active) =~= entries);
}

/// What is asked for such entries.
proof fn lemma_alike_in_turn(
    entries: Seq<SnapshotEntry>,
    now: Seq<ToplevelView>,
    can_move: bool,
    active: bool,
)
    requires
        forall|k: int| 0 <= k < entries.len() ==> (#[trigger] entries[k]).was_active == active,
    ensures
        restore_all_requests(entries, now, can_move) == entries.flat_map(
            |entry: SnapshotEntry| restore_requests(entry, now, can_move),
        ),
{
    let was_active = |entry: SnapshotEntry| entry.was_active;
    let restore = |entry: SnapshotEntry| restore_requests(entry, now, can_move);
    let order = restoring_order(entries, was_active);
    assert(restore_all_requests(entries, now, can_move) == order.flat_map(restore));
    assert(order == entries) by {
        lemma_alike_keep_their_order(entries, active);
    }
}

/// Windows that were all active, or all not, are restored one after the other, in the order in
/// which they are remembered.
pub proof fn law_windows_are_restored_in_turn(
    state: AppView,
    now: Seq<ToplevelView>,
    first: Seq<SnapshotEntry>,
    second: Seq<SnapshotEntry>,
    active: bool,
)
    requires
        state.has_manager,
        forall|k: int| 0 <= k < first.len() ==> (#[trigger] first[k]).was_active == active,
        forall|k: int| 0 <= k < second.len() ==> (#[trigger] second[k]).was_active == active,
    ensures
        restore_snapshot(AppView { snapshot: first + second, ..state }, now).1->Ok_0
            == restore_snapshot(AppView { snapshot: first, ..state }, now).1->Ok_0
            + restore_snapshot(AppView { snapshot: second, ..state }, now).1->Ok_0,
{
    let can_move = state.supports_move_to_ext_workspace;
    let restore = |entry: SnapshotEntry| restore_requests(entry, now, can_move);
    lemma_alike_in_turn(first, now, can_move, active);
    lemma_alike_in_turn(second, now, can_move, active);
    assert forall|k: int| 0 <= k < (first + second).len() implies (
    #[trigger] (first + second)[k]).was_active == active by {
        if k < first.len() {
            assert((first + second)[k] == first[k]);
        } else {
            assert((first + second)[k] == second[k - first.len()]);
        }
    }
    lemma_alike_in_turn(first + second, now, can_move, active);
    assert((first + second).map_values(restore) =~= first.map_values(restore)
        + second.map_values(restore));
    vstd::seq_lib::lemma_flatten_concat(first.map_values(restore), second.map_values(restore));
}

/// All that is asked for windows that were active comes after all that is asked for others,
/// and is what would be asked if these alone were remembered.
pub proof fn law_active_windows_are_restored_last(state: AppView, now: Seq<ToplevelView>)
    requires
        state.has_manager,
    ensures
        ({
            let others = state.snapshot.filter(|entry: SnapshotEntry| !entry.was_active);
            let active = state.snapshot.filter(|entry: SnapshotEntry| entry.was_active);
            restore_snapshot(state, now).1->Ok_0 == restore_snapshot(
                AppView { snapshot: others, ..state },
                now,
            ).1->Ok_0 + restore_snapshot(AppView { snapshot: active, ..state }, now).1->Ok_0
        }),
{
    let was_active = |entry: SnapshotEntry| entry.was_active;
    let was_not_active = |entry: SnapshotEntry| !was_active(entry);
    assert(was_not_active =~= (|entry: SnapshotEntry| !entry.was_active));
    crate::laws::law_active_windows_come_last(
        state.snapshot,
        now,
        state.supports_move_to_ext_workspace,
    );
}

/// Minimizing all windows while one of them is active and toggling again: the very last
/// requests bring back a window that was active, and give it back its maximize state. An active
/// window must not share its id with one that is listed after it.
pub proof fn law_active_window_is_restored_last(
    state: AppView,
    windows: Seq<ToplevelView>,
    active: int,
)
    requires
        0 <= active < windows.len() <= usize::MAX,
        state.has_manager,
        state.snapshot.len() == 0,
        windows[active].managed(),
        windows[active].controllable,
        !windows[active].state.contains(ToplevelState::Minimized),
        windows[active].state.contains(ToplevelState::Activated),
        forall|i: int, k: int|
            0 <= i < k < windows.len() && (#[trigger] windows[i]).state.contains(
                ToplevelState::Activated,
            ) ==> (#[trigger] windows[k]).foreign_id != windows[i].foreign_id,
    ensures
        ({
            let (minimized, asked) = toggle(state, windows);
            let hidden = windows_after(asked->Ok_0, windows);
            let asked_again = toggle(minimized, hidden).1->Ok_0;
            exists|at: int|
                {
                    let window = at as usize;
                    &&& 0 <= at < windows.len()
                    &&& (#[trigger] windows[at]).managed()
                    &&& windows[at].controllable
                    &&& !windows[at].state.contains(ToplevelState::Minimized)
                    &&& windows[at].state.contains(ToplevelState::Activated)
                    &&& asked_again.len() >= 2
                    &&& asked_again[asked_again.len() - 2] == (ToplevelRequest::UnsetMinimized {
                        window,
                    })
                    &&& asked_again.last() == if windows[at].state.contains(
                        ToplevelState::Maximized,
                    ) {
                        ToplevelRequest::SetMaximized { window }
                    } else {
                        ToplevelRequest::UnsetMaximized { window }
                    }
                }
        }),
{
    let (minimized, asked) = toggle(state, windows);
    let hidden = windows_after(asked->Ok_0, windows);
    let snapshot = snapshot_of(windows);
    let was_active = |entry: SnapshotEntry| entry.was_active;
    let kept = snapshot.filter(was_active);
    crate::laws::law_minimize_all_minimizes(windows);
    crate::laws::law_active_windows_come_last(
        snapshot,
        hidden,
        state.supports_move_to_ext_workspace,
    );
    let own = windows[active].snapshot_entry();
    assert(windows[active].to_minimize());
    crate::laws::lemma_snapshot_members(windows, own);
    let m = choose|m: int| 0 <= m < snapshot.len() && snapshot[m] == own;
    snapshot.lemma_filter_contains(was_active, m);
    assert(kept.len() > 0);
    let last = kept.last();
    snapshot.lemma_filter_pred(was_active, kept.len() - 1);
    assert(kept.contains(last));
    snapshot.lemma_filter_contains_rev(was_active, last);
    crate::laws::lemma_snapshot_members(windows, last);
    let at = choose|at: int|
        0 <= at < windows.len() && (#[trigger] windows[at]).to_minimize()
            && windows[at].snapshot_entry() == last;
    assert(hidden[at].foreign_id == last.foreign_id);
    assert forall|j: int| at < j < hidden.len() implies (#[trigger] hidden[j]).foreign_id
        != last.foreign_id by {
        assert(hidden[j].foreign_id == windows[j].foreign_id);
    }
    lemma_listed_last(hidden, last.foreign_id, at);
    assert(hidden[at].controllable);
    assert(windows[at].managed());
}

} // verus!
