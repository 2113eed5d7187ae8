//! What holds of the applet as a whole.

use vstd::prelude::*;

use crate::effects::{spares, window_after, windows_after};
use crate::model::{
    last_listed, lemma_last_listed, minimize_requests, move_requests, minimize_all, observe,
    positions, remembers, restore_all_requests, restore_kind_request, restore_requests,
    restoring_order, snapshot_of, toggle, AppView,
};
use crate::request::ToplevelRequest;
use crate::snapshot::{lowest, RestoreKind, SnapshotEntry};
use crate::toplevel::{ToplevelState, ToplevelView};

verus! {

/// The window, minimized.
pub open spec fn as_minimized(window: ToplevelView) -> ToplevelView {
    ToplevelView { state: window.state.insert(ToplevelState::Minimized), ..window }
}

/// One request to minimize for each of the positions.
pub open spec fn minimize_each(positions: Seq<int>) -> Seq<ToplevelRequest> {
    positions.map_values(|i: int| ToplevelRequest::SetMinimized { window: i as usize })
}

pub proof fn lemma_minimize_each(positions: Seq<int>, at: int, window: ToplevelView)
    requires
        0 <= at <= usize::MAX,
        forall|k: int| 0 <= k < positions.len() ==> 0 <= #[trigger] positions[k] <= usize::MAX,
    ensures
        window_after(minimize_each(positions), at, window) == if positions.contains(at) {
            as_minimized(window)
        } else {
            window
        },
    decreases positions.len(),
{
    if positions.len() > 0 {
        let rest = positions.drop_last();
        assert forall|k: int| 0 <= k < rest.len() implies 0 <= #[trigger] rest[k] <= usize::MAX by {
            assert(rest[k] == positions[k]);
        }
        lemma_minimize_each(rest, at, window);
        assert(minimize_each(positions).drop_last() =~= minimize_each(rest));
        assert(positions[positions.len() - 1] == positions.last());
        assert(0 <= positions.last() <= usize::MAX);
        if positions.contains(at) {
            let k = choose|k: int| 0 <= k < positions.len() && positions[k] == at;
            if k < rest.len() {
                assert(rest[k] == at);
            }
        }
        if rest.contains(at) {
            let k = choose|k: int| 0 <= k < rest.len() && rest[k] == at;
            assert(positions[k] == at);
            assert(window.state.insert(ToplevelState::Minimized).insert(ToplevelState::Minimized)
                =~= window.state.insert(ToplevelState::Minimized));
        }
    }
}

pub proof fn lemma_positions_members(
    windows: Seq<ToplevelView>,
    pred: spec_fn(ToplevelView) -> bool,
    i: int,
)
    ensures
        positions(windows, pred).contains(i) <==> 0 <= i < windows.len() && pred(windows[i]),
{
    let all = Seq::new(windows.len(), |i: int| i);
    let at_pred = |i: int| pred(windows[i]);
    if 0 <= i < windows.len() && pred(windows[i]) {
        assert(all[i] == i);
        all.lemma_filter_contains(at_pred, i);
    }
    if positions(windows, pred).contains(i) {
        all.lemma_filter_contains_rev(at_pred, i);
        let k = choose|k: int|
            0 <= k < positions(windows, pred).len() && positions(windows, pred)[k] == i;
        all.lemma_filter_pred(at_pred, k);
    }
}

/// Minimizing all windows leaves none that would still have to be minimized, and changes no
/// other window.
pub proof fn law_minimize_all_minimizes(windows: Seq<ToplevelView>)
    requires
        windows.len() <= usize::MAX,
    ensures
        windows_after(minimize_requests(windows), windows) == Seq::new(
            windows.len(),
            |i: int|
                if windows[i].to_minimize() {
                    as_minimized(windows[i])
                } else {
                    windows[i]
                },
        ),
        forall|i: int|
            0 <= i < windows.len() ==> !(#[trigger] windows_after(
                minimize_requests(windows),
                windows,
            )[i]).to_minimize(),
{
    let pred = |window: ToplevelView| window.to_minimize();
    let found = positions(windows, pred);
    assert forall|k: int| 0 <= k < found.len() implies 0 <= #[trigger] found[k] <= usize::MAX by {
        lemma_positions_members(windows, pred, found[k]);
        assert(found.contains(found[k]));
    }
    assert forall|i: int| 0 <= i < windows.len() implies #[trigger] window_after(
        minimize_requests(windows),
        i,
        windows[i],
    ) == if windows[i].to_minimize() {
        as_minimized(windows[i])
    } else {
        windows[i]
    } by {
        lemma_positions_members(windows, pred, i);
        lemma_minimize_each(found, i, windows[i]);
    }
}

pub proof fn lemma_order_members<E>(entries: Seq<E>, was_active: spec_fn(E) -> bool, entry: E)
    ensures
        restoring_order(entries, was_active).contains(entry) <==> entries.contains(entry),
{
    let was_not_active = |entry: E| !was_active(entry);
    let order = restoring_order(entries, was_active);
    let first = entries.filter(was_not_active);
    let second = entries.filter(was_active);
    if entries.contains(entry) {
        let k = choose|k: int| 0 <= k < entries.len() && entries[k] == entry;
        if was_active(entry) {
            entries.lemma_filter_contains(was_active, k);
            let m = choose|m: int| 0 <= m < second.len() && second[m] == entry;
            assert(order[first.len() + m] == entry);
        } else {
            entries.lemma_filter_contains(was_not_active, k);
            let m = choose|m: int| 0 <= m < first.len() && first[m] == entry;
            assert(order[m] == entry);
        }
    }
    if order.contains(entry) {
        let k = choose|k: int| 0 <= k < order.len() && order[k] == entry;
        if k < first.len() {
            assert(first.contains(first[k]));
            entries.lemma_filter_contains_rev(was_not_active, entry);
        } else {
            assert(second[k - first.len()] == entry);
            entries.lemma_filter_contains_rev(was_active, entry);
        }
    }
}

pub proof fn lemma_snapshot_members(windows: Seq<ToplevelView>, entry: SnapshotEntry)
    ensures
        snapshot_of(windows).contains(entry) <==> exists|i: int|
            0 <= i < windows.len() && (#[trigger] windows[i]).to_minimize()
                && windows[i].snapshot_entry() == entry,
{
    let pred = |window: ToplevelView| window.to_minimize();
    let kept = windows.filter(pred);
    let snapshot = snapshot_of(windows);
    if snapshot.contains(entry) {
        let k = choose|k: int| 0 <= k < snapshot.len() && snapshot[k] == entry;
        assert(kept.contains(kept[k]));
        windows.lemma_filter_contains_rev(pred, kept[k]);
        windows.lemma_filter_pred(pred, k);
        let i = choose|i: int| 0 <= i < windows.len() && windows[i] == kept[k];
        assert(windows[i].to_minimize() && windows[i].snapshot_entry() == entry);
    }
    if exists|i: int|
        0 <= i < windows.len() && (#[trigger] windows[i]).to_minimize()
            && windows[i].snapshot_entry() == entry {
        let i = choose|i: int|
            0 <= i < windows.len() && (#[trigger] windows[i]).to_minimize()
                && windows[i].snapshot_entry() == entry;
        windows.lemma_filter_contains(pred, i);
        let k = choose|k: int| 0 <= k < kept.len() && kept[k] == windows[i];
        assert(snapshot[k] == entry);
    }
}

/// Minimizing all windows and then restoring them gives back the windows just as they were,
/// and nothing stays remembered. A window that was minimized must not share its id with one
/// that is listed after it.
pub proof fn law_toggle_twice_restores(state: AppView, windows: Seq<ToplevelView>)
    requires
        windows.len() <= usize::MAX,
        state.has_manager,
        state.snapshot.len() == 0,
        forall|i: int, k: int|
            0 <= i < k < windows.len() && (#[trigger] windows[i]).to_minimize() ==> (
            #[trigger] windows[k]).foreign_id != windows[i].foreign_id,
    ensures
        ({
            let (minimized, asked) = toggle(state, windows);
            let hidden = windows_after(asked->Ok_0, windows);
            let (restored, asked_again) = toggle(minimized, hidden);
            &&& asked is Ok
            &&& asked_again is Ok
            &&& windows_after(asked_again->Ok_0, hidden) == windows
            &&& restored.snapshot.len() == 0
        }),
{
    let (minimized, asked) = toggle(state, windows);
    let hidden = windows_after(asked->Ok_0, windows);
    let (restored, asked_again) = toggle(minimized, hidden);
    let snapshot = snapshot_of(windows);
    law_minimize_all_minimizes(windows);
    if snapshot.len() == 0 {
        assert forall|i: int| 0 <= i < windows.len() implies !(
        #[trigger] windows[i]).to_minimize() by {
            if windows[i].to_minimize() {
                lemma_snapshot_members(windows, windows[i].snapshot_entry());
            }
        }
        assert(hidden =~= windows);
        assert(restored.snapshot =~= seq![]);
    } else {
        let can_move = state.supports_move_to_ext_workspace;
        let order = restoring_order(snapshot, |entry: SnapshotEntry| entry.was_active);
        let restore = |entry: SnapshotEntry| restore_requests(entry, hidden, can_move);
        let groups = order.map_values(restore);
        assert forall|i: int| 0 <= i < windows.len() implies #[trigger] window_after(
            groups.flatten(),
            i,
            hidden[i],
        ) == windows[i] by {
            lemma_restores_window(windows, hidden, can_move, i);
        }
        assert(windows_after(asked_again->Ok_0, hidden) =~= windows);
    }
}

proof fn lemma_restores_window(
    windows: Seq<ToplevelView>,
    hidden: Seq<ToplevelView>,
    can_move: bool,
    i: int,
)
    requires
        windows.len() <= usize::MAX,
        0 <= i < windows.len(),
        forall|i: int, k: int|
            0 <= i < k < windows.len() && (#[trigger] windows[i]).to_minimize() ==> (
            #[trigger] windows[k]).foreign_id != windows[i].foreign_id,
        hidden == Seq::new(
            windows.len(),
            |i: int|
                if windows[i].to_minimize() {
                    as_minimized(windows[i])
                } else {
                    windows[i]
                },
        ),
    ensures
        window_after(
            restoring_order(
                snapshot_of(windows),
                |entry: SnapshotEntry| entry.was_active,
            ).map_values(
                |entry: SnapshotEntry| restore_requests(entry, hidden, can_move),
            ).flatten(),
            i,
            hidden[i],
        ) == windows[i],
{
    let snapshot = snapshot_of(windows);
    let was_active = |entry: SnapshotEntry| entry.was_active;
    let order = restoring_order(snapshot, was_active);
    let restore = |entry: SnapshotEntry| restore_requests(entry, hidden, can_move);
    let groups = order.map_values(restore);
    let own = windows[i].snapshot_entry();
    let group = restore(own);
    // Each entry is that of a window, and that window alone is concerned by it.
    assert forall|k: int| 0 <= k < groups.len() implies spares(#[trigger] groups[k], i) || (
    windows[i].to_minimize() && groups[k] == group) by {
        let entry = order[k];
        assert(order.contains(entry));
        lemma_order_members(snapshot, was_active, entry);
        lemma_snapshot_members(windows, entry);
        let j = choose|j: int|
            0 <= j < windows.len() && (#[trigger] windows[j]).to_minimize()
                && windows[j].snapshot_entry() == entry;
        lemma_last_listed(hidden, entry.foreign_id);
        assert(hidden[j].foreign_id == entry.foreign_id);
        let at = last_listed(hidden, entry.foreign_id)->0;
        assert(hidden[at].foreign_id == windows[at].foreign_id);
        assert(at == j);
        if j != i {
            assert(spares(groups[k], i));
        }
    }
    if windows[i].to_minimize() {
        lemma_snapshot_members(windows, own);
        lemma_order_members(snapshot, was_active, own);
        let k = choose|k: int| 0 <= k < order.len() && order[k] == own;
        assert(groups[k] == group);
        lemma_last_listed(hidden, own.foreign_id);
        let at = last_listed(hidden, own.foreign_id)->0;
        assert(hidden[i].foreign_id == own.foreign_id);
        assert(hidden[at].foreign_id == windows[at].foreign_id);
        assert(at == i);
        lemma_restore_group(own, hidden, can_move, i, hidden[i]);
        lemma_restore_group(own, hidden, can_move, i, window_after(group, i, hidden[i]));
        crate::effects::lemma_window_after_repeated(groups, group, i, hidden[i]);
        assert(window_after(group, i, hidden[i]).state =~= windows[i].state);
    } else {
        crate::effects::lemma_window_after_only(groups, -1, i, hidden[i]);
    }
}

/// The state in which an entry leaves its window.
pub open spec fn state_restored(
    kind: RestoreKind,
    state: Set<ToplevelState>,
) -> Set<ToplevelState> {
    match kind {
        RestoreKind::Maximized => state.remove(ToplevelState::Minimized).insert(
            ToplevelState::Maximized,
        ),
        RestoreKind::Normal => state.remove(ToplevelState::Minimized).remove(
            ToplevelState::Maximized,
        ),
    }
}

proof fn lemma_restore_group(
    entry: SnapshotEntry,
    windows: Seq<ToplevelView>,
    can_move: bool,
    at: int,
    window: ToplevelView,
)
    requires
        0 <= at < windows.len() <= usize::MAX,
        last_listed(windows, entry.foreign_id) == Some(at),
        windows[at].controllable,
    ensures
        window_after(restore_requests(entry, windows, can_move), at, window) == (ToplevelView {
            state: state_restored(entry.restore_kind, window.state),
            ..window
        }),
        state_restored(entry.restore_kind, state_restored(entry.restore_kind, window.state))
            == state_restored(entry.restore_kind, window.state),
{
    let moving = move_requests(entry, windows[at], at, can_move);
    let unset = ToplevelRequest::UnsetMinimized { window: at as usize };
    let kind = restore_kind_request(entry.restore_kind, at);
    let restoring = seq![unset, kind];
    crate::effects::lemma_window_after_concat(moving, restoring, at, window);
    assert(window_after(moving, at, window) == window) by {
        reveal_with_fuel(window_after, 2);
        if moving.len() > 0 {
            assert(moving.drop_last() =~= seq![]);
        }
    }
    lemma_restoring_pair(entry.restore_kind, at, window);
    assert(state_restored(entry.restore_kind, state_restored(entry.restore_kind, window.state))
        =~= state_restored(entry.restore_kind, window.state));
}

pub proof fn lemma_restoring_pair(kind: RestoreKind, at: int, window: ToplevelView)
    requires
        0 <= at <= usize::MAX,
    ensures
        window_after(
            seq![
                ToplevelRequest::UnsetMinimized { window: at as usize },
                restore_kind_request(kind, at),
            ],
            at,
            window,
        ) == (ToplevelView { state: state_restored(kind, window.state), ..window }),
{
    let pair = seq![
        ToplevelRequest::UnsetMinimized { window: at as usize },
        restore_kind_request(kind, at),
    ];
    assert(pair.drop_last() =~= seq![pair[0]]);
    assert(pair.drop_last().drop_last() =~= seq![]);
    reveal_with_fuel(window_after, 3);
}

/// The window at `k` of a later listing is the one to restore for some window that was
/// minimized and satisfies `pred`.
pub open spec fn restored_for(
    windows: Seq<ToplevelView>,
    now: Seq<ToplevelView>,
    k: int,
    pred: spec_fn(ToplevelView) -> bool,
) -> bool {
    &&& now[k].controllable
    &&& last_listed(now, now[k].foreign_id) == Some(k)
    &&& exists|i: int|
        0 <= i < windows.len() && (#[trigger] windows[i]).to_minimize() && windows[i].foreign_id
            == now[k].foreign_id && pred(windows[i])
}

proof fn lemma_restore_contains(
    windows: Seq<ToplevelView>,
    now: Seq<ToplevelView>,
    can_move: bool,
    request: ToplevelRequest,
)
    ensures
        restore_all_requests(snapshot_of(windows), now, can_move).contains(request) <==> exists|
            i: int,
        |
            0 <= i < windows.len() && (#[trigger] windows[i]).to_minimize() && restore_requests(
                windows[i].snapshot_entry(),
                now,
                can_move,
            ).contains(request),
{
    let snapshot = snapshot_of(windows);
    let was_active = |entry: SnapshotEntry| entry.was_active;
    let order = restoring_order(snapshot, was_active);
    let restore = |entry: SnapshotEntry| restore_requests(entry, now, can_move);
    let groups = order.map_values(restore);
    crate::sequences::lemma_flatten_contains(groups, request);
    if groups.flatten().contains(request) {
        let g = choose|g: int| 0 <= g < groups.len() && (#[trigger] groups[g]).contains(request);
        assert(order.contains(order[g]));
        lemma_order_members(snapshot, was_active, order[g]);
        lemma_snapshot_members(windows, order[g]);
    }
    if exists|i: int|
        0 <= i < windows.len() && (#[trigger] windows[i]).to_minimize() && restore_requests(
            windows[i].snapshot_entry(),
            now,
            can_move,
        ).contains(request) {
        let i = choose|i: int|
            0 <= i < windows.len() && (#[trigger] windows[i]).to_minimize() && restore_requests(
                windows[i].snapshot_entry(),
                now,
                can_move,
            ).contains(request);
        let entry = windows[i].snapshot_entry();
        lemma_snapshot_members(windows, entry);
        lemma_order_members(snapshot, was_active, entry);
        let g = choose|g: int| 0 <= g < order.len() && order[g] == entry;
        assert(groups[g].contains(request));
    }
}

/// Whatever windows came and went meanwhile, the windows that are restored are those that were
/// minimized and are still listed and controllable, and each is maximized just if it was. If
/// the compositor can do that, each that is on an output is moved to the lowest of the
/// workspaces that it was on.
pub proof fn law_restores_what_was_minimized(
    windows: Seq<ToplevelView>,
    now: Seq<ToplevelView>,
    can_move: bool,
    k: int,
)
    requires
        0 <= k < now.len() <= usize::MAX,
    ensures
        ({
            let asked = restore_all_requests(snapshot_of(windows), now, can_move);
            let window = k as usize;
            &&& asked.contains(ToplevelRequest::UnsetMinimized { window }) <==> restored_for(
                windows,
                now,
                k,
                |was: ToplevelView| true,
            )
            &&& asked.contains(ToplevelRequest::SetMaximized { window }) <==> restored_for(
                windows,
                now,
                k,
                |was: ToplevelView| was.maximized(),
            )
            &&& asked.contains(ToplevelRequest::UnsetMaximized { window }) <==> restored_for(
                windows,
                now,
                k,
                |was: ToplevelView| !was.maximized(),
            )
            &&& !asked.contains(ToplevelRequest::SetMinimized { window })
            &&& forall|workspace: u32, output: u32|
                asked.contains(
                    ToplevelRequest::MoveToExtWorkspace { window, workspace, output },
                ) <==> can_move && now[k].outputs.len() > 0 && output == now[k].outputs[0]
                    && restored_for(
                    windows,
                    now,
                    k,
                    |was: ToplevelView| lowest(was.workspaces) == Some(workspace),
                )
        }),
{
    let window = k as usize;
    let (unset, set_max, unset_max, set) = (
        ToplevelRequest::UnsetMinimized { window },
        ToplevelRequest::SetMaximized { window },
        ToplevelRequest::UnsetMaximized { window },
        ToplevelRequest::SetMinimized { window },
    );
    lemma_restore_contains(windows, now, can_move, unset);
    lemma_restore_contains(windows, now, can_move, set_max);
    lemma_restore_contains(windows, now, can_move, unset_max);
    lemma_restore_contains(windows, now, can_move, set);
    let all_asked = restore_all_requests(snapshot_of(windows), now, can_move);
    assert forall|workspace: u32, output: u32|
        all_asked.contains(
            ToplevelRequest::MoveToExtWorkspace { window, workspace, output },
        ) <==> can_move && now[k].outputs.len() > 0 && output == now[k].outputs[0] && restored_for(
            windows,
            now,
            k,
            |was: ToplevelView| lowest(was.workspaces) == Some(workspace),
        ) by {
        let moved = ToplevelRequest::MoveToExtWorkspace { window, workspace, output };
        lemma_restore_contains(windows, now, can_move, moved);
        assert forall|i: int|
            0 <= i < windows.len() && (#[trigger] windows[i]).to_minimize() implies restore_requests(
            windows[i].snapshot_entry(),
            now,
            can_move,
        ).contains(moved) == (now[k].controllable && last_listed(now, now[k].foreign_id) == Some(k)
            && windows[i].foreign_id == now[k].foreign_id && can_move && now[k].outputs.len() > 0
            && output == now[k].outputs[0] && lowest(windows[i].workspaces) == Some(workspace)) by {
            let entry = windows[i].snapshot_entry();
            let asked = restore_requests(entry, now, can_move);
            lemma_last_listed(now, entry.foreign_id);
            if let Some(at) = last_listed(now, entry.foreign_id) {
                if now[at].controllable {
                    let moving = move_requests(entry, now[at], at, can_move);
                    if moving.len() > 0 {
                        assert(asked[0] == moving[0]);
                    }
                }
            }
        }
    }
    assert forall|i: int| 0 <= i < windows.len() && (#[trigger] windows[i]).to_minimize() implies {
        let asked = restore_requests(windows[i].snapshot_entry(), now, can_move);
        let here = now[k].controllable && last_listed(now, now[k].foreign_id) == Some(k)
            && windows[i].foreign_id == now[k].foreign_id;
        &&& asked.contains(unset) <==> here
        &&& asked.contains(set_max) <==> here && windows[i].maximized()
        &&& asked.contains(unset_max) <==> here && !windows[i].maximized()
        &&& !asked.contains(set)
    } by {
        let entry = windows[i].snapshot_entry();
        let asked = restore_requests(entry, now, can_move);
        lemma_last_listed(now, entry.foreign_id);
        if let Some(at) = last_listed(now, entry.foreign_id) {
            if now[at].controllable {
                let moving = move_requests(entry, now[at], at, can_move);
                assert(asked[moving.len() as int] == (ToplevelRequest::UnsetMinimized {
                    window: at as usize,
                }));
                assert(asked[moving.len() as int + 1] == restore_kind_request(entry.restore_kind, at));
            }
        }
    }
}

/// The windows that were active are restored after all the others, and if the last of them is
/// still listed and controllable, the very last requests are those for it.
pub proof fn law_active_windows_come_last(
    snapshot: Seq<SnapshotEntry>,
    now: Seq<ToplevelView>,
    can_move: bool,
)
    ensures
        ({
            let was_active = |entry: SnapshotEntry| entry.was_active;
            let others = snapshot.filter(|entry: SnapshotEntry| !was_active(entry));
            let active = snapshot.filter(was_active);
            let asked = restore_all_requests(snapshot, now, can_move);
            &&& asked == restore_all_requests(others, now, can_move) + restore_all_requests(
                active,
                now,
                can_move,
            )
            &&& active.len() > 0 ==> (last_listed(now, active.last().foreign_id) matches Some(at)
                ==> now[at].controllable ==> {
                &&& asked.len() >= 2
                &&& asked[asked.len() - 2] == (ToplevelRequest::UnsetMinimized {
                    window: at as usize,
                })
                &&& asked.last() == restore_kind_request(active.last().restore_kind, at)
            })
        }),
{
    let was_active = |entry: SnapshotEntry| entry.was_active;
    let was_not_active = |entry: SnapshotEntry| !was_active(entry);
    let others = snapshot.filter(was_not_active);
    let active = snapshot.filter(was_active);
    let restore = |entry: SnapshotEntry| restore_requests(entry, now, can_move);
    let never = |entry: SnapshotEntry| false;
    crate::sequences::lemma_filter_filter(snapshot, was_not_active, was_not_active, was_not_active);
    crate::sequences::lemma_filter_filter(snapshot, was_active, was_active, was_active);
    crate::sequences::lemma_filter_filter(snapshot, was_not_active, was_active, never);
    crate::sequences::lemma_filter_filter(snapshot, was_active, was_not_active, never);
    crate::sequences::lemma_filter_none(snapshot, never);
    assert(restoring_order(others, was_active) =~= others);
    assert(restoring_order(active, was_active) =~= active);
    assert((others + active).map_values(restore) =~= others.map_values(restore)
        + active.map_values(restore));
    vstd::seq_lib::lemma_flatten_concat(others.map_values(restore), active.map_values(restore));
    if active.len() > 0 {
        let last = active.last();
        active.drop_last().lemma_flat_map_push(restore, last);
        assert(active =~= active.drop_last().push(last));
    }
}

/// With a toplevel manager, a toggle that finds something to minimize remembers it, and a
/// toggle that finds something remembered forgets it: the two alternate.
pub proof fn law_toggles_alternate(state: AppView, windows: Seq<ToplevelView>)
    requires
        state.has_manager,
    ensures
        state.snapshot.len() > 0 ==> toggle(state, windows).0.snapshot.len() == 0,
        state.snapshot.len() == 0 ==> (toggle(state, windows).0.snapshot.len() > 0 <==> exists|
            i: int,
        |
            0 <= i < windows.len() && (#[trigger] windows[i]).to_minimize()),
{
    let snapshot = snapshot_of(windows);
    if exists|i: int| 0 <= i < windows.len() && (#[trigger] windows[i]).to_minimize() {
        let i = choose|i: int| 0 <= i < windows.len() && (#[trigger] windows[i]).to_minimize();
        lemma_snapshot_members(windows, windows[i].snapshot_entry());
    }
    if snapshot.len() > 0 {
        assert(snapshot.contains(snapshot[0]));
        lemma_snapshot_members(windows, snapshot[0]);
    }
}

/// Without a toplevel manager a toggle fails and changes nothing.
pub proof fn law_failed_toggle_changes_nothing(state: AppView, windows: Seq<ToplevelView>)
    requires
        !state.has_manager,
    ensures
        toggle(state, windows) == (
            state,
            Err::<Seq<ToplevelRequest>, Seq<char>>(crate::error::manager_unavailable_text()),
        ),
{
}

/// Only windows that are managed, take requests and are not minimized are minimized.
pub proof fn law_minimizes_managed_windows_only(windows: Seq<ToplevelView>, k: int)
    requires
        windows.len() <= usize::MAX,
        0 <= k < minimize_requests(windows).len(),
    ensures
        minimize_requests(windows)[k] matches ToplevelRequest::SetMinimized { window }
            && (window as int) < windows.len() && windows[window as int].to_minimize(),
{
    let pred = |window: ToplevelView| window.to_minimize();
    let found = positions(windows, pred);
    assert(found.contains(found[k]));
    lemma_positions_members(windows, pred, found[k]);
}

/// Whatever becomes of the windows that were minimized, it does not make the applet forget
/// them.
pub proof fn law_minimized_windows_stay_remembered(
    state: AppView,
    windows: Seq<ToplevelView>,
    i: int,
    changed: ToplevelView,
)
    requires
        state.has_manager,
        0 <= i < windows.len(),
        windows[i].to_minimize(),
        changed.foreign_id == windows[i].foreign_id,
    ensures
        observe(minimize_all(state, windows).0, Some(changed)) == minimize_all(state, windows).0,
{
    let snapshot = snapshot_of(windows);
    let entry = windows[i].snapshot_entry();
    lemma_snapshot_members(windows, entry);
    let k = choose|k: int| 0 <= k < snapshot.len() && snapshot[k] == entry;
    assert(minimize_all(state, windows).0.snapshot[k].foreign_id == changed.foreign_id);
}

/// That the compositor reports the windows as they are once minimized does not make the applet
/// forget them. A managed window that is visible and takes no requests is the exception: it
/// stays visible and is not remembered.
pub proof fn law_minimizing_is_remembered(state: AppView, windows: Seq<ToplevelView>, i: int)
    requires
        windows.len() <= usize::MAX,
        state.has_manager,
        0 <= i < windows.len(),
        windows[i].managed() && !windows[i].minimized() ==> windows[i].controllable,
    ensures
        ({
            let hidden = windows_after(minimize_requests(windows), windows);
            observe(minimize_all(state, windows).0, Some(hidden[i])) == minimize_all(
                state,
                windows,
            ).0
        }),
{
    law_minimize_all_minimizes(windows);
    let hidden = windows_after(minimize_requests(windows), windows);
    if windows[i].to_minimize() {
        assert(hidden[i] == as_minimized(windows[i]));
        law_minimized_windows_stay_remembered(state, windows, i, hidden[i]);
    } else {
        assert(hidden[i] == windows[i]);
    }
}

/// A part of the desktop shell, a window without identifier and a minimized window never make
/// the applet forget anything.
pub proof fn law_unmanaged_windows_are_ignored(state: AppView, window: ToplevelView)
    requires
        !window.managed() || window.minimized(),
    ensures
        observe(state, Some(window)) == state,
{
}

/// Once another managed window becomes visible, the next toggle minimizes all windows again.
pub proof fn law_visible_stranger_starts_over(
    state: AppView,
    stranger: ToplevelView,
    windows: Seq<ToplevelView>,
)
    requires
        stranger.managed(),
        !stranger.minimized(),
        !remembers(state, stranger.foreign_id),
    ensures
        toggle(observe(state, Some(stranger)), windows) == minimize_all(
            observe(state, Some(stranger)),
            windows,
        ),
        observe(state, Some(stranger)).snapshot.len() == 0,
{
}

} // verus!
