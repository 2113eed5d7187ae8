//! What a toggle across runs asks of the compositor and keeps, said of its outcome.

use vstd::prelude::*;
use vstd::relations::sorted_by;

use crate::effects::windows_after;
use crate::key_order::{key_order, sorted_positions};
use crate::model::{positions, AppView};
use crate::persisted::{
    candidates, claimants, minimize_and_persist, names, persist_requests, rank,
    restore_persisted, restore_target_requests, restoring_places, same_key, served, target,
};
use crate::persistent_toggle::{file_checked, loaded, PersistentStepView};
use crate::request::ToplevelRequest;
use crate::snapshot::PersistedEntryView;
use crate::toplevel::{ToplevelState, ToplevelView};

verus! {

/// Where there is a snapshot file it is read, whatever windows are listed: it is not written
/// over, and nothing is minimized.
pub proof fn law_snapshot_file_is_read(state: AppView, windows: Seq<ToplevelView>)
    ensures
        file_checked(state, true, windows) == PersistentStepView::Load,
{
}

/// Without a toplevel manager nothing is asked and nothing is kept, and the user is told why.
pub proof fn law_nothing_persists_without_manager(
    state: AppView,
    entries: Seq<PersistedEntryView>,
    windows: Seq<ToplevelView>,
)
    requires
        !state.has_manager,
    ensures
        ({
            let text = "cosmic toplevel manager is unavailable"@;
            &&& minimize_and_persist(state, windows) is Err
            &&& minimize_and_persist(state, windows)->Err_0 == text
            &&& restore_persisted(state, entries, windows) == Err::<
                Seq<ToplevelRequest>,
                Seq<char>,
            >(text)
            &&& file_checked(state, false, windows) == PersistentStepView::Reply(Err(text))
            &&& loaded(state, Ok(entries), windows) == PersistentStepView::RestoreAndClear {
                requests: seq![],
                restored: Err(text),
            }
        }),
{
}

/// With one, the steps of the toggle take over what is asked, and what is kept, as it is.
pub proof fn law_steps_take_over_what_is_asked(
    state: AppView,
    entries: Seq<PersistedEntryView>,
    windows: Seq<ToplevelView>,
)
    requires
        state.has_manager,
    ensures
        minimize_and_persist(state, windows) is Ok,
        file_checked(state, false, windows) == (PersistentStepView::MinimizeAndSave {
            requests: minimize_and_persist(state, windows)->Ok_0.0,
            snapshot: minimize_and_persist(state, windows)->Ok_0.1,
        }),
        restore_persisted(state, entries, windows) is Ok,
        loaded(state, Ok(entries), windows) == (PersistentStepView::RestoreAndClear {
            requests: restore_persisted(state, entries, windows)->Ok_0,
            restored: Ok(()),
        }),
{
}

/// Every managed window that takes requests and is visible is asked to be minimized, each once,
/// and nothing else is asked. Of each of them its names, whether it is maximized and whether it
/// is active are kept, in the order in which they are asked: by identifier, by application id,
/// by protocol id, and else as they are listed.
pub proof fn law_persisting_asks_and_keeps(state: AppView, windows: Seq<ToplevelView>)
    requires
        windows.len() <= usize::MAX,
        state.has_manager,
    ensures
        ({
            let (asked, kept) = minimize_and_persist(state, windows)->Ok_0;
            &&& minimize_and_persist(state, windows) is Ok
            &&& forall|i: int|
                0 <= i < windows.len() && (#[trigger] windows[i]).managed()
                    && windows[i].controllable && !windows[i].state.contains(
                    ToplevelState::Minimized,
                ) ==> asked.contains(ToplevelRequest::SetMinimized { window: i as usize })
            &&& kept.len() == asked.len()
            &&& forall|k: int|
                0 <= k < asked.len() ==> {
                    let i = (#[trigger] asked[k])->SetMinimized_window as int;
                    &&& asked[k] is SetMinimized
                    &&& i < windows.len()
                    &&& windows[i].managed()
                    &&& windows[i].controllable
                    &&& !windows[i].state.contains(ToplevelState::Minimized)
                    &&& kept[k].identifier == windows[i].identifier
                    &&& kept[k].app_id == windows[i].app_id
                    &&& kept[k].restore_kind is Maximized <==> windows[i].state.contains(
                        ToplevelState::Maximized,
                    )
                    &&& kept[k].was_active <==> windows[i].state.contains(
                        ToplevelState::Activated,
                    )
                }
            &&& forall|j: int, k: int|
                0 <= j < k < asked.len() ==> {
                    let p = (#[trigger] asked[j])->SetMinimized_window as int;
                    let q = (#[trigger] asked[k])->SetMinimized_window as int;
                    let (a, b) = (windows[p], windows[q]);
                    if a.identifier != b.identifier {
                        crate::text::text_le(a.identifier, b.identifier)
                    } else if a.app_id != b.app_id {
                        crate::text::text_le(a.app_id, b.app_id)
                    } else {
                        a.foreign_id < b.foreign_id || (a.foreign_id == b.foreign_id && p < q)
                    }
                }
        }),
{
    let pred = |window: ToplevelView| window.to_minimize();
    let sorted = sorted_positions(windows, pred);
    let (asked, kept) = minimize_and_persist(state, windows)->Ok_0;
    crate::key_order::lemma_sorted_positions_bounded(windows, pred);
    assert forall|k: int| 0 <= k < sorted.len() implies {
        &&& 0 <= #[trigger] sorted[k] < windows.len()
        &&& windows[sorted[k]].to_minimize()
        &&& asked[k] == (ToplevelRequest::SetMinimized { window: sorted[k] as usize })
        &&& kept[k] == windows[sorted[k]].persisted_entry()
    } by {
        assert(pred(windows[sorted[k]]));
    }
    assert forall|i: int|
        0 <= i < windows.len() && (#[trigger] windows[i]).managed() && windows[i].controllable
            && !windows[i].state.contains(ToplevelState::Minimized) implies asked.contains(
        ToplevelRequest::SetMinimized { window: i as usize },
    ) by {
        assert(pred(windows[i]));
        assert(sorted.contains(i));
        let k = choose|k: int| 0 <= k < sorted.len() && sorted[k] == i;
        assert(asked[k] == (ToplevelRequest::SetMinimized { window: i as usize }));
    }
    crate::key_order::lemma_key_order_total(windows);
    positions(windows, pred).lemma_sort_by_ensures(key_order(windows));
    assert forall|j: int, k: int| 0 <= j < k < asked.len() implies {
        let p = (#[trigger] asked[j])->SetMinimized_window as int;
        let q = (#[trigger] asked[k])->SetMinimized_window as int;
        let (a, b) = (windows[p], windows[q]);
        if a.identifier != b.identifier {
            crate::text::text_le(a.identifier, b.identifier)
        } else if a.app_id != b.app_id {
            crate::text::text_le(a.app_id, b.app_id)
        } else {
            a.foreign_id < b.foreign_id || (a.foreign_id == b.foreign_id && p < q)
        }
    } by {
        assert(key_order(windows)(sorted[j], sorted[k]));
        assert(sorted[j] != sorted[k]);
    }
}

/// A toggle across runs that finds no snapshot file shows the desktop: once it is carried out,
/// no managed window that takes requests is visible, and nothing else about any window has
/// changed.
pub proof fn law_persistent_toggle_shows_the_desktop(
    state: AppView,
    windows: Seq<ToplevelView>,
    i: int,
)
    requires
        0 <= i < windows.len() <= usize::MAX,
        state.has_manager,
    ensures
        file_checked(state, false, windows) matches PersistentStepView::MinimizeAndSave {
            requests,
            snapshot,
        } && {
            let after = windows_after(requests, windows)[i];
            &&& windows_after(requests, windows).len() == windows.len()
            &&& windows[i].managed() && windows[i].controllable ==> after.state.contains(
                ToplevelState::Minimized,
            )
            &&& !(windows[i].managed() && windows[i].controllable) ==> after == windows[i]
            &&& after == (ToplevelView { state: after.state, ..windows[i] })
            &&& forall|state: ToplevelState|
                state !is Minimized ==> (#[trigger] after.state.contains(state)
                    <==> windows[i].state.contains(state))
        },
{
    crate::persisted_laws::law_persisting_minimizes(windows);
    assert(minimize_and_persist(state, windows)->Ok_0.0 == persist_requests(windows));
}

/// An entry restores a window that is managed, takes requests and goes by the names of the
/// entry.
pub proof fn law_entry_restores_a_window_of_its_name(
    entries: Seq<PersistedEntryView>,
    windows: Seq<ToplevelView>,
    e: int,
)
    requires
        target(entries, e, windows) is Some,
    ensures
        ({
            let at = target(entries, e, windows)->0;
            &&& 0 <= at < windows.len()
            &&& windows[at].managed()
            &&& windows[at].controllable
            &&& windows[at].identifier == entries[e].identifier
            &&& windows[at].app_id == entries[e].app_id
        }),
{
    crate::persisted_laws::lemma_target_named(entries, windows, e);
}

/// Of two entries of one name that each restore a window, the later one restores the window
/// with the higher protocol id, and of those with the same id the one that is listed later.
pub proof fn law_later_entries_restore_later_windows(
    entries: Seq<PersistedEntryView>,
    windows: Seq<ToplevelView>,
    a: int,
    b: int,
)
    requires
        a < b,
        entries[a].identifier == entries[b].identifier,
        entries[a].app_id == entries[b].app_id,
        target(entries, a, windows) is Some,
        target(entries, b, windows) is Some,
    ensures
        ({
            let p = target(entries, a, windows)->0;
            let q = target(entries, b, windows)->0;
            windows[p].foreign_id < windows[q].foreign_id || (windows[p].foreign_id
                == windows[q].foreign_id && p < q)
        }),
{
    crate::persisted_laws::lemma_target_named(entries, windows, a);
    crate::persisted_laws::lemma_target_named(entries, windows, b);
    crate::persisted_laws::lemma_same_key(entries[a], entries[b], entries, windows);
    crate::persisted_laws::lemma_rank_bounded(entries, windows, a);
    crate::persisted_laws::lemma_rank_bounded(entries, windows, b);
    crate::persisted_laws::lemma_rank_increases(entries, windows, a, b);
    crate::persisted_laws::law_no_window_is_restored_twice(entries, windows, a, b);
    lemma_candidates_sorted(
        entries[a],
        windows,
        rank(entries, a, windows) as int,
        rank(entries, b, windows) as int,
    );
}

/// The windows that an entry names stand by protocol id, and else as they are listed.
proof fn lemma_candidates_sorted(
    entry: PersistedEntryView,
    windows: Seq<ToplevelView>,
    r: int,
    s: int,
)
    requires
        0 <= r < s < candidates(entry, windows).len(),
    ensures
        ({
            let p = candidates(entry, windows)[r];
            let q = candidates(entry, windows)[s];
            windows[p].foreign_id < windows[q].foreign_id || (windows[p].foreign_id
                == windows[q].foreign_id && p < q)
        }),
{
    let pred = |window: ToplevelView| window.eligible() && names(entry, window);
    let found = candidates(entry, windows);
    crate::key_order::lemma_key_order_total(windows);
    positions(windows, pred).lemma_sort_by_ensures(key_order(windows));
    crate::key_order::lemma_sorted_positions_bounded(windows, pred);
    assert(key_order(windows)(found[r], found[s]));
    assert(pred(windows[found[r]]) && pred(windows[found[s]]));
}

/// Of the windows that the entry at `e` names, as many as there are entries for it are each
/// restored by one.
proof fn lemma_restored_by_some_entry(
    entries: Seq<PersistedEntryView>,
    windows: Seq<ToplevelView>,
    e: int,
    r: int,
) -> (f: int)
    requires
        0 <= e < entries.len(),
        0 <= r < served(entries, entries[e], windows).len(),
    ensures
        served(entries, entries[e], windows).contains(f),
        0 <= f < entries.len(),
        same_key(entries[f], entries[e]),
        target(entries, f, windows) == Some(candidates(entries[e], windows)[r]),
{
    let at_key = |other: int| same_key(entries[other], entries[e]);
    let places = restoring_places(entries);
    let waiting = claimants(entries, entries[e]);
    let queue = served(entries, entries[e], windows);
    crate::persisted::lemma_restoring_places(entries);
    lemma_claimants_in_order(entries, e);
    assert(queue.no_duplicates());
    let f = crate::sequences::lemma_rank_reached(queue, r);
    let k = choose|k: int| 0 <= k < queue.len() && queue[k] == f;
    assert(waiting[k] == f);
    places.lemma_filter_pred(at_key, k);
    assert(waiting.contains(f));
    places.lemma_filter_contains_rev(at_key, f);
    crate::persisted_laws::lemma_same_key(entries[f], entries[e], entries, windows);
    f
}

/// The entry at `a` is restored before the one at `b`.
spec fn precedes(entries: Seq<PersistedEntryView>) -> spec_fn(int, int) -> bool {
    |a: int, b: int|
        (!entries[a].was_active && entries[b].was_active) || (entries[a].was_active
            == entries[b].was_active && a < b)
}

/// The places of the entries stand in the order in which they are restored.
proof fn lemma_places_in_order(entries: Seq<PersistedEntryView>)
    ensures
        sorted_by(restoring_places(entries), precedes(entries)),
{
    let all = Seq::new(entries.len(), |e: int| e);
    let was_active = |e: int| entries[e].was_active;
    let was_not_active = |e: int| !was_active(e);
    let below = |a: int, b: int| a < b;
    let first = all.filter(was_not_active);
    let second = all.filter(was_active);
    crate::sequences::lemma_filter_numbers_increase(entries.len(), was_active);
    crate::sequences::lemma_filter_numbers_increase(entries.len(), was_not_active);
    let places = restoring_places(entries);
    assert(places == first + second);
    assert forall|i: int, j: int| 0 <= i < j < places.len() implies #[trigger] precedes(entries)(
        places[i],
        places[j],
    ) by {
        if j < first.len() {
            all.lemma_filter_pred(was_not_active, i);
            all.lemma_filter_pred(was_not_active, j);
            assert(below(first[i], first[j]));
        } else if i >= first.len() {
            all.lemma_filter_pred(was_active, i - first.len());
            all.lemma_filter_pred(was_active, j - first.len());
            assert(below(second[i - first.len()], second[j - first.len()]));
        } else {
            all.lemma_filter_pred(was_not_active, i);
            all.lemma_filter_pred(was_active, j - first.len());
        }
    }
}

/// So do those of one name, each once.
proof fn lemma_claimants_in_order(entries: Seq<PersistedEntryView>, e: int)
    ensures
        sorted_by(claimants(entries, entries[e]), precedes(entries)),
        claimants(entries, entries[e]).no_duplicates(),
{
    let at_key = |other: int| same_key(entries[other], entries[e]);
    let waiting = claimants(entries, entries[e]);
    lemma_places_in_order(entries);
    crate::sequences::lemma_filter_sorted(restoring_places(entries), at_key, precedes(entries));
    assert forall|i: int, j: int| 0 <= i < j < waiting.len() implies waiting[i] != waiting[j] by {
        assert(precedes(entries)(waiting[i], waiting[j]));
    }
}

/// An entry restores no window only if every managed window of its name that takes requests is
/// restored for another entry of that name that comes before it in the order of restoring:
/// first those of windows that were not active, then those of windows that were, and else as
/// the entries stand.
pub proof fn law_entries_go_without_only_where_windows_are_short(
    entries: Seq<PersistedEntryView>,
    windows: Seq<ToplevelView>,
    e: int,
    k: int,
)
    requires
        0 <= e < entries.len(),
        target(entries, e, windows) is None,
        0 <= k < windows.len(),
        windows[k].managed(),
        windows[k].controllable,
        windows[k].identifier == entries[e].identifier,
        windows[k].app_id == entries[e].app_id,
    ensures
        exists|f: int|
            {
                &&& 0 <= f < entries.len()
                &&& #[trigger] target(entries, f, windows) == Some(k)
                &&& entries[f].identifier == entries[e].identifier
                &&& entries[f].app_id == entries[e].app_id
                &&& (!entries[f].was_active && entries[e].was_active) || (entries[f].was_active
                    == entries[e].was_active && f < e)
            },
{
    let pred = |window: ToplevelView| window.eligible() && names(entries[e], window);
    let found = candidates(entries[e], windows);
    let waiting = claimants(entries, entries[e]);
    let queue = served(entries, entries[e], windows);
    crate::key_order::lemma_sorted_positions_bounded(windows, pred);
    assert(pred(windows[k]));
    assert(found.contains(k));
    let r = choose|r: int| 0 <= r < found.len() && found[r] == k;
    crate::persisted_laws::lemma_claimants(entries, e);
    let m = choose|m: int| 0 <= m < waiting.len() && waiting[m] == e;
    assert(waiting.len() > found.len());
    assert(queue == waiting.take(found.len() as int));
    if m < found.len() {
        assert(queue[m] == e);
    }
    let f = lemma_restored_by_some_entry(entries, windows, e, r);
    let n = choose|n: int| 0 <= n < queue.len() && queue[n] == f;
    lemma_claimants_in_order(entries, e);
    assert(waiting[n] == f);
    assert(precedes(entries)(waiting[n], waiting[m]));
    assert(target(entries, f, windows) == Some(k));
}

/// Where an entry restores a window, each managed window of its name that takes requests and
/// comes before that one, by protocol id or else as listed, is restored too.
pub proof fn law_no_window_is_passed_over(
    entries: Seq<PersistedEntryView>,
    windows: Seq<ToplevelView>,
    e: int,
    k: int,
)
    requires
        0 <= e < entries.len(),
        target(entries, e, windows) is Some,
        0 <= k < windows.len(),
        windows[k].managed(),
        windows[k].controllable,
        windows[k].identifier == entries[e].identifier,
        windows[k].app_id == entries[e].app_id,
        ({
            let at = target(entries, e, windows)->0;
            windows[k].foreign_id < windows[at].foreign_id || (windows[k].foreign_id
                == windows[at].foreign_id && k < at)
        }),
    ensures
        exists|f: int|
            0 <= f < entries.len() && #[trigger] target(entries, f, windows) == Some(k),
{
    let pred = |window: ToplevelView| window.eligible() && names(entries[e], window);
    let found = candidates(entries[e], windows);
    let queue = served(entries, entries[e], windows);
    crate::key_order::lemma_sorted_positions_bounded(windows, pred);
    assert(pred(windows[k]));
    assert(found.contains(k));
    let r = choose|r: int| 0 <= r < found.len() && found[r] == k;
    let s = rank(entries, e, windows) as int;
    crate::persisted_laws::lemma_rank_bounded(entries, windows, e);
    assert(s < queue.len()) by {
        let m = choose|m: int| 0 <= m < queue.len() && queue[m] == e;
        crate::sequences::lemma_filter_drops(queue, |other: int| other < e, m);
    }
    if s < r {
        lemma_candidates_sorted(entries[e], windows, s, r);
    }
    let f = lemma_restored_by_some_entry(entries, windows, e, r);
    assert(target(entries, f, windows) == Some(k));
}

/// The requests for entries at some places: a pair for each that restores a window.
proof fn lemma_pairs(
    entries: Seq<PersistedEntryView>,
    windows: Seq<ToplevelView>,
    places: Seq<int>,
)
    ensures
        ({
            let asked = places.flat_map(|e: int| restore_target_requests(entries, e, windows));
            let found = places.filter(|e: int| target(entries, e, windows) is Some);
            &&& asked.len() == 2 * found.len()
            &&& forall|j: int|
                0 <= j < found.len() ==> {
                    let at = target(entries, #[trigger] found[j], windows)->0;
                    &&& asked[2 * j] == (ToplevelRequest::UnsetMinimized { window: at as usize })
                    &&& asked[2 * j + 1] == crate::model::restore_kind_request(
                        entries[found[j]].restore_kind,
                        at,
                    )
                }
        }),
    decreases places.len(),
{
    let restore = |e: int| restore_target_requests(entries, e, windows);
    let restores = |e: int| target(entries, e, windows) is Some;
    let asked = places.flat_map(restore);
    let found = places.filter(restores);
    reveal(Seq::filter);
    if places.len() == 0 {
        assert(places.map_values(restore) =~= seq![]);
    } else {
        let rest = places.drop_last();
        let last = places.last();
        lemma_pairs(entries, windows, rest);
        rest.lemma_flat_map_push(restore, last);
        assert(places =~= rest.push(last));
        let before = rest.filter(restores);
        assert forall|j: int| 0 <= j < found.len() implies {
            let at = target(entries, #[trigger] found[j], windows)->0;
            &&& asked[2 * j] == (ToplevelRequest::UnsetMinimized { window: at as usize })
            &&& asked[2 * j + 1] == crate::model::restore_kind_request(
                entries[found[j]].restore_kind,
                at,
            )
        } by {
            if j < before.len() {
                assert(found[j] == before[j]);
                assert(rest.flat_map(restore)[2 * j] == asked[2 * j]);
                assert(rest.flat_map(restore)[2 * j + 1] == asked[2 * j + 1]);
            } else {
                assert(found[j] == last);
            }
        }
    }
}

/// The places of the entries that restore a window, in the order of restoring, and what is
/// asked for them.
proof fn lemma_asked_in_pairs(
    state: AppView,
    entries: Seq<PersistedEntryView>,
    windows: Seq<ToplevelView>,
) -> (found: Seq<int>)
    requires
        state.has_manager,
    ensures
        restore_persisted(state, entries, windows) is Ok,
        sorted_by(found, precedes(entries)),
        forall|j: int|
            0 <= j < found.len() ==> 0 <= #[trigger] found[j] < entries.len() && target(
                entries,
                found[j],
                windows,
            ) is Some,
        forall|e: int|
            0 <= e < entries.len() && #[trigger] target(entries, e, windows) is Some
                ==> found.contains(e),
        ({
            let asked = restore_persisted(state, entries, windows)->Ok_0;
            &&& asked.len() == 2 * found.len()
            &&& forall|j: int|
                0 <= j < found.len() ==> {
                    let at = target(entries, #[trigger] found[j], windows)->0;
                    &&& asked[2 * j] == (ToplevelRequest::UnsetMinimized { window: at as usize })
                    &&& asked[2 * j + 1] == crate::model::restore_kind_request(
                        entries[found[j]].restore_kind,
                        at,
                    )
                }
        }),
{
    let places = restoring_places(entries);
    let restores = |e: int| target(entries, e, windows) is Some;
    let found = places.filter(restores);
    lemma_pairs(entries, windows, places);
    lemma_places_in_order(entries);
    crate::persisted::lemma_restoring_places(entries);
    crate::sequences::lemma_filter_sorted(places, restores, precedes(entries));
    assert forall|j: int| 0 <= j < found.len() implies 0 <= #[trigger] found[j] < entries.len()
        && target(entries, found[j], windows) is Some by {
        places.lemma_filter_pred(restores, j);
        assert(found.contains(found[j]));
        places.lemma_filter_contains_rev(restores, found[j]);
    }
    assert forall|e: int|
        0 <= e < entries.len() && #[trigger] target(
            entries,
            e,
            windows,
        ) is Some implies found.contains(e) by {
        assert(places.contains(e));
        let k = choose|k: int| 0 <= k < places.len() && places[k] == e;
        places.lemma_filter_contains(restores, k);
    }
    found
}

/// Whatever other windows are listed or visible, each entry that restores a window has it
/// un-minimized and then maximized, or not, as the entry says.
pub proof fn law_each_entry_brings_back_its_window(
    state: AppView,
    entries: Seq<PersistedEntryView>,
    windows: Seq<ToplevelView>,
    e: int,
)
    requires
        state.has_manager,
        windows.len() <= usize::MAX,
        0 <= e < entries.len(),
        target(entries, e, windows) is Some,
    ensures
        restore_persisted(state, entries, windows) is Ok,
        ({
            let asked = restore_persisted(state, entries, windows)->Ok_0;
            let window = target(entries, e, windows)->0 as usize;
            exists|p: int|
                {
                    &&& 0 <= p < asked.len() - 1
                    &&& #[trigger] asked[p] == (ToplevelRequest::UnsetMinimized { window })
                    &&& asked[p + 1] == if entries[e].restore_kind is Maximized {
                        ToplevelRequest::SetMaximized { window }
                    } else {
                        ToplevelRequest::UnsetMaximized { window }
                    }
                }
        }),
{
    let found = lemma_asked_in_pairs(state, entries, windows);
    let asked = restore_persisted(state, entries, windows)->Ok_0;
    let j = choose|j: int| 0 <= j < found.len() && found[j] == e;
    let window = target(entries, found[j], windows)->0 as usize;
    assert(asked[2 * j] == (ToplevelRequest::UnsetMinimized { window }));
    assert(asked[2 * j + 1] == crate::model::restore_kind_request(
        entries[found[j]].restore_kind,
        target(entries, found[j], windows)->0,
    ));
}

/// Nothing else is asked: each request is one of the two that bring back the window of an
/// entry, beside the other.
pub proof fn law_only_windows_of_entries_come_back(
    state: AppView,
    entries: Seq<PersistedEntryView>,
    windows: Seq<ToplevelView>,
    p: int,
)
    requires
        state.has_manager,
        windows.len() <= usize::MAX,
        0 <= p < restore_persisted(state, entries, windows)->Ok_0.len(),
    ensures
        ({
            let asked = restore_persisted(state, entries, windows)->Ok_0;
            exists|e: int|
                {
                    let window = (#[trigger] target(entries, e, windows))->0 as usize;
                    let unset = ToplevelRequest::UnsetMinimized { window };
                    let kind = if entries[e].restore_kind is Maximized {
                        ToplevelRequest::SetMaximized { window }
                    } else {
                        ToplevelRequest::UnsetMaximized { window }
                    };
                    &&& 0 <= e < entries.len()
                    &&& target(entries, e, windows) is Some
                    &&& {
                        ||| asked[p] == unset && p + 1 < asked.len() && asked[p + 1] == kind
                        ||| asked[p] == kind && p > 0 && asked[p - 1] == unset
                    }
                }
        }),
{
    let found = lemma_asked_in_pairs(state, entries, windows);
    let asked = restore_persisted(state, entries, windows)->Ok_0;
    let j = p / 2;
    let at = target(entries, found[j], windows)->0;
    assert(asked[2 * j] == (ToplevelRequest::UnsetMinimized { window: at as usize }));
    assert(asked[2 * j + 1] == crate::model::restore_kind_request(
        entries[found[j]].restore_kind,
        at,
    ));
    assert(p == 2 * j || p == 2 * j + 1);
    assert(target(entries, found[j], windows) is Some);
}

/// No request is made twice.
pub proof fn law_no_request_is_repeated(
    state: AppView,
    entries: Seq<PersistedEntryView>,
    windows: Seq<ToplevelView>,
    p: int,
    q: int,
)
    requires
        state.has_manager,
        windows.len() <= usize::MAX,
        0 <= p < q < restore_persisted(state, entries, windows)->Ok_0.len(),
    ensures
        restore_persisted(state, entries, windows)->Ok_0[p] != restore_persisted(
            state,
            entries,
            windows,
        )->Ok_0[q],
{
    let found = lemma_asked_in_pairs(state, entries, windows);
    let asked = restore_persisted(state, entries, windows)->Ok_0;
    let (j, k) = (p / 2, q / 2);
    let at = target(entries, found[j], windows)->0;
    let then = target(entries, found[k], windows)->0;
    crate::persisted_laws::lemma_target_named(entries, windows, found[j]);
    crate::persisted_laws::lemma_target_named(entries, windows, found[k]);
    assert(p == 2 * j || p == 2 * j + 1);
    assert(q == 2 * k || q == 2 * k + 1);
    assert(asked[2 * j] == (ToplevelRequest::UnsetMinimized { window: at as usize }));
    assert(asked[2 * k] == (ToplevelRequest::UnsetMinimized { window: then as usize }));
    if j < k {
        assert(precedes(entries)(found[j], found[k]));
        crate::persisted_laws::law_no_window_is_restored_twice(
            entries,
            windows,
            found[j],
            found[k],
        );
    }
}

/// Of two entries that each restore a window, the window of an active one comes back after that
/// of one that was not, and otherwise they come back as the entries stand.
pub proof fn law_windows_come_back_in_order(
    state: AppView,
    entries: Seq<PersistedEntryView>,
    windows: Seq<ToplevelView>,
    e: int,
    f: int,
    p: int,
    q: int,
)
    requires
        state.has_manager,
        windows.len() <= usize::MAX,
        0 <= e < entries.len(),
        0 <= f < entries.len(),
        target(entries, e, windows) is Some,
        target(entries, f, windows) is Some,
        (!entries[e].was_active && entries[f].was_active) || (entries[e].was_active
            == entries[f].was_active && e < f),
        ({
            let asked = restore_persisted(state, entries, windows)->Ok_0;
            &&& 0 <= p < asked.len()
            &&& 0 <= q < asked.len()
            &&& asked[p] == (ToplevelRequest::UnsetMinimized {
                window: target(entries, e, windows)->0 as usize,
            })
            &&& asked[q] == (ToplevelRequest::UnsetMinimized {
                window: target(entries, f, windows)->0 as usize,
            })
        }),
    ensures
        p < q,
{
    let found = lemma_asked_in_pairs(state, entries, windows);
    let asked = restore_persisted(state, entries, windows)->Ok_0;
    let j = choose|j: int| 0 <= j < found.len() && found[j] == e;
    let k = choose|k: int| 0 <= k < found.len() && found[k] == f;
    assert(asked[2 * j] == asked[p]) by {
        assert(target(entries, found[j], windows) is Some);
    }
    assert(asked[2 * k] == asked[q]) by {
        assert(target(entries, found[k], windows) is Some);
    }
    if p < 2 * j {
        law_no_request_is_repeated(state, entries, windows, p, 2 * j);
    } else if p > 2 * j {
        law_no_request_is_repeated(state, entries, windows, 2 * j, p);
    }
    if q < 2 * k {
        law_no_request_is_repeated(state, entries, windows, q, 2 * k);
    } else if q > 2 * k {
        law_no_request_is_repeated(state, entries, windows, 2 * k, q);
    }
    if k < j {
        assert(precedes(entries)(found[k], found[j]));
    }
}

} // verus!
