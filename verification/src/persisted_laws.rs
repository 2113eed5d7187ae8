//! What holds of toggling across runs of the applet.

use vstd::prelude::*;

use crate::effects::{spares, subject, window_after, windows_after};
use crate::key_order::{key_order, sorted_positions};
use crate::laws::{as_minimized, state_restored};
use crate::model::{minimize_requests, positions, restore_kind_request, AppView};
use crate::persisted::{
    candidates, claimants, names, persist_requests, persisted_of, rank,
    restore_persisted_requests, restore_target_requests, restoring_places, same_key, served,
    target,
};
use crate::persistent_toggle::{file_checked, loaded, PersistentStepView};
use crate::request::ToplevelRequest;
use crate::snapshot::PersistedEntryView;
use crate::toplevel::ToplevelView;

verus! {

/// The windows that `entry` names and that minimizing all windows minimizes, by protocol id.
pub open spec fn visible(entry: PersistedEntryView, windows: Seq<ToplevelView>) -> Seq<int> {
    sorted_positions(
        windows,
        |window: ToplevelView| window.to_minimize() && names(entry, window),
    )
}

/// Of the windows that `entry` names, none that was minimized before has a lower protocol id
/// than one that was not.
pub open spec fn found_first(entry: PersistedEntryView, windows: Seq<ToplevelView>) -> bool {
    visible(entry, windows).is_prefix_of(candidates(entry, windows))
}

/// No two windows that can be restored go by the same name.
pub open spec fn distinct_names(windows: Seq<ToplevelView>) -> bool {
    forall|i: int, k: int|
        0 <= i < k < windows.len() && (#[trigger] windows[i]).eligible() && (
        #[trigger] windows[k]).eligible() ==> windows[i].identifier != windows[k].identifier
            || windows[i].app_id != windows[k].app_id
}

/// A change of state that keeps the windows eligible keeps the candidates.
proof fn lemma_candidates_kept(
    windows: Seq<ToplevelView>,
    hidden: Seq<ToplevelView>,
    entry: PersistedEntryView,
)
    requires
        hidden.len() == windows.len(),
        forall|i: int|
            0 <= i < windows.len() ==> #[trigger] hidden[i] == (ToplevelView {
                state: hidden[i].state,
                ..windows[i]
            }),
    ensures
        candidates(entry, hidden) == candidates(entry, windows),
{
    let pred = |window: ToplevelView| window.eligible() && names(entry, window);
    let all = Seq::new(windows.len(), |i: int| i);
    crate::sequences::lemma_filter_same(
        all,
        |i: int| pred(windows[i]),
        |i: int| pred(hidden[i]),
    );
    assert(positions(windows, pred) == positions(hidden, pred));
    let a = candidates(entry, windows);
    let b = candidates(entry, hidden);
    crate::key_order::lemma_key_order_total(windows);
    crate::key_order::lemma_key_order_total(hidden);
    positions(windows, pred).lemma_sort_by_ensures(key_order(windows));
    positions(hidden, pred).lemma_sort_by_ensures(key_order(hidden));
    crate::key_order::lemma_sorted_positions_bounded(windows, pred);
    crate::key_order::lemma_sorted_positions_bounded(hidden, pred);
    let le = key_order(windows);
    assert forall|i: int, j: int| 0 <= i < j < b.len() implies #[trigger] le(b[i], b[j]) by {
        assert(key_order(hidden)(b[i], b[j]));
        assert(hidden[b[i]].foreign_id == windows[b[i]].foreign_id);
        assert(hidden[b[j]].foreign_id == windows[b[j]].foreign_id);
    }
    vstd::seq_lib::lemma_sorted_unique(a, b, le);
}

/// Entries with the same name look among the same windows, and vie with the same entries.
pub proof fn lemma_same_key(
    a: PersistedEntryView,
    b: PersistedEntryView,
    entries: Seq<PersistedEntryView>,
    windows: Seq<ToplevelView>,
)
    requires
        same_key(a, b),
    ensures
        candidates(a, windows) == candidates(b, windows),
        claimants(entries, a) == claimants(entries, b),
        served(entries, a, windows) == served(entries, b, windows),
{
    assert((|window: ToplevelView| window.eligible() && names(a, window)) =~= (
    |window: ToplevelView| window.eligible() && names(b, window)));
    assert((|e: int| same_key(entries[e], a)) =~= (|e: int| same_key(entries[e], b)));
}

/// The entry at `e` has a window only if there is one for each entry before it that has one.
pub proof fn lemma_rank_bounded(entries: Seq<PersistedEntryView>, windows: Seq<ToplevelView>, e: int)
    requires
        served(entries, entries[e], windows).contains(e),
    ensures
        rank(entries, e, windows) < candidates(entries[e], windows).len(),
{
    let queue = served(entries, entries[e], windows);
    let k = choose|k: int| 0 <= k < queue.len() && queue[k] == e;
    crate::sequences::lemma_filter_drops(queue, |other: int| other < e, k);
}

/// Of two entries of one name that get a window, the later one has the higher rank.
pub proof fn lemma_rank_increases(
    entries: Seq<PersistedEntryView>,
    windows: Seq<ToplevelView>,
    a: int,
    b: int,
)
    requires
        a < b,
        same_key(entries[a], entries[b]),
        served(entries, entries[a], windows).contains(a),
    ensures
        rank(entries, a, windows) < rank(entries, b, windows),
{
    lemma_same_key(entries[a], entries[b], entries, windows);
    let queue = served(entries, entries[a], windows);
    let before_a = |other: int| other < a;
    let before_b = |other: int| other < b;
    crate::sequences::lemma_filter_filter(queue, before_b, before_a, before_a);
    let earlier = queue.filter(before_b);
    queue.filter_lemma(before_b);
    assert(earlier.contains(a));
    let k = choose|k: int| 0 <= k < earlier.len() && earlier[k] == a;
    crate::sequences::lemma_filter_drops(earlier, before_a, k);
}

/// Whatever the snapshot file holds, no window is restored for two entries.
pub proof fn law_no_window_is_restored_twice(
    entries: Seq<PersistedEntryView>,
    windows: Seq<ToplevelView>,
    a: int,
    b: int,
)
    requires
        a != b,
        target(entries, a, windows) is Some,
    ensures
        target(entries, a, windows) != target(entries, b, windows),
{
    if target(entries, a, windows) == target(entries, b, windows) {
        lemma_target_named(entries, windows, a);
        lemma_target_named(entries, windows, b);
        assert(same_key(entries[a], entries[b]));
        lemma_same_key(entries[a], entries[b], entries, windows);
        lemma_rank_bounded(entries, windows, a);
        lemma_rank_bounded(entries, windows, b);
        if a < b {
            lemma_rank_increases(entries, windows, a, b);
        } else {
            lemma_rank_increases(entries, windows, b, a);
        }
        crate::key_order::lemma_sorted_positions_bounded(
            windows,
            |window: ToplevelView| window.eligible() && names(entries[a], window),
        );
    }
}

/// An entry restores a window that can be restored and that it names.
pub proof fn lemma_target_named(entries: Seq<PersistedEntryView>, windows: Seq<ToplevelView>, e: int)
    requires
        target(entries, e, windows) is Some,
    ensures
        0 <= target(entries, e, windows)->0 < windows.len(),
        windows[target(entries, e, windows)->0].eligible(),
        names(entries[e], windows[target(entries, e, windows)->0]),
{
    lemma_rank_bounded(entries, windows, e);
    crate::key_order::lemma_sorted_positions_bounded(
        windows,
        |window: ToplevelView| window.eligible() && names(entries[e], window),
    );
}

/// Whatever the snapshot file holds, requests are made only for windows that are managed and
/// take requests.
pub proof fn law_restores_eligible_windows_only(
    entries: Seq<PersistedEntryView>,
    windows: Seq<ToplevelView>,
    request: ToplevelRequest,
)
    requires
        windows.len() <= usize::MAX,
        restore_persisted_requests(entries, windows).contains(request),
    ensures
        0 <= subject(request) < windows.len(),
        windows[subject(request)].eligible(),
{
    let places = restoring_places(entries);
    let groups = places.map_values(|e: int| restore_target_requests(entries, e, windows));
    crate::sequences::lemma_flatten_contains(groups, request);
    let j = choose|j: int| 0 <= j < groups.len() && (#[trigger] groups[j]).contains(request);
    assert(groups[j] == restore_target_requests(entries, places[j], windows));
    if target(entries, places[j], windows) is Some {
        lemma_target_named(entries, windows, places[j]);
    }
}

/// As many entries of one name get a window as there are entries and windows of that name, and
/// where there is a window for each of them, each takes the window that stands among those of
/// its name where the entry stands among the entries of its name.
pub proof fn law_entries_take_windows_in_their_order(
    entries: Seq<PersistedEntryView>,
    windows: Seq<ToplevelView>,
    e: int,
)
    requires
        0 <= e < entries.len(),
    ensures
        ({
            let by_key = |other: PersistedEntryView| same_key(other, entries[e]);
            let named = entries.filter(by_key).len();
            let found = candidates(entries[e], windows);
            let place = entries.take(e).filter(by_key).len();
            &&& served(entries, entries[e], windows).len() == if named <= found.len() {
                named
            } else {
                found.len()
            }
            &&& named <= found.len() ==> place < found.len() && target(entries, e, windows)
                == Some(found[place as int])
        }),
{
    lemma_claimants(entries, e);
    lemma_earlier_claimants(entries, e);
    if claimants(entries, entries[e]).len() <= candidates(entries[e], windows).len() {
        lemma_rank_bounded(entries, windows, e);
    }
}

/// The claimants of one name are the entries of that name, in another order.
pub proof fn lemma_claimants(entries: Seq<PersistedEntryView>, e: int)
    requires
        0 <= e < entries.len(),
    ensures
        ({
            let waiting = claimants(entries, entries[e]);
            let all = Seq::new(entries.len(), |other: int| other);
            &&& waiting.contains(e)
            &&& waiting.len() == entries.filter(
                |other: PersistedEntryView| same_key(other, entries[e]),
            ).len()
            &&& waiting.to_multiset() == all.filter(
                |other: int| same_key(entries[other], entries[e]),
            ).to_multiset()
        }),
{
    let by_key = |other: PersistedEntryView| same_key(other, entries[e]);
    let at_key = |other: int| same_key(entries[other], entries[e]);
    let to_entry = |other: int| entries[other];
    let all = Seq::new(entries.len(), |other: int| other);
    let places = restoring_places(entries);
    crate::persisted::lemma_restoring_places(entries);
    crate::sequences::lemma_filter_permuted(places, all, at_key);
    crate::sequences::lemma_map_filter(all, to_entry, by_key, at_key);
    assert(all.map_values(to_entry) =~= entries);
    assert(places.contains(e));
    places.filter_lemma(at_key);
}

/// As many claimants stand before the entry at `e` as there are entries of its name before it.
proof fn lemma_earlier_claimants(entries: Seq<PersistedEntryView>, e: int)
    requires
        0 <= e < entries.len(),
    ensures
        claimants(entries, entries[e]).filter(|other: int| other < e).len() == entries.take(
            e,
        ).filter(|other: PersistedEntryView| same_key(other, entries[e])).len(),
{
    let by_key = |other: PersistedEntryView| same_key(other, entries[e]);
    let at_key = |other: int| same_key(entries[other], entries[e]);
    let earlier = |other: int| other < e;
    let to_entry = |other: int| entries[other];
    let all = Seq::new(entries.len(), |other: int| other);
    assert(claimants(entries, entries[e]).filter(earlier).len() == all.filter(at_key).filter(
        earlier,
    ).len()) by {
        lemma_claimants(entries, e);
        crate::sequences::lemma_filter_permuted(
            claimants(entries, entries[e]),
            all.filter(at_key),
            earlier,
        );
    }
    crate::sequences::lemma_filter_numbers(entries.len(), at_key, e);
    crate::sequences::lemma_map_filter(all.take(e), to_entry, by_key, at_key);
    assert(all.take(e).map_values(to_entry) =~= entries.take(e));
}

/// Keeping a snapshot on disk minimizes the same windows as keeping it in memory, each once.
pub proof fn law_persisting_minimizes_the_same_windows(windows: Seq<ToplevelView>)
    ensures
        persist_requests(windows).to_multiset() == minimize_requests(windows).to_multiset(),
{
    let pred = |window: ToplevelView| window.to_minimize();
    let request = |i: int| ToplevelRequest::SetMinimized { window: i as usize };
    let found = positions(windows, pred);
    crate::key_order::lemma_key_order_total(windows);
    found.lemma_sort_by_ensures(key_order(windows));
    crate::sequences::lemma_map_multiset(found.sort_by(key_order(windows)), found, request);
}

/// What is kept on disk is sorted by identifier, then by application id.
pub proof fn law_persisted_entries_are_sorted(windows: Seq<ToplevelView>, j: int, k: int)
    requires
        0 <= j < k < persisted_of(windows).len(),
    ensures
        ({
            let (a, b) = (persisted_of(windows)[j], persisted_of(windows)[k]);
            if a.identifier != b.identifier {
                crate::text::text_le(a.identifier, b.identifier)
            } else {
                crate::text::text_le(a.app_id, b.app_id)
            }
        }),
{
    let pred = |window: ToplevelView| window.to_minimize();
    let found = positions(windows, pred);
    let sorted = sorted_positions(windows, pred);
    crate::key_order::lemma_key_order_total(windows);
    found.lemma_sort_by_ensures(key_order(windows));
    assert(key_order(windows)(sorted[j], sorted[k]));
    crate::text::lemma_text_le_reflexive(windows[sorted[j]].app_id);
}

/// The windows, with those minimized that minimizing all windows minimizes.
pub open spec fn with_minimized(windows: Seq<ToplevelView>) -> Seq<ToplevelView> {
    windows.map_values(
        |window: ToplevelView|
            if window.to_minimize() {
                as_minimized(window)
            } else {
                window
            },
    )
}

/// Minimizing all windows and keeping a snapshot on disk leaves none that would still have to
/// be minimized, and changes no other window.
pub proof fn law_persisting_minimizes(windows: Seq<ToplevelView>)
    requires
        windows.len() <= usize::MAX,
    ensures
        windows_after(persist_requests(windows), windows) == with_minimized(windows),
{
    let pred = |window: ToplevelView| window.to_minimize();
    let sorted = sorted_positions(windows, pred);
    crate::key_order::lemma_sorted_positions_bounded(windows, pred);
    assert forall|i: int| 0 <= i < windows.len() implies #[trigger] window_after(
        persist_requests(windows),
        i,
        windows[i],
    ) == with_minimized(windows)[i] by {
        crate::laws::lemma_minimize_each(sorted, i, windows[i]);
        if sorted.contains(i) {
            let k = choose|k: int| 0 <= k < sorted.len() && sorted[k] == i;
            assert(pred(windows[sorted[k]]));
        }
    }
    assert(windows_after(persist_requests(windows), windows) =~= with_minimized(windows));
}

/// Restoring from what is kept of `windows`, the entry at `e` takes the window that stands among
/// those of its name where the window it was kept of stands among those that were minimized.
proof fn lemma_own_target(windows: Seq<ToplevelView>, e: int)
    requires
        0 <= e < persisted_of(windows).len(),
    ensures
        ({
            let sorted = sorted_positions(windows, |window: ToplevelView| window.to_minimize());
            let entries = persisted_of(windows);
            let seen = visible(entries[e], windows);
            let found = candidates(entries[e], windows);
            let r = sorted.take(e).filter(|i: int| names(entries[e], windows[i])).len() as int;
            &&& 0 <= r < seen.len() <= found.len()
            &&& seen == sorted.filter(|i: int| names(entries[e], windows[i]))
            &&& seen[r] == sorted[e]
            &&& target(entries, e, with_minimized(windows)) == Some(found[r])
        }),
{
    let to_minimize = |window: ToplevelView| window.to_minimize();
    let sorted = sorted_positions(windows, to_minimize);
    let entries = persisted_of(windows);
    let entry = entries[e];
    let hidden = with_minimized(windows);
    let by_key = |other: PersistedEntryView| same_key(other, entry);
    let by_name = |i: int| names(entry, windows[i]);
    let to_entry = |i: int| windows[i].persisted_entry();
    crate::sequences::lemma_map_filter(sorted, to_entry, by_key, by_name);
    crate::sequences::lemma_map_filter(sorted.take(e), to_entry, by_key, by_name);
    assert(sorted.take(e).map_values(to_entry) =~= entries.take(e));
    lemma_visible_among_candidates(windows, entry);
    lemma_candidates_kept(windows, hidden, entry);
    law_entries_take_windows_in_their_order(entries, hidden, e);
    crate::key_order::lemma_sorted_positions_filter(
        windows,
        to_minimize,
        by_name,
        |window: ToplevelView| window.to_minimize() && names(entry, window),
    );
    crate::sequences::lemma_filter_rank(sorted, by_name, e);
}

/// The windows that are minimized can be restored.
proof fn lemma_visible_among_candidates(windows: Seq<ToplevelView>, entry: PersistedEntryView)
    ensures
        visible(entry, windows) == candidates(entry, windows).filter(
            |i: int| windows[i].to_minimize(),
        ),
        visible(entry, windows).len() <= candidates(entry, windows).len(),
{
    let at_visible = |i: int| windows[i].to_minimize();
    crate::key_order::lemma_sorted_positions_filter(
        windows,
        |window: ToplevelView| window.eligible() && names(entry, window),
        at_visible,
        |window: ToplevelView| window.to_minimize() && names(entry, window),
    );
    candidates(entry, windows).lemma_filter_len(at_visible);
}

/// Minimizing all windows with a snapshot on disk and restoring from it, each entry restores the
/// very window that it was kept of, and so to the kind that this window had. Of the windows of
/// its name, none that was minimized before may have a lower protocol id than one that was not.
pub proof fn law_entry_restores_its_own_window(windows: Seq<ToplevelView>, e: int)
    requires
        windows.len() <= usize::MAX,
        0 <= e < persisted_of(windows).len(),
        found_first(persisted_of(windows)[e], windows),
    ensures
        ({
            let own = sorted_positions(windows, |window: ToplevelView| window.to_minimize())[e];
            let hidden = windows_after(persist_requests(windows), windows);
            &&& 0 <= own < windows.len()
            &&& windows[own].to_minimize()
            &&& persisted_of(windows)[e] == windows[own].persisted_entry()
            &&& persist_requests(windows)[e] == (ToplevelRequest::SetMinimized {
                window: own as usize,
            })
            &&& target(persisted_of(windows), e, hidden) == Some(own)
        }),
{
    law_persisting_minimizes(windows);
    lemma_own_target(windows, e);
    let pred = |window: ToplevelView| window.to_minimize();
    crate::key_order::lemma_sorted_positions_bounded(windows, pred);
    let sorted = sorted_positions(windows, pred);
    assert(pred(windows[sorted[e]]));
}

/// The requests that restore what is kept of `windows`, in one group for each entry.
pub open spec fn restore_groups(windows: Seq<ToplevelView>) -> Seq<Seq<ToplevelRequest>> {
    restoring_places(persisted_of(windows)).map_values(
        |e: int| restore_target_requests(persisted_of(windows), e, with_minimized(windows)),
    )
}

/// The window that the entry at `e` restores gets the kind of that entry.
proof fn lemma_restored_by_entry(windows: Seq<ToplevelView>, e: int)
    requires
        windows.len() <= usize::MAX,
        0 <= e < persisted_of(windows).len(),
        target(persisted_of(windows), e, with_minimized(windows)) is Some,
    ensures
        ({
            let hidden = with_minimized(windows);
            let at = target(persisted_of(windows), e, hidden)->0;
            let kind = persisted_of(windows)[e].restore_kind;
            &&& 0 <= at < windows.len()
            &&& window_after(restore_groups(windows).flatten(), at, hidden[at]) == (ToplevelView {
                state: state_restored(kind, hidden[at].state),
                ..hidden[at]
            })
        }),
{
    let hidden = with_minimized(windows);
    let entries = persisted_of(windows);
    let places = restoring_places(entries);
    let groups = restore_groups(windows);
    let at = target(entries, e, hidden)->0;
    lemma_target_named(entries, hidden, e);
    crate::persisted::lemma_restoring_places(entries);
    assert(places.contains(e));
    let j = choose|j: int| 0 <= j < places.len() && places[j] == e;
    assert forall|k: int| 0 <= k < groups.len() && k != j implies spares(
        #[trigger] groups[k],
        at,
    ) by {
        assert(places[k] != e);
        law_no_window_is_restored_twice(entries, hidden, e, places[k]);
        if target(entries, places[k], hidden) is Some {
            lemma_target_named(entries, hidden, places[k]);
        }
    }
    crate::effects::lemma_window_after_only(groups, j, at, hidden[at]);
    crate::laws::lemma_restoring_pair(entries[e].restore_kind, at, hidden[at]);
}

/// Minimizing all windows with a snapshot on disk and restoring from it restores the same
/// windows. Of the windows of one name, none that was minimized before may have a lower
/// protocol id than one that was not.
pub proof fn law_persisted_restores_the_same_windows(windows: Seq<ToplevelView>, i: int)
    requires
        0 <= i < windows.len() <= usize::MAX,
        forall|k: int|
            0 <= k < windows.len() && (#[trigger] windows[k]).to_minimize() ==> found_first(
                windows[k].persisted_entry(),
                windows,
            ),
    ensures
        ({
            let asked = persist_requests(windows);
            let hidden = windows_after(asked, windows);
            let asked_again = restore_persisted_requests(persisted_of(windows), hidden);
            let window = i as usize;
            asked_again.contains(ToplevelRequest::UnsetMinimized { window }) <==> asked.contains(
                ToplevelRequest::SetMinimized { window },
            )
        }),
{
    let asked = persist_requests(windows);
    law_persisting_minimizes(windows);
    let hidden = with_minimized(windows);
    let entries = persisted_of(windows);
    let places = restoring_places(entries);
    let groups = restore_groups(windows);
    let unset = ToplevelRequest::UnsetMinimized { window: i as usize };
    let set = ToplevelRequest::SetMinimized { window: i as usize };
    let pred = |window: ToplevelView| window.to_minimize();
    let sorted = sorted_positions(windows, pred);
    crate::key_order::lemma_sorted_positions_bounded(windows, pred);
    crate::sequences::lemma_flatten_contains(groups, unset);
    crate::persisted::lemma_restoring_places(entries);
    assert forall|e: int| 0 <= e < entries.len() implies #[trigger] target(entries, e, hidden)
        == Some(sorted[e]) by {
        assert(pred(windows[sorted[e]]));
        law_entry_restores_its_own_window(windows, e);
    }
    if asked.contains(set) {
        let e = choose|e: int| 0 <= e < asked.len() && asked[e] == set;
        assert(target(entries, e, hidden) == Some(i));
        assert(places.contains(e));
        let j = choose|j: int| 0 <= j < places.len() && places[j] == e;
        assert(groups[j][0] == unset);
        assert(groups[j].contains(unset));
    }
    if groups.flatten().contains(unset) {
        let j = choose|j: int| 0 <= j < groups.len() && (#[trigger] groups[j]).contains(unset);
        let e = places[j];
        assert(target(entries, e, hidden) == Some(sorted[e]));
        assert(asked[e] == set);
    }
    let restore = |e: int| restore_target_requests(entries, e, hidden);
    assert(groups =~= places.map_values(restore));
}

/// Minimizing all windows with a snapshot on disk and restoring from it gives back the windows
/// just as they were. Of the windows of one name, none that was minimized before may have a
/// lower protocol id than one that was not.
pub proof fn law_persisted_round_trip(windows: Seq<ToplevelView>)
    requires
        windows.len() <= usize::MAX,
        forall|k: int|
            0 <= k < windows.len() && (#[trigger] windows[k]).to_minimize() ==> found_first(
                windows[k].persisted_entry(),
                windows,
            ),
    ensures
        ({
            let hidden = windows_after(persist_requests(windows), windows);
            let asked_again = restore_persisted_requests(persisted_of(windows), hidden);
            windows_after(asked_again, hidden) == windows
        }),
{
    law_persisting_minimizes(windows);
    let hidden = with_minimized(windows);
    let entries = persisted_of(windows);
    let groups = restore_groups(windows);
    let restore = |e: int| restore_target_requests(entries, e, hidden);
    assert(groups =~= restoring_places(entries).map_values(restore));
    assert forall|i: int| 0 <= i < windows.len() implies #[trigger] window_after(
        groups.flatten(),
        i,
        hidden[i],
    ) == windows[i] by {
        lemma_persisted_restores_window(windows, i);
    }
    assert(windows_after(groups.flatten(), hidden) =~= windows);
}

proof fn lemma_persisted_restores_window(windows: Seq<ToplevelView>, i: int)
    requires
        0 <= i < windows.len() <= usize::MAX,
        forall|k: int|
            0 <= k < windows.len() && (#[trigger] windows[k]).to_minimize() ==> found_first(
                windows[k].persisted_entry(),
                windows,
            ),
    ensures
        window_after(restore_groups(windows).flatten(), i, with_minimized(windows)[i])
            == windows[i],
{
    law_persisting_minimizes(windows);
    let hidden = with_minimized(windows);
    let entries = persisted_of(windows);
    let places = restoring_places(entries);
    let groups = restore_groups(windows);
    let pred = |window: ToplevelView| window.to_minimize();
    let sorted = sorted_positions(windows, pred);
    crate::key_order::lemma_sorted_positions_bounded(windows, pred);
    crate::persisted::lemma_restoring_places(entries);
    if windows[i].to_minimize() {
        assert(pred(windows[i]));
        assert(sorted.contains(i));
        let e = choose|e: int| 0 <= e < sorted.len() && sorted[e] == i;
        law_entry_restores_its_own_window(windows, e);
        lemma_restored_by_entry(windows, e);
        assert(state_restored(entries[e].restore_kind, hidden[i].state) =~= windows[i].state);
    } else {
        assert forall|k: int| 0 <= k < groups.len() implies spares(#[trigger] groups[k], i) by {
            assert(pred(windows[sorted[places[k]]]));
            law_entry_restores_its_own_window(windows, places[k]);
        }
        crate::effects::lemma_window_after_only(groups, -1, i, hidden[i]);
    }
}

/// The condition of `law_persisted_round_trip` is met wherever restoring gives back the windows
/// just as they were.
pub proof fn law_persisted_round_trip_condition(windows: Seq<ToplevelView>, k: int)
    requires
        windows.len() <= usize::MAX,
        ({
            let hidden = windows_after(persist_requests(windows), windows);
            let asked_again = restore_persisted_requests(persisted_of(windows), hidden);
            windows_after(asked_again, hidden) == windows
        }),
        0 <= k < windows.len(),
        windows[k].to_minimize(),
    ensures
        found_first(windows[k].persisted_entry(), windows),
{
    law_persisting_minimizes(windows);
    let hidden = with_minimized(windows);
    let entries = persisted_of(windows);
    let entry = windows[k].persisted_entry();
    let seen = visible(entry, windows);
    let found = candidates(entry, windows);
    let groups = restore_groups(windows);
    let n = seen.len();
    let restore = |e: int| restore_target_requests(entries, e, hidden);
    assert(groups =~= restoring_places(entries).map_values(restore));
    assert(windows_after(groups.flatten(), hidden) == windows);
    let at_visible = |i: int| windows[i].to_minimize();
    lemma_visible_among_candidates(windows, entry);
    assert forall|r: int| 0 <= r < n implies at_visible(#[trigger] found[r]) by {
        let e = lemma_entry_of_rank(windows, entry, r);
        lemma_restored_by_entry(windows, e);
        lemma_target_named(entries, hidden, e);
        let at = found[r];
        assert(windows_after(groups.flatten(), hidden)[at] == window_after(
            groups.flatten(),
            at,
            hidden[at],
        ));
        assert(windows[at].state == state_restored(entries[e].restore_kind, hidden[at].state));
        assert(!windows[at].minimized());
    }
    let start = found.take(n as int);
    assert(start.filter(at_visible) == start) by {
        crate::sequences::lemma_filter_all(start, at_visible);
    }
    crate::sequences::lemma_filter_take_prefix(found, at_visible, n as int);
    assert(seen =~= seen.take(n as int));
    assert(seen == start);
}

/// Of the windows that `entry` names, the one of rank `r` is restored by some entry.
proof fn lemma_entry_of_rank(
    windows: Seq<ToplevelView>,
    entry: PersistedEntryView,
    r: int,
) -> (e: int)
    requires
        0 <= r < visible(entry, windows).len(),
    ensures
        0 <= e < persisted_of(windows).len(),
        target(persisted_of(windows), e, with_minimized(windows)) == Some(
            candidates(entry, windows)[r],
        ),
{
    let to_minimize = |window: ToplevelView| window.to_minimize();
    let sorted = sorted_positions(windows, to_minimize);
    let by_name = |i: int| names(entry, windows[i]);
    crate::key_order::lemma_sorted_positions_filter(
        windows,
        to_minimize,
        by_name,
        |window: ToplevelView| window.to_minimize() && names(entry, window),
    );
    let e = crate::sequences::lemma_filter_origin(sorted, by_name, r);
    let other = persisted_of(windows)[e];
    assert(same_key(other, entry));
    lemma_own_target(windows, e);
    lemma_same_key(other, entry, persisted_of(windows), windows);
    assert((|i: int| names(other, windows[i])) =~= by_name);
    e
}

/// Where no two windows that can be restored go by the same name, minimizing all windows with
/// a snapshot on disk and restoring from it gives back the windows just as they were.
pub proof fn law_persisted_round_trip_of_distinct_names(windows: Seq<ToplevelView>)
    requires
        windows.len() <= usize::MAX,
        distinct_names(windows),
    ensures
        ({
            let hidden = windows_after(persist_requests(windows), windows);
            let asked_again = restore_persisted_requests(persisted_of(windows), hidden);
            windows_after(asked_again, hidden) == windows
        }),
{
    assert forall|k: int|
        0 <= k < windows.len() && (#[trigger] windows[k]).to_minimize() implies found_first(
        windows[k].persisted_entry(),
        windows,
    ) by {
        let entry = windows[k].persisted_entry();
        let pred = |window: ToplevelView| window.to_minimize() && names(entry, window);
        let wider = |window: ToplevelView| window.eligible() && names(entry, window);
        lemma_only_position(windows, pred, k);
        lemma_only_position(windows, wider, k);
    }
    law_persisted_round_trip(windows);
}

/// Where only the window at `k` satisfies `pred`, it is the only one found.
proof fn lemma_only_position(
    windows: Seq<ToplevelView>,
    pred: spec_fn(ToplevelView) -> bool,
    k: int,
)
    requires
        0 <= k < windows.len(),
        forall|i: int| 0 <= i < windows.len() ==> (pred(#[trigger] windows[i]) <==> i == k),
    ensures
        sorted_positions(windows, pred) == seq![k],
{
    let found = sorted_positions(windows, pred);
    crate::key_order::lemma_sorted_positions_bounded(windows, pred);
    assert(pred(windows[k]));
    assert(found.contains(k));
    assert forall|m: int| 0 <= m < found.len() implies #[trigger] found[m] == k by {
        assert(pred(windows[found[m]]));
    }
    if found.len() > 1 {
        assert(found[0] == found[1]);
    }
    assert(found =~= seq![k]);
}

/// A toggle across runs that finds no snapshot file, and a later one that finds the file that
/// the first one wrote and reads it back: together they give back the windows just as they were. The condition on
/// windows of one name is that of `law_persisted_round_trip`.
pub proof fn law_persistent_toggle_twice_restores(
    state: AppView,
    later: AppView,
    windows: Seq<ToplevelView>,
)
    requires
        windows.len() <= usize::MAX,
        state.has_manager,
        later.has_manager,
        forall|k: int|
            0 <= k < windows.len() && (#[trigger] windows[k]).to_minimize() ==> found_first(
                windows[k].persisted_entry(),
                windows,
            ),
    ensures
        file_checked(state, false, windows) matches PersistentStepView::MinimizeAndSave {
            requests,
            snapshot,
        } && {
            let hidden = windows_after(requests, windows);
            &&& file_checked(later, true, hidden) == PersistentStepView::Load
            &&& loaded(later, Ok(snapshot), hidden) matches PersistentStepView::RestoreAndClear {
                requests: asked_again,
                restored,
            }
            &&& restored is Ok
            &&& windows_after(asked_again, hidden) == windows
        },
{
    law_persisted_round_trip(windows);
}

/// From what is kept on disk, too, the windows that were active are restored after all the
/// others, and if there is a window for the last of them, the very last requests are those
/// for it.
pub proof fn law_persisted_active_windows_come_last(
    entries: Seq<PersistedEntryView>,
    windows: Seq<ToplevelView>,
)
    ensures
        ({
            let places = restoring_places(entries);
            let asked = restore_persisted_requests(entries, windows);
            &&& places.len() == entries.len()
            &&& forall|e: int| #[trigger] places.contains(e) <==> 0 <= e < entries.len()
            &&& forall|j: int, k: int|
                0 <= j < k < places.len() && entries[#[trigger] places[j]].was_active
                    ==> entries[#[trigger] places[k]].was_active
            &&& entries.len() > 0 ==> (target(entries, places.last(), windows) matches Some(at)
                ==> {
                &&& asked.len() >= 2
                &&& asked[asked.len() - 2] == (ToplevelRequest::UnsetMinimized {
                    window: at as usize,
                })
                &&& asked.last() == restore_kind_request(entries[places.last()].restore_kind, at)
            })
        }),
{
    let all = Seq::new(entries.len(), |e: int| e);
    let was_active = |e: int| entries[e].was_active;
    let was_not_active = |e: int| !was_active(e);
    let others = all.filter(was_not_active).len();
    let places = restoring_places(entries);
    crate::persisted::lemma_restoring_places(entries);
    assert forall|j: int| 0 <= j < places.len() implies (entries[#[trigger] places[j]].was_active
        <==> others <= j) by {
        if j < others {
            all.lemma_filter_pred(was_not_active, j);
        } else {
            all.lemma_filter_pred(was_active, j - others);
        }
    }
    let groups = places.map_values(|e: int| restore_target_requests(entries, e, windows));
    if entries.len() > 0 {
        let last = groups.last();
        groups.drop_last().lemma_flatten_push(last);
        assert(groups =~= groups.drop_last().push(last));
    }
}

/// Minimizing all windows with a snapshot on disk while one of them is active, and restoring
/// from it: the very last requests are for a window that was active, and bring it back to the
/// kind that it had. The condition on windows of one name is that of
/// `law_persisted_round_trip`.
pub proof fn law_active_window_is_restored_last_across_runs(
    windows: Seq<ToplevelView>,
    active: int,
)
    requires
        0 <= active < windows.len() <= usize::MAX,
        windows[active].to_minimize(),
        windows[active].activated(),
        forall|k: int|
            0 <= k < windows.len() && (#[trigger] windows[k]).to_minimize() ==> found_first(
                windows[k].persisted_entry(),
                windows,
            ),
    ensures
        ({
            let hidden = windows_after(persist_requests(windows), windows);
            let asked_again = restore_persisted_requests(persisted_of(windows), hidden);
            &&& asked_again.len() >= 2
            &&& {
                let at = subject(asked_again.last());
                &&& 0 <= at < windows.len()
                &&& windows[at].to_minimize()
                &&& windows[at].activated()
                &&& asked_again[asked_again.len() - 2] == (ToplevelRequest::UnsetMinimized {
                    window: at as usize,
                })
                &&& asked_again.last() == restore_kind_request(windows[at].restore_kind(), at)
            }
        }),
{
    let hidden = windows_after(persist_requests(windows), windows);
    let entries = persisted_of(windows);
    let places = restoring_places(entries);
    let pred = |window: ToplevelView| window.to_minimize();
    let sorted = sorted_positions(windows, pred);
    crate::key_order::lemma_sorted_positions_bounded(windows, pred);
    law_persisted_active_windows_come_last(entries, hidden);
    assert(pred(windows[active]));
    assert(sorted.contains(active));
    let e = choose|e: int| 0 <= e < sorted.len() && sorted[e] == active;
    assert(places.contains(e));
    let j = choose|j: int| 0 <= j < places.len() && places[j] == e;
    let last = places.last();
    assert(places.contains(last));
    assert(entries[places[j]].was_active);
    assert(entries[places[places.len() - 1]].was_active);
    assert(pred(windows[sorted[last]]));
    law_entry_restores_its_own_window(windows, last);
}

} // verus!
