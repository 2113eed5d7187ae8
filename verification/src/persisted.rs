//! Minimizing and restoring across runs of the applet: the snapshot is kept in a file and
//! names each window by its identifier and application id.

use vstd::prelude::*;

use crate::app_data::AppData;
use crate::error::WmError;
use crate::key_order::{ints, sort_eligible, sorted_positions};
use crate::request::ToplevelRequest;
use crate::snapshot::{
    persisted_entry, PersistedEntryView, PersistedSnapshot, PersistedSnapshotEntry, RestoreKind,
};
use crate::toplevel::{Toplevel, ToplevelView};

verus! {

/// One request to minimize for each window that is to be minimized, in key order.
pub open spec fn persist_requests(windows: Seq<ToplevelView>) -> Seq<ToplevelRequest> {
    sorted_positions(
        windows,
        |window: ToplevelView| window.to_minimize(),
    ).map_values(|i: int| ToplevelRequest::SetMinimized { window: i as usize })
}

/// What is kept of the windows that are to be minimized, in key order.
pub open spec fn persisted_of(windows: Seq<ToplevelView>) -> Seq<PersistedEntryView> {
    sorted_positions(
        windows,
        |window: ToplevelView| window.to_minimize(),
    ).map_values(|i: int| windows[i].persisted_entry())
}

/// The window goes by the identifier and the application id of the entry.
pub open spec fn names(entry: PersistedEntryView, window: ToplevelView) -> bool {
    entry.identifier == window.identifier && entry.app_id == window.app_id
}

/// Both entries name the same windows.
pub open spec fn same_key(a: PersistedEntryView, b: PersistedEntryView) -> bool {
    a.identifier == b.identifier && a.app_id == b.app_id
}

/// The positions of the windows that `entry` names and that can be restored, by protocol id.
pub open spec fn candidates(entry: PersistedEntryView, windows: Seq<ToplevelView>) -> Seq<int> {
    sorted_positions(
        windows,
        |window: ToplevelView| window.eligible() && names(entry, window),
    )
}

/// The places of the entries in the order in which they are restored: those of windows that
/// were not active, then those of windows that were.
pub open spec fn restoring_places(entries: Seq<PersistedEntryView>) -> Seq<int> {
    crate::model::restoring_order(
        Seq::new(entries.len(), |e: int| e),
        |e: int| entries[e].was_active,
    )
}

/// The places of the entries that name the same windows as `entry`, in the order in which
/// they are restored.
pub open spec fn claimants(
    entries: Seq<PersistedEntryView>,
    entry: PersistedEntryView,
) -> Seq<int> {
    restoring_places(entries).filter(|e: int| same_key(entries[e], entry))
}

/// Of these, the ones for which there is a window: the first as many as there are windows.
pub open spec fn served(
    entries: Seq<PersistedEntryView>,
    entry: PersistedEntryView,
    windows: Seq<ToplevelView>,
) -> Seq<int> {
    let waiting = claimants(entries, entry);
    let found = candidates(entry, windows).len();
    if waiting.len() <= found {
        waiting
    } else {
        waiting.take(found as int)
    }
}

/// How many entries that name the same windows as the one at `e` and get a window stand
/// before it among the entries.
pub open spec fn rank(
    entries: Seq<PersistedEntryView>,
    e: int,
    windows: Seq<ToplevelView>,
) -> nat {
    served(entries, entries[e], windows).filter(|other: int| other < e).len()
}

/// The position of the window that the entry at `e` restores: the entries of one name that get
/// a window take their windows in the order in which they stand among the entries.
pub open spec fn target(
    entries: Seq<PersistedEntryView>,
    e: int,
    windows: Seq<ToplevelView>,
) -> Option<int> {
    if served(entries, entries[e], windows).contains(e) {
        Some(candidates(entries[e], windows)[rank(entries, e, windows) as int])
    } else {
        None
    }
}

/// The requests that restore the window of the entry at `e`: none where there is no window
/// for it.
pub open spec fn restore_target_requests(
    entries: Seq<PersistedEntryView>,
    e: int,
    windows: Seq<ToplevelView>,
) -> Seq<ToplevelRequest> {
    match target(entries, e, windows) {
        Some(at) => seq![
            ToplevelRequest::UnsetMinimized { window: at as usize },
            crate::model::restore_kind_request(entries[e].restore_kind, at),
        ],
        None => seq![],
    }
}

/// The requests that restore all of `entries`: those of windows that were active come last.
pub open spec fn restore_persisted_requests(
    entries: Seq<PersistedEntryView>,
    windows: Seq<ToplevelView>,
) -> Seq<ToplevelRequest> {
    restoring_places(entries).flat_map(|e: int| restore_target_requests(entries, e, windows))
}

/// What is asked of the compositor and what is to be kept, or the message of the failure.
pub open spec fn minimize_and_persist(
    state: crate::model::AppView,
    windows: Seq<ToplevelView>,
) -> Result<(Seq<ToplevelRequest>, Seq<PersistedEntryView>), Seq<char>> {
    if !state.has_manager {
        Err(crate::error::manager_unavailable_text())
    } else {
        Ok((persist_requests(windows), persisted_of(windows)))
    }
}

/// What is asked of the compositor to restore `entries`, or the message of the failure.
pub open spec fn restore_persisted(
    state: crate::model::AppView,
    entries: Seq<PersistedEntryView>,
    windows: Seq<ToplevelView>,
) -> crate::model::Requests {
    if !state.has_manager {
        Err(crate::error::manager_unavailable_text())
    } else {
        Ok(restore_persisted_requests(entries, windows))
    }
}

/// Entries, mathematically.
pub open spec fn views(entries: Seq<PersistedSnapshotEntry>) -> Seq<PersistedEntryView> {
    entries.map_values(|entry: PersistedSnapshotEntry| entry@)
}

/// What is asked and what is to be kept, with the error read as a message.
pub open spec fn persisted_result(
    result: Result<(Vec<ToplevelRequest>, PersistedSnapshot), WmError>,
) -> Result<(Seq<ToplevelRequest>, Seq<PersistedEntryView>), Seq<char>> {
    match result {
        Ok((asked, snapshot)) => Ok((asked@, snapshot@)),
        Err(error) => Err(error.text()),
    }
}

impl AppData {
    /// Asks to minimize every window that is to be minimized, and gives what to keep of them.
    pub fn minimize_all_and_persist(&self, toplevels: &Vec<Toplevel>) -> (result: Result<
        (Vec<ToplevelRequest>, PersistedSnapshot),
        WmError,
    >)
        ensures
            persisted_result(result) == minimize_and_persist(
                self@,
                crate::toplevel::listing(toplevels@),
            ),
    {
        if !self.has_manager() {
            return Err(WmError::manager_unavailable());
        }
        let ghost windows = crate::toplevel::listing(toplevels@);
        let sorted = sort_eligible(toplevels, true);
        let mut asked: Vec<ToplevelRequest> = Vec::with_capacity(sorted.len());
        let mut entries: Vec<PersistedSnapshotEntry> = Vec::with_capacity(sorted.len());
        proof {
            crate::key_order::lemma_sorted_positions_bounded(
                windows,
                |window: ToplevelView| window.to_minimize(),
            );
        }
        let mut k: usize = 0;
        while k < sorted.len()
            invariant
                k <= sorted@.len(),
                windows == crate::toplevel::listing(toplevels@),
                forall|j: int|
                    0 <= j < sorted@.len() ==> 0 <= #[trigger] ints(sorted@)[j]
                        < windows.len(),
                asked@.len() == k,
                entries@.len() == k,
                forall|j: int|
                    0 <= j < k ==> #[trigger] asked@[j] == (ToplevelRequest::SetMinimized {
                        window: sorted@[j],
                    }),
                forall|j: int|
                    0 <= j < k ==> (#[trigger] entries@[j])@
                        == windows[sorted@[j] as int].persisted_entry(),
            decreases sorted@.len() - k,
        {
            assert(ints(sorted@)[k as int] == sorted@[k as int]);
            let window = sorted[k];
            asked.push(ToplevelRequest::SetMinimized { window });
            entries.push(persisted_entry(&toplevels[window]));
            k += 1;
        }
        let snapshot = PersistedSnapshot { entries };
        assert(asked@ =~= persist_requests(windows));
        assert(snapshot@ =~= persisted_of(windows));
        Ok((asked, snapshot))
    }

    /// Asks to restore the window of each entry, those that were active last.
    pub fn restore_persisted_snapshot(
        &self,
        snapshot: &PersistedSnapshot,
        toplevels: &Vec<Toplevel>,
    ) -> (result: Result<Vec<ToplevelRequest>, WmError>)
        ensures
            crate::app_data::requests(result) == restore_persisted(
                self@,
                snapshot@,
                crate::toplevel::listing(toplevels@),
            ),
    {
        if !self.has_manager() {
            return Err(WmError::manager_unavailable());
        }
        let ghost windows = crate::toplevel::listing(toplevels@);
        let ghost entries = snapshot@;
        let ghost places = restoring_places(entries);
        let ghost restore = |e: int| restore_target_requests(entries, e, windows);
        let sorted = sort_eligible(toplevels, false);
        let order = in_restoring_order(&snapshot.entries);
        let mut asked: Vec<ToplevelRequest> = Vec::new();
        proof {
            lemma_restoring_places(entries);
            assert(places.take(0).map_values(restore) =~= seq![]);
        }
        let mut j: usize = 0;
        while j < order.len()
            invariant
                j <= order@.len(),
                windows == crate::toplevel::listing(toplevels@),
                entries == snapshot@,
                places == restoring_places(entries),
                ints(order@) == places,
                forall|k: int| 0 <= k < places.len() ==> 0 <= #[trigger] places[k] < entries.len(),
                restore == (|e: int| restore_target_requests(entries, e, windows)),
                ints(sorted@) == sorted_positions(windows, |window: ToplevelView| window.eligible()),
                asked@ == places.take(j as int).flat_map(restore),
            decreases order@.len() - j,
        {
            let ghost before = asked@;
            let e = order[j];
            assert(places[j as int] == e);
            let found = find_target(&snapshot.entries, &order, e, toplevels, &sorted);
            if let Some(window) = found {
                asked.push(ToplevelRequest::UnsetMinimized { window });
                match snapshot.entries[e].restore_kind {
                    RestoreKind::Maximized => asked.push(ToplevelRequest::SetMaximized { window }),
                    RestoreKind::Normal => asked.push(ToplevelRequest::UnsetMaximized { window }),
                }
            }
            proof {
                assert(asked@ =~= before + restore(e as int));
                places.lemma_flat_map_take_append(restore, j as int);
            }
            j += 1;
        }
        assert(places.take(places.len() as int) =~= places);
        Ok(asked)
    }
}

/// Each entry has its place in the order of restoring, once.
pub proof fn lemma_restoring_places(entries: Seq<PersistedEntryView>)
    ensures
        restoring_places(entries).to_multiset() == Seq::new(
            entries.len(),
            |e: int| e,
        ).to_multiset(),
        restoring_places(entries).len() == entries.len(),
        restoring_places(entries).no_duplicates(),
        forall|e: int| #[trigger]
            restoring_places(entries).contains(e) <==> 0 <= e < entries.len(),
        forall|k: int|
            0 <= k < entries.len() ==> 0 <= #[trigger] restoring_places(entries)[k]
                < entries.len(),
{
    broadcast use vstd::seq_lib::group_to_multiset_ensures;

    let all = Seq::new(entries.len(), |e: int| e);
    let was_active = |e: int| entries[e].was_active;
    let places = restoring_places(entries);
    crate::model::lemma_restoring_order_multiset(all, was_active);
    assert(places.len() == places.to_multiset().len());
    assert(all.len() == all.to_multiset().len());
    assert(all.no_duplicates());
    all.lemma_multiset_has_no_duplicates();
    assert forall|v: int| #[trigger]
        places.to_multiset().contains(v) implies places.to_multiset().count(v) == 1 by {
        assert(all.to_multiset().contains(v));
    }
    places.lemma_multiset_has_no_duplicates_conv();
    assert forall|e: int| #[trigger] places.contains(e) <==> 0 <= e < entries.len() by {
        assert(places.contains(e) == (places.to_multiset().count(e) > 0));
        assert(all.contains(e) == (all.to_multiset().count(e) > 0));
        if 0 <= e < entries.len() {
            assert(all[e] == e);
        }
    }
    assert forall|k: int| 0 <= k < entries.len() implies 0 <= #[trigger] places[k]
        < entries.len() by {
        assert(places.contains(places[k]));
    }
}

/// The positions of the windows that `entry` names and that can be restored, by protocol id.
fn find_candidates(
    entry: &PersistedSnapshotEntry,
    toplevels: &Vec<Toplevel>,
    sorted: &Vec<usize>,
) -> (found: Vec<usize>)
    requires
        ints(sorted@) == sorted_positions(
            crate::toplevel::listing(toplevels@),
            |window: ToplevelView| window.eligible(),
        ),
    ensures
        ints(found@) == candidates(entry@, crate::toplevel::listing(toplevels@)),
{
    let ghost windows = crate::toplevel::listing(toplevels@);
    let ghost eligible = |window: ToplevelView| window.eligible();
    let ghost by_name = |i: int| names(entry@, windows[i]);
    let ghost queue = ints(sorted@);
    let mut found: Vec<usize> = Vec::new();
    proof {
        crate::key_order::lemma_sorted_positions_filter(
            windows,
            eligible,
            by_name,
            |window: ToplevelView| window.eligible() && names(entry@, window),
        );
        crate::key_order::lemma_sorted_positions_bounded(windows, eligible);
        crate::sequences::lemma_filter_empty(queue.take(0), by_name);
        assert(ints(found@) =~= queue.take(0).filter(by_name));
    }
    let mut k: usize = 0;
    while k < sorted.len()
        invariant
            k <= sorted@.len(),
            windows == crate::toplevel::listing(toplevels@),
            queue == ints(sorted@),
            by_name == (|i: int| names(entry@, windows[i])),
            forall|q: int| 0 <= q < queue.len() ==> 0 <= #[trigger] queue[q] < windows.len(),
            ints(found@) == queue.take(k as int).filter(by_name),
        decreases sorted@.len() - k,
    {
        let window = sorted[k];
        assert(queue[k as int] == window);
        proof {
            crate::sequences::lemma_filter_take(queue, by_name, k as int);
        }
        let ghost before = found@;
        if toplevels[window].identifier == entry.identifier && toplevels[window].app_id
            == entry.app_id {
            found.push(window);
            assert(ints(found@) =~= ints(before).push(window as int));
        }
        k += 1;
    }
    assert(queue.take(queue.len() as int) =~= queue);
    found
}

/// The places of the entries that name the same windows as `entry`, in the order in which they
/// are restored, at most `limit` of them.
fn find_served(
    entries: &Vec<PersistedSnapshotEntry>,
    order: &Vec<usize>,
    entry: &PersistedSnapshotEntry,
    limit: usize,
) -> (served: Vec<usize>)
    requires
        ints(order@) == restoring_places(views(entries@)),
    ensures
        ({
            let waiting = claimants(views(entries@), entry@);
            ints(served@) == if waiting.len() <= limit {
                waiting
            } else {
                waiting.take(limit as int)
            }
        }),
{
    let ghost all = views(entries@);
    let ghost places = ints(order@);
    let ghost by_key = |e: int| same_key(all[e], entry@);
    let mut served: Vec<usize> = Vec::new();
    proof {
        lemma_restoring_places(all);
        crate::sequences::lemma_filter_empty(places.take(0), by_key);
        assert(ints(served@) =~= places.take(0).filter(by_key));
    }
    let mut k: usize = 0;
    while k < order.len()
        invariant
            k <= order@.len(),
            all == views(entries@),
            places == ints(order@),
            by_key == (|e: int| same_key(all[e], entry@)),
            forall|q: int| 0 <= q < places.len() ==> 0 <= #[trigger] places[q] < all.len(),
            ({
                let waiting = places.take(k as int).filter(by_key);
                ints(served@) == if waiting.len() <= limit {
                    waiting
                } else {
                    waiting.take(limit as int)
                }
            }),
        decreases order@.len() - k,
    {
        let e = order[k];
        assert(places[k as int] == e);
        let ghost waiting = places.take(k as int).filter(by_key);
        let ghost before = served@;
        proof {
            crate::sequences::lemma_filter_take(places, by_key, k as int);
        }
        if entries[e].identifier == entry.identifier && entries[e].app_id == entry.app_id {
            if served.len() < limit {
                served.push(e);
                assert(ints(served@) =~= ints(before).push(e as int));
            } else {
                assert(waiting.push(e as int).take(limit as int) =~= waiting.take(limit as int));
                assert(waiting.len() == limit ==> waiting.take(limit as int) =~= waiting);
            }
        }
        k += 1;
    }
    assert(places.take(places.len() as int) =~= places);
    served
}

/// The position of the window that the entry at `e` restores.
fn find_target(
    entries: &Vec<PersistedSnapshotEntry>,
    order: &Vec<usize>,
    e: usize,
    toplevels: &Vec<Toplevel>,
    sorted: &Vec<usize>,
) -> (at: Option<usize>)
    requires
        e < entries@.len(),
        ints(order@) == restoring_places(views(entries@)),
        ints(sorted@) == sorted_positions(
            crate::toplevel::listing(toplevels@),
            |window: ToplevelView| window.eligible(),
        ),
    ensures
        target(views(entries@), e as int, crate::toplevel::listing(toplevels@)) == match at {
            Some(window) => Some(window as int),
            None => None,
        },
{
    let ghost windows = crate::toplevel::listing(toplevels@);
    let ghost all = views(entries@);
    let ghost earlier = |other: int| other < e;
    let found = find_candidates(&entries[e], toplevels, sorted);
    let served_places = find_served(entries, order, &entries[e], found.len());
    let ghost queue = ints(served_places@);
    assert(ints(found@).len() == found@.len());
    assert(queue == served(all, all[e as int], windows));
    proof {
        crate::sequences::lemma_filter_empty(queue.take(0), earlier);
    }
    let mut taken: usize = 0;
    let mut is_served = false;
    let mut k: usize = 0;
    while k < served_places.len()
        invariant
            k <= served_places@.len(),
            queue == ints(served_places@),
            earlier == (|other: int| other < e),
            taken <= k,
            taken == queue.take(k as int).filter(earlier).len(),
            is_served == queue.take(k as int).contains(e as int),
        decreases served_places@.len() - k,
    {
        let place = served_places[k];
        proof {
            assert(queue[k as int] == place);
            crate::sequences::lemma_filter_take(queue, earlier, k as int);
            let before = queue.take(k as int);
            let after = queue.take(k + 1);
            assert(after =~= before.push(place as int));
            assert(after[k as int] == place);
            assert(forall|q: int| 0 <= q < k ==> after[q] == before[q]);
        }
        if place < e {
            taken += 1;
        } else if place == e {
            is_served = true;
        }
        k += 1;
    }
    assert(queue.take(queue.len() as int) =~= queue);
    if !is_served {
        return None;
    }
    proof {
        let k = choose|k: int| 0 <= k < queue.len() && queue[k] == e;
        crate::sequences::lemma_filter_drops(queue, earlier, k);
        assert(ints(found@)[taken as int] == found@[taken as int]);
    }
    Some(found[taken])
}

/// The places of the entries of windows that were not active, then of those that were.
fn in_restoring_order(entries: &Vec<PersistedSnapshotEntry>) -> (order: Vec<usize>)
    ensures
        ints(order@) == restoring_places(views(entries@)),
{
    let mut order: Vec<usize> = Vec::new();
    let mut active: Vec<usize> = Vec::new();
    let ghost all = Seq::new(entries@.len(), |e: int| e);
    let ghost was_active = |e: int| views(entries@)[e].was_active;
    let ghost was_not_active = |e: int| !was_active(e);
    proof {
        crate::sequences::lemma_filter_empty(all.take(0), was_active);
        crate::sequences::lemma_filter_empty(all.take(0), was_not_active);
        assert(ints(order@) =~= all.take(0).filter(was_not_active));
        assert(ints(active@) =~= all.take(0).filter(was_active));
    }
    let mut e: usize = 0;
    while e < entries.len()
        invariant
            e <= entries@.len(),
            all == Seq::new(entries@.len(), |e: int| e),
            was_active == (|e: int| views(entries@)[e].was_active),
            was_not_active == (|e: int| !was_active(e)),
            ints(order@) == all.take(e as int).filter(was_not_active),
            ints(active@) == all.take(e as int).filter(was_active),
        decreases entries@.len() - e,
    {
        proof {
            crate::sequences::lemma_filter_take(all, was_active, e as int);
            crate::sequences::lemma_filter_take(all, was_not_active, e as int);
        }
        let ghost (before, before_active) = (order@, active@);
        if entries[e].was_active {
            active.push(e);
            assert(ints(active@) =~= ints(before_active).push(e as int));
        } else {
            order.push(e);
            assert(ints(order@) =~= ints(before).push(e as int));
        }
        e += 1;
    }
    assert(all.take(all.len() as int) =~= all);
    let ghost (before, before_active) = (order@, active@);
    order.append(&mut active);
    assert(ints(order@) =~= ints(before) + ints(before_active));
    order
}

/// What is asked and kept is read as it is, an error by its message.
pub proof fn law_kept_entries_are_read_as_they_are(
    asked: Vec<ToplevelRequest>,
    snapshot: PersistedSnapshot,
    text: String,
)
    ensures
        persisted_result(Ok((asked, snapshot))) == Ok::<
            (Seq<ToplevelRequest>, Seq<PersistedEntryView>),
            Seq<char>,
        >((asked@, snapshot@)),
        persisted_result(Err(WmError::Command(text))) == Err::<
            (Seq<ToplevelRequest>, Seq<PersistedEntryView>),
            Seq<char>,
        >(text@),
        snapshot@.len() == snapshot.entries@.len(),
        forall|e: int|
            0 <= e < snapshot.entries@.len() ==> {
                let entry = snapshot.entries@[e];
                &&& (#[trigger] snapshot@[e]).identifier == entry.identifier@
                &&& snapshot@[e].app_id == entry.app_id@
                &&& snapshot@[e].restore_kind == entry.restore_kind
                &&& snapshot@[e].was_active == entry.was_active
                &&& snapshot@[e] == entry@
            },
{
}

} // verus!
