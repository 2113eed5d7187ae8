//! The order of windows by identifier, application id and protocol id, and
//! the listed windows sorted by it.

use vstd::prelude::*;

use vstd::relations::{sorted_by, total_ordering};
use crate::text::text_not_after;
use crate::toplevel::{Toplevel, ToplevelView};

verus! {

/// The window at `i` comes before the one at `j`, or is the same: by identifier, then by
/// application id, then by protocol id, then by position.
pub open spec fn key_le(windows: Seq<ToplevelView>, i: int, j: int) -> bool {
    let a = windows[i];
    let b = windows[j];
    if a.identifier != b.identifier {
        crate::text::text_le(a.identifier, b.identifier)
    } else if a.app_id != b.app_id {
        crate::text::text_le(a.app_id, b.app_id)
    } else if a.foreign_id != b.foreign_id {
        a.foreign_id < b.foreign_id
    } else {
        i <= j
    }
}

/// The order of `key_le` as a relation.
pub open spec fn key_order(windows: Seq<ToplevelView>) -> spec_fn(int, int) -> bool {
    |i: int, j: int| key_le(windows, i, j)
}

/// The positions of the windows that satisfy `pred`, sorted by `key_le`.
pub open spec fn sorted_positions(
    windows: Seq<ToplevelView>,
    pred: spec_fn(ToplevelView) -> bool,
) -> Seq<int> {
    crate::model::positions(windows, pred).sort_by(key_order(windows))
}

/// Positions as integers.
pub open spec fn ints(positions: Seq<usize>) -> Seq<int> {
    positions.map_values(|p: usize| p as int)
}

/// `key_le` is a total order.
pub proof fn lemma_key_order_total(windows: Seq<ToplevelView>)
    ensures
        total_ordering(key_order(windows)),
{
    let le = key_order(windows);
    assert forall|x: int, y: int| #[trigger] le(x, y) && #[trigger] le(y, x) implies x == y by {
        let (a, b) = (windows[x], windows[y]);
        if a.identifier != b.identifier {
            crate::text::lemma_text_le_antisymmetric(a.identifier, b.identifier);
        } else if a.app_id != b.app_id {
            crate::text::lemma_text_le_antisymmetric(a.app_id, b.app_id);
        }
    }
    assert forall|x: int, y: int, z: int| #[trigger] le(x, y) && #[trigger] le(y, z) implies le(
        x,
        z,
    ) by {
        let (a, b, c) = (windows[x], windows[y], windows[z]);
        if a.identifier != b.identifier && b.identifier != c.identifier {
            crate::text::lemma_text_le_transitive(a.identifier, b.identifier, c.identifier);
            if a.identifier == c.identifier {
                crate::text::lemma_text_le_antisymmetric(a.identifier, b.identifier);
            }
        } else if a.identifier == b.identifier && b.identifier == c.identifier {
            if a.app_id != b.app_id && b.app_id != c.app_id {
                crate::text::lemma_text_le_transitive(a.app_id, b.app_id, c.app_id);
                if a.app_id == c.app_id {
                    crate::text::lemma_text_le_antisymmetric(a.app_id, b.app_id);
                }
            }
        }
    }
    assert forall|x: int, y: int| #[trigger] le(x, y) || #[trigger] le(y, x) by {
        crate::text::lemma_text_le_total(windows[x].identifier, windows[y].identifier);
        crate::text::lemma_text_le_total(windows[x].app_id, windows[y].app_id);
    }
}

/// The windows that satisfy `pred` stand at the sorted positions, each once.
pub proof fn lemma_sorted_positions_bounded(
    windows: Seq<ToplevelView>,
    pred: spec_fn(ToplevelView) -> bool,
)
    ensures
        forall|k: int|
            0 <= k < sorted_positions(windows, pred).len() ==> {
                &&& 0 <= #[trigger] sorted_positions(windows, pred)[k] < windows.len()
                &&& pred(windows[sorted_positions(windows, pred)[k]])
            },
        forall|i: int|
            0 <= i < windows.len() && pred(#[trigger] windows[i]) ==> sorted_positions(
                windows,
                pred,
            ).contains(i),
        sorted_positions(windows, pred).no_duplicates(),
{
    broadcast use vstd::seq_lib::group_to_multiset_ensures;

    let all = Seq::new(windows.len(), |i: int| i);
    let at_pred = |i: int| pred(windows[i]);
    let found = crate::model::positions(windows, pred);
    let sorted = sorted_positions(windows, pred);
    lemma_key_order_total(windows);
    found.lemma_sort_by_ensures(key_order(windows));
    assert forall|i: int| #[trigger] sorted.contains(i) == (0 <= i < windows.len() && pred(
        windows[i],
    )) by {
        assert(sorted.contains(i) == (sorted.to_multiset().count(i) > 0));
        assert(found.contains(i) == (found.to_multiset().count(i) > 0));
        crate::sequences::lemma_filter_count(all, at_pred, i);
        assert(all.contains(i) == (all.to_multiset().count(i) > 0));
        if 0 <= i < windows.len() {
            assert(all[i] == i);
        }
    }
    assert forall|k: int| 0 <= k < sorted.len() implies 0 <= #[trigger] sorted[k] < windows.len()
        && pred(windows[sorted[k]]) by {
        assert(sorted.contains(sorted[k]));
    }
    assert forall|v: int| #[trigger] sorted.to_multiset().contains(v) implies sorted.to_multiset().count(v) == 1 by {
        crate::sequences::lemma_filter_count(all, at_pred, v);
        assert(all.no_duplicates());
        all.lemma_multiset_has_no_duplicates();
        assert(all.to_multiset().contains(v));
    }
    sorted.lemma_multiset_has_no_duplicates_conv();
}

/// The sorted positions are those of the windows that satisfy `pred`, each once, and stand by
/// identifier, by application id, by protocol id, and else as the windows are listed.
pub proof fn law_sorted_positions(windows: Seq<ToplevelView>, pred: spec_fn(ToplevelView) -> bool)
    ensures
        ({
            let sorted = sorted_positions(windows, pred);
            &&& forall|i: int| #[trigger]
                sorted.contains(i) <==> 0 <= i < windows.len() && pred(windows[i])
            &&& forall|j: int, k: int|
                0 <= j < k < sorted.len() ==> {
                    let (p, q) = (#[trigger] sorted[j], #[trigger] sorted[k]);
                    let (a, b) = (windows[p], windows[q]);
                    if a.identifier != b.identifier {
                        crate::text::text_le(a.identifier, b.identifier)
                    } else if a.app_id != b.app_id {
                        crate::text::text_le(a.app_id, b.app_id)
                    } else {
                        a.foreign_id < b.foreign_id || (a.foreign_id == b.foreign_id && p < q)
                    }
                }
        }),
{
    let sorted = sorted_positions(windows, pred);
    lemma_sorted_positions_bounded(windows, pred);
    lemma_key_order_total(windows);
    crate::model::positions(windows, pred).lemma_sort_by_ensures(key_order(windows));
    assert forall|i: int| #[trigger] sorted.contains(i) <==> 0 <= i < windows.len() && pred(
        windows[i],
    ) by {
        if sorted.contains(i) {
            let k = choose|k: int| 0 <= k < sorted.len() && sorted[k] == i;
            assert(pred(windows[sorted[k]]));
        }
    }
    assert forall|j: int, k: int| 0 <= j < k < sorted.len() implies {
        let (p, q) = (#[trigger] sorted[j], #[trigger] sorted[k]);
        let (a, b) = (windows[p], windows[q]);
        if a.identifier != b.identifier {
            crate::text::text_le(a.identifier, b.identifier)
        } else if a.app_id != b.app_id {
            crate::text::text_le(a.app_id, b.app_id)
        } else {
            a.foreign_id < b.foreign_id || (a.foreign_id == b.foreign_id && p < q)
        }
    } by {
        assert(key_order(windows)(sorted[j], sorted[k]));
        assert(sorted[j] != sorted[k]);
    }
}

/// Positions are the same as integers.
pub proof fn law_positions_as_integers(positions: Seq<usize>)
    ensures
        ints(positions).len() == positions.len(),
        forall|k: int| 0 <= k < positions.len() ==> #[trigger] ints(positions)[k] == positions[k],
{
}

/// Of the sorted positions, those that also satisfy a second condition.
pub proof fn lemma_sorted_positions_filter(
    windows: Seq<ToplevelView>,
    pred: spec_fn(ToplevelView) -> bool,
    at: spec_fn(int) -> bool,
    both: spec_fn(ToplevelView) -> bool,
)
    requires
        forall|i: int|
            0 <= i < windows.len() ==> #[trigger] both(windows[i]) == (pred(windows[i]) && at(i)),
    ensures
        sorted_positions(windows, pred).filter(at) == sorted_positions(windows, both),
{
    let all = Seq::new(windows.len(), |i: int| i);
    let found = crate::model::positions(windows, pred);
    lemma_key_order_total(windows);
    crate::sequences::lemma_sort_filter(found, at, key_order(windows));
    crate::sequences::lemma_filter_filter(
        all,
        |i: int| pred(windows[i]),
        at,
        |i: int| pred(windows[i]) && at(i),
    );
    crate::sequences::lemma_filter_same(
        all,
        |i: int| pred(windows[i]) && at(i),
        |i: int| both(windows[i]),
    );
}

/// Whether the window at `i` comes before the one at `j`, or is the same.
fn not_after(toplevels: &Vec<Toplevel>, i: usize, j: usize) -> (le: bool)
    requires
        i < toplevels@.len(),
        j < toplevels@.len(),
    ensures
        le == key_le(crate::toplevel::listing(toplevels@), i as int, j as int),
{
    let a = &toplevels[i];
    let b = &toplevels[j];
    if a.identifier != b.identifier {
        text_not_after(a.identifier.as_str(), b.identifier.as_str())
    } else if a.app_id != b.app_id {
        text_not_after(a.app_id.as_str(), b.app_id.as_str())
    } else if a.foreign_id != b.foreign_id {
        a.foreign_id < b.foreign_id
    } else {
        i <= j
    }
}

/// Puts `position` where it belongs among sorted positions.
fn insert_sorted(toplevels: &Vec<Toplevel>, sorted: &mut Vec<usize>, position: usize)
    requires
        position < toplevels@.len(),
        forall|k: int| 0 <= k < old(sorted)@.len() ==> old(sorted)@[k] < toplevels@.len(),
        sorted_by(ints(old(sorted)@), key_order(crate::toplevel::listing(toplevels@))),
    ensures
        forall|k: int| 0 <= k < final(sorted)@.len() ==> final(sorted)@[k] < toplevels@.len(),
        sorted_by(ints(final(sorted)@), key_order(crate::toplevel::listing(toplevels@))),
        ints(final(sorted)@).to_multiset() == ints(old(sorted)@).to_multiset().insert(
            position as int,
        ),
{
    let ghost windows = crate::toplevel::listing(toplevels@);
    let ghost le = key_order(windows);
    let ghost before = ints(sorted@);
    proof {
        lemma_key_order_total(windows);
    }
    let mut at: usize = sorted.len();
    while at > 0 && !not_after(toplevels, sorted[at - 1], position)
        invariant
            at <= sorted@.len(),
            position < toplevels@.len(),
            windows == crate::toplevel::listing(toplevels@),
            le == key_order(windows),
            before == ints(sorted@),
            forall|k: int| 0 <= k < sorted@.len() ==> sorted@[k] < toplevels@.len(),
            forall|k: int| at <= k < before.len() ==> !#[trigger] le(before[k], position as int),
        decreases at,
    {
        at -= 1;
    }
    sorted.insert(at, position);
    proof {
        assert(ints(sorted@) =~= before.insert(at as int, position as int));
        vstd::seq_lib::to_multiset_insert(before, at as int, position as int);
        let after = ints(sorted@);
        assert forall|i: int, j: int| 0 <= i < j < after.len() implies #[trigger] le(
            after[i],
            after[j],
        ) by {
            if i < at && j == at {
                if i < at - 1 {
                    assert(le(before[i], before[at - 1]));
                }
                assert(le(before[at - 1], position as int));
            } else if i == at {
                assert(!le(before[j - 1], position as int));
                assert(le(position as int, before[j - 1]));
            } else {
                let i0 = if i < at { i } else { i - 1 };
                let j0 = if j < at { j } else { j - 1 };
                assert(le(before[i0], before[j0]));
            }
        }
    }
}

/// The positions of the windows that are managed and take requests, sorted by `key_le`;
/// those that are minimized are left out if `visible_only`.
pub fn sort_eligible(toplevels: &Vec<Toplevel>, visible_only: bool) -> (sorted: Vec<usize>)
    ensures
        visible_only ==> ints(sorted@) == sorted_positions(
            crate::toplevel::listing(toplevels@),
            |window: ToplevelView| window.to_minimize(),
        ),
        !visible_only ==> ints(sorted@) == sorted_positions(
            crate::toplevel::listing(toplevels@),
            |window: ToplevelView| window.eligible(),
        ),
{
    let ghost windows = crate::toplevel::listing(toplevels@);
    let ghost pred = if visible_only {
        |window: ToplevelView| window.to_minimize()
    } else {
        |window: ToplevelView| window.eligible()
    };
    let ghost all = Seq::new(windows.len(), |i: int| i);
    let ghost at_pred = |i: int| pred(windows[i]);
    let mut sorted: Vec<usize> = Vec::new();
    proof {
        crate::sequences::lemma_filter_empty(all.take(0), at_pred);
        assert(ints(sorted@) =~= all.take(0).filter(at_pred));
    }
    let mut k: usize = 0;
    while k < toplevels.len()
        invariant
            k <= toplevels@.len(),
            windows == crate::toplevel::listing(toplevels@),
            visible_only ==> pred == (|window: ToplevelView| window.to_minimize()),
            !visible_only ==> pred == (|window: ToplevelView| window.eligible()),
            all == Seq::new(windows.len(), |i: int| i),
            at_pred == (|i: int| pred(windows[i])),
            forall|j: int| 0 <= j < sorted@.len() ==> sorted@[j] < toplevels@.len(),
            sorted_by(ints(sorted@), key_order(windows)),
            ints(sorted@).to_multiset() == all.take(k as int).filter(at_pred).to_multiset(),
        decreases toplevels@.len() - k,
    {
        proof {
            crate::sequences::lemma_filter_take(all, at_pred, k as int);
            vstd::seq_lib::to_multiset_build(all.take(k as int).filter(at_pred), k as int);
        }
        let info = &toplevels[k];
        let chosen = if visible_only {
            info.is_to_minimize()
        } else {
            info.is_eligible()
        };
        if chosen {
            insert_sorted(toplevels, &mut sorted, k);
        }
        k += 1;
    }
    proof {
        assert(all.take(all.len() as int) =~= all);
        let found = crate::model::positions(windows, pred);
        lemma_key_order_total(windows);
        found.lemma_sort_by_ensures(key_order(windows));
        vstd::seq_lib::lemma_sorted_unique(
            ints(sorted@),
            found.sort_by(key_order(windows)),
            key_order(windows),
        );
    }
    sorted
}

} // verus!
