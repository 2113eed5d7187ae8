//! What the requests are for: the listed windows once a compositor has carried them out, as
//! far as it concerns whether they are minimized and whether they are maximized.

use vstd::prelude::*;

use crate::request::ToplevelRequest;
use crate::toplevel::{ToplevelState, ToplevelView};

verus! {

/// The position of the window that a request is for.
pub open spec fn subject(request: ToplevelRequest) -> int {
    match request {
        ToplevelRequest::SetMinimized { window } => window as int,
        ToplevelRequest::UnsetMinimized { window } => window as int,
        ToplevelRequest::SetMaximized { window } => window as int,
        ToplevelRequest::UnsetMaximized { window } => window as int,
        ToplevelRequest::MoveToExtWorkspace { window, workspace, output } => window as int,
    }
}

/// The state of the window that `request` is for, once it is carried out.
pub open spec fn changed_state(
    request: ToplevelRequest,
    state: Set<ToplevelState>,
) -> Set<ToplevelState> {
    match request {
        ToplevelRequest::SetMinimized { window } => state.insert(ToplevelState::Minimized),
        ToplevelRequest::UnsetMinimized { window } => state.remove(ToplevelState::Minimized),
        ToplevelRequest::SetMaximized { window } => state.insert(ToplevelState::Maximized),
        ToplevelRequest::UnsetMaximized { window } => state.remove(ToplevelState::Maximized),
        ToplevelRequest::MoveToExtWorkspace { window, workspace, output } => state,
    }
}

/// The window at position `at`, once `requests` are carried out in their order.
pub open spec fn window_after(
    requests: Seq<ToplevelRequest>,
    at: int,
    window: ToplevelView,
) -> ToplevelView
    decreases requests.len(),
{
    if requests.len() == 0 {
        window
    } else {
        let before = window_after(requests.drop_last(), at, window);
        if subject(requests.last()) == at {
            ToplevelView { state: changed_state(requests.last(), before.state), ..before }
        } else {
            before
        }
    }
}

/// The listed windows, once `requests` are carried out in their order.
pub open spec fn windows_after(
    requests: Seq<ToplevelRequest>,
    windows: Seq<ToplevelView>,
) -> Seq<ToplevelView> {
    Seq::new(windows.len(), |i: int| window_after(requests, i, windows[i]))
}

/// No request is for the window at `at`.
pub open spec fn spares(requests: Seq<ToplevelRequest>, at: int) -> bool {
    forall|k: int| 0 <= k < requests.len() ==> subject(#[trigger] requests[k]) != at
}

/// A window that no request is for stays as it is.
pub proof fn lemma_spared(requests: Seq<ToplevelRequest>, at: int, window: ToplevelView)
    requires
        spares(requests, at),
    ensures
        window_after(requests, at, window) == window,
    decreases requests.len(),
{
    if requests.len() > 0 {
        let rest = requests.drop_last();
        assert forall|k: int| 0 <= k < rest.len() implies subject(#[trigger] rest[k]) != at by {
            assert(rest[k] == requests[k]);
        }
        lemma_spared(rest, at, window);
        assert(subject(requests[requests.len() - 1]) != at);
    }
}

/// Requests are carried out one after the other.
pub proof fn lemma_window_after_concat(
    first: Seq<ToplevelRequest>,
    second: Seq<ToplevelRequest>,
    at: int,
    window: ToplevelView,
)
    ensures
        window_after(first + second, at, window) == window_after(
            second,
            at,
            window_after(first, at, window),
        ),
    decreases second.len(),
{
    if second.len() == 0 {
        assert(first + second =~= first);
    } else {
        assert((first + second).drop_last() =~= first + second.drop_last());
        assert((first + second).last() == second.last());
        lemma_window_after_concat(first, second.drop_last(), at, window);
    }
}

/// Of several groups of requests, only the one at `j` may concern the window at `at`.
pub proof fn lemma_window_after_only(
    groups: Seq<Seq<ToplevelRequest>>,
    j: int,
    at: int,
    window: ToplevelView,
)
    requires
        forall|k: int| 0 <= k < groups.len() && k != j ==> spares(#[trigger] groups[k], at),
    ensures
        window_after(groups.flatten(), at, window) == if 0 <= j < groups.len() {
            window_after(groups[j], at, window)
        } else {
            window
        },
    decreases groups.len(),
{
    if groups.len() > 0 {
        let rest = groups.drop_last();
        assert forall|k: int| 0 <= k < rest.len() && k != j implies spares(
            #[trigger] rest[k],
            at,
        ) by {
            assert(rest[k] == groups[k]);
        }
        lemma_window_after_only(rest, j, at, window);
        assert(groups =~= rest.push(groups.last()));
        rest.lemma_flatten_push(groups.last());
        lemma_window_after_concat(rest.flatten(), groups.last(), at, window);
        if j != groups.len() - 1 {
            assert(spares(groups[groups.len() - 1], at));
            lemma_spared(groups.last(), at, window_after(rest.flatten(), at, window));
        }
    }
}

/// Of several groups of requests, those that concern the window at `at` are all the same,
/// and it takes no more to carry them out twice.
pub proof fn lemma_window_after_repeated(
    groups: Seq<Seq<ToplevelRequest>>,
    group: Seq<ToplevelRequest>,
    at: int,
    window: ToplevelView,
)
    requires
        forall|k: int|
            0 <= k < groups.len() ==> spares(#[trigger] groups[k], at) || groups[k] == group,
        window_after(group, at, window_after(group, at, window)) == window_after(
            group,
            at,
            window,
        ),
    ensures
        groups.contains(group) ==> window_after(groups.flatten(), at, window) == window_after(
            group,
            at,
            window,
        ),
        !groups.contains(group) ==> window_after(groups.flatten(), at, window) == window,
    decreases groups.len(),
{
    if groups.len() > 0 {
        let rest = groups.drop_last();
        assert forall|k: int| 0 <= k < rest.len() implies spares(#[trigger] rest[k], at)
            || rest[k] == group by {
            assert(rest[k] == groups[k]);
        }
        lemma_window_after_repeated(rest, group, at, window);
        assert(groups =~= rest.push(groups.last()));
        rest.lemma_flatten_push(groups.last());
        lemma_window_after_concat(rest.flatten(), groups.last(), at, window);
        let so_far = window_after(rest.flatten(), at, window);
        assert(groups[groups.len() - 1] == groups.last());
        if groups.contains(group) {
            let k = choose|k: int| 0 <= k < groups.len() && groups[k] == group;
            if k < rest.len() {
                assert(rest[k] == group);
            }
        }
        if rest.contains(group) {
            let k = choose|k: int| 0 <= k < rest.len() && rest[k] == group;
            assert(groups[k] == group);
        }
        if groups.last() != group {
            lemma_spared(groups.last(), at, so_far);
        }
    }
}

} // verus!
