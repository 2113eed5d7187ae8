//! The applet's memory and the operations on it.

use std::collections::{HashMap, HashSet};
use vstd::prelude::*;

use crate::error::WmError;
use crate::model::AppView;
use crate::request::{AnnouncedCapability, Capability, ToplevelRequest};
use crate::sequences::{lemma_filter_empty, lemma_filter_take};
use crate::snapshot::{snapshot_entry, RestoreKind, SnapshotEntry};
use crate::toplevel::{should_manage_toplevel, Toplevel, ToplevelState, ToplevelView};

verus! {

broadcast use vstd::std_specs::hash::group_hash_axioms;

/// What the applet remembers between two operations.
#[derive(Debug)]
pub struct AppData {
    exit: bool,
    has_manager: bool,
    snapshot: Vec<SnapshotEntry>,
    snapshot_ids: HashSet<u32>,
    supports_move_to_ext_workspace: bool,
}

impl View for AppData {
    type V = AppView;

    closed spec fn view(&self) -> AppView {
        AppView {
            exit: self.exit,
            has_manager: self.has_manager,
            snapshot: self.snapshot@,
            supports_move_to_ext_workspace: self.supports_move_to_ext_workspace,
        }
    }
}

/// The requests of an operation, with its error read as a message.
pub open spec fn requests(
    result: Result<Vec<ToplevelRequest>, WmError>,
) -> crate::model::Requests {
    match result {
        Ok(requests) => Ok(requests@),
        Err(error) => Err(error.text()),
    }
}

/// The ids under which the remembered windows were listed.
pub open spec fn entry_ids(snapshot: Seq<SnapshotEntry>) -> Set<u32> {
    snapshot.map_values(|entry: SnapshotEntry| entry.foreign_id).to_set()
}

impl AppData {
    /// The set of ids is that of the remembered windows.
    pub closed spec fn wf(self) -> bool {
        self.snapshot_ids@ == entry_ids(self.snapshot@)
    }

    /// Nothing is remembered at first.
    pub fn new(has_manager: bool) -> (data: AppData)
        ensures
            data.wf(),
            data@ == (AppView {
                exit: false,
                has_manager,
                snapshot: seq![],
                supports_move_to_ext_workspace: false,
            }),
    {
        let data = AppData {
            exit: false,
            has_manager,
            snapshot: Vec::new(),
            snapshot_ids: HashSet::new(),
            supports_move_to_ext_workspace: false,
        };
        assert(data.snapshot_ids@ =~= entry_ids(data.snapshot@));
        data
    }

    /// Asks to minimize every window that is to be minimized and remembers these windows.
    pub fn minimize_all(&mut self, toplevels: &Vec<Toplevel>) -> (result: Result<
        Vec<ToplevelRequest>,
        WmError,
    >)
        requires
            old(self).wf(),
        ensures
            final(self).wf(),
            (final(self)@, requests(result)) == crate::model::minimize_all(
                old(self)@,
                crate::toplevel::listing(toplevels@),
            ),
    {
        if !self.has_manager {
            return Err(WmError::manager_unavailable());
        }
        let ghost windows = crate::toplevel::listing(toplevels@);
        let ghost chosen = |window: ToplevelView| window.to_minimize();
        let ghost all = Seq::new(windows.len(), |i: int| i);
        let ghost at_chosen = |i: int| chosen(windows[i]);
        let mut snapshot: Vec<SnapshotEntry> = Vec::new();
        let mut snapshot_ids: HashSet<u32> = HashSet::new();
        let mut asked: Vec<ToplevelRequest> = Vec::new();
        proof {
            lemma_filter_empty(windows.take(0), chosen);
            lemma_filter_empty(all.take(0), at_chosen);
            assert(snapshot_ids@ =~= entry_ids(snapshot@));
        }
        let mut k: usize = 0;
        while k < toplevels.len()
            invariant
                k <= toplevels@.len(),
                windows == crate::toplevel::listing(toplevels@),
                chosen == (|window: ToplevelView| window.to_minimize()),
                all == Seq::new(windows.len(), |i: int| i),
                at_chosen == (|i: int| chosen(windows[i])),
                snapshot@ == windows.take(k as int).filter(chosen).map_values(
                    |window: ToplevelView| window.snapshot_entry(),
                ),
                asked@ == all.take(k as int).filter(at_chosen).map_values(
                    |i: int| ToplevelRequest::SetMinimized { window: i as usize },
                ),
                snapshot_ids@ == entry_ids(snapshot@),
            decreases toplevels@.len() - k,
        {
            let info = &toplevels[k];
            proof {
                lemma_filter_take(windows, chosen, k as int);
                lemma_filter_take(all, at_chosen, k as int);
            }
            if info.is_to_minimize() {
                let ghost before = snapshot@;
                let entry = snapshot_entry(info);
                asked.push(ToplevelRequest::SetMinimized { window: k });
                snapshot.push(entry);
                snapshot_ids.insert(entry.foreign_id);
                proof {
                    lemma_entry_ids_push(before, entry);
                }
            }
            k += 1;
        }
        assert(windows.take(windows.len() as int) =~= windows);
        assert(all.take(all.len() as int) =~= all);
        self.snapshot = snapshot;
        self.snapshot_ids = snapshot_ids;
        Ok(asked)
    }

    /// Asks to restore every remembered window that is still listed, those that were active
    /// last, and forgets them all.
    pub fn restore_snapshot(&mut self, toplevels: &Vec<Toplevel>) -> (result: Result<
        Vec<ToplevelRequest>,
        WmError,
    >)
        requires
            old(self).wf(),
        ensures
            final(self).wf(),
            (final(self)@, requests(result)) == crate::model::restore_snapshot(
                old(self)@,
                crate::toplevel::listing(toplevels@),
            ),
    {
        if !self.has_manager {
            return Err(WmError::manager_unavailable());
        }
        let can_move = self.supports_move_to_ext_workspace;
        let ghost windows = crate::toplevel::listing(toplevels@);
        let order = in_restoring_order(&self.snapshot);
        let current_toplevels = by_foreign_id(toplevels);
        let mut asked: Vec<ToplevelRequest> = Vec::new();
        let ghost restore = |entry: SnapshotEntry|
            crate::model::restore_requests(entry, windows, can_move);
        proof {
            assert(order@.take(0).map_values(restore) =~= seq![]);
        }
        let mut k: usize = 0;
        while k < order.len()
            invariant
                k <= order@.len(),
                windows == crate::toplevel::listing(toplevels@),
                restore == (|entry: SnapshotEntry|
                    crate::model::restore_requests(entry, windows, can_move)),
                locates(current_toplevels@, windows),
                asked@ == order@.take(k as int).flat_map(restore),
            decreases order@.len() - k,
        {
            let entry = order[k];
            proof {
                order@.lemma_flat_map_take_append(restore, k as int);
                crate::model::lemma_last_listed(windows, entry.foreign_id);
            }
            let ghost before = asked@;
            if let Some(at) = current_toplevels.get(&entry.foreign_id) {
                let window = *at;
                let info = &toplevels[window];
                if info.controllable {
                    if can_move && info.outputs.len() > 0 {
                        if let Some(workspace) = entry.workspace {
                            asked.push(
                                ToplevelRequest::MoveToExtWorkspace {
                                    window,
                                    workspace,
                                    output: info.outputs[0],
                                },
                            );
                        }
                    }
                    asked.push(ToplevelRequest::UnsetMinimized { window });
                    match entry.restore_kind {
                        RestoreKind::Maximized => asked.push(
                            ToplevelRequest::SetMaximized { window },
                        ),
                        RestoreKind::Normal => asked.push(
                            ToplevelRequest::UnsetMaximized { window },
                        ),
                    }
                }
            }
            assert(asked@ =~= before + restore(entry));
            k += 1;
        }
        assert(order@.take(order@.len() as int) =~= order@);
        self.snapshot = Vec::new();
        self.snapshot_ids.clear();
        assert(self.snapshot_ids@ =~= entry_ids(self.snapshot@));
        Ok(asked)
    }

    /// Minimizes all windows where none is remembered, else restores the remembered ones.
    pub fn handle_toggle(&mut self, toplevels: &Vec<Toplevel>) -> (result: Result<
        Vec<ToplevelRequest>,
        WmError,
    >)
        requires
            old(self).wf(),
        ensures
            final(self).wf(),
            (final(self)@, requests(result)) == crate::model::toggle(
                old(self)@,
                crate::toplevel::listing(toplevels@),
            ),
    {
        if self.snapshot.is_empty() {
            self.minimize_all(toplevels)
        } else {
            self.restore_snapshot(toplevels)
        }
    }

    /// Forgets every remembered window.
    pub fn discard_snapshot(&mut self)
        requires
            old(self).wf(),
        ensures
            final(self).wf(),
            final(self)@ == (AppView { snapshot: seq![], ..old(self)@ }),
    {
        if self.snapshot.is_empty() {
            assert(self.snapshot@ =~= seq![]);
            return;
        }
        self.snapshot.clear();
        self.snapshot_ids.clear();
        assert(self.snapshot_ids@ =~= entry_ids(self.snapshot@));
    }

    /// A window appeared: what is remembered is forgotten if it is a managed one, is visible
    /// and is not itself remembered.
    pub fn new_toplevel(&mut self, info: Option<&Toplevel>)
        requires
            old(self).wf(),
        ensures
            final(self).wf(),
            final(self)@ == crate::model::observe(old(self)@, seen(info)),
    {
        self.observe(info)
    }

    /// A window changed: what is remembered is forgotten if it is a managed one, is visible
    /// and is not itself remembered.
    pub fn update_toplevel(&mut self, info: Option<&Toplevel>)
        requires
            old(self).wf(),
        ensures
            final(self).wf(),
            final(self)@ == crate::model::observe(old(self)@, seen(info)),
    {
        self.observe(info)
    }

    fn observe(&mut self, info: Option<&Toplevel>)
        requires
            old(self).wf(),
        ensures
            final(self).wf(),
            final(self)@ == crate::model::observe(old(self)@, seen(info)),
    {
        if self.snapshot.is_empty() {
            assert(self.snapshot@ =~= seq![]);
            return;
        }
        if let Some(window) = info {
            let in_snapshot = self.snapshot_ids.contains(&window.foreign_id);
            proof {
                lemma_entry_ids_contains(self.snapshot@, window.foreign_id);
            }
            if should_manage_toplevel(window) && !window.has_state(ToplevelState::Minimized)
                && !in_snapshot {
                self.discard_snapshot();
            }
        }
    }

    /// The toplevel manager announced what it can do.
    pub fn capabilities(&mut self, capabilities: &Vec<AnnouncedCapability>)
        requires
            old(self).wf(),
        ensures
            final(self).wf(),
            final(self)@ == crate::model::announce(old(self)@, capabilities@),
    {
        let wanted = AnnouncedCapability::Value(Capability::MoveToExtWorkspace);
        let mut supported = false;
        let mut k: usize = 0;
        while k < capabilities.len()
            invariant
                k <= capabilities@.len(),
                supported == capabilities@.take(k as int).contains(wanted),
            decreases capabilities@.len() - k,
        {
            proof {
                let before = capabilities@.take(k as int);
                let after = capabilities@.take(k + 1);
                assert(after =~= before.push(capabilities@[k as int]));
                assert(after[k as int] == capabilities@[k as int]);
                assert(forall|j: int| 0 <= j < k ==> after[j] == before[j]);
            }
            if capabilities[k] == wanted {
                supported = true;
            }
            k += 1;
        }
        assert(capabilities@.take(capabilities@.len() as int) =~= capabilities@);
        self.supports_move_to_ext_workspace = supported;
    }

    /// The request channel was closed.
    pub fn close(&mut self)
        requires
            old(self).wf(),
        ensures
            final(self).wf(),
            final(self)@ == (AppView { exit: true, ..old(self)@ }),
    {
        self.exit = true;
    }

    /// Whether the compositor offers a toplevel manager.
    pub fn has_manager(&self) -> (has_manager: bool)
        ensures
            has_manager == self@.has_manager,
    {
        self.has_manager
    }

    /// Whether the request channel was closed.
    pub fn exit(&self) -> (exit: bool)
        ensures
            exit == self@.exit,
    {
        self.exit
    }
}

/// What is known of a window, mathematically.
pub open spec fn seen(info: Option<&Toplevel>) -> Option<ToplevelView> {
    match info {
        Some(window) => Some(window@),
        None => None,
    }
}

/// `map` gives for each id the last position at which it is listed.
spec fn locates(map: Map<u32, usize>, windows: Seq<ToplevelView>) -> bool {
    forall|id: u32|
        match crate::model::last_listed(windows, id) {
            Some(at) => #[trigger] map.contains_key(id) && map[id] == at,
            None => !map.contains_key(id),
        }
}

/// Where each id is listed last.
fn by_foreign_id(toplevels: &Vec<Toplevel>) -> (map: HashMap<u32, usize>)
    ensures
        locates(map@, crate::toplevel::listing(toplevels@)),
{
    let ghost windows = crate::toplevel::listing(toplevels@);
    let mut map: HashMap<u32, usize> = HashMap::new();
    let mut k: usize = 0;
    while k < toplevels.len()
        invariant
            k <= toplevels@.len(),
            windows == crate::toplevel::listing(toplevels@),
            locates(map@, windows.take(k as int)),
        decreases toplevels@.len() - k,
    {
        assert(windows.take(k + 1).drop_last() =~= windows.take(k as int));
        map.insert(toplevels[k].foreign_id, k);
        k += 1;
    }
    assert(windows.take(windows.len() as int) =~= windows);
    map
}

/// The entries of windows that were not active, then those of windows that were.
fn in_restoring_order(entries: &Vec<SnapshotEntry>) -> (order: Vec<SnapshotEntry>)
    ensures
        order@ == crate::model::restoring_order(
            entries@,
            |entry: SnapshotEntry| entry.was_active,
        ),
{
    let mut order: Vec<SnapshotEntry> = Vec::new();
    let mut active: Vec<SnapshotEntry> = Vec::new();
    let ghost was_active = |entry: SnapshotEntry| entry.was_active;
    let ghost was_not_active = |entry: SnapshotEntry| !was_active(entry);
    proof {
        lemma_filter_empty(entries@.take(0), was_active);
        lemma_filter_empty(entries@.take(0), was_not_active);
    }
    let mut k: usize = 0;
    while k < entries.len()
        invariant
            k <= entries@.len(),
            was_active == (|entry: SnapshotEntry| entry.was_active),
            was_not_active == (|entry: SnapshotEntry| !was_active(entry)),
            order@ == entries@.take(k as int).filter(was_not_active),
            active@ == entries@.take(k as int).filter(was_active),
        decreases entries@.len() - k,
    {
        let entry = entries[k];
        proof {
            lemma_filter_take(entries@, was_active, k as int);
            lemma_filter_take(entries@, was_not_active, k as int);
        }
        if entry.was_active {
            active.push(entry);
        } else {
            order.push(entry);
        }
        k += 1;
    }
    assert(entries@.take(entries@.len() as int) =~= entries@);
    order.append(&mut active);
    order
}

/// The ids of the remembered windows are those under which a window is remembered.
proof fn lemma_entry_ids_contains(snapshot: Seq<SnapshotEntry>, id: u32)
    ensures
        entry_ids(snapshot).contains(id) <==> exists|k: int|
            0 <= k < snapshot.len() && (#[trigger] snapshot[k]).foreign_id == id,
{
    let ids = snapshot.map_values(|entry: SnapshotEntry| entry.foreign_id);
    if exists|k: int| 0 <= k < snapshot.len() && (#[trigger] snapshot[k]).foreign_id == id {
        let k = choose|k: int| 0 <= k < snapshot.len() && (#[trigger] snapshot[k]).foreign_id == id;
        assert(ids[k] == id);
    }
}

/// Remembering one window more adds its id.
proof fn lemma_entry_ids_push(snapshot: Seq<SnapshotEntry>, entry: SnapshotEntry)
    ensures
        entry_ids(snapshot.push(entry)) == entry_ids(snapshot).insert(entry.foreign_id),
{
    let id = |entry: SnapshotEntry| entry.foreign_id;
    let ids = snapshot.map_values(id);
    assert(snapshot.push(entry).map_values(id) =~= ids.push(entry.foreign_id));
    assert forall|x: u32| ids.push(entry.foreign_id).to_set().contains(x)
        == ids.to_set().insert(entry.foreign_id).contains(x) by {
        if ids.contains(x) {
            let k = choose|k: int| 0 <= k < ids.len() && ids[k] == x;
            assert(ids.push(entry.foreign_id)[k] == x);
        }
        assert(ids.push(entry.foreign_id)[ids.len() as int] == entry.foreign_id);
    }
    assert(ids.push(entry.foreign_id).to_set() =~= ids.to_set().insert(entry.foreign_id));
}

/// What an operation asks and what is known of a window are read as they are, an error by its
/// message.
pub proof fn law_requests_are_read_as_they_are(
    asked: Vec<ToplevelRequest>,
    text: String,
    window: &Toplevel,
)
    ensures
        requests(Ok(asked)) == Ok::<Seq<ToplevelRequest>, Seq<char>>(asked@),
        requests(Err(WmError::Command(text))) == Err::<Seq<ToplevelRequest>, Seq<char>>(text@),
        seen(Some(window)) == Some(window@),
        seen(None) is None,
{
}

} // verus!
