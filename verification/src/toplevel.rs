//! The windows that the compositor lists, and which of them the applet manages.

use vstd::prelude::*;

use crate::text::text_contains;

verus! {

/// A state in which the compositor reports a window to be.
#[derive(Debug, Clone, Copy, PartialEq, Eq, Structural)]
pub enum ToplevelState {
    Maximized,
    Minimized,
    Activated,
    Fullscreen,
    Sticky,
}

/// A window as the compositor lists it.
#[derive(Debug, Clone)]
pub struct Toplevel {
    /// The protocol id of the window's handle in the foreign toplevel list.
    pub foreign_id: u32,
    pub identifier: String,
    pub app_id: String,
    pub state: Vec<ToplevelState>,
    /// Whether the window has a handle through which it takes requests.
    pub controllable: bool,
    /// The protocol ids of the workspaces that the window is on.
    pub workspaces: Vec<u32>,
    /// The protocol ids of the outputs that the window is on, in the order of the listing.
    pub outputs: Vec<u32>,
}

/// What a listed window is, mathematically.
pub ghost struct ToplevelView {
    pub foreign_id: u32,
    pub identifier: Seq<char>,
    pub app_id: Seq<char>,
    pub state: Set<ToplevelState>,
    pub controllable: bool,
    pub workspaces: Seq<u32>,
    pub outputs: Seq<u32>,
}

impl View for Toplevel {
    type V = ToplevelView;

    open spec fn view(&self) -> ToplevelView {
        ToplevelView {
            foreign_id: self.foreign_id,
            identifier: self.identifier@,
            app_id: self.app_id@,
            state: self.state@.to_set(),
            controllable: self.controllable,
            workspaces: self.workspaces@,
            outputs: self.outputs@,
        }
    }
}

/// The listed windows, mathematically.
pub open spec fn listing(toplevels: Seq<Toplevel>) -> Seq<ToplevelView> {
    toplevels.map_values(|toplevel: Toplevel| toplevel@)
}

/// A window with this identifier and application id is one that the applet manages:
/// it is identified, and is no part of the desktop shell.
pub open spec fn managed_values(identifier: Seq<char>, app_id: Seq<char>) -> bool {
    &&& identifier.len() > 0
    &&& !crate::text::occurs_in("cosmic-panel"@, app_id)
    &&& !crate::text::occurs_in("cosmic-ext-showdesktop"@, app_id)
    &&& !crate::text::occurs_in("cosmic-bg"@, app_id)
    &&& !crate::text::occurs_in("cosmic-greeter"@, app_id)
}

impl ToplevelView {
    pub open spec fn managed(self) -> bool {
        managed_values(self.identifier, self.app_id)
    }

    pub open spec fn minimized(self) -> bool {
        self.state.contains(ToplevelState::Minimized)
    }

    pub open spec fn maximized(self) -> bool {
        self.state.contains(ToplevelState::Maximized)
    }

    pub open spec fn activated(self) -> bool {
        self.state.contains(ToplevelState::Activated)
    }

    /// The applet manages the window and can send requests for it.
    pub open spec fn eligible(self) -> bool {
        self.managed() && self.controllable
    }

    /// Minimizing all windows minimizes this one.
    pub open spec fn to_minimize(self) -> bool {
        self.eligible() && !self.minimized()
    }
}

/// A window is managed if it has an identifier and its application id, whatever stands before
/// and after, names none of the panel, this applet, the background and the greeter.
pub proof fn law_regular_windows_are_managed(window: ToplevelView)
    ensures
        window.managed() == managed_values(window.identifier, window.app_id),
        window.managed() <==> {
            &&& window.identifier.len() > 0
            &&& forall|before: Seq<char>, after: Seq<char>|
                window.app_id != #[trigger] (before + "cosmic-panel"@ + after)
            &&& forall|before: Seq<char>, after: Seq<char>|
                window.app_id != #[trigger] (before + "cosmic-ext-showdesktop"@ + after)
            &&& forall|before: Seq<char>, after: Seq<char>|
                window.app_id != #[trigger] (before + "cosmic-bg"@ + after)
            &&& forall|before: Seq<char>, after: Seq<char>|
                window.app_id != #[trigger] (before + "cosmic-greeter"@ + after)
        },
        window.eligible() <==> window.managed() && window.controllable,
        window.to_minimize() <==> window.managed() && window.controllable
            && !window.state.contains(ToplevelState::Minimized),
{
    crate::text::law_occurrence("cosmic-panel"@, window.app_id);
    crate::text::law_occurrence("cosmic-ext-showdesktop"@, window.app_id);
    crate::text::law_occurrence("cosmic-bg"@, window.app_id);
    crate::text::law_occurrence("cosmic-greeter"@, window.app_id);
}

/// The listing shows each window where it stands, with all that the compositor reports of it.
pub proof fn law_listing_shows_every_window(toplevels: Seq<Toplevel>, i: int)
    requires
        0 <= i < toplevels.len(),
    ensures
        listing(toplevels).len() == toplevels.len(),
        listing(toplevels)[i].foreign_id == toplevels[i].foreign_id,
        listing(toplevels)[i].identifier == toplevels[i].identifier@,
        listing(toplevels)[i].app_id == toplevels[i].app_id@,
        listing(toplevels)[i].controllable == toplevels[i].controllable,
        listing(toplevels)[i].workspaces == toplevels[i].workspaces@,
        listing(toplevels)[i].outputs == toplevels[i].outputs@,
        forall|state: ToplevelState| #[trigger]
            listing(toplevels)[i].state.contains(state) <==> exists|k: int|
                0 <= k < toplevels[i].state@.len() && #[trigger] toplevels[i].state@[k] == state,
        toplevels[i]@ == listing(toplevels)[i],
{
}

/// Whether the applet manages a window with this identifier and application id.
pub fn should_manage_toplevel_values(identifier: &str, app_id: &str) -> (manage: bool)
    ensures
        manage == managed_values(identifier@, app_id@),
{
    if identifier.is_empty() {
        return false;
    }
    if text_contains(app_id, "cosmic-panel") || text_contains(app_id, "cosmic-ext-showdesktop")
        || text_contains(app_id, "cosmic-bg") || text_contains(app_id, "cosmic-greeter") {
        return false;
    }
    true
}

/// Whether the applet manages the window.
pub fn should_manage_toplevel(info: &Toplevel) -> (manage: bool)
    ensures
        manage == info@.managed(),
{
    should_manage_toplevel_values(info.identifier.as_str(), info.app_id.as_str())
}

impl Toplevel {
    /// Whether the window is in `state`.
    pub fn has_state(&self, state: ToplevelState) -> (found: bool)
        ensures
            found == self@.state.contains(state),
    {
        let mut k: usize = 0;
        while k < self.state.len()
            invariant
                k <= self.state@.len(),
                forall|j: int| 0 <= j < k ==> self.state@[j] != state,
            decreases self.state@.len() - k,
        {
            if self.state[k] == state {
                return true;
            }
            k += 1;
        }
        false
    }

    /// Whether the applet manages the window and can send requests for it.
    pub fn is_eligible(&self) -> (eligible: bool)
        ensures
            eligible == self@.eligible(),
    {
        should_manage_toplevel(self) && self.controllable
    }

    /// Whether minimizing all windows minimizes this one.
    pub fn is_to_minimize(&self) -> (to_minimize: bool)
        ensures
            to_minimize == self@.to_minimize(),
    {
        self.is_eligible() && !self.has_state(ToplevelState::Minimized)
    }
}

} // verus!
