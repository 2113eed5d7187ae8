//! The requests that the applet sends for a window.

use vstd::prelude::*;

verus! {

/// A request to the compositor. `window` is the window's position in the listing.
#[derive(Debug, Clone, Copy, PartialEq, Eq, Structural)]
pub enum ToplevelRequest {
    SetMinimized { window: usize },
    UnsetMinimized { window: usize },
    SetMaximized { window: usize },
    UnsetMaximized { window: usize },
    /// The workspace and the output are given by their protocol ids.
    MoveToExtWorkspace { window: usize, workspace: u32, output: u32 },
}

/// A capability that the compositor's toplevel manager announces.
#[derive(Debug, Clone, Copy, PartialEq, Eq, Structural)]
pub enum Capability {
    Close,
    Activate,
    Maximize,
    Minimize,
    Fullscreen,
    MoveToWorkspace,
    Sticky,
    MoveToExtWorkspace,
}

/// An announced capability, or the number of one that the protocol does not know.
#[derive(Debug, Clone, Copy, PartialEq, Eq, Structural)]
pub enum AnnouncedCapability {
    Value(Capability),
    Unknown(u32),
}

} // verus!
