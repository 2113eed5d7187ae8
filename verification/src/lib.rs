//! The logic of a "show desktop" applet for the COSMIC desktop: which windows it
//! minimizes and restores, in what order, and what it remembers of them. The library decides;
//! the requests it returns are for the caller to send.

pub mod app_data;
pub mod effects;
pub mod error;
pub mod event_loop;
pub mod files;
pub mod key_order;
pub mod laws;
pub mod model;
pub mod paths;
pub mod persisted;
pub mod persisted_laws;
pub mod persisted_toggle_laws;
pub mod persistent_toggle;
pub mod request;
mod sequences;
pub mod snapshot;
pub mod text;
pub mod toggle_laws;
pub mod toplevel;
