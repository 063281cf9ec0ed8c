//! Window-management core of a single-output monocle-style tiling shell.
//!
//! The crate tracks the set of mapped client windows (the registry), computes
//! each window's geometry and visibility from the current focus (the layout
//! engine), drives the first-configure handshake and the decoration-mode
//! policy (the commit coordinator), and keeps the single keyboard-focus
//! target up to date across window lifecycle events (the focus tracker).
//!
//! Everything here is plain data and decisions; wire-protocol transport,
//! rendering and input devices are collaborators that feed events in and
//! carry the returned actions out.

pub mod events;
pub mod layout;
pub mod registry;
pub mod state;
pub mod window;
