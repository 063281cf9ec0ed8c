use vstd::prelude::*;

use crate::window::DecorationMode;
use crate::window::Size;

verus! {

/// One outbound configure offer: a new pending size, decoration mode and
/// activation state for the window with surface id `id`.  The transport
/// collaborator encodes and sends it; the client may honour it or not, but
/// must acknowledge it.
#[derive(Clone, Copy, PartialEq, Eq, Structural, Debug)]
pub struct Configure {
    pub id: u64,
    pub size: Size,
    pub decoration: DecorationMode,
    pub activated: bool,
}

/// A side effect the core asks its collaborators to perform, in order.
#[derive(Clone, Copy, PartialEq, Eq, Debug)]
pub enum Action {
    /// Hand the configure to the transport layer.
    SendConfigure(Configure),
    /// Retarget keyboard input (`None` clears focus).
    SetKeyboardFocus(Option<u64>),
    /// Let the window refresh its render-relevant metadata after a commit
    /// on its root surface.
    RefreshWindow(u64),
}

/// An inbound notification from the transport layer, already resolved to
/// plain surface ids.
#[derive(Clone, Copy, PartialEq, Eq, Debug)]
pub enum Event {
    /// A client created a new top-level surface.
    NewToplevel { id: u64 },
    /// A top-level surface was destroyed.
    ToplevelDestroyed { id: u64 },
    /// A surface committed a buffer.  `sync_subsurface` says whether the
    /// committing surface is a subsurface in synchronized composition;
    /// `root` is its root ancestor (the surface itself when it has no
    /// parent).
    Commit { surface: u64, sync_subsurface: bool, root: u64 },
    /// A decoration object was created for the window.
    NewDecoration { id: u64 },
    /// The client asked for a decoration mode.
    RequestMode { id: u64, requested: DecorationMode },
    /// The client revoked its decoration preference.
    UnsetMode { id: u64 },
}

} // verus!
