use vstd::prelude::*;

verus! {

/// Whether window chrome (borders, title bar) is drawn by the client or by
/// the shell, or has not been negotiated yet.
#[derive(Clone, Copy, PartialEq, Eq, Structural, Debug)]
pub enum DecorationMode {
    ClientSide,
    ServerSide,
    Unset,
}

/// A width/height pair in pixels.
#[derive(Clone, Copy, PartialEq, Eq, Structural, Debug)]
pub struct Size {
    pub w: u32,
    pub h: u32,
}

/// A screen-space offset.
#[derive(Clone, Copy, PartialEq, Eq, Structural, Debug)]
pub struct Point {
    pub x: i32,
    pub y: i32,
}

/// The single output's display mode: pixel size and refresh rate in
/// millihertz.  Fixed for the lifetime of the core.
#[derive(Clone, Copy, PartialEq, Eq, Structural, Debug)]
pub struct Mode {
    pub size: Size,
    pub refresh: u32,
}

/// One mapped client top-level surface.
///
/// Two `Window` values denote the same client surface iff their `id`s are
/// equal.  `pending_size` and `pending_decoration` are the state most
/// recently offered to the client (a configure the client has yet to
/// acknowledge); `activated` is true iff the window currently holds input
/// focus; `initial_configure_sent` records whether the one-shot first
/// configure has gone out, and never returns to false.
#[derive(Clone, Copy, PartialEq, Eq, Structural, Debug)]
pub struct Window {
    pub id: u64,
    pub pending_size: Size,
    pub pending_decoration: DecorationMode,
    pub activated: bool,
    pub initial_configure_sent: bool,
    pub offset: Point,
    pub visible: bool,
}

impl Window {
    /// The window as the layout engine parks it: off-screen at (-1,-1),
    /// zero pending size, deactivated and out of the visible stack.
    pub open spec fn parked_spec(self) -> Window {
        Window {
            pending_size: Size { w: 0, h: 0 },
            activated: false,
            offset: Point { x: -1i32, y: -1i32 },
            visible: false,
            ..self
        }
    }

    /// The window as the layout engine features it: at (0,0), pending size
    /// the full output size, activated and topmost in the visible stack.
    pub open spec fn featured_spec(self, size: Size) -> Window {
        Window {
            pending_size: size,
            activated: true,
            offset: Point { x: 0, y: 0 },
            visible: true,
            ..self
        }
    }

    /// The window with its activation flag cleared and nothing else changed.
    pub open spec fn deactivated_spec(self) -> Window {
        Window { activated: false, ..self }
    }

    /// A window as it first enters the registry: mapped topmost at (0,0),
    /// activated, decoration not yet negotiated, no configure sent yet.
    pub open spec fn fresh_spec(id: u64) -> Window {
        Window {
            id,
            pending_size: Size { w: 0, h: 0 },
            pending_decoration: DecorationMode::Unset,
            activated: true,
            initial_configure_sent: false,
            offset: Point { x: 0, y: 0 },
            visible: true,
        }
    }

    /// Park this window (see [`Window::parked_spec`]).
    pub fn parked(self) -> (r: Window)
        ensures
            r == self.parked_spec(),
    {
        Window {
            pending_size: Size { w: 0, h: 0 },
            activated: false,
            offset: Point { x: -1, y: -1 },
            visible: false,
            ..self
        }
    }

    /// Feature this window (see [`Window::featured_spec`]).
    pub fn featured(self, size: Size) -> (r: Window)
        ensures
            r == self.featured_spec(size),
    {
        Window {
            pending_size: size,
            activated: true,
            offset: Point { x: 0, y: 0 },
            visible: true,
            ..self
        }
    }

    /// Clear the activation flag (see [`Window::deactivated_spec`]).
    pub fn deactivated(self) -> (r: Window)
        ensures
            r == self.deactivated_spec(),
    {
        Window { activated: false, ..self }
    }

    /// Build a freshly mapped window (see [`Window::fresh_spec`]).
    pub fn fresh(id: u64) -> (r: Window)
        ensures
            r == Window::fresh_spec(id),
    {
        Window {
            id,
            pending_size: Size { w: 0, h: 0 },
            pending_decoration: DecorationMode::Unset,
            activated: true,
            initial_configure_sent: false,
            offset: Point { x: 0, y: 0 },
            visible: true,
        }
    }
}

} // verus!
