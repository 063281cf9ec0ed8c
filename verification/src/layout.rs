use vstd::prelude::*;

use crate::events::Configure;
use crate::registry::Registry;
use crate::registry::at_most_one_activated;
use crate::registry::id_present;
use crate::registry::unique_ids;
use crate::window::Mode;
use crate::window::Point;
use crate::window::Size;
use crate::window::Window;

verus! {

/// Some window in the sequence holds the activation flag.
pub open spec fn has_active(s: Seq<Window>) -> bool {
    exists|i: int| 0 <= i < s.len() && s[i].activated
}

/// The stacking index of the window the monocle strategy treats as active:
/// the activated one if any window is activated (unique under the registry
/// invariant), else the topmost (most recently mapped) window.
pub open spec fn active_index(s: Seq<Window>) -> int {
    if has_active(s) {
        choose|i: int| 0 <= i < s.len() && s[i].activated
    } else {
        s.len() - 1
    }
}

pub proof fn lemma_active_index(s: Seq<Window>)
    requires
        s.len() > 0,
    ensures
        0 <= active_index(s) < s.len(),
        has_active(s) ==> s[active_index(s)].activated,
{
    if has_active(s) {
        let w = choose|i: int| 0 <= i < s.len() && s[i].activated;
        assert(0 <= w < s.len() && s[w].activated);
    }
}

/// The registry contents after a monocle pass that features the window at
/// index `a`: every other window parked in its old relative order, the
/// featured window on top.
pub open spec fn monocle_arrange(s: Seq<Window>, a: int, size: Size) -> Seq<Window> {
    Seq::new(
        s.len(),
        |j: int|
            if j == s.len() - 1 {
                s[a].featured_spec(size)
            } else if j < a {
                s[j].parked_spec()
            } else {
                s[j + 1].parked_spec()
            },
    )
}

/// The registry contents after one monocle layout pass: unchanged when
/// empty, otherwise the active window featured at full output size and all
/// others parked.
pub open spec fn monocle_windows(s: Seq<Window>, size: Size) -> Seq<Window> {
    if s.len() == 0 {
        s
    } else {
        monocle_arrange(s, active_index(s), size)
    }
}

/// The one configure a monocle layout pass sends: the active window is
/// offered the full output size, activated, with its decoration mode as it
/// stands.  Meaningful only when `s` is non-empty.
pub open spec fn monocle_configure(s: Seq<Window>, size: Size) -> Configure {
    Configure {
        id: s[active_index(s)].id,
        size,
        decoration: s[active_index(s)].pending_decoration,
        activated: true,
    }
}

/// The registry contents after the monocle lost-focus operation: the
/// topmost remaining window is marked activated, every other window's
/// activation flag is cleared, and nothing else changes.
pub open spec fn lost_focus_windows(s: Seq<Window>) -> Seq<Window> {
    Seq::new(s.len(), |j: int| Window { activated: j == s.len() - 1, ..s[j] })
}

/// The input index a monocle pass moved to output position `j`: the
/// featured window comes from `a`, the parked ones keep their relative
/// order around it.
pub open spec fn arrange_source(len: int, a: int, j: int) -> int {
    if j == len - 1 {
        a
    } else if j < a {
        j
    } else {
        j + 1
    }
}

/// Every window an arranged sequence holds is one of the input's windows,
/// parked or featured: position `j` keeps the id and the one-shot
/// first-configure flag of input position `arrange_source(len, a, j)`.
pub proof fn lemma_arrange_source(s: Seq<Window>, a: int, size: Size, j: int)
    requires
        0 <= a < s.len(),
        0 <= j < s.len(),
    ensures
        0 <= arrange_source(s.len() as int, a, j) < s.len(),
        monocle_arrange(s, a, size)[j].id == s[arrange_source(s.len() as int, a, j)].id,
        monocle_arrange(s, a, size)[j].initial_configure_sent == s[arrange_source(
            s.len() as int,
            a,
            j,
        )].initial_configure_sent,
{
}

/// An arranged sequence holds a window with a given id iff the input did:
/// parking and featuring move windows but never add or drop one.
pub proof fn lemma_arrange_id_present(s: Seq<Window>, a: int, size: Size, id: u64)
    requires
        0 <= a < s.len(),
    ensures
        id_present(monocle_arrange(s, a, size), id) == id_present(s, id),
{
    let t = monocle_arrange(s, a, size);
    if id_present(s, id) {
        let k = choose|i: int| 0 <= i < s.len() && s[i].id == id;
        if k == a {
            assert(t[s.len() - 1].id == id);
        } else if k < a {
            assert(t[k].id == id);
        } else {
            assert(t[k - 1].id == id);
        }
        assert(id_present(t, id));
    }
    if id_present(t, id) {
        let k = choose|i: int| 0 <= i < t.len() && t[i].id == id;
        if k == t.len() - 1 {
            assert(s[a].id == id);
        } else if k < a {
            assert(s[k].id == id);
        } else {
            assert(s[k + 1].id == id);
        }
        assert(id_present(s, id));
    }
}

/// An arranged sequence keeps the ids a permutation of the input's and
/// leaves exactly the topmost window activated.
pub proof fn lemma_arrange_wf(s: Seq<Window>, a: int, size: Size)
    requires
        0 <= a < s.len(),
        unique_ids(s),
    ensures
        unique_ids(monocle_arrange(s, a, size)),
        at_most_one_activated(monocle_arrange(s, a, size)),
{
    let t = monocle_arrange(s, a, size);
    assert forall|i: int, j: int| 0 <= i < j < t.len() implies t[i].id != t[j].id by {
        if j == t.len() - 1 {
            if i < a {
                assert(t[i].id == s[i].id);
            } else {
                assert(t[i].id == s[i + 1].id);
            }
            assert(t[j].id == s[a].id);
        } else {
            if i < a && j >= a {
                assert(t[i].id == s[i].id && t[j].id == s[j + 1].id);
            }
        }
    }
}

/// The monocle layout pass is idempotent: running it again on its own
/// output changes neither the window sequence nor the configure it emits.
pub proof fn lemma_layout_idempotent(s: Seq<Window>, size: Size)
    ensures
        monocle_windows(monocle_windows(s, size), size) == monocle_windows(s, size),
        s.len() > 0 ==> monocle_configure(monocle_windows(s, size), size) == monocle_configure(
            s,
            size,
        ),
{
    if s.len() > 0 {
        lemma_active_index(s);
        let a = active_index(s);
        let t = monocle_windows(s, size);
        assert(t[t.len() - 1].activated);
        assert(has_active(t));
        let a2 = active_index(t);
        assert(0 <= a2 < t.len() && t[a2].activated) by {
            lemma_active_index(t);
        }
        assert(a2 == t.len() - 1) by {
            if a2 < t.len() - 1 {
                assert(!t[a2].activated);
            }
        }
        assert(t[a2] == s[a].featured_spec(size));
        let t2 = monocle_windows(t, size);
        assert forall|j: int| 0 <= j < t2.len() implies t2[j] == t[j] by {
            if j == t.len() - 1 {
                assert(t2[j] == t[a2].featured_spec(size));
            } else {
                assert(t2[j] == t[j].parked_spec());
                assert(t[j] == (if j < a {
                    s[j].parked_spec()
                } else {
                    s[j + 1].parked_spec()
                }));
            }
        }
        assert(t2 =~= t);
        assert(monocle_configure(t, size).id == t[a2].id);
    }
}

/// The parking convention: after a layout pass on a non-empty registry,
/// exactly one window — the topmost — sits at (0,0) with the full output
/// size, activated and visible; every other window sits off-screen at
/// (-1,-1) with size (0,0), deactivated and out of the visible stack.
pub proof fn lemma_layout_parking(s: Seq<Window>, size: Size)
    requires
        s.len() >= 1,
    ensures
        monocle_windows(s, size).len() == s.len(),
        monocle_windows(s, size).last() == (Window {
            pending_size: size,
            activated: true,
            offset: Point { x: 0, y: 0 },
            visible: true,
            ..s[active_index(s)]
        }),
        forall|j: int|
            0 <= j < s.len() - 1 ==> #[trigger] monocle_windows(s, size)[j].offset == (Point {
                x: -1i32,
                y: -1i32,
            }),
        forall|j: int|
            0 <= j < s.len() - 1 ==> #[trigger] monocle_windows(s, size)[j].pending_size == (Size {
                w: 0,
                h: 0,
            }),
        forall|j: int| 0 <= j < s.len() - 1 ==> !(#[trigger] monocle_windows(s, size)[j].activated),
        forall|j: int| 0 <= j < s.len() - 1 ==> !(#[trigger] monocle_windows(s, size)[j].visible),
{
    lemma_active_index(s);
}

/// The layout-strategy slot: a closed set of strategies dispatched by tag.
#[derive(Clone, Copy, PartialEq, Eq, Structural, Debug)]
pub enum Layout {
    Monocle(MonocleLayout),
}

/// The monocle strategy: one window fills the output, all others are
/// parked off-screen.
#[derive(Clone, Copy, PartialEq, Eq, Structural, Debug)]
pub struct MonocleLayout {}

impl MonocleLayout {
    /// One layout pass over the registry.
    ///
    /// Decides the active window (the activated one, else the topmost),
    /// features it at the full output size and parks every other window,
    /// and returns the configure offer owed to the active window — `None`
    /// only when the registry is empty.
    pub fn layout(&self, output: &Mode, space: &mut Registry) -> (r: Option<Configure>)
        requires
            old(space).wf(),
        ensures
            final(space)@ == monocle_windows(old(space)@, output.size),
            final(space).wf(),
            old(space)@.len() == 0 ==> r is None,
            old(space)@.len() > 0 ==> r == Some(monocle_configure(old(space)@, output.size)),
    {
        let ghost s = space@;
        let n = space.windows.len();
        if n == 0 {
            return None;
        }
        // Find the active window: first activated, else topmost.
        let mut a: usize = n - 1;
        let mut found = false;
        let mut i: usize = 0;
        while i < n
            invariant
                n == s.len(),
                space@ == s,
                0 <= i <= n,
                !found ==> a == n - 1 && forall|k: int| 0 <= k < i ==> !s[k].activated,
                found ==> 0 <= a < n && s[a as int].activated,
            decreases n - i,
        {
            if !found && space.windows[i].activated {
                a = i;
                found = true;
            }
            i = i + 1;
        }
        proof {
            if found {
                assert(has_active(s));
                lemma_active_index(s);
                assert(s[active_index(s)].activated);
                assert(a as int == active_index(s));  // both activated, at most one
            } else {
                assert(!has_active(s));
                assert(a as int == active_index(s));
            }
        }
        let active = space.windows[a];
        let mut arranged: Vec<Window> = Vec::new();
        let mut j: usize = 0;
        while j < n
            invariant
                n == s.len(),
                space@ == s,
                0 <= j <= n,
                a < n,
                arranged@.len() == if j <= a {
                    j as int
                } else {
                    j - 1
                },
                forall|k: int|
                    0 <= k < arranged@.len() ==> #[trigger] arranged@[k] == (if k < a {
                        s[k].parked_spec()
                    } else {
                        s[k + 1].parked_spec()
                    }),
            decreases n - j,
        {
            if j != a {
                arranged.push(space.windows[j].parked());
            }
            j = j + 1;
        }
        arranged.push(active.featured(output.size));
        proof {
            assert(arranged@ =~= monocle_arrange(s, a as int, output.size));
            lemma_arrange_wf(s, a as int, output.size);
        }
        space.windows = arranged;
        Some(
            Configure {
                id: active.id,
                size: output.size,
                decoration: active.pending_decoration,
                activated: true,
            },
        )
    }

    /// The monocle successor choice after the focused window is gone: the
    /// topmost remaining window (if any) is marked activated and returned;
    /// every other activation flag is cleared.
    pub fn lost_focus(&self, space: &mut Registry) -> (r: Option<u64>)
        requires
            old(space).wf(),
        ensures
            final(space)@ == (if old(space)@.len() == 0 {
                old(space)@
            } else {
                lost_focus_windows(old(space)@)
            }),
            final(space).wf(),
            old(space)@.len() == 0 ==> r is None,
            old(space)@.len() > 0 ==> r == Some(old(space)@.last().id),
    {
        let ghost s = space@;
        let n = space.windows.len();
        if n == 0 {
            return None;
        }
        let mut updated: Vec<Window> = Vec::new();
        let mut j: usize = 0;
        while j < n
            invariant
                n == s.len(),
                space@ == s,
                0 <= j <= n,
                updated@.len() == j,
                forall|k: int|
                    0 <= k < j ==> #[trigger] updated@[k] == (Window {
                        activated: k == n - 1,
                        ..s[k]
                    }),
            decreases n - j,
        {
            let mut w = space.windows[j];
            w.activated = j == n - 1;
            updated.push(w);
            j = j + 1;
        }
        let top = space.windows[n - 1];
        space.windows = updated;
        proof {
            assert(space@ =~= lost_focus_windows(s));
        }
        Some(top.id)
    }
}

/// Owns the output and the active layout strategy, and forwards layout and
/// lost-focus requests to it.
pub struct WindowManager {
    pub output: Mode,
    pub active_layout: Layout,
}

impl WindowManager {
    /// A manager for the given output, with the monocle strategy active.
    pub fn new(output: Mode) -> (r: WindowManager)
        ensures
            r.output == output,
            r.active_layout == Layout::Monocle(MonocleLayout {  }),
    {
        WindowManager { output, active_layout: Layout::Monocle(MonocleLayout {  }) }
    }

    /// Run one pass of the active strategy over the registry.
    pub fn layout(&self, space: &mut Registry) -> (r: Option<Configure>)
        requires
            old(space).wf(),
        ensures
            final(space)@ == monocle_windows(old(space)@, self.output.size),
            final(space).wf(),
            old(space)@.len() == 0 ==> r is None,
            old(space)@.len() > 0 ==> r == Some(monocle_configure(old(space)@, self.output.size)),
    {
        match &self.active_layout {
            Layout::Monocle(m) => m.layout(&self.output, space),
        }
    }

    /// Ask the active strategy for a focus successor after the focused
    /// window was removed from the registry.
    pub fn lost_focus(&self, space: &mut Registry) -> (r: Option<u64>)
        requires
            old(space).wf(),
        ensures
            final(space)@ == (if old(space)@.len() == 0 {
                old(space)@
            } else {
                lost_focus_windows(old(space)@)
            }),
            final(space).wf(),
            old(space)@.len() == 0 ==> r is None,
            old(space)@.len() > 0 ==> r == Some(old(space)@.last().id),
    {
        match &self.active_layout {
            Layout::Monocle(m) => m.lost_focus(space),
        }
    }
}

} // verus!
