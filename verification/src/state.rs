use vstd::prelude::*;

use crate::events::Action;
use crate::events::Configure;
use crate::events::Event;
use crate::layout::WindowManager;
use crate::layout::active_index;
use crate::layout::arrange_source;
use crate::layout::lemma_arrange_source;
use crate::layout::has_active;
use crate::layout::lemma_active_index;
use crate::layout::lemma_arrange_id_present;
use crate::layout::lemma_arrange_wf;
use crate::layout::lost_focus_windows;
use crate::layout::monocle_configure;
use crate::layout::monocle_windows;
use crate::registry::Registry;
use crate::registry::at_most_one_activated;
use crate::registry::id_index;
use crate::registry::id_present;
use crate::registry::lemma_id_index;
use crate::registry::unique_ids;
use crate::window::DecorationMode;
use crate::window::Mode;
use crate::window::Size;
use crate::window::Window;

verus! {

/// The abstract value of the core: the mapped windows in stacking order,
/// the keyboard-focus target, and the fixed output mode.
pub struct CoreView {
    pub windows: Seq<Window>,
    pub focus: Option<u64>,
    pub output: Mode,
}

/// Core invariant: the registry invariant holds, and a focused id always
/// names a mapped window.
pub open spec fn view_wf(v: CoreView) -> bool {
    &&& unique_ids(v.windows)
    &&& at_most_one_activated(v.windows)
    &&& match v.focus {
        Some(id) => id_present(v.windows, id),
        None => true,
    }
}

/// The decoration policy: whatever mode the client asks for, the shell
/// draws the chrome itself.
pub open spec fn decoration_policy_spec(requested: DecorationMode) -> DecorationMode {
    DecorationMode::ServerSide
}

/// The registry contents right after a new window is mapped, before the
/// layout pass: every previous holder of the activation flag cleared, the
/// new window on top of the stack, activated.
pub open spec fn mapped_windows(s: Seq<Window>, id: u64) -> Seq<Window> {
    s.map_values(|w: Window| w.deactivated_spec()).push(Window::fresh_spec(id))
}

/// State transition for a new-toplevel notification.  An id already mapped
/// is a protocol inconsistency and leaves the core unchanged.
pub open spec fn new_toplevel_trans(v: CoreView, id: u64) -> CoreView {
    if id_present(v.windows, id) {
        v
    } else {
        CoreView {
            windows: monocle_windows(mapped_windows(v.windows, id), v.output.size),
            focus: Some(id),
            output: v.output,
        }
    }
}

/// Actions emitted for a new-toplevel notification: focus moves to the new
/// window, then the layout pass's configure goes out.
pub open spec fn new_toplevel_actions(v: CoreView, id: u64) -> Seq<Action> {
    if id_present(v.windows, id) {
        Seq::<Action>::empty()
    } else {
        seq![
            Action::SetKeyboardFocus(Some(id)),
            Action::SendConfigure(monocle_configure(mapped_windows(v.windows, id), v.output.size)),
        ]
    }
}

/// State transition for a toplevel-destroyed notification: the window
/// leaves the registry; if it held focus the topmost remaining window (if
/// any) becomes the focus successor; a layout pass follows.  An unknown id
/// leaves the core unchanged.
pub open spec fn destroy_trans(v: CoreView, id: u64) -> CoreView {
    if !id_present(v.windows, id) {
        v
    } else {
        let s1 = v.windows.remove(id_index(v.windows, id));
        if v.focus == Some(id) {
            if s1.len() == 0 {
                CoreView { windows: s1, focus: None, output: v.output }
            } else {
                CoreView {
                    windows: monocle_windows(lost_focus_windows(s1), v.output.size),
                    focus: Some(s1.last().id),
                    output: v.output,
                }
            }
        } else {
            CoreView {
                windows: monocle_windows(s1, v.output.size),
                focus: v.focus,
                output: v.output,
            }
        }
    }
}

/// Actions emitted for a toplevel-destroyed notification.
pub open spec fn destroy_actions(v: CoreView, id: u64) -> Seq<Action> {
    if !id_present(v.windows, id) {
        Seq::<Action>::empty()
    } else {
        let s1 = v.windows.remove(id_index(v.windows, id));
        if v.focus == Some(id) {
            if s1.len() == 0 {
                seq![Action::SetKeyboardFocus(None)]
            } else {
                seq![
                    Action::SetKeyboardFocus(Some(s1.last().id)),
                    Action::SendConfigure(
                        monocle_configure(lost_focus_windows(s1), v.output.size),
                    ),
                ]
            }
        } else {
            if s1.len() == 0 {
                Seq::<Action>::empty()
            } else {
                seq![Action::SendConfigure(monocle_configure(s1, v.output.size))]
            }
        }
    }
}

/// The pending state the coordinator writes when it sends a window its
/// first configure: full output size, server-side decoration by policy,
/// and the one-shot flag set.
pub open spec fn first_configure_window(w: Window, size: Size) -> Window {
    Window {
        pending_size: size,
        pending_decoration: DecorationMode::ServerSide,
        initial_configure_sent: true,
        ..w
    }
}

/// State transition for a commit notification: only a commit on a tracked
/// top-level that has not yet received its initial configure changes the
/// core, and it does so exactly once per window.
pub open spec fn commit_trans(v: CoreView, surface: u64) -> CoreView {
    if id_present(v.windows, surface) && !v.windows[id_index(
        v.windows,
        surface,
    )].initial_configure_sent {
        let i = id_index(v.windows, surface);
        CoreView {
            windows: v.windows.update(i, first_configure_window(v.windows[i], v.output.size)),
            focus: v.focus,
            output: v.output,
        }
    } else {
        v
    }
}

/// Actions emitted for a commit notification: an on-commit refresh for the
/// root ancestor's window when the commit is not a sync-subsurface one,
/// then the one-shot initial configure when it is owed.
pub open spec fn commit_actions(v: CoreView, surface: u64, sync_subsurface: bool, root: u64) -> Seq<
    Action,
> {
    let refresh: Seq<Action> = if !sync_subsurface && id_present(v.windows, root) {
        seq![Action::RefreshWindow(root)]
    } else {
        Seq::<Action>::empty()
    };
    let first: Seq<Action> = if id_present(v.windows, surface) && !v.windows[id_index(
        v.windows,
        surface,
    )].initial_configure_sent {
        seq![
            Action::SendConfigure(
                Configure {
                    id: surface,
                    size: v.output.size,
                    decoration: DecorationMode::ServerSide,
                    activated: v.windows[id_index(v.windows, surface)].activated,
                },
            ),
        ]
    } else {
        Seq::<Action>::empty()
    };
    refresh + first
}

/// State transition for a new decoration object: the pending decoration
/// mode is set to server-side by policy.
pub open spec fn new_decoration_trans(v: CoreView, id: u64) -> CoreView {
    if id_present(v.windows, id) {
        let i = id_index(v.windows, id);
        CoreView {
            windows: v.windows.update(
                i,
                Window { pending_decoration: DecorationMode::ServerSide, ..v.windows[i] },
            ),
            focus: v.focus,
            output: v.output,
        }
    } else {
        v
    }
}

/// Actions emitted for a new decoration object.
pub open spec fn new_decoration_actions(v: CoreView, id: u64) -> Seq<Action> {
    if id_present(v.windows, id) {
        let i = id_index(v.windows, id);
        seq![
            Action::SendConfigure(
                Configure {
                    id,
                    size: v.windows[i].pending_size,
                    decoration: DecorationMode::ServerSide,
                    activated: v.windows[i].activated,
                },
            ),
        ]
    } else {
        Seq::<Action>::empty()
    }
}

/// State transition for a decoration-mode request: whatever mode the
/// client asked for, the pending mode becomes server-side and the full
/// output size is re-applied as the pending size.
pub open spec fn request_mode_trans(v: CoreView, id: u64, requested: DecorationMode) -> CoreView {
    if id_present(v.windows, id) {
        let i = id_index(v.windows, id);
        CoreView {
            windows: v.windows.update(
                i,
                Window {
                    pending_decoration: decoration_policy_spec(requested),
                    pending_size: v.output.size,
                    ..v.windows[i]
                },
            ),
            focus: v.focus,
            output: v.output,
        }
    } else {
        v
    }
}

/// Actions emitted for a decoration-mode request.
pub open spec fn request_mode_actions(v: CoreView, id: u64, requested: DecorationMode) -> Seq<
    Action,
> {
    if id_present(v.windows, id) {
        let i = id_index(v.windows, id);
        seq![
            Action::SendConfigure(
                Configure {
                    id,
                    size: v.output.size,
                    decoration: decoration_policy_spec(requested),
                    activated: v.windows[i].activated,
                },
            ),
        ]
    } else {
        Seq::<Action>::empty()
    }
}

/// The transition relation of the whole core, one notification at a time.
pub open spec fn step(v: CoreView, ev: Event) -> CoreView {
    match ev {
        Event::NewToplevel { id } => new_toplevel_trans(v, id),
        Event::ToplevelDestroyed { id } => destroy_trans(v, id),
        Event::Commit { surface, sync_subsurface, root } => commit_trans(v, surface),
        Event::NewDecoration { id } => new_decoration_trans(v, id),
        Event::RequestMode { id, requested } => request_mode_trans(v, id, requested),
        Event::UnsetMode { id } => v,
    }
}

/// The actions the core emits for one notification.
pub open spec fn step_actions(v: CoreView, ev: Event) -> Seq<Action> {
    match ev {
        Event::NewToplevel { id } => new_toplevel_actions(v, id),
        Event::ToplevelDestroyed { id } => destroy_actions(v, id),
        Event::Commit { surface, sync_subsurface, root } => commit_actions(
            v,
            surface,
            sync_subsurface,
            root,
        ),
        Event::NewDecoration { id } => new_decoration_actions(v, id),
        Event::RequestMode { id, requested } => request_mode_actions(v, id, requested),
        Event::UnsetMode { id } => Seq::<Action>::empty(),
    }
}

/// The window-management core: registry, layout slot and focus target.
pub struct State {
    pub space: Registry,
    pub wm: WindowManager,
    pub focus: Option<u64>,
}

impl View for State {
    type V = CoreView;

    open spec fn view(&self) -> CoreView {
        CoreView { windows: self.space@, focus: self.focus, output: self.wm.output }
    }
}

impl State {
    /// Core invariant (see [`view_wf`]).
    pub open spec fn wf(&self) -> bool {
        view_wf(self@)
    }

    /// A fresh core for the given output: no windows, no focus, monocle
    /// layout active.
    pub fn new(output: Mode) -> (r: State)
        ensures
            r@.windows == Seq::<Window>::empty(),
            r@.focus is None,
            r@.output == output,
            r.wf(),
    {
        State { space: Registry::new(), wm: WindowManager::new(output), focus: None }
    }

    /// Handle a new top-level surface: the new window takes focus and the
    /// top of the stack, and a layout pass runs over the whole registry.
    ///
    /// The caller guarantees the handle is fresh; surface handles are never
    /// reused while a window is mapped.
    pub fn new_toplevel(&mut self, id: u64) -> (acts: Vec<Action>)
        requires
            old(self).wf(),
            !id_present(old(self)@.windows, id),
        ensures
            final(self)@ == new_toplevel_trans(old(self)@, id),
            acts@ == new_toplevel_actions(old(self)@, id),
            final(self).wf(),
    {
        let ghost v = self@;
        let n = self.space.windows.len();
        let mut remapped: Vec<Window> = Vec::new();
        let mut j: usize = 0;
        while j < n
            invariant
                n == v.windows.len(),
                self.space@ == v.windows,
                0 <= j <= n,
                remapped@.len() == j,
                forall|k: int|
                    0 <= k < j ==> #[trigger] remapped@[k] == v.windows[k].deactivated_spec(),
            decreases n - j,
        {
            remapped.push(self.space.windows[j].deactivated());
            j = j + 1;
        }
        remapped.push(Window::fresh(id));
        proof {
            assert(remapped@ =~= mapped_windows(v.windows, id));
            lemma_mapped_wf(v.windows, id);
        }
        self.space.windows = remapped;
        self.focus = Some(id);
        let cfg = self.wm.layout(&mut self.space);
        let mut acts: Vec<Action> = Vec::new();
        acts.push(Action::SetKeyboardFocus(Some(id)));
        match cfg {
            Some(c) => acts.push(Action::SendConfigure(c)),
            None => (),
        }
        proof {
            assert(acts@ =~= new_toplevel_actions(v, id));
            let m = mapped_windows(v.windows, id);
            assert(m.last().activated);
            assert(has_active(m));
            lemma_active_index(m);
            let a = active_index(m);
            assert(m[a].activated);
            assert(a == m.len() - 1);
            assert(self@.windows[m.len() - 1].id == id);
            assert(id_present(self@.windows, id));
        }
        acts
    }

    /// Handle the destruction of a top-level surface.  An unknown id is a
    /// silent no-op; otherwise the window is removed, a focus successor is
    /// chosen when the destroyed window held focus (the topmost remaining,
    /// or none), and a layout pass runs over what remains.
    pub fn toplevel_destroyed(&mut self, id: u64) -> (acts: Vec<Action>)
        requires
            old(self).wf(),
        ensures
            final(self)@ == destroy_trans(old(self)@, id),
            acts@ == destroy_actions(old(self)@, id),
            final(self).wf(),
    {
        let ghost v = self@;
        let mut acts: Vec<Action> = Vec::new();
        let found = self.space.index_of_id(id);
        match found {
            None => {
                proof {
                    assert(acts@ =~= destroy_actions(v, id));
                }
                acts
            },
            Some(i) => {
                proof {
                    lemma_id_index(v.windows, id);
                    assert(i as int == id_index(v.windows, id));
                }
                self.space.windows.remove(i);
                let ghost s1 = v.windows.remove(id_index(v.windows, id));
                proof {
                    lemma_remove_wf(v.windows, i as int);
                }
                let was_focused = match self.focus {
                    Some(f) => f == id,
                    None => false,
                };
                proof {
                    assert(was_focused == (v.focus == Some(id)));
                }
                if was_focused {
                    let successor = self.wm.lost_focus(&mut self.space);
                    self.focus = successor;
                    acts.push(Action::SetKeyboardFocus(successor));
                } else {
                    proof {
                        if v.focus is Some {
                            let f = v.focus->Some_0;
                            lemma_id_index(v.windows, f);
                            lemma_remove_keeps_other_ids(v.windows, i as int, f);
                        }
                    }
                }
                let cfg = self.wm.layout(&mut self.space);
                match cfg {
                    Some(c) => acts.push(Action::SendConfigure(c)),
                    None => (),
                }
                proof {
                    assert(acts@ =~= destroy_actions(v, id));
                    if v.focus == Some(id) {
                        if s1.len() > 0 {
                            let l = lost_focus_windows(s1);
                            assert(l.last() == (Window {
                                activated: true,
                                ..s1[s1.len() - 1]
                            }));
                            assert(l.last().activated);
                            assert(has_active(l));
                            lemma_active_index(l);
                            let a = active_index(l);
                            assert(l[a].activated);
                            if a != l.len() - 1 {
                                assert(l[a] == (Window { activated: false, ..s1[a] }));
                            }
                            assert(a == l.len() - 1);
                            assert(self@.windows[l.len() - 1].id == s1.last().id);
                            assert(id_present(self@.windows, s1.last().id));
                        }
                    } else {
                        if v.focus is Some {
                            let f = v.focus->Some_0;
                            assert(id_present(s1, f));
                            lemma_active_index(s1);
                            lemma_arrange_id_present(s1, active_index(s1), v.output.size, f);
                        }
                    }
                }
                acts
            },
        }
    }

    /// Handle a client buffer commit.
    ///
    /// `sync_subsurface` says whether the committing surface is a
    /// subsurface in synchronized composition (those never trigger
    /// configure logic of their own); `root` is the committing surface's
    /// root ancestor.  A commit on a surface the registry does not know is
    /// not an error: nothing happens.  The first commit of a tracked
    /// window — and only the first — makes the coordinator assign the full
    /// output size and server-side decoration as pending state and send
    /// the one-shot initial configure.
    pub fn commit(&mut self, surface: u64, sync_subsurface: bool, root: u64) -> (acts: Vec<Action>)
        requires
            old(self).wf(),
        ensures
            final(self)@ == commit_trans(old(self)@, surface),
            acts@ == commit_actions(old(self)@, surface, sync_subsurface, root),
            final(self).wf(),
    {
        let ghost v = self@;
        let mut acts: Vec<Action> = Vec::new();
        if !sync_subsurface {
            match self.space.index_of_id(root) {
                Some(_) => acts.push(Action::RefreshWindow(root)),
                None => (),
            }
        }
        match self.space.index_of_id(surface) {
            None => {
                proof {
                    assert(acts@ =~= commit_actions(v, surface, sync_subsurface, root));
                }
                acts
            },
            Some(i) => {
                proof {
                    assert(i as int == id_index(v.windows, surface));
                }
                let w = self.space.windows[i];
                if !w.initial_configure_sent {
                    let updated = Window {
                        pending_size: self.wm.output.size,
                        pending_decoration: DecorationMode::ServerSide,
                        initial_configure_sent: true,
                        ..w
                    };
                    self.space.windows[i] = updated;
                    acts.push(
                        Action::SendConfigure(
                            Configure {
                                id: surface,
                                size: self.wm.output.size,
                                decoration: DecorationMode::ServerSide,
                                activated: w.activated,
                            },
                        ),
                    );
                    proof {
                        lemma_update_wf(v.windows, i as int, updated);
                    }
                }
                proof {
                    assert(acts@ =~= commit_actions(v, surface, sync_subsurface, root));
                }
                acts
            },
        }
    }

    /// Handle the creation of a decoration object for a tracked window:
    /// server-side decoration is advertised at once, whatever the client
    /// may prefer.  An unknown id is a silent no-op.
    pub fn new_decoration(&mut self, id: u64) -> (acts: Vec<Action>)
        requires
            old(self).wf(),
        ensures
            final(self)@ == new_decoration_trans(old(self)@, id),
            acts@ == new_decoration_actions(old(self)@, id),
            final(self).wf(),
    {
        let ghost v = self@;
        let mut acts: Vec<Action> = Vec::new();
        match self.space.index_of_id(id) {
            None => (),
            Some(i) => {
                let w = self.space.windows[i];
                let updated = Window { pending_decoration: DecorationMode::ServerSide, ..w };
                self.space.windows[i] = updated;
                acts.push(
                    Action::SendConfigure(
                        Configure {
                            id,
                            size: w.pending_size,
                            decoration: DecorationMode::ServerSide,
                            activated: w.activated,
                        },
                    ),
                );
                proof {
                    lemma_update_wf(v.windows, i as int, updated);
                }
            },
        }
        proof {
            assert(acts@ =~= new_decoration_actions(v, id));
        }
        acts
    }

    /// Handle a decoration-mode request: the requested mode is acknowledged
    /// but the policy answer is always server-side, and the full output
    /// size is re-applied as the pending size.  An unknown id is a silent
    /// no-op.
    pub fn request_mode(&mut self, id: u64, requested: DecorationMode) -> (acts: Vec<Action>)
        requires
            old(self).wf(),
        ensures
            final(self)@ == request_mode_trans(old(self)@, id, requested),
            acts@ == request_mode_actions(old(self)@, id, requested),
            final(self).wf(),
            forall|k: int|
                0 <= k < final(self)@.windows.len() ==> (#[trigger] final(self)@.windows[k]).pending_decoration
                    == old(self)@.windows[k].pending_decoration || final(self)@.windows[k].pending_decoration
                    == DecorationMode::ServerSide,
    {
        let ghost v = self@;
        let mut acts: Vec<Action> = Vec::new();
        let mode = decoration_policy(requested);
        match self.space.index_of_id(id) {
            None => (),
            Some(i) => {
                let w = self.space.windows[i];
                let updated = Window {
                    pending_decoration: mode,
                    pending_size: self.wm.output.size,
                    ..w
                };
                self.space.windows[i] = updated;
                acts.push(
                    Action::SendConfigure(
                        Configure {
                            id,
                            size: self.wm.output.size,
                            decoration: mode,
                            activated: w.activated,
                        },
                    ),
                );
                proof {
                    lemma_update_wf(v.windows, i as int, updated);
                }
            },
        }
        proof {
            assert(acts@ =~= request_mode_actions(v, id, requested));
        }
        acts
    }

    /// Handle a decoration-unset request: acknowledged as a no-op; no
    /// geometry or decoration change and no outbound event.
    pub fn unset_mode(&mut self, id: u64) -> (acts: Vec<Action>)
        requires
            old(self).wf(),
        ensures
            final(self)@ == old(self)@,
            acts@ == Seq::<Action>::empty(),
            final(self).wf(),
    {
        let acts: Vec<Action> = Vec::new();
        proof {
            assert(acts@ =~= Seq::<Action>::empty());
        }
        acts
    }

    /// Dispatch one inbound notification to its handler.
    ///
    /// The caller guarantees that a new-toplevel notification carries a
    /// fresh handle, as the protocol does.
    pub fn handle(&mut self, ev: Event) -> (acts: Vec<Action>)
        requires
            old(self).wf(),
            match ev {
                Event::NewToplevel { id } => !id_present(old(self)@.windows, id),
                _ => true,
            },
        ensures
            final(self)@ == step(old(self)@, ev),
            acts@ == step_actions(old(self)@, ev),
            final(self).wf(),
    {
        match ev {
            Event::NewToplevel { id } => self.new_toplevel(id),
            Event::ToplevelDestroyed { id } => self.toplevel_destroyed(id),
            Event::Commit { surface, sync_subsurface, root } => self.commit(
                surface,
                sync_subsurface,
                root,
            ),
            Event::NewDecoration { id } => self.new_decoration(id),
            Event::RequestMode { id, requested } => self.request_mode(id, requested),
            Event::UnsetMode { id } => self.unset_mode(id),
        }
    }

    /// The legacy module-level decoration manager's answer to a mode
    /// request: the same server-side-only policy as the per-surface path.
    pub fn kde_request_mode(&self, requested: DecorationMode) -> (r: DecorationMode)
        ensures
            r == decoration_policy_spec(requested),
            r == DecorationMode::ServerSide,
    {
        decoration_policy(requested)
    }

    /// The visible stack the rendering backend draws, bottom to top: the
    /// surface id and screen offset of every window still in the visible
    /// stack.
    pub fn visible_stack(&self) -> (r: Vec<(u64, i32, i32)>)
        ensures
            r@ == self@.windows.filter(|w: Window| w.visible).map_values(
                |w: Window| (w.id, w.offset.x, w.offset.y),
            ),
    {
        let n = self.space.windows.len();
        let mut r: Vec<(u64, i32, i32)> = Vec::new();
        let mut j: usize = 0;
        while j < n
            invariant
                n == self@.windows.len(),
                0 <= j <= n,
                r@ == self@.windows.take(j as int).filter(|w: Window| w.visible).map_values(
                    |w: Window| (w.id, w.offset.x, w.offset.y),
                ),
            decreases n - j,
        {
            let w = self.space.windows[j];
            proof {
                assert(self@.windows.take(j + 1).drop_last() =~= self@.windows.take(j as int));
                assert(self@.windows.take(j + 1).last() == self@.windows[j as int]);
                reveal_with_fuel(Seq::filter, 2);
            }
            if w.visible {
                r.push((w.id, w.offset.x, w.offset.y));
            }
            j = j + 1;
        }
        proof {
            assert(self@.windows.take(n as int) =~= self@.windows);
        }
        r
    }
}

/// The decoration policy as executable code: always server-side.
pub fn decoration_policy(requested: DecorationMode) -> (r: DecorationMode)
    ensures
        r == decoration_policy_spec(requested),
        r == DecorationMode::ServerSide,
{
    DecorationMode::ServerSide
}

/// Mapping a fresh window keeps ids unique and leaves the new window the
/// only holder of the activation flag, on top of the stack.
pub proof fn lemma_mapped_wf(s: Seq<Window>, id: u64)
    requires
        unique_ids(s),
        !id_present(s, id),
    ensures
        unique_ids(mapped_windows(s, id)),
        at_most_one_activated(mapped_windows(s, id)),
        mapped_windows(s, id).last() == Window::fresh_spec(id),
{
    let m = mapped_windows(s, id);
    assert forall|i: int, k: int| 0 <= i < k < m.len() implies m[i].id != m[k].id by {
        assert(m[i] == s[i].deactivated_spec());
        if k < m.len() - 1 {
            assert(m[k] == s[k].deactivated_spec());
        } else {
            assert(m[k] == Window::fresh_spec(id));
            if s[i].id == id {
                assert(id_present(s, id));
            }
        }
    }
    assert forall|i: int, k: int|
        0 <= i < m.len() && 0 <= k < m.len() && m[i].activated && m[k].activated implies i == k by {
        if i < m.len() - 1 {
            assert(m[i] == s[i].deactivated_spec());
        }
        if k < m.len() - 1 {
            assert(m[k] == s[k].deactivated_spec());
        }
    }
}

/// The lost-focus pass keeps ids unique and leaves the topmost window the
/// only holder of the activation flag.
pub proof fn lemma_lost_focus_wf(s: Seq<Window>)
    requires
        unique_ids(s),
    ensures
        unique_ids(lost_focus_windows(s)),
        at_most_one_activated(lost_focus_windows(s)),
        s.len() > 0 ==> lost_focus_windows(s).last() == (Window {
            activated: true,
            ..s[s.len() - 1]
        }),
{
    let l = lost_focus_windows(s);
    assert forall|i: int, k: int| 0 <= i < k < l.len() implies l[i].id != l[k].id by {
        assert(l[i] == (Window { activated: i == s.len() - 1, ..s[i] }));
        assert(l[k] == (Window { activated: k == s.len() - 1, ..s[k] }));
    }
    assert forall|i: int, k: int|
        0 <= i < l.len() && 0 <= k < l.len() && l[i].activated && l[k].activated implies i == k by {
        assert(l[i] == (Window { activated: i == s.len() - 1, ..s[i] }));
        assert(l[k] == (Window { activated: k == s.len() - 1, ..s[k] }));
    }
}

/// The single-active invariant, inductively: every state satisfying the
/// core invariant steps to a state satisfying it again, whatever
/// notification arrives — so in every state reachable from [`State::new`]
/// through the defined operations, at most one window holds the
/// activation flag and the focused id names a mapped window.
pub proof fn lemma_step_preserves_wf(v: CoreView, ev: Event)
    requires
        view_wf(v),
    ensures
        view_wf(step(v, ev)),
{
    match ev {
        Event::NewToplevel { id } => {
            if !id_present(v.windows, id) {
                lemma_mapped_wf(v.windows, id);
                let m = mapped_windows(v.windows, id);
                lemma_active_index(m);
                let a = active_index(m);
                assert(m.last().activated);
                assert(has_active(m));
                assert(m[a].activated);
                assert(a == m.len() - 1);
                lemma_arrange_wf(m, a, v.output.size);
                assert(monocle_windows(m, v.output.size)[m.len() - 1].id == id);
                assert(id_present(monocle_windows(m, v.output.size), id));
            }
        },
        Event::ToplevelDestroyed { id } => {
            if id_present(v.windows, id) {
                lemma_id_index(v.windows, id);
                let i0 = id_index(v.windows, id);
                let s1 = v.windows.remove(i0);
                v.windows.remove_ensures(i0);
                lemma_remove_wf(v.windows, i0);
                if v.focus == Some(id) {
                    if s1.len() > 0 {
                        lemma_lost_focus_wf(s1);
                        let l = lost_focus_windows(s1);
                        lemma_active_index(l);
                        let a = active_index(l);
                        assert(l.last().activated);
                        assert(has_active(l));
                        assert(l[a].activated);
                        assert(a == l.len() - 1);
                        lemma_arrange_wf(l, a, v.output.size);
                        assert(monocle_windows(l, v.output.size)[l.len() - 1].id == s1.last().id);
                        assert(id_present(monocle_windows(l, v.output.size), s1.last().id));
                    }
                } else {
                    if v.focus is Some {
                        let f = v.focus->Some_0;
                        lemma_id_index(v.windows, f);
                        if s1.len() == 0 {
                            assert(id_index(v.windows, f) == i0);
                            assert(false);
                        }
                        lemma_remove_keeps_other_ids(v.windows, i0, f);
                        lemma_active_index(s1);
                        lemma_arrange_wf(s1, active_index(s1), v.output.size);
                        lemma_arrange_id_present(s1, active_index(s1), v.output.size, f);
                    } else {
                        if s1.len() > 0 {
                            lemma_active_index(s1);
                            lemma_arrange_wf(s1, active_index(s1), v.output.size);
                        }
                    }
                }
            }
        },
        Event::Commit { surface, sync_subsurface, root } => {
            if id_present(v.windows, surface) && !v.windows[id_index(
                v.windows,
                surface,
            )].initial_configure_sent {
                lemma_id_index(v.windows, surface);
                let i = id_index(v.windows, surface);
                lemma_update_wf(v.windows, i, first_configure_window(v.windows[i], v.output.size));
            }
        },
        Event::NewDecoration { id } => {
            if id_present(v.windows, id) {
                lemma_id_index(v.windows, id);
                let i = id_index(v.windows, id);
                lemma_update_wf(
                    v.windows,
                    i,
                    Window { pending_decoration: DecorationMode::ServerSide, ..v.windows[i] },
                );
            }
        },
        Event::RequestMode { id, requested } => {
            if id_present(v.windows, id) {
                lemma_id_index(v.windows, id);
                let i = id_index(v.windows, id);
                lemma_update_wf(
                    v.windows,
                    i,
                    Window {
                        pending_decoration: decoration_policy_spec(requested),
                        pending_size: v.output.size,
                        ..v.windows[i]
                    },
                );
            }
        },
        Event::UnsetMode { id } => {
        },
    }
}

/// The focus-successor law: destroying the window that holds focus leaves
/// focus on the most recently mapped (topmost) remaining window, and
/// destroying the sole remaining window leaves focus on none.
pub proof fn lemma_focus_successor_on_destroy(v: CoreView, id: u64)
    requires
        view_wf(v),
        v.focus == Some(id),
        id_present(v.windows, id),
    ensures
        v.windows.len() == 1 ==> destroy_trans(v, id).focus is None,
        v.windows.len() > 1 ==> destroy_trans(v, id).focus == Some(
            v.windows.remove(id_index(v.windows, id)).last().id,
        ),
{
    lemma_id_index(v.windows, id);
}

/// The first-configure flag never returns to false: across every defined
/// operation, a window mapped before and after the step (matched by its
/// surface id) keeps `initial_configure_sent` once it is set.  Together
/// with [`commit_trans`] — which touches a window only while the flag is
/// still false and sends exactly one configure as it sets it — the flag
/// transitions false to true exactly once over a window's lifetime,
/// however many commits arrive.
pub proof fn lemma_first_configure_monotonic(v: CoreView, ev: Event)
    requires
        view_wf(v),
    ensures
        forall|i: int, j: int|
            #![trigger v.windows[i], step(v, ev).windows[j]]
            0 <= i < v.windows.len() && 0 <= j < step(v, ev).windows.len() && v.windows[i].id
                == step(v, ev).windows[j].id && v.windows[i].initial_configure_sent ==> step(
                v,
                ev,
            ).windows[j].initial_configure_sent,
{
    let t = step(v, ev).windows;
    assert forall|i: int, j: int|
        0 <= i < v.windows.len() && 0 <= j < t.len() && v.windows[i].id == t[j].id
            && v.windows[i].initial_configure_sent implies t[j].initial_configure_sent by {
        match ev {
            Event::NewToplevel { id } => {
                if !id_present(v.windows, id) {
                    let m = mapped_windows(v.windows, id);
                    lemma_active_index(m);
                    let a = active_index(m);
                    lemma_arrange_source(m, a, v.output.size, j);
                    let k = arrange_source(m.len() as int, a, j);
                    if k < m.len() - 1 {
                        assert(m[k] == v.windows[k].deactivated_spec());
                        assert(v.windows[i].id == v.windows[k].id);
                        assert(i == k) by {
                            if i < k {
                                assert(v.windows[i].id != v.windows[k].id);
                            } else if k < i {
                                assert(v.windows[k].id != v.windows[i].id);
                            }
                        }
                    } else {
                        assert(m[k] == Window::fresh_spec(id));
                        assert(v.windows[i].id == id);
                        assert(id_present(v.windows, id));
                    }
                }
            },
            Event::ToplevelDestroyed { id } => {
                if id_present(v.windows, id) {
                    lemma_id_index(v.windows, id);
                    let i0 = id_index(v.windows, id);
                    let s1 = v.windows.remove(i0);
                    v.windows.remove_ensures(i0);
                    if v.focus == Some(id) && s1.len() > 0 {
                        let l = lost_focus_windows(s1);
                        lemma_active_index(l);
                        let a = active_index(l);
                        lemma_arrange_source(l, a, v.output.size, j);
                        let k = arrange_source(l.len() as int, a, j);
                        assert(l[k] == (Window { activated: k == s1.len() - 1, ..s1[k] }));
                        let k0: int = if k < i0 {
                            k
                        } else {
                            k + 1
                        };
                        assert(s1[k] == v.windows[k0]);
                        assert(v.windows[i].id == v.windows[k0].id);
                        assert(i == k0) by {
                            if i < k0 {
                                assert(v.windows[i].id != v.windows[k0].id);
                            } else if k0 < i {
                                assert(v.windows[k0].id != v.windows[i].id);
                            }
                        }
                    } else if v.focus != Some(id) && s1.len() > 0 {
                        lemma_active_index(s1);
                        let a = active_index(s1);
                        lemma_arrange_source(s1, a, v.output.size, j);
                        let k = arrange_source(s1.len() as int, a, j);
                        let k0: int = if k < i0 {
                            k
                        } else {
                            k + 1
                        };
                        assert(s1[k] == v.windows[k0]);
                        assert(v.windows[i].id == v.windows[k0].id);
                        assert(i == k0) by {
                            if i < k0 {
                                assert(v.windows[i].id != v.windows[k0].id);
                            } else if k0 < i {
                                assert(v.windows[k0].id != v.windows[i].id);
                            }
                        }
                    }
                }
            },
            Event::Commit { surface, sync_subsurface, root } => {
                if id_present(v.windows, surface) && !v.windows[id_index(
                    v.windows,
                    surface,
                )].initial_configure_sent {
                    let x = id_index(v.windows, surface);
                    if j != x {
                        assert(t[j] == v.windows[j]);
                    }
                }
            },
            Event::NewDecoration { id } => {
                if id_present(v.windows, id) {
                    let x = id_index(v.windows, id);
                    if j == x {
                        assert(t[j].initial_configure_sent == v.windows[
                            x].initial_configure_sent);
                        assert(v.windows[i].id == v.windows[x].id);
                        assert(i == x) by {
                            if i < x {
                                assert(v.windows[i].id != v.windows[x].id);
                            } else if x < i {
                                assert(v.windows[x].id != v.windows[i].id);
                            }
                        }
                    } else {
                        assert(t[j] == v.windows[j]);
                    }
                }
            },
            Event::RequestMode { id, requested } => {
                if id_present(v.windows, id) {
                    let x = id_index(v.windows, id);
                    if j == x {
                        assert(t[j].initial_configure_sent == v.windows[
                            x].initial_configure_sent);
                        assert(v.windows[i].id == v.windows[x].id);
                        assert(i == x) by {
                            if i < x {
                                assert(v.windows[i].id != v.windows[x].id);
                            } else if x < i {
                                assert(v.windows[x].id != v.windows[i].id);
                            }
                        }
                    } else {
                        assert(t[j] == v.windows[j]);
                    }
                }
            },
            Event::UnsetMode { id } => {
            },
        }
    }
}

/// The other half of the first-configure law: once a window's initial
/// configure has gone out, any further commit on it leaves the core
/// unchanged and never carries another configure offer — at most the
/// on-commit refresh for the root's window.
pub proof fn lemma_commit_after_first_is_noop(
    v: CoreView,
    surface: u64,
    sync_subsurface: bool,
    root: u64,
)
    requires
        id_present(v.windows, surface),
        v.windows[id_index(v.windows, surface)].initial_configure_sent,
    ensures
        commit_trans(v, surface) == v,
        forall|k: int|
            0 <= k < commit_actions(v, surface, sync_subsurface, root).len() ==> !(
            #[trigger] commit_actions(v, surface, sync_subsurface, root)[k] is SendConfigure),
{
}

/// Removing a window keeps the registry invariant.
pub proof fn lemma_remove_wf(s: Seq<Window>, i: int)
    requires
        0 <= i < s.len(),
        unique_ids(s),
        at_most_one_activated(s),
    ensures
        unique_ids(s.remove(i)),
        at_most_one_activated(s.remove(i)),
{
    s.remove_ensures(i);
    let t = s.remove(i);
    assert forall|a: int, b: int| 0 <= a < b < t.len() implies t[a].id != t[b].id by {
        let a0 = if a < i {
            a
        } else {
            a + 1
        };
        let b0 = if b < i {
            b
        } else {
            b + 1
        };
        assert(t[a] == s[a0] && t[b] == s[b0]);
    }
    assert forall|a: int, b: int|
        0 <= a < t.len() && 0 <= b < t.len() && t[a].activated && t[b].activated implies a == b by {
        let a0 = if a < i {
            a
        } else {
            a + 1
        };
        let b0 = if b < i {
            b
        } else {
            b + 1
        };
        assert(t[a] == s[a0] && t[b] == s[b0]);
    }
}

/// A window other than the removed one keeps its place in the id lookup.
pub proof fn lemma_remove_keeps_other_ids(s: Seq<Window>, i: int, id: u64)
    requires
        0 <= i < s.len(),
        id_present(s, id),
        s[i].id != id,
    ensures
        id_present(s.remove(i), id),
{
    s.remove_ensures(i);
    let j = id_index(s, id);
    lemma_id_index(s, id);
    if j < i {
        assert(s.remove(i)[j] == s[j]);
    } else {
        assert(s.remove(i)[j - 1] == s[j]);
    }
}

/// Updating one window in place keeps the registry invariant, provided the
/// replacement keeps the id and the activation flag.
pub proof fn lemma_update_wf(s: Seq<Window>, i: int, w: Window)
    requires
        0 <= i < s.len(),
        unique_ids(s),
        at_most_one_activated(s),
        w.id == s[i].id,
        w.activated == s[i].activated,
    ensures
        unique_ids(s.update(i, w)),
        at_most_one_activated(s.update(i, w)),
        forall|x: u64| id_present(s.update(i, w), x) == id_present(s, x),
{
    let t = s.update(i, w);
    assert forall|x: u64| id_present(t, x) == id_present(s, x) by {
        if id_present(s, x) {
            let k = choose|j: int| 0 <= j < s.len() && s[j].id == x;
            assert(t[k].id == x);
            assert(id_present(t, x));
        }
        if id_present(t, x) {
            let k = choose|j: int| 0 <= j < t.len() && t[j].id == x;
            assert(s[k].id == x);
            assert(id_present(s, x));
        }
    }
}

} // verus!
