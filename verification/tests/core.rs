use nekowm::events::Action;
use nekowm::events::Configure;
use nekowm::events::Event;
use nekowm::state::State;
use nekowm::window::DecorationMode;
use nekowm::window::Mode;
use nekowm::window::Point;
use nekowm::window::Size;

fn output() -> Mode {
    Mode { size: Size { w: 800, h: 600 }, refresh: 60_000 }
}

fn activated_count(state: &State) -> usize {
    let mut n: usize = 0;
    for w in state.space.windows.iter() {
        if w.activated {
            n += 1;
        }
    }
    n
}

#[test]
fn scenario_map_map_destroy() {
    // Registry empty -> map A -> A at (0,0), full size, activated.
    let mut state = State::new(output());
    assert_eq!(state.space.windows.len(), 0);
    assert_eq!(state.focus, None);

    let acts = state.new_toplevel(1);
    assert_eq!(acts.len(), 2);
    assert_eq!(acts[0], Action::SetKeyboardFocus(Some(1)));
    assert_eq!(
        acts[1],
        Action::SendConfigure(Configure {
            id: 1,
            size: Size { w: 800, h: 600 },
            decoration: DecorationMode::Unset,
            activated: true,
        })
    );
    let a = state.space.windows[0];
    assert_eq!(a.id, 1);
    assert_eq!(a.offset, Point { x: 0, y: 0 });
    assert_eq!(a.pending_size, Size { w: 800, h: 600 });
    assert!(a.activated);
    assert_eq!(state.focus, Some(1));

    // Map B -> B featured, A parked off-screen at size (0,0).
    let acts = state.new_toplevel(2);
    assert_eq!(acts[0], Action::SetKeyboardFocus(Some(2)));
    let a = state.space.windows[0];
    let b = state.space.windows[1];
    assert_eq!(a.id, 1);
    assert_eq!(a.offset, Point { x: -1, y: -1 });
    assert_eq!(a.pending_size, Size { w: 0, h: 0 });
    assert!(!a.activated);
    assert!(!a.visible);
    assert_eq!(b.id, 2);
    assert_eq!(b.offset, Point { x: 0, y: 0 });
    assert_eq!(b.pending_size, Size { w: 800, h: 600 });
    assert!(b.activated);
    assert!(b.visible);
    assert_eq!(state.focus, Some(2));

    // Destroy B -> focus successor is A, featured again.
    let acts = state.toplevel_destroyed(2);
    assert_eq!(acts[0], Action::SetKeyboardFocus(Some(1)));
    assert_eq!(state.space.windows.len(), 1);
    let a = state.space.windows[0];
    assert_eq!(a.id, 1);
    assert_eq!(a.offset, Point { x: 0, y: 0 });
    assert_eq!(a.pending_size, Size { w: 800, h: 600 });
    assert!(a.activated);
    assert_eq!(state.focus, Some(1));
}

#[test]
fn focus_successor_chain() {
    // Windows mapped in order [A, B, C] with C focused: destroying C puts
    // focus on B; destroying the sole remaining window leaves focus none.
    let mut state = State::new(output());
    state.new_toplevel(10);
    state.new_toplevel(20);
    state.new_toplevel(30);
    assert_eq!(state.focus, Some(30));

    state.toplevel_destroyed(30);
    assert_eq!(state.focus, Some(20));

    state.toplevel_destroyed(20);
    assert_eq!(state.focus, Some(10));

    let acts = state.toplevel_destroyed(10);
    assert_eq!(state.focus, None);
    assert_eq!(acts, vec![Action::SetKeyboardFocus(None)]);
    assert_eq!(state.space.windows.len(), 0);
}

#[test]
fn destroy_unfocused_keeps_focus() {
    let mut state = State::new(output());
    state.new_toplevel(1);
    state.new_toplevel(2);
    state.new_toplevel(3);
    // Destroy the bottom window; focus stays on 3.
    state.toplevel_destroyed(1);
    assert_eq!(state.focus, Some(3));
    assert_eq!(state.space.windows.len(), 2);
    assert_eq!(activated_count(&state), 1);
}

#[test]
fn destroy_unknown_id_is_noop() {
    let mut state = State::new(output());
    state.new_toplevel(1);
    let before = state.space.windows.clone();
    let acts = state.toplevel_destroyed(99);
    assert!(acts.is_empty());
    assert_eq!(state.space.windows, before);
    assert_eq!(state.focus, Some(1));
}

#[test]
fn single_active_invariant() {
    // At most one window holds the activation flag through a workload.
    let mut state = State::new(output());
    assert_eq!(activated_count(&state), 0);
    for id in 1..=5u64 {
        state.new_toplevel(id);
        assert_eq!(activated_count(&state), 1);
    }
    state.toplevel_destroyed(3);
    assert_eq!(activated_count(&state), 1);
    state.toplevel_destroyed(5);
    assert_eq!(activated_count(&state), 1);
    state.commit(4, false, 4);
    assert_eq!(activated_count(&state), 1);
    state.request_mode(4, DecorationMode::ClientSide);
    assert_eq!(activated_count(&state), 1);
}

#[test]
fn parking_convention() {
    // After a layout pass with N >= 2 windows exactly one window sits at
    // (0,0) with the full output size; all others at (-1,-1) with (0,0).
    let mut state = State::new(output());
    for id in 1..=4u64 {
        state.new_toplevel(id);
    }
    let mut featured: usize = 0;
    let mut parked: usize = 0;
    for w in state.space.windows.iter() {
        if w.offset == (Point { x: 0, y: 0 }) {
            assert_eq!(w.pending_size, Size { w: 800, h: 600 });
            assert!(w.activated);
            featured += 1;
        } else {
            assert_eq!(w.offset, Point { x: -1, y: -1 });
            assert_eq!(w.pending_size, Size { w: 0, h: 0 });
            assert!(!w.activated);
            parked += 1;
        }
    }
    assert_eq!(featured, 1);
    assert_eq!(parked, 3);
}

#[test]
fn first_configure_exactly_once() {
    let mut state = State::new(output());
    state.new_toplevel(7);
    assert!(!state.space.windows[0].initial_configure_sent);

    // The first commit sends the one-shot initial configure.
    let acts = state.commit(7, false, 7);
    assert_eq!(acts.len(), 2);
    assert_eq!(acts[0], Action::RefreshWindow(7));
    assert_eq!(
        acts[1],
        Action::SendConfigure(Configure {
            id: 7,
            size: Size { w: 800, h: 600 },
            decoration: DecorationMode::ServerSide,
            activated: true,
        })
    );
    assert!(state.space.windows[0].initial_configure_sent);
    let after_first = state.space.windows.clone();

    // Re-commits never re-trigger it.
    for _ in 0..3 {
        let acts = state.commit(7, false, 7);
        assert_eq!(acts, vec![Action::RefreshWindow(7)]);
        assert_eq!(state.space.windows, after_first);
    }
}

#[test]
fn commit_sync_subsurface_defers() {
    // A sync subsurface commit triggers nothing, not even the refresh.
    let mut state = State::new(output());
    state.new_toplevel(7);
    let acts = state.commit(8, true, 7);
    assert!(acts.is_empty());
    assert!(!state.space.windows[0].initial_configure_sent);
}

#[test]
fn commit_subsurface_refreshes_root_window() {
    // A non-sync commit on a subsurface refreshes the root's window but
    // sends no configure for the subsurface itself.
    let mut state = State::new(output());
    state.new_toplevel(7);
    let acts = state.commit(8, false, 7);
    assert_eq!(acts, vec![Action::RefreshWindow(7)]);
    assert!(!state.space.windows[0].initial_configure_sent);
}

#[test]
fn commit_unknown_surface_is_noop() {
    let mut state = State::new(output());
    let acts = state.commit(5, false, 5);
    assert!(acts.is_empty());
    assert_eq!(state.space.windows.len(), 0);
}

#[test]
fn handle_dispatches_events() {
    let mut state = State::new(output());
    let acts = state.handle(Event::NewToplevel { id: 4 });
    assert_eq!(acts[0], Action::SetKeyboardFocus(Some(4)));
    let acts = state.handle(Event::Commit { surface: 4, sync_subsurface: false, root: 4 });
    assert_eq!(acts.len(), 2);
    let acts = state.handle(Event::UnsetMode { id: 4 });
    assert!(acts.is_empty());
    let acts = state.handle(Event::ToplevelDestroyed { id: 4 });
    assert_eq!(acts, vec![Action::SetKeyboardFocus(None)]);
}

#[test]
fn visible_stack_lists_only_visible_windows() {
    let mut state = State::new(output());
    state.new_toplevel(1);
    state.new_toplevel(2);
    let stack = state.visible_stack();
    assert_eq!(stack, vec![(2, 0, 0)]);
}
