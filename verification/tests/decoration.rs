use nekowm::events::Action;
use nekowm::events::Configure;
use nekowm::state::State;
use nekowm::state::decoration_policy;
use nekowm::window::DecorationMode;
use nekowm::window::Mode;
use nekowm::window::Size;

fn output() -> Mode {
    Mode { size: Size { w: 1024, h: 768 }, refresh: 60_000 }
}

#[test]
fn policy_is_unconditional() {
    // Whatever mode is requested, the answer is server-side.
    assert_eq!(decoration_policy(DecorationMode::ClientSide), DecorationMode::ServerSide);
    assert_eq!(decoration_policy(DecorationMode::ServerSide), DecorationMode::ServerSide);
    assert_eq!(decoration_policy(DecorationMode::Unset), DecorationMode::ServerSide);
}

#[test]
fn request_mode_overrides_any_wish() {
    for requested in [
        DecorationMode::ClientSide,
        DecorationMode::ServerSide,
        DecorationMode::Unset,
    ] {
        let mut state = State::new(output());
        state.new_toplevel(1);
        let acts = state.request_mode(1, requested);
        assert_eq!(state.space.windows[0].pending_decoration, DecorationMode::ServerSide);
        // The full output size is re-applied as the pending size.
        assert_eq!(state.space.windows[0].pending_size, Size { w: 1024, h: 768 });
        assert_eq!(
            acts,
            vec![Action::SendConfigure(Configure {
                id: 1,
                size: Size { w: 1024, h: 768 },
                decoration: DecorationMode::ServerSide,
                activated: true,
            })]
        );
    }
}

#[test]
fn new_decoration_advertises_server_side() {
    let mut state = State::new(output());
    state.new_toplevel(1);
    let size_before = state.space.windows[0].pending_size;
    let acts = state.new_decoration(1);
    assert_eq!(state.space.windows[0].pending_decoration, DecorationMode::ServerSide);
    // No geometry change on this path.
    assert_eq!(state.space.windows[0].pending_size, size_before);
    assert_eq!(
        acts,
        vec![Action::SendConfigure(Configure {
            id: 1,
            size: size_before,
            decoration: DecorationMode::ServerSide,
            activated: true,
        })]
    );
}

#[test]
fn unset_mode_is_acknowledged_noop() {
    let mut state = State::new(output());
    state.new_toplevel(1);
    let before = state.space.windows.clone();
    let acts = state.unset_mode(1);
    assert!(acts.is_empty());
    assert_eq!(state.space.windows, before);
}

#[test]
fn request_mode_unknown_window_is_noop() {
    let mut state = State::new(output());
    let acts = state.request_mode(9, DecorationMode::ClientSide);
    assert!(acts.is_empty());
}

#[test]
fn legacy_manager_uses_same_policy() {
    // The module-level (legacy) decoration manager answers server-side for
    // every request, exactly like the per-surface path.
    let state = State::new(output());
    assert_eq!(state.kde_request_mode(DecorationMode::ClientSide), DecorationMode::ServerSide);
    assert_eq!(state.kde_request_mode(DecorationMode::ServerSide), DecorationMode::ServerSide);
    assert_eq!(state.kde_request_mode(DecorationMode::Unset), DecorationMode::ServerSide);
}
