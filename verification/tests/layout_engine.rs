use nekowm::layout::Layout;
use nekowm::layout::MonocleLayout;
use nekowm::layout::WindowManager;
use nekowm::registry::Registry;
use nekowm::window::DecorationMode;
use nekowm::window::Mode;
use nekowm::window::Point;
use nekowm::window::Size;
use nekowm::window::Window;

fn output() -> Mode {
    Mode { size: Size { w: 640, h: 480 }, refresh: 60_000 }
}

fn plain_window(id: u64, activated: bool) -> Window {
    Window {
        id,
        pending_size: Size { w: 5, h: 5 },
        pending_decoration: DecorationMode::Unset,
        activated,
        initial_configure_sent: false,
        offset: Point { x: 3, y: 4 },
        visible: true,
    }
}

#[test]
fn manager_starts_with_monocle() {
    let wm = WindowManager::new(output());
    assert_eq!(wm.output, output());
    assert_eq!(wm.active_layout, Layout::Monocle(MonocleLayout {}));
}

#[test]
fn layout_on_empty_registry_is_noop() {
    let wm = WindowManager::new(output());
    let mut space = Registry::new();
    assert_eq!(wm.layout(&mut space), None);
    assert_eq!(space.windows.len(), 0);
}

#[test]
fn layout_features_the_activated_window() {
    let wm = WindowManager::new(output());
    let mut space = Registry::new();
    space.windows.push(plain_window(1, false));
    space.windows.push(plain_window(2, true));
    space.windows.push(plain_window(3, false));

    let cfg = wm.layout(&mut space).expect("non-empty registry owes a configure");
    assert_eq!(cfg.id, 2);
    assert_eq!(cfg.size, Size { w: 640, h: 480 });
    assert!(cfg.activated);

    // The active window moves on top; the others keep their relative order.
    let ids: Vec<u64> = space.windows.iter().map(|w| w.id).collect();
    assert_eq!(ids, vec![1, 3, 2]);
    let top = space.windows[2];
    assert_eq!(top.offset, Point { x: 0, y: 0 });
    assert_eq!(top.pending_size, Size { w: 640, h: 480 });
    assert!(top.activated && top.visible);
    for w in &space.windows[0..2] {
        assert_eq!(w.offset, Point { x: -1, y: -1 });
        assert_eq!(w.pending_size, Size { w: 0, h: 0 });
        assert!(!w.activated && !w.visible);
    }
}

#[test]
fn layout_falls_back_to_topmost_without_active() {
    let wm = WindowManager::new(output());
    let mut space = Registry::new();
    space.windows.push(plain_window(1, false));
    space.windows.push(plain_window(2, false));

    let cfg = wm.layout(&mut space).expect("non-empty registry owes a configure");
    // No window is flagged active: the most recently mapped one wins.
    assert_eq!(cfg.id, 2);
    let ids: Vec<u64> = space.windows.iter().map(|w| w.id).collect();
    assert_eq!(ids, vec![1, 2]);
    assert!(space.windows[1].activated);
}

#[test]
fn layout_twice_is_idempotent() {
    let wm = WindowManager::new(output());
    let mut space = Registry::new();
    space.windows.push(plain_window(1, false));
    space.windows.push(plain_window(2, true));
    space.windows.push(plain_window(3, false));

    let first_cfg = wm.layout(&mut space);
    let after_first = space.windows.clone();
    let second_cfg = wm.layout(&mut space);
    assert_eq!(space.windows, after_first);
    assert_eq!(second_cfg, first_cfg);
}

#[test]
fn lost_focus_activates_topmost() {
    let wm = WindowManager::new(output());
    let mut space = Registry::new();
    space.windows.push(plain_window(1, false));
    space.windows.push(plain_window(2, false));

    let successor = wm.lost_focus(&mut space);
    assert_eq!(successor, Some(2));
    assert!(!space.windows[0].activated);
    assert!(space.windows[1].activated);
}

#[test]
fn lost_focus_on_empty_registry_is_none() {
    let wm = WindowManager::new(output());
    let mut space = Registry::new();
    assert_eq!(wm.lost_focus(&mut space), None);
}

#[test]
fn registry_lookup() {
    let mut space = Registry::new();
    space.windows.push(plain_window(4, false));
    space.windows.push(plain_window(9, true));
    assert_eq!(space.len(), 2);
    assert!(!space.is_empty());
    assert_eq!(space.index_of_id(9), Some(1));
    assert_eq!(space.index_of_id(5), None);
    assert!(space.contains_id(4));
    assert!(!space.contains_id(5));
    assert_eq!(space.get(0).id, 4);
}
