use atomicwm::canvas::world::World;
use atomicwm::window::decoration::DecorationMode;
use atomicwm::window::node::{WindowId, WindowNode};

type Rect = (f64, f64, f64, f64);

fn window(id: u64, rect: Rect) -> WindowNode<Rect> {
    WindowNode::new(
        WindowId::new(id),
        format!("Window {id}"),
        "test-app".to_string(),
        rect,
    )
}

#[test]
fn adds_and_removes_window() {
    let mut world = World::new();
    let id = WindowId::new(1);

    world.add_window(window(1, (0.0, 0.0, 100.0, 100.0)));

    assert_eq!(world.windows().len(), 1);
    assert!(world.window(id).is_some());
    assert_eq!(world.remove_window(id).map(|window| window.id), Some(id));
    assert!(world.is_empty());
}

#[test]
fn focuses_only_one_window() {
    let mut world = World::new();
    let first = WindowId::new(1);
    let second = WindowId::new(2);

    world.add_window(window(1, (0.0, 0.0, 100.0, 100.0)));
    world.add_window(window(2, (200.0, 0.0, 100.0, 100.0)));

    assert!(world.focus_window(first));
    assert_eq!(world.focused_window().map(|window| window.id), Some(first));

    assert!(world.focus_window(second));
    assert_eq!(world.focused_window().map(|window| window.id), Some(second));
    assert!(!world.window(first).unwrap().focused);
    assert!(!world.focus_window(WindowId::new(99)));
}

#[test]
fn focus_first_returns_none_for_empty_world() {
    assert_eq!(World::<Rect>::new().focus_first(), None);
}

#[test]
fn focus_first_focuses_first_window() {
    let mut world = World::new();
    world.add_window(window(1, (0.0, 0.0, 100.0, 100.0)));
    world.add_window(window(2, (200.0, 0.0, 100.0, 100.0)));

    assert_eq!(world.focus_first(), Some(WindowId::new(1)));
    assert_eq!(world.focused_window_id(), Some(WindowId::new(1)));
}

#[test]
fn no_windows_returns_none_for_directional_focus() {
    assert_eq!(World::<Rect>::new().focus_toward(None), None);
}

#[test]
fn directional_focus_without_focus_focuses_first_window() {
    let mut world = World::new();
    world.add_window(window(1, (0.0, 0.0, 100.0, 100.0)));
    world.add_window(window(2, (200.0, 0.0, 100.0, 100.0)));

    assert_eq!(world.focus_toward(Some(WindowId::new(2))), Some(WindowId::new(1)));
    assert_eq!(world.focused_window_id(), Some(WindowId::new(1)));
}

#[test]
fn directional_focus_moves_to_candidate() {
    let mut world = World::new();
    world.add_window(window(1, (0.0, 0.0, 100.0, 100.0)));
    world.add_window(window(2, (200.0, 0.0, 100.0, 100.0)));
    world.add_window(window(3, (400.0, 0.0, 100.0, 100.0)));
    world.focus_window(WindowId::new(1));

    assert_eq!(world.focus_toward(Some(WindowId::new(2))), Some(WindowId::new(2)));
    assert_eq!(world.focused_window_id(), Some(WindowId::new(2)));
    assert_eq!(world.windows().iter().filter(|window| window.focused).count(), 1);
}

#[test]
fn directional_focus_without_candidate_keeps_focus() {
    let mut world = World::new();
    world.add_window(window(1, (0.0, 0.0, 100.0, 100.0)));
    world.add_window(window(2, (200.0, 0.0, 100.0, 100.0)));
    world.focus_window(WindowId::new(1));

    assert_eq!(world.focus_toward(None), None);
    assert_eq!(world.focused_window_id(), Some(WindowId::new(1)));
}

#[test]
fn new_windows_are_unfocused_with_borders() {
    let node = window(7, (1.0, 2.0, 3.0, 4.0));

    assert!(!node.focused);
    assert!(!node.mapped);
    assert_eq!(node.decoration_mode, DecorationMode::Border);
    assert_eq!(node.id.value(), 7);
    assert_eq!(*node.rect(), (1.0, 2.0, 3.0, 4.0));
}

#[test]
fn setters_change_only_the_named_window() {
    let mut world = World::new();
    world.add_window(window(1, (0.0, 0.0, 100.0, 100.0)));
    world.add_window(window(2, (200.0, 0.0, 100.0, 100.0)));

    assert!(world.set_window_rect(WindowId::new(1), (10.0, 20.0, 100.0, 100.0)));
    assert!(world.set_window_title(WindowId::new(2), "Editor".to_string()));
    assert!(world.set_window_app_id(WindowId::new(2), "code".to_string()));
    assert!(!world.set_window_rect(WindowId::new(99), (0.0, 0.0, 1.0, 1.0)));

    assert_eq!(world.window(WindowId::new(1)).unwrap().rect, (10.0, 20.0, 100.0, 100.0));
    assert_eq!(world.window(WindowId::new(1)).unwrap().title, "Window 1");
    assert_eq!(world.window(WindowId::new(2)).unwrap().title, "Editor");
    assert_eq!(world.window(WindowId::new(2)).unwrap().app_id, "code");
    assert_eq!(world.window(WindowId::new(2)).unwrap().rect, (200.0, 0.0, 100.0, 100.0));
}

#[test]
fn removing_unknown_window_changes_nothing() {
    let mut world = World::new();
    world.add_window(window(1, (0.0, 0.0, 100.0, 100.0)));

    assert!(world.remove_window(WindowId::new(2)).is_none());
    assert_eq!(world.windows().len(), 1);
}
