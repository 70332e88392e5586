use atomicwm::backend::runtime::BackendError;
use atomicwm::backend::state::{
    add_xdg_toplevel, allocate_window_id, non_empty_or_default, remove_xdg_toplevel,
    toplevel_commit_action, update_app_id, update_title, CommitAction,
};
use atomicwm::canvas::world::World;
use atomicwm::window::node::WindowId;

type Rect = (f64, f64, f64, f64);

#[test]
fn allocates_window_ids_in_order() {
    let mut next = 1;

    assert_eq!(allocate_window_id(&mut next).value(), 1);
    assert_eq!(allocate_window_id(&mut next).value(), 2);
    assert_eq!(next, 3);
}

#[test]
fn adds_mapped_logical_window() {
    let mut world: World<Rect> = World::new();
    let mut next = 1;
    let id = add_xdg_toplevel(
        &mut world,
        &mut next,
        Some("Terminal".to_string()),
        Some("alacritty".to_string()),
        (0.0, 0.0, 900.0, 500.0),
    );
    let window = world.window(id).unwrap();

    assert_eq!(window.title, "Terminal");
    assert_eq!(window.app_id, "alacritty");
    assert_eq!(window.rect, (0.0, 0.0, 900.0, 500.0));
    assert!(window.mapped);
    assert!(window.focused);
}

#[test]
fn missing_or_blank_title_and_app_id_use_fallbacks() {
    let mut world: World<Rect> = World::new();
    let mut next = 1;
    let id = add_xdg_toplevel(&mut world, &mut next, None, Some("  ".to_string()), (0.0, 0.0, 1.0, 1.0));
    let window = world.window(id).unwrap();

    assert_eq!(window.title, "Untitled");
    assert_eq!(window.app_id, "unknown");
}

#[test]
fn removes_mapped_window() {
    let mut world: World<Rect> = World::new();
    let mut next = 1;
    let id = add_xdg_toplevel(&mut world, &mut next, None, None, (0.0, 0.0, 1.0, 1.0));

    assert_eq!(remove_xdg_toplevel(&mut world, id), Some(id));
    assert!(world.is_empty());
    assert_eq!(remove_xdg_toplevel(&mut world, id), None);
}

#[test]
fn removing_focused_window_falls_back_to_first_window() {
    let mut world: World<Rect> = World::new();
    let mut next = 1;
    let first = add_xdg_toplevel(&mut world, &mut next, Some("First".to_string()), None, (0.0, 0.0, 1.0, 1.0));
    let second = add_xdg_toplevel(&mut world, &mut next, Some("Second".to_string()), None, (2.0, 0.0, 1.0, 1.0));

    assert_eq!(world.focused_window_id(), Some(second));
    assert_eq!(remove_xdg_toplevel(&mut world, second), Some(second));
    assert_eq!(world.focused_window_id(), Some(first));
}

#[test]
fn removing_unfocused_window_keeps_focus() {
    let mut world: World<Rect> = World::new();
    let mut next = 1;
    let first = add_xdg_toplevel(&mut world, &mut next, None, None, (0.0, 0.0, 1.0, 1.0));
    let second = add_xdg_toplevel(&mut world, &mut next, None, None, (2.0, 0.0, 1.0, 1.0));
    let third = add_xdg_toplevel(&mut world, &mut next, None, None, (4.0, 0.0, 1.0, 1.0));
    world.focus_window(second);

    assert_eq!(remove_xdg_toplevel(&mut world, first), Some(first));
    assert_eq!(world.focused_window_id(), Some(second));
    assert!(!world.window(third).unwrap().focused);
}

#[test]
fn title_updates_fall_back_to_untitled() {
    let mut world: World<Rect> = World::new();
    let mut next = 5;
    let id = add_xdg_toplevel(&mut world, &mut next, Some("A".to_string()), None, (0.0, 0.0, 1.0, 1.0));

    assert!(update_title(&mut world, id, Some("B".to_string())));
    assert_eq!(world.window(id).unwrap().title, "B");
    assert!(update_title(&mut world, id, None));
    assert_eq!(world.window(id).unwrap().title, "Untitled");
    assert!(update_app_id(&mut world, id, Some("foot".to_string())));
    assert_eq!(world.window(id).unwrap().app_id, "foot");
    assert!(!update_title(&mut world, WindowId::new(1), None));
}

#[test]
fn non_empty_values_are_kept() {
    assert_eq!(non_empty_or_default(Some("x".to_string()), "fallback"), "x");
    assert_eq!(non_empty_or_default(Some(" \t".to_string()), "fallback"), "fallback");
    assert_eq!(non_empty_or_default(None, "fallback"), "fallback");
}

#[test]
fn commit_maps_and_unmaps() {
    let id = WindowId::new(4);

    assert_eq!(toplevel_commit_action(None, true), CommitAction::MapWindow);
    assert_eq!(toplevel_commit_action(Some(id), false), CommitAction::UnmapWindow(id));
    assert_eq!(toplevel_commit_action(None, false), CommitAction::Keep);
    assert_eq!(toplevel_commit_action(Some(id), true), CommitAction::Keep);
}

#[test]
fn backend_error_message() {
    assert_eq!(BackendError::Wayland("socket failed".to_string()).message(), "socket failed");
}
