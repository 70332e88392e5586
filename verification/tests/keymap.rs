use std::str::FromStr;

use atomicwm::config::KeybindingsConfig;
use atomicwm::input::action::Action;
use atomicwm::input::keybinding::{KeyBinding, KeyBindingParseError};
use atomicwm::input::keymap::KeyMap;

#[test]
fn builds_from_default_config() {
    let keymap = KeyMap::from_config(&KeybindingsConfig::default()).unwrap();

    assert_eq!(keymap.bindings().len(), 20);
}

#[test]
fn returns_expected_action_for_known_binding() {
    let keymap = KeyMap::from_config(&KeybindingsConfig::default()).unwrap();
    let binding = KeyBinding::from_str("Super+Equal").unwrap();

    assert_eq!(keymap.get(&binding), Some(Action::ZoomIn));
}

#[test]
fn rejects_duplicate_bindings() {
    let mut config = KeybindingsConfig::default();
    config.fit_all = config.center_focused.clone();

    assert!(matches!(
        KeyMap::from_config(&config),
        Err(KeyBindingParseError::DuplicateBinding { .. })
    ));
}

#[test]
fn duplicate_names_both_settings() {
    let mut config = KeybindingsConfig::default();
    config.fit_all = config.center_focused.clone();

    assert_eq!(
        KeyMap::from_config(&config).err(),
        Some(KeyBindingParseError::DuplicateBinding {
            first: "center_focused",
            second: "fit_all"
        })
    );
}

#[test]
fn every_default_setting_maps_to_its_action() {
    let config = KeybindingsConfig::default();
    let keymap = KeyMap::from_config(&config).unwrap();
    let expected = [
        ("Super+Shift+Q", Action::Quit),
        ("Super+Enter", Action::SpawnTerminal),
        ("Super+Equal", Action::ZoomIn),
        ("Super+Minus", Action::ZoomOut),
        ("Super+0", Action::ResetZoom),
        ("Super+Ctrl+Left", Action::PanLeft),
        ("Super+Ctrl+Right", Action::PanRight),
        ("Super+Ctrl+Up", Action::PanUp),
        ("Super+Ctrl+Down", Action::PanDown),
        ("Super+Left", Action::FocusLeft),
        ("Super+Right", Action::FocusRight),
        ("Super+Up", Action::FocusUp),
        ("Super+Down", Action::FocusDown),
        ("Super+C", Action::CenterFocused),
        ("Super+W", Action::FitAll),
        ("Super+Shift+Ctrl+Left", Action::MoveClusterLeft),
        ("Super+Shift+Ctrl+Right", Action::MoveClusterRight),
        ("Super+Shift+Ctrl+Up", Action::MoveClusterUp),
        ("Super+Shift+Ctrl+Down", Action::MoveClusterDown),
        ("Super+Shift+W", Action::FitFocusedCluster),
    ];

    for (text, action) in expected {
        let binding = KeyBinding::from_str(text).unwrap();
        assert_eq!(keymap.get(&binding), Some(action), "{text}");
    }
    let (first_binding, first_action) = keymap.bindings()[0];
    assert_eq!(first_binding, KeyBinding::from_str("Super+Shift+Q").unwrap());
    assert_eq!(first_action, Action::Quit);
}

#[test]
fn unbound_combination_has_no_action() {
    let keymap = KeyMap::from_config(&KeybindingsConfig::default()).unwrap();

    assert_eq!(keymap.get(&KeyBinding::from_str("Alt+Q").unwrap()), None);
}

#[test]
fn first_unparsable_setting_is_reported() {
    let mut config = KeybindingsConfig::default();
    config.zoom_out = "Super+PageDown".to_string();
    config.pan_up = "".to_string();

    assert_eq!(
        KeyMap::from_config(&config).err(),
        Some(KeyBindingParseError::UnknownKey("PageDown".to_string()))
    );
}

#[test]
fn action_names() {
    assert_eq!(Action::Quit.name(), "quit");
    assert_eq!(Action::SpawnTerminal.name(), "spawn_terminal");
    assert_eq!(Action::FitFocusedCluster.name(), "fit_focused_cluster");
    assert_eq!(Action::MoveClusterDown.name(), "move_cluster_down");
}
