use atomicwm::config::{
    validate_color, validate_keybindings, validate_not_empty, CommandsConfig, ConfigError,
    GeneralConfig, KeybindingsConfig,
};

#[test]
fn text_defaults() {
    let general = GeneralConfig::default();
    assert_eq!(general.mod_key, "Super");
    assert!(!general.focus_follows_mouse);
    assert_eq!(CommandsConfig::default().terminal, "alacritty");
    let keys = KeybindingsConfig::default();
    assert_eq!(keys.quit, "Super+Shift+Q");
    assert_eq!(keys.fit_focused_cluster, "Super+Shift+W");
}

#[test]
fn default_keybindings_are_valid() {
    assert!(validate_keybindings(&KeybindingsConfig::default()).is_ok());
}

#[test]
fn empty_keybinding_fails_validation_with_its_name() {
    let mut keys = KeybindingsConfig::default();
    keys.focus_up = "  ".to_string();
    keys.fit_all = String::new();

    assert_eq!(
        validate_keybindings(&keys),
        Err(ConfigError::Validation(
            "keybindings.focus_up must not be empty".to_string()
        ))
    );
}

#[test]
fn empty_terminal_command_fails_validation() {
    assert_eq!(
        validate_not_empty("commands.terminal", " "),
        Err(ConfigError::Validation(
            "commands.terminal must not be empty".to_string()
        ))
    );
    assert!(validate_not_empty("commands.terminal", "foot").is_ok());
}

#[test]
fn invalid_colors_fail_validation() {
    assert_eq!(
        validate_color("appearance.background", "111111"),
        Err(ConfigError::Validation(
            "appearance.background must use #RRGGBB format".to_string()
        ))
    );
    assert!(validate_color("c", "#11111").is_err());
    assert!(validate_color("c", "#11111G").is_err());
    assert!(validate_color("c", "#+11111").is_err());
    assert!(validate_color("c", "#1111111").is_err());
}

#[test]
fn default_colors_pass_validation() {
    assert!(validate_color("appearance.background", "#111111").is_ok());
    assert!(validate_color("appearance.focused_border", "#7C3AED").is_ok());
    assert!(validate_color("appearance.normal_border", "#333333").is_ok());
    assert!(validate_color("c", "#abcdef").is_ok());
}

#[test]
fn entries_name_every_setting() {
    let keys = KeybindingsConfig::default();
    let entries = keys.entries();

    assert_eq!(entries.len(), 20);
    assert_eq!(entries[0], ("keybindings.quit", "Super+Shift+Q"));
    assert_eq!(entries[14], ("keybindings.fit_all", "Super+W"));
    assert_eq!(entries[19], ("keybindings.fit_focused_cluster", "Super+Shift+W"));
}

#[test]
fn config_error_messages() {
    assert_eq!(
        ConfigError::Validation("gap must be positive".to_string()).message(),
        "invalid config: gap must be positive"
    );
    assert_eq!(
        ConfigError::Read {
            path: "/tmp/config.toml".to_string(),
            message: "permission denied".to_string()
        }
        .message(),
        "failed to read config /tmp/config.toml: permission denied"
    );
    assert_eq!(
        ConfigError::Parse {
            path: "c.toml".to_string(),
            message: "bad".to_string()
        }
        .message(),
        "failed to parse config c.toml: bad"
    );
}
