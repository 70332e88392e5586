use atomicwm::app::{AppError, RuntimeMode};
use atomicwm::config::ConfigError;
use atomicwm::input::keybinding::KeyBindingParseError;

#[test]
fn argument_parsing_recognizes_compositor_mode() {
    assert_eq!(RuntimeMode::from_args(vec![]).unwrap(), RuntimeMode::Compositor);
}

#[test]
fn argument_parsing_recognizes_simulation_mode() {
    assert_eq!(
        RuntimeMode::from_args(vec!["--simulate".to_string()]).unwrap(),
        RuntimeMode::Simulation
    );
    assert_eq!(
        RuntimeMode::from_args(vec!["-s".to_string()]).unwrap(),
        RuntimeMode::Simulation
    );
}

#[test]
fn argument_parsing_recognizes_backend_test_mode() {
    assert_eq!(
        RuntimeMode::from_args(vec!["--backend-test".to_string()]).unwrap(),
        RuntimeMode::BackendTest
    );
}

#[test]
fn unknown_argument_returns_error() {
    assert_eq!(
        RuntimeMode::from_args(vec!["--bad".to_string()]).unwrap_err(),
        AppError::UnknownArgument("--bad".to_string())
    );
}

#[test]
fn last_mode_flag_wins() {
    assert_eq!(
        RuntimeMode::from_args(vec!["-s".to_string(), "--backend-test".to_string()]).unwrap(),
        RuntimeMode::BackendTest
    );
    assert_eq!(
        RuntimeMode::from_args(vec!["--backend-test".to_string(), "--simulate".to_string()])
            .unwrap(),
        RuntimeMode::Simulation
    );
}

#[test]
fn first_unknown_argument_is_reported() {
    assert_eq!(
        RuntimeMode::from_args(vec![
            "-s".to_string(),
            "--first".to_string(),
            "--second".to_string()
        ])
        .unwrap_err(),
        AppError::UnknownArgument("--first".to_string())
    );
}

#[test]
fn flags_are_case_sensitive() {
    assert_eq!(
        RuntimeMode::from_args(vec!["-S".to_string()]).unwrap_err(),
        AppError::UnknownArgument("-S".to_string())
    );
}

#[test]
fn app_error_messages() {
    assert_eq!(
        AppError::UnknownArgument("--bad".to_string()).message(),
        "unknown argument: --bad"
    );
    assert_eq!(
        AppError::from_keybinding_error(&KeyBindingParseError::MultipleKeys).message(),
        "invalid keybinding: keybinding contains multiple keys"
    );
    assert_eq!(
        AppError::from_config_error(&ConfigError::Validation("gap must be positive".to_string())),
        AppError::Config("invalid config: gap must be positive".to_string())
    );
}
