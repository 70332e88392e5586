use std::str::FromStr;

use atomicwm::input::keybinding::{parse_keybinding, Key, KeyBinding, KeyBindingParseError, Modifiers};

#[test]
fn parses_super_shift_q() {
    let binding = KeyBinding::from_str("Super+Shift+Q").unwrap();

    assert!(binding.modifiers.super_key);
    assert!(binding.modifiers.shift);
    assert_eq!(binding.key, Key::Char('Q'));
}

#[test]
fn parses_super_enter() {
    let binding = KeyBinding::from_str("Super+Enter").unwrap();

    assert!(binding.modifiers.super_key);
    assert_eq!(binding.key, Key::Enter);
}

#[test]
fn parses_super_zero() {
    let binding = KeyBinding::from_str("Super+0").unwrap();

    assert_eq!(binding.key, Key::Zero);
}

#[test]
fn parses_super_ctrl_left() {
    let binding = KeyBinding::from_str("Super+Ctrl+Left").unwrap();

    assert!(binding.modifiers.super_key);
    assert!(binding.modifiers.ctrl);
    assert_eq!(binding.key, Key::Left);
}

#[test]
fn rejects_empty_strings() {
    assert_eq!(
        KeyBinding::from_str("").unwrap_err(),
        KeyBindingParseError::Empty
    );
}

#[test]
fn rejects_unknown_keys() {
    assert_eq!(
        KeyBinding::from_str("Super+PageDown").unwrap_err(),
        KeyBindingParseError::UnknownKey("PageDown".to_string())
    );
}

#[test]
fn rejects_multiple_keys() {
    assert_eq!(
        KeyBinding::from_str("Super+Q+W").unwrap_err(),
        KeyBindingParseError::MultipleKeys
    );
}

#[test]
fn modifiers_and_named_keys_ignore_case_and_spaces() {
    let binding = parse_keybinding("  sUpEr + control+ alt +SHIFT + eNtEr ").unwrap();

    assert_eq!(
        binding.modifiers,
        Modifiers {
            super_key: true,
            ctrl: true,
            alt: true,
            shift: true
        }
    );
    assert_eq!(binding.key, Key::Enter);
}

#[test]
fn letters_are_stored_upper_case_and_digits_as_characters() {
    assert_eq!(parse_keybinding("Alt+q").unwrap().key, Key::Char('Q'));
    assert_eq!(parse_keybinding("Alt+7").unwrap().key, Key::Char('7'));
    assert_eq!(parse_keybinding("minus").unwrap().key, Key::Minus);
    assert_eq!(parse_keybinding("Equal").unwrap().key, Key::Equal);
    assert_eq!(parse_keybinding("up").unwrap().key, Key::Up);
    assert_eq!(parse_keybinding("DOWN").unwrap().key, Key::Down);
    assert_eq!(parse_keybinding("Right").unwrap().key, Key::Right);
}

#[test]
fn blank_and_missing_parts_are_refused() {
    assert_eq!(parse_keybinding("   ").unwrap_err(), KeyBindingParseError::Empty);
    assert_eq!(parse_keybinding("Super+Shift").unwrap_err(), KeyBindingParseError::MissingKey);
    assert_eq!(
        parse_keybinding("Super++Q").unwrap_err(),
        KeyBindingParseError::UnknownKey(String::new())
    );
    assert_eq!(
        parse_keybinding("Super+Q+").unwrap_err(),
        KeyBindingParseError::UnknownKey(String::new())
    );
    assert_eq!(
        parse_keybinding("Super+%").unwrap_err(),
        KeyBindingParseError::UnknownKey("%".to_string())
    );
    assert_eq!(
        parse_keybinding("Super+é").unwrap_err(),
        KeyBindingParseError::UnknownKey("é".to_string())
    );
}

#[test]
fn first_error_wins() {
    assert_eq!(
        parse_keybinding("Q+W+PageUp").unwrap_err(),
        KeyBindingParseError::MultipleKeys
    );
    assert_eq!(
        parse_keybinding("PageUp+Q+W").unwrap_err(),
        KeyBindingParseError::UnknownKey("PageUp".to_string())
    );
}

#[test]
fn modifiers_may_follow_the_key() {
    let binding = parse_keybinding("Q+Super").unwrap();

    assert!(binding.modifiers.super_key);
    assert_eq!(binding.key, Key::Char('Q'));
}

#[test]
fn parse_error_messages() {
    assert_eq!(KeyBindingParseError::Empty.message(), "keybinding is empty");
    assert_eq!(
        KeyBindingParseError::UnknownKey("PageDown".to_string()).message(),
        "unknown key: PageDown"
    );
    assert_eq!(
        KeyBindingParseError::MissingKey.message(),
        "keybinding is missing a key"
    );
    assert_eq!(
        KeyBindingParseError::DuplicateBinding {
            first: "center_focused",
            second: "fit_all"
        }
        .message(),
        "duplicate keybinding for center_focused and fit_all"
    );
}

#[test]
fn unicode_white_space_is_trimmed() {
    let binding = parse_keybinding("Super+\u{a0}q\u{3000}").unwrap();

    assert_eq!(binding.key, Key::Char('Q'));
}

#[test]
fn case_spacing_and_token_order_do_not_change_the_binding() {
    let expected = parse_keybinding("Super+Shift+Q").unwrap();

    assert_eq!(parse_keybinding("super + shift + q"), Ok(expected));
    assert_eq!(parse_keybinding("Q+SHIFT+super"), Ok(expected));
    assert_eq!(parse_keybinding(" sHiFt+q +SUPER "), Ok(expected));
    assert_eq!(parse_keybinding("Shift+Super+Q+shift"), Ok(expected));
}
