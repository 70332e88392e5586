//! The parts of the configuration that hold text: general settings,
//! keybinding strings and commands, the checks on them, and the error type
//! that configuration loading reports.
use vstd::prelude::*;

use vstd::string::StringSliceAdditionalSpecFns;

use crate::text::{is_blank, trim};

verus! {

/// `[general]`
#[derive(Clone, Debug, PartialEq)]
pub struct GeneralConfig {
    pub mod_key: String,
    pub focus_follows_mouse: bool,
}

impl Default for GeneralConfig {
    fn default() -> (c: Self)
        ensures
            c.mod_key@ == "Super"@,
            !c.focus_follows_mouse,
    {
        GeneralConfig { mod_key: "Super".to_owned(), focus_follows_mouse: false }
    }
}

/// `[commands]`
#[derive(Clone, Debug, PartialEq)]
pub struct CommandsConfig {
    pub terminal: String,
}

impl Default for CommandsConfig {
    fn default() -> (c: Self)
        ensures
            c.terminal@ == "alacritty"@,
    {
        CommandsConfig { terminal: "alacritty".to_owned() }
    }
}

/// `[keybindings]`: one keybinding string per action.
#[derive(Clone, Debug, PartialEq)]
pub struct KeybindingsConfig {
    pub quit: String,
    pub spawn_terminal: String,
    pub zoom_in: String,
    pub zoom_out: String,
    pub reset_zoom: String,
    pub pan_left: String,
    pub pan_right: String,
    pub pan_up: String,
    pub pan_down: String,
    pub focus_left: String,
    pub focus_right: String,
    pub focus_up: String,
    pub focus_down: String,
    pub center_focused: String,
    pub fit_all: String,
    pub move_cluster_left: String,
    pub move_cluster_right: String,
    pub move_cluster_up: String,
    pub move_cluster_down: String,
    pub fit_focused_cluster: String,
}

/// How many keybinding settings there are.
pub const KEYBINDING_COUNT: usize = 20;

impl KeybindingsConfig {
    /// The keybinding strings, in the order of the `[keybindings]` section.
    pub open spec fn values(self) -> Seq<Seq<char>> {
        seq![
            self.quit@,
            self.spawn_terminal@,
            self.zoom_in@,
            self.zoom_out@,
            self.reset_zoom@,
            self.pan_left@,
            self.pan_right@,
            self.pan_up@,
            self.pan_down@,
            self.focus_left@,
            self.focus_right@,
            self.focus_up@,
            self.focus_down@,
            self.center_focused@,
            self.fit_all@,
            self.move_cluster_left@,
            self.move_cluster_right@,
            self.move_cluster_up@,
            self.move_cluster_down@,
            self.fit_focused_cluster@,
        ]
    }

    /// The setting names, in the same order.
    pub open spec fn names() -> Seq<Seq<char>> {
        seq![
            "quit"@,
            "spawn_terminal"@,
            "zoom_in"@,
            "zoom_out"@,
            "reset_zoom"@,
            "pan_left"@,
            "pan_right"@,
            "pan_up"@,
            "pan_down"@,
            "focus_left"@,
            "focus_right"@,
            "focus_up"@,
            "focus_down"@,
            "center_focused"@,
            "fit_all"@,
            "move_cluster_left"@,
            "move_cluster_right"@,
            "move_cluster_up"@,
            "move_cluster_down"@,
            "fit_focused_cluster"@,
        ]
    }

    /// The setting names with their section, as validation messages name them.
    pub open spec fn qualified_names() -> Seq<Seq<char>> {
        seq![
            "keybindings.quit"@,
            "keybindings.spawn_terminal"@,
            "keybindings.zoom_in"@,
            "keybindings.zoom_out"@,
            "keybindings.reset_zoom"@,
            "keybindings.pan_left"@,
            "keybindings.pan_right"@,
            "keybindings.pan_up"@,
            "keybindings.pan_down"@,
            "keybindings.focus_left"@,
            "keybindings.focus_right"@,
            "keybindings.focus_up"@,
            "keybindings.focus_down"@,
            "keybindings.center_focused"@,
            "keybindings.fit_all"@,
            "keybindings.move_cluster_left"@,
            "keybindings.move_cluster_right"@,
            "keybindings.move_cluster_up"@,
            "keybindings.move_cluster_down"@,
            "keybindings.fit_focused_cluster"@,
        ]
    }

    /// Each setting with its qualified name and its value.
    pub fn entries(&self) -> (e: [(&'static str, &str); KEYBINDING_COUNT])
        ensures
            forall|i: int|
                0 <= i < KEYBINDING_COUNT ==> (#[trigger] e@[i]).0@ == Self::qualified_names()[i]
                    && e@[i].1@ == self.values()[i],
    {
        let e = [
            ("keybindings.quit", self.quit.as_str()),
            ("keybindings.spawn_terminal", self.spawn_terminal.as_str()),
            ("keybindings.zoom_in", self.zoom_in.as_str()),
            ("keybindings.zoom_out", self.zoom_out.as_str()),
            ("keybindings.reset_zoom", self.reset_zoom.as_str()),
            ("keybindings.pan_left", self.pan_left.as_str()),
            ("keybindings.pan_right", self.pan_right.as_str()),
            ("keybindings.pan_up", self.pan_up.as_str()),
            ("keybindings.pan_down", self.pan_down.as_str()),
            ("keybindings.focus_left", self.focus_left.as_str()),
            ("keybindings.focus_right", self.focus_right.as_str()),
            ("keybindings.focus_up", self.focus_up.as_str()),
            ("keybindings.focus_down", self.focus_down.as_str()),
            ("keybindings.center_focused", self.center_focused.as_str()),
            ("keybindings.fit_all", self.fit_all.as_str()),
            ("keybindings.move_cluster_left", self.move_cluster_left.as_str()),
            ("keybindings.move_cluster_right", self.move_cluster_right.as_str()),
            ("keybindings.move_cluster_up", self.move_cluster_up.as_str()),
            ("keybindings.move_cluster_down", self.move_cluster_down.as_str()),
            ("keybindings.fit_focused_cluster", self.fit_focused_cluster.as_str()),
        ];
        assert(e@.len() == KEYBINDING_COUNT);
        e
    }
}

impl Default for KeybindingsConfig {
    fn default() -> (c: Self)
        ensures
            c.quit@ == "Super+Shift+Q"@,
            c.spawn_terminal@ == "Super+Enter"@,
            c.zoom_in@ == "Super+Equal"@,
            c.zoom_out@ == "Super+Minus"@,
            c.reset_zoom@ == "Super+0"@,
            c.pan_left@ == "Super+Ctrl+Left"@,
            c.pan_right@ == "Super+Ctrl+Right"@,
            c.pan_up@ == "Super+Ctrl+Up"@,
            c.pan_down@ == "Super+Ctrl+Down"@,
            c.focus_left@ == "Super+Left"@,
            c.focus_right@ == "Super+Right"@,
            c.focus_up@ == "Super+Up"@,
            c.focus_down@ == "Super+Down"@,
            c.center_focused@ == "Super+C"@,
            c.fit_all@ == "Super+W"@,
            c.move_cluster_left@ == "Super+Shift+Ctrl+Left"@,
            c.move_cluster_right@ == "Super+Shift+Ctrl+Right"@,
            c.move_cluster_up@ == "Super+Shift+Ctrl+Up"@,
            c.move_cluster_down@ == "Super+Shift+Ctrl+Down"@,
            c.fit_focused_cluster@ == "Super+Shift+W"@,
    {
        KeybindingsConfig {
            quit: "Super+Shift+Q".to_owned(),
            spawn_terminal: "Super+Enter".to_owned(),
            zoom_in: "Super+Equal".to_owned(),
            zoom_out: "Super+Minus".to_owned(),
            reset_zoom: "Super+0".to_owned(),
            pan_left: "Super+Ctrl+Left".to_owned(),
            pan_right: "Super+Ctrl+Right".to_owned(),
            pan_up: "Super+Ctrl+Up".to_owned(),
            pan_down: "Super+Ctrl+Down".to_owned(),
            focus_left: "Super+Left".to_owned(),
            focus_right: "Super+Right".to_owned(),
            focus_up: "Super+Up".to_owned(),
            focus_down: "Super+Down".to_owned(),
            center_focused: "Super+C".to_owned(),
            fit_all: "Super+W".to_owned(),
            move_cluster_left: "Super+Shift+Ctrl+Left".to_owned(),
            move_cluster_right: "Super+Shift+Ctrl+Right".to_owned(),
            move_cluster_up: "Super+Shift+Ctrl+Up".to_owned(),
            move_cluster_down: "Super+Shift+Ctrl+Down".to_owned(),
            fit_focused_cluster: "Super+Shift+W".to_owned(),
        }
    }
}

/// Why a configuration could not be loaded.
#[derive(Clone, Debug, PartialEq)]
pub enum ConfigError {
    /// The file exists but could not be read.
    Read { path: String, message: String },
    /// The file is not valid TOML for the configuration.
    Parse { path: String, message: String },
    /// A value breaks a rule.
    Validation(String),
}

/// The text that describes a configuration error.
pub open spec fn config_error_message(e: ConfigError) -> Seq<char> {
    match e {
        ConfigError::Read { path, message } => "failed to read config "@ + path@ + ": "@ + message@,
        ConfigError::Parse { path, message } => "failed to parse config "@ + path@ + ": "@
            + message@,
        ConfigError::Validation(message) => "invalid config: "@ + message@,
    }
}

impl ConfigError {
    /// The human-readable description of the error.
    pub fn message(&self) -> (m: String)
        ensures
            m@ == config_error_message(*self),
    {
        match self {
            ConfigError::Read { path, message } => {
                let mut m = "failed to read config ".to_owned();
                m.append(path.as_str());
                m.append(": ");
                m.append(message.as_str());
                m
            },
            ConfigError::Parse { path, message } => {
                let mut m = "failed to parse config ".to_owned();
                m.append(path.as_str());
                m.append(": ");
                m.append(message.as_str());
                m
            },
            ConfigError::Validation(message) => {
                let mut m = "invalid config: ".to_owned();
                m.append(message.as_str());
                m
            },
        }
    }
}

/// A value counts as present when it holds something besides white space.
pub fn validate_not_empty(name: &str, value: &str) -> (r: Result<(), ConfigError>)
    ensures
        r is Ok <==> trim(value@).len() > 0,
        r matches Err(e) ==> e == ConfigError::Validation(e->Validation_0) && e->Validation_0@
            == name@ + " must not be empty"@,
{
    if is_blank(value) {
        let mut m = name.to_owned();
        m.append(" must not be empty");
        Err(ConfigError::Validation(m))
    } else {
        Ok(())
    }
}

pub open spec fn is_ascii_hex_digit_byte(b: u8) -> bool {
    (48 <= b <= 57) || (65 <= b <= 70) || (97 <= b <= 102)
}

/// A colour setting is `#` followed by six hexadecimal digits (in its UTF-8 bytes).
pub open spec fn is_hex_color(bytes: Seq<u8>) -> bool {
    &&& bytes.len() == 7
    &&& bytes[0] == 35
    &&& forall|i: int| 1 <= i < 7 ==> is_ascii_hex_digit_byte(#[trigger] bytes[i])
}

pub fn is_hex_digit_byte(b: u8) -> (r: bool)
    ensures
        r == is_ascii_hex_digit_byte(b),
{
    (48 <= b && b <= 57) || (65 <= b && b <= 70) || (97 <= b && b <= 102)
}

/// A colour setting must use the `#RRGGBB` form.
pub fn validate_color(name: &str, value: &str) -> (r: Result<(), ConfigError>)
    ensures
        r is Ok <==> is_hex_color(value.spec_bytes()),
        r matches Err(e) ==> e == ConfigError::Validation(e->Validation_0) && e->Validation_0@
            == name@ + " must use #RRGGBB format"@,
{
    let bytes = value.as_bytes();
    let mut valid = bytes.len() == 7 && bytes[0] == 35;
    if valid {
        let mut i: usize = 1;
        while i < 7
            invariant
                bytes@ == value.spec_bytes(),
                bytes@.len() == 7,
                1 <= i <= 7,
                valid == (forall|k: int| 1 <= k < i ==> is_ascii_hex_digit_byte(#[trigger] bytes@[k])),
            decreases 7 - i,
        {
            valid = valid && is_hex_digit_byte(bytes[i]);
            i = i + 1;
        }
    }
    if valid {
        Ok(())
    } else {
        let mut m = name.to_owned();
        m.append(" must use #RRGGBB format");
        Err(ConfigError::Validation(m))
    }
}

/// Every keybinding string must be present; the first one that is not is reported.
pub fn validate_keybindings(config: &KeybindingsConfig) -> (r: Result<(), ConfigError>)
    ensures
        r is Ok <==> forall|i: int|
            0 <= i < KEYBINDING_COUNT ==> trim(#[trigger] config.values()[i]).len() > 0,
        r matches Err(e) ==> exists|i: int|
            0 <= i < KEYBINDING_COUNT && trim(#[trigger] config.values()[i]).len() == 0 && (forall|
                k: int,
            | 0 <= k < i ==> trim(#[trigger] config.values()[k]).len() > 0) && e
                == ConfigError::Validation(e->Validation_0) && e->Validation_0@
                == KeybindingsConfig::qualified_names()[i] + " must not be empty"@,
{
    let entries = config.entries();
    let mut i: usize = 0;
    while i < KEYBINDING_COUNT
        invariant
            0 <= i <= KEYBINDING_COUNT,
            forall|j: int|
                0 <= j < KEYBINDING_COUNT ==> (#[trigger] entries@[j]).0@
                    == KeybindingsConfig::qualified_names()[j] && entries@[j].1@
                    == config.values()[j],
            forall|k: int| 0 <= k < i ==> trim(#[trigger] config.values()[k]).len() > 0,
        decreases KEYBINDING_COUNT - i,
    {
        let (name, value) = entries[i];
        assert(entries@[i as int].1@ == config.values()[i as int]);
        match validate_not_empty(name, value) {
            Ok(()) => {},
            Err(e) => {
                return Err(e);
            },
        }
        i = i + 1;
    }
    Ok(())
}

} // verus!
