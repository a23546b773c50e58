//! User-facing configuration: the settings shape and its defaults.

use vstd::prelude::*;

verus! {

/// Display-related settings.
#[derive(Debug, Clone, Copy, PartialEq, Eq, Structural)]
pub struct DisplaySettings {
    /// Enable terminal colors.
    pub color: bool,
    /// Use unicode box-drawing characters.
    pub unicode: bool,
}

/// Gameplay-related settings.
#[derive(Debug, Clone, Copy, PartialEq, Eq, Structural)]
pub struct GameplaySettings {
    /// Default days of history to use.
    pub default_days: u32,
    /// Automatically pick up items when walking over them.
    pub auto_pickup: bool,
    /// Confirm before attacking.
    pub confirm_attacks: bool,
}

/// Custom keybindings.
#[derive(Debug, Clone)]
pub struct Keybinds {
    pub move_up: String,
    pub move_down: String,
    pub move_left: String,
    pub move_right: String,
    pub attack: String,
    pub inventory: String,
    pub wait: String,
    pub help: String,
    pub quit: String,
}

/// Complete application settings.
#[derive(Debug, Clone)]
pub struct Settings {
    pub display: DisplaySettings,
    pub gameplay: GameplaySettings,
    pub keybinds: Keybinds,
}

impl Default for DisplaySettings {
    /// Colors and unicode start enabled.
    fn default() -> (r: Self)
        ensures
            r == (DisplaySettings { color: true, unicode: true }),
    {
        DisplaySettings { color: true, unicode: true }
    }
}

impl Default for GameplaySettings {
    /// 30 days of history, auto pickup on, attack confirmation off.
    fn default() -> (r: Self)
        ensures
            r == (GameplaySettings { default_days: 30, auto_pickup: true, confirm_attacks: false }),
    {
        GameplaySettings { default_days: 30, auto_pickup: true, confirm_attacks: false }
    }
}

impl Default for Keybinds {
    /// The vi-style movement keys, with single-letter commands.
    fn default() -> (r: Self)
        ensures
            r.move_up@ == "k"@,
            r.move_down@ == "j"@,
            r.move_left@ == "h"@,
            r.move_right@ == "l"@,
            r.attack@ == "a"@,
            r.inventory@ == "i"@,
            r.wait@ == "."@,
            r.help@ == "?"@,
            r.quit@ == "q"@,
    {
        Keybinds {
            move_up: String::from_str("k"),
            move_down: String::from_str("j"),
            move_left: String::from_str("h"),
            move_right: String::from_str("l"),
            attack: String::from_str("a"),
            inventory: String::from_str("i"),
            wait: String::from_str("."),
            help: String::from_str("?"),
            quit: String::from_str("q"),
        }
    }
}

impl Default for Settings {
    /// The default of every settings group.
    fn default() -> (r: Self)
        ensures
            r.display == (DisplaySettings { color: true, unicode: true }),
            r.gameplay == (GameplaySettings {
                default_days: 30,
                auto_pickup: true,
                confirm_attacks: false,
            }),
            r.keybinds.move_up@ == "k"@,
            r.keybinds.quit@ == "q"@,
    {
        default_settings()
    }
}

/// Get the default settings.
pub fn default_settings() -> (r: Settings)
    ensures
        r.display == (DisplaySettings { color: true, unicode: true }),
        r.gameplay == (GameplaySettings {
            default_days: 30,
            auto_pickup: true,
            confirm_attacks: false,
        }),
        r.keybinds.move_up@ == "k"@,
        r.keybinds.move_down@ == "j"@,
        r.keybinds.move_left@ == "h"@,
        r.keybinds.move_right@ == "l"@,
        r.keybinds.attack@ == "a"@,
        r.keybinds.inventory@ == "i"@,
        r.keybinds.wait@ == "."@,
        r.keybinds.help@ == "?"@,
        r.keybinds.quit@ == "q"@,
{
    Settings {
        display: DisplaySettings::default(),
        gameplay: GameplaySettings::default(),
        keybinds: Keybinds::default(),
    }
}

} // verus!
