//! Tests for the settings defaults.

use penumbra::config::{default_settings, Keybinds, Settings};

#[test]
fn default_settings_values() {
    let s = default_settings();
    assert!(s.display.color);
    assert!(s.display.unicode);
    assert_eq!(s.gameplay.default_days, 30);
    assert!(s.gameplay.auto_pickup);
    assert!(!s.gameplay.confirm_attacks);
    assert_eq!(s.keybinds.move_up, "k");
    assert_eq!(s.keybinds.move_down, "j");
    assert_eq!(s.keybinds.move_left, "h");
    assert_eq!(s.keybinds.move_right, "l");
    assert_eq!(s.keybinds.attack, "a");
    assert_eq!(s.keybinds.inventory, "i");
    assert_eq!(s.keybinds.wait, ".");
    assert_eq!(s.keybinds.help, "?");
    assert_eq!(s.keybinds.quit, "q");
}

#[test]
fn settings_default_trait_matches() {
    let a = Settings::default();
    let b = default_settings();
    assert_eq!(a.gameplay, b.gameplay);
    assert_eq!(a.display, b.display);
    let k = Keybinds::default();
    assert_eq!(k.quit, "q");
}
