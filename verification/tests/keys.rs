use powderman::json::{Json, Number};
use powderman::keymap::{chord_action, default_keymap, pretty_chord};

#[test]
fn mod_is_ctrl_off_a_mac_and_glyphs_on_one() {
    assert_eq!(pretty_chord("Mod+Shift+Z", false), "Ctrl+Shift+Z");
    assert_eq!(pretty_chord("Mod+Shift+Z", true), "\u{2318}\u{21e7}Z");
    assert_eq!(pretty_chord("Ctrl+Alt+K", true), "\u{2303}\u{2325}K");
    assert_eq!(pretty_chord("F3", true), "F3");
    assert_eq!(pretty_chord("Alt+PageUp", false), "Alt+PageUp");
}

#[test]
fn the_default_keymap_binds_the_workbench_chords() {
    let keys = default_keymap();
    assert_eq!(keys.len(), 12);
    let (action, params) = chord_action(&keys, "Alt+PageDown").expect("bound");
    assert_eq!(action, "workspace.cycle");
    assert!(matches!(params.get("delta"), Some(Json::Num(Number::PosInt(1)))));
    let (back, params) = chord_action(&keys, "Alt+PageUp").expect("bound");
    assert_eq!(back, "workspace.cycle");
    assert!(matches!(params.get("delta"), Some(Json::Num(Number::NegInt(-1)))));
    let (undo, params) = chord_action(&keys, "Mod+Z").expect("bound");
    assert_eq!(undo, "undo");
    assert!(matches!(params, Json::Null));
    assert!(chord_action(&keys, "Mod+Q").is_none());
}

#[test]
fn every_default_chord_is_bound_once() {
    let keys = default_keymap();
    let mut chords: Vec<&str> = keys.iter().map(|b| b.chord.as_str()).collect();
    let n = chords.len();
    chords.sort_unstable();
    chords.dedup();
    assert_eq!(chords.len(), n);
    for b in &keys {
        assert!(!b.description.is_empty(), "{} has no description", b.chord);
    }
}
