use notion_tui::keymap::{parse_key, Keymap};
use notion_tui::keys::{KeyCode, KeyEvent, KeyModifiers};

fn ov(pairs: &[(&str, &str)]) -> Vec<(String, String)> {
    pairs.iter().map(|(a, k)| (a.to_string(), k.to_string())).collect()
}

#[test]
fn ctrl_chords_never_match() {
    let km = Keymap::new();
    assert!(!km.is("undo", KeyEvent::new(KeyCode::Char('u'), KeyModifiers::control())));
}

#[test]
fn bad_overrides_warn_and_keep_defaults() {
    let o = ov(&[("quit", "ctrl+shift+q"), ("nosuch", "x")]);
    let (km, warnings) = Keymap::with_overrides_checked(&o);
    assert_eq!(warnings.len(), 2, "{warnings:?}");
    assert!(warnings.iter().any(|w| w.contains("nosuch") && w.contains("unknown action")));
    assert!(warnings.iter().any(|w| w.contains("ctrl+shift+q")));
    // the bad override must NOT clobber the default:
    assert!(km.is("quit", KeyEvent::from(KeyCode::Char('q'))));
}

#[test]
fn ctrl_syntax_binds_a_control_chord() {
    let o = ov(&[("undo", "ctrl+z")]);
    let (km, warnings) = Keymap::with_overrides_checked(&o);
    assert!(warnings.is_empty(), "{warnings:?}");
    assert!(km.is("undo", KeyEvent::new(KeyCode::Char('z'), KeyModifiers::control())));
    assert!(!km.is("undo", KeyEvent::from(KeyCode::Char('z')))); // plain z is not the chord
    assert!(!km.is("undo", KeyEvent::from(KeyCode::Char('u')))); // old default replaced
}

#[test]
fn fixed_chords_cannot_be_claimed() {
    for reserved in ["ctrl+d", "ctrl+u", "ctrl+p", "tab"] {
        let o = ov(&[("quit", reserved)]);
        let (km, warnings) = Keymap::with_overrides_checked(&o);
        assert_eq!(warnings.len(), 1, "{reserved} must warn");
        assert!(warnings[0].contains("fixed"), "{}", warnings[0]);
        assert!(km.is("quit", KeyEvent::from(KeyCode::Char('q'))), "default must survive");
    }
}

#[test]
fn plain_bindings_still_reject_ctrl_chords() {
    let km = Keymap::new();
    assert!(!km.is("down", KeyEvent::new(KeyCode::Char('j'), KeyModifiers::control())));
}

#[test]
fn warning_texts_are_exact() {
    let o = ov(&[("nosuch", "x"), ("quit", "tab"), ("quit", "??")]);
    let (_, warnings) = Keymap::with_overrides_checked(&o);
    assert_eq!(
        warnings,
        vec![
            "keys.nosuch: unknown action".to_string(),
            "keys.quit: \"tab\" is a fixed key and can't be rebound".to_string(),
            "keys.quit: can't parse key \"??\"".to_string(),
        ]
    );
}

#[test]
fn parse_key_forms() {
    assert_eq!(parse_key("ctrl+Z"), Some((KeyCode::Char('z'), KeyModifiers::control())));
    assert_eq!(parse_key("esc"), Some((KeyCode::Esc, KeyModifiers::none())));
    assert_eq!(parse_key("space"), Some((KeyCode::Char(' '), KeyModifiers::none())));
    assert_eq!(parse_key("x"), Some((KeyCode::Char('x'), KeyModifiers::none())));
    assert_eq!(parse_key("xy"), None);
    assert_eq!(parse_key("ctrl+"), None);
}

#[test]
fn alt_never_matches_and_shift_rides_along() {
    let km = Keymap::new();
    assert!(!km.is("quit", KeyEvent::new(KeyCode::Char('q'), KeyModifiers::alt())));
    assert!(km.is("queue", KeyEvent::new(KeyCode::Char('Q'), KeyModifiers::shift())));
    assert_eq!(km.key_for("quit"), Some((KeyCode::Char('q'), KeyModifiers::none())));
    assert_eq!(km.key_for("nosuch"), None);
    assert_eq!(Keymap::actions().len(), 29);
    assert_eq!(Keymap::actions()[0], ("quit", "quit the app"));
}
