use notion_tui::config::{from_sources, ConfigError};

fn key<'a>(keys: &'a [(String, String)], name: &str) -> Option<&'a str> {
    keys.iter().find(|(k, _)| k == name).map(|(_, v)| v.as_str())
}

#[test]
fn wizard_token_used_when_keyring_readback_fails() {
    let cfg = from_sources(Some("wizard-tok".into()), None, None, "/tmp/x.db".into()).unwrap();
    assert_eq!(cfg.token, "wizard-tok");
}

#[test]
fn env_token_beats_file() {
    let cfg = from_sources(
        None,
        Some("env-tok".into()),
        Some("token = \"file-tok\"\npoll_interval_secs = 10"),
        "/tmp/x.db".into(),
    )
    .unwrap();
    assert_eq!(cfg.token, "env-tok");
    assert_eq!(cfg.poll_interval_secs, 10);
}

#[test]
fn file_token_used_when_no_env() {
    let cfg = from_sources(None, None, Some("token = \"file-tok\""), "/tmp/x.db".into()).unwrap();
    assert_eq!(cfg.token, "file-tok");
    assert_eq!(cfg.poll_interval_secs, 30);
}

#[test]
fn missing_token_is_actionable_error() {
    let err = from_sources(None, None, None, "/tmp/x.db".into()).unwrap_err();
    assert!(err.message().contains("NOTION_TOKEN"));
}

#[test]
fn parses_theme_mouse_editor_and_key_overrides() {
    let cfg = from_sources(
        None,
        Some("tok".into()),
        Some("theme = \"light\"\nmouse = false\neditor = \"nano\"\n[keys]\nquit = \"x\"\nsearch = \"f\"\n"),
        "/tmp/x.db".into(),
    )
    .unwrap();
    assert_eq!(cfg.theme, "light");
    assert!(!cfg.mouse);
    assert_eq!(cfg.editor.as_deref(), Some("nano"));
    assert_eq!(key(&cfg.keys, "quit"), Some("x"));
    assert_eq!(cfg.keys.len(), 2);
}

#[test]
fn config_defaults_when_fields_absent() {
    let cfg = from_sources(None, Some("tok".into()), None, "/tmp/x.db".into()).unwrap();
    assert_eq!(cfg.theme, "default");
    assert!(cfg.mouse);
    assert!(cfg.editor.is_none());
    assert!(cfg.keys.is_empty());
}

#[test]
fn keyring_token_beats_env_and_file() {
    let cfg = from_sources(
        Some("ring-tok".into()),
        Some("env-tok".into()),
        Some("token = \"file-tok\""),
        "/tmp/x.db".into(),
    )
    .unwrap();
    assert_eq!(cfg.token, "ring-tok");
}

#[test]
fn default_db_path_unless_the_file_names_one() {
    let cfg = from_sources(None, Some("tok".into()), None, "/tmp/x.db".into()).unwrap();
    assert_eq!(cfg.db_path, "/tmp/x.db");
    let cfg = from_sources(None, Some("tok".into()), Some("db_path = \"/data/n.db\""), "/tmp/x.db".into())
        .unwrap();
    assert_eq!(cfg.db_path, "/data/n.db");
}

#[test]
fn invalid_settings_file_is_an_error_even_with_a_token() {
    let err = from_sources(Some("ring-tok".into()), None, Some("token = "), "/tmp/x.db".into()).unwrap_err();
    assert!(matches!(err, ConfigError::BadFile(_)));
    assert!(!err.message().is_empty());
}

#[test]
fn non_string_key_overrides_are_ignored() {
    let cfg = from_sources(
        None,
        Some("tok".into()),
        Some("[keys]\nquit = \"x\"\nsearch = 3\n"),
        "/tmp/x.db".into(),
    )
    .unwrap();
    assert_eq!(cfg.keys, vec![("quit".to_string(), "x".to_string())]);
}

// ---------------------------------------------------------------------------
// Saving the token

use notion_tui::config::{keyring_holds, token_file_text};
use notion_tui::editor::editor_command;

#[test]
fn token_is_appended_to_a_file_without_one() {
    assert_eq!(token_file_text("", "tok-123"), "token = \"tok-123\"\n");
    assert_eq!(token_file_text("theme = \"light\"\n", "tok-123"), "theme = \"light\"\ntoken = \"tok-123\"\n");
}

#[test]
fn existing_token_line_is_replaced_in_place() {
    let before = "theme = \"light\"\n  token = \"old\"\nmouse = false";
    assert_eq!(token_file_text(before, "new"), "theme = \"light\"\ntoken = \"new\"\nmouse = false\n");
}

#[test]
fn keyring_is_trusted_only_when_the_token_reads_back() {
    assert!(keyring_holds(true, &Some("tok".to_string()), "tok"));
    assert!(!keyring_holds(true, &None, "tok"));
    assert!(!keyring_holds(true, &Some("other".to_string()), "tok"));
    assert!(!keyring_holds(false, &Some("tok".to_string()), "tok"));
}

#[test]
fn editor_command_prefers_override_then_env_then_vi() {
    assert_eq!(editor_command(Some("nano"), Some("emacs".into())), "nano");
    assert_eq!(editor_command(None, Some("emacs".into())), "emacs");
    assert_eq!(editor_command(None, None), "vi");
}
