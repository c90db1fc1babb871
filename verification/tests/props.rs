use notion_tui::keys::{KeyCode, KeyEvent};
use notion_tui::ui::props::{validate_input, Editor, PropField, PropsAction, PropsState};

fn field_with_options(prop_type: &str, value_text: &str, options: &[&str]) -> PropField {
    PropField {
        name: "Status".into(),
        prop_type: prop_type.into(),
        value_text: value_text.into(),
        options: options.iter().map(|s| s.to_string()).collect(),
    }
}

#[test]
fn enter_on_option_field_opens_select_preselected_on_current_value() {
    let mut state =
        PropsState::new("r1".into(), vec![field_with_options("status", "Doing", &["Todo", "Doing", "Done"])]);
    state.on_key(KeyEvent::from(KeyCode::Enter));
    match state.editor {
        Some(Editor::Select { ref options, cursor }) => {
            assert_eq!(options, &vec!["(clear)", "Todo", "Doing", "Done"]);
            assert_eq!(cursor, 2);
        }
        _ => panic!("expected a Select editor"),
    }
}

#[test]
fn select_editor_enter_commits_the_highlighted_option() {
    let mut state =
        PropsState::new("r1".into(), vec![field_with_options("status", "Doing", &["Todo", "Doing", "Done"])]);
    state.on_key(KeyEvent::from(KeyCode::Enter));
    state.on_key(KeyEvent::from(KeyCode::Char('j'))); // Doing -> Done
    let action = state.on_key(KeyEvent::from(KeyCode::Enter));
    match action {
        PropsAction::Commit { prop_name, prop_type, text } => {
            assert_eq!(prop_name, "Status");
            assert_eq!(prop_type, "status");
            assert_eq!(text, "Done");
        }
        _ => panic!("expected a Commit action"),
    }
    assert!(state.editor.is_none());
}

#[test]
fn select_editor_clear_entry_commits_empty_text() {
    let mut state =
        PropsState::new("r1".into(), vec![field_with_options("status", "Doing", &["Todo", "Doing", "Done"])]);
    state.on_key(KeyEvent::from(KeyCode::Enter));
    state.on_key(KeyEvent::from(KeyCode::Char('k')));
    state.on_key(KeyEvent::from(KeyCode::Char('k'))); // cursor 2 -> 1 -> 0 == (clear)
    let action = state.on_key(KeyEvent::from(KeyCode::Enter));
    match action {
        PropsAction::Commit { text, .. } => assert_eq!(text, ""),
        _ => panic!("expected a Commit action"),
    }
}

#[test]
fn multi_select_space_toggles_then_enter_commits_joined_set() {
    let mut state = PropsState::new(
        "r1".into(),
        vec![field_with_options("multi_select", "bug", &["bug", "infra", "urgent"])],
    );
    state.on_key(KeyEvent::from(KeyCode::Enter));
    state.on_key(KeyEvent::from(KeyCode::Char('j')));
    state.on_key(KeyEvent::from(KeyCode::Char('j')));
    state.on_key(KeyEvent::from(KeyCode::Char(' '))); // toggle "urgent" on
    let action = state.on_key(KeyEvent::from(KeyCode::Enter));
    match action {
        PropsAction::Commit { text, .. } => assert_eq!(text, "bug, urgent"),
        _ => panic!("expected a Commit action"),
    }
}

#[test]
fn invalid_number_keeps_editor_open_with_error_then_clears_on_keystroke() {
    let mut state = PropsState::new(
        "r1".into(),
        vec![PropField { name: "Age".into(), prop_type: "number".into(), value_text: "".into(), options: vec![] }],
    );
    state.on_key(KeyEvent::from(KeyCode::Enter));
    for c in "abc".chars() {
        state.on_key(KeyEvent::from(KeyCode::Char(c)));
    }
    let action = state.on_key(KeyEvent::from(KeyCode::Enter));
    assert!(matches!(action, PropsAction::Noop));
    match &state.editor {
        Some(Editor::Text { error: Some(_), .. }) => {}
        _ => panic!("expected a Text editor with an error set"),
    }
    state.on_key(KeyEvent::from(KeyCode::Char('1')));
    match &state.editor {
        Some(Editor::Text { error: None, .. }) => {}
        _ => panic!("error should clear on the next keystroke"),
    }
}

#[test]
fn option_type_without_defined_options_falls_back_to_text_editor() {
    let mut state = PropsState::new(
        "r1".into(),
        vec![PropField { name: "Priority".into(), prop_type: "select".into(), value_text: "".into(), options: vec![] }],
    );
    state.on_key(KeyEvent::from(KeyCode::Enter));
    assert!(matches!(state.editor, Some(Editor::Text { .. })));
}

#[test]
fn checkbox_enter_commits_the_toggled_value_without_an_editor() {
    let mut state = PropsState::new(
        "r1".into(),
        vec![PropField { name: "Done".into(), prop_type: "checkbox".into(), value_text: "☑".into(), options: vec![] }],
    );
    match state.on_key(KeyEvent::from(KeyCode::Enter)) {
        PropsAction::Commit { prop_name, text, .. } => {
            assert_eq!(prop_name, "Done");
            assert_eq!(text, "false");
        }
        _ => panic!("expected a Commit action"),
    }
    assert!(state.editor.is_none());
}

#[test]
fn esc_without_editor_closes_and_cursor_clamps() {
    let mut state = PropsState::new(
        "r1".into(),
        vec![field_with_options("title", "a", &[]), field_with_options("title", "b", &[])],
    );
    state.on_key(KeyEvent::from(KeyCode::Down));
    state.on_key(KeyEvent::from(KeyCode::Down));
    assert_eq!(state.cursor, 1);
    state.on_key(KeyEvent::from(KeyCode::Up));
    state.on_key(KeyEvent::from(KeyCode::Up));
    assert_eq!(state.cursor, 0);
    assert!(matches!(state.on_key(KeyEvent::from(KeyCode::Esc)), PropsAction::Close));
}

#[test]
fn text_editor_backspace_and_commit() {
    let mut state = PropsState::new(
        "r1".into(),
        vec![PropField { name: "Name".into(), prop_type: "title".into(), value_text: "ab".into(), options: vec![] }],
    );
    state.on_key(KeyEvent::from(KeyCode::Enter));
    state.on_key(KeyEvent::from(KeyCode::Backspace));
    state.on_key(KeyEvent::from(KeyCode::Char('z')));
    match state.on_key(KeyEvent::from(KeyCode::Enter)) {
        PropsAction::Commit { text, .. } => assert_eq!(text, "az"),
        _ => panic!("expected a Commit action"),
    }
}

#[test]
fn validate_input_empty_always_ok() {
    for t in ["number", "date", "url", "email", "phone_number", "title"] {
        assert!(validate_input(t, "").is_ok(), "{t} should accept empty");
    }
}

#[test]
fn validate_input_number() {
    assert!(validate_input("number", "42").is_ok());
    assert!(validate_input("number", "3.5").is_ok());
    assert!(validate_input("number", "abc").is_err());
}

#[test]
fn validate_input_date() {
    assert!(validate_input("date", "2026-07-08").is_ok());
    assert!(validate_input("date", "2026-13-01").is_err());
    assert!(validate_input("date", "2026-02-30").is_err());
    assert!(validate_input("date", "2024-02-29").is_ok());
    assert!(validate_input("date", "not-a-date").is_err());
}

#[test]
fn validate_input_url() {
    assert!(validate_input("url", "https://example.com").is_ok());
    assert!(validate_input("url", "example.com").is_err());
}

#[test]
fn validate_input_email() {
    assert!(validate_input("email", "a@b.com").is_ok());
    assert!(validate_input("email", "not-an-email").is_err());
    assert!(validate_input("email", "a@b").is_err());
}

#[test]
fn validate_input_phone_number() {
    assert!(validate_input("phone_number", "+1 (555) 123-4567").is_ok());
    assert!(validate_input("phone_number", "call me").is_err());
}

#[test]
fn validate_input_number_accepts_float_forms_and_reports_message() {
    assert!(validate_input("number", "-1e5").is_ok());
    assert!(validate_input("number", "inf").is_ok());
    assert!(validate_input("number", ".5").is_ok());
    assert_eq!(validate_input("number", "1.2.3"), Err("not a number".to_string()));
    assert_eq!(
        validate_input("date", "2023-02-29"),
        Err("not a valid date (expected YYYY-MM-DD)".to_string())
    );
}

// ---------------------------------------------------------------------------
// Building fields and property values

use notion_tui::json::Json;
use notion_tui::records::RowRec;
use notion_tui::ui::props::{build_fields, build_property_value};

fn s(t: &str) -> Json {
    Json::Str(t.to_string())
}

fn obj(entries: Vec<(&str, Json)>) -> Json {
    let mut e: Vec<(String, Json)> = entries.into_iter().map(|(k, v)| (k.to_string(), v)).collect();
    e.sort_by(|a, b| a.0.cmp(&b.0));
    Json::Object(e)
}

fn get<'a>(j: &'a Json, key: &str) -> &'a Json {
    match j {
        Json::Object(e) => &e.iter().find(|(k, _)| k == key).unwrap().1,
        _ => panic!("not an object"),
    }
}

fn row(properties: Json) -> RowRec {
    RowRec { id: "r1".into(), data_source_id: "ds".into(), properties, last_edited_time: "t".into(), archived: false }
}

fn ship_it_row() -> RowRec {
    row(obj(vec![
        ("Name", obj(vec![("type", s("title")), ("title", Json::Array(vec![obj(vec![("plain_text", s("Ship it"))])]))])),
        ("Status", obj(vec![("type", s("status")), ("status", obj(vec![("name", s("Doing"))]))])),
    ]))
}

#[test]
fn build_fields_populates_options_for_status() {
    let options = Json::Array(vec![obj(vec![("name", s("Todo"))]), obj(vec![("name", s("Doing"))]), obj(vec![("name", s("Done"))])]);
    let schema = obj(vec![
        ("Name", obj(vec![("type", s("title"))])),
        ("Status", obj(vec![("type", s("status")), ("status", obj(vec![("options", options)]))])),
    ]);
    let fields = build_fields(&schema, &ship_it_row());
    let status = fields.iter().find(|f| f.name == "Status").unwrap();
    assert_eq!(status.options, vec!["Todo", "Doing", "Done"]);
    let name = fields.iter().find(|f| f.name == "Name").unwrap();
    assert!(name.options.is_empty());
}

#[test]
fn build_property_value_variants() {
    assert!(matches!(get(&build_property_value("checkbox", "true", None), "checkbox"), Json::Bool(true)));
    let select = build_property_value("select", "High", None);
    assert!(matches!(get(get(&select, "select"), "name"), Json::Str(n) if n == "High"));
    let number = build_property_value("number", "42", Some("42".into()));
    match get(&number, "number") {
        Json::Number(n) => assert_eq!(n.parse::<f64>().unwrap(), 42.0),
        _ => panic!("expected a number"),
    }
}

#[test]
fn build_fields_derives_from_schema_json_not_a_table_view() {
    let schema = obj(vec![
        ("Name", obj(vec![("type", s("title"))])),
        ("Status", obj(vec![("type", s("status"))])),
    ]);
    let fields = build_fields(&schema, &ship_it_row());
    assert_eq!(fields[0].name, "Name");
    assert_eq!(fields[0].value_text, "Ship it");
    let status = fields.iter().find(|f| f.name == "Status").unwrap();
    assert_eq!(status.value_text, "Doing");
}

#[test]
fn build_property_value_for_text_and_empty_select() {
    let title = build_property_value("title", "Hello", None);
    match get(&title, "title") {
        Json::Array(runs) => {
            assert_eq!(runs.len(), 1);
            assert!(matches!(get(get(&runs[0], "text"), "content"), Json::Str(c) if c == "Hello"));
        }
        _ => panic!("expected rich text runs"),
    }
    assert!(matches!(get(&build_property_value("select", "", None), "select"), Json::Null));
    assert!(matches!(get(&build_property_value("number", "abc", None), "number"), Json::Null));
}

#[test]
fn dates_take_digits_only() {
    assert!(validate_input("date", "2026-+1-+5").is_err());
    assert!(validate_input("date", "+026-01-05").is_err());
    assert!(validate_input("date", "2026-01-05").is_ok());
}
