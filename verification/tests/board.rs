use notion_tui::json::Json;
use notion_tui::records::{DataSourceRec, OpRec, RowRec};
use notion_tui::ui::board::{group_property, BoardView};
use notion_tui::ui::queue::QueueView;

fn s(t: &str) -> Json {
    Json::Str(t.to_string())
}

/// An object whose entries come sorted by key, as a parsed JSON map holds them.
fn obj(entries: Vec<(&str, Json)>) -> Json {
    let mut e: Vec<(String, Json)> = entries.into_iter().map(|(k, v)| (k.to_string(), v)).collect();
    e.sort_by(|a, b| a.0.cmp(&b.0));
    Json::Object(e)
}

fn options(names: &[&str]) -> Json {
    Json::Array(names.iter().map(|n| obj(vec![("name", s(n))])).collect())
}

fn ds() -> DataSourceRec {
    DataSourceRec {
        id: "ds".into(),
        database_id: "db".into(),
        title: "Tasks".into(),
        schema_json: obj(vec![
            ("Name", obj(vec![("type", s("title"))])),
            (
                "Status",
                obj(vec![("type", s("status")), ("status", obj(vec![("options", options(&["Todo", "Doing", "Done"]))]))]),
            ),
        ]),
        last_edited_time: "t".into(),
    }
}

fn row(id: &str, name: &str, status: Option<&str>) -> RowRec {
    let status_val = match status {
        Some(st) => obj(vec![("type", s("status")), ("status", obj(vec![("name", s(st))]))]),
        None => obj(vec![("type", s("status")), ("status", Json::Null)]),
    };
    RowRec {
        id: id.into(),
        data_source_id: "ds".into(),
        properties: obj(vec![
            ("Name", obj(vec![("type", s("title")), ("title", Json::Array(vec![obj(vec![("plain_text", s(name))])]))])),
            ("Status", status_val),
        ]),
        last_edited_time: "t".into(),
        archived: false,
    }
}

#[test]
fn groups_rows_by_status_options_plus_none_column() {
    let v = BoardView::new(ds(), vec![row("r1", "A", Some("Todo")), row("r2", "B", Some("Done")), row("r3", "C", None)]);
    assert_eq!(v.group_prop, "Status");
    assert_eq!(v.columns, vec!["Todo", "Doing", "Done", "(none)"]);
    assert_eq!(v.cards_in(0).len(), 1);
    assert_eq!(v.cards_in(1).len(), 0);
    assert_eq!(v.cards_in(3)[0].id, "r3");
}

#[test]
fn move_card_returns_row_and_target_option() {
    let mut v = BoardView::new(ds(), vec![row("r1", "A", Some("Todo"))]);
    v.col = 0;
    v.card = 0;
    assert_eq!(v.move_card(1), Some(("r1".to_string(), "Doing".to_string())));
    // Moving off either end is a no-op:
    v.col = 3; // (none) column is empty now locally — nothing to move
    assert_eq!(v.move_card(1), None);
}

#[test]
fn no_groupable_property_means_no_board() {
    let plain = DataSourceRec {
        id: "ds".into(),
        database_id: "db".into(),
        title: "T".into(),
        schema_json: obj(vec![("Name", obj(vec![("type", s("title"))]))]),
        last_edited_time: "t".into(),
    };
    assert!(group_property(&plain.schema_json).is_none());
}

#[test]
fn group_property_prefers_status_then_select() {
    let schema = obj(vec![
        ("A", obj(vec![("type", s("select"))])),
        ("B", obj(vec![("type", s("status"))])),
    ]);
    assert_eq!(group_property(&schema), Some(("B".to_string(), "status".to_string())));
    let only_select = obj(vec![("Prio", obj(vec![("type", s("select"))])), ("Z", obj(vec![("type", s("select"))]))]);
    assert_eq!(group_property(&only_select), Some(("Prio".to_string(), "select".to_string())));
}

#[test]
fn board_without_group_has_only_the_none_column() {
    let plain = DataSourceRec {
        id: "ds".into(),
        database_id: "db".into(),
        title: "T".into(),
        schema_json: obj(vec![("Name", obj(vec![("type", s("title"))]))]),
        last_edited_time: "t".into(),
    };
    let v = BoardView::new(plain, vec![row("r1", "A", Some("Todo"))]);
    assert_eq!(v.group_prop, "");
    assert_eq!(v.columns, vec!["(none)"]);
    assert_eq!(v.cards_in(0).len(), 1);
    assert!(v.cards_in(1).is_empty());
}

#[test]
fn moving_into_none_column_clears_the_value() {
    let mut v = BoardView::new(ds(), vec![row("r1", "A", Some("Done"))]);
    v.col = 2;
    assert_eq!(v.move_card(1), Some(("r1".to_string(), String::new())));
    assert_eq!(v.col, 3);
    v.col = 2;
    assert_eq!(v.move_card(-3), None);
    assert_eq!(v.col, 2);
}

#[test]
fn card_and_column_cursors_clamp() {
    let mut v = BoardView::new(ds(), vec![row("r1", "A", Some("Todo")), row("r2", "B", Some("Todo")), row("r3", "C", None)]);
    v.move_cursor_card(5);
    assert_eq!(v.card, 1);
    assert_eq!(v.selected_row_id(), Some("r2".to_string()));
    v.move_cursor_card(-9);
    assert_eq!(v.card, 0);
    v.card = 1;
    v.move_cursor_col(7);
    assert_eq!(v.col, 3);
    assert_eq!(v.card, 0);
    assert_eq!(v.selected_row_id(), Some("r3".to_string()));
    v.move_cursor_col(-1);
    assert_eq!(v.col, 2);
    assert_eq!(v.selected_row_id(), None);
    v.move_cursor_card(1);
    assert_eq!(v.card, 0);
}

#[test]
fn move_card_to_same_column_is_refused() {
    let mut v = BoardView::new(ds(), vec![row("r1", "A", Some("Todo"))]);
    assert_eq!(v.move_card_to(0), None);
    assert_eq!(v.move_card_to(9), None);
    assert_eq!(v.move_card_to(2), Some(("r1".to_string(), "Done".to_string())));
    assert_eq!(v.col, 2);
}

#[test]
fn with_group_uses_the_given_property() {
    let schema = obj(vec![
        ("Prio", obj(vec![("type", s("select")), ("select", obj(vec![("options", options(&["Low", "High"]))]))])),
        (
            "Status",
            obj(vec![("type", s("status")), ("status", obj(vec![("options", options(&["Todo"]))]))]),
        ),
    ]);
    let d = DataSourceRec { id: "ds".into(), database_id: "db".into(), title: "T".into(), schema_json: schema, last_edited_time: "t".into() };
    let v = BoardView::with_group(d, vec![], Some(("Prio".to_string(), "select".to_string())));
    assert_eq!(v.group_prop, "Prio");
    assert_eq!(v.columns, vec!["Low", "High", "(none)"]);
}

fn op(seq: i64) -> OpRec {
    OpRec {
        seq,
        op_type: "update_block".into(),
        target_id: "b".into(),
        payload: Json::Null,
        base_edited_time: None,
        state: "pending".into(),
        error: None,
    }
}

#[test]
fn queue_cursor_clamps_and_selects() {
    let mut q = QueueView::new(vec![op(1), op(2), op(3)], vec!["a".into(), "b".into(), "c".into()]);
    assert_eq!(q.selected().map(|o| o.seq), Some(1));
    q.move_cursor(10);
    assert_eq!(q.cursor, 2);
    assert_eq!(q.selected().map(|o| o.seq), Some(3));
    q.move_cursor(-1);
    assert_eq!(q.selected().map(|o| o.seq), Some(2));
    let mut empty = QueueView::new(vec![], vec![]);
    empty.move_cursor(1);
    assert_eq!(empty.cursor, 0);
    assert!(empty.selected().is_none());
}
