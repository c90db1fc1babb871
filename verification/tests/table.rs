use notion_tui::json::Json;
use notion_tui::records::{DataSourceRec, RowRec};
use notion_tui::ui::table::{
    cell_budgets, cell_text, filter_suffix, header_labels, schema_columns, schema_options, truncate_ellipsis, Column, FilterState,
    TableView,
};

fn s(t: &str) -> Json {
    Json::Str(t.to_string())
}

/// An object whose entries come sorted by key, as a parsed JSON map holds them.
fn obj(entries: Vec<(&str, Json)>) -> Json {
    let mut e: Vec<(String, Json)> = entries.into_iter().map(|(k, v)| (k.to_string(), v)).collect();
    e.sort_by(|a, b| a.0.cmp(&b.0));
    Json::Object(e)
}

fn ty(t: &str) -> Json {
    obj(vec![("type", s(t))])
}

fn ds() -> DataSourceRec {
    DataSourceRec {
        id: "ds".into(),
        database_id: "db".into(),
        title: "Tasks".into(),
        schema_json: obj(vec![("Name", ty("title")), ("Done", ty("checkbox")), ("Prio", ty("select"))]),
        last_edited_time: "t".into(),
    }
}

fn row(id: &str, name: &str, done: bool, prio: &str) -> RowRec {
    RowRec {
        id: id.into(),
        data_source_id: "ds".into(),
        properties: obj(vec![
            ("Name", obj(vec![("type", s("title")), ("title", Json::Array(vec![obj(vec![("plain_text", s(name))])]))])),
            ("Done", obj(vec![("type", s("checkbox")), ("checkbox", Json::Bool(done))])),
            ("Prio", obj(vec![("type", s("select")), ("select", obj(vec![("name", s(prio))]))])),
        ]),
        last_edited_time: "t".into(),
        archived: false,
    }
}

#[test]
fn schema_columns_puts_title_first_then_alphabetical() {
    let cols = schema_columns(&ds().schema_json);
    let names: Vec<&str> = cols.iter().map(|c| c.name.as_str()).collect();
    assert_eq!(names, vec!["Name", "Done", "Prio"]);
    assert_eq!(cols[0].prop_type, "title");
}

#[test]
fn schema_columns_sort_case_insensitively() {
    let schema = obj(vec![("beta", ty("text")), ("Alpha", ty("text")), ("Title", ty("title"))]);
    let names: Vec<String> = schema_columns(&schema).into_iter().map(|c| c.name).collect();
    assert_eq!(names, vec!["Title", "Alpha", "beta"]);
}

#[test]
fn schema_options_reads_defined_options_empty_when_none() {
    let options = Json::Array(vec![obj(vec![("name", s("Todo"))]), obj(vec![("name", s("Doing"))]), obj(vec![("name", s("Done"))])]);
    let schema_json = obj(vec![
        ("Status", obj(vec![("type", s("status")), ("status", obj(vec![("options", options)]))])),
        ("Name", ty("title")),
    ]);
    assert_eq!(schema_options(&schema_json, "Status", "status"), vec!["Todo", "Doing", "Done"]);
    assert_eq!(schema_options(&schema_json, "Name", "title"), Vec::<String>::new());
}

#[test]
fn title_column_first_and_cells_render() {
    let v = TableView::new(ds(), vec![row("r1", "Buy milk", true, "High")]);
    assert_eq!(v.columns[0].name, "Name");
    assert_eq!(v.cell(&v.rows[0], &v.columns[0]), "Buy milk");
    let done_col = v.columns.iter().position(|c| c.name == "Done").unwrap();
    assert_eq!(v.cell(&v.rows[0], &v.columns[done_col]), "☑");
}

#[test]
fn sort_toggles_direction() {
    let mut v = TableView::new(ds(), vec![row("r1", "b task", false, "Low"), row("r2", "a task", false, "High")]);
    v.toggle_sort(0);
    assert_eq!(v.selected_row_id().as_deref(), Some("r2")); // "a task" first
    v.toggle_sort(0);
    assert_eq!(v.selected_row_id().as_deref(), Some("r1")); // descending
}

#[test]
fn sort_on_a_vanished_column_is_dropped() {
    let mut v = TableView::new(ds(), vec![row("r1", "b", false, "Low"), row("r2", "a", false, "High")]);
    v.sort = Some((7, true));
    v.apply_sort();
    assert!(v.sort.is_none());
    assert_eq!(v.rows[0].id, "r1");
}

#[test]
fn column_filter_hides_non_matching_rows() {
    let mut v = TableView::new(ds(), vec![row("r1", "Buy milk", false, "High"), row("r2", "Buy eggs", false, "Low")]);
    v.filter = Some(FilterState { col: Some(2), query: "high".into() }); // Prio column
    let visible: Vec<&str> = v.visible().iter().map(|r| r.id.as_str()).collect();
    assert_eq!(visible, vec!["r1"]);
}

#[test]
fn free_text_filter_matches_any_column() {
    let mut v = TableView::new(ds(), vec![row("r1", "Buy milk", false, "High"), row("r2", "Buy eggs", false, "Low")]);
    v.filter = Some(FilterState { col: None, query: "eggs".into() });
    let visible: Vec<&str> = v.visible().iter().map(|r| r.id.as_str()).collect();
    assert_eq!(visible, vec!["r2"]);
    assert_eq!(v.row_count(), 1);
    assert_eq!(v.rows_iter_position("r2"), Some(0));
    assert_eq!(v.rows_iter_position("r1"), None);
}

#[test]
fn no_filter_shows_every_row() {
    let v = TableView::new(ds(), vec![row("r1", "Buy milk", false, "High")]);
    assert_eq!(v.visible().len(), 1);
}

#[test]
fn move_cursor_clamps_to_shown_rows() {
    let mut v = TableView::new(ds(), vec![row("r1", "a", false, "x"), row("r2", "b", false, "y"), row("r3", "c", false, "z")]);
    v.move_cursor(10);
    assert_eq!(v.cursor, 2);
    v.move_cursor(-1);
    assert_eq!(v.cursor, 1);
    v.move_cursor(-10);
    assert_eq!(v.cursor, 0);
}

#[test]
fn cell_text_variants() {
    assert_eq!(cell_text(&obj(vec![("type", s("number")), ("number", Json::Number("42".into()))])), "42");
    assert_eq!(
        cell_text(&obj(vec![
            ("type", s("multi_select")),
            ("multi_select", Json::Array(vec![obj(vec![("name", s("a"))]), obj(vec![("name", s("b"))])])),
        ])),
        "a, b"
    );
    assert_eq!(cell_text(&obj(vec![("type", s("date")), ("date", obj(vec![("start", s("2026-07-05"))]))])), "2026-07-05");
    assert_eq!(cell_text(&obj(vec![("type", s("checkbox")), ("checkbox", Json::Bool(false))])), "☐");
    assert_eq!(cell_text(&obj(vec![("type", s("people")), ("people", Json::Array(vec![Json::Null, Json::Null]))])), "👤 2");
    assert_eq!(cell_text(&obj(vec![("type", s("number")), ("number", Json::Null)])), "");
    assert_eq!(cell_text(&obj(vec![("type", s("formula"))])), "");
}

#[test]
fn filter_suffix_names_the_column_or_quotes_free_text() {
    let cols = vec![Column { name: "Prio".into(), prop_type: "select".into() }];
    assert_eq!(filter_suffix(&None, &cols), "");
    assert_eq!(filter_suffix(&Some(FilterState { col: Some(0), query: "hi".into() }), &cols), " — filter: Prio~\"hi\"");
    assert_eq!(filter_suffix(&Some(FilterState { col: None, query: "hi".into() }), &cols), " — filter: \"hi\"");
    assert_eq!(filter_suffix(&Some(FilterState { col: Some(3), query: "hi".into() }), &cols), " — filter: \"hi\"");
}

#[test]
fn truncate_ellipsis_is_width_aware_and_grapheme_safe() {
    assert_eq!(truncate_ellipsis("hello", 10), "hello");
    assert_eq!(truncate_ellipsis("hello world", 6), "hello…");
    // CJK chars are 2 columns wide: 日本 = 4 cols, +… = 5.
    assert_eq!(truncate_ellipsis("日本語テスト", 5), "日本…");
    // A budget of 3 can't fit the first 2-wide char plus…: just the char that fits.
    assert_eq!(truncate_ellipsis("日本語", 3), "日…");
}

// ---------------------------------------------------------------------------
// Column layout

use notion_tui::ui::table::{column_constraint, column_widths, column_x_starts, WidthRule};
use notion_tui::ui::Area;

#[test]
fn column_x_starts_matches_column_widths_order() {
    let cols = vec![
        Column { name: "Name".into(), prop_type: "title".into() },
        Column { name: "Done".into(), prop_type: "checkbox".into() },
    ];
    let area = Area { x: 0, y: 0, width: 50, height: 10 };
    let xs = column_x_starts(area, &cols);
    assert_eq!(xs.len(), 2);
    assert!(xs[1] > xs[0], "second column must start after the first");
}

#[test]
fn column_widths_are_type_aware() {
    let cb = Column { name: "Done".into(), prop_type: "checkbox".into() };
    let url = Column { name: "Link".into(), prop_type: "url".into() };
    match column_constraint(&cb, false) {
        WidthRule::Length(n) => assert!(n <= 8, "checkbox must be narrow, got {n}"),
        _ => panic!("expected Length"),
    }
    match column_constraint(&url, false) {
        WidthRule::Length(n) => assert!(n >= 24, "url must be wide, got {n}"),
        _ => panic!("expected Length"),
    }
    assert!(matches!(
        column_constraint(&Column { name: "Name".into(), prop_type: "title".into() }, true),
        WidthRule::Min(20)
    ));
}

#[test]
fn column_widths_give_the_first_column_the_rest() {
    let cols = vec![
        Column { name: "Name".into(), prop_type: "title".into() },
        Column { name: "Done".into(), prop_type: "checkbox".into() },
        Column { name: "Prio".into(), prop_type: "select".into() },
    ];
    let w = column_widths(&cols);
    assert!(matches!(w[0], WidthRule::Min(20)));
    assert!(matches!(w[1], WidthRule::Length(14)));
    assert!(matches!(w[2], WidthRule::Length(14)));
    let xs = column_x_starts(Area { x: 0, y: 0, width: 50, height: 10 }, &cols);
    assert_eq!(xs, vec![1, 21, 35]);
}

#[test]
fn truncation_to_zero_columns_is_empty() {
    assert_eq!(truncate_ellipsis("hello", 0), "");
    assert_eq!(truncate_ellipsis("", 0), "");
    assert_eq!(truncate_ellipsis("hello", 1), "…");
}

fn three_columns() -> Vec<Column> {
    vec![
        Column { name: "Name".into(), prop_type: "title".into() },
        Column { name: "Prio".into(), prop_type: "select".into() },
        Column { name: "Due".into(), prop_type: "date".into() },
    ]
}

#[test]
fn header_marks_the_sorted_column_and_brackets_the_sort_key() {
    let cols = three_columns();
    assert_eq!(header_labels(&cols, Some((1, false)), 0), vec!["[Name]", "Prio ▼", "Due"]);
    assert_eq!(header_labels(&cols, Some((1, true)), 1), vec!["Name", "[Prio ▲]", "Due"]);
    assert_eq!(header_labels(&cols, None, 2), vec!["Name", "Prio", "[Due]"]);
}

#[test]
fn title_column_gets_what_the_fixed_columns_leave() {
    let widths = vec![WidthRule::Min(20), WidthRule::Length(14), WidthRule::Length(10)];
    // 100 - 2 borders - 2 gaps - 24 fixed
    assert_eq!(cell_budgets(100, &widths), Some(vec![72, 14, 10]));
    // narrow: the title column keeps its 20 cells
    assert_eq!(cell_budgets(46, &widths), Some(vec![20, 14, 10]));
    assert_eq!(cell_budgets(0, &widths), Some(vec![20, 14, 10]));
}

#[test]
fn fixed_widths_past_a_u16_give_no_budgets() {
    let widths = vec![WidthRule::Min(20), WidthRule::Length(40000), WidthRule::Length(30000)];
    assert_eq!(cell_budgets(80, &widths), None);
}
