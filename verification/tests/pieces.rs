use notion_tui::app::{merge_document, merged_text, summarize_applied};
use notion_tui::keys::KeyCode;
use notion_tui::markdown::Applied;
use notion_tui::ui::help::{centered_rect, key_label};
use notion_tui::ui::Area;

fn applied(inserted: u32, updated: u32, deleted: u32, reordered: u32) -> Applied {
    Applied { inserted, updated, deleted, reordered, protected_missing: vec![] }
}

#[test]
fn summary_lists_each_kind_of_change_in_order() {
    assert_eq!(summarize_applied(&applied(0, 0, 0, 0)), "no changes");
    assert_eq!(summarize_applied(&applied(2, 1, 0, 0)), "edited: 1 updated · 2 added");
    assert_eq!(summarize_applied(&applied(1, 0, 3, 2)), "edited: 1 added · 3 deleted · 2 moved");
}

#[test]
fn key_labels_name_space_chars_and_special_keys() {
    assert_eq!(key_label(KeyCode::Char(' ')), "space");
    assert_eq!(key_label(KeyCode::Char('x')), "x");
    assert_eq!(key_label(KeyCode::Char('é')), "é");
    assert_eq!(key_label(KeyCode::Enter), "enter");
    assert_eq!(key_label(KeyCode::Esc), "esc");
    assert_eq!(key_label(KeyCode::Up), "Up");
}

#[test]
fn popups_are_centred_and_shrunk_to_fit() {
    let area = Area { x: 0, y: 0, width: 100, height: 40 };
    assert_eq!(centered_rect(60, 20, area), Area { x: 20, y: 10, width: 60, height: 20 });
    let small = Area { x: 5, y: 3, width: 30, height: 10 };
    assert_eq!(centered_rect(60, 20, small), Area { x: 5, y: 3, width: 30, height: 10 });
    assert_eq!(centered_rect(11, 4, small), Area { x: 14, y: 6, width: 11, height: 4 });
}

#[test]
fn merge_document_shows_both_versions_between_markers() {
    let doc = merge_document("local edit", "remote edit");
    assert_eq!(doc, "<<<<<<< local\nlocal edit\n=======\nremote edit\n>>>>>>> remote\n");
}

#[test]
fn merged_text_drops_trailing_newlines_only() {
    assert_eq!(merged_text("merged result\n\n"), "merged result");
    assert_eq!(merged_text("a\nb"), "a\nb");
    assert_eq!(merged_text("\n"), "");
}

// ---------------------------------------------------------------------------
// Empty panes

use notion_tui::json::Json;
use notion_tui::records::{DataSourceRec, PageRec};
use notion_tui::ui::comments::CommentsState;
use notion_tui::ui::hints::{comments_hint, page_hint, queue_hint, search_hint, sidebar_hint, table_hint};
use notion_tui::ui::page::PageView;
use notion_tui::ui::queue::QueueView;
use notion_tui::ui::search::SearchState;
use notion_tui::ui::sidebar::SidebarState;
use notion_tui::ui::table::{FilterState, TableView};
use notion_tui::app::App;
use notion_tui::keys::KeyEvent;

fn empty_page() -> PageRec {
    PageRec {
        id: "p1".into(),
        parent_type: "workspace".into(),
        parent_id: None,
        title: "Empty".into(),
        icon: None,
        archived: false,
        last_edited_time: "t".into(),
    }
}

#[test]
fn empty_sidebar_hints_first_sync() {
    let app = App::new();
    assert!(sidebar_hint(&app.sidebar).unwrap().contains("first sync in progress…"));
}

#[test]
fn empty_page_hints_add_block() {
    let v = PageView::new(empty_page(), vec![]);
    assert!(page_hint(&v).unwrap().contains("empty page — press a to add a block"));
}

#[test]
fn empty_table_hints_new_row() {
    let schema = Json::Object(vec![("Name".into(), Json::Object(vec![("type".into(), Json::Str("title".into()))]))]);
    let ds = DataSourceRec {
        id: "ds".into(),
        database_id: "db".into(),
        title: "Tasks".into(),
        schema_json: schema,
        last_edited_time: "t".into(),
    };
    let mut v = TableView::new(ds, vec![]);
    assert!(table_hint(&v).unwrap().contains("no rows — press o to add one"));
    v.filter = Some(FilterState { col: None, query: "x".into() });
    assert_eq!(table_hint(&v), Some("no rows — press o to add one"));
}

#[test]
fn search_with_query_and_no_hits_says_no_results() {
    let mut s = SearchState::new();
    s.on_key(KeyEvent::from(KeyCode::Char('z')));
    assert!(search_hint(&s).unwrap().contains("no results"));
}

#[test]
fn search_with_empty_query_stays_quiet() {
    assert_eq!(search_hint(&SearchState::new()), None);
}

#[test]
fn empty_comments_hint_pressing_n() {
    let c = CommentsState { parent_id: "p1".into(), parent_kind: "page".into(), items: vec![], cursor: 0 };
    assert!(comments_hint(&c).unwrap().contains("no comments yet — press n"));
}

#[test]
fn empty_queue_explains_itself() {
    assert!(queue_hint(&QueueView::new(vec![], vec![])).unwrap().contains("queue is empty"));
}

#[test]
fn sync_now_without_a_running_sync_reports_unavailable() {
    let mut app = App::new();
    app.request_sync_now(false);
    assert_eq!(app.notice.as_deref(), Some("sync not available"));
    app.request_sync_now(true);
    assert_eq!(app.notice.as_deref(), Some("sync requested"));
}
