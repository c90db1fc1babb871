use notion_tui::json::Json;
use notion_tui::records::{BlockRec, PageRec};
use notion_tui::ui::page::PageView;

fn rec(id: &str, parent: Option<&str>, ord: i64, ty: &str, text: &str, payload: Json) -> BlockRec {
    BlockRec {
        id: id.into(),
        page_id: "p".into(),
        parent_block_id: parent.map(Into::into),
        ordinal: ord,
        block_type: ty.into(),
        payload,
        plain_text: text.into(),
        has_children: false,
    }
}

fn empty() -> Json {
    Json::Object(vec![])
}

fn page() -> PageRec {
    PageRec {
        id: "p".into(),
        parent_type: "workspace".into(),
        parent_id: None,
        title: "T".into(),
        icon: None,
        archived: false,
        last_edited_time: "t".into(),
    }
}

#[test]
fn renders_prefixes_and_numbering() {
    let v = PageView::new(
        page(),
        vec![
            rec("h", None, 0, "heading_1", "Title", empty()),
            rec("t1", None, 1, "to_do", "done thing", Json::Object(vec![("checked".into(), Json::Bool(true))])),
            rec("n1", None, 2, "numbered_list_item", "first", empty()),
            rec("n2", None, 3, "numbered_list_item", "second", empty()),
            rec("d", None, 4, "divider", "", empty()),
        ],
    );
    let texts: Vec<String> = v.lines().iter().map(|l| l.text.clone()).collect();
    assert_eq!(texts[0], "# Title");
    assert_eq!(texts[1], "[x] done thing");
    assert_eq!(texts[2], "1. first");
    assert_eq!(texts[3], "2. second");
    assert!(texts[4].starts_with("────"));
}

#[test]
fn toggle_collapse_hides_children() {
    let mut v = PageView::new(
        page(),
        vec![rec("tg", None, 0, "toggle", "More", empty()), rec("c1", Some("tg"), 0, "paragraph", "hidden", empty())],
    );
    assert_eq!(v.lines().len(), 2);
    assert_eq!(v.lines()[1].indent, 1);
    v.cursor = 0;
    v.toggle_at_cursor();
    assert_eq!(v.lines().len(), 1);
    assert!(v.lines()[0].text.starts_with("▸"));
    v.toggle_at_cursor();
    assert_eq!(v.lines().len(), 2);
}

#[test]
fn child_page_is_a_link() {
    let v = PageView::new(page(), vec![rec("cp", None, 0, "child_page", "Sub page", empty())]);
    assert_eq!(v.lines()[0].link_page_id.as_deref(), Some("cp"));
    assert_eq!(v.lines()[0].text, "→ Sub page");
    assert_eq!(v.link_at_cursor().as_deref(), Some("cp"));
}

#[test]
fn code_block_renders_per_line_with_its_language() {
    let v = PageView::new(
        page(),
        vec![rec("c", None, 0, "code", "let x = 1;\nlet y = 2;", Json::Object(vec![("language".into(), Json::Str("rust".into()))]))],
    );
    let lines = v.lines();
    assert_eq!(lines.len(), 2);
    assert!(lines[0].text.contains("let x = 1;"));
    assert_eq!(lines[1].text, "│ let y = 2;");
    assert_eq!(lines[0].code_language.as_deref(), Some("rust"));
}

#[test]
fn image_block_shows_caption_placeholder() {
    let caption = Json::Array(vec![Json::Object(vec![("plain_text".into(), Json::Str("A chart".into()))])]);
    let v = PageView::new(page(), vec![rec("i1", None, 0, "image", "", Json::Object(vec![("caption".into(), caption)]))]);
    assert_eq!(v.lines()[0].text, "[image: A chart]");
}

#[test]
fn image_block_without_caption_shows_untitled() {
    let v = PageView::new(page(), vec![rec("i1", None, 0, "image", "", empty())]);
    assert_eq!(v.lines()[0].text, "[image: untitled]");
}

#[test]
fn bookmark_block_shows_url_placeholder() {
    let v = PageView::new(
        page(),
        vec![rec("b1", None, 0, "bookmark", "", Json::Object(vec![("url".into(), Json::Str("https://x.y".into()))]))],
    );
    assert_eq!(v.lines()[0].text, "[bookmark: https://x.y]");
}

#[test]
fn table_and_embed_and_other_unsupported_blocks_get_named_placeholders() {
    let v = PageView::new(
        page(),
        vec![
            rec("e1", None, 0, "embed", "", Json::Object(vec![("url".into(), Json::Str("https://e".into()))])),
            rec("t1", None, 1, "table", "", empty()),
        ],
    );
    let texts: Vec<String> = v.lines().iter().map(|l| l.text.clone()).collect();
    assert_eq!(texts, vec!["[embed: https://e]".to_string(), "[table]".to_string()]);
}

#[test]
fn cursor_helpers() {
    let mut v = PageView::new(
        page(),
        vec![rec("t", None, 0, "to_do", "x", empty()), rec("db", None, 1, "child_database", "Tasks", empty())],
    );
    assert_eq!(v.todo_block_at_cursor().as_deref(), Some("t"));
    assert_eq!(v.child_database_id_at_cursor(), None);
    v.move_cursor(5);
    assert_eq!(v.cursor, 1);
    assert_eq!(v.child_database_id_at_cursor().as_deref(), Some("db"));
    assert_eq!(v.block_id_at_cursor().as_deref(), Some("db"));
}
