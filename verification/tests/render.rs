use notion_tui::json::Json;
use notion_tui::markdown::render::{blocks_to_markdown, is_expressible};
use notion_tui::records::BlockRec;

fn rec(id: &str, parent: Option<&str>, ord: i64, ty: &str, text: &str, payload: Json, has_children: bool) -> BlockRec {
    BlockRec {
        id: id.into(),
        page_id: "p".into(),
        parent_block_id: parent.map(Into::into),
        ordinal: ord,
        block_type: ty.into(),
        payload,
        plain_text: text.into(),
        has_children,
    }
}

fn empty() -> Json {
    Json::Object(vec![])
}

#[test]
fn renders_headings_todos_and_lists() {
    let blocks = vec![
        rec("b1", None, 0, "heading_1", "Title", empty(), false),
        rec("b2", None, 1, "to_do", "Buy milk", Json::Object(vec![("checked".into(), Json::Bool(false))]), false),
        rec("b3", None, 2, "bulleted_list_item", "item", empty(), false),
    ];
    let (md, units) = blocks_to_markdown(&blocks);
    assert_eq!(md, "# Title\n- [ ] Buy milk\n- item");
    assert_eq!(units.len(), 3);
    assert_eq!(units[0].id, "b1");
}

#[test]
fn protected_block_emits_marker_and_skips_children() {
    let blocks = vec![
        rec("t1", None, 0, "toggle", "More", empty(), true),
        rec("c1", Some("t1"), 0, "paragraph", "hidden", empty(), false),
    ];
    let (md, units) = blocks_to_markdown(&blocks);
    assert_eq!(units.len(), 1);
    assert!(units[0].protected);
    assert_eq!(md, "<!--notion:block:t1-->");
}

#[test]
fn nested_expressible_blocks_indent_two_spaces_per_depth() {
    let blocks = vec![
        rec("p1", None, 0, "bulleted_list_item", "parent", empty(), true),
        rec("c1", Some("p1"), 0, "bulleted_list_item", "child", empty(), false),
    ];
    let (md, _) = blocks_to_markdown(&blocks);
    assert_eq!(md, "- parent\n  - child");
}

#[test]
fn code_block_is_fenced_with_language() {
    let blocks = vec![rec("b1", None, 0, "code", "let x = 1;", Json::Object(vec![("language".into(), Json::Str("rust".into()))]), false)];
    let (md, _) = blocks_to_markdown(&blocks);
    assert_eq!(md, "```rust\nlet x = 1;\n```");
}

#[test]
fn checked_todo_quote_divider_and_numbered() {
    let blocks = vec![
        rec("a", None, 0, "to_do", "done", Json::Object(vec![("checked".into(), Json::Bool(true))]), false),
        rec("b", None, 1, "quote", "q", empty(), false),
        rec("c", None, 2, "divider", "", empty(), false),
        rec("d", None, 3, "numbered_list_item", "n", empty(), false),
    ];
    let (md, _) = blocks_to_markdown(&blocks);
    assert_eq!(md, "- [x] done\n> q\n---\n1. n");
}

#[test]
fn expressible_types() {
    assert!(is_expressible("paragraph"));
    assert!(is_expressible("code"));
    assert!(!is_expressible("toggle"));
    assert!(!is_expressible("image"));
}
