use notion_tui::json::Json;
use notion_tui::markdown::diff::{plan_edit, resync_plan, Applied, BlockRef, Edit};
use notion_tui::markdown::render::blocks_to_markdown;
use notion_tui::records::BlockRec;

fn block(id: &str, ordinal: i64, block_type: &str, text: &str) -> BlockRec {
    BlockRec {
        id: id.into(),
        page_id: "p1".into(),
        parent_block_id: None,
        ordinal,
        block_type: block_type.into(),
        payload: Json::Object(vec![]),
        plain_text: text.into(),
        has_children: false,
    }
}

fn copy(b: &BlockRec) -> BlockRec {
    BlockRec {
        id: b.id.clone(),
        page_id: b.page_id.clone(),
        parent_block_id: b.parent_block_id.clone(),
        ordinal: b.ordinal,
        block_type: b.block_type.clone(),
        payload: Json::Object(vec![]),
        plain_text: b.plain_text.clone(),
        has_children: b.has_children,
    }
}

/// A page's blocks standing in for the local store.
struct Page {
    blocks: Vec<BlockRec>,
    created: usize,
}

impl Page {
    fn new(blocks: Vec<BlockRec>) -> Page {
        Page { blocks, created: 0 }
    }

    fn snapshot(&self) -> Vec<BlockRec> {
        self.blocks.iter().map(copy).collect()
    }

    /// Applies an edited document the way the store does: confirmed protected
    /// deletions, then the planned edits, then the moves.
    fn apply(&mut self, before: &[BlockRec], edited: &str, confirmed: &[&str]) -> Applied {
        let (_md, units) = blocks_to_markdown(&before.iter().map(copy).collect::<Vec<_>>());
        let confirmed: Vec<String> = confirmed.iter().map(|s| s.to_string()).collect();
        self.blocks.retain(|b| !confirmed.contains(&b.id));
        let plan = plan_edit(&units, edited, &confirmed, &self.snapshot());
        let mut inserted_ids: Vec<String> = Vec::new();
        for e in &plan.edits {
            match e {
                Edit::UpdateText { id, text } => {
                    let b = self.blocks.iter_mut().find(|b| &b.id == id).unwrap();
                    b.plain_text = text.clone();
                }
                Edit::Delete { id } => self.blocks.retain(|b| &b.id != id),
                Edit::InsertAfter { after, block_type, text } => {
                    self.created += 1;
                    let id = format!("new{}", self.created);
                    let after_id = after.as_ref().map(|r| match r {
                        BlockRef::Existing(id) => id.clone(),
                        BlockRef::Inserted(k) => inserted_ids[*k].clone(),
                    });
                    let ordinal = match after_id {
                        Some(a) => self.blocks.iter().find(|b| b.id == a).unwrap().ordinal + 1,
                        None => 0,
                    };
                    for b in self.blocks.iter_mut().filter(|b| b.parent_block_id.is_none() && b.ordinal >= ordinal) {
                        b.ordinal += 1;
                    }
                    self.blocks.push(block(&id, ordinal, block_type, text));
                    inserted_ids.push(id);
                }
            }
        }
        let ids: Vec<Option<String>> = plan
            .line_ids
            .iter()
            .map(|r| {
                r.as_ref().map(|r| match r {
                    BlockRef::Existing(id) => id.clone(),
                    BlockRef::Inserted(k) => inserted_ids[*k].clone(),
                })
            })
            .collect();
        let moves = resync_plan(&self.snapshot(), &ids, &plan.lines);
        for m in &moves {
            let b = self.blocks.iter_mut().find(|b| b.id == m.id).unwrap();
            b.parent_block_id = m.parent.clone();
            b.ordinal = m.ordinal;
        }
        plan.applied(moves.len())
    }
}

fn two_paragraphs() -> Vec<BlockRec> {
    vec![block("b1", 0, "paragraph", "First"), block("b2", 1, "paragraph", "Second")]
}

#[test]
fn unchanged_text_produces_no_edits() {
    let blocks = two_paragraphs();
    let mut s = Page::new(two_paragraphs());
    let applied = s.apply(&blocks, "First\nSecond", &[]);
    assert_eq!((applied.inserted, applied.updated, applied.deleted, applied.reordered), (0, 0, 0, 0));
}

#[test]
fn changed_line_updates_the_same_block_id() {
    let blocks = two_paragraphs();
    let mut s = Page::new(two_paragraphs());
    let applied = s.apply(&blocks, "First\nSecond, edited", &[]);
    assert_eq!(applied.updated, 1);
    let b2 = s.blocks.iter().find(|b| b.id == "b2").unwrap();
    assert_eq!(b2.plain_text, "Second, edited");
}

#[test]
fn new_line_inserts_a_block() {
    let blocks = two_paragraphs();
    let mut s = Page::new(two_paragraphs());
    let applied = s.apply(&blocks, "First\nSecond\nThird", &[]);
    assert_eq!(applied.inserted, 1);
    assert_eq!(s.blocks.len(), 3);
}

#[test]
fn removed_line_deletes_the_block() {
    let blocks = two_paragraphs();
    let mut s = Page::new(two_paragraphs());
    let applied = s.apply(&blocks, "First", &[]);
    assert_eq!(applied.deleted, 1);
    assert_eq!(s.blocks.len(), 1);
}

#[test]
fn reordered_unchanged_lines_are_repositioned_not_recreated() {
    let blocks = two_paragraphs();
    let mut s = Page::new(two_paragraphs());
    let applied = s.apply(&blocks, "Second\nFirst", &[]);
    assert_eq!((applied.inserted, applied.updated, applied.deleted), (0, 0, 0));
    assert_eq!(applied.reordered, 2);
    let b2 = s.blocks.iter().find(|b| b.id == "b2").unwrap();
    let b1 = s.blocks.iter().find(|b| b.id == "b1").unwrap();
    assert!(b2.ordinal < b1.ordinal);
}

#[test]
fn protected_block_missing_from_edited_text_is_reported_but_not_deleted_without_confirmation() {
    let blocks = vec![block("tg1", 0, "toggle", "More")];
    let mut s = Page::new(vec![block("tg1", 0, "toggle", "More")]);
    let applied = s.apply(&blocks, "", &[]);
    assert_eq!(applied.protected_missing, vec!["tg1".to_string()]);
    assert_eq!(s.blocks.len(), 1);

    let applied2 = s.apply(&blocks, "", &["tg1"]);
    assert_eq!(applied2.deleted, 1);
    assert!(s.blocks.is_empty());
}

#[test]
fn new_line_between_unchanged_lines_lands_between_them() {
    let blocks = two_paragraphs();
    let mut s = Page::new(two_paragraphs());
    let applied = s.apply(&blocks, "First\nMiddle\nSecond", &[]);
    assert_eq!((applied.inserted, applied.updated, applied.deleted), (1, 0, 0));
    let mut order: Vec<&BlockRec> = s.blocks.iter().collect();
    order.sort_by_key(|b| b.ordinal);
    let texts: Vec<&str> = order.iter().map(|b| b.plain_text.as_str()).collect();
    assert_eq!(texts, vec!["First", "Middle", "Second"]);
}

#[test]
fn saving_the_rendered_markdown_unchanged_changes_nothing() {
    let mut todo = block("t1", 3, "to_do", "Buy milk");
    todo.payload = Json::Object(vec![("checked".into(), Json::Bool(true))]);
    let blocks = vec![
        block("h1", 0, "heading_1", "Title"),
        block("p1", 1, "paragraph", "Some text"),
        block("b1", 2, "bulleted_list_item", "A point"),
        todo,
        block("n1", 4, "numbered_list_item", "First step"),
        block("q1", 5, "quote", "Wise words"),
        block("d1", 6, "divider", ""),
        block("tg", 7, "toggle", "Hidden"),
    ];
    let (md, units) = blocks_to_markdown(&blocks);
    let plan = plan_edit(&units, &md, &vec![], &blocks);
    assert!(plan.edits.is_empty());
    assert_eq!(plan.inserted, 0);
    assert!(plan.protected_missing.is_empty());
}

#[test]
fn unchanged_code_block_and_nested_items_save_as_nothing() {
    let mut child = block("c1", 0, "bulleted_list_item", "Inner point");
    child.parent_block_id = Some("b1".into());
    let mut parent = block("b1", 1, "bulleted_list_item", "Outer point");
    parent.has_children = true;
    let blocks = vec![
        block("k1", 0, "code", "let x = 1;"),
        parent,
        child,
        block("p2", 2, "paragraph", "After"),
    ];
    let (md, _units) = blocks_to_markdown(&blocks);
    assert_eq!(md, "```\nlet x = 1;\n```\n- Outer point\n  - Inner point\nAfter");
    let mut s = Page::new(blocks.iter().map(copy).collect());
    let applied = s.apply(&blocks, &md, &[]);
    assert_eq!((applied.inserted, applied.updated, applied.deleted, applied.reordered), (0, 0, 0, 0));
}

#[test]
fn top_level_parsed_lines_render_back_as_themselves() {
    let md = "12. step\n```rust\nlet a = 1;\n\nlet b = 2;\n```\n- [x] done\n\t tabbed\n## Sub\n```\nunclosed";
    let lines = notion_tui::markdown::parse_markdown(md);
    assert_eq!(lines.len(), 6);
    for l in &lines {
        let text = notion_tui::markdown::diff::render_parsed_text(l);
        let again = notion_tui::markdown::parse_markdown(&text);
        assert_eq!(again.len(), 1, "{text:?}");
        let r = &again[0];
        assert_eq!((r.depth, &r.block_type, &r.text, r.checked, &r.protected_id), (l.depth, &l.block_type, &l.text, l.checked, &l.protected_id));
    }
}

#[test]
fn unchanged_tabbed_text_carriage_returns_and_multi_line_code_save_as_nothing() {
    let mut child = block("c1", 0, "paragraph", "\tindented with a tab");
    child.parent_block_id = Some("t1".into());
    let mut parent = block("t1", 1, "toggle", "Details\r here");
    parent.has_children = true;
    let blocks = vec![
        block("k1", 0, "code", "fn main() {\n    let x = 1;\n\n}"),
        parent,
        child,
        block("p2", 2, "paragraph", "ends with a return\r"),
    ];
    let (md, _units) = blocks_to_markdown(&blocks);
    let mut s = Page::new(blocks.iter().map(copy).collect());
    let applied = s.apply(&blocks, &md, &[]);
    assert_eq!((applied.inserted, applied.updated, applied.deleted, applied.reordered), (0, 0, 0, 0));
}
