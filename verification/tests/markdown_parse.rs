use notion_tui::markdown::{parse_markdown, parse_markdown_checked, ParseWarning};

#[test]
fn parses_headings_todo_and_bullets() {
    let lines = parse_markdown("# Title\n- [x] done\n- [ ] pending\n- bullet");
    assert_eq!(lines[0].block_type, "heading_1");
    assert_eq!(lines[0].text, "Title");
    assert_eq!(lines[1].block_type, "to_do");
    assert_eq!(lines[1].checked, Some(true));
    assert_eq!(lines[2].checked, Some(false));
    assert_eq!(lines[3].block_type, "bulleted_list_item");
    assert_eq!(lines[3].text, "bullet");
}

#[test]
fn parses_numbered_list_regardless_of_number() {
    let lines = parse_markdown("1. first\n7. second");
    assert_eq!(lines[0].block_type, "numbered_list_item");
    assert_eq!(lines[0].text, "first");
    assert_eq!(lines[1].text, "second");
}

#[test]
fn indentation_maps_to_depth() {
    let lines = parse_markdown("- parent\n  - child");
    assert_eq!(lines[0].depth, 0);
    assert_eq!(lines[1].depth, 1);
}

#[test]
fn protected_marker_is_recognized() {
    let lines = parse_markdown("<!--notion:block:t1-->\n- after");
    assert_eq!(lines[0].protected_id.as_deref(), Some("t1"));
    assert_eq!(lines[1].protected_id, None);
}

#[test]
fn fenced_code_block_is_one_line_with_full_body() {
    let lines = parse_markdown("```rust\nlet x = 1;\nlet y = 2;\n```\n- after");
    assert_eq!(lines[0].block_type, "code");
    assert_eq!(lines[0].text, "let x = 1;\nlet y = 2;");
    assert_eq!(lines[1].block_type, "bulleted_list_item");
}

#[test]
fn detects_unclosed_fence_with_line_number() {
    let md = "hello\n```rust\nlet x = 1;";
    let (lines, warnings) = parse_markdown_checked(md);
    assert_eq!(lines.len(), 2); // paragraph + code block
    assert!(matches!(warnings[..], [ParseWarning::UnclosedFence { line: 2 }]));
}

#[test]
fn closed_fence_produces_no_warning() {
    let (_, warnings) = parse_markdown_checked("```\ncode\n```\nafter");
    assert!(warnings.is_empty());
}

#[test]
fn blank_lines_are_skipped_and_crlf_is_stripped() {
    let lines = parse_markdown("# A\r\n\r\n   \n> quote\r\n---");
    assert_eq!(lines.len(), 3);
    assert_eq!(lines[0].text, "A");
    assert_eq!(lines[1].block_type, "quote");
    assert_eq!(lines[2].block_type, "divider");
    assert_eq!(lines[2].text, "");
}

#[test]
fn dot_without_leading_digits_is_a_paragraph() {
    let lines = parse_markdown(". x\n1a. y\nplain");
    assert!(lines.iter().all(|l| l.block_type == "paragraph"));
    assert_eq!(lines[1].text, "1a. y");
}
