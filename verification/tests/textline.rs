use unicode_segmentation::UnicodeSegmentation;
use notion_tui::keys::{KeyCode, KeyEvent, KeyModifiers};
use notion_tui::ui::textline::{TextLine, TextLineEvent};

#[test]
fn backspace_removes_a_whole_multiscalar_grapheme() {
    // Regional-indicator flag: two scalars, one grapheme.
    let mut l = TextLine::new("hi🇨🇦");
    assert!(l.backspace());
    assert_eq!(l.text(), "hi");
    // ZWJ family emoji: many scalars, one grapheme.
    let mut l = TextLine::new("a👩‍👩‍👧‍👦");
    assert!(l.backspace());
    assert_eq!(l.text(), "a");
}

#[test]
fn left_right_move_by_grapheme_and_clamp() {
    let mut l = TextLine::new("x👋y");
    l.left(); // before 'y'
    l.left(); // before the emoji
    assert_eq!(&l.text()[l.cursor()..], "👋y");
    l.right();
    assert_eq!(&l.text()[l.cursor()..], "y");
    l.right();
    l.right(); // clamped at end
    assert_eq!(l.cursor(), l.text().len());
}

#[test]
fn home_end_delete_and_mid_insert() {
    let mut l = TextLine::new("First");
    l.home();
    assert!(l.delete()); // "irst"
    l.right();
    l.insert('X'); // "iXrst"
    assert_eq!(l.text(), "iXrst");
    l.end();
    assert!(!l.delete()); // nothing after the cursor
}

#[test]
fn on_key_reports_edits_vs_moves_and_ignores_ctrl_chords() {
    let mut l = TextLine::new("");
    assert!(matches!(
        l.on_key(KeyEvent::from(KeyCode::Char('a'))),
        TextLineEvent::Edited
    ));
    assert!(matches!(
        l.on_key(KeyEvent::from(KeyCode::Right)),
        TextLineEvent::Moved
    )); // already at end: clamped, still a move event
    assert!(matches!(
        l.on_key(KeyEvent::from(KeyCode::Backspace)),
        TextLineEvent::Edited
    ));
    assert!(matches!(
        l.on_key(KeyEvent::from(KeyCode::Backspace)),
        TextLineEvent::Moved
    )); // empty: nothing removed
    assert!(matches!(
        l.on_key(KeyEvent::new(KeyCode::Char('d'), KeyModifiers::control())),
        TextLineEvent::Ignored
    ));
}

#[test]
fn cursor_cols_is_display_width_not_bytes() {
    let mut l = TextLine::new("日本"); // 6 bytes, 4 display columns
    assert_eq!(l.cursor_cols(), 4);
    l.left();
    assert_eq!(l.cursor_cols(), 2);
}

fn on_grapheme_boundary(l: &TextLine) -> bool {
    let c = l.cursor();
    c == l.text().len() || l.text().grapheme_indices(true).any(|(i, _)| i == c)
}

#[test]
fn editing_never_splits_graphemes_on_a_fixed_script() {
    // Every operation, from several starting texts mixing flags, combining
    // marks, ZWJ families and conjoining jamo, keeps the cursor on a
    // grapheme boundary.
    let starts = ["a🇨🇦e\u{301}👩‍👩‍👧", "\u{1100}x\u{1161}", "e\u{301}\u{302}b", ""];
    let ops = [0usize, 0, 6, 1, 2, 3, 6, 4, 6, 5, 0, 2, 1, 6, 3, 0, 0, 0, 2, 2, 2, 2, 7, 1, 2, 4, 3, 3];
    for start in starts {
        let mut l = TextLine::new(start);
        assert!(on_grapheme_boundary(&l));
        for op in ops {
            match op {
                0 => l.left(),
                1 => l.right(),
                2 => {
                    l.backspace();
                }
                3 => {
                    l.delete();
                }
                4 => l.home(),
                5 => l.end(),
                6 => l.insert('é'),
                _ => l.insert('\u{1161}'),
            }
            assert!(on_grapheme_boundary(&l), "{:?} at {}", l.text(), l.cursor());
            assert!(l.cursor() <= l.text().len());
        }
    }
}

#[test]
fn backspace_to_empty_terminates() {
    let mut l = TextLine::new("ab🇨🇦\u{301}x");
    while l.backspace() {}
    assert!(l.text().is_empty());
}

#[test]
fn inserting_a_combining_mark_keeps_the_cursor_after_the_cluster() {
    let mut l = TextLine::new("ab");
    l.left(); // between a and b
    l.insert('\u{301}'); // fuses with 'a'
    assert_eq!(l.text(), "a\u{301}b");
    assert_eq!(&l.text()[l.cursor()..], "b");
    // a mark inserted before a base letter does not fuse with it
    l.home();
    l.insert('x');
    assert_eq!(&l.text()[l.cursor()..], "a\u{301}b");
}

#[test]
fn backspace_that_fuses_neighbours_leaves_the_cursor_on_a_boundary() {
    // Choseong KIYEOK, 'x', jungseong A: three clusters; removing 'x' fuses the
    // jamo into one syllable cluster, and the cursor moves to its end.
    let mut l = TextLine::new("\u{1100}x\u{1161}");
    l.on_key(KeyEvent::from(KeyCode::Left));
    assert_eq!(l.cursor(), 4); // byte offset: just before the vowel
    l.on_key(KeyEvent::from(KeyCode::Backspace));
    assert_eq!(l.text(), "\u{1100}\u{1161}");
    assert_eq!(l.cursor(), 6); // the end of the fused syllable, not inside it
}

#[test]
fn left_at_the_start_and_right_at_the_end_stay() {
    let mut l = TextLine::new("ab");
    l.on_key(KeyEvent::from(KeyCode::Right));
    assert_eq!(l.cursor(), 2);
    l.on_key(KeyEvent::from(KeyCode::Home));
    l.on_key(KeyEvent::from(KeyCode::Left));
    assert_eq!(l.cursor(), 0);
}
