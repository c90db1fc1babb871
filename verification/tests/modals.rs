use notion_tui::keys::{KeyCode, KeyEvent};
use notion_tui::records::{CommentRec, SearchHit};
use notion_tui::ui::comments::{CommentsAction, CommentsState};
use notion_tui::ui::confirm::{ConfirmAction, ConfirmKind, ConfirmState};
use notion_tui::ui::input::{InputAction, InputState};
use notion_tui::ui::palette::{commands, PaletteAction, PaletteState};
use notion_tui::ui::picker::{PickerAction, PickerState};
use notion_tui::ui::search::{SearchAction, SearchState};
use notion_tui::ui::textline::TextLine;

#[test]
fn typing_backspace_and_submit() {
    let mut s = InputState::new("t", "");
    assert!(matches!(s.on_key(KeyEvent::from(KeyCode::Char('h'))), InputAction::Changed));
    assert!(matches!(s.on_key(KeyEvent::from(KeyCode::Char('i'))), InputAction::Changed));
    assert_eq!(s.value(), "hi");
    assert!(matches!(s.on_key(KeyEvent::from(KeyCode::Backspace)), InputAction::Changed));
    assert_eq!(s.value(), "h");
    s.on_key(KeyEvent::from(KeyCode::Left));
    s.on_key(KeyEvent::from(KeyCode::Char('a')));
    assert_eq!(s.value(), "ah"); // typed before the final grapheme
    match s.on_key(KeyEvent::from(KeyCode::Enter)) {
        InputAction::Submit(v) => assert_eq!(v, "ah"),
        _ => panic!("expected Submit"),
    }
}

#[test]
fn esc_cancels() {
    let mut s = InputState::new("t", "x");
    assert!(matches!(s.on_key(KeyEvent::from(KeyCode::Esc)), InputAction::Cancel));
}

#[test]
fn input_cursor_moves_report_nothing() {
    let mut s = InputState::new("t", "ab");
    assert!(matches!(s.on_key(KeyEvent::from(KeyCode::Home)), InputAction::Noop));
    assert!(matches!(s.on_key(KeyEvent::from(KeyCode::Tab)), InputAction::Noop));
    assert_eq!(s.value(), "ab");
}

#[test]
fn typing_updates_query_and_esc_closes() {
    let mut s = SearchState::new();
    assert!(matches!(s.on_key(KeyEvent::from(KeyCode::Char('a'))), SearchAction::QueryChanged));
    assert_eq!(s.input, "a");
    assert!(matches!(s.on_key(KeyEvent::from(KeyCode::Backspace)), SearchAction::QueryChanged));
    assert_eq!(s.input, "");
    assert!(matches!(s.on_key(KeyEvent::from(KeyCode::Esc)), SearchAction::Close));
}

#[test]
fn enter_opens_selected() {
    let mut s = SearchState::new();
    s.results = vec![SearchHit { page_id: "p9".into(), title: "T".into(), snippet: "…".into() }];
    match s.on_key(KeyEvent::from(KeyCode::Enter)) {
        SearchAction::Open(id) => assert_eq!(id, "p9"),
        other => panic!("expected Open, got {other:?}"),
    }
}

#[test]
fn search_down_clamps_and_j_is_typed() {
    let mut s = SearchState::new();
    s.results = vec![
        SearchHit { page_id: "p1".into(), title: "A".into(), snippet: "".into() },
        SearchHit { page_id: "p2".into(), title: "B".into(), snippet: "".into() },
    ];
    s.on_key(KeyEvent::from(KeyCode::Down));
    s.on_key(KeyEvent::from(KeyCode::Down));
    assert_eq!(s.cursor, 1);
    assert!(matches!(s.on_key(KeyEvent::from(KeyCode::Char('j'))), SearchAction::QueryChanged));
    assert_eq!(s.input, "j");
    assert_eq!(s.cursor, 1);
}

#[test]
fn matches_are_subsequence_not_substring() {
    let mut p = PaletteState::new();
    p.input = TextLine::new("bd"); // not a substring of "board", but is a subsequence
    assert!(p.matches().contains(&"board"));
}

#[test]
fn non_subsequence_input_matches_nothing() {
    let mut p = PaletteState::new();
    p.input = TextLine::new("zzz");
    assert!(p.matches().is_empty());
}

#[test]
fn palette_lists_every_command_for_empty_input_and_runs_the_first() {
    let mut p = PaletteState::new();
    assert_eq!(p.matches(), commands());
    match p.on_key(KeyEvent::from(KeyCode::Enter)) {
        PaletteAction::Run(cmd) => assert_eq!(cmd, "help"),
        _ => panic!("expected Run"),
    }
    for c in "qu".chars() {
        assert!(matches!(p.on_key(KeyEvent::from(KeyCode::Char(c))), PaletteAction::Changed));
    }
    assert_eq!(p.matches()[0], "queue");
}

fn items() -> Vec<(String, String)> {
    vec![
        ("id1".into(), "Roadmap".into()),
        ("id2".into(), "Retro Notes".into()),
        ("id3".into(), "Budget".into()),
    ]
}

#[test]
fn typing_filters_by_subsequence_on_label() {
    let mut p = PickerState::new("move to…", items());
    for c in "rmap".chars() {
        p.on_key(KeyEvent::from(KeyCode::Char(c)));
    }
    let labels: Vec<&str> = p.matches().iter().map(|(_, l)| l.as_str()).collect();
    assert_eq!(labels, vec!["Roadmap"]);
}

#[test]
fn enter_chooses_the_highlighted_id() {
    let mut p = PickerState::new("move to…", items());
    match p.on_key(KeyEvent::from(KeyCode::Enter)) {
        PickerAction::Choose(id) => assert_eq!(id, "id1"),
        _ => panic!("expected Choose"),
    }
}

#[test]
fn esc_closes() {
    let mut p = PickerState::new("move to…", items());
    assert!(matches!(p.on_key(KeyEvent::from(KeyCode::Esc)), PickerAction::Close));
}

#[test]
fn picker_with_no_match_closes_on_enter() {
    let mut p = PickerState::new("move to…", items());
    for c in "zz".chars() {
        p.on_key(KeyEvent::from(KeyCode::Char(c)));
    }
    assert!(matches!(p.on_key(KeyEvent::from(KeyCode::Enter)), PickerAction::Close));
}

fn comment(id: &str, thread: Option<&str>) -> CommentRec {
    CommentRec {
        id: id.into(),
        parent_id: "p1".into(),
        parent_kind: "page".into(),
        thread_id: thread.map(|t| t.to_string()),
        author: "u1".into(),
        body: "hi".into(),
        created_time: "t".into(),
    }
}

#[test]
fn comments_keys_and_selected_thread() {
    let mut s = CommentsState {
        parent_id: "p1".into(),
        parent_kind: "page".into(),
        items: vec![comment("c1", Some("d1")), comment("c2", None)],
        cursor: 0,
    };
    assert_eq!(s.selected_thread(), Some("d1".to_string()));
    assert_eq!(s.on_key(KeyEvent::from(KeyCode::Char('j'))), CommentsAction::Noop);
    assert_eq!(s.on_key(KeyEvent::from(KeyCode::Char('j'))), CommentsAction::Noop);
    assert_eq!(s.cursor, 1);
    assert_eq!(s.selected_thread(), None);
    assert_eq!(s.on_key(KeyEvent::from(KeyCode::Char('n'))), CommentsAction::NewThread);
    assert_eq!(s.on_key(KeyEvent::from(KeyCode::Char('r'))), CommentsAction::Reply);
    assert_eq!(s.on_key(KeyEvent::from(KeyCode::Char('c'))), CommentsAction::Close);
}

#[test]
fn confirm_answers_y_n_and_ignores_the_rest() {
    let mut s = ConfirmState { message: "delete?".into(), ids: vec!["b1".into()], kind: ConfirmKind::DeleteBlock };
    assert_eq!(s.on_key(KeyEvent::from(KeyCode::Char('Y'))), ConfirmAction::Yes);
    assert_eq!(s.on_key(KeyEvent::from(KeyCode::Esc)), ConfirmAction::No);
    assert_eq!(s.on_key(KeyEvent::from(KeyCode::Char('x'))), ConfirmAction::Noop);
}
