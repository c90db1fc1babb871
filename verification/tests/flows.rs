use notion_tui::app::{dispatch_key, dispatch_mouse, App, Effect, Focus, Found, InputPurpose, MainView};
use notion_tui::json::Json;
use notion_tui::keymap::Keymap;
use notion_tui::keys::{KeyCode, KeyEvent, KeyModifiers, MouseEvent, MouseKind};
use notion_tui::records::{BlockRec, CommentRec, DataSourceRec, OpRec, PageRec, RowRec, SearchHit};
use notion_tui::ui::board::BoardView;
use notion_tui::ui::comments::CommentsState;
use notion_tui::ui::page::PageView;
use notion_tui::ui::queue::QueueView;
use notion_tui::ui::search::SearchState;
use notion_tui::ui::sidebar::{NodeKind, SidebarState, TreeNode};
use notion_tui::ui::table::TableView;
use notion_tui::ui::{Area, LayoutRects};

// ---------------------------------------------------------------------------
// Building records

fn s(t: &str) -> Json {
    Json::Str(t.to_string())
}

/// An object whose entries come sorted by key, as a parsed JSON map holds them.
fn obj(entries: Vec<(&str, Json)>) -> Json {
    let mut e: Vec<(String, Json)> = entries.into_iter().map(|(k, v)| (k.to_string(), v)).collect();
    e.sort_by(|a, b| a.0.cmp(&b.0));
    Json::Object(e)
}

fn title_prop(text: &str) -> Json {
    obj(vec![("type", s("title")), ("title", Json::Array(vec![obj(vec![("plain_text", s(text))])]))])
}

fn status_prop(name: &str) -> Json {
    obj(vec![("type", s("status")), ("status", obj(vec![("name", s(name))]))])
}

fn options(names: &[&str]) -> Json {
    Json::Array(names.iter().map(|n| obj(vec![("name", s(n))])).collect())
}

fn page(id: &str, title: &str) -> PageRec {
    PageRec {
        id: id.into(),
        parent_type: "workspace".into(),
        parent_id: None,
        title: title.into(),
        icon: None,
        archived: false,
        last_edited_time: "t".into(),
    }
}

fn child_page(id: &str, parent: &str, title: &str) -> PageRec {
    PageRec { parent_type: "page_id".into(), parent_id: Some(parent.into()), ..page(id, title) }
}

fn block(id: &str, page_id: &str, ordinal: i64, block_type: &str, text: &str) -> BlockRec {
    BlockRec {
        id: id.into(),
        page_id: page_id.into(),
        parent_block_id: None,
        ordinal,
        block_type: block_type.into(),
        payload: obj(vec![]),
        plain_text: text.into(),
        has_children: false,
    }
}

fn ds(id: &str, database_id: &str, schema: Json) -> DataSourceRec {
    DataSourceRec {
        id: id.into(),
        database_id: database_id.into(),
        title: "Tasks".into(),
        schema_json: schema,
        last_edited_time: "t".into(),
    }
}

fn row(id: &str, ds_id: &str, properties: Json) -> RowRec {
    RowRec {
        id: id.into(),
        data_source_id: ds_id.into(),
        properties,
        last_edited_time: "t".into(),
        archived: false,
    }
}

fn status_schema(opts: &[&str]) -> Json {
    obj(vec![
        ("Name", obj(vec![("type", s("title"))])),
        ("Status", obj(vec![("type", s("status")), ("status", obj(vec![("options", options(opts))]))])),
    ])
}

fn status_row(id: &str, name: &str, status: &str) -> RowRec {
    row(id, "ds", obj(vec![("Name", title_prop(name)), ("Status", status_prop(status))]))
}

fn key(c: char) -> KeyEvent {
    KeyEvent::from(KeyCode::Char(c))
}

fn code(c: KeyCode) -> KeyEvent {
    KeyEvent::from(c)
}

fn shift(c: char) -> KeyEvent {
    KeyEvent::new(KeyCode::Char(c), KeyModifiers::shift())
}

fn ctrl(c: char) -> KeyEvent {
    KeyEvent::new(KeyCode::Char(c), KeyModifiers::control())
}

// ---------------------------------------------------------------------------
// Copies of records (the library's records are moved, not cloned)

fn cj(j: &Json) -> Json {
    match j {
        Json::Null => Json::Null,
        Json::Bool(b) => Json::Bool(*b),
        Json::Number(n) => Json::Number(n.clone()),
        Json::Str(t) => Json::Str(t.clone()),
        Json::Array(a) => Json::Array(a.iter().map(cj).collect()),
        Json::Object(m) => Json::Object(m.iter().map(|(k, v)| (k.clone(), cj(v))).collect()),
    }
}

fn cpage(p: &PageRec) -> PageRec {
    PageRec {
        id: p.id.clone(),
        parent_type: p.parent_type.clone(),
        parent_id: p.parent_id.clone(),
        title: p.title.clone(),
        icon: p.icon.clone(),
        archived: p.archived,
        last_edited_time: p.last_edited_time.clone(),
    }
}

fn cblock(b: &BlockRec) -> BlockRec {
    BlockRec {
        id: b.id.clone(),
        page_id: b.page_id.clone(),
        parent_block_id: b.parent_block_id.clone(),
        ordinal: b.ordinal,
        block_type: b.block_type.clone(),
        payload: cj(&b.payload),
        plain_text: b.plain_text.clone(),
        has_children: b.has_children,
    }
}

fn cds(d: &DataSourceRec) -> DataSourceRec {
    DataSourceRec {
        id: d.id.clone(),
        database_id: d.database_id.clone(),
        title: d.title.clone(),
        schema_json: cj(&d.schema_json),
        last_edited_time: d.last_edited_time.clone(),
    }
}

fn crow(r: &RowRec) -> RowRec {
    RowRec {
        id: r.id.clone(),
        data_source_id: r.data_source_id.clone(),
        properties: cj(&r.properties),
        last_edited_time: r.last_edited_time.clone(),
        archived: r.archived,
    }
}

fn cop(o: &OpRec) -> OpRec {
    OpRec {
        seq: o.seq,
        op_type: o.op_type.clone(),
        target_id: o.target_id.clone(),
        payload: cj(&o.payload),
        base_edited_time: o.base_edited_time.clone(),
        state: o.state.clone(),
        error: o.error.clone(),
    }
}

fn ccomment(c: &CommentRec) -> CommentRec {
    CommentRec {
        id: c.id.clone(),
        parent_id: c.parent_id.clone(),
        parent_kind: c.parent_kind.clone(),
        thread_id: c.thread_id.clone(),
        author: c.author.clone(),
        body: c.body.clone(),
        created_time: c.created_time.clone(),
    }
}

// ---------------------------------------------------------------------------
// A workspace standing in for the local store: it answers the reads the
// screen asks for.

#[derive(Default)]
struct Workspace {
    pages: Vec<PageRec>,
    blocks: Vec<BlockRec>,
    sources: Vec<DataSourceRec>,
    rows: Vec<RowRec>,
    ops: Vec<OpRec>,
    comments: Vec<CommentRec>,
}

impl Workspace {
    fn find(&self, id: &str) -> Found {
        if let Some(p) = self.pages.iter().find(|p| p.id == id) {
            let blocks = self.blocks.iter().filter(|b| b.page_id == id).map(cblock).collect();
            return Found::Page(cpage(p), blocks);
        }
        let d = self.sources.iter().find(|d| d.id == id).or_else(|| self.sources.iter().find(|d| d.database_id == id));
        match d {
            Some(d) => {
                let rows = self.rows.iter().filter(|r| r.data_source_id == d.id).map(crow).collect();
                Found::Table(cds(d), rows)
            }
            None => Found::Missing,
        }
    }

    fn table(&self, id: &str) -> Option<(DataSourceRec, Vec<RowRec>)> {
        let d = self.sources.iter().find(|d| d.id == id)?;
        Some((cds(d), self.rows.iter().filter(|r| r.data_source_id == id).map(crow).collect()))
    }

    fn nodes(&self) -> Vec<TreeNode> {
        let mut out: Vec<TreeNode> = self
            .pages
            .iter()
            .map(|p| TreeNode { id: p.id.clone(), title: p.title.clone(), parent_id: p.parent_id.clone(), kind: NodeKind::Page })
            .collect();
        out.extend(self.sources.iter().map(|d| TreeNode {
            id: d.id.clone(),
            title: d.title.clone(),
            parent_id: None,
            kind: NodeKind::DataSource,
        }));
        out
    }

    fn open(&self, app: &mut App, id: &str) {
        app.open_page_found(id, self.find(id));
    }

    /// Carries out the reads a key asked for; returns the effect when it
    /// is a write (or anything else the stand-in does not read for).
    fn perform(&self, app: &mut App, e: Effect) -> Option<Effect> {
        match e {
            Effect::Noop => None,
            Effect::OpenPage(id) => {
                self.open(app, &id);
                None
            }
            Effect::OpenNode(n) => {
                match n.kind {
                    NodeKind::Page => self.open(app, &n.id),
                    NodeKind::DataSource => app.open_table_found(&n.id, self.table(&n.id)),
                }
                None
            }
            Effect::OpenNodeAsBoard(n) => {
                app.open_table_found(&n.id, self.table(&n.id));
                app.board_if_table();
                None
            }
            Effect::OpenPageAsBoard(id) => {
                self.open(app, &id);
                app.board_if_table();
                None
            }
            Effect::ToggleQueue => {
                let summaries = self.ops.iter().map(|o| format!("{} {}", o.op_type, o.target_id)).collect();
                app.toggle_queue(QueueView::new(self.ops.iter().map(cop).collect(), summaries));
                None
            }
            Effect::StartMovePage => {
                app.start_move_page(self.nodes());
                None
            }
            Effect::OpenComments => {
                let (parent_id, parent_kind) = match &app.view {
                    MainView::Page(v) => (v.page.id.clone(), "page".to_string()),
                    _ => return None,
                };
                let items = self.comments.iter().filter(|c| c.parent_id == parent_id).map(ccomment).collect();
                app.comments = Some(CommentsState { parent_id, parent_kind, items, cursor: 0 });
                None
            }
            other => Some(other),
        }
    }

    fn press(&self, app: &mut App, k: KeyEvent) -> Option<Effect> {
        let e = dispatch_key(app, k);
        self.perform(app, e)
    }

    fn type_str(&self, app: &mut App, text: &str) {
        for c in text.chars() {
            self.press(app, key(c));
        }
    }
}

fn main_app() -> App {
    let mut app = App::new();
    app.focus = Focus::Main;
    app
}

fn board_workspace() -> Workspace {
    Workspace {
        sources: vec![ds("ds", "db", status_schema(&["Todo", "Done"]))],
        rows: vec![status_row("r1", "Task A", "Todo")],
        ..Default::default()
    }
}

// ---------------------------------------------------------------------------
// Motion

fn table_app(n: usize) -> App {
    let mut app = main_app();
    let rows = (0..n).map(|i| status_row(&format!("r{i}"), &format!("task {i}"), "Todo")).collect();
    app.view = MainView::Table(TableView::new(ds("ds", "db", obj(vec![("Name", obj(vec![("type", s("title"))]))])), rows));
    app
}

fn board_app(n: usize) -> App {
    let mut app = main_app();
    let rows = (0..n).map(|i| status_row(&format!("r{i}"), &format!("task {i}"), "Todo")).collect();
    app.view = MainView::Board(BoardView::new(ds("ds", "db", status_schema(&["Todo", "Done"])), rows));
    app
}

#[test]
fn ctrl_d_u_page_through_table() {
    let mut app = table_app(30);
    dispatch_key(&mut app, ctrl('d'));
    let MainView::Table(v) = &app.view else { panic!() };
    assert_eq!(v.cursor, 10);
    dispatch_key(&mut app, ctrl('u'));
    let MainView::Table(v) = &app.view else { panic!() };
    assert_eq!(v.cursor, 0);
}

#[test]
fn ctrl_d_u_page_through_board_column() {
    let mut app = board_app(30);
    dispatch_key(&mut app, ctrl('d'));
    let MainView::Board(v) = &app.view else { panic!() };
    assert_eq!(v.card, 10);
    dispatch_key(&mut app, ctrl('u'));
    let MainView::Board(v) = &app.view else { panic!() };
    assert_eq!(v.card, 0);
}

#[test]
fn g_and_shift_g_jump_in_board() {
    let mut app = board_app(25);
    dispatch_key(&mut app, shift('G'));
    let MainView::Board(v) = &app.view else { panic!() };
    assert_eq!(v.card, 24);
    dispatch_key(&mut app, key('g'));
    let MainView::Board(v) = &app.view else { panic!() };
    assert_eq!(v.card, 0);
}

#[test]
fn g_and_shift_g_still_jump_in_table() {
    let mut app = table_app(25);
    dispatch_key(&mut app, shift('G'));
    let MainView::Table(v) = &app.view else { panic!() };
    assert_eq!(v.cursor, 24);
    dispatch_key(&mut app, key('g'));
    let MainView::Table(v) = &app.view else { panic!() };
    assert_eq!(v.cursor, 0);
}

// ---------------------------------------------------------------------------
// Boards

#[test]
fn v_toggles_table_to_board_and_back() {
    let ws = board_workspace();
    let mut app = main_app();
    ws.open(&mut app, "ds");
    assert!(matches!(app.view, MainView::Table(_)));
    ws.press(&mut app, key('v'));
    assert!(matches!(app.view, MainView::Board(_)));
    ws.press(&mut app, key('v'));
    assert!(matches!(app.view, MainView::Table(_)));
}

#[test]
fn shift_j_moves_card_and_queues_an_update_row_op() {
    let ws = board_workspace();
    let mut app = main_app();
    ws.open(&mut app, "ds");
    ws.press(&mut app, key('v'));

    let e = ws.press(&mut app, shift('J')); // Todo -> Done

    match e {
        Some(Effect::UpdateRowProperty { row_id, prop_name, prop_type, text }) => {
            assert_eq!(row_id, "r1");
            assert_eq!(prop_name, "Status");
            assert_eq!(prop_type, "status");
            assert_eq!(text, "Done");
        }
        _ => panic!("expected a row update"),
    }
    let MainView::Board(v) = &app.view else { panic!() };
    assert_eq!(v.col, 1);
}

#[test]
fn group_by_command_overrides_the_default_status_grouping() {
    let schema = obj(vec![
        ("Name", obj(vec![("type", s("title"))])),
        ("Status", obj(vec![("type", s("status")), ("status", obj(vec![("options", options(&["Todo"]))]))])),
        ("Priority", obj(vec![("type", s("select")), ("select", obj(vec![("options", options(&["Low", "High"]))]))])),
    ]);
    let ws = Workspace {
        sources: vec![ds("ds", "db", schema)],
        rows: vec![row(
            "r1",
            "ds",
            obj(vec![
                ("Name", title_prop("A")),
                ("Status", status_prop("Todo")),
                ("Priority", obj(vec![("type", s("select")), ("select", obj(vec![("name", s("High"))]))])),
            ]),
        )],
        ..Default::default()
    };
    let mut app = main_app();
    ws.open(&mut app, "ds");
    ws.press(&mut app, key('v')); // table -> board (defaults to Status)

    app.start_group_by();
    assert!(app.picker.is_some());
    ws.type_str(&mut app, "Prio");
    ws.press(&mut app, code(KeyCode::Enter));

    let MainView::Board(v) = &app.view else { panic!("expected a board view") };
    assert_eq!(v.group_prop, "Priority");
    assert_eq!(v.columns, vec!["Low", "High", "(none)"]);
}

#[test]
fn p_on_a_board_opens_the_props_modal_for_the_selected_card() {
    let ws = board_workspace();
    let mut app = main_app();
    ws.open(&mut app, "ds");
    ws.press(&mut app, key('v'));
    ws.press(&mut app, key('p'));
    let props = app.props.as_ref().expect("props should open");
    assert_eq!(props.row_id, "r1");
    assert!(props.fields.iter().any(|f| f.name == "Status" && f.value_text == "Todo"));
}

#[test]
fn moving_a_card_with_the_modal_closed_does_not_open_the_props_modal() {
    let ws = board_workspace();
    let mut app = main_app();
    ws.open(&mut app, "ds");
    ws.press(&mut app, key('v'));
    ws.press(&mut app, shift('J'));
    assert!(app.props.is_none());
}

// ---------------------------------------------------------------------------
// Help, palette, keys

#[test]
fn question_mark_toggles_help_and_any_key_closes() {
    let mut a = main_app();
    dispatch_key(&mut a, key('?'));
    assert!(a.help_open);
    dispatch_key(&mut a, key('j'));
    assert!(!a.help_open);
}

#[test]
fn palette_filters_and_runs_queue_command() {
    let ws = Workspace::default();
    let mut a = main_app();
    ws.press(&mut a, key(':'));
    assert!(a.palette.is_some());
    ws.press(&mut a, key('q'));
    ws.press(&mut a, key('u'));
    ws.press(&mut a, code(KeyCode::Enter));
    assert!(a.palette.is_none());
    assert!(matches!(a.view, MainView::Queue(_)));
}

#[test]
fn palette_esc_closes_without_running() {
    let mut a = main_app();
    dispatch_key(&mut a, key(':'));
    dispatch_key(&mut a, code(KeyCode::Esc));
    assert!(a.palette.is_none());
    assert!(matches!(a.view, MainView::Empty));
}

#[test]
fn default_binding_and_override() {
    let km = Keymap::new();
    assert!(km.is("quit", key('q')));

    let mut overrides = vec![("quit".to_string(), "x".to_string())];
    let km = Keymap::with_overrides(&overrides);
    assert!(km.is("quit", key('x')));
    assert!(!km.is("quit", key('q')));
    // Named keys parse:
    overrides.push(("open".to_string(), "enter".to_string()));
    let km = Keymap::with_overrides(&overrides);
    assert!(km.is("open", code(KeyCode::Enter)));
}

#[test]
fn rebound_quit_key_quits_the_app() {
    let mut app = App::new();
    app.keymap = Keymap::with_overrides(&vec![("quit".to_string(), "x".to_string())]);

    dispatch_key(&mut app, key('q'));
    assert!(!app.should_quit); // old key no longer bound
    dispatch_key(&mut app, key('x'));
    assert!(app.should_quit);
}

#[test]
fn q_quits() {
    let mut app = App::new();
    dispatch_key(&mut app, key('q'));
    assert!(app.should_quit);
}

// ---------------------------------------------------------------------------
// History

fn two_page_workspace() -> Workspace {
    Workspace { pages: vec![page("p1", "First"), page("p2", "Second")], ..Default::default() }
}

#[test]
fn sidebar_open_pushes_history_so_backspace_returns() {
    let ws = two_page_workspace();
    let mut app = App::new();
    app.focus = Focus::Sidebar;
    app.sidebar = SidebarState::new(vec![
        TreeNode { id: "p1".into(), title: "First".into(), parent_id: None, kind: NodeKind::Page },
        TreeNode { id: "p2".into(), title: "Second".into(), parent_id: None, kind: NodeKind::Page },
    ]);

    ws.press(&mut app, code(KeyCode::Enter)); // open "First"
    assert!(matches!(&app.view, MainView::Page(v) if v.page.id == "p1"));

    app.focus = Focus::Sidebar;
    app.sidebar.cursor = 1;
    ws.press(&mut app, code(KeyCode::Enter)); // open "Second"
    assert!(matches!(&app.view, MainView::Page(v) if v.page.id == "p2"));

    app.focus = Focus::Main;
    ws.press(&mut app, code(KeyCode::Backspace));
    assert!(matches!(&app.view, MainView::Page(v) if v.page.id == "p1"), "backspace should return to First");
}

#[test]
fn back_navigation_itself_does_not_grow_history() {
    let ws = two_page_workspace();
    let mut app = main_app();
    ws.open(&mut app, "p1");
    app.push_history_for_test(); // p1 pushed
    ws.open(&mut app, "p2");

    ws.press(&mut app, code(KeyCode::Backspace)); // back to p1
    assert!(app.history.is_empty(), "going back must not re-push where we came from");
}

// ---------------------------------------------------------------------------
// Editing pages

fn todo_workspace() -> Workspace {
    Workspace { pages: vec![page("p1", "P")], blocks: vec![block("b1", "p1", 0, "to_do", "Buy milk")], ..Default::default() }
}

fn app_on(ws: &Workspace, id: &str) -> App {
    let mut app = main_app();
    ws.open(&mut app, id);
    app
}

#[test]
fn space_toggles_todo_and_queues_op() {
    let ws = todo_workspace();
    let mut app = app_on(&ws, "p1");
    let e = ws.press(&mut app, key(' '));
    assert!(matches!(e, Some(Effect::ToggleTodo(id)) if id == "b1"));
}

#[test]
fn dd_asks_for_confirmation_then_y_deletes() {
    let ws = todo_workspace();
    let mut app = app_on(&ws, "p1");
    assert!(ws.press(&mut app, key('d')).is_none());
    assert!(ws.press(&mut app, key('d')).is_none());
    assert!(app.confirm.is_some(), "dd must confirm before deleting");
    let e = ws.press(&mut app, key('y'));
    assert!(matches!(e, Some(Effect::DeleteBlock(id)) if id == "b1"));
    assert!(app.notice.as_deref().unwrap_or("").contains("undo"));
}

#[test]
fn dd_then_n_keeps_the_block() {
    let ws = todo_workspace();
    let mut app = app_on(&ws, "p1");
    ws.press(&mut app, key('d'));
    ws.press(&mut app, key('d'));
    let e = ws.press(&mut app, key('n'));
    assert!(app.confirm.is_none());
    assert!(e.is_none());
}

#[test]
fn single_d_does_not_delete() {
    let ws = todo_workspace();
    let mut app = app_on(&ws, "p1");
    ws.press(&mut app, key('d'));
    // A different key in between cancels the pending delete.
    ws.press(&mut app, key('j'));
    ws.press(&mut app, key('d'));
    assert!(app.confirm.is_none());
    assert!(app.pending_d);
}

#[test]
fn undo_after_toggle_reverts_and_clears_queue() {
    let ws = todo_workspace();
    let mut app = app_on(&ws, "p1");
    assert!(matches!(ws.press(&mut app, key(' ')), Some(Effect::ToggleTodo(_))));
    assert!(matches!(ws.press(&mut app, key('u')), Some(Effect::Undo)));
}

fn two_block_workspace() -> Workspace {
    Workspace {
        pages: vec![page("p1", "P")],
        blocks: vec![block("b1", "p1", 0, "paragraph", "First"), block("b2", "p1", 1, "paragraph", "Second")],
        ..Default::default()
    }
}

#[test]
fn i_prefills_input_with_block_text_and_submit_updates_it() {
    let ws = two_block_workspace();
    let mut app = app_on(&ws, "p1");
    ws.press(&mut app, key('i'));
    assert_eq!(app.input.as_ref().unwrap().value(), "First");
    for _ in 0.."First".len() {
        ws.press(&mut app, code(KeyCode::Backspace));
    }
    ws.type_str(&mut app, "Edited text");
    let e = ws.press(&mut app, code(KeyCode::Enter));
    assert!(app.input.is_none());
    match e {
        Some(Effect::EditBlockText { block_id, text }) => {
            assert_eq!(block_id, "b1");
            assert_eq!(text, "Edited text");
        }
        _ => panic!("expected a block text edit"),
    }
}

#[test]
fn a_opens_empty_input_and_submit_inserts_block_after_cursor() {
    let ws = two_block_workspace();
    let mut app = app_on(&ws, "p1");
    ws.press(&mut app, key('a'));
    assert_eq!(app.input.as_ref().unwrap().value(), "");
    ws.type_str(&mut app, "Brand new");
    let e = ws.press(&mut app, code(KeyCode::Enter));
    assert!(app.input.is_none());
    match e {
        Some(Effect::InsertBlock { page_id, after_block_id, text }) => {
            assert_eq!(page_id, "p1");
            assert_eq!(after_block_id.as_deref(), Some("b1"));
            assert_eq!(text, "Brand new");
        }
        _ => panic!("expected a block insert"),
    }
}

#[test]
fn esc_cancels_input_without_changes() {
    let ws = two_block_workspace();
    let mut app = app_on(&ws, "p1");
    ws.press(&mut app, key('i'));
    ws.type_str(&mut app, "should not be saved");
    let e = ws.press(&mut app, code(KeyCode::Esc));
    assert!(app.input.is_none());
    assert!(e.is_none());
    assert!(app.input_purpose.is_none());
}

// ---------------------------------------------------------------------------
// Tables

fn table_workspace() -> Workspace {
    let schema = obj(vec![
        ("Name", obj(vec![("type", s("title"))])),
        ("Done", obj(vec![("type", s("checkbox"))])),
        ("Prio", obj(vec![("type", s("select"))])),
    ]);
    Workspace {
        sources: vec![ds("ds1", "db1", schema)],
        rows: vec![row(
            "r1",
            "ds1",
            obj(vec![
                ("Name", title_prop("Buy milk")),
                ("Done", obj(vec![("type", s("checkbox")), ("checkbox", Json::Bool(false))])),
                ("Prio", obj(vec![("type", s("select")), ("select", obj(vec![("name", s("Low"))]))])),
            ]),
        )],
        ..Default::default()
    }
}

#[test]
fn o_opens_input_and_submit_creates_row_with_title() {
    let ws = table_workspace();
    let mut app = app_on(&ws, "ds1");
    ws.press(&mut app, key('o'));
    assert_eq!(app.input.as_ref().unwrap().value(), "");
    ws.type_str(&mut app, "New task");
    let e = ws.press(&mut app, code(KeyCode::Enter));
    assert!(app.input.is_none());
    match e {
        Some(Effect::CreateRow { data_source_id, title_prop_name, text }) => {
            assert_eq!(data_source_id, "ds1");
            assert_eq!(title_prop_name, "Name");
            assert_eq!(text, "New task");
        }
        _ => panic!("expected a row creation"),
    }
}

#[test]
fn dd_deletes_selected_row() {
    let ws = table_workspace();
    let mut app = app_on(&ws, "ds1");
    ws.press(&mut app, key('d'));
    assert!(app.confirm.is_none()); // first 'd' just arms
    ws.press(&mut app, key('d'));
    let e = ws.press(&mut app, key('y'));
    assert!(matches!(e, Some(Effect::DeleteRow(id)) if id == "r1"));
}

#[test]
fn p_opens_props_modal_listing_fields() {
    let ws = table_workspace();
    let mut app = app_on(&ws, "ds1");
    ws.press(&mut app, key('p'));
    let props = app.props.as_ref().unwrap();
    assert_eq!(props.row_id, "r1");
    assert!(props.fields.iter().any(|f| f.name == "Name" && f.value_text == "Buy milk"));
    assert!(props.fields.iter().any(|f| f.name == "Prio" && f.value_text == "Low"));
}

#[test]
fn editing_a_text_field_commits_new_value() {
    let ws = table_workspace();
    let mut app = app_on(&ws, "ds1");
    ws.press(&mut app, key('p'));
    let prio_idx = app.props.as_ref().unwrap().fields.iter().position(|f| f.name == "Prio").unwrap();
    for _ in 0..prio_idx {
        ws.press(&mut app, key('j'));
    }
    ws.press(&mut app, code(KeyCode::Enter)); // begin editing
    for _ in 0.."Low".len() {
        ws.press(&mut app, code(KeyCode::Backspace));
    }
    ws.type_str(&mut app, "High");
    let e = ws.press(&mut app, code(KeyCode::Enter)); // commit
    match e {
        Some(Effect::UpdateRowProperty { row_id, prop_name, prop_type, text }) => {
            assert_eq!(row_id, "r1");
            assert_eq!(prop_name, "Prio");
            assert_eq!(prop_type, "select");
            assert_eq!(text, "High");
        }
        _ => panic!("expected a row update"),
    }
    // The form stays open.
    assert!(app.props.is_some());
}

#[test]
fn enter_on_checkbox_field_toggles_immediately() {
    let ws = table_workspace();
    let mut app = app_on(&ws, "ds1");
    ws.press(&mut app, key('p'));
    let done_idx = app.props.as_ref().unwrap().fields.iter().position(|f| f.name == "Done").unwrap();
    for _ in 0..done_idx {
        ws.press(&mut app, key('j'));
    }
    let e = ws.press(&mut app, code(KeyCode::Enter));
    match e {
        Some(Effect::UpdateRowProperty { prop_name, text, .. }) => {
            assert_eq!(prop_name, "Done");
            assert_eq!(text, "true");
        }
        _ => panic!("expected the checkbox to be written at once"),
    }
}

#[test]
fn esc_closes_modal_without_changes() {
    let ws = table_workspace();
    let mut app = app_on(&ws, "ds1");
    ws.press(&mut app, key('p'));
    let e = ws.press(&mut app, code(KeyCode::Esc));
    assert!(app.props.is_none());
    assert!(e.is_none());
}

fn filter_workspace() -> Workspace {
    Workspace {
        sources: vec![ds("ds", "db", obj(vec![("Name", obj(vec![("type", s("title"))]))]))],
        rows: vec![
            row("r1", "ds", obj(vec![("Name", title_prop("Buy milk"))])),
            row("r2", "ds", obj(vec![("Name", title_prop("Buy eggs"))])),
        ],
        ..Default::default()
    }
}

fn filtered_app(ws: &Workspace) -> App {
    let mut app = app_on(ws, "ds");
    ws.press(&mut app, key('f')); // filter current (title) column
    ws.type_str(&mut app, "eggs");
    ws.press(&mut app, code(KeyCode::Enter));
    app
}

#[test]
fn filter_key_narrows_the_table_and_survives_a_refresh() {
    let ws = filter_workspace();
    let mut app = filtered_app(&ws);
    let MainView::Table(v) = &app.view else { panic!("expected table") };
    assert_eq!(v.visible().len(), 1);
    assert_eq!(v.visible()[0].id, "r2");

    // A sync tick reloads the table.
    let MainView::Table(prev) = &app.view else { panic!() };
    let (d, rows) = ws.table("ds").unwrap();
    let fresh = notion_tui::app::refreshed_table(prev, TableView::new(d, rows));
    app.view = MainView::Table(fresh);
    let MainView::Table(v) = &app.view else { panic!("expected table") };
    assert_eq!(v.visible().len(), 1, "filter must survive a refresh");
    assert_eq!(v.visible()[0].id, "r2");
}

#[test]
fn props_under_filter_targets_visible_row_not_hidden_one() {
    let ws = filter_workspace();
    let mut app = filtered_app(&ws);
    {
        let MainView::Table(v) = &app.view else { panic!("expected table") };
        assert_eq!(v.visible().len(), 1);
        assert_eq!(v.visible()[0].id, "r2");
        assert_eq!(v.cursor, 0);
    }
    ws.press(&mut app, key('p'));
    let props = app.props.as_ref().expect("props should open");
    assert_eq!(props.row_id, "r2", "props must target the visible row, not a hidden one");
}

#[test]
fn rename_under_filter_targets_visible_row_not_hidden_one() {
    let ws = filter_workspace();
    let mut app = filtered_app(&ws);
    app.start_rename();
    match app.input_purpose {
        Some(InputPurpose::RenameRow { ref row_id, .. }) => {
            assert_eq!(row_id, "r2", "rename must target the visible row, not a hidden one");
        }
        _ => panic!("expected RenameRow input purpose"),
    }
}

#[test]
fn bottom_lands_on_last_visible_row_under_filter() {
    let ws = filter_workspace();
    let mut app = filtered_app(&ws);
    ws.press(&mut app, shift('G')); // bottom
    let MainView::Table(v) = &app.view else { panic!("expected table") };
    assert_eq!(v.cursor, v.row_count().saturating_sub(1));
    assert_eq!(v.visible()[v.cursor].id, "r2");
}

// ---------------------------------------------------------------------------
// Comments and search

#[test]
fn c_opens_panel_with_page_comments_and_c_closes() {
    let ws = Workspace {
        pages: vec![page("p1", "P")],
        blocks: vec![block("b1", "p1", 0, "paragraph", "First")],
        comments: vec![CommentRec {
            id: "c1".into(),
            parent_id: "p1".into(),
            parent_kind: "page".into(),
            thread_id: Some("d1".into()),
            author: "u1".into(),
            body: "existing".into(),
            created_time: "t".into(),
        }],
        ..Default::default()
    };
    let mut app = app_on(&ws, "p1");
    ws.press(&mut app, key('c'));
    let panel = app.comments.as_ref().expect("panel open");
    assert_eq!(panel.items.len(), 1);
    assert_eq!(panel.items[0].body, "existing");
    ws.press(&mut app, key('c'));
    assert!(app.comments.is_none());
}

#[test]
fn n_composes_a_new_thread_through_the_input_modal() {
    let ws = Workspace {
        pages: vec![page("p1", "P")],
        comments: vec![CommentRec {
            id: "c1".into(),
            parent_id: "p1".into(),
            parent_kind: "page".into(),
            thread_id: Some("d1".into()),
            author: "u1".into(),
            body: "existing".into(),
            created_time: "t".into(),
        }],
        ..Default::default()
    };
    let mut app = app_on(&ws, "p1");
    ws.press(&mut app, key('c'));
    ws.press(&mut app, key('n'));
    assert!(app.input.is_some());
    ws.type_str(&mut app, "my reply");
    let e = ws.press(&mut app, code(KeyCode::Enter));
    match e {
        Some(Effect::AddComment { parent_id, parent_kind, thread_id, text }) => {
            assert_eq!(parent_id, "p1");
            assert_eq!(parent_kind, "page");
            assert!(thread_id.is_none());
            assert_eq!(text, "my reply");
        }
        _ => panic!("expected a new comment"),
    }
    assert!(app.comments.is_some());
}

fn hit(id: &str, title: &str) -> SearchHit {
    SearchHit { page_id: id.into(), title: title.into(), snippet: String::new() }
}

#[test]
fn stronger_subsequence_match_outranks_earlier_fts_hit() {
    let mut app = App::new();
    app.search = Some(SearchState::new());
    app.search.as_mut().unwrap().input = "map".to_string();
    // The full-text search gives "The map" first.
    app.refresh_search(vec![hit("p1", "The map"), hit("p2", "Mapping global logistics")]);
    let titles: Vec<String> = app.search.as_ref().unwrap().results.iter().map(|h| h.title.clone()).collect();
    assert_eq!(
        titles,
        vec!["Mapping global logistics", "The map"],
        "subsequence re-rank must invert FTS order without dropping hits"
    );
}

#[test]
fn blank_query_keeps_search_order_and_non_matches_follow() {
    let mut app = App::new();
    app.search = Some(SearchState::new());
    app.search.as_mut().unwrap().input = "  ".to_string();
    app.refresh_search(vec![hit("a", "Zeta"), hit("b", "Alpha")]);
    let ids: Vec<String> = app.search.as_ref().unwrap().results.iter().map(|h| h.page_id.clone()).collect();
    assert_eq!(ids, vec!["a", "b"]);

    app.search.as_mut().unwrap().input = "alp".to_string();
    app.refresh_search(vec![hit("a", "Zeta"), hit("b", "Alpha"), hit("c", "Gamma")]);
    let ids: Vec<String> = app.search.as_ref().unwrap().results.iter().map(|h| h.page_id.clone()).collect();
    assert_eq!(ids, vec!["b", "a", "c"]);
}

// ---------------------------------------------------------------------------
// Palette commands and moving pages

#[test]
fn palette_rename_command_renames_the_open_page() {
    let ws = Workspace { pages: vec![page("p1", "Old Title")], ..Default::default() };
    let mut app = main_app();
    app.view = MainView::Page(PageView::new(page("p1", "Old Title"), Vec::new()));
    ws.press(&mut app, key(':'));
    ws.type_str(&mut app, "rename");
    ws.press(&mut app, code(KeyCode::Enter)); // run "rename"
    assert!(app.input.is_some(), "rename should open a text prompt");
    for _ in 0.."Old Title".len() {
        ws.press(&mut app, code(KeyCode::Backspace));
    }
    ws.type_str(&mut app, "New Title");
    let e = ws.press(&mut app, code(KeyCode::Enter));
    match e {
        Some(Effect::RenamePage { page_id, text }) => {
            assert_eq!(page_id, "p1");
            assert_eq!(text, "New Title");
        }
        _ => panic!("expected a page rename"),
    }
}

#[test]
fn move_page_command_reparents_via_the_picker() {
    let ws = Workspace { pages: vec![page("p1", "Old Title"), page("dest", "Destination")], ..Default::default() };
    let mut app = main_app();
    app.view = MainView::Page(PageView::new(page("p1", "Old Title"), Vec::new()));
    app.start_move_page(ws.nodes());
    assert!(app.picker.is_some());
    ws.type_str(&mut app, "Dest");
    let e = ws.press(&mut app, code(KeyCode::Enter));
    match e {
        Some(Effect::MovePage { page_id, new_parent_id }) => {
            assert_eq!(page_id, "p1");
            assert_eq!(new_parent_id, "dest");
        }
        _ => panic!("expected a page move"),
    }
}

#[test]
fn move_page_picker_excludes_the_moved_pages_own_descendants() {
    let ws = Workspace {
        pages: vec![
            page("p1", "Old Title"),
            child_page("child", "p1", "Child"),
            child_page("grandchild", "child", "Grandchild"),
            page("unrelated", "Unrelated"),
        ],
        ..Default::default()
    };
    let mut app = main_app();
    app.view = MainView::Page(PageView::new(page("p1", "Old Title"), Vec::new()));
    app.start_move_page(ws.nodes());
    let picker = app.picker.as_ref().expect("picker should open");
    let ids: Vec<&str> = picker.items.iter().map(|(id, _)| id.as_str()).collect();
    assert!(!ids.contains(&"p1"), "must not offer the moved page itself");
    assert!(!ids.contains(&"child"), "must not offer a direct child (would cycle)");
    assert!(!ids.contains(&"grandchild"), "must not offer a transitive descendant (would cycle)");
    assert!(ids.contains(&"unrelated"), "unrelated pages remain valid targets");
}

#[test]
fn move_targets_skip_descendants_listed_before_their_parent() {
    // The grandchild comes before its parent in tree order: the exclusion
    // must still reach it.
    let ws = Workspace {
        pages: vec![
            child_page("grandchild", "child", "Grandchild"),
            page("p1", "Moved"),
            child_page("child", "p1", "Child"),
            page("other", "Other"),
        ],
        ..Default::default()
    };
    let mut app = main_app();
    app.view = MainView::Page(PageView::new(page("p1", "Moved"), Vec::new()));
    app.start_move_page(ws.nodes());
    let ids: Vec<&str> = app.picker.as_ref().unwrap().items.iter().map(|(id, _)| id.as_str()).collect();
    assert_eq!(ids, vec!["other"]);
}

// ---------------------------------------------------------------------------
// Child databases and boards from the sidebar

fn linked_workspace() -> Workspace {
    Workspace {
        pages: vec![page("p1", "Marc")],
        blocks: vec![block("db1", "p1", 0, "child_database", "Tracker")],
        sources: vec![ds(
            "ds1",
            "db1",
            obj(vec![("Name", obj(vec![("type", s("title"))])), ("Status", obj(vec![("type", s("status"))]))]),
        )],
        rows: vec![row("r1", "ds1", obj(vec![("Name", title_prop("Ship it")), ("Status", status_prop("Doing"))]))],
        ..Default::default()
    }
}

#[test]
fn enter_on_child_database_block_opens_its_table() {
    let ws = linked_workspace();
    let mut app = app_on(&ws, "p1");
    assert!(matches!(app.view, MainView::Page(_)), "should start on the page view");
    ws.press(&mut app, code(KeyCode::Enter));
    match &app.view {
        MainView::Table(t) => assert_eq!(t.ds.id, "ds1"),
        _ => panic!("expected Table view after opening child_database"),
    }
}

#[test]
fn v_on_child_database_block_opens_it_as_a_board() {
    let ws = linked_workspace();
    let mut app = app_on(&ws, "p1");
    ws.press(&mut app, key('v'));
    match &app.view {
        MainView::Board(b) => assert_eq!(b.ds.id, "ds1"),
        _ => panic!("expected Board view after pressing v on a child_database block"),
    }
}

#[test]
fn opening_an_unknown_id_sets_a_notice_instead_of_silently_failing() {
    let ws = linked_workspace();
    let mut app = main_app();
    ws.open(&mut app, "does-not-exist");
    assert!(matches!(app.view, MainView::Empty), "view should be untouched");
    assert!(app.notice.is_some(), "a notice should explain why nothing opened");
}

#[test]
fn toggling_board_with_no_table_open_sets_a_notice() {
    let mut app = main_app();
    app.toggle_board();
    assert!(app.notice.is_some(), "toggling board with nothing open should explain why");
}

#[test]
fn toggling_board_without_a_groupable_property_sets_a_notice() {
    let ws = Workspace {
        sources: vec![ds("ds2", "db2", obj(vec![("Name", obj(vec![("type", s("title"))]))]))],
        ..Default::default()
    };
    let mut app = app_on(&ws, "ds2");
    app.toggle_board();
    assert!(matches!(app.view, MainView::Table(_)), "should stay on the table");
    assert!(app.notice.is_some(), "should explain why board mode isn't available");
}

#[test]
fn v_on_an_unsynced_sidebar_database_keeps_the_specific_not_found_notice() {
    let ws = linked_workspace();
    let mut app = App::new();
    app.refresh_sidebar(ws.nodes());
    app.sidebar.nodes.push(TreeNode {
        id: "unsynced-ds".into(),
        title: "Unsynced".into(),
        parent_id: None,
        kind: NodeKind::DataSource,
    });
    let idx = app.sidebar.visible().iter().position(|v| v.node.id == "unsynced-ds").unwrap();
    app.sidebar.cursor = idx;
    ws.press(&mut app, key('v'));
    let notice = app.notice.as_deref().unwrap_or("");
    assert!(notice.contains("unsynced-ds"), "expected the specific not-found notice naming the id, got: {notice:?}");
}

#[test]
fn v_on_an_unsynced_child_database_block_keeps_the_specific_not_found_notice() {
    let ws = Workspace {
        pages: vec![page("p1", "Marc")],
        blocks: vec![block("missing-db", "p1", 0, "child_database", "Tracker")],
        ..Default::default()
    };
    let mut app = app_on(&ws, "p1");
    ws.press(&mut app, key('v'));
    let notice = app.notice.as_deref().unwrap_or("");
    assert!(notice.contains("missing-db"), "expected the specific not-found notice naming the id, got: {notice:?}");
}

#[test]
fn v_on_a_hovered_sidebar_database_opens_it_as_a_board() {
    let ws = linked_workspace();
    let mut app = App::new();
    app.refresh_sidebar(ws.nodes());
    let ds_idx = app.sidebar.visible().iter().position(|v| v.node.id == "ds1").expect("ds1 should be in the sidebar");
    app.sidebar.cursor = ds_idx;
    assert!(matches!(app.focus, Focus::Sidebar));
    ws.press(&mut app, key('v'));
    assert!(matches!(app.focus, Focus::Main), "v should focus the opened view");
    match &app.view {
        MainView::Board(b) => assert_eq!(b.ds.id, "ds1"),
        _ => panic!("expected Board view after pressing v on a sidebar database"),
    }
}

// ---------------------------------------------------------------------------
// A page that went away

#[test]
fn page_gone_forgets_the_page_and_shows_a_notice() {
    let ws = Workspace { pages: vec![page("p1", "T")], ..Default::default() };
    let mut app = App::new();
    ws.open(&mut app, "p1");
    assert!(matches!(&app.view, MainView::Page(v) if v.page.id == "p1"));
    let e = app.handle_page_gone("p1", true);
    assert!(matches!(e, Effect::Noop));
    assert!(app.notice.as_deref().unwrap_or("").contains("deleted or unshared"));
    assert!(matches!(app.view, MainView::Empty), "no history to fall back to, so the view clears");
}

#[test]
fn page_gone_falls_back_to_history_when_available() {
    let ws = Workspace { pages: vec![page("p1", "T"), page("p2", "Second")], ..Default::default() };
    let mut app = App::new();
    ws.open(&mut app, "p1");
    app.history.push("p1".to_string());
    ws.open(&mut app, "p2");
    let e = app.handle_page_gone("p2", true);
    ws.perform(&mut app, e);
    assert!(matches!(&app.view, MainView::Page(v) if v.page.id == "p1"));
}

#[test]
fn page_gone_does_not_drop_a_page_with_a_pending_local_edit() {
    let ws = Workspace { pages: vec![page("p1", "T")], ..Default::default() };
    let mut app = App::new();
    ws.open(&mut app, "p1");
    // The store kept the page: it has an unpushed edit.
    let e = app.handle_page_gone("p1", false);
    assert!(matches!(e, Effect::Noop));
    assert!(app.notice.is_none());
    assert!(matches!(&app.view, MainView::Page(v) if v.page.id == "p1"), "must not navigate away from a page that was kept");
}

// ---------------------------------------------------------------------------
// The queue

fn conflicted_op() -> OpRec {
    OpRec {
        seq: 7,
        op_type: "update_block".into(),
        target_id: "b1".into(),
        payload: obj(vec![("page_id", s("p1"))]),
        base_edited_time: Some("t1".into()),
        state: "conflicted".into(),
        error: None,
    }
}

#[test]
fn q_opens_queue_listing_ops_and_q_returns_to_previous_view() {
    let ws = Workspace { pages: vec![page("p1", "P")], ops: vec![conflicted_op()], ..Default::default() };
    let mut app = app_on(&ws, "p1");
    ws.press(&mut app, shift('Q'));
    match &app.view {
        MainView::Queue(q) => {
            assert_eq!(q.ops.len(), 1);
            assert_eq!(q.ops[0].state, "conflicted");
        }
        _ => panic!("expected queue view"),
    }
    ws.press(&mut app, shift('Q'));
    assert!(matches!(app.view, MainView::Page(_)));
}

#[test]
fn keep_mine_from_queue_clears_base_and_repends_op() {
    let ws = Workspace { ops: vec![conflicted_op()], ..Default::default() };
    let mut app = main_app();
    ws.press(&mut app, shift('Q'));
    let e = ws.press(&mut app, key('p'));
    assert!(matches!(e, Some(Effect::KeepMine(7))));
}

#[test]
fn take_theirs_from_queue_deletes_op() {
    let ws = Workspace { ops: vec![conflicted_op()], ..Default::default() };
    let mut app = main_app();
    ws.press(&mut app, shift('Q'));
    let e = ws.press(&mut app, key('t'));
    assert!(matches!(e, Some(Effect::TakeTheirs(7))));
    let e = ws.press(&mut app, key('e'));
    assert!(matches!(e, Some(Effect::Merge(7))));
    let e = ws.press(&mut app, key('r'));
    assert!(matches!(e, Some(Effect::RetryOp(7))));
}

// ---------------------------------------------------------------------------
// Reloading

#[test]
fn page_refresh_preserves_cursor_and_collapsed_toggles() {
    let blocks = vec![block("b1", "p1", 0, "paragraph", "a"), block("b2", "p1", 1, "toggle", "b"), block("b3", "p1", 2, "paragraph", "c")];
    let mut prev = PageView::new(page("p1", "P"), blocks.iter().map(cblock).collect());
    prev.cursor = 1;
    prev.collapsed_toggles = vec!["b2".to_string()];
    let fresh = notion_tui::app::refreshed_page(&prev, PageView::new(page("p1", "P"), blocks));
    assert_eq!(fresh.cursor, 1);
    assert_eq!(fresh.collapsed_toggles, vec!["b2".to_string()]);
}

#[test]
fn page_refresh_clamps_cursor_when_blocks_shrink() {
    let blocks = vec![block("b1", "p1", 0, "paragraph", "a"), block("b2", "p1", 1, "paragraph", "b"), block("b3", "p1", 2, "paragraph", "c")];
    let mut prev = PageView::new(page("p1", "P"), blocks);
    prev.cursor = 2;
    let fresh = notion_tui::app::refreshed_page(&prev, PageView::new(page("p1", "P"), vec![block("b1", "p1", 0, "paragraph", "a")]));
    assert_eq!(fresh.cursor, 0);
}

fn sort_schema() -> Json {
    obj(vec![("Name", obj(vec![("type", s("title"))])), ("Prio", obj(vec![("type", s("select"))]))])
}

fn prio_row(id: &str, name: &str, prio: &str) -> RowRec {
    row(id, "ds", obj(vec![("Name", title_prop(name)), ("Prio", obj(vec![("type", s("select")), ("select", obj(vec![("name", s(prio))]))]))]))
}

#[test]
fn table_refresh_follows_selected_row_and_keeps_sort() {
    let rows = vec![prio_row("r1", "b", "x"), prio_row("r2", "a", "y"), prio_row("r3", "c", "z")];
    let mut prev = TableView::new(ds("ds", "db", sort_schema()), rows.iter().map(crow).collect());
    prev.toggle_sort(0); // by Name: a, b, c
    prev.cursor = 1; // "b" (r1)
    let mut more = rows;
    more.insert(0, prio_row("r0", "0", "w")); // sorts before every other row
    let fresh = notion_tui::app::refreshed_table(&prev, TableView::new(ds("ds", "db", sort_schema()), more));
    assert_eq!(fresh.sort, Some((0, true)));
    assert_eq!(fresh.selected_row_id(), Some("r1".to_string()));
    assert_eq!(fresh.cursor, 2);
}

#[test]
fn table_refresh_drops_sort_when_sorted_column_removed() {
    let rows = vec![prio_row("r1", "b", "x"), prio_row("r2", "a", "y")];
    let mut prev = TableView::new(ds("ds", "db", sort_schema()), rows.iter().map(crow).collect());
    prev.toggle_sort(1);
    prev.sort_col = 1;
    let narrow = obj(vec![("Name", obj(vec![("type", s("title"))]))]);
    let fresh = notion_tui::app::refreshed_table(&prev, TableView::new(ds("ds", "db", narrow), rows));
    assert_eq!(fresh.sort, None);
    assert_eq!(fresh.sort_col, 0);
}

#[test]
fn fresh_navigation_still_resets_state() {
    let ws = filter_workspace();
    let mut app = filtered_app(&ws);
    // Opening the table anew (not a reload) starts without the filter.
    ws.open(&mut app, "ds");
    let MainView::Table(v) = &app.view else { panic!() };
    assert!(v.filter.is_none());
    assert_eq!(v.visible().len(), 2);
}

#[test]
fn committing_a_group_property_edit_keeps_the_card_selected_in_its_new_column() {
    let schema = status_schema(&["Todo", "Done"]);
    let prev = BoardView::new(ds("ds", "db", cj(&schema)), vec![status_row("r1", "A", "Todo"), status_row("r2", "B", "Todo")]);
    let mut prev = prev;
    prev.card = 1; // r2
    // r2 now stored as Done.
    let b = notion_tui::app::refreshed_board(&prev, ds("ds", "db", schema), vec![status_row("r1", "A", "Todo"), status_row("r2", "B", "Done")]);
    assert_eq!(b.col, 1);
    assert_eq!(b.card, 0);
    assert_eq!(b.selected_row_id(), Some("r2".to_string()));
}

#[test]
fn committing_a_board_props_edit_updates_the_row_and_refreshes_the_modal() {
    let ws = board_workspace();
    let mut app = main_app();
    ws.open(&mut app, "ds");
    ws.press(&mut app, key('v'));
    ws.press(&mut app, key('p'));
    // The row as stored after the write.
    if let MainView::Board(b) = &app.view {
        let d = cds(&b.ds);
        app.view = MainView::Board(notion_tui::app::refreshed_board(b, d, vec![status_row("r1", "Task A", "Done")]));
    }
    app.reload_props("r1");
    let props = app.props.as_ref().unwrap();
    assert!(props.fields.iter().any(|f| f.name == "Status" && f.value_text == "Done"));
}

// ---------------------------------------------------------------------------
// Text editing in prompts

#[test]
fn home_delete_right_insert_edits_mid_string() {
    let ws = two_block_workspace();
    let mut app = app_on(&ws, "p1");
    ws.press(&mut app, key('i')); // prefill "First", cursor at end
    ws.press(&mut app, code(KeyCode::Home));
    ws.press(&mut app, code(KeyCode::Delete)); // "irst"
    ws.press(&mut app, code(KeyCode::Right)); // after 'i'
    ws.press(&mut app, key('X')); // "iXrst"
    let e = ws.press(&mut app, code(KeyCode::Enter));
    match e {
        Some(Effect::EditBlockText { block_id, text }) => {
            assert_eq!(block_id, "b1");
            assert_eq!(text, "iXrst");
        }
        _ => panic!("expected a block text edit"),
    }
}

#[test]
fn backspace_removes_a_whole_flag_emoji_in_the_input_modal() {
    let ws = two_block_workspace();
    let mut app = app_on(&ws, "p1");
    ws.press(&mut app, key('a')); // empty "new block" input
    ws.type_str(&mut app, "hi");
    // Terminals deliver the flag as two scalar-value key events:
    ws.press(&mut app, key('🇨'));
    ws.press(&mut app, key('🇦'));
    ws.press(&mut app, code(KeyCode::Backspace)); // must remove the whole flag
    assert_eq!(app.input.as_ref().unwrap().value(), "hi");
}

#[test]
fn search_left_arrow_does_not_refire_the_query() {
    let ws = two_block_workspace();
    let mut app = app_on(&ws, "p1");
    let e = dispatch_key(&mut app, key('/'));
    assert!(matches!(e, Effect::Noop));
    assert!(matches!(dispatch_key(&mut app, key('h')), Effect::RefreshSearch));
    assert!(matches!(dispatch_key(&mut app, code(KeyCode::Left)), Effect::Noop)); // movement only
    assert_eq!(app.search.as_ref().unwrap().input, "h");
}

// ---------------------------------------------------------------------------
// The mouse

fn area(x: u16, y: u16, width: u16, height: u16) -> Area {
    Area { x, y, width, height }
}

fn click(col: u16, row: u16) -> MouseEvent {
    MouseEvent { kind: MouseKind::LeftDown, column: col, row }
}

#[test]
fn clicking_a_sidebar_entry_opens_it() {
    let ws = Workspace { pages: vec![page("p1", "Roadmap")], ..Default::default() };
    let mut app = App::new();
    app.sidebar = SidebarState::new(vec![TreeNode { id: "p1".into(), title: "Roadmap".into(), parent_id: None, kind: NodeKind::Page }]);
    app.last_layout = LayoutRects { sidebar: Some(area(0, 0, 20, 11)), main: area(20, 0, 40, 11), ..LayoutRects::default() };

    let sidebar_rect = app.last_layout.sidebar.unwrap();
    let e = dispatch_mouse(&mut app, click(sidebar_rect.x + 2, sidebar_rect.y + 1));
    ws.perform(&mut app, e);

    assert!(matches!(app.focus, Focus::Sidebar));
    assert!(matches!(&app.view, MainView::Page(v) if v.page.id == "p1"));
}

#[test]
fn clicking_a_card_in_a_non_active_scrolled_column_selects_the_right_card() {
    let mut rows: Vec<RowRec> = (0..10).map(|i| status_row(&format!("todo-{i}"), &format!("Todo {i}"), "Todo")).collect();
    rows.push(status_row("target", "Target Card", "Done"));
    let mut app = main_app();
    app.sidebar.hidden = true;
    app.view = MainView::Board(BoardView::new(ds("ds", "db", status_schema(&["Todo", "Done"])), rows));
    if let MainView::Board(v) = &mut app.view {
        v.col = 0;
        v.card = 9;
    }
    // Column 0 is drawn scrolled by 3 cards; the others from the top.
    app.last_layout = LayoutRects {
        main: area(0, 0, 60, 9),
        board_columns: vec![area(0, 0, 20, 9), area(20, 0, 20, 9), area(40, 0, 20, 9)],
        main_offset: 3,
        ..LayoutRects::default()
    };

    let done_col_rect = app.last_layout.board_columns[1];
    dispatch_mouse(&mut app, click(done_col_rect.x + 2, done_col_rect.y + 1));

    let MainView::Board(v) = &app.view else { panic!("expected a board view") };
    assert_eq!(v.col, 1, "click should switch to the clicked column");
    assert_eq!(
        v.cards_in(1).get(v.card).map(|r| r.id.as_str()),
        Some("target"),
        "must select the actual clicked card, not one offset by column 0's scroll"
    );
}

#[test]
fn dragging_a_card_to_another_column_writes_the_move() {
    let mut app = main_app();
    app.view = MainView::Board(BoardView::new(ds("ds", "db", status_schema(&["Todo", "Done"])), vec![status_row("r1", "A", "Todo")]));
    app.last_layout = LayoutRects {
        main: area(0, 0, 60, 9),
        board_columns: vec![area(0, 0, 20, 9), area(20, 0, 20, 9), area(40, 0, 20, 9)],
        ..LayoutRects::default()
    };
    dispatch_mouse(&mut app, click(2, 1));
    assert_eq!(app.drag_card, Some((0, 0)));
    dispatch_mouse(&mut app, MouseEvent { kind: MouseKind::LeftDrag, column: 25, row: 3 });
    let e = dispatch_mouse(&mut app, MouseEvent { kind: MouseKind::LeftUp, column: 25, row: 3 });
    match e {
        Effect::UpdateRowProperty { row_id, prop_name, text, .. } => {
            assert_eq!(row_id, "r1");
            assert_eq!(prop_name, "Status");
            assert_eq!(text, "Done");
        }
        _ => panic!("expected a row update"),
    }
    assert!(app.drag_card.is_none());
}

#[test]
fn wheel_scrolls_the_table_by_three() {
    let mut app = table_app(10);
    dispatch_mouse(&mut app, MouseEvent { kind: MouseKind::ScrollDown, column: 0, row: 0 });
    let MainView::Table(v) = &app.view else { panic!() };
    assert_eq!(v.cursor, 3);
}

#[test]
fn header_click_sorts_the_clicked_column() {
    let mut app = main_app();
    app.view = MainView::Table(TableView::new(ds("ds", "db", sort_schema()), vec![prio_row("r1", "b", "y"), prio_row("r2", "a", "x")]));
    app.last_layout = LayoutRects {
        main: area(0, 0, 60, 9),
        table_header_y: Some(1),
        table_col_x: vec![1, 30],
        ..LayoutRects::default()
    };
    dispatch_mouse(&mut app, click(35, 1));
    let MainView::Table(v) = &app.view else { panic!() };
    assert_eq!(v.sort, Some((1, true)));
    assert_eq!(v.rows[0].id, "r2");
}

#[test]
fn breadcrumb_does_not_hang_on_a_cyclic_parent_chain() {
    let ws = Workspace {
        pages: vec![child_page("a", "b", "A"), child_page("b", "a", "B")],
        ..Default::default()
    };
    let mut app = main_app();
    ws.open(&mut app, "a");
    let get = |id: &String| ws.pages.iter().find(|p| &p.id == id).map(cpage);
    let crumb = app.breadcrumb(&get);
    assert!(crumb.is_some());
}

#[test]
fn breadcrumb_lists_ancestors_from_the_workspace_down() {
    let ws = Workspace {
        pages: vec![page("root", "Root"), child_page("mid", "root", "Mid"), child_page("leaf", "mid", "Leaf")],
        ..Default::default()
    };
    let mut app = main_app();
    ws.open(&mut app, "leaf");
    let get = |id: &String| ws.pages.iter().find(|p| &p.id == id).map(cpage);
    assert_eq!(app.breadcrumb(&get).as_deref(), Some("workspace → Root → Mid → Leaf"));
}

// ---------------------------------------------------------------------------
// Editing a page in an external editor: the round trip the program runs
// around the editor, with an injected editor.

use notion_tui::markdown::diff::{plan_edit, resync_plan, BlockRef, Edit};
use notion_tui::markdown::{blocks_to_markdown, parse_markdown_checked, Unit};

impl Workspace {
    /// Applies an edited document to page `page_id`'s blocks the way the
    /// store does: confirmed protected deletions, the planned edits, then
    /// the moves.
    fn apply_edit(&mut self, page_id: &str, units: &Vec<Unit>, edited: &str, confirmed: &[String]) -> notion_tui::markdown::Applied {
        self.blocks.retain(|b| !confirmed.contains(&b.id));
        let current: Vec<BlockRec> = self.blocks.iter().filter(|b| b.page_id == page_id).map(cblock).collect();
        let plan = plan_edit(units, edited, &confirmed.to_vec(), &current);
        let mut inserted: Vec<String> = Vec::new();
        for e in &plan.edits {
            match e {
                Edit::UpdateText { id, text } => {
                    self.blocks.iter_mut().find(|b| &b.id == id).unwrap().plain_text = text.clone();
                }
                Edit::Delete { id } => self.blocks.retain(|b| &b.id != id),
                Edit::InsertAfter { after, block_type, text } => {
                    let id = format!("new{}", inserted.len() + 1);
                    let after = after.as_ref().map(|r| match r {
                        BlockRef::Existing(id) => id.clone(),
                        BlockRef::Inserted(k) => inserted[*k].clone(),
                    });
                    let ordinal = match after {
                        Some(a) => self.blocks.iter().find(|b| b.id == a).unwrap().ordinal + 1,
                        None => 0,
                    };
                    for b in self.blocks.iter_mut().filter(|b| b.page_id == page_id && b.ordinal >= ordinal) {
                        b.ordinal += 1;
                    }
                    self.blocks.push(block(&id, page_id, ordinal, block_type, text));
                    inserted.push(id);
                }
            }
        }
        let ids: Vec<Option<String>> = plan
            .line_ids
            .iter()
            .map(|r| {
                r.as_ref().map(|r| match r {
                    BlockRef::Existing(id) => id.clone(),
                    BlockRef::Inserted(k) => inserted[*k].clone(),
                })
            })
            .collect();
        let after: Vec<BlockRec> = self.blocks.iter().filter(|b| b.page_id == page_id).map(cblock).collect();
        let moves = resync_plan(&after, &ids, &plan.lines);
        for m in &moves {
            let b = self.blocks.iter_mut().find(|b| b.id == m.id).unwrap();
            b.parent_block_id = m.parent.clone();
            b.ordinal = m.ordinal;
        }
        plan.applied(moves.len())
    }

    fn page_blocks(&self, page_id: &str) -> Vec<&BlockRec> {
        let mut v: Vec<&BlockRec> = self.blocks.iter().filter(|b| b.page_id == page_id).collect();
        v.sort_by_key(|b| b.ordinal);
        v
    }
}

/// An edit waiting for the user's answer.
enum Held {
    Nothing,
    Warned(Vec<Unit>, String),
    Protected(Vec<Unit>),
}

/// `e` on the page shown, with `run` standing in for the editor.
fn edit_in_editor(ws: &mut Workspace, app: &mut App, run: impl FnOnce(&str) -> Result<String, String>) -> Held {
    let (page_id, blocks) = match &app.view {
        MainView::Page(v) => (v.page.id.clone(), v.blocks.iter().map(cblock).collect::<Vec<_>>()),
        _ => return Held::Nothing,
    };
    let (md, units) = blocks_to_markdown(&blocks);
    let edited = match run(&md) {
        Ok(t) => t,
        Err(e) => {
            app.editor_failed(&e);
            return Held::Nothing;
        }
    };
    let (_, warnings) = parse_markdown_checked(&edited);
    if app.hold_for_warnings(&warnings) {
        return Held::Warned(units, edited);
    }
    finish_edit(ws, app, &page_id, units, &edited)
}

fn finish_edit(ws: &mut Workspace, app: &mut App, page_id: &str, units: Vec<Unit>, edited: &str) -> Held {
    let applied = ws.apply_edit(page_id, &units, edited, &[]);
    if app.report_applied(applied) {
        Held::Protected(units)
    } else {
        ws.open(app, page_id);
        Held::Nothing
    }
}

/// Answers a held edit with `c` (`y` or `n`).
fn answer(ws: &mut Workspace, app: &mut App, held: Held, c: char) {
    let e = dispatch_key(app, key(c));
    match (e, held) {
        (Effect::ResolveWarnings(yes), Held::Warned(units, edited)) => {
            if yes {
                finish_edit(ws, app, "p1", units, &edited);
            } else {
                app.discard_edit();
            }
        }
        (Effect::ResolveDeleteProtected(yes), Held::Protected(units)) => {
            let state = app.confirm.take();
            if yes {
                let ids = state.map(|s| s.ids).unwrap_or_default();
                ws.apply_edit("p1", &units, "", &ids);
            }
            ws.open(app, "p1");
        }
        _ => panic!("unexpected effect for the held edit"),
    }
}

fn one_paragraph_workspace() -> Workspace {
    Workspace { pages: vec![page("p1", "P")], blocks: vec![block("b1", "p1", 0, "paragraph", "First")], ..Default::default() }
}

fn two_paragraph_workspace() -> Workspace {
    Workspace {
        pages: vec![page("p1", "P")],
        blocks: vec![block("b1", "p1", 0, "paragraph", "First"), block("b2", "p1", 1, "paragraph", "Second")],
        ..Default::default()
    }
}

#[test]
fn e_key_edits_via_injected_editor_and_applies_the_result() {
    let mut ws = one_paragraph_workspace();
    let mut app = app_on(&ws, "p1");
    assert!(matches!(ws.press(&mut app, key('e')), Some(Effect::EditInEditor)));
    edit_in_editor(&mut ws, &mut app, |_initial| Ok("First\nSecond".to_string()));
    assert_eq!(ws.page_blocks("p1").len(), 2);
}

#[test]
fn missing_protected_block_asks_for_confirmation_before_deleting() {
    let mut ws = Workspace {
        pages: vec![page("p1", "P")],
        blocks: vec![block("tg1", "p1", 0, "toggle", "More")],
        ..Default::default()
    };
    let mut app = app_on(&ws, "p1");
    let held = edit_in_editor(&mut ws, &mut app, |_initial| Ok(String::new()));
    assert!(app.confirm.is_some());
    assert_eq!(ws.page_blocks("p1").len(), 1);
    answer(&mut ws, &mut app, held, 'y');
    assert!(app.confirm.is_none());
    assert!(ws.page_blocks("p1").is_empty());
}

#[test]
fn editor_failure_is_surfaced_in_notice() {
    let mut ws = one_paragraph_workspace();
    let mut app = app_on(&ws, "p1");
    edit_in_editor(&mut ws, &mut app, |_initial| Err("editor exited with signal 9".to_string()));
    assert!(app.notice.as_deref().unwrap_or("").contains("editor failed"));
    assert!(app.notice.as_deref().unwrap().contains("signal 9"));
}

#[test]
fn successful_edit_reports_a_change_summary() {
    let mut ws = two_paragraph_workspace();
    let mut app = app_on(&ws, "p1");
    edit_in_editor(&mut ws, &mut app, |initial| Ok(format!("{initial}\nbrand new line")));
    let n = app.notice.as_deref().unwrap_or("");
    assert!(n.contains("1 added"), "notice was: {n}");
}

#[test]
fn unclosed_fence_asks_for_confirmation_and_discard_keeps_page_intact() {
    let mut ws = two_paragraph_workspace();
    let mut app = app_on(&ws, "p1");
    let held = edit_in_editor(&mut ws, &mut app, |initial| Ok(format!("{initial}\n```\ntrailing")));
    assert!(app.confirm.is_some(), "must ask before applying a fence-swallowing edit");
    answer(&mut ws, &mut app, held, 'n');
    assert!(app.confirm.is_none());
    assert_eq!(app.notice.as_deref(), Some("edit discarded"));
    assert_eq!(ws.page_blocks("p1").len(), 2);
    assert_eq!(ws.ops.len(), 0);
}

#[test]
fn unclosed_fence_confirm_yes_applies_the_edit() {
    let mut ws = two_paragraph_workspace();
    let mut app = app_on(&ws, "p1");
    let held = edit_in_editor(&mut ws, &mut app, |initial| Ok(format!("{initial}\n```\ntrailing")));
    assert!(app.confirm.is_some());
    let msg = app.confirm.as_ref().unwrap().message.clone();
    assert!(msg.contains("unclosed code fence at line 3"), "message was: {msg}");
    answer(&mut ws, &mut app, held, 'y');
    assert!(app.confirm.is_none());
    let n = app.notice.as_deref().unwrap_or("");
    assert!(n.contains("1 added"), "notice was: {n}");
    let blocks = ws.page_blocks("p1");
    assert_eq!(blocks.len(), 3);
    assert_eq!(blocks[2].block_type, "code");
}

#[test]
fn no_op_edit_reports_no_changes() {
    let mut ws = two_paragraph_workspace();
    let mut app = app_on(&ws, "p1");
    edit_in_editor(&mut ws, &mut app, |initial| Ok(initial.to_string()));
    assert_eq!(app.notice.as_deref(), Some("no changes"));
}

#[test]
fn tab_between_the_two_ds_cancels_the_delete() {
    let ws = todo_workspace();
    let mut app = app_on(&ws, "p1");
    ws.press(&mut app, key('d'));
    assert!(app.pending_d);
    ws.press(&mut app, code(KeyCode::Tab));
    assert!(!app.pending_d);
    ws.press(&mut app, code(KeyCode::Tab));
    ws.press(&mut app, key('d'));
    assert!(app.confirm.is_none());
    assert!(app.pending_d);
}
