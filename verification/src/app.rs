//! The screen state and the key handling that drives it: which key does
//! what in which view, and what work each key leaves to the caller (reads
//! and writes of the local store, the external editor, the network).
use vstd::prelude::*;
use crate::keys::{KeyCode, KeyEvent, KeyModifiers};
use crate::keymap::{Chord, Keymap, action_index, chord_matches};
use crate::markdown::Applied;
use crate::text::{push_str, push_decimal, decimal};
use crate::keys::{MouseEvent, MouseKind};
use crate::ui::{Area, LayoutRects, SyncStatus};
use crate::ui::board::{BoardView, in_column, last_index, col_moved, card_moved};
use crate::ui::comments::CommentsState;
use crate::ui::confirm::ConfirmState;
use crate::ui::input::InputState;
use crate::ui::page::{PageView, page_lines, page_moved, page_toggled, opt_text};
use crate::ui::palette::PaletteState;
use crate::ui::picker::PickerState;
use crate::ui::props::PropsState;
use crate::ui::queue::QueueView;
use crate::ui::search::SearchState;
use crate::ui::sidebar::{SidebarState, TreeNode, sidebar_moved, sidebar_toggled};
use crate::ui::table::{TableView, clamp, sort_toggled};

verus! {

broadcast use vstd::string::group_string_axioms;

/// Which pane keys go to.
#[derive(Clone, Copy, Debug, PartialEq, Eq, Structural)]
pub enum Focus {
    Sidebar,
    Main,
}

/// What the main pane shows.
pub enum MainView {
    Empty,
    Page(PageView),
    Table(TableView),
    Board(BoardView),
    Queue(QueueView),
}

/// A navigation or edit a key asks for.
pub enum Action {
    Noop,
    OpenNode(TreeNode),
    OpenPage(String),
    /// Returned only by the back key: open without pushing history (the
    /// entry was already popped).
    Back(String),
    ToggleTodo(String),
    DeleteBlock(String),
    DeleteRow(String),
    MoveCard { row_id: String, prop_name: String, prop_type: String, value: String },
    Undo,
}

/// Messages background work sends back to the screen.
pub enum AppMsg {
    Refreshed,
    MergeReady {
        op_seq: i64,
        block_id: String,
        local_text: String,
        remote_text: String,
        remote_edited_time: String,
    },
    PageGone(String),
}

/// What the text input modal is collecting text for.
pub enum InputPurpose {
    EditBlockText { block_id: String },
    InsertBlockAfter { page_id: String, after_block_id: Option<String> },
    NewRow { data_source_id: String, title_prop_name: String },
    NewComment { parent_id: String, parent_kind: String, thread_id: Option<String> },
    RenamePage { page_id: String },
    RenameRow { row_id: String, title_prop_name: String },
    FilterTable { data_source_id: String, col: Option<usize> },
}

/// What the picker modal is choosing for.
pub enum PickerPurpose {
    MovePage { page_id: String },
    GroupBy { data_source_id: String },
}

/// The state of the screen: focus, panes, open modals and status.
pub struct App {
    pub focus: Focus,
    pub sync_status: SyncStatus,
    pub should_quit: bool,
    pub sidebar: SidebarState,
    pub view: MainView,
    /// Ids of the places navigated away from, most recent last.
    pub history: Vec<String>,
    pub search: Option<SearchState>,
    pub input: Option<InputState>,
    pub input_purpose: Option<InputPurpose>,
    pub props: Option<PropsState>,
    pub pending: u32,
    /// The first `d` of a `dd` delete has been pressed.
    pub pending_d: bool,
    pub confirm: Option<ConfirmState>,
    pub comments: Option<CommentsState>,
    /// The view the queue replaced, restored when it closes.
    pub queue_return: Option<Box<MainView>>,
    pub conflicted: u32,
    pub editor_override: Option<String>,
    pub keymap: Keymap,
    pub help_open: bool,
    pub palette: Option<PaletteState>,
    pub picker: Option<PickerState>,
    pub picker_purpose: Option<PickerPurpose>,
    /// Whether mouse capture is on.
    pub mouse: bool,
    /// A subprocess drew over the screen: clear before the next draw.
    pub force_redraw: bool,
    /// A user-facing explanation for a key that found nothing to do;
    /// cleared on the next key press.
    pub notice: Option<String>,
    /// The board (column, card) a drag started on.
    pub drag_card: Option<(usize, usize)>,
    /// Where the last frame drew each region.
    pub last_layout: LayoutRects,
}

/// The summary of one kind of change: `"{n} {what}"`.
pub open spec fn part(n: u32, what: Seq<char>) -> Seq<char> {
    decimal(n as nat) + " "@ + what
}

/// The non-zero counts of an applied edit, in the order updated, added,
/// deleted, moved.
pub open spec fn applied_parts(a: Applied) -> Seq<Seq<char>> {
    let p1: Seq<Seq<char>> = if a.updated > 0 {
        seq![part(a.updated, "updated"@)]
    } else {
        Seq::empty()
    };
    let p2 = if a.inserted > 0 {
        p1.push(part(a.inserted, "added"@))
    } else {
        p1
    };
    let p3 = if a.deleted > 0 {
        p2.push(part(a.deleted, "deleted"@))
    } else {
        p2
    };
    if a.reordered > 0 {
        p3.push(part(a.reordered, "moved"@))
    } else {
        p3
    }
}

/// `parts` joined with `" · "`.
pub open spec fn dot_joined(parts: Seq<Seq<char>>) -> Seq<char>
    decreases parts.len(),
{
    if parts.len() == 0 {
        Seq::empty()
    } else if parts.len() == 1 {
        parts[0]
    } else {
        dot_joined(parts.drop_last()) + " · "@ + parts.last()
    }
}

/// The summary of an applied edit.
pub open spec fn summary_spec(a: Applied) -> Seq<char> {
    if applied_parts(a).len() == 0 {
        "no changes"@
    } else {
        "edited: "@ + dot_joined(applied_parts(a))
    }
}

fn push_part(s: &mut String, first: bool, n: u32, what: &str)
    ensures
        final(s)@ == old(s)@ + (if first {
            Seq::empty()
        } else {
            " · "@
        }) + part(n, what@),
{
    if !first {
        push_str(s, " · ");
    }
    push_decimal(s, n as u64);
    push_str(s, " ");
    push_str(s, what);
    proof {
        assert(final(s)@ =~= old(s)@ + (if first {
            Seq::empty()
        } else {
            " · "@
        }) + part(n, what@));
    }
}

/// A human-readable summary of an applied Markdown edit, e.g.
/// `edited: 1 updated · 2 added`, or `no changes` when nothing differs.
pub fn summarize_applied(a: &Applied) -> (r: String)
    ensures
        r@ == summary_spec(*a),
{
    let ghost ps = applied_parts(*a);
    let mut s = String::new();
    push_str(&mut s, "edited: ");
    let mut any = false;
    let ghost mut done: Seq<Seq<char>> = Seq::empty();
    proof {
        reveal_strlit("edited: ");
    }
    if a.updated > 0 {
        push_part(&mut s, !any, a.updated, "updated");
        any = true;
        proof {
            done = done.push(part(a.updated, "updated"@));
            assert(s@ =~= "edited: "@ + dot_joined(done));
        }
    }
    if a.inserted > 0 {
        let ghost before = done;
        push_part(&mut s, !any, a.inserted, "added");
        proof {
            done = done.push(part(a.inserted, "added"@));
            assert(done.drop_last() =~= before);
            assert(s@ =~= "edited: "@ + dot_joined(done));
        }
        any = true;
    }
    if a.deleted > 0 {
        let ghost before = done;
        push_part(&mut s, !any, a.deleted, "deleted");
        proof {
            done = done.push(part(a.deleted, "deleted"@));
            assert(done.drop_last() =~= before);
            assert(s@ =~= "edited: "@ + dot_joined(done));
        }
        any = true;
    }
    if a.reordered > 0 {
        let ghost before = done;
        push_part(&mut s, !any, a.reordered, "moved");
        proof {
            done = done.push(part(a.reordered, "moved"@));
            assert(done.drop_last() =~= before);
            assert(s@ =~= "edited: "@ + dot_joined(done));
        }
        any = true;
    }
    proof {
        assert(done =~= ps);
    }
    if any {
        s
    } else {
        "no changes".to_owned()
    }
}

// ---------------------------------------------------------------------------
// Keys in the views

/// Whether `key` triggers `action` under the bindings `km`.
pub open spec fn km_is(km: Seq<Chord>, action: Seq<char>, key: KeyEvent) -> bool {
    match action_index(action) {
        Some(i) => chord_matches(km[i], key),
        None => false,
    }
}

/// The key moves down: its binding or the arrow.
pub open spec fn is_down(km: Seq<Chord>, key: KeyEvent) -> bool {
    km_is(km, "down"@, key) || key.code == KeyCode::Down
}

/// The key moves up: its binding or the arrow.
pub open spec fn is_up(km: Seq<Chord>, key: KeyEvent) -> bool {
    km_is(km, "up"@, key) || key.code == KeyCode::Up
}

/// Control with character `c` and nothing else.
pub open spec fn ctrl_char(key: KeyEvent, c: char) -> bool {
    key.code == KeyCode::Char(c) && key.modifiers.is_control_only()
}

/// The to-do block under a page's cursor.
pub open spec fn todo_at(v: PageView) -> Option<Seq<char>> {
    if v.cursor < page_lines(v).len() && exists|k: int|
        0 <= k < v.blocks@.len() && #[trigger] v.blocks@[k].id@ == page_lines(v)[v.cursor as int].0
            && v.blocks@[k].block_type@ == "to_do"@ {
        Some(page_lines(v)[v.cursor as int].0)
    } else {
        None
    }
}

/// The link target of the line under a page's cursor.
pub open spec fn link_at(v: PageView) -> Option<Seq<char>> {
    if v.cursor < page_lines(v).len() {
        page_lines(v)[v.cursor as int].3
    } else {
        None
    }
}

/// The block of the line under a page's cursor.
pub open spec fn block_at(v: PageView) -> Option<Seq<char>> {
    if v.cursor < page_lines(v).len() {
        Some(page_lines(v)[v.cursor as int].0)
    } else {
        None
    }
}

/// `r` asks to open the page `id` (or asks nothing when there is none).
pub open spec fn opens(r: Action, id: Option<Seq<char>>) -> bool {
    match id {
        Some(x) => r matches Action::OpenPage(p) && p@ == x,
        None => r is Noop,
    }
}

/// A key on a page: cursor moves, toggles, following links, going back.
/// `h` is the history before and `nh` after.
pub open spec fn page_key_rel(
    o: PageView,
    h: Seq<String>,
    km: Seq<Chord>,
    key: KeyEvent,
    n: PageView,
    nh: Seq<String>,
    r: Action,
) -> bool {
    if is_down(km, key) {
        page_moved(o, n, 1) && nh == h && r is Noop
    } else if is_up(km, key) {
        page_moved(o, n, -1) && nh == h && r is Noop
    } else if km_is(km, "top"@, key) {
        n == (PageView { cursor: 0, ..o }) && nh == h && r is Noop
    } else if km_is(km, "bottom"@, key) {
        n == (PageView { cursor: last_index(page_lines(o).len() as int) as usize, ..o }) && nh == h && r is Noop
    } else if ctrl_char(key, 'd') {
        page_moved(o, n, 10) && nh == h && r is Noop
    } else if ctrl_char(key, 'u') {
        page_moved(o, n, -10) && nh == h && r is Noop
    } else if km_is(km, "left"@, key) || km_is(km, "right"@, key) {
        page_toggled(o, n) && nh == h && r is Noop
    } else if km_is(km, "toggle"@, key) {
        n == o && nh == h && match todo_at(o) {
            Some(id) => r matches Action::ToggleTodo(x) && x@ == id,
            None => r is Noop,
        }
    } else if km_is(km, "open"@, key) {
        n == o && nh == h && opens(r, link_at(o))
    } else if km_is(km, "back"@, key) || key.code == KeyCode::Backspace {
        n == o && if h.len() > 0 {
            nh == h.drop_last() && r == Action::Back(h.last())
        } else {
            nh == h && r is Noop
        }
    } else {
        n == o && nh == h && r is Noop
    }
}

/// The id of the row under a table's cursor.
pub open spec fn table_row_at(v: TableView) -> Option<Seq<char>> {
    if v.cursor < crate::ui::table::shown(v).len() {
        Some(v.rows@[crate::ui::table::shown(v)[v.cursor as int]].id@)
    } else {
        None
    }
}

/// `o` with its cursor moved by `delta` shown rows, clamped.
pub open spec fn table_moved(o: TableView, delta: int) -> TableView {
    TableView {
        cursor: if crate::ui::table::shown(o).len() == 0 {
            o.cursor
        } else {
            clamp(o.cursor + delta, 0, crate::ui::table::shown(o).len() - 1) as usize
        },
        ..o
    }
}

/// A key on a table: cursor moves, the sort column, sorting, opening a row.
pub open spec fn table_key_rel(o: TableView, km: Seq<Chord>, key: KeyEvent, n: TableView, r: Action) -> bool {
    if is_down(km, key) {
        n == table_moved(o, 1) && r is Noop
    } else if is_up(km, key) {
        n == table_moved(o, -1) && r is Noop
    } else if km_is(km, "top"@, key) {
        n == (TableView { cursor: 0, ..o }) && r is Noop
    } else if km_is(km, "bottom"@, key) {
        n == (TableView { cursor: last_index(crate::ui::table::shown(o).len() as int) as usize, ..o }) && r is Noop
    } else if ctrl_char(key, 'd') {
        n == table_moved(o, 10) && r is Noop
    } else if ctrl_char(key, 'u') {
        n == table_moved(o, -10) && r is Noop
    } else if km_is(km, "left"@, key) {
        n == (TableView { sort_col: last_index(o.sort_col as int) as usize, ..o }) && r is Noop
    } else if km_is(km, "right"@, key) {
        n == (TableView {
            sort_col: if o.sort_col + 1 < o.columns@.len() {
                (o.sort_col + 1) as usize
            } else {
                o.sort_col
            },
            ..o
        }) && r is Noop
    } else if km_is(km, "sort"@, key) {
        sort_toggled(o, n, o.sort_col) && r is Noop
    } else if km_is(km, "open"@, key) {
        n == o && opens(r, table_row_at(o))
    } else {
        n == o && r is Noop
    }
}

/// The id of the card under a board's cursor.
pub open spec fn board_card_at(v: BoardView) -> Option<Seq<char>> {
    if v.card < in_column(v, v.col as int).len() {
        Some(v.rows@[in_column(v, v.col as int)[v.card as int]].id@)
    } else {
        None
    }
}

/// `o` with its card cursor moved by `delta` cards, clamped.
pub open spec fn card_cursor_moved(o: BoardView, delta: int) -> BoardView {
    BoardView {
        card: if in_column(o, o.col as int).len() == 0 {
            o.card
        } else {
            clamp(o.card + delta, 0, in_column(o, o.col as int).len() - 1) as usize
        },
        ..o
    }
}

/// Moving the selected card to column `target` of `o` gave `n`, and `r`
/// asks to write the move (or asks nothing when the move was refused).
pub open spec fn card_move_rel(o: BoardView, target: int, n: BoardView, r: Action) -> bool {
    exists|m: Option<(String, String)>|
        #[trigger] card_moved(o, n, target, m) && match m {
            Some((row_id, value)) => r == (Action::MoveCard {
                row_id,
                prop_name: o.group_prop,
                prop_type: o.group_type,
                value,
            }),
            None => r is Noop,
        }
}

/// A key on a board: card and column moves, moving a card, opening it.
pub open spec fn board_key_rel(o: BoardView, km: Seq<Chord>, key: KeyEvent, n: BoardView, r: Action) -> bool {
    if (km_is(km, "down"@, key) && key.modifiers.is_none()) || key.code == KeyCode::Down {
        n == card_cursor_moved(o, 1) && r is Noop
    } else if (km_is(km, "up"@, key) && key.modifiers.is_none()) || key.code == KeyCode::Up {
        n == card_cursor_moved(o, -1) && r is Noop
    } else if ctrl_char(key, 'd') {
        n == card_cursor_moved(o, 10) && r is Noop
    } else if ctrl_char(key, 'u') {
        n == card_cursor_moved(o, -10) && r is Noop
    } else if km_is(km, "top"@, key) {
        n == (BoardView { card: 0, ..o }) && r is Noop
    } else if km_is(km, "bottom"@, key) {
        n == (BoardView { card: last_index(in_column(o, o.col as int).len() as int) as usize, ..o }) && r is Noop
    } else if km_is(km, "left"@, key) {
        col_moved(o, n, -1) && r is Noop
    } else if km_is(km, "right"@, key) {
        col_moved(o, n, 1) && r is Noop
    } else if km_is(km, "move_card_next"@, key) {
        card_move_rel(o, o.col + 1, n, r)
    } else if km_is(km, "move_card_prev"@, key) {
        card_move_rel(o, o.col - 1, n, r)
    } else if km_is(km, "open"@, key) {
        n == o && opens(r, board_card_at(o))
    } else {
        n == o && r is Noop
    }
}

/// The node under the sidebar's cursor.
pub open spec fn sidebar_node_at(s: SidebarState) -> Option<TreeNode> {
    if s.cursor < crate::ui::sidebar::shown(s).len() {
        Some(s.nodes@[crate::ui::sidebar::shown(s)[s.cursor as int].0])
    } else {
        None
    }
}

/// A key with the sidebar focused: cursor moves, collapsing, opening.
pub open spec fn sidebar_key_rel(o: App, n: App, key: KeyEvent, r: Action) -> bool {
    let km = o.keymap@;
    if is_down(km, key) {
        n == (App { sidebar: n.sidebar, ..o }) && sidebar_moved(o.sidebar, n.sidebar, 1) && r is Noop
    } else if is_up(km, key) {
        n == (App { sidebar: n.sidebar, ..o }) && sidebar_moved(o.sidebar, n.sidebar, -1) && r is Noop
    } else if km_is(km, "left"@, key) || km_is(km, "right"@, key) {
        n == (App { sidebar: n.sidebar, ..o }) && sidebar_toggled(o.sidebar, n.sidebar) && r is Noop
    } else if km_is(km, "open"@, key) && sidebar_node_at(o.sidebar) is Some {
        n == (App { focus: Focus::Main, ..o }) && r == Action::OpenNode(sidebar_node_at(o.sidebar).unwrap())
    } else {
        n == o && r is Noop
    }
}

/// What `dd` would delete in the main pane: the block under a page's
/// cursor, the row under a table's or board's.
pub open spec fn delete_target(v: MainView) -> Option<Seq<char>> {
    match v {
        MainView::Page(p) => block_at(p),
        MainView::Table(t) => table_row_at(t),
        MainView::Board(b) => board_card_at(b),
        _ => None,
    }
}

/// The delete key in the main pane: the first press arms `dd` when there
/// is something to delete; the second asks to delete it.
pub open spec fn delete_key_rel(o: App, n: App, r: Action) -> bool {
    if o.pending_d {
        n == (App { pending_d: false, ..o }) && match delete_target(o.view) {
            Some(id) => if o.view is Page {
                r matches Action::DeleteBlock(x) && x@ == id
            } else {
                r matches Action::DeleteRow(x) && x@ == id
            },
            None => r is Noop,
        }
    } else {
        n == (App { pending_d: delete_target(o.view) is Some, ..o }) && r is Noop
    }
}

/// A key in the main pane, handed to the view shown.
pub open spec fn main_key_rel(o: App, n: App, key: KeyEvent, r: Action) -> bool {
    let km = o.keymap@;
    match o.view {
        MainView::Page(v) => n == (App { view: n.view, history: n.history, ..o }) && (n.view matches MainView::Page(
            nv,
        ) && page_key_rel(v, o.history@, km, key, nv, n.history@, r)),
        MainView::Table(v) => n == (App { view: n.view, ..o }) && (n.view matches MainView::Table(nv) && table_key_rel(
            v,
            km,
            key,
            nv,
            r,
        )),
        MainView::Board(v) => n == (App { view: n.view, ..o }) && (n.view matches MainView::Board(nv) && board_key_rel(
            v,
            km,
            key,
            nv,
            r,
        )),
        _ => n == o && r is Noop,
    }
}

/// The keys that work everywhere outside modals: quit, switching focus,
/// hiding the sidebar, undo; then `dd` and the focused pane's keys.
pub open spec fn handle_key_rel(o: App, n: App, key: KeyEvent, r: Action) -> bool {
    let km = o.keymap@;
    // every key but the second `d` cancels a half-typed `dd`
    let c = App { pending_d: false, ..o };
    if km_is(km, "quit"@, key) {
        n == (App { should_quit: true, ..c }) && r is Noop
    } else if key.code == KeyCode::Tab {
        n == (App {
            focus: if o.focus == Focus::Sidebar {
                Focus::Main
            } else {
                Focus::Sidebar
            },
            ..c
        }) && r is Noop
    } else if km_is(km, "sidebar"@, key) {
        n == (App { sidebar: SidebarState { hidden: !o.sidebar.hidden, ..o.sidebar }, ..c }) && r is Noop
    } else if km_is(km, "undo"@, key) {
        n == c && r is Undo
    } else if o.focus == Focus::Main {
        if km_is(km, "delete"@, key) {
            delete_key_rel(o, n, r)
        } else {
            main_key_rel(c, n, key, r)
        }
    } else {
        sidebar_key_rel(c, n, key, r)
    }
}

fn page_key(v: &mut PageView, history: &mut Vec<String>, km: &Keymap, key: KeyEvent) -> (r: Action)
    ensures
        page_key_rel(*old(v), old(history)@, km@, key, *final(v), final(history)@, r),
{
    if km.is("down", key) || key.code == KeyCode::Down {
        v.move_cursor(1);
    } else if km.is("up", key) || key.code == KeyCode::Up {
        v.move_cursor(-1);
    } else if km.is("top", key) {
        v.cursor = 0;
    } else if km.is("bottom", key) {
        let n = v.lines().len();
        v.cursor = if n == 0 {
            0
        } else {
            n - 1
        };
    } else if key.code == KeyCode::Char('d') && key.modifiers == KeyModifiers::control() {
        v.move_cursor(10);
    } else if key.code == KeyCode::Char('u') && key.modifiers == KeyModifiers::control() {
        v.move_cursor(-10);
    } else if km.is("left", key) || km.is("right", key) {
        v.toggle_at_cursor();
    } else if km.is("toggle", key) {
        if let Some(block_id) = v.todo_block_at_cursor() {
            return Action::ToggleTodo(block_id);
        }
    } else if km.is("open", key) {
        if let Some(target) = v.link_at_cursor() {
            return Action::OpenPage(target);
        }
    } else if km.is("back", key) || key.code == KeyCode::Backspace {
        if let Some(prev) = history.pop() {
            return Action::Back(prev);
        }
    }
    Action::Noop
}

fn table_key(v: &mut TableView, km: &Keymap, key: KeyEvent) -> (r: Action)
    ensures
        table_key_rel(*old(v), km@, key, *final(v), r),
{
    if km.is("down", key) || key.code == KeyCode::Down {
        v.move_cursor(1);
    } else if km.is("up", key) || key.code == KeyCode::Up {
        v.move_cursor(-1);
    } else if km.is("top", key) {
        v.cursor = 0;
    } else if km.is("bottom", key) {
        let n = v.row_count();
        v.cursor = if n == 0 {
            0
        } else {
            n - 1
        };
    } else if key.code == KeyCode::Char('d') && key.modifiers == KeyModifiers::control() {
        v.move_cursor(10);
    } else if key.code == KeyCode::Char('u') && key.modifiers == KeyModifiers::control() {
        v.move_cursor(-10);
    } else if km.is("left", key) {
        if v.sort_col > 0 {
            v.sort_col = v.sort_col - 1;
        }
    } else if km.is("right", key) {
        if v.sort_col < v.columns.len() && v.sort_col + 1 < v.columns.len() {
            v.sort_col = v.sort_col + 1;
        }
    } else if km.is("sort", key) {
        let c = v.sort_col;
        v.toggle_sort(c);
    } else if km.is("open", key) {
        if let Some(row_id) = v.selected_row_id() {
            return Action::OpenPage(row_id);
        }
    }
    Action::Noop
}

fn board_move(v: &mut BoardView, delta: isize) -> (r: Action)
    ensures
        card_move_rel(*old(v), old(v).col + delta, *final(v), r),
{
    let m = v.move_card(delta);
    let r = match m {
        Some((row_id, value)) => Action::MoveCard {
            row_id,
            prop_name: v.group_prop.clone(),
            prop_type: v.group_type.clone(),
            value,
        },
        None => Action::Noop,
    };
    proof {
        assert(card_moved(*old(v), *final(v), old(v).col + delta, m));
    }
    r
}

fn board_key(v: &mut BoardView, km: &Keymap, key: KeyEvent) -> (r: Action)
    ensures
        board_key_rel(*old(v), km@, key, *final(v), r),
{
    if (km.is("down", key) && key.modifiers == KeyModifiers::none()) || key.code == KeyCode::Down {
        v.move_cursor_card(1);
    } else if (km.is("up", key) && key.modifiers == KeyModifiers::none()) || key.code == KeyCode::Up {
        v.move_cursor_card(-1);
    } else if key.code == KeyCode::Char('d') && key.modifiers == KeyModifiers::control() {
        v.move_cursor_card(10);
    } else if key.code == KeyCode::Char('u') && key.modifiers == KeyModifiers::control() {
        v.move_cursor_card(-10);
    } else if km.is("top", key) {
        v.card = 0;
    } else if km.is("bottom", key) {
        let n = v.cards_in(v.col).len();
        v.card = if n == 0 {
            0
        } else {
            n - 1
        };
    } else if km.is("left", key) {
        v.move_cursor_col(-1);
    } else if km.is("right", key) {
        v.move_cursor_col(1);
    } else if km.is("move_card_next", key) {
        return board_move(v, 1);
    } else if km.is("move_card_prev", key) {
        return board_move(v, -1);
    } else if km.is("open", key) {
        if let Some(row_id) = v.selected_row_id() {
            return Action::OpenPage(row_id);
        }
    }
    Action::Noop
}

fn clone_node(n: &TreeNode) -> (r: TreeNode)
    ensures
        r == *n,
{
    TreeNode {
        id: n.id.clone(),
        title: n.title.clone(),
        parent_id: match &n.parent_id {
            Some(p) => Some(p.clone()),
            None => None,
        },
        kind: n.kind,
    }
}

/// Handles a key outside any modal: global keys first (quit, focus, the
/// sidebar, undo), then `dd`, then the focused pane. Returns the navigation
/// or edit the key asks for.
pub fn handle_key(app: &mut App, key: KeyEvent) -> (r: Action)
    ensures
        handle_key_rel(*old(app), *final(app), key, r),
{
    let armed = app.pending_d;
    app.pending_d = false;
    if app.keymap.is("quit", key) {
        app.should_quit = true;
        return Action::Noop;
    }
    if key.code == KeyCode::Tab {
        app.focus = match app.focus {
            Focus::Sidebar => Focus::Main,
            Focus::Main => Focus::Sidebar,
        };
        return Action::Noop;
    }
    if app.keymap.is("sidebar", key) {
        app.sidebar.hidden = !app.sidebar.hidden;
        return Action::Noop;
    }
    if app.keymap.is("undo", key) {
        return Action::Undo;
    }
    match app.focus {
        Focus::Main => {
            if app.keymap.is("delete", key) {
                let target = match &app.view {
                    MainView::Page(v) => v.block_id_at_cursor(),
                    MainView::Table(v) => v.selected_row_id(),
                    MainView::Board(v) => v.selected_row_id(),
                    _ => None,
                };
                if armed {
                    return match target {
                        Some(id) => match &app.view {
                            MainView::Page(_) => Action::DeleteBlock(id),
                            _ => Action::DeleteRow(id),
                        },
                        None => Action::Noop,
                    };
                }
                if target.is_some() {
                    app.pending_d = true;
                }
                return Action::Noop;
            }
            app.pending_d = false;
            match &mut app.view {
                MainView::Page(v) => page_key(v, &mut app.history, &app.keymap, key),
                MainView::Table(v) => table_key(v, &app.keymap, key),
                MainView::Board(v) => board_key(v, &app.keymap, key),
                _ => Action::Noop,
            }
        },
        Focus::Sidebar => {
            if app.keymap.is("down", key) || key.code == KeyCode::Down {
                app.sidebar.move_cursor(1);
            } else if app.keymap.is("up", key) || key.code == KeyCode::Up {
                app.sidebar.move_cursor(-1);
            } else if app.keymap.is("left", key) || app.keymap.is("right", key) {
                app.sidebar.toggle_collapse();
            } else if app.keymap.is("open", key) {
                if let Some(node) = app.sidebar.selected() {
                    let node = clone_node(node);
                    app.focus = Focus::Main;
                    return Action::OpenNode(node);
                }
            }
            Action::Noop
        },
    }
}

// ---------------------------------------------------------------------------
// Work left to the caller

/// Work a key leaves to the caller: reads and writes of the local store,
/// the external editor, background requests. The screen state has already
/// been updated for everything else.
pub enum Effect {
    Noop,
    /// Open this sidebar node (history already pushed).
    OpenNode(TreeNode),
    /// Open the page, data source or database with this id (history
    /// already pushed where the key asks for it).
    OpenPage(String),
    /// Open this sidebar data source and show it as a board.
    OpenNodeAsBoard(TreeNode),
    /// Open the child database with this id and show it as a board.
    OpenPageAsBoard(String),
    ToggleTodo(String),
    DeleteBlock(String),
    DeleteRow(String),
    Undo,
    UpdateRowProperty { row_id: String, prop_name: String, prop_type: String, text: String },
    EditBlockText { block_id: String, text: String },
    InsertBlock { page_id: String, after_block_id: Option<String>, text: String },
    CreateRow { data_source_id: String, title_prop_name: String, text: String },
    AddComment { parent_id: String, parent_kind: String, thread_id: Option<String>, text: String },
    RenamePage { page_id: String, text: String },
    MovePage { page_id: String, new_parent_id: String },
    /// Read the workspace tree and offer the open page's move targets
    /// (`App::start_move_page`).
    StartMovePage,
    RequestSync,
    RefreshSearch,
    OpenComments,
    EditInEditor,
    ToggleQueue,
    /// Answer the protected-block deletion prompt (`true`: delete).
    ResolveDeleteProtected(bool),
    /// Answer the parse-warning prompt (`true`: apply anyway).
    ResolveWarnings(bool),
    RetryOp(i64),
    KeepMine(i64),
    TakeTheirs(i64),
    /// Open the merge editor for the conflicted op with this sequence number.
    Merge(i64),
}

/// `n` is `o` showing the notice `text`.
pub open spec fn noticed(o: App, n: App, text: Seq<char>) -> bool {
    n == (App { notice: n.notice, ..o }) && (n.notice matches Some(t) && t@ == text)
}

/// The id of the place shown: the page, or the table's or board's data source.
pub open spec fn location(v: MainView) -> Option<String> {
    match v {
        MainView::Page(p) => Some(p.page.id),
        MainView::Table(t) => Some(t.ds.id),
        MainView::Board(b) => Some(b.ds.id),
        _ => None,
    }
}

/// The history after remembering the place shown, if any.
pub open spec fn pushed_history(o: App) -> Seq<String> {
    match location(o.view) {
        Some(id) => o.history@.push(id),
        None => o.history@,
    }
}

/// Showing a table as a board and back.
pub open spec fn toggle_board_rel(o: App, n: App) -> bool {
    match o.view {
        MainView::Table(t) => if crate::ui::board::group_spec(t.ds.schema_json) is Some {
            n == (App { view: n.view, ..o }) && (n.view matches MainView::Board(b) && crate::ui::board::fresh_board(
                b,
                t.ds,
                t.rows,
                None,
            ))
        } else {
            noticed(o, n, "board view needs a status or select property"@)
        },
        MainView::Board(b) => n == (App { view: n.view, ..o }) && (n.view matches MainView::Table(t)
            && crate::ui::table::fresh_table(t, b.ds, b.rows)),
        _ => noticed(o, n, "no table open to show as a board"@),
    }
}

/// `i` is a prompt titled `title` holding `text` with the cursor at its end.
pub open spec fn prompt(i: Option<InputState>, title: Seq<char>, text: Seq<char>) -> bool {
    i matches Some(x) && x.title@ == title && x.line@ == (text, text.len())
}

/// Position of the first title column at or after `i`.
pub open spec fn title_from(cols: Seq<crate::ui::table::Column>, i: int) -> Option<int>
    decreases cols.len() - i,
{
    if i < 0 || i >= cols.len() {
        None
    } else if cols[i].prop_type@ == "title"@ {
        Some(i)
    } else {
        title_from(cols, i + 1)
    }
}

/// `cols` are the columns a schema defines, in column order.
pub open spec fn columns_of(schema: crate::json::Json, cols: Seq<crate::ui::table::Column>) -> bool {
    exists|perm: Seq<usize>|
        crate::order::is_permutation(perm, crate::ui::table::schema_entries(schema).len() as int)
            && crate::order::stably_sorted(
            crate::ui::table::schema_entries(schema).map_values(
                |c: (Seq<char>, Seq<char>)| crate::ui::table::column_key(c),
            ),
            perm,
        ) && cols.len() == perm.len() && forall|k: int|
            0 <= k < cols.len() ==> crate::ui::table::column_view(#[trigger] cols[k])
                == crate::ui::table::schema_entries(schema)[perm[k] as int]
}

/// Position of the row under a table's cursor.
pub open spec fn table_row_index(v: TableView) -> Option<int> {
    if v.cursor < crate::ui::table::shown(v).len() {
        Some(crate::ui::table::shown(v)[v.cursor as int])
    } else {
        None
    }
}

/// Position of the row of the card under a board's cursor.
pub open spec fn card_index(v: BoardView) -> Option<int> {
    if v.card < in_column(v, v.col as int).len() {
        Some(in_column(v, v.col as int)[v.card as int])
    } else {
        None
    }
}

/// `n` is `o` prompting for a new title of row `row` (title property
/// `name`, current title `text`).
pub open spec fn renaming_row(o: App, n: App, row: crate::records::RowRec, name: Seq<char>, text: Seq<char>) -> bool {
    &&& n == (App { input: n.input, input_purpose: n.input_purpose, ..o })
    &&& prompt(n.input, "rename"@, text)
    &&& n.input_purpose matches Some(InputPurpose::RenameRow { row_id, title_prop_name })
    &&& row_id@ == row.id@ && title_prop_name@ == name
}

/// Starting a rename: of the page shown, or of the row under a table's or
/// board's cursor (by its title property).
pub open spec fn start_rename_rel(o: App, n: App) -> bool {
    match o.view {
        MainView::Page(v) => n == (App { input: n.input, input_purpose: n.input_purpose, ..o }) && prompt(
            n.input,
            "rename page"@,
            v.page.title@,
        ) && (n.input_purpose matches Some(InputPurpose::RenamePage { page_id }) && page_id@ == v.page.id@),
        MainView::Table(v) => match (table_row_index(v), title_from(v.columns@, 0)) {
            (Some(ri), Some(ci)) => renaming_row(
                o,
                n,
                v.rows@[ri],
                v.columns@[ci].name@,
                crate::ui::table::row_cell(v.rows@[ri], v.columns@[ci]),
            ),
            _ => n == o,
        },
        MainView::Board(v) => exists|cols: Seq<crate::ui::table::Column>|
            #[trigger] columns_of(v.ds.schema_json, cols) && match (card_index(v), title_from(cols, 0)) {
                (Some(ri), Some(ci)) => renaming_row(
                    o,
                    n,
                    v.rows@[ri],
                    cols[ci].name@,
                    crate::ui::table::prop_cell(v.rows@[ri].properties, cols[ci].name@),
                ),
                _ => n == o,
            },
        _ => noticed(o, n, "nothing to rename here"@),
    }
}

/// The choices for grouping a board: the select and status columns, each
/// as (name, `\u{1}`, type) to choose and its name to show.
pub open spec fn group_choices(cols: Seq<crate::ui::table::Column>) -> Seq<(Seq<char>, Seq<char>)>
    decreases cols.len(),
{
    if cols.len() == 0 {
        Seq::empty()
    } else {
        let rest = group_choices(cols.drop_last());
        let c = cols.last();
        if c.prop_type@ == "select"@ || c.prop_type@ == "status"@ {
            rest.push((c.name@ + seq!['\u{1}'] + c.prop_type@, c.name@))
        } else {
            rest
        }
    }
}

/// Picker items as plain texts.
pub open spec fn item_views(items: Seq<(String, String)>) -> Seq<(Seq<char>, Seq<char>)> {
    items.map_values(|e: (String, String)| (e.0@, e.1@))
}

/// `p` is a fresh picker titled `title` over `items`.
pub open spec fn fresh_picker(p: Option<PickerState>, title: Seq<char>, items: Seq<(Seq<char>, Seq<char>)>) -> bool {
    p matches Some(x) && x.title@ == title && x.input@ == (Seq::<char>::empty(), 0nat) && x.cursor == 0
        && item_views(x.items@) == items
}

/// Offering a board's select and status properties to group by.
pub open spec fn start_group_by_rel(o: App, n: App) -> bool {
    match o.view {
        MainView::Board(v) => exists|cols: Seq<crate::ui::table::Column>|
            #[trigger] columns_of(v.ds.schema_json, cols) && if group_choices(cols).len() == 0 {
                noticed(o, n, "no select/status property to group by"@)
            } else {
                &&& n == (App { picker: n.picker, picker_purpose: n.picker_purpose, ..o })
                &&& fresh_picker(n.picker, "group by…"@, group_choices(cols))
                &&& n.picker_purpose matches Some(PickerPurpose::GroupBy { data_source_id })
                &&& data_source_id@ == v.ds.id@
            },
        _ => noticed(o, n, "open a board to change its grouping"@),
    }
}

/// Regrouping the board shown by the choice `encoded` (name, `\u{1}`,
/// type); nothing happens for a text without the separator or when no
/// board is shown.
pub open spec fn set_board_group_rel(o: App, n: App, encoded: Seq<char>) -> bool {
    match crate::text::find(encoded, seq!['\u{1}']) {
        None => n == o,
        Some(i) => match o.view {
            MainView::Board(v) => n == (App { view: n.view, ..o }) && (n.view matches MainView::Board(b) && (
            b.group_override matches Some((gn, gt)) && gn@ == encoded.take(i) && gt@ == encoded.skip(i + 1)
                && crate::ui::board::fresh_board(b, v.ds, v.rows, b.group_override))),
            _ => n == o,
        },
    }
}

/// Filtering the table of data source `ds_id` by `text` (in column `col`,
/// or in any column); an empty text clears the filter. Other views are
/// left alone.
pub open spec fn set_table_filter_rel(o: App, n: App, ds_id: Seq<char>, col: Option<usize>, text: Seq<char>) -> bool {
    match o.view {
        MainView::Table(v) => if v.ds.id@ == ds_id {
            n == (App { view: n.view, ..o }) && (n.view matches MainView::Table(nv) && nv == (TableView {
                filter: nv.filter,
                cursor: 0,
                ..v
            }) && if text.len() == 0 {
                nv.filter is None
            } else {
                nv.filter matches Some(f) && f.col == col && f.query@ == text
            })
        } else {
            n == o
        },
        _ => n == o,
    }
}

/// A command from the palette.
pub open spec fn run_command_rel(o: App, n: App, cmd: Seq<char>, r: Effect) -> bool {
    if cmd == "help"@ {
        n == (App { help_open: true, ..o }) && r is Noop
    } else if cmd == "queue"@ {
        n == o && if o.view is Queue {
            r is Noop
        } else {
            r is ToggleQueue
        }
    } else if cmd == "board"@ || cmd == "table"@ {
        r is Noop && if (cmd == "board"@ && o.view is Table) || (cmd == "table"@ && o.view is Board) {
            toggle_board_rel(o, n)
        } else {
            n == o
        }
    } else if cmd == "quit"@ {
        n == (App { should_quit: true, ..o }) && r is Noop
    } else if cmd == "rename"@ {
        start_rename_rel(o, n) && r is Noop
    } else if cmd == "move page"@ {
        if o.view is Page {
            n == o && r is StartMovePage
        } else {
            noticed(o, n, "open a page to move it"@) && r is Noop
        }
    } else if cmd == "group by"@ {
        start_group_by_rel(o, n) && r is Noop
    } else if cmd == "sync now"@ {
        n == o && r is RequestSync
    } else {
        n == o && r is Noop
    }
}

/// Carrying out `a`: forward navigation remembers the place shown; deletes
/// ask for confirmation first; the rest is left to the caller.
pub open spec fn apply_action_rel(o: App, n: App, a: Action, r: Effect) -> bool {
    match a {
        Action::Noop => n == o && r is Noop,
        Action::OpenNode(node) => n == (App { history: n.history, ..o }) && n.history@ == pushed_history(o) && r
            == Effect::OpenNode(node),
        Action::OpenPage(id) => n == (App { history: n.history, ..o }) && n.history@ == pushed_history(o) && r
            == Effect::OpenPage(id),
        Action::Back(id) => n == o && r == Effect::OpenPage(id),
        Action::ToggleTodo(id) => n == o && r == Effect::ToggleTodo(id),
        Action::DeleteBlock(id) => n == (App { confirm: n.confirm, ..o }) && r is Noop && (n.confirm matches Some(
            c,
        ) && c.message@ == "delete this block?"@ && c.ids@ == seq![id] && c.kind
            == crate::ui::confirm::ConfirmKind::DeleteBlock),
        Action::DeleteRow(id) => n == (App { confirm: n.confirm, ..o }) && r is Noop && (n.confirm matches Some(c)
            && c.message@ == "delete this row?"@ && c.ids@ == seq![id] && c.kind
            == crate::ui::confirm::ConfirmKind::DeleteRow),
        Action::MoveCard { row_id, prop_name, prop_type, value } => n == o && r == (Effect::UpdateRowProperty {
            row_id,
            prop_name,
            prop_type,
            text: value,
        }),
        Action::Undo => n == o && r is Undo,
    }
}

fn find_title(cols: &Vec<crate::ui::table::Column>) -> (r: Option<usize>)
    ensures
        match r {
            Some(i) => i < cols@.len() && title_from(cols@, 0) == Some(i as int),
            None => title_from(cols@, 0) is None,
        },
{
    let mut i: usize = 0;
    while i < cols.len()
        invariant
            i <= cols@.len(),
            title_from(cols@, 0) == title_from(cols@, i as int),
        decreases cols@.len() - i,
    {
        if crate::text::str_eq(cols[i].prop_type.as_str(), "title") {
            return Some(i);
        }
        i += 1;
    }
    None
}

impl App {
    /// Remembers the place shown (if any) for going back.
    pub fn push_history(&mut self)
        ensures
            *final(self) == (App { history: final(self).history, ..*old(self) }),
            final(self).history@ == pushed_history(*old(self)),
    {
        let id = match &self.view {
            MainView::Page(v) => Some(v.page.id.clone()),
            MainView::Table(v) => Some(v.ds.id.clone()),
            MainView::Board(v) => Some(v.ds.id.clone()),
            _ => None,
        };
        match id {
            Some(id) => self.history.push(id),
            None => {},
        }
    }

    /// `push_history`, for tests that set up a history.
    pub fn push_history_for_test(&mut self)
        ensures
            *final(self) == (App { history: final(self).history, ..*old(self) }),
            final(self).history@ == pushed_history(*old(self)),
    {
        self.push_history();
    }

    /// Shows the table as a board (when its schema has a status or select
    /// property to group by) or the board as a table.
    pub fn toggle_board(&mut self)
        ensures
            toggle_board_rel(*old(self), *final(self)),
    {
        let mut v = MainView::Empty;
        std::mem::swap(&mut v, &mut self.view);
        match v {
            MainView::Table(t) => {
                if crate::ui::board::group_property(&t.ds.schema_json).is_some() {
                    self.view = MainView::Board(BoardView::new(t.ds, t.rows));
                } else {
                    self.notice = Some("board view needs a status or select property".to_owned());
                    self.view = MainView::Table(t);
                }
            },
            MainView::Board(b) => {
                self.view = MainView::Table(TableView::new(b.ds, b.rows));
            },
            other => {
                self.notice = Some("no table open to show as a board".to_owned());
                self.view = other;
            },
        }
    }

    /// Opens a prompt to rename the page shown or the row under the cursor.
    pub fn start_rename(&mut self)
        ensures
            start_rename_rel(*old(self), *final(self)),
    {
        let mut input: Option<InputState> = None;
        let mut purpose: Option<InputPurpose> = None;
        match &self.view {
            MainView::Page(v) => {
                input = Some(InputState::new("rename page", v.page.title.as_str()));
                purpose = Some(InputPurpose::RenamePage { page_id: v.page.id.clone() });
            },
            MainView::Table(v) => {
                let vis = v.visible();
                match find_title(&v.columns) {
                    Some(ci) => {
                        if v.cursor < vis.len() {
                            let row = vis[v.cursor];
                            let col = &v.columns[ci];
                            let text = v.cell(row, col);
                            input = Some(InputState::new("rename", text.as_str()));
                            purpose = Some(
                                InputPurpose::RenameRow { row_id: row.id.clone(), title_prop_name: col.name.clone() },
                            );
                        }
                    },
                    None => {},
                }
            },
            MainView::Board(v) => {
                let cols = crate::ui::table::schema_columns(&v.ds.schema_json);
                let cards = v.cards_in(v.col);
                match find_title(&cols) {
                    Some(ci) => {
                        if v.card < cards.len() {
                            let row = cards[v.card];
                            let text = crate::ui::table::prop_cell_text(&row.properties, cols[ci].name.as_str());
                            input = Some(InputState::new("rename", text.as_str()));
                            purpose = Some(
                                InputPurpose::RenameRow { row_id: row.id.clone(), title_prop_name: cols[ci].name.clone() },
                            );
                        }
                    },
                    None => {},
                }
                proof {
                    assert(columns_of(v.ds.schema_json, cols@));
                }
            },
            _ => {
                self.notice = Some("nothing to rename here".to_owned());
                return;
            },
        }
        if input.is_some() {
            self.input = input;
            self.input_purpose = purpose;
        }
    }
}

impl App {
    /// Offers the board's select and status properties to group by.
    pub fn start_group_by(&mut self)
        ensures
            start_group_by_rel(*old(self), *final(self)),
    {
        let (ds_id, cols) = match &self.view {
            MainView::Board(v) => (v.ds.id.clone(), crate::ui::table::schema_columns(&v.ds.schema_json)),
            _ => {
                self.notice = Some("open a board to change its grouping".to_owned());
                return;
            },
        };
        let mut items: Vec<(String, String)> = Vec::new();
        let mut i: usize = 0;
        while i < cols.len()
            invariant
                i <= cols@.len(),
                item_views(items@) == group_choices(cols@.take(i as int)),
            decreases cols@.len() - i,
        {
            proof {
                assert(cols@.take(i + 1).drop_last() =~= cols@.take(i as int));
            }
            let c = &cols[i];
            if crate::text::str_eq(c.prop_type.as_str(), "select") || crate::text::str_eq(
                c.prop_type.as_str(),
                "status",
            ) {
                let mut key = c.name.clone();
                crate::text::push_char(&mut key, '\u{1}');
                push_str(&mut key, c.prop_type.as_str());
                proof {
                    assert(key@ =~= c.name@ + seq!['\u{1}'] + c.prop_type@);
                }
                let ghost before = items@;
                items.push((key, c.name.clone()));
                proof {
                    assert(item_views(items@) =~= item_views(before).push(
                        (c.name@ + seq!['\u{1}'] + c.prop_type@, c.name@),
                    ));
                }
            }
            i += 1;
        }
        proof {
            assert(cols@.take(cols@.len() as int) =~= cols@);
            let v = self.view->Board_0;
            assert(columns_of(v.ds.schema_json, cols@));
        }
        if items.len() == 0 {
            self.notice = Some("no select/status property to group by".to_owned());
            return;
        }
        self.picker = Some(PickerState::new("group by…", items));
        self.picker_purpose = Some(PickerPurpose::GroupBy { data_source_id: ds_id });
    }

    /// Regroups the board shown by the choice `encoded` (name, `\u{1}`, type).
    pub fn set_board_group(&mut self, encoded: &str)
        ensures
            set_board_group_rel(*old(self), *final(self), encoded@),
    {
        let cs = crate::text::chars_of(encoded);
        let mut sep: Vec<char> = Vec::new();
        sep.push('\u{1}');
        proof {
            assert(sep@ =~= seq!['\u{1}']);
        }
        let found = crate::text::find_chars(&cs, &sep);
        if found.is_none() {
            return;
        }
        let i = found.unwrap();
        proof {
            assert(crate::text::occurs_at(cs@, sep@, i as int));
            assert(sep@.len() == 1);
        }
        assert(i < cs.len());
        let name = crate::text::string_of_range(&cs, 0, i);
        let ptype = crate::text::string_of_range(&cs, i + 1, cs.len());
        let mut v = MainView::Empty;
        std::mem::swap(&mut v, &mut self.view);
        match v {
            MainView::Board(b) => {
                proof {
                    assert(name@ =~= encoded@.take(i as int));
                    assert(ptype@ =~= encoded@.skip(i + 1));
                }
                self.view = MainView::Board(BoardView::with_group(b.ds, b.rows, Some((name, ptype))));
            },
            other => {
                self.view = other;
            },
        }
    }

    /// Filters the table of data source `data_source_id` by `text` (in column
    /// `col`, or any column); an empty text clears the filter.
    pub fn set_table_filter(&mut self, data_source_id: &str, col: Option<usize>, text: &str)
        ensures
            set_table_filter_rel(*old(self), *final(self), data_source_id@, col, text@),
    {
        match &mut self.view {
            MainView::Table(v) => {
                if !crate::text::str_eq(v.ds.id.as_str(), data_source_id) {
                    return;
                }
                v.filter = if text.is_empty() {
                    None
                } else {
                    Some(crate::ui::table::FilterState { col, query: text.to_owned() })
                };
                v.cursor = 0;
            },
            _ => {},
        }
    }

    /// Runs a palette command; returns the work left to the caller.
    pub fn run_command(&mut self, cmd: &str) -> (r: Effect)
        ensures
            run_command_rel(*old(self), *final(self), cmd@, r),
    {
        if crate::text::str_eq(cmd, "help") {
            self.help_open = true;
            Effect::Noop
        } else if crate::text::str_eq(cmd, "queue") {
            match &self.view {
                MainView::Queue(_) => Effect::Noop,
                _ => Effect::ToggleQueue,
            }
        } else if crate::text::str_eq(cmd, "board") || crate::text::str_eq(cmd, "table") {
            proof {
                reveal_strlit("board");
                reveal_strlit("table");
                assert("board"@[0] != "table"@[0]);
            }
            let want_board = crate::text::str_eq(cmd, "board");
            let flip = match &self.view {
                MainView::Table(_) => want_board,
                MainView::Board(_) => !want_board,
                _ => false,
            };
            if flip {
                self.toggle_board();
            }
            Effect::Noop
        } else if crate::text::str_eq(cmd, "quit") {
            self.should_quit = true;
            Effect::Noop
        } else if crate::text::str_eq(cmd, "rename") {
            self.start_rename();
            Effect::Noop
        } else if crate::text::str_eq(cmd, "move page") {
            match &self.view {
                MainView::Page(_) => Effect::StartMovePage,
                _ => {
                    self.notice = Some("open a page to move it".to_owned());
                    Effect::Noop
                },
            }
        } else if crate::text::str_eq(cmd, "group by") {
            self.start_group_by();
            Effect::Noop
        } else if crate::text::str_eq(cmd, "sync now") {
            Effect::RequestSync
        } else {
            Effect::Noop
        }
    }
}

/// Carries out a navigation or edit action: forward navigation remembers
/// the place shown first, so going back works the same for every way of
/// opening; deletes ask for confirmation. Returns the work left to the
/// caller.
pub fn apply_action(app: &mut App, action: Action) -> (r: Effect)
    ensures
        apply_action_rel(*old(app), *final(app), action, r),
{
    match action {
        Action::Noop => Effect::Noop,
        Action::OpenNode(node) => {
            app.push_history();
            Effect::OpenNode(node)
        },
        Action::OpenPage(id) => {
            app.push_history();
            Effect::OpenPage(id)
        },
        Action::Back(id) => Effect::OpenPage(id),
        Action::ToggleTodo(id) => Effect::ToggleTodo(id),
        Action::DeleteBlock(id) => {
            let mut ids: Vec<String> = Vec::new();
            ids.push(id);
            app.confirm = Some(
                ConfirmState {
                    message: "delete this block?".to_owned(),
                    ids,
                    kind: crate::ui::confirm::ConfirmKind::DeleteBlock,
                },
            );
            Effect::Noop
        },
        Action::DeleteRow(id) => {
            let mut ids: Vec<String> = Vec::new();
            ids.push(id);
            app.confirm = Some(
                ConfirmState {
                    message: "delete this row?".to_owned(),
                    ids,
                    kind: crate::ui::confirm::ConfirmKind::DeleteRow,
                },
            );
            Effect::Noop
        },
        Action::MoveCard { row_id, prop_name, prop_type, value } => Effect::UpdateRowProperty {
            row_id,
            prop_name,
            prop_type,
            text: value,
        },
        Action::Undo => Effect::Undo,
    }
}

/// `n` is `o` after scrolling the main view by `delta` (mouse wheel): the
/// view's cursor moves as its own keys move it.
pub open spec fn scroll_rel(o: App, n: App, delta: int) -> bool {
    n == (App { view: n.view, ..o }) && match o.view {
        MainView::Page(v) => n.view matches MainView::Page(nv) && page_moved(v, nv, delta),
        MainView::Table(v) => n.view == MainView::Table(table_moved(v, delta)),
        MainView::Board(v) => n.view == MainView::Board(card_cursor_moved(v, delta)),
        MainView::Queue(q) => n.view matches MainView::Queue(nq) && nq == (QueueView {
            cursor: if q.ops@.len() == 0 {
                q.cursor
            } else {
                clamp(q.cursor + delta, 0, q.ops@.len() - 1) as usize
            },
            ..q
        }),
        MainView::Empty => n.view is Empty,
    }
}

/// Forwards mouse-wheel scroll to the view shown.
pub fn scroll(app: &mut App, delta: isize)
    ensures
        scroll_rel(*old(app), *final(app), delta as int),
{
    match &mut app.view {
        MainView::Page(v) => v.move_cursor(delta),
        MainView::Table(v) => v.move_cursor(delta),
        MainView::Board(v) => v.move_cursor_card(delta),
        MainView::Queue(v) => v.move_cursor(delta),
        MainView::Empty => {},
    }
}

// ---------------------------------------------------------------------------
// Keys in the modals

use crate::ui::palette::{PaletteAction, PaletteOutcome, palette_step};
use crate::ui::picker::{PickerAction, PickerOutcome, picker_step};
use crate::ui::confirm::{ConfirmAction, ConfirmKind, confirm_answer};
use crate::ui::props::{PropsAction, ActionView, props_step, fields_view, editor_view};
use crate::ui::input::{InputAction, InputOutcome, input_step};
use crate::ui::search::{SearchAction, SearchOutcome, search_step, hit_ids};
use crate::ui::comments::{CommentsAction, comments_step};

/// An open props form is well formed.
pub open spec fn props_ok(a: App) -> bool {
    a.props matches Some(p) ==> p.wf()
}

/// A key on the command palette (open in `c`).
pub open spec fn palette_rel(c: App, n: App, key: KeyEvent, r: Effect) -> bool {
    c.palette matches Some(p) && {
        let st = palette_step(p.input@, p.cursor as int, key);
        match st.2 {
            PaletteOutcome::Close => n == (App { palette: None, ..c }) && r is Noop,
            PaletteOutcome::Run(cmd) => run_command_rel(App { palette: None, ..c }, n, cmd, r),
            _ => n == (App { palette: n.palette, ..c }) && (n.palette matches Some(np) && np.input@ == st.0
                && np.cursor == st.1) && r is Noop,
        }
    }
}

/// A key on the picker (open in `c`): choosing moves the page or regroups
/// the board, as the picker was opened for.
pub open spec fn picker_rel(c: App, n: App, key: KeyEvent, r: Effect) -> bool {
    c.picker matches Some(p) && {
        let st = picker_step(p.input@, p.items@, p.cursor as int, key);
        let closed = App { picker: None, picker_purpose: None, ..c };
        match st.2 {
            PickerOutcome::Close => n == closed && r is Noop,
            PickerOutcome::Choose(id) => match c.picker_purpose {
                Some(PickerPurpose::MovePage { page_id }) => n == closed && (r matches Effect::MovePage {
                    page_id: a,
                    new_parent_id: b,
                } && a == page_id && b@ == id),
                Some(PickerPurpose::GroupBy { .. }) => set_board_group_rel(closed, n, id) && r is Noop,
                None => n == closed && r is Noop,
            },
            _ => n == (App { picker: n.picker, ..c }) && (n.picker matches Some(np) && np.title == p.title
                && np.items == p.items && np.input@ == st.0 && np.cursor == st.1) && r is Noop,
        }
    }
}

/// Answering a `dd` confirmation (open in `c`): `yes` deletes the block or
/// row and points at undo; no leaves it.
pub open spec fn confirm_target_rel(c: App, n: App, yes: bool, r: Effect) -> bool {
    c.confirm matches Some(st) && if !yes {
        n == (App { confirm: None, ..c }) && r is Noop
    } else {
        noticed(App { confirm: None, ..c }, n, "deleted — press u to undo (this session)"@) && if st.ids@.len() > 0 {
            if st.kind == ConfirmKind::DeleteBlock {
                r == Effect::DeleteBlock(st.ids@[0])
            } else if st.kind == ConfirmKind::DeleteRow {
                r == Effect::DeleteRow(st.ids@[0])
            } else {
                r is Noop
            }
        } else {
            r is Noop
        }
    }
}

/// A key on the confirmation popup (open in `c`).
pub open spec fn confirm_rel(c: App, n: App, key: KeyEvent, r: Effect) -> bool {
    c.confirm matches Some(st) && match confirm_answer(key.code) {
        ConfirmAction::Noop => n == c && r is Noop,
        ans => {
            let yes = ans is Yes;
            match st.kind {
                ConfirmKind::DeleteProtected => n == c && r == Effect::ResolveDeleteProtected(yes),
                ConfirmKind::ApplyDespiteWarnings => n == (App { confirm: None, ..c }) && r
                    == Effect::ResolveWarnings(yes),
                _ => confirm_target_rel(c, n, yes, r),
            }
        },
    }
}

/// A key on the props form (open in `c`): a commit asks to write the value
/// and leaves the form open.
pub open spec fn props_rel(c: App, n: App, key: KeyEvent, r: Effect) -> bool {
    c.props matches Some(p) && {
        let st = props_step(fields_view(p.fields@), p.cursor as int, editor_view(p.editor), key);
        match st.2 {
            ActionView::Close => n == (App { props: None, ..c }) && r is Noop,
            other => n == (App { props: n.props, ..c }) && (n.props matches Some(np) && np.wf() && np.row_id
                == p.row_id && np.fields == p.fields && np.cursor == st.0 && editor_view(np.editor) == st.1)
                && match other {
                ActionView::Commit { prop_name, prop_type, text } => r matches Effect::UpdateRowProperty {
                    row_id,
                    prop_name: a,
                    prop_type: b,
                    text: t,
                } && row_id == p.row_id && a@ == prop_name && b@ == prop_type && t@ == text,
                _ => r is Noop,
            },
        }
    }
}

/// Submitting `text` from a prompt opened for `purpose` (`base` has the
/// prompt closed).
pub open spec fn submit_rel(base: App, purpose: Option<InputPurpose>, n: App, text: Seq<char>, r: Effect) -> bool {
    match purpose {
        None => n == base && r is Noop,
        Some(InputPurpose::FilterTable { data_source_id, col }) => set_table_filter_rel(
            base,
            n,
            data_source_id@,
            col,
            text,
        ) && r is Noop,
        Some(p) => n == base && match p {
            InputPurpose::EditBlockText { block_id } => r matches Effect::EditBlockText { block_id: b, text: t }
                && b == block_id && t@ == text,
            InputPurpose::InsertBlockAfter { page_id, after_block_id } => r matches Effect::InsertBlock {
                page_id: a,
                after_block_id: b,
                text: t,
            } && a == page_id && b == after_block_id && t@ == text,
            InputPurpose::NewRow { data_source_id, title_prop_name } => r matches Effect::CreateRow {
                data_source_id: a,
                title_prop_name: b,
                text: t,
            } && a == data_source_id && b == title_prop_name && t@ == text,
            InputPurpose::NewComment { parent_id, parent_kind, thread_id } => r matches Effect::AddComment {
                parent_id: a,
                parent_kind: b,
                thread_id: d,
                text: t,
            } && a == parent_id && b == parent_kind && d == thread_id && t@ == text,
            InputPurpose::RenamePage { page_id } => r matches Effect::RenamePage { page_id: a, text: t } && a
                == page_id && t@ == text,
            InputPurpose::RenameRow { row_id, title_prop_name } => r matches Effect::UpdateRowProperty {
                row_id: a,
                prop_name: b,
                prop_type: d,
                text: t,
            } && a == row_id && b == title_prop_name && d@ == "title"@ && t@ == text,
            InputPurpose::FilterTable { .. } => r is Noop,
        },
    }
}

/// A key on the text prompt (open in `c`).
pub open spec fn input_rel(c: App, n: App, key: KeyEvent, r: Effect) -> bool {
    c.input matches Some(i) && {
        let st = input_step(i.line@, key);
        let closed = App { input: None, input_purpose: None, ..c };
        match st.1 {
            InputOutcome::Cancel => n == closed && r is Noop,
            InputOutcome::Submit(text) => submit_rel(closed, c.input_purpose, n, text, r),
            _ => n == (App { input: n.input, ..c }) && (n.input matches Some(ni) && ni.title == i.title
                && ni.line@ == st.0) && r is Noop,
        }
    }
}

/// A key on the search modal (open in `c`): opening a hit remembers the
/// place shown.
pub open spec fn search_rel(c: App, n: App, key: KeyEvent, r: Effect) -> bool {
    c.search matches Some(s) && {
        let st = search_step(s.input@, hit_ids(s.results@), s.cursor as int, key);
        let closed = App { search: None, ..c };
        match st.2 {
            SearchOutcome::Close => n == closed && r is Noop,
            SearchOutcome::Open(id) => n == (App { history: n.history, ..closed }) && n.history@ == pushed_history(
                closed,
            ) && (r matches Effect::OpenPage(x) && x@ == id),
            other => n == (App { search: n.search, ..c }) && (n.search matches Some(ns) && ns.results == s.results
                && ns.input@ == st.0 && ns.cursor == st.1) && if other is QueryChanged {
                r is RefreshSearch
            } else {
                r is Noop
            },
        }
    }
}

/// The thread of the comment under the panel's cursor.
pub open spec fn thread_at(p: CommentsState) -> Option<Seq<char>> {
    if p.cursor < p.items@.len() {
        match p.items@[p.cursor as int].thread_id {
            Some(t) => Some(t@),
            None => None,
        }
    } else {
        None
    }
}

/// `n` is `c` prompting (titled `title`) for a comment on the panel's
/// parent, in thread `thread`.
pub open spec fn commenting(c: App, n: App, nc: CommentsState, title: Seq<char>, thread: Option<Seq<char>>) -> bool {
    &&& n == (App { comments: Some(nc), input: n.input, input_purpose: n.input_purpose, ..c })
    &&& prompt(n.input, title, Seq::empty())
    &&& n.input_purpose matches Some(InputPurpose::NewComment { parent_id, parent_kind, thread_id })
    &&& parent_id == nc.parent_id && parent_kind == nc.parent_kind && opt_text(thread_id) == thread
}

/// A key on the comments panel (open in `c`).
pub open spec fn comments_rel(c: App, n: App, key: KeyEvent, r: Effect) -> bool {
    c.comments matches Some(p) && {
        let st = comments_step(p.items@.len() as int, p.cursor as int, key);
        r is Noop && match st.1 {
            CommentsAction::Close => n == (App { comments: None, ..c }),
            _ => exists|nc: CommentsState|
                #[trigger] comments_moved(p, nc, st.0) && match st.1 {
                    CommentsAction::NewThread => commenting(c, n, nc, "new comment"@, None),
                    CommentsAction::Reply => commenting(c, n, nc, "reply"@, thread_at(nc)),
                    _ => n == (App { comments: Some(nc), ..c }),
                },
        }
    }
}

/// `nc` is `p` with the cursor at `cursor`.
pub open spec fn comments_moved(p: CommentsState, nc: CommentsState, cursor: int) -> bool {
    nc == (CommentsState { cursor: nc.cursor, ..p }) && nc.cursor == cursor
}

fn palette_key(app: &mut App, key: KeyEvent) -> (r: Effect)
    requires
        old(app).palette is Some,
    ensures
        palette_rel(*old(app), *final(app), key, r),
{
    let mut p = app.palette.take().unwrap();
    let a = p.on_key(key);
    match a {
        PaletteAction::Close => Effect::Noop,
        PaletteAction::Run(cmd) => app.run_command(cmd),
        _ => {
            app.palette = Some(p);
            Effect::Noop
        },
    }
}

fn picker_key(app: &mut App, key: KeyEvent) -> (r: Effect)
    requires
        old(app).picker is Some,
    ensures
        picker_rel(*old(app), *final(app), key, r),
{
    let mut p = app.picker.take().unwrap();
    let a = p.on_key(key);
    match a {
        PickerAction::Close => {
            app.picker_purpose = None;
            Effect::Noop
        },
        PickerAction::Choose(id) => {
            let purpose = app.picker_purpose.take();
            match purpose {
                Some(PickerPurpose::MovePage { page_id }) => Effect::MovePage { page_id, new_parent_id: id },
                Some(PickerPurpose::GroupBy { .. }) => {
                    app.set_board_group(id.as_str());
                    Effect::Noop
                },
                None => Effect::Noop,
            }
        },
        _ => {
            app.picker = Some(p);
            Effect::Noop
        },
    }
}

/// Answers a `dd` confirmation: `confirmed` deletes the block or row (left
/// to the caller) and points at undo.
fn confirm_delete_target(app: &mut App, confirmed: bool) -> (r: Effect)
    requires
        old(app).confirm is Some,
    ensures
        confirm_target_rel(*old(app), *final(app), confirmed, r),
{
    let st = app.confirm.take().unwrap();
    if !confirmed {
        return Effect::Noop;
    }
    let r = if st.ids.len() > 0 {
        match st.kind {
            ConfirmKind::DeleteBlock => Effect::DeleteBlock(st.ids[0].clone()),
            ConfirmKind::DeleteRow => Effect::DeleteRow(st.ids[0].clone()),
            _ => Effect::Noop,
        }
    } else {
        Effect::Noop
    };
    app.notice = Some("deleted — press u to undo (this session)".to_owned());
    r
}

fn confirm_key(app: &mut App, key: KeyEvent) -> (r: Effect)
    requires
        old(app).confirm is Some,
    ensures
        confirm_rel(*old(app), *final(app), key, r),
{
    let kind = match &app.confirm {
        Some(st) => st.kind,
        None => ConfirmKind::DeleteBlock,
    };
    let mut st = app.confirm.take().unwrap();
    let a = st.on_key(key);
    app.confirm = Some(st);
    let yes = match a {
        ConfirmAction::Noop => {
            return Effect::Noop;
        },
        ConfirmAction::Yes => true,
        ConfirmAction::No => false,
    };
    match kind {
        ConfirmKind::DeleteProtected => Effect::ResolveDeleteProtected(yes),
        ConfirmKind::ApplyDespiteWarnings => {
            app.confirm = None;
            Effect::ResolveWarnings(yes)
        },
        _ => confirm_delete_target(app, yes),
    }
}

fn props_key(app: &mut App, key: KeyEvent) -> (r: Effect)
    requires
        old(app).props matches Some(p) && p.wf(),
    ensures
        props_rel(*old(app), *final(app), key, r),
{
    let mut p = app.props.take().unwrap();
    let a = p.on_key(key);
    match a {
        PropsAction::Close => Effect::Noop,
        PropsAction::Commit { prop_name, prop_type, text } => {
            let row_id = p.row_id.clone();
            app.props = Some(p);
            Effect::UpdateRowProperty { row_id, prop_name, prop_type, text }
        },
        PropsAction::Noop => {
            app.props = Some(p);
            Effect::Noop
        },
    }
}

fn input_key(app: &mut App, key: KeyEvent) -> (r: Effect)
    requires
        old(app).input is Some,
    ensures
        input_rel(*old(app), *final(app), key, r),
{
    let mut i = app.input.take().unwrap();
    let a = i.on_key(key);
    match a {
        InputAction::Cancel => {
            app.input_purpose = None;
            Effect::Noop
        },
        InputAction::Submit(text) => {
            let purpose = app.input_purpose.take();
            match purpose {
                None => Effect::Noop,
                Some(InputPurpose::EditBlockText { block_id }) => Effect::EditBlockText { block_id, text },
                Some(InputPurpose::InsertBlockAfter { page_id, after_block_id }) => Effect::InsertBlock {
                    page_id,
                    after_block_id,
                    text,
                },
                Some(InputPurpose::NewRow { data_source_id, title_prop_name }) => Effect::CreateRow {
                    data_source_id,
                    title_prop_name,
                    text,
                },
                Some(InputPurpose::NewComment { parent_id, parent_kind, thread_id }) => Effect::AddComment {
                    parent_id,
                    parent_kind,
                    thread_id,
                    text,
                },
                Some(InputPurpose::RenamePage { page_id }) => Effect::RenamePage { page_id, text },
                Some(InputPurpose::RenameRow { row_id, title_prop_name }) => Effect::UpdateRowProperty {
                    row_id,
                    prop_name: title_prop_name,
                    prop_type: "title".to_owned(),
                    text,
                },
                Some(InputPurpose::FilterTable { data_source_id, col }) => {
                    app.set_table_filter(data_source_id.as_str(), col, text.as_str());
                    Effect::Noop
                },
            }
        },
        _ => {
            app.input = Some(i);
            Effect::Noop
        },
    }
}

fn search_key(app: &mut App, key: KeyEvent) -> (r: Effect)
    requires
        old(app).search is Some,
    ensures
        search_rel(*old(app), *final(app), key, r),
{
    let mut s = app.search.take().unwrap();
    let a = s.on_key(key);
    match a {
        SearchAction::Close => Effect::Noop,
        SearchAction::Open(id) => {
            app.push_history();
            Effect::OpenPage(id)
        },
        SearchAction::QueryChanged => {
            app.search = Some(s);
            Effect::RefreshSearch
        },
        SearchAction::Noop => {
            app.search = Some(s);
            Effect::Noop
        },
    }
}

fn comments_key(app: &mut App, key: KeyEvent) -> (r: Effect)
    requires
        old(app).comments is Some,
    ensures
        comments_rel(*old(app), *final(app), key, r),
{
    let mut p = app.comments.take().unwrap();
    let a = p.on_key(key);
    let ghost st = comments_step(
        old(app).comments.unwrap().items@.len() as int,
        old(app).comments.unwrap().cursor as int,
        key,
    );
    proof {
        assert(comments_moved(old(app).comments.unwrap(), p, st.0));
    }
    match a {
        CommentsAction::Close => {},
        CommentsAction::Noop => {
            app.comments = Some(p);
        },
        CommentsAction::NewThread => {
            let parent_id = p.parent_id.clone();
            let parent_kind = p.parent_kind.clone();
            app.comments = Some(p);
            app.input = Some(InputState::new("new comment", ""));
            app.input_purpose = Some(InputPurpose::NewComment { parent_id, parent_kind, thread_id: None });
            proof {
                reveal_strlit("");
                assert(""@ =~= Seq::<char>::empty());
            }
        },
        CommentsAction::Reply => {
            let parent_id = p.parent_id.clone();
            let parent_kind = p.parent_kind.clone();
            let thread = p.selected_thread();
            proof {
                assert(opt_text(thread) == thread_at(p));
            }
            app.comments = Some(p);
            app.input = Some(InputState::new("reply", ""));
            app.input_purpose = Some(InputPurpose::NewComment { parent_id, parent_kind, thread_id: thread });
            proof {
                reveal_strlit("");
                assert(""@ =~= Seq::<char>::empty());
            }
        },
    }
    Effect::Noop
}

// ---------------------------------------------------------------------------
// Keys outside the modals

use crate::records::{BlockRec, RowRec};
use crate::json::Json;
use crate::ui::props::fields_built;
use crate::ui::sidebar::NodeKind;

/// The child database under a page's cursor.
pub open spec fn child_db_at(v: PageView) -> Option<Seq<char>> {
    if v.cursor < page_lines(v).len() && exists|k: int|
        0 <= k < v.blocks@.len() && #[trigger] v.blocks@[k].id@ == page_lines(v)[v.cursor as int].0
            && v.blocks@[k].block_type@ == "child_database"@ {
        Some(page_lines(v)[v.cursor as int].0)
    } else {
        None
    }
}

/// The text of the first block at or after `i` with id `id`, or the empty text.
pub open spec fn block_text_from(bs: Seq<BlockRec>, id: Seq<char>, i: int) -> Seq<char>
    decreases bs.len() - i,
{
    if i < 0 || i >= bs.len() {
        Seq::empty()
    } else if bs[i].id@ == id {
        bs[i].plain_text@
    } else {
        block_text_from(bs, id, i + 1)
    }
}

/// The query of a filter on column `col` (or on any column, for `None`), as
/// the prompt for that filter starts with; empty for another filter.
pub open spec fn filter_prefill(t: TableView, col: Option<usize>) -> Seq<char> {
    match t.filter {
        Some(f) => if f.col == col {
            f.query@
        } else {
            Seq::empty()
        },
        None => Seq::empty(),
    }
}

/// The name of the table's sort column (empty when out of range).
pub open spec fn sort_col_name(t: TableView) -> Seq<char> {
    if t.sort_col < t.columns@.len() {
        t.columns@[t.sort_col as int].name@
    } else {
        Seq::empty()
    }
}

/// `n` is `c` with the props form opened on `row` of a data source with
/// schema `schema`.
pub open spec fn props_opened(c: App, n: App, schema: Json, row: RowRec) -> bool {
    n == (App { props: n.props, ..c }) && (n.props matches Some(p) && p.wf() && p.row_id == row.id
        && fields_built(schema, row.properties, p.fields@) && p.cursor == 0 && p.editor is None)
}

/// `n` is `c` with a prompt titled `title` holding `text`.
pub open spec fn prompted(c: App, n: App, title: Seq<char>, text: Seq<char>) -> bool {
    n == (App { input: n.input, input_purpose: n.input_purpose, ..c }) && prompt(n.input, title, text)
}

/// `q` with its cursor moved by `delta` ops, clamped.
pub open spec fn queue_moved(q: QueueView, delta: int) -> QueueView {
    QueueView {
        cursor: if q.ops@.len() == 0 {
            q.cursor
        } else {
            clamp(q.cursor + delta, 0, q.ops@.len() - 1) as usize
        },
        ..q
    }
}

/// A key on the queue view: cursor moves, closing, and resolving the op
/// under the cursor (retry, keep mine, take theirs, merge a conflicted
/// block edit).
pub open spec fn queue_key_rel(q: QueueView, km: Seq<Chord>, key: KeyEvent, nq: QueueView, r: Effect) -> bool {
    let sel = if q.cursor < q.ops@.len() {
        Some(q.ops@[q.cursor as int])
    } else {
        None
    };
    if is_down(km, key) {
        nq == queue_moved(q, 1) && r is Noop
    } else if is_up(km, key) {
        nq == queue_moved(q, -1) && r is Noop
    } else if key.code == KeyCode::Esc {
        nq == q && r is ToggleQueue
    } else if key.code == KeyCode::Char('r') {
        nq == q && match sel {
            Some(op) => r == Effect::RetryOp(op.seq),
            None => r is Noop,
        }
    } else if key.code == KeyCode::Char('p') {
        nq == q && match sel {
            Some(op) => r == Effect::KeepMine(op.seq),
            None => r is Noop,
        }
    } else if key.code == KeyCode::Char('t') {
        nq == q && match sel {
            Some(op) => r == Effect::TakeTheirs(op.seq),
            None => r is Noop,
        }
    } else if key.code == KeyCode::Char('e') {
        nq == q && match sel {
            Some(op) => if op.state@ == "conflicted"@ && op.op_type@ == "update_block"@ {
                r == Effect::Merge(op.seq)
            } else {
                r is Noop
            },
            None => r is Noop,
        }
    } else {
        nq == q && r is Noop
    }
}

/// The last resort of a key: the queue key, the queue view's keys, then
/// the navigation keys (`handle_key`) carried out by `apply_action`.
pub open spec fn tail_rel(c: App, n: App, key: KeyEvent, r: Effect) -> bool {
    if km_is(c.keymap@, "queue"@, key) {
        n == c && r is ToggleQueue
    } else {
        match c.view {
            MainView::Queue(q) => n == (App { view: n.view, ..c }) && (n.view matches MainView::Queue(nq)
                && queue_key_rel(q, c.keymap@, key, nq, r)),
            _ => exists|m: App, a: Action| #[trigger] handle_key_rel(c, m, key, a) && apply_action_rel(m, n, a, r),
        }
    }
}

/// The main pane's keys that open prompts, the props form, the editor, or
/// switch between table and board; anything else goes on to `tail_rel`.
pub open spec fn edit_keys_rel(c: App, n: App, key: KeyEvent, r: Effect) -> bool {
    let km = c.keymap@;
    let main = c.focus == Focus::Main;
    if main && c.view is Page && km_is(km, "insert"@, key) && block_at(c.view->Page_0) is Some {
        let v = c.view->Page_0;
        let b = block_at(v).unwrap();
        r is Noop && prompted(c, n, "edit block"@, block_text_from(v.blocks@, b, 0)) && (n.input_purpose matches Some(
            InputPurpose::EditBlockText { block_id },
        ) && block_id@ == b)
    } else if main && c.view is Page && km_is(km, "append"@, key) {
        let v = c.view->Page_0;
        r is Noop && prompted(c, n, "new block"@, Seq::empty()) && (n.input_purpose matches Some(
            InputPurpose::InsertBlockAfter { page_id, after_block_id },
        ) && page_id == v.page.id && opt_text(after_block_id) == block_at(v))
    } else if main && c.view is Page && km_is(km, "edit"@, key) {
        n == c && r is EditInEditor
    } else if main && km_is(km, "board"@, key) {
        match c.view {
            MainView::Page(v) => match child_db_at(v) {
                Some(t) => n == c && (r matches Effect::OpenPageAsBoard(x) && x@ == t),
                None => toggle_board_rel(c, n) && r is Noop,
            },
            _ => toggle_board_rel(c, n) && r is Noop,
        }
    } else if main && c.view is Table && km_is(km, "new_row"@, key) && title_from(c.view->Table_0.columns@, 0) is Some {
        let t = c.view->Table_0;
        let ci = title_from(t.columns@, 0).unwrap();
        r is Noop && prompted(c, n, "new row"@, Seq::empty()) && (n.input_purpose matches Some(
            InputPurpose::NewRow { data_source_id, title_prop_name },
        ) && data_source_id == t.ds.id && title_prop_name == t.columns@[ci].name)
    } else if main && c.view is Table && km_is(km, "props"@, key) && table_row_index(c.view->Table_0) is Some {
        let t = c.view->Table_0;
        r is Noop && props_opened(c, n, t.ds.schema_json, t.rows@[table_row_index(t).unwrap()])
    } else if main && c.view is Table && km_is(km, "filter"@, key) {
        let t = c.view->Table_0;
        r is Noop && prompted(c, n, "filter "@ + sort_col_name(t), filter_prefill(t, Some(t.sort_col))) && (
        n.input_purpose matches Some(InputPurpose::FilterTable { data_source_id, col }) && data_source_id == t.ds.id
            && col == Some(t.sort_col))
    } else if main && c.view is Table && km_is(km, "filter_row"@, key) {
        let t = c.view->Table_0;
        r is Noop && prompted(c, n, "filter row"@, filter_prefill(t, None)) && (n.input_purpose matches Some(
            InputPurpose::FilterTable { data_source_id, col },
        ) && data_source_id == t.ds.id && col is None)
    } else if main && c.view is Board && km_is(km, "props"@, key) && card_index(c.view->Board_0) is Some {
        let b = c.view->Board_0;
        r is Noop && props_opened(c, n, b.ds.schema_json, b.rows@[card_index(b).unwrap()])
    } else {
        tail_rel(c, n, key, r)
    }
}

/// Keys with no modal open: search, help and the palette from anywhere;
/// comments in the main pane; a sidebar data source as a board; then the
/// main pane's keys.
pub open spec fn global_rel(c: App, n: App, key: KeyEvent, r: Effect) -> bool {
    let km = c.keymap@;
    if km_is(km, "search"@, key) || (key.code == KeyCode::Char('p') && key.modifiers.control) {
        r is Noop && n == (App { search: n.search, ..c }) && (n.search matches Some(s) && s.input@ == Seq::<
            char,
        >::empty() && s.results@.len() == 0 && s.cursor == 0)
    } else if km_is(km, "help"@, key) {
        r is Noop && n == (App { help_open: true, ..c })
    } else if km_is(km, "palette"@, key) {
        r is Noop && n == (App { palette: n.palette, ..c }) && (n.palette matches Some(p) && p.input@ == (
        Seq::<char>::empty(),
        0nat,
        ) && p.cursor == 0)
    } else if c.focus == Focus::Main && km_is(km, "comments"@, key) {
        n == c && r is OpenComments
    } else if c.focus == Focus::Sidebar && km_is(km, "board"@, key) {
        match sidebar_node_at(c.sidebar) {
            Some(node) => if node.kind == NodeKind::DataSource {
                n == (App { focus: Focus::Main, ..c }) && r == Effect::OpenNodeAsBoard(node)
            } else {
                n == c && r is Noop
            },
            None => n == c && r is Noop,
        }
    } else {
        edit_keys_rel(c, n, key, r)
    }
}

/// A key press: any notice goes away; an open help popup closes; an open
/// modal (palette, picker, confirmation, props form, prompt, search,
/// comments, in that order) takes the key; otherwise the global and pane
/// keys apply.
pub open spec fn dispatch_rel(o: App, n: App, key: KeyEvent, r: Effect) -> bool {
    let c = App { notice: None, ..o };
    if o.help_open {
        n == (App { help_open: false, ..c }) && r is Noop
    } else if o.palette is Some {
        palette_rel(c, n, key, r)
    } else if o.picker is Some {
        picker_rel(c, n, key, r)
    } else if o.confirm is Some {
        confirm_rel(c, n, key, r)
    } else if o.props is Some {
        props_rel(c, n, key, r)
    } else if o.input is Some {
        input_rel(c, n, key, r)
    } else if o.search is Some {
        search_rel(c, n, key, r)
    } else if o.comments is Some {
        comments_rel(c, n, key, r)
    } else {
        global_rel(c, n, key, r)
    }
}

fn block_text(bs: &Vec<BlockRec>, id: &String) -> (r: String)
    ensures
        r@ == block_text_from(bs@, id@, 0),
{
    let mut i: usize = 0;
    while i < bs.len()
        invariant
            i <= bs@.len(),
            block_text_from(bs@, id@, 0) == block_text_from(bs@, id@, i as int),
        decreases bs@.len() - i,
    {
        if crate::text::str_eq(bs[i].id.as_str(), id.as_str()) {
            return bs[i].plain_text.clone();
        }
        i += 1;
    }
    String::new()
}

fn queue_key(q: &mut QueueView, km: &Keymap, key: KeyEvent) -> (r: Effect)
    ensures
        queue_key_rel(*old(q), km@, key, *final(q), r),
{
    if km.is("down", key) || key.code == KeyCode::Down {
        q.move_cursor(1);
        Effect::Noop
    } else if km.is("up", key) || key.code == KeyCode::Up {
        q.move_cursor(-1);
        Effect::Noop
    } else if key.code == KeyCode::Esc {
        Effect::ToggleQueue
    } else if key.code == KeyCode::Char('r') {
        match q.selected() {
            Some(op) => Effect::RetryOp(op.seq),
            None => Effect::Noop,
        }
    } else if key.code == KeyCode::Char('p') {
        match q.selected() {
            Some(op) => Effect::KeepMine(op.seq),
            None => Effect::Noop,
        }
    } else if key.code == KeyCode::Char('t') {
        match q.selected() {
            Some(op) => Effect::TakeTheirs(op.seq),
            None => Effect::Noop,
        }
    } else if key.code == KeyCode::Char('e') {
        match q.selected() {
            Some(op) => if crate::text::str_eq(op.state.as_str(), "conflicted") && crate::text::str_eq(
                op.op_type.as_str(),
                "update_block",
            ) {
                Effect::Merge(op.seq)
            } else {
                Effect::Noop
            },
            None => Effect::Noop,
        }
    } else {
        Effect::Noop
    }
}

fn tail_key(app: &mut App, key: KeyEvent) -> (r: Effect)
    ensures
        tail_rel(*old(app), *final(app), key, r),
{
    if app.keymap.is("queue", key) {
        return Effect::ToggleQueue;
    }
    match &mut app.view {
        MainView::Queue(q) => {
            return queue_key(q, &app.keymap, key);
        },
        _ => {},
    }
    let a = handle_key(app, key);
    let ghost ga = a;
    let ghost mid = *app;
    let r = apply_action(app, a);
    proof {
        assert(handle_key_rel(*old(app), mid, key, ga));
        assert(apply_action_rel(mid, *app, ga, r));
    }
    r
}

fn edit_key(app: &mut App, key: KeyEvent) -> (r: Effect)
    ensures
        edit_keys_rel(*old(app), *final(app), key, r),
{
    if app.focus == Focus::Main {
        let mut input: Option<InputState> = None;
        let mut purpose: Option<InputPurpose> = None;
        let mut edit = false;
        match &app.view {
            MainView::Page(v) => {
                let mut done = false;
                if app.keymap.is("insert", key) {
                    match v.block_id_at_cursor() {
                        Some(block_id) => {
                            let initial = block_text(&v.blocks, &block_id);
                            input = Some(InputState::new("edit block", initial.as_str()));
                            purpose = Some(InputPurpose::EditBlockText { block_id });
                            done = true;
                        },
                        None => {},
                    }
                }
                if !done && app.keymap.is("append", key) {
                    let after = v.block_id_at_cursor();
                    input = Some(InputState::new("new block", ""));
                    purpose = Some(
                        InputPurpose::InsertBlockAfter { page_id: v.page.id.clone(), after_block_id: after },
                    );
                    done = true;
                    proof {
                        reveal_strlit("");
                        assert(""@ =~= Seq::<char>::empty());
                    }
                }
                if !done && app.keymap.is("edit", key) {
                    edit = true;
                }
            },
            _ => {},
        }
        if input.is_some() {
            app.input = input;
            app.input_purpose = purpose;
            return Effect::Noop;
        }
        if edit {
            return Effect::EditInEditor;
        }
        if app.keymap.is("board", key) {
            let target = match &app.view {
                MainView::Page(v) => v.child_database_id_at_cursor(),
                _ => None,
            };
            match target {
                Some(t) => {
                    return Effect::OpenPageAsBoard(t);
                },
                None => {},
            }
            app.toggle_board();
            return Effect::Noop;
        }
        let mut opened: Option<PropsState> = None;
        match &app.view {
            MainView::Table(v) => {
                let mut done = false;
                if app.keymap.is("new_row", key) {
                    match find_title(&v.columns) {
                        Some(ci) => {
                            input = Some(InputState::new("new row", ""));
                            purpose = Some(
                                InputPurpose::NewRow {
                                    data_source_id: v.ds.id.clone(),
                                    title_prop_name: v.columns[ci].name.clone(),
                                },
                            );
                            done = true;
                            proof {
                                reveal_strlit("");
                                assert(""@ =~= Seq::<char>::empty());
                            }
                        },
                        None => {},
                    }
                }
                if !done && app.keymap.is("props", key) {
                    let vis = v.visible();
                    if v.cursor < vis.len() {
                        let row = vis[v.cursor];
                        let fields = crate::ui::props::build_fields(&v.ds.schema_json, row);
                        opened = Some(PropsState::new(row.id.clone(), fields));
                        done = true;
                    }
                }
                if !done && app.keymap.is("filter", key) {
                    let prefill = match &v.filter {
                        Some(f) => match f.col {
                            Some(fc) => if fc == v.sort_col {
                                f.query.clone()
                            } else {
                                String::new()
                            },
                            None => String::new(),
                        },
                        None => String::new(),
                    };
                    let mut title = "filter ".to_owned();
                    if v.sort_col < v.columns.len() {
                        push_str(&mut title, v.columns[v.sort_col].name.as_str());
                    }
                    proof {
                        reveal_strlit("filter ");
                        assert(title@ =~= "filter "@ + sort_col_name(*v));
                    }
                    input = Some(InputState::new(title.as_str(), prefill.as_str()));
                    purpose = Some(
                        InputPurpose::FilterTable { data_source_id: v.ds.id.clone(), col: Some(v.sort_col) },
                    );
                    done = true;
                }
                if !done && app.keymap.is("filter_row", key) {
                    let prefill = match &v.filter {
                        Some(f) => match f.col {
                            Some(_) => String::new(),
                            None => f.query.clone(),
                        },
                        None => String::new(),
                    };
                    input = Some(InputState::new("filter row", prefill.as_str()));
                    purpose = Some(InputPurpose::FilterTable { data_source_id: v.ds.id.clone(), col: None });
                }
            },
            MainView::Board(v) => {
                if app.keymap.is("props", key) {
                    let cards = v.cards_in(v.col);
                    if v.card < cards.len() {
                        let row = cards[v.card];
                        let fields = crate::ui::props::build_fields(&v.ds.schema_json, row);
                        opened = Some(PropsState::new(row.id.clone(), fields));
                    }
                }
            },
            _ => {},
        }
        if input.is_some() {
            app.input = input;
            app.input_purpose = purpose;
            return Effect::Noop;
        }
        if opened.is_some() {
            app.props = opened;
            return Effect::Noop;
        }
    }
    tail_key(app, key)
}

fn global_key(app: &mut App, key: KeyEvent) -> (r: Effect)
    ensures
        global_rel(*old(app), *final(app), key, r),
{
    if app.keymap.is("search", key) || (key.code == KeyCode::Char('p') && key.modifiers.control) {
        app.search = Some(SearchState::new());
        return Effect::Noop;
    }
    if app.keymap.is("help", key) {
        app.help_open = true;
        return Effect::Noop;
    }
    if app.keymap.is("palette", key) {
        app.palette = Some(PaletteState::new());
        return Effect::Noop;
    }
    if app.focus == Focus::Main && app.keymap.is("comments", key) {
        return Effect::OpenComments;
    }
    if app.focus == Focus::Sidebar && app.keymap.is("board", key) {
        match app.sidebar.selected() {
            Some(node) => {
                if node.kind == NodeKind::DataSource {
                    let nd = clone_node(node);
                    app.focus = Focus::Main;
                    return Effect::OpenNodeAsBoard(nd);
                }
            },
            None => {},
        }
        return Effect::Noop;
    }
    edit_key(app, key)
}

/// Handles a key press: clears the notice, lets an open popup or modal
/// take the key, and otherwise applies the global, pane and navigation
/// keys. Returns the work left to the caller.
pub fn dispatch_key(app: &mut App, key: KeyEvent) -> (r: Effect)
    requires
        props_ok(*old(app)),
    ensures
        dispatch_rel(*old(app), *final(app), key, r),
        props_ok(*final(app)),
{
    app.notice = None;
    if app.help_open {
        app.help_open = false;
        return Effect::Noop;
    }
    if app.palette.is_some() {
        return palette_key(app, key);
    }
    if app.picker.is_some() {
        return picker_key(app, key);
    }
    if app.confirm.is_some() {
        return confirm_key(app, key);
    }
    if app.props.is_some() {
        return props_key(app, key);
    }
    if app.input.is_some() {
        return input_key(app, key);
    }
    if app.search.is_some() {
        return search_key(app, key);
    }
    if app.comments.is_some() {
        return comments_key(app, key);
    }
    global_key(app, key)
}

// ---------------------------------------------------------------------------
// Moving a page

/// Whether `n`'s parent is in `s`.
pub open spec fn parent_in(n: TreeNode, s: Set<Seq<char>>) -> bool {
    match n.parent_id {
        Some(p) => s.contains(p@),
        None => false,
    }
}

/// `s` holds the page `root` and every node whose parent it holds.
pub open spec fn closed_below(ns: Seq<TreeNode>, root: Seq<char>, s: Set<Seq<char>>) -> bool {
    &&& s.contains(root)
    &&& forall|k: int|
        0 <= k < ns.len() && parent_in(#[trigger] ns[k], s) ==> s.contains(ns[k].id@)
}

/// `e` is the page `root` and everything below it: the least set closed
/// under "parent held ⇒ child held".
pub open spec fn subtree_ids(ns: Seq<TreeNode>, root: Seq<char>, e: Set<Seq<char>>) -> bool {
    &&& closed_below(ns, root, e)
    &&& forall|s: Set<Seq<char>>| #[trigger] closed_below(ns, root, s) ==> e.subset_of(s)
}

/// The pages of `ns` outside `e`, in tree order, as (id, title).
pub open spec fn move_targets(ns: Seq<TreeNode>, e: Set<Seq<char>>) -> Seq<(Seq<char>, Seq<char>)>
    decreases ns.len(),
{
    if ns.len() == 0 {
        Seq::empty()
    } else {
        let rest = move_targets(ns.drop_last(), e);
        let x = ns.last();
        if x.kind == NodeKind::Page && !e.contains(x.id@) {
            rest.push((x.id@, x.title@))
        } else {
            rest
        }
    }
}

/// Opening the move picker for the page shown, over the workspace tree
/// `ns`: every page except the page itself and the pages below it.
pub open spec fn start_move_rel(o: App, n: App, ns: Seq<TreeNode>) -> bool {
    match o.view {
        MainView::Page(v) => exists|e: Set<Seq<char>>|
            #[trigger] subtree_ids(ns, v.page.id@, e) && n == (App {
                picker: n.picker,
                picker_purpose: n.picker_purpose,
                ..o
            }) && fresh_picker(n.picker, "move to…"@, move_targets(ns, e)) && (n.picker_purpose matches Some(
                PickerPurpose::MovePage { page_id },
            ) && page_id == v.page.id),
        _ => noticed(o, n, "open a page to move it"@),
    }
}

/// Number of `false` entries.
pub open spec fn count_false(a: Seq<bool>) -> nat
    decreases a.len(),
{
    if a.len() == 0 {
        0
    } else {
        count_false(a.drop_last()) + if a.last() {
            0nat
        } else {
            1nat
        }
    }
}

proof fn lemma_count_false_set(a: Seq<bool>, i: int)
    requires
        0 <= i < a.len(),
    ensures
        count_false(a.update(i, true)) == count_false(a) - if a[i] {
            0int
        } else {
            1int
        },
    decreases a.len(),
{
    if i == a.len() - 1 {
        assert(a.update(i, true).drop_last() =~= a.drop_last());
    } else {
        assert(a.update(i, true).drop_last() =~= a.drop_last().update(i, true));
        lemma_count_false_set(a.drop_last(), i);
    }
}

/// The set of texts held by `v`.
pub open spec fn id_set(v: Seq<String>) -> Set<Seq<char>> {
    Set::new(|x: Seq<char>| crate::ui::sidebar::texts(v).contains(x))
}

/// No move target is the page itself or a page right below a page of its
/// subtree: the targets leave out the whole subtree, so a move can never
/// make a page its own ancestor.
pub proof fn law_move_targets_avoid_subtree(
    ns: Seq<TreeNode>,
    root: Seq<char>,
    e: Set<Seq<char>>,
    t: (Seq<char>, Seq<char>),
)
    requires
        subtree_ids(ns, root, e),
        move_targets(ns, e).contains(t),
    ensures
        t.0 != root,
        !e.contains(t.0),
        forall|k: int|
            0 <= k < ns.len() && (#[trigger] ns[k]).id@ == t.0 ==> !parent_in(ns[k], e),
    decreases ns.len(),
{
    lemma_targets_outside(ns, e, t);
}

proof fn lemma_targets_outside(ns: Seq<TreeNode>, e: Set<Seq<char>>, t: (Seq<char>, Seq<char>))
    requires
        move_targets(ns, e).contains(t),
    ensures
        !e.contains(t.0),
    decreases ns.len(),
{
    if ns.len() > 0 {
        let rest = move_targets(ns.drop_last(), e);
        let x = ns.last();
        if x.kind == NodeKind::Page && !e.contains(x.id@) {
            if t != (x.id@, x.title@) {
                assert(rest.push((x.id@, x.title@)).contains(t));
                let j = choose|j: int| 0 <= j < rest.push((x.id@, x.title@)).len() && rest.push((x.id@, x.title@))[j] == t;
                assert(j < rest.len());
                assert(rest[j] == t);
                lemma_targets_outside(ns.drop_last(), e, t);
            }
        } else {
            lemma_targets_outside(ns.drop_last(), e, t);
        }
    }
}

impl App {
    /// Opens the picker of pages the page shown can move under, given the
    /// workspace tree: every page but the page itself and its descendants
    /// (moving a page under its own descendant would make a parent cycle).
    pub fn start_move_page(&mut self, nodes: Vec<TreeNode>)
        ensures
            start_move_rel(*old(self), *final(self), nodes@),
    {
        let page_id = match &self.view {
            MainView::Page(v) => v.page.id.clone(),
            _ => {
                self.notice = Some("open a page to move it".to_owned());
                return;
            },
        };
        let ghost ns = nodes@;
        let mut excluded: Vec<String> = Vec::new();
        excluded.push(page_id.clone());
        let mut added: Vec<bool> = Vec::new();
        let mut i: usize = 0;
        while i < nodes.len()
            invariant
                i <= nodes@.len(),
                added@.len() == i,
                forall|k: int| 0 <= k < i ==> !(#[trigger] added@[k]),
            decreases nodes@.len() - i,
        {
            added.push(false);
            i += 1;
        }
        proof {
            assert(crate::ui::sidebar::texts(excluded@)[0] == page_id@);
        }
        loop
            invariant
                ns == nodes@,
                added@.len() == ns.len(),
                id_set(excluded@).contains(page_id@),
                forall|k: int| 0 <= k < ns.len() && #[trigger] added@[k] ==> id_set(excluded@).contains(ns[k].id@),
                forall|s: Set<Seq<char>>|
                    #[trigger] closed_below(ns, page_id@, s) ==> id_set(excluded@).subset_of(s),
            ensures
                closed_below(ns, page_id@, id_set(excluded@)),
                forall|s: Set<Seq<char>>|
                    #[trigger] closed_below(ns, page_id@, s) ==> id_set(excluded@).subset_of(s),
            decreases count_false(added@),
        {
            let ghost start_count = count_false(added@);
            let ghost start_set = id_set(excluded@);
            let mut grew = false;
            let mut i: usize = 0;
            while i < nodes.len()
                invariant
                    ns == nodes@,
                    i <= ns.len(),
                    added@.len() == ns.len(),
                    id_set(excluded@).contains(page_id@),
                    forall|k: int| 0 <= k < ns.len() && #[trigger] added@[k] ==> id_set(excluded@).contains(ns[k].id@),
                    forall|s: Set<Seq<char>>|
                        #[trigger] closed_below(ns, page_id@, s) ==> id_set(excluded@).subset_of(s),
                    count_false(added@) <= start_count,
                    grew ==> count_false(added@) < start_count,
                    !grew ==> id_set(excluded@) == start_set,
                    !grew ==> forall|k: int|
                        0 <= k < i && parent_in(#[trigger] ns[k], id_set(excluded@)) ==> id_set(
                            excluded@,
                        ).contains(ns[k].id@),
                decreases ns.len() - i,
            {
                let n = &nodes[i];
                match &n.parent_id {
                    Some(pid) => {
                        if crate::ui::sidebar::holds(&excluded, pid) && !crate::ui::sidebar::holds(&excluded, &n.id) {
                            let ghost before = excluded@;
                            let ghost before_added = added@;
                            excluded.push(n.id.clone());
                            proof {
                                assert(crate::ui::sidebar::texts(excluded@) =~= crate::ui::sidebar::texts(before).push(
                                    n.id@,
                                ));
                                assert(id_set(excluded@) =~= id_set(before).insert(n.id@)) by {
                                    broadcast use vstd::seq_lib::group_seq_properties;
                                }
                                assert forall|s: Set<Seq<char>>| #[trigger]
                                    closed_below(ns, page_id@, s) implies id_set(excluded@).subset_of(s) by {
                                    assert(id_set(before).subset_of(s));
                                    assert(s.contains(pid@));
                                    assert(ns[i as int] == *n);
                                }
                                assert(!before_added[i as int]);
                                lemma_count_false_set(before_added, i as int);
                            }
                            added.set(i, true);
                            proof {
                                assert(added@ =~= before_added.update(i as int, true));
                                assert forall|k: int| 0 <= k < ns.len() && #[trigger] added@[k] implies id_set(
                                    excluded@,
                                ).contains(ns[k].id@) by {
                                    if k != i {
                                        assert(before_added[k]);
                                        assert(id_set(before).contains(ns[k].id@));
                                    }
                                }
                            }
                            grew = true;
                        }
                    },
                    None => {},
                }
                i += 1;
            }
            if !grew {
                break;
            }
        }
        let mut items: Vec<(String, String)> = Vec::new();
        let ghost e = id_set(excluded@);
        let mut j: usize = 0;
        while j < nodes.len()
            invariant
                ns == nodes@,
                j <= ns.len(),
                e == id_set(excluded@),
                item_views(items@) == move_targets(ns.take(j as int), e),
            decreases ns.len() - j,
        {
            proof {
                assert(ns.take(j + 1).drop_last() =~= ns.take(j as int));
                assert(ns.take(j + 1).last() == ns[j as int]);
            }
            let n = &nodes[j];
            if n.kind == NodeKind::Page && !crate::ui::sidebar::holds(&excluded, &n.id) {
                let ghost before = items@;
                items.push((n.id.clone(), n.title.clone()));
                proof {
                    assert(item_views(items@) =~= item_views(before).push((n.id@, n.title@)));
                }
            }
            j += 1;
        }
        proof {
            assert(ns.take(ns.len() as int) =~= ns);
            assert(subtree_ids(ns, page_id@, e));
        }
        self.picker = Some(PickerState::new("move to…", items));
        self.picker_purpose = Some(PickerPurpose::MovePage { page_id });
    }
}

// ---------------------------------------------------------------------------
// Refreshing what is shown

use crate::records::{CommentRec, OpRec, SearchHit};
use crate::fuzzy::{scored, stable_rank, subsequence_rank};

/// The text a search hit is ranked by: its title, a space, its snippet.
pub open spec fn hit_label(h: SearchHit) -> Seq<char> {
    h.title@ + " "@ + h.snippet@
}

/// The ranking labels of `hs`.
pub open spec fn hit_labels(hs: Seq<SearchHit>) -> Seq<Seq<char>> {
    hs.map_values(|h: SearchHit| hit_label(h))
}

/// The indices below `upto` that `ranked` does not hold, ascending.
pub open spec fn unranked(ranked: Seq<int>, upto: int) -> Seq<int>
    decreases upto,
{
    if upto <= 0 {
        Seq::empty()
    } else if ranked.contains(upto - 1) {
        unranked(ranked, upto - 1)
    } else {
        unranked(ranked, upto - 1).push(upto - 1)
    }
}

/// The order search hits are shown in: for a blank query, as the full-text
/// search gave them; otherwise the hits the query matches as a subsequence
/// of their label, best first (ties in search order), then the rest in
/// search order.
pub open spec fn search_order(query: Seq<char>, hs: Seq<SearchHit>) -> Seq<int> {
    if crate::text::trim(query).len() == 0 {
        Seq::new(hs.len(), |i: int| i)
    } else {
        let ranked = stable_rank(scored(query, hit_labels(hs))).map_values(|x: (int, int)| x.1);
        ranked + unranked(ranked, hs.len() as int)
    }
}

/// `rs` holds the hits of `hs` in the order `order`.
pub open spec fn in_order(rs: Seq<SearchHit>, hs: Seq<SearchHit>, order: Seq<int>) -> bool {
    rs.len() == order.len() && forall|k: int| 0 <= k < rs.len() ==> #[trigger] rs[k] == hs[order[k]]
}

/// The number of ops in a conflict.
pub open spec fn conflicted_in(ops: Seq<OpRec>) -> nat
    decreases ops.len(),
{
    if ops.len() == 0 {
        0
    } else {
        conflicted_in(ops.drop_last()) + if ops.last().state@ == "conflicted"@ {
            1nat
        } else {
            0nat
        }
    }
}

proof fn lemma_conflicted_le(ops: Seq<OpRec>)
    ensures
        conflicted_in(ops) <= ops.len(),
    decreases ops.len(),
{
    if ops.len() > 0 {
        lemma_conflicted_le(ops.drop_last());
    }
}

fn clone_hit(h: &SearchHit) -> (r: SearchHit)
    ensures
        r == *h,
{
    SearchHit { page_id: h.page_id.clone(), title: h.title.clone(), snippet: h.snippet.clone() }
}

impl App {
    /// Shows the full-text search results `hits` for the current query,
    /// re-ranked by how well the query matches each as a subsequence, and
    /// puts the cursor on the first. Nothing happens without the search
    /// modal.
    pub fn refresh_search(&mut self, hits: Vec<SearchHit>)
        ensures
            match old(self).search {
                None => *final(self) == *old(self),
                Some(s) => final(self).search matches Some(ns) && *final(self) == (App {
                    search: final(self).search,
                    ..*old(self)
                }) && ns.input == s.input && ns.cursor == 0 && in_order(
                    ns.results@,
                    hits@,
                    search_order(s.input@, hits@),
                ),
            },
    {
        let query = match &self.search {
            Some(s) => s.input.clone(),
            None => return,
        };
        let n = hits.len();
        let qc = crate::text::chars_of(query.as_str());
        let tq = crate::text::trim_chars(&qc);
        let mut order: Vec<usize> = Vec::new();
        let ghost want = search_order(query@, hits@);
        if tq.len() == 0 {
            let mut i: usize = 0;
            while i < n
                invariant
                    i <= n == hits@.len(),
                    order@.len() == i,
                    forall|k: int| 0 <= k < i ==> order@[k] == k,
                decreases n - i,
            {
                order.push(i);
                i += 1;
            }
        } else {
            let mut items: Vec<(usize, String)> = Vec::new();
            let mut i: usize = 0;
            while i < n
                invariant
                    i <= n == hits@.len(),
                    items@.len() == i,
                    forall|k: int| 0 <= k < i ==> (#[trigger] items@[k]).0 == k && items@[k].1@ == hit_label(hits@[k]),
                decreases n - i,
            {
                let mut label = hits[i].title.clone();
                push_str(&mut label, " ");
                push_str(&mut label, hits[i].snippet.as_str());
                items.push((i, label));
                i += 1;
            }
            let ghost its = items@;
            proof {
                assert(crate::fuzzy::labels_of(its) =~= hit_labels(hits@));
                crate::fuzzy::law_rank_keeps_exactly_the_matches(query@, its);
            }
            let ranked = subsequence_rank(query.as_str(), items);
            let ghost rk = stable_rank(scored(query@, hit_labels(hits@))).map_values(|x: (int, int)| x.1);
            proof {
                assert forall|k: int| 0 <= k < ranked@.len() implies ranked@[k] == rk[k] && rk[k] < n by {
                    let j = crate::fuzzy::rank_order(query@, its)[k].1;
                    assert(ranked@[k] == its[j].0);
                }
            }
            let mut matched: Vec<bool> = Vec::new();
            let mut i: usize = 0;
            while i < n
                invariant
                    i <= n,
                    matched@.len() == i,
                    forall|k: int| 0 <= k < i ==> !(#[trigger] matched@[k]),
                decreases n - i,
            {
                matched.push(false);
                i += 1;
            }
            let mut j: usize = 0;
            while j < ranked.len()
                invariant
                    j <= ranked@.len() == rk.len(),
                    matched@.len() == n,
                    forall|k: int| 0 <= k < ranked@.len() ==> #[trigger] ranked@[k] == rk[k] && rk[k] < n,
                    forall|x: int| 0 <= x < n ==> (#[trigger] matched@[x]) == rk.take(j as int).contains(x),
                decreases ranked@.len() - j,
            {
                let x = ranked[j];
                matched.set(x, true);
                proof {
                    assert(rk.take(j + 1) =~= rk.take(j as int).push(x as int));
                    assert forall|y: int| 0 <= y < n implies (#[trigger] matched@[y]) == rk.take(j + 1).contains(y) by {
                        broadcast use vstd::seq_lib::group_seq_properties;
                    }
                }
                j += 1;
            }
            proof {
                assert(rk.take(rk.len() as int) =~= rk);
            }
            let mut k: usize = 0;
            while k < ranked.len()
                invariant
                    k <= ranked@.len() == rk.len(),
                    forall|q: int| 0 <= q < ranked@.len() ==> #[trigger] ranked@[q] == rk[q] && rk[q] < n,
                    order@.len() == k,
                    forall|q: int| 0 <= q < k ==> order@[q] == rk[q],
                decreases ranked@.len() - k,
            {
                order.push(ranked[k]);
                k += 1;
            }
            let mut i: usize = 0;
            while i < n
                invariant
                    i <= n == hits@.len(),
                    matched@.len() == n,
                    forall|x: int| 0 <= x < n ==> (#[trigger] matched@[x]) == rk.contains(x),
                    forall|q: int| 0 <= q < rk.len() ==> rk[q] < n,
                    order@.len() == rk.len() + unranked(rk, i as int).len(),
                    forall|q: int| 0 <= q < rk.len() ==> order@[q] == rk[q],
                    forall|q: int|
                        0 <= q < unranked(rk, i as int).len() ==> order@[rk.len() + q] == unranked(rk, i as int)[q]
                            && unranked(rk, i as int)[q] < i,
                decreases n - i,
            {
                if !matched[i] {
                    order.push(i);
                }
                i += 1;
            }
            proof {
                assert forall|q: int| 0 <= q < want.len() implies order@[q] == want[q] by {
                    if q >= rk.len() {
                        assert(want[q] == unranked(rk, n as int)[q - rk.len()]);
                    }
                }
            }
        }
        proof {
            assert(order@.len() == want.len());
            assert(forall|q: int| 0 <= q < want.len() ==> #[trigger] order@[q] == want[q] && want[q] < n);
        }
        let mut results: Vec<SearchHit> = Vec::new();
        let mut k: usize = 0;
        while k < order.len()
            invariant
                k <= order@.len() == want.len(),
                forall|q: int| 0 <= q < want.len() ==> #[trigger] order@[q] == want[q] && want[q] < hits@.len(),
                results@.len() == k,
                forall|q: int| 0 <= q < k ==> #[trigger] results@[q] == hits@[want[q]],
            decreases order@.len() - k,
        {
            results.push(clone_hit(&hits[order[k]]));
            k += 1;
        }
        match &mut self.search {
            Some(s) => {
                s.results = results;
                s.cursor = 0;
            },
            None => {},
        }
    }

    /// Opens the queue view `opened` (remembering the view it replaces), or
    /// closes the queue back to that view.
    pub fn toggle_queue(&mut self, opened: QueueView)
        ensures
            match old(self).view {
                MainView::Queue(_) => *final(self) == (App {
                    view: match old(self).queue_return {
                        Some(b) => *b,
                        None => MainView::Empty,
                    },
                    queue_return: None,
                    ..*old(self)
                }),
                _ => *final(self) == (App {
                    view: MainView::Queue(opened),
                    queue_return: Some(Box::new(old(self).view)),
                    ..*old(self)
                }),
            },
    {
        let mut v = MainView::Empty;
        std::mem::swap(&mut v, &mut self.view);
        match v {
            MainView::Queue(_) => {
                let back = self.queue_return.take();
                self.view = match back {
                    Some(b) => *b,
                    None => MainView::Empty,
                };
            },
            other => {
                self.queue_return = Some(Box::new(other));
                self.view = MainView::Queue(opened);
            },
        }
    }

    /// Counts the conflicted ops of `ops` into the status.
    pub fn refresh_conflicted(&mut self, ops: &Vec<OpRec>)
        ensures
            *final(self) == (App { conflicted: final(self).conflicted, ..*old(self) }),
            final(self).conflicted as int == conflicted_in(ops@) % 0x1_0000_0000,
    {
        let mut c: u64 = 0;
        let mut i: usize = 0;
        while i < ops.len()
            invariant
                i <= ops@.len(),
                c == conflicted_in(ops@.take(i as int)),
                c <= i,
            decreases ops@.len() - i,
        {
            proof {
                assert(ops@.take(i + 1).drop_last() =~= ops@.take(i as int));
            }
            if crate::text::str_eq(ops[i].state.as_str(), "conflicted") {
                c += 1;
            }
            i += 1;
        }
        proof {
            assert(ops@.take(ops@.len() as int) =~= ops@);
        }
        let t: u32 = (c % 0x1_0000_0000) as u32;
        self.conflicted = t;
    }

    /// Refreshes the queue view with `fresh` (the ops now queued), keeping
    /// the cursor where it still fits, and the conflict count.
    pub fn refresh_queue(&mut self, fresh: QueueView)
        ensures
            final(self).conflicted as int == conflicted_in(fresh.ops@) % 0x1_0000_0000,
            match old(self).view {
                MainView::Queue(q) => *final(self) == (App {
                    view: MainView::Queue(QueueView {
                        cursor: if q.cursor <= last_index(fresh.ops@.len() as int) {
                            q.cursor
                        } else {
                            last_index(fresh.ops@.len() as int) as usize
                        },
                        ..fresh
                    }),
                    conflicted: final(self).conflicted,
                    ..*old(self)
                }),
                _ => *final(self) == (App { conflicted: final(self).conflicted, ..*old(self) }),
            },
    {
        self.refresh_conflicted(&fresh.ops);
        match &mut self.view {
            MainView::Queue(q) => {
                let n = fresh.ops.len();
                let last = if n == 0 {
                    0
                } else {
                    n - 1
                };
                let cursor = if q.cursor <= last {
                    q.cursor
                } else {
                    last
                };
                let mut nq = fresh;
                nq.cursor = cursor;
                *q = nq;
            },
            _ => {},
        }
    }

    /// Shows `items` (the panel's comments as now stored) in the comments
    /// panel, keeping the cursor where it still fits.
    pub fn refresh_comments(&mut self, items: Vec<CommentRec>)
        ensures
            match old(self).comments {
                Some(p) => *final(self) == (App {
                    comments: Some(CommentsState {
                        items,
                        cursor: if p.cursor <= last_index(items@.len() as int) {
                            p.cursor
                        } else {
                            last_index(items@.len() as int) as usize
                        },
                        ..p
                    }),
                    ..*old(self)
                }),
                None => *final(self) == *old(self),
            },
    {
        match &mut self.comments {
            Some(p) => {
                let n = items.len();
                let last = if n == 0 {
                    0
                } else {
                    n - 1
                };
                if p.cursor > last {
                    p.cursor = last;
                }
                p.items = items;
            },
            None => {},
        }
    }

    /// After page `page_id` turned out deleted or unshared: when the local
    /// copy was forgotten (`forgot`; pending edits keep it), says so and,
    /// if it is the page shown, goes back (returning the page to open) or
    /// shows nothing.
    pub fn handle_page_gone(&mut self, page_id: &str, forgot: bool) -> (r: Effect)
        ensures
            !forgot ==> *final(self) == *old(self) && r is Noop,
            forgot ==> ({
                let showing = old(self).view matches MainView::Page(v) && v.page.id@ == page_id@;
                let noted = App { notice: final(self).notice, ..*old(self) };
                &&& final(self).notice matches Some(t) && t@ == "that page was deleted or unshared in Notion"@
                &&& if !showing {
                    *final(self) == noted && r is Noop
                } else if old(self).history@.len() > 0 {
                    *final(self) == (App { history: final(self).history, ..noted })
                        && final(self).history@ == old(self).history@.drop_last() && r == Effect::OpenPage(
                        old(self).history@.last(),
                    )
                } else {
                    *final(self) == (App { view: MainView::Empty, ..noted }) && r is Noop
                }
            }),
    {
        if !forgot {
            return Effect::Noop;
        }
        self.notice = Some("that page was deleted or unshared in Notion".to_owned());
        let showing = match &self.view {
            MainView::Page(v) => crate::text::str_eq(v.page.id.as_str(), page_id),
            _ => false,
        };
        if !showing {
            return Effect::Noop;
        }
        if self.history.len() == 0 {
            self.view = MainView::Empty;
            return Effect::Noop;
        }
        match self.history.pop() {
            Some(prev) => Effect::OpenPage(prev),
            None => Effect::Noop,
        }
    }
}

// ---------------------------------------------------------------------------
// Carrying the view state over a reload

use crate::ui::table::{FilterState, sorted_as};
use crate::records::DataSourceRec;

/// `x` limited to at most `hi`.
pub open spec fn at_most(x: int, hi: int) -> int {
    if x <= hi {
        x
    } else {
        hi
    }
}

/// The page view after a reload: `fresh`, with the cursor kept where it
/// still fits among the reloaded lines and the same toggles collapsed.
pub fn refreshed_page(prev: &PageView, fresh: PageView) -> (r: PageView)
    ensures
        r.page == fresh.page,
        r.blocks == fresh.blocks,
        r.cursor == at_most(prev.cursor as int, last_index(page_lines(fresh).len() as int)),
        r.collapsed_toggles@ == prev.collapsed_toggles@,
{
    let n = fresh.lines().len();
    let last = if n == 0 {
        0
    } else {
        n - 1
    };
    let mut r = fresh;
    r.cursor = if prev.cursor <= last {
        prev.cursor
    } else {
        last
    };
    r.collapsed_toggles = crate::text::clone_strings(&prev.collapsed_toggles);
    r
}

fn clone_filter(f: &Option<FilterState>) -> (r: Option<FilterState>)
    ensures
        r == *f,
{
    match f {
        Some(x) => Some(FilterState { col: x.col, query: x.query.clone() }),
        None => None,
    }
}

/// The sort a reloaded table keeps: the previous one, dropped when its
/// column no longer exists.
pub open spec fn carried_sort(prev: TableView, fresh: TableView) -> Option<(usize, bool)> {
    match prev.sort {
        Some((c, a)) => if c < fresh.columns@.len() {
            Some((c, a))
        } else {
            None
        },
        None => None,
    }
}

/// Where a reloaded table's cursor goes: onto the row that was selected,
/// when it is still shown, else the old position where it still fits.
pub open spec fn cursor_carried(prev: TableView, t: TableView) -> bool {
    let sh = crate::ui::table::shown(t);
    match table_row_at(prev) {
        Some(id) if exists|j: int| 0 <= j < sh.len() && #[trigger] t.rows@[sh[j]].id@ == id => {
            &&& t.cursor < sh.len()
            &&& t.rows@[sh[t.cursor as int]].id@ == id
            &&& forall|j: int| 0 <= j < t.cursor ==> #[trigger] t.rows@[sh[j]].id@ != id
        },
        _ => t.cursor == at_most(prev.cursor as int, last_index(sh.len() as int)),
    }
}

proof fn lemma_shown_upto_same(a: TableView, b: TableView, n: int)
    requires
        a.filter == b.filter,
        a.columns == b.columns,
        a.rows == b.rows,
    ensures
        crate::ui::table::shown_upto(a, n) == crate::ui::table::shown_upto(b, n),
    decreases n,
{
    if n > 0 {
        lemma_shown_upto_same(a, b, n - 1);
    }
}

/// The table view after a reload: `fresh` with the previous sort (when its
/// column still exists) re-applied, the sort column kept where it fits, the
/// previous filter, and the cursor carried over.
pub fn refreshed_table(prev: &TableView, fresh: TableView) -> (r: TableView)
    ensures
        r.ds == fresh.ds,
        r.columns == fresh.columns,
        r.sort_col == at_most(prev.sort_col as int, last_index(fresh.columns@.len() as int)),
        r.filter == prev.filter,
        sorted_as(fresh.rows@, fresh.columns@, carried_sort(*prev, fresh), TableView { filter: fresh.filter, ..r }),
        cursor_carried(*prev, r),
{
    let selected = prev.selected_row_id();
    let ncols = fresh.columns.len();
    let last_col = if ncols == 0 {
        0
    } else {
        ncols - 1
    };
    let mut t = fresh;
    t.sort = match prev.sort {
        Some((c, a)) => if c < ncols {
            Some((c, a))
        } else {
            None
        },
        None => None,
    };
    t.sort_col = if prev.sort_col <= last_col {
        prev.sort_col
    } else {
        last_col
    };
    let ghost before_sort = t;
    t.apply_sort();
    let ghost sorted = t;
    t.filter = clone_filter(&prev.filter);
    proof {
        assert(TableView { filter: fresh.filter, ..t } == sorted);
    }
    let pos = match &selected {
        Some(sid) => t.rows_iter_position(sid.as_str()),
        None => None,
    };
    let ghost filtered = t;
    t.cursor = match pos {
        Some(p) => p,
        None => {
            let n = t.row_count();
            let last = if n == 0 {
                0
            } else {
                n - 1
            };
            if prev.cursor <= last {
                prev.cursor
            } else {
                last
            }
        },
    };
    proof {
        lemma_shown_upto_same(t, filtered, t.rows@.len() as int);
    }
    t
}

fn clone_group(g: &Option<(String, String)>) -> (r: Option<(String, String)>)
    ensures
        r == *g,
{
    match g {
        Some((a, b)) => Some((a.clone(), b.clone())),
        None => None,
    }
}

/// Whether some card of board `b` is the row `id`.
pub open spec fn on_board(b: BoardView, id: Seq<char>) -> bool {
    exists|c: int, j: int|
        0 <= c < b.columns@.len() && 0 <= j < in_column(b, c).len() && #[trigger] b.rows@[in_column(b, c)[j]].id@
            == id
}

/// Where a reloaded board's cursor goes: onto the first card (column by
/// column) of the row that was selected, when it is still on the board
/// (its column may have changed); else the old column and card where they
/// still fit.
pub open spec fn card_carried(prev: BoardView, b: BoardView) -> bool {
    match board_card_at(prev) {
        Some(id) if on_board(b, id) => {
            &&& b.col < b.columns@.len()
            &&& b.card < in_column(b, b.col as int).len()
            &&& b.rows@[in_column(b, b.col as int)[b.card as int]].id@ == id
            &&& forall|c: int, j: int|
                0 <= c < b.col && 0 <= j < in_column(b, c).len() ==> #[trigger] b.rows@[in_column(b, c)[j]].id@ != id
            &&& forall|j: int| 0 <= j < b.card ==> #[trigger] b.rows@[in_column(b, b.col as int)[j]].id@ != id
        },
        _ => {
            &&& b.col == at_most(prev.col as int, last_index(b.columns@.len() as int))
            &&& b.card == at_most(prev.card as int, last_index(in_column(b, b.col as int).len() as int))
        },
    }
}

/// The board after a reload over `ds` and `rows`: grouped as before, with
/// the selected card followed to where it now is.
pub fn refreshed_board(prev: &BoardView, ds: DataSourceRec, rows: Vec<RowRec>) -> (r: BoardView)
    ensures
        crate::ui::board::fresh_board(
            BoardView { col: 0, card: 0, ..r },
            ds,
            rows,
            prev.group_override,
        ),
        card_carried(*prev, r),
{
    let selected = prev.selected_row_id();
    let mut b = BoardView::with_group(ds, rows, clone_group(&prev.group_override));
    let ghost b0 = b;
    let mut found: Option<(usize, usize)> = None;
    match &selected {
        Some(sid) => {
            let mut ci: usize = 0;
            while ci < b.columns.len()
                invariant_except_break
                    found is None,
                invariant
                    b == b0,
                    ci <= b.columns@.len(),
                    forall|c: int, j: int|
                        0 <= c < ci && 0 <= j < in_column(b, c).len() ==> #[trigger] b.rows@[in_column(b, c)[j]].id@
                            != sid@,
                ensures
                    b == b0,
                    found matches Some((c, j)) ==> c < b.columns@.len() && j < in_column(b, c as int).len()
                        && b.rows@[in_column(b, c as int)[j as int]].id@ == sid@ && (forall|c2: int, j2: int|
                        0 <= c2 < c && 0 <= j2 < in_column(b, c2).len() ==> #[trigger] b.rows@[in_column(
                            b,
                            c2,
                        )[j2]].id@ != sid@) && (forall|j2: int|
                        0 <= j2 < j ==> #[trigger] b.rows@[in_column(b, c as int)[j2]].id@ != sid@),
                    found is None ==> forall|c: int, j: int|
                        0 <= c < b.columns@.len() && 0 <= j < in_column(b, c).len() ==> #[trigger] b.rows@[in_column(
                            b,
                            c,
                        )[j]].id@ != sid@,
                decreases b.columns@.len() - ci,
            {
                let cards = b.cards_in(ci);
                let mut j: usize = 0;
                let mut hit: Option<usize> = None;
                while j < cards.len()
                    invariant_except_break
                        hit is None,
                    invariant
                        b == b0,
                        ci < b.columns@.len(),
                        j <= cards@.len() == in_column(b, ci as int).len(),
                        forall|q: int| 0 <= q < cards@.len() ==> *cards@[q] == b.rows@[#[trigger] in_column(b, ci as int)[q]],
                        forall|q: int| 0 <= q < j ==> #[trigger] b.rows@[in_column(b, ci as int)[q]].id@ != sid@,
                    ensures
                        hit matches Some(x) ==> x < cards@.len() && b.rows@[in_column(b, ci as int)[x as int]].id@
                            == sid@ && forall|q: int| 0 <= q < x ==> #[trigger] b.rows@[in_column(b, ci as int)[q]].id@
                            != sid@,
                        hit is None ==> forall|q: int|
                            0 <= q < cards@.len() ==> #[trigger] b.rows@[in_column(b, ci as int)[q]].id@ != sid@,
                    decreases cards@.len() - j,
                {
                    if crate::text::str_eq(cards[j].id.as_str(), sid.as_str()) {
                        hit = Some(j);
                        break;
                    }
                    j += 1;
                }
                match hit {
                    Some(x) => {
                        found = Some((ci, x));
                        break;
                    },
                    None => {},
                }
                ci += 1;
            }
        },
        None => {},
    }
    match found {
        Some((c, j)) => {
            b.col = c;
            b.card = j;
        },
        None => {
            let nc = b.columns.len();
            let last_col = if nc == 0 {
                0
            } else {
                nc - 1
            };
            b.col = if prev.col <= last_col {
                prev.col
            } else {
                last_col
            };
            let n = b.cards_in(b.col).len();
            let last = if n == 0 {
                0
            } else {
                n - 1
            };
            b.card = if prev.card <= last {
                prev.card
            } else {
                last
            };
        },
    }
    proof {
        assert forall|c: int| #[trigger] in_column(b, c) == in_column(b0, c) by {}
    }
    b
}

// ---------------------------------------------------------------------------
// Starting up, and the mouse

impl App {
    /// The screen at start: sidebar focused and empty, nothing open,
    /// default keys.
    pub fn new() -> (r: App)
        ensures
            r.focus == Focus::Sidebar,
            r.sync_status is Starting,
            !r.should_quit,
            r.sidebar.nodes@.len() == 0 && r.sidebar.collapsed@.len() == 0 && r.sidebar.cursor == 0 && !r.sidebar.hidden,
            r.view is Empty,
            r.history@.len() == 0,
            r.search is None && r.input is None && r.input_purpose is None && r.props is None,
            r.pending == 0 && !r.pending_d && r.conflicted == 0,
            r.confirm is None && r.comments is None && r.queue_return is None,
            r.editor_override is None,
            r.keymap@ == crate::keymap::default_chords(),
            !r.help_open && r.palette is None && r.picker is None && r.picker_purpose is None,
            !r.mouse && !r.force_redraw && r.notice is None && r.drag_card is None,
            r.last_layout.sidebar is None && r.last_layout.table_col_x@.len() == 0
                && r.last_layout.board_columns@.len() == 0,
    {
        App {
            focus: Focus::Sidebar,
            sync_status: SyncStatus::Starting,
            should_quit: false,
            sidebar: SidebarState::new(Vec::new()),
            view: MainView::Empty,
            history: Vec::new(),
            search: None,
            input: None,
            input_purpose: None,
            props: None,
            pending: 0,
            pending_d: false,
            confirm: None,
            comments: None,
            queue_return: None,
            conflicted: 0,
            editor_override: None,
            keymap: Keymap::new(),
            help_open: false,
            palette: None,
            picker: None,
            picker_purpose: None,
            mouse: false,
            force_redraw: false,
            notice: None,
            drag_card: None,
            last_layout: LayoutRects::default(),
        }
    }
}

/// Whether cell `pt` (column, row) lies in `a`.
pub open spec fn inside(a: Area, pt: (u16, u16)) -> bool {
    a.x <= pt.0 < a.x + a.width && a.y <= pt.1 < a.y + a.height
}

/// The list row of cell row `y` in a bordered list whose top border is on
/// row `top` (0 on or above the border).
pub open spec fn row_below(y: u16, top: u16) -> int {
    if y > top + 1 {
        y - (top + 1)
    } else {
        0
    }
}

/// The first of `rects` holding `pt`.
pub open spec fn first_hit(rects: Seq<Area>, pt: (u16, u16), i: int) -> Option<int>
    decreases rects.len() - i,
{
    if i < 0 || i >= rects.len() {
        None
    } else if inside(rects[i], pt) {
        Some(i)
    } else {
        first_hit(rects, pt, i + 1)
    }
}

/// The table column a header click at column `x` lands on: the last column
/// starting at or before `x` (the first when none does).
pub open spec fn header_col(xs: Seq<u16>, x: u16) -> int
    decreases xs.len(),
{
    if xs.len() == 0 {
        0
    } else if x >= xs.last() {
        xs.len() - 1
    } else {
        header_col(xs.drop_last(), x)
    }
}

/// A left click at `pt`: on the sidebar it focuses it and opens the entry
/// clicked; on the main pane it focuses it and sorts by a table header,
/// follows a page link, or selects a board card (starting a drag).
pub open spec fn click_rel(o: App, n: App, pt: (u16, u16), r: Action) -> bool {
    let l = o.last_layout;
    if l.sidebar is Some && inside(l.sidebar.unwrap(), pt) {
        let idx = l.sidebar_offset + row_below(pt.1, l.sidebar.unwrap().y);
        let sh = crate::ui::sidebar::shown(o.sidebar);
        if idx < sh.len() {
            n == (App { focus: Focus::Sidebar, sidebar: SidebarState { cursor: idx as usize, ..o.sidebar }, ..o })
                && r == Action::OpenNode(o.sidebar.nodes@[sh[idx].0])
        } else {
            n == (App { focus: Focus::Sidebar, ..o }) && r is Noop
        }
    } else if !inside(l.main, pt) {
        n == o && r is Noop
    } else {
        let m = App { focus: Focus::Main, ..o };
        match o.view {
            MainView::Table(t) => if l.table_header_y == Some(pt.1) {
                n == (App { view: n.view, ..m }) && (n.view matches MainView::Table(nt) && sort_toggled(
                    t,
                    nt,
                    header_col(l.table_col_x@, pt.0) as usize,
                )) && r is Noop
            } else {
                n == m && r is Noop
            },
            MainView::Page(v) => n == m && {
                let idx = l.main_offset + row_below(pt.1, l.main.y);
                if idx < page_lines(v).len() {
                    opens(r, page_lines(v)[idx].3)
                } else {
                    r is Noop
                }
            },
            MainView::Board(b) => r is Noop && match first_hit(l.board_columns@, pt, 0) {
                Some(ci) => {
                    let idx = (if ci == b.col {
                        l.main_offset as int
                    } else {
                        0
                    }) + row_below(pt.1, l.board_columns@[ci].y);
                    if idx < in_column(b, ci).len() {
                        n == (App {
                            view: MainView::Board(BoardView { col: ci as usize, card: idx as usize, ..b }),
                            drag_card: Some((ci as usize, idx as usize)),
                            ..m
                        })
                    } else {
                        n == m
                    }
                },
                None => n == m,
            },
            _ => n == m && r is Noop,
        }
    }
}

/// Dragging with the left button held: while a card drag is on, the board
/// column under `pt` becomes current (a preview of the drop).
pub open spec fn drag_rel(o: App, n: App, pt: (u16, u16)) -> bool {
    if o.drag_card is Some {
        match (first_hit(o.last_layout.board_columns@, pt, 0), o.view) {
            (Some(ci), MainView::Board(b)) => n == (App { view: MainView::Board(BoardView { col: ci as usize, ..b }), ..o }),
            _ => n == o,
        }
    } else {
        n == o
    }
}

/// Releasing the left button: a card drag ends, moving the card from the
/// column it started in to the current one (asking to write the move) when
/// those differ.
pub open spec fn drop_rel(o: App, n: App, r: Action) -> bool {
    match o.drag_card {
        None => n == o && r is Noop,
        Some((origin, _)) => match o.view {
            MainView::Board(b) => {
                let start = BoardView { col: origin, ..b };
                n == (App { view: n.view, drag_card: None, ..o }) && (n.view matches MainView::Board(nb) && if b.col
                    == origin {
                    nb == start && r is Noop
                } else {
                    card_move_rel(start, b.col as int, nb, r)
                })
            },
            _ => n == (App { drag_card: None, ..o }) && r is Noop,
        },
    }
}

/// Whether a modal is open (they take no mouse input).
pub open spec fn modal_open(o: App) -> bool {
    o.palette is Some || o.picker is Some || o.confirm is Some || o.props is Some || o.input is Some
        || o.search is Some || o.comments is Some
}

/// A mouse event: ignored under a modal; the wheel scrolls the view shown
/// by three; left clicks, drags and releases as `click_rel`, `drag_rel`
/// and `drop_rel` say, their actions carried out as keys' are.
pub open spec fn mouse_rel(o: App, n: App, m: MouseEvent, r: Effect) -> bool {
    let pt = (m.column, m.row);
    if modal_open(o) {
        n == o && r is Noop
    } else {
        match m.kind {
            MouseKind::ScrollDown => scroll_rel(o, n, 3) && r is Noop,
            MouseKind::ScrollUp => scroll_rel(o, n, -3) && r is Noop,
            MouseKind::LeftDown => exists|mid: App, a: Action|
                #[trigger] click_rel(o, mid, pt, a) && apply_action_rel(mid, n, a, r),
            MouseKind::LeftDrag => drag_rel(o, n, pt) && r is Noop,
            MouseKind::LeftUp => exists|mid: App, a: Action|
                #[trigger] drop_rel(o, mid, a) && apply_action_rel(mid, n, a, r),
            MouseKind::Other => n == o && r is Noop,
        }
    }
}

fn point_in(a: Area, pt: (u16, u16)) -> (r: bool)
    ensures
        r == inside(a, pt),
{
    let x = pt.0 as u32;
    let y = pt.1 as u32;
    x >= a.x as u32 && x < a.x as u32 + a.width as u32 && y >= a.y as u32 && y < a.y as u32 + a.height as u32
}

fn list_row(y: u16, top: u16) -> (r: usize)
    ensures
        r == row_below(y, top),
{
    let t = top as u32 + 1;
    if y as u32 > t {
        (y as u32 - t) as usize
    } else {
        0
    }
}

fn hit_column(rects: &Vec<Area>, pt: (u16, u16)) -> (r: Option<usize>)
    ensures
        match r {
            Some(i) => i < rects@.len() && first_hit(rects@, pt, 0) == Some(i as int),
            None => first_hit(rects@, pt, 0) is None,
        },
{
    let mut i: usize = 0;
    while i < rects.len()
        invariant
            i <= rects@.len(),
            first_hit(rects@, pt, 0) == first_hit(rects@, pt, i as int),
        decreases rects@.len() - i,
    {
        if point_in(rects[i], pt) {
            return Some(i);
        }
        i += 1;
    }
    None
}

fn header_column(xs: &Vec<u16>, x: u16) -> (r: usize)
    ensures
        r == header_col(xs@, x),
{
    let mut i: usize = xs.len();
    proof {
        assert(xs@.take(xs@.len() as int) =~= xs@);
    }
    while i > 0
        invariant
            i <= xs@.len(),
            header_col(xs@, x) == header_col(xs@.take(i as int), x),
        decreases i,
    {
        proof {
            assert(xs@.take(i as int).drop_last() =~= xs@.take(i - 1));
        }
        if x >= xs[i - 1] {
            return i - 1;
        }
        i -= 1;
    }
    0
}

/// Handles a left click at `pt` against the last frame's layout.
pub fn handle_click(app: &mut App, pt: (u16, u16)) -> (r: Action)
    ensures
        click_rel(*old(app), *final(app), pt, r),
{
    match app.last_layout.sidebar {
        Some(sb) => {
            if point_in(sb, pt) {
                app.focus = Focus::Sidebar;
                let row = list_row(pt.1, sb.y);
                let vis = app.sidebar.visible();
                let nvis = vis.len();
                let sel = if app.last_layout.sidebar_offset <= usize::MAX - row {
                    let idx = app.last_layout.sidebar_offset + row;
                    if idx < nvis {
                        proof {
                            assert(*vis@[idx as int].node == app.sidebar.nodes@[crate::ui::sidebar::shown(
                                app.sidebar,
                            )[idx as int].0]);
                        }
                        Some((idx, clone_node(vis[idx].node)))
                    } else {
                        None
                    }
                } else {
                    None
                };
                return match sel {
                    Some((idx, node)) => {
                        app.sidebar.cursor = idx;
                        Action::OpenNode(node)
                    },
                    None => Action::Noop,
                };
            }
        },
        None => {},
    }
    if !point_in(app.last_layout.main, pt) {
        return Action::Noop;
    }
    app.focus = Focus::Main;
    let header = app.last_layout.table_header_y;
    let row_main = list_row(pt.1, app.last_layout.main.y);
    let offset = app.last_layout.main_offset;
    let hit = hit_column(&app.last_layout.board_columns, pt);
    let sort_col = header_column(&app.last_layout.table_col_x, pt.0);
    let card_row = match hit {
        Some(ci) => list_row(pt.1, app.last_layout.board_columns[ci].y),
        None => 0,
    };
    let mut drag: Option<(usize, usize)> = None;
    let r = match &mut app.view {
        MainView::Table(t) => {
            match header {
                Some(hy) => {
                    if pt.1 == hy {
                        t.toggle_sort(sort_col);
                    }
                },
                None => {},
            }
            Action::Noop
        },
        MainView::Page(v) => {
            let ls = v.lines();
            let nls = ls.len();
            if offset <= usize::MAX - row_main {
                let idx = offset + row_main;
                if idx < nls {
                    proof {
                        assert(crate::ui::page::lines_view(ls@)[idx as int] == crate::ui::page::line_view(
                            ls@[idx as int],
                        ));
                    }
                    match &ls[idx].link_page_id {
                        Some(target) => Action::OpenPage(target.clone()),
                        None => Action::Noop,
                    }
                } else {
                    Action::Noop
                }
            } else {
                Action::Noop
            }
        },
        MainView::Board(b) => {
            match hit {
                Some(ci) => {
                    let off = if ci == b.col {
                        offset
                    } else {
                        0
                    };
                    let n = b.cards_in(ci).len();
                    if off <= usize::MAX - card_row {
                        let idx = off + card_row;
                        if idx < n {
                            b.col = ci;
                            b.card = idx;
                            drag = Some((ci, idx));
                        }
                    }
                },
                None => {},
            }
            Action::Noop
        },
        _ => Action::Noop,
    };
    if drag.is_some() {
        app.drag_card = drag;
    }
    r
}

/// Handles dragging with the left button held.
pub fn handle_drag(app: &mut App, pt: (u16, u16))
    ensures
        drag_rel(*old(app), *final(app), pt),
{
    if app.drag_card.is_none() {
        return;
    }
    let hit = hit_column(&app.last_layout.board_columns, pt);
    match hit {
        Some(ci) => match &mut app.view {
            MainView::Board(b) => {
                b.col = ci;
            },
            _ => {},
        },
        None => {},
    }
}

/// Handles releasing the left button.
pub fn handle_drop(app: &mut App) -> (r: Action)
    ensures
        drop_rel(*old(app), *final(app), r),
{
    let origin = match app.drag_card.take() {
        Some((c, _)) => c,
        None => return Action::Noop,
    };
    match &mut app.view {
        MainView::Board(b) => {
            let target = b.col;
            b.col = origin;
            let ghost start = *b;
            let m = b.move_card_to(target);
            let r = match m {
                Some((row_id, value)) => Action::MoveCard {
                    row_id,
                    prop_name: b.group_prop.clone(),
                    prop_type: b.group_type.clone(),
                    value,
                },
                None => Action::Noop,
            };
            proof {
                if target != origin {
                    assert(card_moved(start, *b, target as int, m));
                }
            }
            r
        },
        _ => Action::Noop,
    }
}

/// Handles a mouse event; returns the work left to the caller.
pub fn dispatch_mouse(app: &mut App, m: MouseEvent) -> (r: Effect)
    ensures
        mouse_rel(*old(app), *final(app), m, r),
{
    if app.palette.is_some() || app.picker.is_some() || app.confirm.is_some() || app.props.is_some()
        || app.input.is_some() || app.search.is_some() || app.comments.is_some() {
        return Effect::Noop;
    }
    let pt = (m.column, m.row);
    match m.kind {
        MouseKind::ScrollDown => {
            scroll(app, 3);
            Effect::Noop
        },
        MouseKind::ScrollUp => {
            scroll(app, -3);
            Effect::Noop
        },
        MouseKind::LeftDown => {
            let a = handle_click(app, pt);
            let ghost ga = a;
            let ghost mid = *app;
            let r = apply_action(app, a);
            proof {
                assert(click_rel(*old(app), mid, pt, ga));
            }
            r
        },
        MouseKind::LeftDrag => {
            handle_drag(app, pt);
            Effect::Noop
        },
        MouseKind::LeftUp => {
            let a = handle_drop(app);
            let ghost ga = a;
            let ghost mid = *app;
            let r = apply_action(app, a);
            proof {
                assert(drop_rel(*old(app), mid, ga));
            }
            r
        },
        MouseKind::Other => Effect::Noop,
    }
}

// ---------------------------------------------------------------------------
// Opening what the store found

use crate::records::PageRec;

/// What the local store holds under an id being opened.
pub enum Found {
    /// A page, with its blocks.
    Page(PageRec, Vec<BlockRec>),
    /// A data source (found by its own id or by its database's), with its rows.
    Table(DataSourceRec, Vec<RowRec>),
    Missing,
}

impl App {
    /// Shows what opening `page_id` found: the page, or the data source's
    /// table, or a notice that it is not (yet) in the local copy. Returns
    /// whether a page opened (its liveness is then worth checking).
    pub fn open_page_found(&mut self, page_id: &str, found: Found) -> (r: bool)
        ensures
            match found {
                Found::Page(page, blocks) => r && *final(self) == (App { view: final(self).view, ..*old(self) })
                    && (final(self).view matches MainView::Page(v) && v.page == page && v.blocks == blocks && v.cursor
                    == 0 && v.collapsed_toggles@.len() == 0),
                Found::Table(ds, rows) => !r && *final(self) == (App { view: final(self).view, ..*old(self) })
                    && (final(self).view matches MainView::Table(t) && crate::ui::table::fresh_table(t, ds, rows)),
                Found::Missing => !r && noticed(*old(self), *final(self), "not found (not synced yet?): "@ + page_id@),
            },
    {
        match found {
            Found::Page(page, blocks) => {
                self.view = MainView::Page(PageView::new(page, blocks));
                true
            },
            Found::Table(ds, rows) => {
                self.view = MainView::Table(TableView::new(ds, rows));
                false
            },
            Found::Missing => {
                let mut t = "not found (not synced yet?): ".to_owned();
                push_str(&mut t, page_id);
                self.notice = Some(t);
                false
            },
        }
    }

    /// Shows the table of data source `data_source_id` as the store found
    /// it, or a notice that it is not (yet) in the local copy.
    pub fn open_table_found(&mut self, data_source_id: &str, found: Option<(DataSourceRec, Vec<RowRec>)>)
        ensures
            match found {
                Some((ds, rows)) => *final(self) == (App { view: final(self).view, ..*old(self) })
                    && (final(self).view matches MainView::Table(t) && crate::ui::table::fresh_table(t, ds, rows)),
                None => noticed(
                    *old(self),
                    *final(self),
                    "database not found (not synced yet?): "@ + data_source_id@,
                ),
            },
    {
        match found {
            Some((ds, rows)) => {
                self.view = MainView::Table(TableView::new(ds, rows));
            },
            None => {
                let mut t = "database not found (not synced yet?): ".to_owned();
                push_str(&mut t, data_source_id);
                self.notice = Some(t);
            },
        }
    }

    /// After opening something to see it as a board: shows a table that
    /// opened as a board; anything else stays as it is.
    pub fn board_if_table(&mut self)
        ensures
            old(self).view is Table ==> toggle_board_rel(*old(self), *final(self)),
            !(old(self).view is Table) ==> *final(self) == *old(self),
    {
        let is_table = match &self.view {
            MainView::Table(_) => true,
            _ => false,
        };
        if is_table {
            self.toggle_board();
        }
    }
}

/// The first row of `rows` with id `id`.
pub open spec fn row_with_id(rows: Seq<RowRec>, id: Seq<char>) -> Option<int>
    decreases rows.len(),
{
    if rows.len() == 0 {
        None
    } else {
        match row_with_id(rows.drop_last(), id) {
            Some(k) => Some(k),
            None => if rows.last().id@ == id {
                Some(rows.len() - 1)
            } else {
                None
            },
        }
    }
}

/// The data source and rows of the table or board shown.
pub open spec fn shown_rows(v: MainView) -> Option<(DataSourceRec, Seq<RowRec>)> {
    match v {
        MainView::Table(t) => Some((t.ds, t.rows@)),
        MainView::Board(b) => Some((b.ds, b.rows@)),
        _ => None,
    }
}

fn find_row(rows: &Vec<RowRec>, id: &str) -> (r: Option<usize>)
    ensures
        match r {
            Some(k) => row_with_id(rows@, id@) == Some(k as int) && k < rows@.len(),
            None => row_with_id(rows@, id@) is None,
        },
{
    let mut k: usize = 0;
    while k < rows.len()
        invariant
            k <= rows@.len(),
            row_with_id(rows@.take(k as int), id@) is None,
        decreases rows@.len() - k,
    {
        proof {
            assert(rows@.take(k + 1).drop_last() =~= rows@.take(k as int));
        }
        if crate::text::str_eq(rows[k].id.as_str(), id) {
            proof {
                lemma_row_with_id_prefix(rows@, id@, k + 1);
            }
            return Some(k);
        }
        k += 1;
    }
    proof {
        assert(rows@.take(rows@.len() as int) =~= rows@);
    }
    None
}

proof fn lemma_row_with_id_prefix(rows: Seq<RowRec>, id: Seq<char>, n: int)
    requires
        0 < n <= rows.len(),
        row_with_id(rows.take(n), id) is Some,
    ensures
        row_with_id(rows, id) == row_with_id(rows.take(n), id),
    decreases rows.len() - n,
{
    if n < rows.len() {
        assert(rows.take(n + 1).drop_last() =~= rows.take(n));
        lemma_row_with_id_prefix(rows, id, n + 1);
    } else {
        assert(rows.take(n) =~= rows);
    }
}

impl App {
    /// After row `row_id` was written: an open props form is rebuilt from
    /// the row as the table or board shown now holds it (the field cursor
    /// kept, any editor closed). Nothing changes when the row is not shown.
    pub fn reload_props(&mut self, row_id: &str)
        ensures
            ({
                let o = *old(self);
                match (o.props, shown_rows(o.view)) {
                    (Some(p), Some((ds, rows))) => match row_with_id(rows, row_id@) {
                        Some(k) => *final(self) == (App { props: final(self).props, ..o }) && (final(self).props matches Some(
                            np,
                        ) && np.row_id@ == row_id@ && fields_built(ds.schema_json, rows[k].properties, np.fields@)
                            && np.cursor == p.cursor && np.editor is None),
                        None => *final(self) == o,
                    },
                    _ => *final(self) == o,
                }
            }),
    {
        if self.props.is_none() {
            return;
        }
        let cursor = match &self.props {
            Some(p) => p.cursor,
            None => 0,
        };
        let fields = match &self.view {
            MainView::Table(t) => match find_row(&t.rows, row_id) {
                Some(k) => Some(crate::ui::props::build_fields(&t.ds.schema_json, &t.rows[k])),
                None => None,
            },
            MainView::Board(b) => match find_row(&b.rows, row_id) {
                Some(k) => Some(crate::ui::props::build_fields(&b.ds.schema_json, &b.rows[k])),
                None => None,
            },
            _ => None,
        };
        match fields {
            Some(f) => {
                self.props = Some(PropsState { row_id: row_id.to_owned(), fields: f, cursor, editor: None });
            },
            None => {},
        }
    }

    /// Shows `nodes` (the workspace tree as now stored) in the sidebar.
    pub fn refresh_sidebar(&mut self, nodes: Vec<TreeNode>)
        ensures
            *final(self) == (App { sidebar: SidebarState { nodes, ..old(self).sidebar }, ..*old(self) }),
    {
        self.sidebar.nodes = nodes;
    }
}

// ---------------------------------------------------------------------------
// The editor, merges and comments

use crate::markdown::ParseWarning;
use crate::ui::confirm::ConfirmKind as Kind;

/// The question asked before applying an edit whose code fence opened on
/// `line` never closes.
pub open spec fn fence_question(line: usize) -> Seq<char> {
    "unclosed code fence at line "@ + decimal(line as nat)
        + " — everything after it becomes one code block. Apply anyway?"@
}

/// The question asked before deleting `n` protected blocks missing from
/// the edited text.
pub open spec fn protected_question(n: nat) -> Seq<char> {
    "Delete "@ + decimal(n) + " block(s) that no longer appear in the edited text?"@
}

impl App {
    /// An edited page whose parse warned: the first warning is put to the
    /// user (the edit waits for the answer); returns whether the edit waits.
    /// Without warnings nothing changes and the edit goes ahead.
    pub fn hold_for_warnings(&mut self, warnings: &Vec<ParseWarning>) -> (r: bool)
        ensures
            warnings@.len() == 0 ==> !r && *final(self) == *old(self),
            warnings@.len() > 0 ==> r && (warnings@[0] matches ParseWarning::UnclosedFence { line } && *final(self)
                == (App { confirm: final(self).confirm, ..*old(self) }) && (final(self).confirm matches Some(c)
                && c.message@ == fence_question(line) && c.ids@.len() == 0 && c.kind == Kind::ApplyDespiteWarnings)),
    {
        if warnings.len() == 0 {
            return false;
        }
        let line = match &warnings[0] {
            ParseWarning::UnclosedFence { line } => *line,
        };
        let mut m = "unclosed code fence at line ".to_owned();
        push_decimal(&mut m, line as u64);
        push_str(&mut m, " — everything after it becomes one code block. Apply anyway?");
        proof {
            assert(m@ =~= fence_question(line));
        }
        self.confirm = Some(ConfirmState { message: m, ids: Vec::new(), kind: Kind::ApplyDespiteWarnings });
        true
    }

    /// Answers a request to sync now: with background sync running
    /// (`running`; the caller wakes it) the notice confirms the request,
    /// otherwise it says sync is not available.
    pub fn request_sync_now(&mut self, running: bool)
        ensures
            noticed(*old(self), *final(self), if running {
                "sync requested"@
            } else {
                "sync not available"@
            }),
    {
        if running {
            self.notice = Some("sync requested".to_owned());
        } else {
            self.notice = Some("sync not available".to_owned());
        }
    }

    /// An editor run that failed: the notice says so, with the error.
    pub fn editor_failed(&mut self, error: &str)
        ensures
            noticed(*old(self), *final(self), "editor failed: "@ + error@),
    {
        let mut m = "editor failed: ".to_owned();
        push_str(&mut m, error);
        self.notice = Some(m);
    }

    /// An edit held for a warning that the user declined: nothing is
    /// applied and the notice says so.
    pub fn discard_edit(&mut self)
        ensures
            noticed(*old(self), *final(self), "edit discarded"@),
    {
        self.notice = Some("edit discarded".to_owned());
    }

    /// Reports an applied page edit: protected blocks missing from the
    /// edited text are put to the user for deletion (returns `true`: the
    /// edit waits for the answer); otherwise the notice summarises the
    /// change.
    pub fn report_applied(&mut self, applied: Applied) -> (r: bool)
        ensures
            applied.protected_missing@.len() > 0 ==> r && *final(self) == (App {
                confirm: final(self).confirm,
                ..*old(self)
            }) && (final(self).confirm matches Some(c) && c.message@ == protected_question(
                applied.protected_missing@.len(),
            ) && c.ids == applied.protected_missing && c.kind == Kind::DeleteProtected),
            applied.protected_missing@.len() == 0 ==> !r && noticed(*old(self), *final(self), summary_spec(applied)),
    {
        if applied.protected_missing.len() > 0 {
            let mut m = "Delete ".to_owned();
            push_decimal(&mut m, applied.protected_missing.len() as u64);
            push_str(&mut m, " block(s) that no longer appear in the edited text?");
            proof {
                assert(m@ =~= protected_question(applied.protected_missing@.len()));
            }
            self.confirm = Some(ConfirmState { message: m, ids: applied.protected_missing, kind: Kind::DeleteProtected });
            true
        } else {
            self.notice = Some(summarize_applied(&applied));
            false
        }
    }

    /// The comments panel's subject: on a page, the block under the cursor
    /// when it has comments (`block_has_comments`), else the page; on a
    /// table or board, the selected row (a row is a page). `None` when
    /// there is none.
    pub fn comments_parent(&self, block_has_comments: bool) -> (r: Option<(String, String)>)
        ensures
            match self.view {
                MainView::Page(v) => r matches Some((id, kind)) && if block_has_comments && block_at(v) is Some {
                    id@ == block_at(v).unwrap() && kind@ == "block"@
                } else {
                    id@ == v.page.id@ && kind@ == "page"@
                },
                MainView::Table(t) => match table_row_at(t) {
                    Some(id) => r matches Some((x, kind)) && x@ == id && kind@ == "page"@,
                    None => r is None,
                },
                MainView::Board(b) => match board_card_at(b) {
                    Some(id) => r matches Some((x, kind)) && x@ == id && kind@ == "page"@,
                    None => r is None,
                },
                _ => r is None,
            },
    {
        match &self.view {
            MainView::Page(v) => {
                let block = v.block_id_at_cursor();
                match block {
                    Some(b) => if block_has_comments {
                        return Some((b, "block".to_owned()));
                    },
                    None => {},
                }
                Some((v.page.id.clone(), "page".to_owned()))
            },
            MainView::Table(t) => match t.selected_row_id() {
                Some(id) => Some((id, "page".to_owned())),
                None => None,
            },
            MainView::Board(b) => match b.selected_row_id() {
                Some(id) => Some((id, "page".to_owned())),
                None => None,
            },
            _ => None,
        }
    }

    /// Opens the comments panel on `parent_id` (of kind `parent_kind`) with
    /// `items`, the cursor on the first.
    pub fn show_comments(&mut self, parent_id: String, parent_kind: String, items: Vec<CommentRec>)
        ensures
            *final(self) == (App {
                comments: Some(CommentsState { parent_id, parent_kind, items, cursor: 0 }),
                ..*old(self)
            }),
    {
        self.comments = Some(CommentsState { parent_id, parent_kind, items, cursor: 0 });
    }
}

/// The document the merge editor starts from: the local text and the
/// remote text between conflict markers.
pub open spec fn merge_doc_spec(local: Seq<char>, remote: Seq<char>) -> Seq<char> {
    "<<<<<<< local\n"@ + local + "\n=======\n"@ + remote + "\n>>>>>>> remote\n"@
}

/// The document a block's merge is edited in.
pub fn merge_document(local: &str, remote: &str) -> (r: String)
    ensures
        r@ == merge_doc_spec(local@, remote@),
{
    let mut d = "<<<<<<< local\n".to_owned();
    push_str(&mut d, local);
    push_str(&mut d, "\n=======\n");
    push_str(&mut d, remote);
    push_str(&mut d, "\n>>>>>>> remote\n");
    proof {
        assert(d@ =~= merge_doc_spec(local@, remote@));
    }
    d
}

/// `s` without its trailing newlines.
pub open spec fn without_trailing_newlines(s: Seq<char>) -> Seq<char>
    decreases s.len(),
{
    if s.len() > 0 && s.last() == '\n' {
        without_trailing_newlines(s.drop_last())
    } else {
        s
    }
}

/// The merged text as saved: the edited document without trailing newlines.
pub fn merged_text(edited: &str) -> (r: String)
    ensures
        r@ == without_trailing_newlines(edited@),
{
    let cs = crate::text::chars_of(edited);
    let mut n: usize = cs.len();
    proof {
        assert(cs@.take(cs@.len() as int) =~= cs@);
    }
    while n > 0 && cs[n - 1] == '\n'
        invariant
            n <= cs@.len(),
            without_trailing_newlines(cs@) == without_trailing_newlines(cs@.take(n as int)),
        decreases n,
    {
        proof {
            assert(cs@.take(n as int).drop_last() =~= cs@.take(n - 1));
        }
        n -= 1;
    }
    proof {
        assert(cs@.subrange(0, n as int) =~= cs@.take(n as int));
    }
    crate::text::string_of_range(&cs, 0, n)
}

// ---------------------------------------------------------------------------
// The breadcrumb

use crate::ui::sidebar::texts;

/// The ancestor walk of a breadcrumb from `parent`, with the ids `seen`
/// visited and the titles `chain` gathered, ends with the titles `result`:
/// it stops at a page without a parent, at an id seen before (a parent
/// cycle), at a page the store lacks, or once 64 titles are gathered;
/// otherwise it goes on from the parent page `get` returns.
pub open spec fn crumb_walk<F: Fn(&String) -> Option<PageRec>>(
    get: F,
    seen: Seq<Seq<char>>,
    chain: Seq<Seq<char>>,
    parent: Option<String>,
    result: Seq<Seq<char>>,
) -> bool
    decreases 64 - chain.len(),
{
    match parent {
        None => result == chain,
        Some(pid) => if chain.len() >= 64 || seen.contains(pid@) {
            result == chain
        } else {
            exists|p: Option<PageRec>|
                #[trigger] call_ensures(get, (&pid,), p) && match p {
                    None => result == chain,
                    Some(pg) => crumb_walk(get, seen.push(pid@), chain.push(pg.title@), pg.parent_id, result),
                }
        }
    }
}

/// The breadcrumb text of the titles `chain` (the page first, its
/// ancestors after): root first, joined by arrows.
pub open spec fn crumb_text(chain: Seq<Seq<char>>) -> Seq<char> {
    "workspace → "@ + crate::text::join(chain.reverse(), " → "@)
}

fn clone_opt_string(o: &Option<String>) -> (r: Option<String>)
    ensures
        r == *o,
{
    match o {
        Some(x) => Some(x.clone()),
        None => None,
    }
}

impl App {
    /// "workspace → Ancestor → … → current" for the page shown, its
    /// ancestors read with `get_page`; for a table or board "workspace →"
    /// and its title; `None` with nothing shown. The upward walk stops at a
    /// repeated id and after 64 titles, so a cyclic parent chain cannot
    /// make it loop.
    pub fn breadcrumb<F: Fn(&String) -> Option<PageRec>>(&self, get_page: &F) -> (r: Option<String>)
        requires
            forall|s: &String| get_page.requires((s,)),
        ensures
            match self.view {
                MainView::Page(v) => r matches Some(t) && exists|titles: Seq<Seq<char>>|
                    #[trigger] crumb_walk(*get_page, seq![v.page.id@], seq![v.page.title@], v.page.parent_id, titles)
                        && t@ == crumb_text(titles),
                MainView::Table(t) => r matches Some(x) && x@ == "workspace → "@ + t.ds.title@,
                MainView::Board(b) => r matches Some(x) && x@ == "workspace → "@ + b.ds.title@,
                _ => r is None,
            },
    {
        match &self.view {
            MainView::Page(v) => {
                let ghost get = *get_page;
                let ghost start = (seq![v.page.id@], seq![v.page.title@], v.page.parent_id);
                let mut chain: Vec<String> = Vec::new();
                chain.push(v.page.title.clone());
                let mut visited: Vec<String> = Vec::new();
                visited.push(v.page.id.clone());
                let mut parent: Option<String> = clone_opt_string(&v.page.parent_id);
                proof {
                    assert(texts(chain@) =~= start.1);
                    assert(texts(visited@) =~= start.0);
                }
                loop
                    invariant
                        get == *get_page,
                        forall|s: &String| get_page.requires((s,)),
                        1 <= chain@.len() <= 64,
                        forall|res: Seq<Seq<char>>|
                            #[trigger] crumb_walk(get, texts(visited@), texts(chain@), parent, res) ==> crumb_walk(
                                get,
                                start.0,
                                start.1,
                                start.2,
                                res,
                            ),
                    ensures
                        1 <= chain@.len() <= 64,
                        crumb_walk(get, start.0, start.1, start.2, texts(chain@)),
                    decreases 64 - chain@.len(),
                {
                    let pid = match &parent {
                        Some(p) => p.clone(),
                        None => {
                            proof {
                                assert(crumb_walk(get, texts(visited@), texts(chain@), parent, texts(chain@)));
                            }
                            break;
                        },
                    };
                    if chain.len() >= 64 || crate::ui::sidebar::holds(&visited, &pid) {
                        proof {
                            assert(crumb_walk(get, texts(visited@), texts(chain@), parent, texts(chain@)));
                        }
                        break;
                    }
                    let got = get_page(&pid);
                    let ghost vis0 = texts(visited@);
                    let ghost ch0 = texts(chain@);
                    let ghost par0 = parent;
                    match got {
                        None => {
                            proof {
                                assert(call_ensures(get, (&pid,), got));
                                assert(crumb_walk(get, vis0, ch0, par0, ch0));
                            }
                            break;
                        },
                        Some(p) => {
                            let ghost pg = p;
                            visited.push(pid.clone());
                            chain.push(p.title);
                            parent = p.parent_id;
                            proof {
                                assert(texts(visited@) =~= vis0.push(pid@));
                                assert(texts(chain@) =~= ch0.push(pg.title@));
                                assert forall|res: Seq<Seq<char>>|
                                    #[trigger] crumb_walk(get, texts(visited@), texts(chain@), parent, res) implies crumb_walk(
                                    get,
                                    start.0,
                                    start.1,
                                    start.2,
                                    res,
                                ) by {
                                    assert(call_ensures(get, (&pid,), Some(pg)));
                                    assert(crumb_walk(get, vis0, ch0, par0, res));
                                }
                            }
                        },
                    }
                }
                let ghost titles = texts(chain@);
                let mut t = "workspace → ".to_owned();
                let mut k: usize = chain.len();
                proof {
                    reveal_strlit("workspace → ");
                    assert(titles.reverse().take(0) =~= Seq::<Seq<char>>::empty());
                }
                while k > 0
                    invariant
                        k <= chain@.len() == titles.len(),
                        titles == texts(chain@),
                        t@ == "workspace → "@ + crate::text::join(titles.reverse().take(chain@.len() - k), " → "@),
                    decreases k,
                {
                    let ghost done = titles.reverse().take(chain@.len() - k);
                    if k < chain.len() {
                        push_str(&mut t, " → ");
                    }
                    push_str(&mut t, chain[k - 1].as_str());
                    proof {
                        assert(titles.reverse().take(chain@.len() - k + 1) =~= done.push(titles[k - 1]));
                        crate::text::lemma_join_push(done, titles[k - 1], " → "@);
                    }
                    k -= 1;
                    proof {
                        assert(t@ =~= "workspace → "@ + crate::text::join(titles.reverse().take(chain@.len() - k), " → "@));
                    }
                }
                proof {
                    assert(titles.reverse().take(chain@.len() as int) =~= titles.reverse());
                }
                Some(t)
            },
            MainView::Table(tv) => {
                let mut t = "workspace → ".to_owned();
                push_str(&mut t, tv.ds.title.as_str());
                Some(t)
            },
            MainView::Board(b) => {
                let mut t = "workspace → ".to_owned();
                push_str(&mut t, b.ds.title.as_str());
                Some(t)
            },
            _ => None,
        }
    }
}

} // verus!
