//! The full-text search modal.
use vstd::prelude::*;
use crate::keys::{KeyCode, KeyEvent};
use crate::records::SearchHit;
use crate::text::{chars_of, push_char, string_of_range};
use crate::ui::props::{list_down, list_up};

verus! {

broadcast use vstd::string::group_string_axioms;

/// The query typed so far, its results and the highlighted result.
pub struct SearchState {
    pub input: String,
    pub results: Vec<SearchHit>,
    pub cursor: usize,
}

/// What a key press on the modal asks the caller to do.
#[derive(Debug)]
pub enum SearchAction {
    Noop,
    QueryChanged,
    Open(String),
    Close,
}

/// An action as plain values.
pub enum SearchOutcome {
    Noop,
    QueryChanged,
    Open(Seq<char>),
    Close,
}

impl View for SearchAction {
    type V = SearchOutcome;

    open spec fn view(&self) -> SearchOutcome {
        match self {
            SearchAction::Noop => SearchOutcome::Noop,
            SearchAction::QueryChanged => SearchOutcome::QueryChanged,
            SearchAction::Open(id) => SearchOutcome::Open(id@),
            SearchAction::Close => SearchOutcome::Close,
        }
    }
}

/// The modal's answer to `key`: new query, cursor and action, for the query
/// `q`, result page ids `ids` and cursor `c`. Up and Down move the cursor
/// (j and k stay typeable).
pub open spec fn search_step(q: Seq<char>, ids: Seq<Seq<char>>, c: int, key: KeyEvent) -> (
    Seq<char>,
    int,
    SearchOutcome,
) {
    match key.code {
        KeyCode::Esc => (q, c, SearchOutcome::Close),
        KeyCode::Enter => (q, c, if 0 <= c < ids.len() {
            SearchOutcome::Open(ids[c])
        } else {
            SearchOutcome::Noop
        }),
        KeyCode::Backspace => (if q.len() > 0 {
            q.drop_last()
        } else {
            q
        }, c, SearchOutcome::QueryChanged),
        KeyCode::Down => (q, if ids.len() > 0 {
            list_down(c, ids.len() as int)
        } else {
            c
        }, SearchOutcome::Noop),
        KeyCode::Up => (q, list_up(c), SearchOutcome::Noop),
        KeyCode::Char(ch) => (q.push(ch), c, SearchOutcome::QueryChanged),
        _ => (q, c, SearchOutcome::Noop),
    }
}

/// The page ids of the results.
pub open spec fn hit_ids(hits: Seq<SearchHit>) -> Seq<Seq<char>> {
    hits.map_values(|h: SearchHit| h.page_id@)
}

impl SearchState {
    /// An empty query with no results.
    pub fn new() -> (r: SearchState)
        ensures
            r.input@ == Seq::<char>::empty(),
            r.results@.len() == 0,
            r.cursor == 0,
    {
        SearchState { input: String::new(), results: Vec::new(), cursor: 0 }
    }

    /// Typing edits the query; Up/Down move the result cursor (not j/k, which must
    /// remain typeable); Enter opens the selected hit; Esc closes the modal.
    pub fn on_key(&mut self, key: KeyEvent) -> (r: SearchAction)
        ensures
            final(self).results == old(self).results,
            (final(self).input@, final(self).cursor as int, r@) == search_step(
                old(self).input@,
                hit_ids(old(self).results@),
                old(self).cursor as int,
                key,
            ),
    {
        match key.code {
            KeyCode::Esc => SearchAction::Close,
            KeyCode::Enter => {
                if self.cursor < self.results.len() {
                    SearchAction::Open(self.results[self.cursor].page_id.clone())
                } else {
                    SearchAction::Noop
                }
            },
            KeyCode::Backspace => {
                let v = chars_of(self.input.as_str());
                if v.len() > 0 {
                    self.input = string_of_range(&v, 0, v.len() - 1);
                }
                SearchAction::QueryChanged
            },
            KeyCode::Down => {
                let n = self.results.len();
                if n > 0 {
                    self.cursor = if self.cursor < n - 1 {
                        self.cursor + 1
                    } else {
                        n - 1
                    };
                }
                SearchAction::Noop
            },
            KeyCode::Up => {
                self.cursor = if self.cursor > 0 {
                    self.cursor - 1
                } else {
                    0
                };
                SearchAction::Noop
            },
            KeyCode::Char(c) => {
                push_char(&mut self.input, c);
                SearchAction::QueryChanged
            },
            _ => SearchAction::Noop,
        }
    }
}

impl Default for SearchState {
    fn default() -> (r: Self)
        ensures
            r.input@ == Seq::<char>::empty(),
            r.results@.len() == 0,
            r.cursor == 0,
    {
        Self::new()
    }
}

} // verus!
