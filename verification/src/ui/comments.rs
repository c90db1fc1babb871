//! The comments panel of a page or row.
use vstd::prelude::*;
use crate::keys::{KeyCode, KeyEvent};
use crate::records::CommentRec;
use crate::ui::props::{is_down, is_up, list_down, list_up};

verus! {

/// The comments on one page or row and the highlighted one.
pub struct CommentsState {
    pub parent_id: String,
    pub parent_kind: String,
    pub items: Vec<CommentRec>,
    pub cursor: usize,
}

/// What a key press on the panel asks the caller to do.
#[derive(Clone, Copy, Debug, PartialEq, Eq, Structural)]
pub enum CommentsAction {
    Noop,
    Close,
    NewThread,
    Reply,
}

/// The panel's answer to `key` with `n` comments and the cursor at `c`:
/// the new cursor and the action.
pub open spec fn comments_step(n: int, c: int, key: KeyEvent) -> (int, CommentsAction) {
    if key.code == KeyCode::Esc || key.code == KeyCode::Char('c') {
        (c, CommentsAction::Close)
    } else if key.code == KeyCode::Char('n') {
        (c, CommentsAction::NewThread)
    } else if key.code == KeyCode::Char('r') {
        (c, CommentsAction::Reply)
    } else if is_down(key) {
        (if n > 0 { list_down(c, n) } else { c }, CommentsAction::Noop)
    } else if is_up(key) {
        (list_up(c), CommentsAction::Noop)
    } else {
        (c, CommentsAction::Noop)
    }
}

impl CommentsState {
    /// Esc or `c` closes, `n` starts a thread, `r` replies, j/k move.
    pub fn on_key(&mut self, key: KeyEvent) -> (r: CommentsAction)
        ensures
            final(self).parent_id == old(self).parent_id,
            final(self).parent_kind == old(self).parent_kind,
            final(self).items == old(self).items,
            (final(self).cursor as int, r) == comments_step(
                old(self).items@.len() as int,
                old(self).cursor as int,
                key,
            ),
    {
        let n = self.items.len();
        if key.code == KeyCode::Esc || key.code == KeyCode::Char('c') {
            CommentsAction::Close
        } else if key.code == KeyCode::Char('n') {
            CommentsAction::NewThread
        } else if key.code == KeyCode::Char('r') {
            CommentsAction::Reply
        } else if key.code == KeyCode::Char('j') || key.code == KeyCode::Down {
            if n > 0 {
                self.cursor = if self.cursor < n - 1 {
                    self.cursor + 1
                } else {
                    n - 1
                };
            }
            CommentsAction::Noop
        } else if key.code == KeyCode::Char('k') || key.code == KeyCode::Up {
            self.cursor = if self.cursor > 0 {
                self.cursor - 1
            } else {
                0
            };
            CommentsAction::Noop
        } else {
            CommentsAction::Noop
        }
    }

    /// The thread of the highlighted comment, if it has one.
    pub fn selected_thread(&self) -> (r: Option<String>)
        ensures
            match r {
                Some(t) => self.cursor < self.items@.len() && (self.items@[self.cursor as int].thread_id
                    matches Some(u) && t@ == u@),
                None => self.cursor >= self.items@.len() || self.items@[self.cursor as int].thread_id
                    is None,
            },
    {
        if self.cursor < self.items.len() {
            match &self.items[self.cursor].thread_id {
                Some(t) => Some(t.clone()),
                None => None,
            }
        } else {
            None
        }
    }
}

} // verus!
