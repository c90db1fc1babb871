//! The queue of local edits waiting to be pushed, with their summaries.
use vstd::prelude::*;
use crate::records::OpRec;
use crate::ui::table::clamp;

verus! {

/// The queued ops, one summary per op, and the cursor.
pub struct QueueView {
    pub ops: Vec<OpRec>,
    /// Parallel to `ops`: human summaries of each op.
    pub summaries: Vec<String>,
    pub cursor: usize,
}

impl QueueView {
    /// A queue view over `ops` with the cursor on the first.
    pub fn new(ops: Vec<OpRec>, summaries: Vec<String>) -> (r: QueueView)
        ensures
            r == (QueueView { ops, summaries, cursor: 0 }),
    {
        QueueView { ops, summaries, cursor: 0 }
    }

    /// Moves the cursor by `delta` ops, clamped; nothing happens when the
    /// queue is empty.
    pub fn move_cursor(&mut self, delta: isize)
        ensures
            *final(self) == (QueueView {
                cursor: if old(self).ops@.len() == 0 {
                    old(self).cursor
                } else {
                    clamp(old(self).cursor + delta, 0, old(self).ops@.len() - 1) as usize
                },
                ..*old(self)
            }),
    {
        let len = self.ops.len();
        if len == 0 {
            return;
        }
        let target: i128 = self.cursor as i128 + delta as i128;
        let hi: i128 = len as i128 - 1;
        self.cursor = if target < 0 {
            0
        } else if target > hi {
            len - 1
        } else {
            target as usize
        };
    }

    /// The op under the cursor, if any.
    pub fn selected(&self) -> (r: Option<&OpRec>)
        ensures
            match r {
                Some(op) => self.cursor < self.ops@.len() && *op == self.ops@[self.cursor as int],
                None => self.cursor >= self.ops@.len(),
            },
    {
        if self.cursor < self.ops.len() {
            Some(&self.ops[self.cursor])
        } else {
            None
        }
    }
}

} // verus!
