//! A one-line text prompt (rename, new comment, reply).
use vstd::prelude::*;
use crate::keys::{KeyCode, KeyEvent};
use crate::ui::textline::{line_step, TextLine, TextLineEvent};

verus! {

/// A titled prompt around an editable line.
pub struct InputState {
    pub title: String,
    pub line: TextLine,
}

/// What a key press on the prompt asks the caller to do.
pub enum InputAction {
    Noop,
    Changed,
    Submit(String),
    Cancel,
}

/// The prompt's answer to `key` for a line in state `v`: the line after the
/// key, and whether the key submitted, cancelled or changed the text.
pub open spec fn input_step(v: (Seq<char>, nat), key: KeyEvent) -> ((Seq<char>, nat), InputOutcome) {
    if key.code == KeyCode::Esc {
        (v, InputOutcome::Cancel)
    } else if key.code == KeyCode::Enter {
        (v, InputOutcome::Submit(v.0))
    } else {
        let (w, e) = line_step(v, key);
        (w, if e == TextLineEvent::Edited {
            InputOutcome::Changed
        } else {
            InputOutcome::Noop
        })
    }
}

/// An action as plain values.
pub enum InputOutcome {
    Noop,
    Changed,
    Submit(Seq<char>),
    Cancel,
}

impl View for InputAction {
    type V = InputOutcome;

    open spec fn view(&self) -> InputOutcome {
        match self {
            InputAction::Noop => InputOutcome::Noop,
            InputAction::Changed => InputOutcome::Changed,
            InputAction::Submit(s) => InputOutcome::Submit(s@),
            InputAction::Cancel => InputOutcome::Cancel,
        }
    }
}

impl InputState {
    /// A prompt titled `title` whose line starts as `initial`, cursor at the end.
    pub fn new(title: &str, initial: &str) -> (r: InputState)
        ensures
            r.title@ == title@,
            r.line@ == (initial@, initial@.len()),
    {
        InputState { title: title.to_owned(), line: TextLine::new(initial) }
    }

    /// The text typed so far.
    pub fn value(&self) -> (r: &str)
        ensures
            r@ == self.line@.0,
    {
        self.line.text()
    }

    /// Esc cancels, Enter submits the text, other keys edit the line.
    pub fn on_key(&mut self, key: KeyEvent) -> (r: InputAction)
        ensures
            final(self).title == old(self).title,
            (final(self).line@, r@) == input_step(old(self).line@, key),
    {
        if key.code == KeyCode::Esc {
            InputAction::Cancel
        } else if key.code == KeyCode::Enter {
            InputAction::Submit(self.line.text().to_owned())
        } else {
            match self.line.on_key(key) {
                TextLineEvent::Edited => InputAction::Changed,
                _ => InputAction::Noop,
            }
        }
    }
}

} // verus!
