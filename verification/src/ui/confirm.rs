//! The y/n confirmation popup.
use vstd::prelude::*;
use crate::keys::{KeyCode, KeyEvent};

verus! {

/// A pending confirmation and the ids it concerns.
pub struct ConfirmState {
    pub message: String,
    pub ids: Vec<String>,
    pub kind: ConfirmKind,
}

/// What a `y` on the confirm popup commits the user to.
#[derive(Clone, Copy, Debug, PartialEq, Eq, Structural)]
pub enum ConfirmKind {
    /// Delete protected blocks whose marker lines were removed in the editor.
    DeleteProtected,
    /// Apply an edited document whose parse produced warnings (e.g. an
    /// unclosed code fence swallowing the rest of the page).
    ApplyDespiteWarnings,
    /// `dd` on a block in the page view.
    DeleteBlock,
    /// `dd` on a row in table/board views.
    DeleteRow,
}

/// The answer a key gives.
#[derive(Clone, Copy, Debug, PartialEq, Eq, Structural)]
pub enum ConfirmAction {
    Noop,
    Yes,
    No,
}

/// `y`/`Y` agree, `n`/`N`/Esc refuse, anything else is ignored.
pub open spec fn confirm_answer(code: KeyCode) -> ConfirmAction {
    if code == KeyCode::Char('y') || code == KeyCode::Char('Y') {
        ConfirmAction::Yes
    } else if code == KeyCode::Char('n') || code == KeyCode::Char('N') || code == KeyCode::Esc {
        ConfirmAction::No
    } else {
        ConfirmAction::Noop
    }
}

impl ConfirmState {
    /// The answer `key` gives; the popup itself does not change.
    pub fn on_key(&mut self, key: KeyEvent) -> (r: ConfirmAction)
        ensures
            r == confirm_answer(key.code),
            final(self).message == old(self).message,
            final(self).ids == old(self).ids,
            final(self).kind == old(self).kind,
    {
        match key.code {
            KeyCode::Char('y') | KeyCode::Char('Y') => ConfirmAction::Yes,
            KeyCode::Char('n') | KeyCode::Char('N') | KeyCode::Esc => ConfirmAction::No,
            _ => ConfirmAction::Noop,
        }
    }
}

} // verus!
