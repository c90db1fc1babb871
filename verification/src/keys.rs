//! Keyboard and mouse events as the views and modals read them.
use vstd::prelude::*;

verus! {

/// Which key was pressed. Keys the application never binds are `Other`.
#[derive(Clone, Copy, Debug, PartialEq, Eq, Structural)]
pub enum KeyCode {
    Backspace,
    Enter,
    Left,
    Right,
    Up,
    Down,
    Home,
    End,
    Tab,
    Delete,
    Esc,
    Char(char),
    Other,
}

/// Modifier keys held during a key press; `other` stands for any modifier
/// besides shift, control and alt (super, hyper, meta).
#[derive(Clone, Copy, Debug, PartialEq, Eq, Structural)]
pub struct KeyModifiers {
    pub shift: bool,
    pub control: bool,
    pub alt: bool,
    pub other: bool,
}

impl KeyModifiers {
    /// No modifier held.
    pub fn none() -> (r: KeyModifiers)
        ensures
            r == (KeyModifiers { shift: false, control: false, alt: false, other: false }),
    {
        KeyModifiers { shift: false, control: false, alt: false, other: false }
    }

    /// Control alone.
    pub fn control() -> (r: KeyModifiers)
        ensures
            r == (KeyModifiers { shift: false, control: true, alt: false, other: false }),
    {
        KeyModifiers { shift: false, control: true, alt: false, other: false }
    }

    /// Alt alone.
    pub fn alt() -> (r: KeyModifiers)
        ensures
            r == (KeyModifiers { shift: false, control: false, alt: true, other: false }),
    {
        KeyModifiers { shift: false, control: false, alt: true, other: false }
    }

    /// Shift alone.
    pub fn shift() -> (r: KeyModifiers)
        ensures
            r == (KeyModifiers { shift: true, control: false, alt: false, other: false }),
    {
        KeyModifiers { shift: true, control: false, alt: false, other: false }
    }

    pub open spec fn is_none(self) -> bool {
        !self.shift && !self.control && !self.alt && !self.other
    }

    pub open spec fn is_control_only(self) -> bool {
        !self.shift && self.control && !self.alt && !self.other
    }
}

/// A key press: the key and the modifiers held.
#[derive(Clone, Copy, Debug, PartialEq, Eq, Structural)]
pub struct KeyEvent {
    pub code: KeyCode,
    pub modifiers: KeyModifiers,
}

impl KeyEvent {
    pub fn new(code: KeyCode, modifiers: KeyModifiers) -> (r: KeyEvent)
        ensures
            r == (KeyEvent { code, modifiers }),
    {
        KeyEvent { code, modifiers }
    }
}

impl From<KeyCode> for KeyEvent {
    /// A press of `code` with no modifiers.
    fn from(code: KeyCode) -> (r: KeyEvent) {
        KeyEvent { code, modifiers: KeyModifiers { shift: false, control: false, alt: false, other: false } }
    }
}

impl vstd::std_specs::convert::FromSpecImpl<KeyCode> for KeyEvent {
    open spec fn obeys_from_spec() -> bool {
        true
    }

    open spec fn from_spec(code: KeyCode) -> KeyEvent {
        KeyEvent { code, modifiers: KeyModifiers { shift: false, control: false, alt: false, other: false } }
    }
}

/// What a mouse event did. Buttons other than the left one, and moves
/// without a button, are `Other`.
#[derive(Clone, Copy, Debug, PartialEq, Eq, Structural)]
pub enum MouseKind {
    ScrollDown,
    ScrollUp,
    LeftDown,
    LeftDrag,
    LeftUp,
    Other,
}

/// A mouse event at a cell.
#[derive(Clone, Copy, Debug, PartialEq, Eq, Structural)]
pub struct MouseEvent {
    pub kind: MouseKind,
    pub column: u16,
    pub row: u16,
}

} // verus!
