//! The help overlay: key labels, and where popups go.
use vstd::prelude::*;
use crate::keys::KeyCode;
use crate::text::push_char;
use crate::ui::Area;

verus! {

broadcast use vstd::string::group_string_axioms;

/// How a key is named in the help overlay.
pub open spec fn label_spec(code: KeyCode) -> Seq<char> {
    match code {
        KeyCode::Char(' ') => "space"@,
        KeyCode::Char(c) => seq![c],
        KeyCode::Enter => "enter"@,
        KeyCode::Esc => "esc"@,
        KeyCode::Tab => "tab"@,
        KeyCode::Backspace => "backspace"@,
        KeyCode::Left => "Left"@,
        KeyCode::Right => "Right"@,
        KeyCode::Up => "Up"@,
        KeyCode::Down => "Down"@,
        KeyCode::Home => "Home"@,
        KeyCode::End => "End"@,
        KeyCode::Delete => "Delete"@,
        KeyCode::Other => "Other"@,
    }
}

/// The help overlay's name for a key: `space`, the character itself, or
/// the key's name.
pub fn key_label(code: KeyCode) -> (r: String)
    ensures
        r@ == label_spec(code),
{
    match code {
        KeyCode::Char(' ') => "space".to_owned(),
        KeyCode::Char(c) => {
            let mut s = String::new();
            push_char(&mut s, c);
            proof {
                assert(s@ =~= seq![c]);
            }
            s
        },
        KeyCode::Enter => "enter".to_owned(),
        KeyCode::Esc => "esc".to_owned(),
        KeyCode::Tab => "tab".to_owned(),
        KeyCode::Backspace => "backspace".to_owned(),
        KeyCode::Left => "Left".to_owned(),
        KeyCode::Right => "Right".to_owned(),
        KeyCode::Up => "Up".to_owned(),
        KeyCode::Down => "Down".to_owned(),
        KeyCode::Home => "Home".to_owned(),
        KeyCode::End => "End".to_owned(),
        KeyCode::Delete => "Delete".to_owned(),
        KeyCode::Other => "Other".to_owned(),
    }
}

/// A `width` × `height` box centred in `area`, shrunk to fit it.
pub open spec fn centered_spec(width: u16, height: u16, area: Area) -> Area {
    let w = if width <= area.width {
        width
    } else {
        area.width
    };
    let h = if height <= area.height {
        height
    } else {
        area.height
    };
    Area { x: (area.x + (area.width - w) / 2) as u16, y: (area.y + (area.height - h) / 2) as u16, width: w, height: h }
}

/// Where a popup of `width` × `height` cells goes in `area`: centred,
/// shrunk to fit.
pub fn centered_rect(width: u16, height: u16, area: Area) -> (r: Area)
    requires
        area.x + area.width <= u16::MAX,
        area.y + area.height <= u16::MAX,
    ensures
        r == centered_spec(width, height, area),
{
    let w = if width <= area.width {
        width
    } else {
        area.width
    };
    let h = if height <= area.height {
        height
    } else {
        area.height
    };
    Area { x: area.x + (area.width - w) / 2, y: area.y + (area.height - h) / 2, width: w, height: h }
}

} // verus!
