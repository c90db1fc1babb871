//! A fuzzy list picker (move page, group by): choose an id by its label.
use vstd::prelude::*;
use crate::fuzzy::{labels_of, law_rank_keeps_exactly_the_matches, rank_order, subsequence_rank};
use crate::keys::{KeyCode, KeyEvent};
use crate::ui::props::{list_down, list_up};
use crate::ui::textline::{line_step, TextLine, TextLineEvent};

verus! {

broadcast use vstd::string::group_string_axioms;

/// A titled list of `(id, label)` items filtered by the typed text.
pub struct PickerState {
    pub title: String,
    pub input: TextLine,
    pub items: Vec<(String, String)>,
    pub cursor: usize,
}

/// What a key press on the picker asks the caller to do.
pub enum PickerAction {
    Noop,
    Changed,
    Close,
    Choose(String),
}

/// An action as plain values.
pub enum PickerOutcome {
    Noop,
    Changed,
    Close,
    Choose(Seq<char>),
}

impl View for PickerAction {
    type V = PickerOutcome;

    open spec fn view(&self) -> PickerOutcome {
        match self {
            PickerAction::Noop => PickerOutcome::Noop,
            PickerAction::Changed => PickerOutcome::Changed,
            PickerAction::Close => PickerOutcome::Close,
            PickerAction::Choose(id) => PickerOutcome::Choose(id@),
        }
    }
}

/// Indices into `items` of the items `q` matches by label, best first.
pub open spec fn picker_ranked(q: Seq<char>, items: Seq<(String, String)>) -> Seq<int> {
    rank_order(q, items).map_values(|p: (int, int)| p.1)
}

/// The picker's answer to `key` for line state `v`, items `items` and cursor `c`.
pub open spec fn picker_step(
    v: (Seq<char>, nat),
    items: Seq<(String, String)>,
    c: int,
    key: KeyEvent,
) -> ((Seq<char>, nat), int, PickerOutcome) {
    let ms = picker_ranked(v.0, items);
    match key.code {
        KeyCode::Esc => (v, c, PickerOutcome::Close),
        KeyCode::Enter => (v, c, if 0 <= c < ms.len() {
            PickerOutcome::Choose(items[ms[c]].0@)
        } else {
            PickerOutcome::Close
        }),
        KeyCode::Down => (v, if ms.len() > 0 {
            list_down(c, ms.len() as int)
        } else {
            c
        }, PickerOutcome::Noop),
        KeyCode::Up => (v, list_up(c), PickerOutcome::Noop),
        _ => {
            let (w, e) = line_step(v, key);
            if e == TextLineEvent::Edited {
                (w, 0, PickerOutcome::Changed)
            } else {
                (w, c, PickerOutcome::Noop)
            }
        },
    }
}

impl PickerState {
    /// A picker over `items` with an empty filter.
    pub fn new(title: &str, items: Vec<(String, String)>) -> (r: PickerState)
        ensures
            r.title@ == title@,
            r.input@ == (Seq::<char>::empty(), 0nat),
            r.items == items,
            r.cursor == 0,
    {
        proof {
            reveal_strlit("");
        }
        PickerState { title: title.to_owned(), input: TextLine::new(""), items, cursor: 0 }
    }

    /// The items whose label the typed text matches as a subsequence, best first.
    pub fn matches(&self) -> (r: Vec<&(String, String)>)
        ensures
            r@.len() == picker_ranked(self.input@.0, self.items@).len(),
            forall|k: int|
                0 <= k < r@.len() ==> *r@[k] == self.items@[#[trigger] picker_ranked(
                    self.input@.0,
                    self.items@,
                )[k]],
    {
        let mut cands: Vec<(&(String, String), String)> = Vec::new();
        let mut i: usize = 0;
        while i < self.items.len()
            invariant
                i <= self.items@.len(),
                cands@.len() == i,
                forall|k: int|
                    0 <= k < i ==> *(#[trigger] cands@[k]).0 == self.items@[k] && cands@[k].1@
                        == self.items@[k].1@,
            decreases self.items@.len() - i,
        {
            let it = &self.items[i];
            cands.push((it, it.1.clone()));
            i += 1;
        }
        let ghost cs = cands@;
        let ghost q = self.input@.0;
        proof {
            assert(labels_of(cs) =~= labels_of(self.items@));
            law_rank_keeps_exactly_the_matches(q, cs);
        }
        let r = subsequence_rank(self.input.text(), cands);
        proof {
            assert(rank_order(q, cs) == rank_order(q, self.items@));
            assert forall|k: int| 0 <= k < r@.len() implies *r@[k] == self.items@[
                #[trigger] picker_ranked(q, self.items@)[k]] by {
                let ro = rank_order(q, cs);
                assert(r@[k] == cs[ro[k].1].0);
            }
        }
        r
    }

    /// Esc closes, Enter chooses the highlighted item's id (closing when
    /// nothing matches), Up/Down move, other keys edit the filter and reset
    /// the cursor.
    pub fn on_key(&mut self, key: KeyEvent) -> (r: PickerAction)
        ensures
            final(self).title == old(self).title,
            final(self).items == old(self).items,
            (final(self).input@, final(self).cursor as int, r@) == picker_step(
                old(self).input@,
                old(self).items@,
                old(self).cursor as int,
                key,
            ),
    {
        match key.code {
            KeyCode::Esc => PickerAction::Close,
            KeyCode::Enter => {
                let ms = self.matches();
                if self.cursor < ms.len() {
                    PickerAction::Choose(ms[self.cursor].0.clone())
                } else {
                    PickerAction::Close
                }
            },
            KeyCode::Down => {
                let n = self.matches().len();
                if n > 0 {
                    self.cursor = if self.cursor < n - 1 {
                        self.cursor + 1
                    } else {
                        n - 1
                    };
                }
                PickerAction::Noop
            },
            KeyCode::Up => {
                self.cursor = if self.cursor > 0 {
                    self.cursor - 1
                } else {
                    0
                };
                PickerAction::Noop
            },
            _ => {
                match self.input.on_key(key) {
                    TextLineEvent::Edited => {
                        self.cursor = 0;
                        PickerAction::Changed
                    },
                    _ => PickerAction::Noop,
                }
            },
        }
    }
}

} // verus!
