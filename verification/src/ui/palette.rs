//! The `:` command palette.
use vstd::prelude::*;
use crate::fuzzy::{labels_of, law_rank_keeps_exactly_the_matches, rank_order, scored, stable_rank, subsequence_rank};
use crate::keys::{KeyCode, KeyEvent};
use crate::ui::props::{list_down, list_up};
use crate::ui::textline::{line_step, TextLine, TextLineEvent};

verus! {

broadcast use vstd::string::group_string_axioms;

/// The commands the palette offers, in the order shown for an empty query.
pub fn commands() -> (r: Vec<&'static str>)
    ensures
        str_views(r@) == command_names(),
{
    let r = vec!["help", "queue", "board", "table", "quit", "rename", "move page", "group by", "sync now"];
    assert(str_views(r@) =~= command_names());
    r
}

/// The texts of a list of string slices.
pub open spec fn str_views(v: Seq<&str>) -> Seq<Seq<char>> {
    v.map_values(|c: &str| c@)
}

/// The command names.
pub open spec fn command_names() -> Seq<Seq<char>> {
    seq![
        "help"@,
        "queue"@,
        "board"@,
        "table"@,
        "quit"@,
        "rename"@,
        "move page"@,
        "group by"@,
        "sync now"@,
    ]
}

/// The commands `q` matches, best first.
pub open spec fn palette_ranked(q: Seq<char>) -> Seq<Seq<char>> {
    stable_rank(scored(q, command_names())).map_values(|p: (int, int)| command_names()[p.1])
}

/// The palette's input line and highlighted match.
pub struct PaletteState {
    pub input: TextLine,
    pub cursor: usize,
}

/// What a key press on the palette asks the caller to do.
pub enum PaletteAction {
    Noop,
    Changed,
    Run(&'static str),
    Close,
}

/// An action as plain values.
pub enum PaletteOutcome {
    Noop,
    Changed,
    Run(Seq<char>),
    Close,
}

impl View for PaletteAction {
    type V = PaletteOutcome;

    open spec fn view(&self) -> PaletteOutcome {
        match self {
            PaletteAction::Noop => PaletteOutcome::Noop,
            PaletteAction::Changed => PaletteOutcome::Changed,
            PaletteAction::Run(c) => PaletteOutcome::Run(c@),
            PaletteAction::Close => PaletteOutcome::Close,
        }
    }
}

/// The palette's answer to `key` for line state `v` and cursor `c`.
pub open spec fn palette_step(v: (Seq<char>, nat), c: int, key: KeyEvent) -> (
    (Seq<char>, nat),
    int,
    PaletteOutcome,
) {
    let ms = palette_ranked(v.0);
    match key.code {
        KeyCode::Esc => (v, c, PaletteOutcome::Close),
        KeyCode::Enter => (v, c, if 0 <= c < ms.len() {
            PaletteOutcome::Run(ms[c])
        } else {
            PaletteOutcome::Close
        }),
        KeyCode::Down => (v, if ms.len() > 0 {
            list_down(c, ms.len() as int)
        } else {
            c
        }, PaletteOutcome::Noop),
        KeyCode::Up => (v, list_up(c), PaletteOutcome::Noop),
        _ => {
            let (w, e) = line_step(v, key);
            if e == TextLineEvent::Edited {
                (w, 0, PaletteOutcome::Changed)
            } else {
                (w, c, PaletteOutcome::Noop)
            }
        },
    }
}

impl PaletteState {
    /// An empty palette.
    pub fn new() -> (r: PaletteState)
        ensures
            r.input@ == (Seq::<char>::empty(), 0nat),
            r.cursor == 0,
    {
        proof {
            reveal_strlit("");
        }
        PaletteState { input: TextLine::new(""), cursor: 0 }
    }

    /// The commands the typed text matches as a subsequence, best first.
    pub fn matches(&self) -> (r: Vec<&'static str>)
        ensures
            str_views(r@) == palette_ranked(self.input@.0),
    {
        let names = commands();
        let mut items: Vec<(&'static str, String)> = Vec::new();
        let mut i: usize = 0;
        while i < names.len()
            invariant
                i <= names@.len(),
                str_views(names@) == command_names(),
                items@.len() == i,
                forall|k: int| 0 <= k < i ==> (#[trigger] items@[k]).0 == names@[k] && items@[k].1@
                    == names@[k]@,
            decreases names@.len() - i,
        {
            items.push((names[i], names[i].to_owned()));
            i += 1;
        }
        let ghost its = items@;
        proof {
            assert(str_views(names@).len() == 9);
            assert forall|k: int| 0 <= k < its.len() implies #[trigger] labels_of(its)[k]
                == command_names()[k] by {
                assert(str_views(names@)[k] == names@[k]@);
            }
            assert(labels_of(its) =~= command_names());
            law_rank_keeps_exactly_the_matches(self.input@.0, its);
        }
        let r = subsequence_rank(self.input.text(), items);
        proof {
            let ro = rank_order(self.input@.0, its);
            assert forall|k: int| 0 <= k < r@.len() implies #[trigger] str_views(r@)[k]
                == palette_ranked(self.input@.0)[k] by {
                assert(r@[k] == its[ro[k].1].0);
                assert(str_views(names@)[ro[k].1] == names@[ro[k].1]@);
            }
            assert(str_views(r@) =~= palette_ranked(self.input@.0));
        }
        r
    }

    /// Esc closes, Enter runs the highlighted match (closing when nothing
    /// matches), Up/Down move, other keys edit the query and reset the cursor.
    pub fn on_key(&mut self, key: KeyEvent) -> (r: PaletteAction)
        ensures
            (final(self).input@, final(self).cursor as int, r@) == palette_step(
                old(self).input@,
                old(self).cursor as int,
                key,
            ),
    {
        match key.code {
            KeyCode::Esc => PaletteAction::Close,
            KeyCode::Enter => {
                let ms = self.matches();
                if self.cursor < ms.len() {
                    proof {
                        assert(str_views(ms@)[self.cursor as int] == ms@[self.cursor as int]@);
                    }
                    PaletteAction::Run(ms[self.cursor])
                } else {
                    PaletteAction::Close
                }
            },
            KeyCode::Down => {
                let n = self.matches().len();
                if n > 0 {
                    self.cursor = if self.cursor < n - 1 {
                        self.cursor + 1
                    } else {
                        n - 1
                    };
                }
                PaletteAction::Noop
            },
            KeyCode::Up => {
                self.cursor = if self.cursor > 0 {
                    self.cursor - 1
                } else {
                    0
                };
                PaletteAction::Noop
            },
            _ => {
                match self.input.on_key(key) {
                    TextLineEvent::Edited => {
                        self.cursor = 0;
                        PaletteAction::Changed
                    },
                    _ => PaletteAction::Noop,
                }
            },
        }
    }
}

impl Default for PaletteState {
    fn default() -> (r: Self)
        ensures
            r.input@ == (Seq::<char>::empty(), 0nat),
            r.cursor == 0,
    {
        Self::new()
    }
}

} // verus!
