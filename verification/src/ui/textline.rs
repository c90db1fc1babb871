//! A single-line editable text buffer with a grapheme-aware cursor.
use vstd::prelude::*;
use crate::keys::{KeyCode, KeyEvent};
use crate::text::{chars_of, string_of, string_of_range};
use crate::unicode::{concat, graphemes, spec_graphemes, spec_width, width};

verus! {

broadcast use vstd::string::group_string_axioms;

/// Number of characters in the first `i` clusters of `gs`.
pub open spec fn bound_at(gs: Seq<Seq<char>>, i: int) -> int {
    concat(gs.take(i)).len() as int
}

/// `k` is a grapheme boundary of `s`: the clusters before it make up `s[..k]`.
pub open spec fn is_boundary(s: Seq<char>, k: int) -> bool {
    exists|i: int| 0 <= i <= spec_graphemes(s).len() && bound_at(spec_graphemes(s), i) == k
}

/// Where a backward step from `c` lands: the start of the last cluster of
/// `s[..c]`; `None` when `c` is at the start.
pub open spec fn prev_boundary(s: Seq<char>, c: int) -> Option<int> {
    let gs = spec_graphemes(s.take(c));
    if gs.len() == 0 {
        None
    } else {
        Some(c - gs.last().len())
    }
}

/// Where a forward step from `c` lands: the end of the first cluster of
/// `s[c..]`; `None` when `c` is at the end.
pub open spec fn next_boundary(s: Seq<char>, c: int) -> Option<int> {
    let gs = spec_graphemes(s.skip(c));
    if gs.len() == 0 {
        None
    } else {
        Some(c + gs[0].len())
    }
}

/// The first cluster bound of `gs`, from cluster `i` on, that is at least `k`.
pub open spec fn first_bound_from(gs: Seq<Seq<char>>, k: int, i: int) -> int
    decreases gs.len() + 1 - i,
{
    if i < 0 || i > gs.len() {
        concat(gs).len() as int
    } else if bound_at(gs, i) >= k {
        bound_at(gs, i)
    } else {
        first_bound_from(gs, k, i + 1)
    }
}

/// The smallest grapheme boundary of `s` at or after `k`.
pub open spec fn snap_forward(s: Seq<char>, k: int) -> int {
    first_bound_from(spec_graphemes(s), k, 0)
}

/// The line after typing `c`.
pub open spec fn insert_view(v: (Seq<char>, nat), c: char) -> (Seq<char>, nat) {
    let t = v.0.insert(v.1 as int, c);
    (t, snap_forward(t, v.1 + 1int) as nat)
}

/// The line after Backspace: the cluster before the cursor removed, the
/// cursor at the cut, moved on to the first boundary of the new text.
pub open spec fn backspace_view(v: (Seq<char>, nat)) -> (Seq<char>, nat) {
    if v.1 == 0 {
        v
    } else {
        match prev_boundary(v.0, v.1 as int) {
            Some(start) => {
                let t = v.0.take(start) + v.0.skip(v.1 as int);
                (t, snap_forward(t, start) as nat)
            },
            None => v,
        }
    }
}

/// The line after Delete: the cluster after the cursor removed, the cursor
/// moved on to the first boundary of the new text at or after it.
pub open spec fn delete_view(v: (Seq<char>, nat)) -> (Seq<char>, nat) {
    if v.1 >= v.0.len() {
        v
    } else {
        match next_boundary(v.0, v.1 as int) {
            Some(end) => {
                let t = v.0.take(v.1 as int) + v.0.skip(end);
                (t, snap_forward(t, v.1 as int) as nat)
            },
            None => v,
        }
    }
}

/// The line after Left; the cursor stays at the start.
pub open spec fn left_view(v: (Seq<char>, nat)) -> (Seq<char>, nat) {
    if v.1 == 0 {
        v
    } else {
        match prev_boundary(v.0, v.1 as int) {
            Some(i) => (v.0, i as nat),
            None => v,
        }
    }
}

/// The line after Right; the cursor stays at the end.
pub open spec fn right_view(v: (Seq<char>, nat)) -> (Seq<char>, nat) {
    if v.1 >= v.0.len() {
        v
    } else {
        match next_boundary(v.0, v.1 as int) {
            Some(i) => (v.0, i as nat),
            None => v,
        }
    }
}

proof fn lemma_bound_step(gs: Seq<Seq<char>>, i: int)
    requires
        0 <= i < gs.len(),
    ensures
        bound_at(gs, i + 1) == bound_at(gs, i) + gs[i].len(),
{
    assert(gs.take(i + 1).drop_last() == gs.take(i));
}

proof fn lemma_bound_total(gs: Seq<Seq<char>>)
    ensures
        bound_at(gs, gs.len() as int) == concat(gs).len(),
{
    assert(gs.take(gs.len() as int) == gs);
}

proof fn lemma_bound_mono(gs: Seq<Seq<char>>, i: int, j: int)
    requires
        0 <= i <= j <= gs.len(),
    ensures
        bound_at(gs, i) <= bound_at(gs, j),
    decreases j - i,
{
    if i < j {
        lemma_bound_step(gs, j - 1);
        lemma_bound_mono(gs, i, j - 1);
    }
}

proof fn lemma_first_bound_is_boundary(s: Seq<char>, k: int, i: int)
    requires
        0 <= i <= spec_graphemes(s).len(),
        concat(spec_graphemes(s)) == s,
        k <= s.len(),
    ensures
        is_boundary(s, first_bound_from(spec_graphemes(s), k, i)),
        first_bound_from(spec_graphemes(s), k, i) >= k,
    decreases spec_graphemes(s).len() + 1 - i,
{
    let gs = spec_graphemes(s);
    if bound_at(gs, i) >= k {
        assert(is_boundary(s, bound_at(gs, i)));
    } else if i == gs.len() {
        lemma_bound_total(gs);
    } else {
        lemma_first_bound_is_boundary(s, k, i + 1);
    }
}

/// What a key did to the line: lets callers tell "the text changed" (a
/// search must re-query) from "only the cursor moved".
#[derive(Clone, Copy, Debug, PartialEq, Eq, Structural)]
pub enum TextLineEvent {
    Ignored,
    Moved,
    Edited,
}

/// What a key does to a line's text and cursor, and how it is reported.
/// Chords with Control or Alt are left to the caller.
pub open spec fn line_step(v: (Seq<char>, nat), key: KeyEvent) -> ((Seq<char>, nat), TextLineEvent) {
    if key.modifiers.control || key.modifiers.alt {
        (v, TextLineEvent::Ignored)
    } else {
        match key.code {
            KeyCode::Char(c) => (insert_view(v, c), TextLineEvent::Edited),
            KeyCode::Backspace => (backspace_view(v), if v.1 > 0 {
                TextLineEvent::Edited
            } else {
                TextLineEvent::Moved
            }),
            KeyCode::Delete => (delete_view(v), if v.1 < v.0.len() {
                TextLineEvent::Edited
            } else {
                TextLineEvent::Moved
            }),
            KeyCode::Left => (left_view(v), TextLineEvent::Moved),
            KeyCode::Right => (right_view(v), TextLineEvent::Moved),
            KeyCode::Home => ((v.0, 0nat), TextLineEvent::Moved),
            KeyCode::End => ((v.0, v.0.len()), TextLineEvent::Moved),
            _ => (v, TextLineEvent::Ignored),
        }
    }
}

/// A single-line editable text buffer with a movable cursor. Backspace,
/// Delete, Left and Right work on whole grapheme clusters, so multi-scalar
/// emoji never end up half-deleted.
#[derive(Debug)]
pub struct TextLine {
    text: String,
    /// Character index of the cursor within `text`.
    cursor: usize,
}

impl View for TextLine {
    type V = (Seq<char>, nat);

    /// The text and the cursor's character index.
    closed spec fn view(&self) -> (Seq<char>, nat) {
        (self.text@, self.cursor as nat)
    }
}

impl Clone for TextLine {
    fn clone(&self) -> (r: TextLine)
        ensures
            r@ == self@,
    {
        proof {
            use_type_invariant(self);
        }
        TextLine { text: self.text.clone(), cursor: self.cursor }
    }
}

impl TextLine {
    #[verifier::type_invariant]
    spec fn inv(self) -> bool {
        self.cursor <= self.text@.len()
    }

    /// A line holding `initial`, with the cursor at its end.
    pub fn new(initial: &str) -> (r: TextLine)
        ensures
            r@ == (initial@, initial@.len()),
    {
        let text = initial.to_owned();
        let n = chars_of(initial).len();
        TextLine { text, cursor: n }
    }

    pub fn text(&self) -> (r: &str)
        ensures
            r@ == self@.0,
    {
        self.text.as_str()
    }

    /// The cursor's byte offset in `text()`.
    pub fn cursor(&self) -> (r: usize)
        ensures
            r == (vstd::utf8::encode_utf8(self@.0.take(self@.1 as int)).len() as usize),
    {
        proof {
            use_type_invariant(self);
        }
        let chars = chars_of(self.text.as_str());
        let prefix = string_of_range(&chars, 0, self.cursor);
        prefix.as_str().len()
    }

    /// Display width (terminal columns) of the text before the cursor.
    pub fn cursor_cols(&self) -> (r: u16)
        ensures
            r == spec_width(self@.0.take(self@.1 as int)) as u16,
    {
        proof {
            use_type_invariant(self);
        }
        let chars = chars_of(self.text.as_str());
        let prefix = string_of_range(&chars, 0, self.cursor);
        width(prefix.as_str()) as u16
    }

    fn prev_boundary(&self) -> (r: Option<usize>)
        ensures
            r matches Some(i) ==> prev_boundary(self@.0, self@.1 as int) == Some(i as int),
            r is None ==> prev_boundary(self@.0, self@.1 as int) is None,
            r matches Some(i) ==> i < self@.1,
            r is None ==> self@.1 == 0,
    {
        proof {
            use_type_invariant(self);
        }
        let chars = chars_of(self.text.as_str());
        let prefix = string_of_range(&chars, 0, self.cursor);
        let gs = graphemes(prefix.as_str());
        let n = gs.len();
        if n == 0 {
            proof {
                let views = gs@.map_values(|g: String| g@);
                assert(views =~= Seq::<Seq<char>>::empty());
                assert(prefix@.len() == self.cursor);
            }
            return None;
        }
        let last = chars_of(gs[n - 1].as_str()).len();
        proof {
            let views = gs@.map_values(|g: String| g@);
            assert(views.last() == gs@[n - 1]@);
            assert(concat(views) == concat(views.drop_last()) + views.last());
            assert(prefix@.len() == self.cursor);
        }
        Some(self.cursor - last)
    }

    fn next_boundary(&self) -> (r: Option<usize>)
        ensures
            r matches Some(i) ==> next_boundary(self@.0, self@.1 as int) == Some(i as int),
            r is None ==> next_boundary(self@.0, self@.1 as int) is None,
            r matches Some(i) ==> self@.1 < i <= self@.0.len(),
            r is None ==> self@.1 == self@.0.len(),
    {
        proof {
            use_type_invariant(self);
        }
        let chars = chars_of(self.text.as_str());
        let suffix = string_of_range(&chars, self.cursor, chars.len());
        let gs = graphemes(suffix.as_str());
        if gs.len() == 0 {
            proof {
                let views = gs@.map_values(|g: String| g@);
                assert(views =~= Seq::<Seq<char>>::empty());
                assert(suffix@.len() == chars@.len() - self.cursor);
            }
            return None;
        }
        let first = chars_of(gs[0].as_str()).len();
        proof {
            let views = gs@.map_values(|g: String| g@);
            lemma_bound_mono(views, 1, views.len() as int);
            lemma_bound_total(views);
            assert(views.take(1) == seq![views[0]]);
            assert(seq![views[0]].drop_last() =~= Seq::<Seq<char>>::empty());
            assert(concat(seq![views[0]]) == concat(Seq::<Seq<char>>::empty()) + views[0]);
            assert(bound_at(views, 1) == views[0].len());
        }
        Some(self.cursor + first)
    }

    /// Inserts `c` at the cursor and moves the cursor past it; when the new
    /// character fuses with what follows into one cluster, the cursor moves
    /// on to the end of that cluster.
    pub fn insert(&mut self, c: char)
        ensures
            final(self)@.0 == old(self)@.0.insert(old(self)@.1 as int, c),
            final(self)@.1 == snap_forward(final(self)@.0, old(self)@.1 + 1int),
            is_boundary(final(self)@.0, final(self)@.1 as int),
    {
        proof {
            use_type_invariant(&*self);
        }
        let mut chars = chars_of(self.text.as_str());
        chars.insert(self.cursor, c);
        let n = chars.len();
        let text = string_of(&chars);
        proof {
            assert(self.cursor < n);
        }
        *self = Self::snapped(text, self.cursor + 1);
    }

    /// `text` with the cursor at its first cluster boundary at or after `k`.
    fn snapped(text: String, k: usize) -> (r: TextLine)
        requires
            k <= text@.len(),
        ensures
            r@.0 == text@,
            r@.1 == snap_forward(text@, k as int),
            is_boundary(text@, r@.1 as int),
    {
        let total = chars_of(text.as_str()).len();
        let gs = graphemes(text.as_str());
        let ghost views = gs@.map_values(|g: String| g@);
        let ghost t = text@;
        proof {
            assert(views == spec_graphemes(t));
            lemma_bound_total(views);
        }
        let mut acc: usize = 0;
        let mut i: usize = 0;
        while i < gs.len() && acc < k
            invariant
                views == spec_graphemes(t),
                views.len() == gs@.len(),
                forall|j: int| 0 <= j < gs@.len() ==> (#[trigger] gs@[j])@ == views[j],
                concat(views) == t,
                k <= t.len(),
                t.len() == total,
                bound_at(views, views.len() as int) == t.len(),
                i <= gs@.len(),
                acc == bound_at(views, i as int),
                acc <= t.len(),
                first_bound_from(views, k as int, 0) == first_bound_from(views, k as int, i as int),
            decreases gs@.len() - i,
        {
            let len_i = chars_of(gs[i].as_str()).len();
            proof {
                lemma_bound_step(views, i as int);
                lemma_bound_mono(views, i + 1, views.len() as int);
            }
            acc = acc + len_i;
            i += 1;
            proof {
                lemma_bound_mono(views, i as int, views.len() as int);
            }
        }
        proof {
            lemma_first_bound_is_boundary(t, k as int, 0);
        }
        TextLine { text, cursor: acc }
    }

    /// Removes the cluster before the cursor; `false` when the cursor is at
    /// the start. When what is left around the cut fuses into one cluster,
    /// the cursor moves on to that cluster's end.
    pub fn backspace(&mut self) -> (r: bool)
        ensures
            r == (old(self)@.1 > 0),
            final(self)@ == backspace_view(old(self)@),
            r ==> is_boundary(final(self)@.0, final(self)@.1 as int),
    {
        match self.prev_boundary() {
            Some(start) => {
                proof {
                    use_type_invariant(&*self);
                }
                let chars = chars_of(self.text.as_str());
                let mut text = string_of_range(&chars, 0, start);
                let tail = string_of_range(&chars, self.cursor, chars.len());
                crate::text::push_str(&mut text, tail.as_str());
                *self = Self::snapped(text, start);
                true
            },
            None => false,
        }
    }

    /// Removes the cluster after the cursor; `false` when the cursor is at
    /// the end. When what is left around the cut fuses into one cluster,
    /// the cursor moves on to that cluster's end.
    pub fn delete(&mut self) -> (r: bool)
        ensures
            r == (old(self)@.1 < old(self)@.0.len()),
            final(self)@ == delete_view(old(self)@),
            r ==> is_boundary(final(self)@.0, final(self)@.1 as int),
    {
        match self.next_boundary() {
            Some(end) => {
                proof {
                    use_type_invariant(&*self);
                }
                let chars = chars_of(self.text.as_str());
                let mut text = string_of_range(&chars, 0, self.cursor);
                let tail = string_of_range(&chars, end, chars.len());
                crate::text::push_str(&mut text, tail.as_str());
                *self = Self::snapped(text, self.cursor);
                true
            },
            None => false,
        }
    }

    /// Moves the cursor back over one cluster; at the start it stays.
    pub fn left(&mut self)
        ensures
            final(self)@ == left_view(old(self)@),
    {
        proof {
            use_type_invariant(&*self);
        }
        if let Some(i) = self.prev_boundary() {
            self.cursor = i;
        }
    }

    /// Moves the cursor forward over one cluster; at the end it stays.
    pub fn right(&mut self)
        ensures
            final(self)@ == right_view(old(self)@),
    {
        proof {
            use_type_invariant(&*self);
        }
        if let Some(i) = self.next_boundary() {
            self.cursor = i;
        }
    }

    /// Moves the cursor to the start.
    pub fn home(&mut self)
        ensures
            final(self)@ == (old(self)@.0, 0nat),
    {
        self.cursor = 0;
    }

    /// Moves the cursor to the end.
    pub fn end(&mut self)
        ensures
            final(self)@ == (old(self)@.0, old(self)@.0.len()),
    {
        let n = chars_of(self.text.as_str()).len();
        self.cursor = n;
    }

    /// Applies a key press. Control and Alt chords are ignored; typing and
    /// deleting report `Edited`, cursor moves (and deletions with nothing to
    /// delete) report `Moved`, other keys `Ignored`.
    pub fn on_key(&mut self, key: KeyEvent) -> (r: TextLineEvent)
        ensures
            (final(self)@, r) == line_step(old(self)@, key),
    {
        if key.modifiers.control || key.modifiers.alt {
            return TextLineEvent::Ignored;
        }
        match key.code {
            KeyCode::Char(c) => {
                self.insert(c);
                TextLineEvent::Edited
            },
            KeyCode::Backspace => {
                if self.backspace() {
                    TextLineEvent::Edited
                } else {
                    TextLineEvent::Moved
                }
            },
            KeyCode::Delete => {
                if self.delete() {
                    TextLineEvent::Edited
                } else {
                    TextLineEvent::Moved
                }
            },
            KeyCode::Left => {
                self.left();
                TextLineEvent::Moved
            },
            KeyCode::Right => {
                self.right();
                TextLineEvent::Moved
            },
            KeyCode::Home => {
                self.home();
                TextLineEvent::Moved
            },
            KeyCode::End => {
                self.end();
                TextLineEvent::Moved
            },
            _ => TextLineEvent::Ignored,
        }
    }
}

impl std::ops::Deref for TextLine {
    type Target = str;

    fn deref(&self) -> (r: &str)
        ensures
            r@ == self@.0,
    {
        self.text.as_str()
    }
}

} // verus!
