//! Key bindings: the default action keys, user overrides, and matching key
//! events against actions.
use vstd::prelude::*;
use crate::keys::{KeyCode, KeyEvent, KeyModifiers};
use crate::text::{chars_of, push_str, str_eq};

verus! {

broadcast use vstd::string::group_string_axioms;

/// A key and the modifiers a binding requires.
pub type Chord = (KeyCode, KeyModifiers);

/// No modifier.
pub open spec fn no_mods() -> KeyModifiers {
    KeyModifiers { shift: false, control: false, alt: false, other: false }
}

/// Control alone.
pub open spec fn ctrl_mods() -> KeyModifiers {
    KeyModifiers { shift: false, control: true, alt: false, other: false }
}

/// The actions, their help text and default keys, in help order.
pub open spec fn default_table() -> Seq<(Seq<char>, Seq<char>, KeyCode)> {
    seq![
        ("quit"@, "quit the app"@, KeyCode::Char('q')),
        ("sidebar"@, "toggle sidebar"@, KeyCode::Char('1')),
        ("search"@, "search"@, KeyCode::Char('/')),
        ("undo"@, "undo last edit (session-only)"@, KeyCode::Char('u')),
        ("edit"@, "edit page in $EDITOR"@, KeyCode::Char('e')),
        ("comments"@, "comments panel"@, KeyCode::Char('c')),
        ("queue"@, "queue/conflicts screen"@, KeyCode::Char('Q')),
        ("board"@, "toggle board view"@, KeyCode::Char('v')),
        ("help"@, "help overlay"@, KeyCode::Char('?')),
        ("palette"@, "command palette"@, KeyCode::Char(':')),
        ("insert"@, "edit block text"@, KeyCode::Char('i')),
        ("append"@, "add block below"@, KeyCode::Char('a')),
        ("new_row"@, "new database row"@, KeyCode::Char('o')),
        ("props"@, "property form"@, KeyCode::Char('p')),
        ("delete"@, "delete (press twice)"@, KeyCode::Char('d')),
        ("sort"@, "sort by column"@, KeyCode::Char('s')),
        ("filter"@, "filter column"@, KeyCode::Char('f')),
        ("filter_row"@, "filter row (free text)"@, KeyCode::Char('F')),
        ("up"@, "cursor up"@, KeyCode::Char('k')),
        ("down"@, "cursor down"@, KeyCode::Char('j')),
        ("left"@, "left / collapse"@, KeyCode::Char('h')),
        ("right"@, "right / expand"@, KeyCode::Char('l')),
        ("top"@, "jump to top"@, KeyCode::Char('g')),
        ("bottom"@, "jump to bottom"@, KeyCode::Char('G')),
        ("open"@, "open / follow"@, KeyCode::Enter),
        ("back"@, "back"@, KeyCode::Char('-')),
        ("toggle"@, "toggle to-do"@, KeyCode::Char(' ')),
        ("move_card_next"@, "move card right"@, KeyCode::Char('J')),
        ("move_card_prev"@, "move card left"@, KeyCode::Char('K')),
    ]
}

/// The action names, in help order.
pub open spec fn action_names() -> Seq<Seq<char>> {
    default_table().map_values(|e: (Seq<char>, Seq<char>, KeyCode)| e.0)
}

fn defaults() -> (r: Vec<(&'static str, &'static str, KeyCode)>)
    ensures
        r@.map_values(|e: (&str, &str, KeyCode)| (e.0@, e.1@, e.2)) == default_table(),
{
    let r = vec![
        ("quit", "quit the app", KeyCode::Char('q')),
        ("sidebar", "toggle sidebar", KeyCode::Char('1')),
        ("search", "search", KeyCode::Char('/')),
        ("undo", "undo last edit (session-only)", KeyCode::Char('u')),
        ("edit", "edit page in $EDITOR", KeyCode::Char('e')),
        ("comments", "comments panel", KeyCode::Char('c')),
        ("queue", "queue/conflicts screen", KeyCode::Char('Q')),
        ("board", "toggle board view", KeyCode::Char('v')),
        ("help", "help overlay", KeyCode::Char('?')),
        ("palette", "command palette", KeyCode::Char(':')),
        ("insert", "edit block text", KeyCode::Char('i')),
        ("append", "add block below", KeyCode::Char('a')),
        ("new_row", "new database row", KeyCode::Char('o')),
        ("props", "property form", KeyCode::Char('p')),
        ("delete", "delete (press twice)", KeyCode::Char('d')),
        ("sort", "sort by column", KeyCode::Char('s')),
        ("filter", "filter column", KeyCode::Char('f')),
        ("filter_row", "filter row (free text)", KeyCode::Char('F')),
        ("up", "cursor up", KeyCode::Char('k')),
        ("down", "cursor down", KeyCode::Char('j')),
        ("left", "left / collapse", KeyCode::Char('h')),
        ("right", "right / expand", KeyCode::Char('l')),
        ("top", "jump to top", KeyCode::Char('g')),
        ("bottom", "jump to bottom", KeyCode::Char('G')),
        ("open", "open / follow", KeyCode::Enter),
        ("back", "back", KeyCode::Char('-')),
        ("toggle", "toggle to-do", KeyCode::Char(' ')),
        ("move_card_next", "move card right", KeyCode::Char('J')),
        ("move_card_prev", "move card left", KeyCode::Char('K')),
    ];
    assert(r@.map_values(|e: (&str, &str, KeyCode)| (e.0@, e.1@, e.2)) =~= default_table());
    r
}

/// Chords the app hard-codes; overrides may not claim them.
pub open spec fn fixed_chords() -> Seq<Chord> {
    seq![
        (KeyCode::Tab, no_mods()),
        (KeyCode::Char('d'), ctrl_mods()),
        (KeyCode::Char('u'), ctrl_mods()),
        (KeyCode::Char('p'), ctrl_mods()),
    ]
}

fn is_fixed(c: &Chord) -> (r: bool)
    ensures
        r == fixed_chords().contains(*c),
{
    let none = KeyModifiers::none();
    let ctrl = KeyModifiers::control();
    let r = (c.0 == KeyCode::Tab && c.1 == none) || (c.0 == KeyCode::Char('d') && c.1 == ctrl) || (c.0
        == KeyCode::Char('u') && c.1 == ctrl) || (c.0 == KeyCode::Char('p') && c.1 == ctrl);
    proof {
        let f = fixed_chords();
        if r {
            if c.0 == KeyCode::Tab && c.1 == none {
                assert(f[0] == *c);
            } else if c.0 == KeyCode::Char('d') && c.1 == ctrl {
                assert(f[1] == *c);
            } else if c.0 == KeyCode::Char('u') && c.1 == ctrl {
                assert(f[2] == *c);
            } else {
                assert(f[3] == *c);
            }
        } else {
            assert forall|i: int| 0 <= i < f.len() implies f[i] != *c by {}
        }
    }
    r
}

/// `c` lowercased if it is an ASCII capital.
pub open spec fn ascii_lower(c: char) -> char {
    if 'A' <= c <= 'Z' {
        ((c as u32) + 32) as char
    } else {
        c
    }
}

/// The chord a key description names: `ctrl+<char>` (the letter
/// lowercased), one of `esc`, `enter`, `space`, `tab`, `backspace`, or a
/// single character.
pub open spec fn parse_key_spec(s: Seq<char>) -> Option<Chord> {
    if s.len() >= 5 && s.take(5) == "ctrl+"@ {
        if s.len() == 6 {
            Some((KeyCode::Char(ascii_lower(s[5])), ctrl_mods()))
        } else {
            None
        }
    } else if s == "esc"@ {
        Some((KeyCode::Esc, no_mods()))
    } else if s == "enter"@ {
        Some((KeyCode::Enter, no_mods()))
    } else if s == "space"@ {
        Some((KeyCode::Char(' '), no_mods()))
    } else if s == "tab"@ {
        Some((KeyCode::Tab, no_mods()))
    } else if s == "backspace"@ {
        Some((KeyCode::Backspace, no_mods()))
    } else if s.len() == 1 {
        Some((KeyCode::Char(s[0]), no_mods()))
    } else {
        None
    }
}

/// A key named as the help overlay names it — `enter`, `esc`, `tab`,
/// `backspace`, `space`, or the character itself — reads back as that key
/// with no modifier.
pub proof fn law_key_names_parse_back(code: KeyCode)
    requires
        code is Char || code is Enter || code is Esc || code is Tab || code is Backspace,
    ensures
        parse_key_spec(crate::ui::help::label_spec(code)) == Some((code, no_mods())),
{
    reveal_strlit("ctrl+");
    reveal_strlit("esc");
    reveal_strlit("enter");
    reveal_strlit("space");
    reveal_strlit("tab");
    reveal_strlit("backspace");
    let l = crate::ui::help::label_spec(code);
    assert("esc"@.len() != "enter"@.len());
    assert("enter"@[0] != "space"@[0]);
    assert("esc"@.len() != "space"@.len());
    assert("tab"@[0] != "esc"@[0]);
    if l.len() >= 5 {
        assert(l.take(5)[0] != 'c' || l.take(5)[1] != 't' || l.take(5) != "ctrl+"@) by {
            if l.take(5) == "ctrl+"@ {
                assert(l.take(5)[0] == l[0]);
                assert(l[0] == 'c');
            }
        }
    }
}

fn to_ascii_lower(c: char) -> (r: char)
    ensures
        r == ascii_lower(c),
{
    if 'A' <= c && c <= 'Z' {
        let u = (c as u32 + 32) as u8;
        u as char
    } else {
        c
    }
}

/// Reads a key description from the settings file.
pub fn parse_key(s: &str) -> (r: Option<Chord>)
    ensures
        r == parse_key_spec(s@),
        s@ == seq!['e', 'n', 't', 'e', 'r'] ==> r == Some((KeyCode::Enter, no_mods())),
        s@ == seq!['e', 's', 'c'] ==> r == Some((KeyCode::Esc, no_mods())),
        s@ == seq!['s', 'p', 'a', 'c', 'e'] ==> r == Some((KeyCode::Char(' '), no_mods())),
        s@ == seq!['t', 'a', 'b'] ==> r == Some((KeyCode::Tab, no_mods())),
        s@ == seq!['b', 'a', 'c', 'k', 's', 'p', 'a', 'c', 'e'] ==> r == Some((KeyCode::Backspace, no_mods())),
{
    proof {
        law_key_names_parse_back(KeyCode::Enter);
        law_key_names_parse_back(KeyCode::Esc);
        law_key_names_parse_back(KeyCode::Char(' '));
        law_key_names_parse_back(KeyCode::Tab);
        law_key_names_parse_back(KeyCode::Backspace);
        reveal_strlit("space");
        reveal_strlit("enter");
        reveal_strlit("esc");
        reveal_strlit("tab");
        reveal_strlit("backspace");
        reveal_strlit("ctrl+");
        assert("enter"@ =~= seq!['e', 'n', 't', 'e', 'r']);
        assert("esc"@ =~= seq!['e', 's', 'c']);
        assert("space"@ =~= seq!['s', 'p', 'a', 'c', 'e']);
        assert("tab"@ =~= seq!['t', 'a', 'b']);
        assert("backspace"@ =~= seq!['b', 'a', 'c', 'k', 's', 'p', 'a', 'c', 'e']);
    }
    let v = chars_of(s);
    let prefix = chars_of("ctrl+");
    if crate::text::starts_with(&v, &prefix) {
        proof {
            assert(v@.take(5) == v@.subrange(0, 5));
            assert(v@.take(5)[0] == v@[0]);
            assert(v@[0] == 'c');
        }
        if v.len() == 6 {
            return Some((KeyCode::Char(to_ascii_lower(v[5])), KeyModifiers::control()));
        } else {
            return None;
        }
    }
    let code = if str_eq(s, "esc") {
        KeyCode::Esc
    } else if str_eq(s, "enter") {
        KeyCode::Enter
    } else if str_eq(s, "space") {
        KeyCode::Char(' ')
    } else if str_eq(s, "tab") {
        KeyCode::Tab
    } else if str_eq(s, "backspace") {
        KeyCode::Backspace
    } else if v.len() == 1 {
        KeyCode::Char(v[0])
    } else {
        return None;
    };
    Some((code, KeyModifiers::none()))
}

/// Which key each action is bound to.
pub struct Keymap {
    /// The chord of each action, in the order of the action table.
    chords: Vec<Chord>,
}

impl View for Keymap {
    type V = Seq<Chord>;

    closed spec fn view(&self) -> Seq<Chord> {
        self.chords@
    }
}

/// The default chords: each action's key with no modifier.
pub open spec fn default_chords() -> Seq<Chord> {
    default_table().map_values(|e: (Seq<char>, Seq<char>, KeyCode)| (e.2, no_mods()))
}

/// Position of the first name at or after `i` in `names` equal to `a`.
pub open spec fn index_from(names: Seq<Seq<char>>, a: Seq<char>, i: int) -> Option<int>
    decreases names.len() - i,
{
    if i < 0 || i >= names.len() {
        None
    } else if names[i] == a {
        Some(i)
    } else {
        index_from(names, a, i + 1)
    }
}

/// Position of action `a` in the action table.
pub open spec fn action_index(a: Seq<char>) -> Option<int> {
    index_from(action_names(), a, 0)
}

proof fn lemma_index_from(names: Seq<Seq<char>>, a: Seq<char>, i: int)
    requires
        0 <= i,
    ensures
        index_from(names, a, i) matches Some(x) ==> i <= x < names.len() && names[x] == a,
    decreases names.len() - i,
{
    if i < names.len() && names[i] != a {
        lemma_index_from(names, a, i + 1);
    }
}

/// The result of applying overrides `o` (action, key description) in order
/// to chords `cs`: the chords, and the warnings as texts.
pub open spec fn overrides_spec(cs: Seq<Chord>, o: Seq<(Seq<char>, Seq<char>)>) -> (Seq<Chord>, Seq<Seq<char>>)
    decreases o.len(),
{
    if o.len() == 0 {
        (cs, Seq::empty())
    } else {
        let (c, w) = overrides_spec(cs, o.drop_last());
        let (action, key) = o.last();
        match action_index(action) {
            None => (c, w.push("keys."@ + action + ": unknown action"@)),
            Some(i) => match parse_key_spec(key) {
                Some(chord) => if fixed_chords().contains(chord) {
                    (c, w.push("keys."@ + action + ": \""@ + key + "\" is a fixed key and can't be rebound"@))
                } else {
                    (c.update(i, chord), w)
                },
                None => (c, w.push("keys."@ + action + ": can't parse key \""@ + key + "\""@)),
            },
        }
    }
}

/// One more override either rebinds exactly its action (it names an action
/// and a key that parses and is not fixed) or changes no binding and adds
/// one warning.
pub proof fn law_override_rebinds_only_its_action(
    cs: Seq<Chord>,
    o: Seq<(Seq<char>, Seq<char>)>,
    action: Seq<char>,
    key: Seq<char>,
)
    ensures
        ({
            let before = overrides_spec(cs, o);
            let after = overrides_spec(cs, o.push((action, key)));
            if action_index(action) is Some && parse_key_spec(key) is Some && !fixed_chords().contains(
                parse_key_spec(key).unwrap(),
            ) {
                after.0 == before.0.update(action_index(action).unwrap(), parse_key_spec(key).unwrap())
                    && after.1 == before.1
            } else {
                after.0 == before.0 && after.1.len() == before.1.len() + 1
            }
        }),
{
    assert(o.push((action, key)).drop_last() =~= o);
}

/// Whether key event `k` triggers a binding to `chord`: never with Alt;
/// the Control state must match the binding's; Shift is ignored (capital
/// letters carry it).
pub open spec fn chord_matches(chord: Chord, k: KeyEvent) -> bool {
    !k.modifiers.alt && k.modifiers.control == chord.1.control && chord.0 == k.code
}

fn find_action(action: &str) -> (r: Option<usize>)
    ensures
        match r {
            Some(i) => action_index(action@) == Some(i as int) && i < action_names().len(),
            None => action_index(action@) is None,
        },
{
    let table = defaults();
    let ghost names = action_names();
    let mut i: usize = 0;
    while i < table.len()
        invariant
            i <= table@.len(),
            table@.map_values(|e: (&str, &str, KeyCode)| (e.0@, e.1@, e.2)) == default_table(),
            names == action_names(),
            names.len() == table@.len(),
            action_index(action@) == index_from(names, action@, i as int),
        decreases table@.len() - i,
    {
        proof {
            assert(names[i as int] == table@[i as int].0@);
        }
        if str_eq(table[i].0, action) {
            return Some(i);
        }
        i += 1;
    }
    None
}

impl Keymap {
    /// Every action has a chord.
    #[verifier::type_invariant]
    spec fn inv(&self) -> bool {
        self.chords@.len() == action_names().len()
    }
}

impl Clone for Keymap {
    fn clone(&self) -> (r: Keymap)
        ensures
            r@ == self@,
    {
        proof {
            use_type_invariant(self);
        }
        let mut chords: Vec<Chord> = Vec::new();
        let mut i: usize = 0;
        while i < self.chords.len()
            invariant
                i <= self.chords@.len(),
                chords@ == self.chords@.take(i as int),
            decreases self.chords@.len() - i,
        {
            chords.push(self.chords[i]);
            i += 1;
            proof {
                assert(chords@ =~= self.chords@.take(i as int));
            }
        }
        proof {
            assert(self.chords@.take(self.chords@.len() as int) =~= self.chords@);
        }
        Keymap { chords }
    }
}

impl Keymap {
    /// The default bindings.
    pub fn new() -> (r: Keymap)
        ensures
            r@ == default_chords(),
    {
        Keymap { chords: Self::default_chord_list() }
    }

    fn default_chord_list() -> (r: Vec<Chord>)
        ensures
            r@ == default_chords(),
    {
        let table = defaults();
        let mut chords: Vec<Chord> = Vec::new();
        let mut i: usize = 0;
        while i < table.len()
            invariant
                i <= table@.len(),
                table@.map_values(|e: (&str, &str, KeyCode)| (e.0@, e.1@, e.2)) == default_table(),
                chords@ == default_chords().take(i as int),
            decreases table@.len() - i,
        {
            proof {
                assert(default_table()[i as int].2 == table@[i as int].2);
            }
            chords.push((table[i].2, KeyModifiers::none()));
            i += 1;
            proof {
                assert(chords@ =~= default_chords().take(i as int));
            }
        }
        proof {
            assert(default_chords().take(default_chords().len() as int) =~= default_chords());
        }
        chords
    }

    /// The defaults with `overrides` (action name, key description) applied
    /// in order, and a warning for each override that names no action, does
    /// not parse, or claims a fixed key (those leave the default in place).
    pub fn with_overrides_checked(overrides: &Vec<(String, String)>) -> (r: (Keymap, Vec<String>))
        ensures
            (r.0@, r.1@.map_values(|w: String| w@)) == overrides_spec(
                default_chords(),
                overrides@.map_values(|e: (String, String)| (e.0@, e.1@)),
            ),
    {
        let ghost ov = overrides@.map_values(|e: (String, String)| (e.0@, e.1@));
        let mut chords = Self::default_chord_list();
        let mut warnings: Vec<String> = Vec::new();
        let mut i: usize = 0;
        while i < overrides.len()
            invariant
                i <= overrides@.len(),
                ov == overrides@.map_values(|e: (String, String)| (e.0@, e.1@)),
                chords@.len() == action_names().len(),
                (chords@, warnings@.map_values(|w: String| w@)) == overrides_spec(default_chords(), ov.take(i as int)),
            decreases overrides@.len() - i,
        {
            let ghost before = warnings@.map_values(|w: String| w@);
            let action = overrides[i].0.as_str();
            let key = overrides[i].1.as_str();
            proof {
                assert(ov.take(i + 1).drop_last() =~= ov.take(i as int));
                assert(ov.take(i + 1).last() == (action@, key@));
            }
            match find_action(action) {
                None => {
                    let mut w = String::new();
                    push_str(&mut w, "keys.");
                    push_str(&mut w, action);
                    push_str(&mut w, ": unknown action");
                    warnings.push(w);
                },
                Some(a) => match parse_key(key) {
                    Some(chord) => {
                        if is_fixed(&chord) {
                            let mut w = String::new();
                            push_str(&mut w, "keys.");
                            push_str(&mut w, action);
                            push_str(&mut w, ": \"");
                            push_str(&mut w, key);
                            push_str(&mut w, "\" is a fixed key and can't be rebound");
                            warnings.push(w);
                        } else {
                            chords.set(a, chord);
                        }
                    },
                    None => {
                        let mut w = String::new();
                        push_str(&mut w, "keys.");
                        push_str(&mut w, action);
                        push_str(&mut w, ": can't parse key \"");
                        push_str(&mut w, key);
                        push_str(&mut w, "\"");
                        warnings.push(w);
                    },
                },
            }
            i += 1;
            proof {
                let spec = overrides_spec(default_chords(), ov.take(i as int));
                assert(chords@ =~= spec.0);
                assert(warnings@.map_values(|w: String| w@) =~= spec.1);
            }
        }
        proof {
            assert(ov.take(overrides@.len() as int) =~= ov);
        }
        (Keymap { chords }, warnings)
    }

    /// The defaults with `overrides` applied, dropping the warnings.
    pub fn with_overrides(overrides: &Vec<(String, String)>) -> (r: Keymap)
        ensures
            r@ == overrides_spec(
                default_chords(),
                overrides@.map_values(|e: (String, String)| (e.0@, e.1@)),
            ).0,
    {
        Self::with_overrides_checked(overrides).0
    }

    /// Whether `key` triggers `action`: never with Alt held; the Control
    /// state must match the binding's (Shift rides along, since capital
    /// letters carry it). Unknown actions never match.
    pub fn is(&self, action: &str, key: KeyEvent) -> (r: bool)
        ensures
            r == match action_index(action@) {
                Some(i) => chord_matches(self@[i], key),
                None => false,
            },
    {
        proof {
            use_type_invariant(self);
        }
        if key.modifiers.alt {
            return false;
        }
        match find_action(action) {
            None => false,
            Some(i) => {
                let (code, mods) = self.chords[i];
                key.modifiers.control == mods.control && code == key.code
            },
        }
    }

    /// The chord `action` is bound to.
    pub fn key_for(&self, action: &str) -> (r: Option<Chord>)
        ensures
            r == match action_index(action@) {
                Some(i) => Some(self@[i]),
                None => None,
            },
    {
        proof {
            use_type_invariant(self);
        }
        match find_action(action) {
            None => None,
            Some(i) => Some(self.chords[i]),
        }
    }

    /// The actions and their help texts, in help order.
    pub fn actions() -> (r: Vec<(&'static str, &'static str)>)
        ensures
            r@.map_values(|e: (&str, &str)| (e.0@, e.1@)) == default_table().map_values(
                |e: (Seq<char>, Seq<char>, KeyCode)| (e.0, e.1),
            ),
    {
        let table = defaults();
        let mut out: Vec<(&'static str, &'static str)> = Vec::new();
        let mut i: usize = 0;
        while i < table.len()
            invariant
                i <= table@.len(),
                table@.map_values(|e: (&str, &str, KeyCode)| (e.0@, e.1@, e.2)) == default_table(),
                out@.len() == i,
                forall|k: int| 0 <= k < i ==> (#[trigger] out@[k]).0@ == default_table()[k].0 && out@[k].1@ == default_table()[k].1,
            decreases table@.len() - i,
        {
            proof {
                assert(default_table()[i as int].0 == table@[i as int].0@);
                assert(default_table()[i as int].1 == table@[i as int].1@);
            }
            out.push((table[i].0, table[i].1));
            i += 1;
        }
        proof {
            assert(out@.map_values(|e: (&str, &str)| (e.0@, e.1@)) =~= default_table().map_values(
                |e: (Seq<char>, Seq<char>, KeyCode)| (e.0, e.1),
            ));
        }
        out
    }
}

impl Default for Keymap {
    fn default() -> (r: Self)
        ensures
            r@ == default_chords(),
    {
        Self::new()
    }
}

} // verus!
