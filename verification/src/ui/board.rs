//! A board: the rows of a table as cards, one column per option of a
//! status or select property, plus a trailing `(none)` column.
use vstd::prelude::*;
use crate::json::{Json, get_spec, get2, str_spec, str_or_empty};
use crate::records::{DataSourceRec, RowRec};
use crate::text::str_eq;
use crate::ui::table::{schema_options, options_spec, clamp};

verus! {

broadcast use vstd::string::group_string_axioms;

/// The name of the first schema entry in `m` whose `type` is `t`.
pub open spec fn first_of_type(m: Seq<(String, Json)>, t: Seq<char>) -> Option<Seq<char>>
    decreases m.len(),
{
    if m.len() == 0 {
        None
    } else if str_spec(get_spec(m[0].1, "type"@)) == Some(t) {
        Some(m[0].0@)
    } else {
        first_of_type(m.skip(1), t)
    }
}

/// The grouping property of a schema: the first `status` property, else the
/// first `select` one, in schema order; with its type.
pub open spec fn group_spec(schema: Json) -> Option<(Seq<char>, Seq<char>)> {
    match schema {
        Json::Object(m) => match first_of_type(m@, "status"@) {
            Some(n) => Some((n, "status"@)),
            None => match first_of_type(m@, "select"@) {
                Some(n) => Some((n, "select"@)),
                None => None,
            },
        },
        _ => None,
    }
}

/// The columns of a board grouped by `prop` of type `prop_type`: the options
/// the schema declares, then `(none)`.
pub open spec fn board_columns(schema: Json, prop: Seq<char>, prop_type: Seq<char>) -> Seq<Seq<char>> {
    options_spec(schema, prop, prop_type).push("(none)"@)
}

/// The column a row with properties `props` belongs to: the option name it
/// holds, or `(none)` when it holds none.
pub open spec fn group_name(props: Json, prop: Seq<char>, prop_type: Seq<char>) -> Seq<char> {
    let n = match get2(props, prop, prop_type) {
        Some(v) => str_or_empty(get_spec(v, "name"@)),
        None => Seq::empty(),
    };
    if n.len() == 0 {
        "(none)"@
    } else {
        n
    }
}

proof fn lemma_first_skip(m: Seq<(String, Json)>, t: Seq<char>, i: int)
    requires
        0 <= i <= m.len(),
        forall|j: int| 0 <= j < i ==> str_spec(get_spec((#[trigger] m[j]).1, "type"@)) != Some(t),
    ensures
        first_of_type(m, t) == first_of_type(m.skip(i), t),
    decreases i,
{
    if i == 0 {
        assert(m.skip(0) =~= m);
    } else {
        assert(str_spec(get_spec(m[0].1, "type"@)) != Some(t));
        assert(m.skip(1).skip(i - 1) =~= m.skip(i));
        assert forall|j: int| 0 <= j < i - 1 implies str_spec(
            get_spec((#[trigger] m.skip(1)[j]).1, "type"@),
        ) != Some(t) by {
            assert(m.skip(1)[j] == m[j + 1]);
        }
        lemma_first_skip(m.skip(1), t, i - 1);
    }
}

/// Whether `v`'s `type` is the text `t`.
fn has_type(v: &Json, t: &str) -> (r: bool)
    ensures
        r == (str_spec(get_spec(*v, "type"@)) == Some(t@)),
{
    match v.get("type") {
        Some(x) => match x.as_str() {
            Some(s) => str_eq(s, t),
            None => false,
        },
        None => false,
    }
}

/// Position of the first schema entry of type `t`.
pub fn find_of_type(m: &Vec<(String, Json)>, t: &str) -> (r: Option<usize>)
    ensures
        match r {
            Some(i) => i < m@.len() && first_of_type(m@, t@) == Some(m@[i as int].0@),
            None => first_of_type(m@, t@) is None,
        },
{
    let mut i: usize = 0;
    while i < m.len()
        invariant
            i <= m@.len(),
            forall|j: int| 0 <= j < i ==> str_spec(get_spec((#[trigger] m@[j]).1, "type"@)) != Some(t@),
        decreases m@.len() - i,
    {
        if has_type(&m[i].1, t) {
            proof {
                lemma_first_skip(m@, t@, i as int);
                assert(m@.skip(i as int)[0] == m@[i as int]);
            }
            return Some(i);
        }
        i += 1;
    }
    proof {
        lemma_first_skip(m@, t@, m@.len() as int);
    }
    None
}

/// Picks the grouping property: first `status`, else first `select`, in schema
/// key order. Returns (property name, property type).
pub fn group_property(schema_json: &Json) -> (r: Option<(String, String)>)
    ensures
        match r {
            Some((name, ty)) => group_spec(*schema_json) == Some((name@, ty@)),
            None => group_spec(*schema_json) is None,
        },
{
    match schema_json {
        Json::Object(m) => {
            match find_of_type(m, "status") {
                Some(i) => {
                    return Some((m[i].0.clone(), "status".to_owned()));
                },
                None => {},
            }
            match find_of_type(m, "select") {
                Some(i) => Some((m[i].0.clone(), "select".to_owned())),
                None => None,
            }
        },
        _ => None,
    }
}

/// A board over a data source's rows.
pub struct BoardView {
    pub ds: DataSourceRec,
    /// The property the cards are grouped by, and its type (both empty when
    /// the schema has no groupable property).
    pub group_prop: String,
    pub group_type: String,
    /// A grouping chosen by the user in place of the schema's default one.
    pub group_override: Option<(String, String)>,
    /// The column names: the property's options, then `(none)`.
    pub columns: Vec<String>,
    pub rows: Vec<RowRec>,
    pub col: usize,
    pub card: usize,
}

/// Positions, among the first `n` of `rows`, of the rows in column `name`.
pub open spec fn in_column_upto(rows: Seq<RowRec>, prop: Seq<char>, prop_type: Seq<char>, name: Seq<char>, n: int) -> Seq<int>
    decreases n,
{
    if n <= 0 {
        Seq::empty()
    } else if group_name(rows[n - 1].properties, prop, prop_type) == name {
        in_column_upto(rows, prop, prop_type, name, n - 1).push(n - 1)
    } else {
        in_column_upto(rows, prop, prop_type, name, n - 1)
    }
}

/// Positions of the rows whose cards sit in column `col` (none for a column
/// that does not exist), in row order.
pub open spec fn in_column(v: BoardView, col: int) -> Seq<int> {
    if 0 <= col < v.columns@.len() {
        in_column_upto(v.rows@, v.group_prop@, v.group_type@, v.columns@[col]@, v.rows@.len() as int)
    } else {
        Seq::empty()
    }
}

/// `n - 1`, or 0 for 0.
pub open spec fn last_index(n: int) -> int {
    if n == 0 {
        0
    } else {
        n - 1
    }
}

/// The grouping a board over `schema` uses: the override if any, else the
/// schema's default one (empty texts when there is none).
pub open spec fn chosen_group(schema: Json, group_override: Option<(String, String)>) -> (Seq<char>, Seq<char>) {
    match group_override {
        Some((n, t)) => (n@, t@),
        None => match group_spec(schema) {
            Some(g) => g,
            None => (Seq::empty(), Seq::empty()),
        },
    }
}

/// `v` is a fresh board over `ds` and `rows` grouped as `group_override` says.
pub open spec fn fresh_board(v: BoardView, ds: DataSourceRec, rows: Vec<RowRec>, group_override: Option<(String, String)>) -> bool {
    let g = chosen_group(ds.schema_json, group_override);
    &&& v.ds == ds
    &&& v.rows == rows
    &&& v.group_override == group_override
    &&& v.group_prop@ == g.0
    &&& v.group_type@ == g.1
    &&& v.columns@.map_values(|s: String| s@) == board_columns(ds.schema_json, g.0, g.1)
    &&& v.col == 0
    &&& v.card == 0
}

proof fn lemma_in_column_upto_bounds(rows: Seq<RowRec>, prop: Seq<char>, prop_type: Seq<char>, name: Seq<char>, n: int)
    requires
        0 <= n <= rows.len(),
    ensures
        forall|k: int|
            0 <= k < in_column_upto(rows, prop, prop_type, name, n).len() ==> 0 <= #[trigger] in_column_upto(
                rows,
                prop,
                prop_type,
                name,
                n,
            )[k] < n,
        in_column_upto(rows, prop, prop_type, name, n).len() <= n,
    decreases n,
{
    if n > 0 {
        lemma_in_column_upto_bounds(rows, prop, prop_type, name, n - 1);
    }
}

/// `n` is `o` after moving `delta` columns over, clamped to the board (no
/// change on a board without columns), with the card position cut back to
/// the new column's last card.
pub open spec fn col_moved(o: BoardView, n: BoardView, delta: int) -> bool {
    if o.columns@.len() == 0 {
        n == o
    } else {
        let c = clamp(o.col + delta, 0, o.columns@.len() - 1);
        let moved = BoardView { col: c as usize, ..o };
        let last = last_index(in_column(moved, c).len() as int);
        n == (BoardView {
            card: if o.card <= last {
                o.card
            } else {
                last as usize
            },
            ..moved
        })
    }
}

/// The option name a card moved into column `name` takes: the name, or the
/// empty text for the `(none)` column.
pub open spec fn target_value(name: Seq<char>) -> Seq<char> {
    if name == "(none)"@ {
        Seq::empty()
    } else {
        name
    }
}

/// Moving the selected card of `o` to column `target` gave `r` and `n`:
/// the row id and its new option name with `target` made current, or
/// `None` and no change when no card is selected or `target` is off the
/// board.
pub open spec fn card_moved(o: BoardView, n: BoardView, target: int, r: Option<(String, String)>) -> bool {
    let cards = in_column(o, o.col as int);
    if o.card < cards.len() && 0 <= target < o.columns@.len() {
        &&& r matches Some((id, value)) && id@ == o.rows@[cards[o.card as int]].id@ && value@ == target_value(
            o.columns@[target]@,
        )
        &&& n == (BoardView { col: target as usize, ..o })
    } else {
        r is None && n == o
    }
}

impl BoardView {
    /// A board grouped by the schema's default grouping property.
    pub fn new(ds: DataSourceRec, rows: Vec<RowRec>) -> (r: BoardView)
        ensures
            fresh_board(r, ds, rows, None),
    {
        Self::with_group(ds, rows, None)
    }

    /// A board grouped by `group_override` when given, else by the schema's
    /// default grouping property.
    pub fn with_group(ds: DataSourceRec, rows: Vec<RowRec>, group_override: Option<(String, String)>) -> (r: BoardView)
        ensures
            fresh_board(r, ds, rows, group_override),
    {
        let (group_prop, group_type) = match &group_override {
            Some((n, t)) => (n.clone(), t.clone()),
            None => match group_property(&ds.schema_json) {
                Some(g) => g,
                None => (String::new(), String::new()),
            },
        };
        let mut columns = schema_options(&ds.schema_json, group_prop.as_str(), group_type.as_str());
        let ghost before = columns@;
        columns.push("(none)".to_owned());
        proof {
            assert(columns@.map_values(|s: String| s@) =~= before.map_values(|s: String| s@).push("(none)"@));
        }
        BoardView { ds, group_prop, group_type, group_override, columns, rows, col: 0, card: 0 }
    }

    /// The column `row` belongs to.
    fn row_group(&self, row: &RowRec) -> (r: String)
        ensures
            r@ == group_name(row.properties, self.group_prop@, self.group_type@),
    {
        let name: &str = match row.properties.get(self.group_prop.as_str()) {
            Some(p) => match p.get(self.group_type.as_str()) {
                Some(v) => crate::json::str_field(v, "name"),
                None => "",
            },
            None => "",
        };
        proof {
            reveal_strlit("");
        }
        if name.is_empty() {
            "(none)".to_owned()
        } else {
            name.to_owned()
        }
    }

    /// The cards of column `col`, in row order; none for a column that does
    /// not exist.
    pub fn cards_in(&self, col: usize) -> (r: Vec<&RowRec>)
        ensures
            r@.len() == in_column(*self, col as int).len(),
            forall|k: int| 0 <= k < r@.len() ==> *r@[k] == self.rows@[#[trigger] in_column(*self, col as int)[k]],
    {
        let mut out: Vec<&RowRec> = Vec::new();
        if col >= self.columns.len() {
            return out;
        }
        let name = self.columns[col].as_str();
        let mut i: usize = 0;
        while i < self.rows.len()
            invariant
                i <= self.rows@.len(),
                col < self.columns@.len(),
                name@ == self.columns@[col as int]@,
                out@.len() == in_column_upto(self.rows@, self.group_prop@, self.group_type@, name@, i as int).len(),
                forall|k: int|
                    0 <= k < out@.len() ==> *out@[k] == self.rows@[#[trigger] in_column_upto(
                        self.rows@,
                        self.group_prop@,
                        self.group_type@,
                        name@,
                        i as int,
                    )[k]],
            decreases self.rows@.len() - i,
        {
            let g = self.row_group(&self.rows[i]);
            if str_eq(g.as_str(), name) {
                out.push(&self.rows[i]);
            }
            i += 1;
        }
        out
    }

    /// The id of the card under the cursor, if any.
    pub fn selected_row_id(&self) -> (r: Option<String>)
        ensures
            match r {
                Some(id) => self.card < in_column(*self, self.col as int).len() && id@ == self.rows@[in_column(
                    *self,
                    self.col as int,
                )[self.card as int]].id@,
                None => self.card >= in_column(*self, self.col as int).len(),
            },
    {
        let cards = self.cards_in(self.col);
        if self.card < cards.len() {
            Some(cards[self.card].id.clone())
        } else {
            None
        }
    }

    /// Moves the cursor by `delta` cards within the current column, clamped;
    /// nothing happens in an empty column.
    pub fn move_cursor_card(&mut self, delta: isize)
        ensures
            *final(self) == (BoardView {
                card: if in_column(*old(self), old(self).col as int).len() == 0 {
                    old(self).card
                } else {
                    clamp(old(self).card + delta, 0, in_column(*old(self), old(self).col as int).len() - 1) as usize
                },
                ..*old(self)
            }),
    {
        let len = self.cards_in(self.col).len();
        if len == 0 {
            return;
        }
        let target: i128 = self.card as i128 + delta as i128;
        let hi: i128 = len as i128 - 1;
        self.card = if target < 0 {
            0
        } else if target > hi {
            len - 1
        } else {
            target as usize
        };
    }

    /// Moves to the column `delta` away, clamped to the board, keeping the
    /// card position where the new column has that many cards.
    pub fn move_cursor_col(&mut self, delta: isize)
        ensures
            col_moved(*old(self), *final(self), delta as int),
    {
        if self.columns.len() == 0 {
            return;
        }
        let target: i128 = self.col as i128 + delta as i128;
        let hi: i128 = self.columns.len() as i128 - 1;
        self.col = if target < 0 {
            0
        } else if target > hi {
            self.columns.len() - 1
        } else {
            target as usize
        };
        let n = self.cards_in(self.col).len();
        let last = if n == 0 {
            0
        } else {
            n - 1
        };
        if self.card > last {
            self.card = last;
        }
    }

    /// Moves the selected card `delta` columns over: returns (row id, new
    /// option name) for the write and makes the target column current, or
    /// `None` (changing nothing) when no card is selected or the move runs
    /// off the board. Moving into the trailing `(none)` column clears the
    /// value (empty name).
    pub fn move_card(&mut self, delta: isize) -> (r: Option<(String, String)>)
        ensures
            card_moved(*old(self), *final(self), old(self).col + delta, r),
    {
        let row_id = match self.selected_row_id() {
            Some(id) => id,
            None => return None,
        };
        let target: i128 = self.col as i128 + delta as i128;
        if target < 0 || target >= self.columns.len() as i128 {
            return None;
        }
        let t = target as usize;
        let value = if str_eq(self.columns[t].as_str(), "(none)") {
            String::new()
        } else {
            self.columns[t].clone()
        };
        self.col = t;
        Some((row_id, value))
    }

    /// Moves the selected card to column `target`: as `move_card` with the
    /// distance to it, and `None` when `target` is the current column.
    pub fn move_card_to(&mut self, target: usize) -> (r: Option<(String, String)>)
        ensures
            if target == old(self).col {
                r is None && *final(self) == *old(self)
            } else {
                card_moved(*old(self), *final(self), target as int, r)
            },
    {
        if target == self.col || target >= self.columns.len() {
            return None;
        }
        let row_id = match self.selected_row_id() {
            Some(id) => id,
            None => return None,
        };
        let value = if str_eq(self.columns[target].as_str(), "(none)") {
            String::new()
        } else {
            self.columns[target].clone()
        };
        self.col = target;
        Some((row_id, value))
    }
}

} // verus!
