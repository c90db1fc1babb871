//! Table view helpers: columns, filters and width-aware cell truncation.
use vstd::prelude::*;
use crate::json::{bool_spec, get2, get_spec, str_or_empty, str_spec, Json};
use crate::order::{is_permutation, stable_order, stably_sorted, take_in_order};
use crate::records::{DataSourceRec, RowRec};
use crate::text::{
    contains_chars, decimal, find, join, lemma_join_push, lowercase_chars, push_char, push_decimal, push_str, spec_lowercase,
    str_eq,
};
use crate::unicode::{concat, graphemes, spec_graphemes, spec_width, width};

verus! {

broadcast use vstd::string::group_string_axioms;

/// A displayed column: property name and property type.
#[derive(Clone)]
pub struct Column {
    pub name: String,
    pub prop_type: String,
}

/// An active row filter.
#[derive(Clone)]
pub struct FilterState {
    /// `Some(col_idx)` filters that one column; `None` is free-text across the whole row.
    pub col: Option<usize>,
    pub query: String,
}

/// The clusters of `gs` from `i` on that fit, one after another, within
/// `budget` columns when `used` columns are already taken.
pub open spec fn fitting(gs: Seq<Seq<char>>, budget: int, i: int, used: int) -> Seq<char>
    decreases gs.len() - i,
{
    if i < 0 || i >= gs.len() {
        Seq::empty()
    } else {
        let gw = spec_width(gs[i]) as int;
        if used + gw > budget {
            Seq::empty()
        } else {
            gs[i] + fitting(gs, budget, i + 1, used + gw)
        }
    }
}

/// `s` cut to at most `max_cols` display columns: unchanged when it fits;
/// otherwise the leading clusters whose widths fit in `max_cols - 1`
/// columns, followed by `'…'`; nothing at all when `max_cols` is 0.
pub open spec fn truncate_spec(s: Seq<char>, max_cols: int) -> Seq<char> {
    if spec_width(s) <= max_cols {
        s
    } else if max_cols <= 0 {
        Seq::empty()
    } else {
        fitting(spec_graphemes(s), max_cols - 1, 0, 0).push('…')
    }
}

/// Truncates to at most `max_cols` display columns, appending '…' when
/// anything was cut. Never cuts inside a grapheme cluster.
pub fn truncate_ellipsis(s: &str, max_cols: u16) -> (r: String)
    ensures
        r@ == truncate_spec(s@, max_cols as int),
{
    if width(s) <= max_cols as usize {
        return s.to_owned();
    }
    if max_cols == 0 {
        return String::new();
    }
    let budget: u32 = (max_cols - 1) as u32;
    let gs = graphemes(s);
    let ghost views = gs@.map_values(|g: String| g@);
    let mut out = String::new();
    let mut used: u32 = 0;
    let mut i: usize = 0;
    let mut stop = false;
    while i < gs.len() && !stop
        invariant
            stop ==> fitting(views, budget as int, i as int, used as int) == Seq::<char>::empty(),
            views == spec_graphemes(s@),
            views.len() == gs@.len(),
            forall|j: int| 0 <= j < gs@.len() ==> (#[trigger] gs@[j])@ == views[j],
            i <= gs@.len(),
            used <= budget,
            budget <= u16::MAX,
            fitting(views, budget as int, 0, 0) == out@ + fitting(
                views,
                budget as int,
                i as int,
                used as int,
            ),
        decreases gs@.len() - i + (if stop { 0int } else { 1int }),
    {
        let g = &gs[i];
        let gw = width(g.as_str());
        assert(g@ == views[i as int]);
        if gw > (budget - used) as usize {
            stop = true;
        } else {
        let ghost before = out@;
        push_str(&mut out, g.as_str());
        proof {
            assert(out@ == before + views[i as int]);
            assert(before + (views[i as int] + fitting(views, budget as int, i + 1, used + gw))
                == out@ + fitting(views, budget as int, i + 1, used + gw));
        }
        used = used + gw as u32;
        i += 1;
        }
    }
    push_char_ellipsis(&mut out);
    out
}

fn push_char_ellipsis(s: &mut String)
    ensures
        final(s)@ == old(s)@.push('…'),
{
    crate::text::push_char(s, '…');
}

/// The text under `key` of each item of `a` that has one, in order.
pub open spec fn field_texts(a: Seq<Json>, key: Seq<char>) -> Seq<Seq<char>>
    decreases a.len(),
{
    if a.len() == 0 {
        Seq::empty()
    } else {
        let r = field_texts(a.drop_last(), key);
        match str_spec(get_spec(a.last(), key)) {
            Some(t) => r.push(t),
            None => r,
        }
    }
}

/// The texts under `key` of the items of `a`, joined with `sep`.
fn join_field(a: &Vec<Json>, key: &str, sep: &str) -> (r: String)
    ensures
        r@ == join(field_texts(a@, key@), sep@),
{
    let mut out = String::new();
    let mut first = true;
    let mut i: usize = 0;
    while i < a.len()
        invariant
            i <= a@.len(),
            out@ == join(field_texts(a@.take(i as int), key@), sep@),
            first == (field_texts(a@.take(i as int), key@).len() == 0),
        decreases a@.len() - i,
    {
        let ghost before = field_texts(a@.take(i as int), key@);
        proof {
            assert(a@.take(i + 1).drop_last() =~= a@.take(i as int));
            assert(a@.take(i + 1).last() == a@[i as int]);
        }
        match a[i].get(key) {
            Some(x) => match x.as_str() {
                Some(t) => {
                    if !first {
                        push_str(&mut out, sep);
                    }
                    push_str(&mut out, t);
                    first = false;
                    proof {
                        lemma_join_push(before, t@, sep@);
                        assert(out@ =~= join(before.push(t@), sep@));
                    }
                },
                None => {},
            },
            None => {},
        }
        i += 1;
    }
    proof {
        assert(a@.take(a@.len() as int) =~= a@);
    }
    out
}

/// The plain text of a rich-text value: its pieces' `plain_text`, concatenated.
pub open spec fn rich_plain(v: Option<Json>) -> Seq<char> {
    match v {
        Some(Json::Array(a)) => join(field_texts(a@, "plain_text"@), Seq::empty()),
        _ => Seq::empty(),
    }
}

fn rich_text_plain(v: Option<&Json>) -> (r: String)
    ensures
        r@ == rich_plain(crate::json::deref_opt(v)),
{
    proof {
        reveal_strlit("");
        assert(""@ =~= Seq::<char>::empty());
    }
    match v {
        Some(Json::Array(a)) => join_field(a, "plain_text", ""),
        _ => String::new(),
    }
}

/// The display text of a Notion property value.
pub open spec fn cell_spec(v: Json) -> Seq<char> {
    let t = str_or_empty(get_spec(v, "type"@));
    if t == "title"@ {
        rich_plain(get_spec(v, "title"@))
    } else if t == "rich_text"@ {
        rich_plain(get_spec(v, "rich_text"@))
    } else if t == "number"@ {
        match get_spec(v, "number"@) {
            Some(Json::Number(n)) => n@,
            _ => Seq::empty(),
        }
    } else if t == "select"@ {
        str_or_empty(get2(v, "select"@, "name"@))
    } else if t == "status"@ {
        str_or_empty(get2(v, "status"@, "name"@))
    } else if t == "multi_select"@ {
        match get_spec(v, "multi_select"@) {
            Some(Json::Array(a)) => join(field_texts(a@, "name"@), ", "@),
            _ => Seq::empty(),
        }
    } else if t == "date"@ {
        str_or_empty(get2(v, "date"@, "start"@))
    } else if t == "checkbox"@ {
        if bool_spec(get_spec(v, "checkbox"@)) == Some(true) {
            "☑"@
        } else {
            "☐"@
        }
    } else if t == "url"@ || t == "email"@ || t == "phone_number"@ {
        str_or_empty(get_spec(v, t))
    } else if t == "people"@ {
        match get_spec(v, "people"@) {
            Some(Json::Array(a)) => "👤 "@ + decimal(a@.len()),
            _ => Seq::empty(),
        }
    } else {
        Seq::empty()
    }
}

/// `v[a][b]` as text, or the empty text.
fn str_at2<'a>(v: &'a Json, a: &str, b: &str) -> (r: &'a str)
    ensures
        r@ == str_or_empty(get2(*v, a@, b@)),
{
    proof {
        reveal_strlit("");
    }
    match v.get(a) {
        Some(x) => crate::json::str_field(x, b),
        None => "",
    }
}

/// The display text of a Notion property value (a number shows its display text).
pub fn cell_text(prop: &Json) -> (r: String)
    ensures
        r@ == cell_spec(*prop),
{
    proof {
        reveal_strlit("");
    }
    let t = crate::json::str_field(prop, "type");
    if str_eq(t, "title") {
        rich_text_plain(prop.get("title"))
    } else if str_eq(t, "rich_text") {
        rich_text_plain(prop.get("rich_text"))
    } else if str_eq(t, "number") {
        match prop.get("number") {
            Some(Json::Number(n)) => n.clone(),
            _ => String::new(),
        }
    } else if str_eq(t, "select") {
        str_at2(prop, "select", "name").to_owned()
    } else if str_eq(t, "status") {
        str_at2(prop, "status", "name").to_owned()
    } else if str_eq(t, "multi_select") {
        match prop.get("multi_select") {
            Some(Json::Array(a)) => join_field(a, "name", ", "),
            _ => String::new(),
        }
    } else if str_eq(t, "date") {
        str_at2(prop, "date", "start").to_owned()
    } else if str_eq(t, "checkbox") {
        if crate::json::bool_field(prop, "checkbox") {
            "☑".to_owned()
        } else {
            "☐".to_owned()
        }
    } else if str_eq(t, "url") || str_eq(t, "email") || str_eq(t, "phone_number") {
        crate::json::str_field(prop, t).to_owned()
    } else if str_eq(t, "people") {
        match prop.get("people") {
            Some(Json::Array(a)) => {
                let mut s = String::new();
                push_str(&mut s, "👤 ");
                push_decimal(&mut s, a.len() as u64);
                s
            },
            _ => String::new(),
        }
    } else {
        String::new()
    }
}

/// The display text of property `name` among `props` (empty when absent).
pub open spec fn prop_cell(props: Json, name: Seq<char>) -> Seq<char> {
    match get_spec(props, name) {
        Some(v) => cell_spec(v),
        None => Seq::empty(),
    }
}

/// The display text of property `name` among `props`.
pub fn prop_cell_text(props: &Json, name: &str) -> (r: String)
    ensures
        r@ == prop_cell(*props, name@),
{
    match props.get(name) {
        Some(v) => cell_text(v),
        None => String::new(),
    }
}

/// The option names a schema declares for property `prop` of type `prop_type`.
pub open spec fn options_spec(schema: Json, prop: Seq<char>, prop_type: Seq<char>) -> Seq<Seq<char>> {
    match get2(schema, prop, prop_type) {
        Some(def) => match get_spec(def, "options"@) {
            Some(Json::Array(a)) => field_texts(a@, "name"@),
            _ => Seq::empty(),
        },
        None => Seq::empty(),
    }
}

/// Reads the defined options for a select/status/multi_select property from
/// the schema; empty for types that don't declare options.
pub fn schema_options(schema_json: &Json, prop: &str, prop_type: &str) -> (r: Vec<String>)
    ensures
        r@.map_values(|s: String| s@) == options_spec(*schema_json, prop@, prop_type@),
{
    let mut out: Vec<String> = Vec::new();
    let a = match schema_json.get(prop) {
        Some(def) => match def.get(prop_type) {
            Some(d) => match d.get("options") {
                Some(Json::Array(a)) => a,
                _ => {
                    proof {
                        assert(out@.map_values(|s: String| s@) =~= Seq::<Seq<char>>::empty());
                    }
                    return out;
                },
            },
            None => {
                proof {
                    assert(out@.map_values(|s: String| s@) =~= Seq::<Seq<char>>::empty());
                }
                return out;
            },
        },
        None => {
            proof {
                assert(out@.map_values(|s: String| s@) =~= Seq::<Seq<char>>::empty());
            }
            return out;
        },
    };
    let mut i: usize = 0;
    while i < a.len()
        invariant
            i <= a@.len(),
            out@.map_values(|s: String| s@) == field_texts(a@.take(i as int), "name"@),
        decreases a@.len() - i,
    {
        proof {
            assert(a@.take(i + 1).drop_last() =~= a@.take(i as int));
            assert(a@.take(i + 1).last() == a@[i as int]);
        }
        let ghost before = out@;
        match a[i].get("name") {
            Some(x) => match x.as_str() {
                Some(t) => {
                    out.push(t.to_owned());
                    proof {
                        assert(out@.map_values(|s: String| s@) =~= before.map_values(|s: String| s@).push(t@));
                    }
                },
                None => {},
            },
            None => {},
        }
        i += 1;
    }
    proof {
        assert(a@.take(a@.len() as int) =~= a@);
    }
    out
}

/// The columns a schema defines, in the order its entries come.
pub open spec fn schema_entries(schema: Json) -> Seq<(Seq<char>, Seq<char>)> {
    match schema {
        Json::Object(m) => m@.map_values(|e: (String, Json)| (e.0@, str_or_empty(get_spec(e.1, "type"@)))),
        _ => Seq::empty(),
    }
}

/// The sort key of a column: title columns first, then by lowercased name.
pub open spec fn column_key(c: (Seq<char>, Seq<char>)) -> Seq<char> {
    seq![if c.1 == "title"@ { '\u{0}' } else { '\u{1}' }] + spec_lowercase(c.0)
}

/// A column as plain text: `(name, type)`.
pub open spec fn column_view(c: Column) -> (Seq<char>, Seq<char>) {
    (c.name@, c.prop_type@)
}

/// Derives display columns from a data source schema: title property first,
/// the rest by lowercased name, ties in schema order.
pub fn schema_columns(schema_json: &Json) -> (r: Vec<Column>)
    ensures
        exists|perm: Seq<usize>|
            is_permutation(perm, schema_entries(*schema_json).len() as int) && stably_sorted(
                schema_entries(*schema_json).map_values(|c: (Seq<char>, Seq<char>)| column_key(c)),
                perm,
            ) && r@.len() == perm.len() && forall|k: int|
                0 <= k < r@.len() ==> column_view(#[trigger] r@[k]) == schema_entries(
                    *schema_json,
                )[perm[k] as int],
{
    let ghost entries = schema_entries(*schema_json);
    let mut cols: Vec<Column> = Vec::new();
    let mut keys: Vec<Vec<char>> = Vec::new();
    match schema_json {
        Json::Object(m) => {
            let mut i: usize = 0;
            while i < m.len()
                invariant
                    i <= m@.len(),
                    entries == m@.map_values(
                        |e: (String, Json)| (e.0@, str_or_empty(get_spec(e.1, "type"@))),
                    ),
                    cols@.len() == i,
                    keys@.len() == i,
                    forall|k: int| 0 <= k < i ==> column_view(#[trigger] cols@[k]) == entries[k],
                    forall|k: int| 0 <= k < i ==> (#[trigger] keys@[k])@ == column_key(entries[k]),
                decreases m@.len() - i,
            {
                let name = &m[i].0;
                let ty = crate::json::str_field(&m[i].1, "type");
                let mut key: Vec<char> = Vec::new();
                key.push(if str_eq(ty, "title") { '\u{0}' } else { '\u{1}' });
                let lower = lowercase_chars(name.as_str());
                let mut j: usize = 0;
                while j < lower.len()
                    invariant
                        j <= lower@.len(),
                        key@ == seq![if ty@ == "title"@ { '\u{0}' } else { '\u{1}' }] + lower@.take(j as int),
                    decreases lower@.len() - j,
                {
                    key.push(lower[j]);
                    j += 1;
                    proof {
                        assert(key@ =~= seq![if ty@ == "title"@ { '\u{0}' } else { '\u{1}' }] + lower@.take(j as int));
                    }
                }
                proof {
                    assert(lower@.take(lower@.len() as int) =~= lower@);
                }
                cols.push(Column { name: name.clone(), prop_type: ty.to_owned() });
                keys.push(key);
                i += 1;
            }
        },
        _ => {},
    }
    proof {
        assert(entries.len() == cols@.len());
        assert(keys@.map_values(|k: Vec<char>| k@) =~= entries.map_values(
            |c: (Seq<char>, Seq<char>)| column_key(c),
        ));
    }
    let perm = stable_order(&keys);
    let ghost cs = cols@;
    let r = take_in_order(cols, &perm);
    proof {
        assert forall|k: int| 0 <= k < r@.len() implies column_view(#[trigger] r@[k]) == entries[perm@[k] as int] by {
            assert(r@[k] == cs[perm@[k] as int]);
        }
    }
    r
}

/// The filter as it reads in the table's title.
pub open spec fn filter_suffix_spec(filter: Option<FilterState>, columns: Seq<Column>) -> Seq<char> {
    match filter {
        None => Seq::empty(),
        Some(f) => match f.col {
            Some(i) if i < columns.len() => " — filter: "@ + columns[i as int].name@ + "~\""@
                + f.query@ + "\""@,
            _ => " — filter: \""@ + f.query@ + "\""@,
        },
    }
}

/// The active filter as shown after the table's title.
pub fn filter_suffix(filter: &Option<FilterState>, columns: &Vec<Column>) -> (r: String)
    ensures
        r@ == filter_suffix_spec(*filter, columns@),
{
    let mut s = String::new();
    match filter {
        None => {},
        Some(f) => {
            let named = match f.col {
                Some(i) => i < columns.len(),
                None => false,
            };
            if named {
                let i = f.col.unwrap();
                push_str(&mut s, " — filter: ");
                push_str(&mut s, columns[i].name.as_str());
                push_str(&mut s, "~\"");
                push_str(&mut s, f.query.as_str());
                push_str(&mut s, "\"");
            } else {
                push_str(&mut s, " — filter: \"");
                push_str(&mut s, f.query.as_str());
                push_str(&mut s, "\"");
            }
        },
    }
    proof {
        assert(s@ =~= filter_suffix_spec(*filter, columns@));
    }
    s
}

/// A database table: its columns, rows, sort and filter.
pub struct TableView {
    pub ds: DataSourceRec,
    pub columns: Vec<Column>,
    pub rows: Vec<RowRec>,
    pub cursor: usize,
    /// The sorted column and whether ascending.
    pub sort: Option<(usize, bool)>,
    /// The column the sort key moves over.
    pub sort_col: usize,
    pub filter: Option<FilterState>,
}

/// The display text of row `row` in column `col`.
pub open spec fn row_cell(row: RowRec, col: Column) -> Seq<char> {
    prop_cell(row.properties, col.name@)
}

/// Whether `row` passes `filter`: the lowercased query occurs in the
/// lowercased cell of the filtered column (any column for a free-text
/// filter). A filter on a column that no longer exists passes everything.
pub open spec fn passes(filter: Option<FilterState>, columns: Seq<Column>, row: RowRec) -> bool {
    match filter {
        None => true,
        Some(f) => {
            let q = spec_lowercase(f.query@);
            match f.col {
                Some(i) => i >= columns.len() || find(spec_lowercase(row_cell(row, columns[i as int])), q) is Some,
                None => exists|c: int|
                    0 <= c < columns.len() && #[trigger] find(
                        spec_lowercase(row_cell(row, columns[c])),
                        q,
                    ) is Some,
            }
        },
    }
}

/// Positions, among the first `n` rows, of the rows that pass the filter.
pub open spec fn shown_upto(v: TableView, n: int) -> Seq<int>
    decreases n,
{
    if n <= 0 {
        Seq::empty()
    } else if passes(v.filter, v.columns@, v.rows@[n - 1]) {
        shown_upto(v, n - 1).push(n - 1)
    } else {
        shown_upto(v, n - 1)
    }
}

/// Positions of the rows the table shows, in order.
pub open spec fn shown(v: TableView) -> Seq<int> {
    shown_upto(v, v.rows@.len() as int)
}

proof fn lemma_shown_upto_bounds(v: TableView, n: int)
    requires
        0 <= n <= v.rows@.len(),
    ensures
        forall|k: int| 0 <= k < shown_upto(v, n).len() ==> 0 <= #[trigger] shown_upto(v, n)[k] < n,
        shown_upto(v, n).len() <= n,
    decreases n,
{
    if n > 0 {
        lemma_shown_upto_bounds(v, n - 1);
    }
}

/// The sort key of `row` for column `col`: its lowercased display text.
pub open spec fn sort_key(row: RowRec, col: Column) -> Seq<char> {
    spec_lowercase(row_cell(row, col))
}

/// `perm` read backwards.
pub open spec fn reversed(perm: Seq<usize>) -> Seq<usize> {
    Seq::new(perm.len(), |k: int| perm[perm.len() - 1 - k])
}

/// `x` clamped to `[lo, hi]`.
pub open spec fn clamp(x: int, lo: int, hi: int) -> int {
    if x < lo {
        lo
    } else if x > hi {
        hi
    } else {
        x
    }
}

/// `t` is a fresh table over `ds` and `rows`: the schema's columns (title
/// first, the rest by lowercased name, ties in schema order), cursor at the
/// top, no sort, no filter.
pub open spec fn fresh_table(t: TableView, ds: DataSourceRec, rows: Vec<RowRec>) -> bool {
    &&& t.ds == ds
    &&& t.rows == rows
    &&& t.cursor == 0
    &&& t.sort is None
    &&& t.sort_col == 0
    &&& t.filter is None
    &&& exists|perm: Seq<usize>|
        is_permutation(perm, schema_entries(ds.schema_json).len() as int) && stably_sorted(
            schema_entries(ds.schema_json).map_values(|c: (Seq<char>, Seq<char>)| column_key(c)),
            perm,
        ) && t.columns@.len() == perm.len() && forall|k: int|
            0 <= k < t.columns@.len() ==> column_view(#[trigger] t.columns@[k]) == schema_entries(
                ds.schema_json,
            )[perm[k] as int]
}

/// `n` is `o` sorted by column `col_idx`: ascending, or flipped when that
/// column is already the sorted one; the cursor back at the top.
pub open spec fn sort_toggled(o: TableView, n: TableView, col_idx: usize) -> bool {
    let asc = match o.sort {
        Some((c, a)) => if c == col_idx {
            !a
        } else {
            true
        },
        None => true,
    };
    &&& n.ds == o.ds
    &&& n.columns == o.columns
    &&& n.sort_col == o.sort_col
    &&& n.filter == o.filter
    &&& n.cursor == 0
    &&& sorted_as(o.rows@, o.columns@, Some((col_idx, asc)), n)
}

impl TableView {
    /// A table over `rows` with the columns the data source's schema defines.
    pub fn new(ds: DataSourceRec, rows: Vec<RowRec>) -> (r: TableView)
        ensures
            fresh_table(r, ds, rows),
    {
        let columns = schema_columns(&ds.schema_json);
        TableView { ds, columns, rows, cursor: 0, sort: None, sort_col: 0, filter: None }
    }

    /// The display text of `row` in column `col`.
    pub fn cell(&self, row: &RowRec, col: &Column) -> (r: String)
        ensures
            r@ == row_cell(*row, *col),
    {
        prop_cell_text(&row.properties, col.name.as_str())
    }

    /// Sorts by column `col_idx`: ascending first, flipping direction when
    /// that column is already the sorted one; the cursor returns to the top.
    pub fn toggle_sort(&mut self, col_idx: usize)
        ensures
            sort_toggled(*old(self), *final(self), col_idx),
    {
        let asc = match self.sort {
            Some((c, a)) => if c == col_idx {
                !a
            } else {
                true
            },
            None => true,
        };
        self.sort = Some((col_idx, asc));
        self.apply_sort();
        self.cursor = 0;
    }

    /// Re-applies the current sort (if any) to the rows, leaving the cursor
    /// alone. A sort on a column that no longer exists is dropped.
    pub fn apply_sort(&mut self)
        ensures
            final(self).ds == old(self).ds,
            final(self).columns == old(self).columns,
            final(self).cursor == old(self).cursor,
            final(self).sort_col == old(self).sort_col,
            final(self).filter == old(self).filter,
            sorted_as(old(self).rows@, old(self).columns@, old(self).sort, *final(self)),
    {
        let (col_idx, asc) = match self.sort {
            Some(s) => s,
            None => {
                proof {
                    assert(self.rows@ =~= old(self).rows@);
                }
                return;
            },
        };
        if col_idx >= self.columns.len() {
            self.sort = None;
            return;
        }
        let n = self.rows.len();
        let mut keys: Vec<Vec<char>> = Vec::new();
        let mut i: usize = 0;
        while i < n
            invariant
                n == self.rows@.len(),
                col_idx < self.columns@.len(),
                keys@.len() == i,
                i <= n,
                forall|k: int|
                    0 <= k < i ==> (#[trigger] keys@[k])@ == sort_key(
                        self.rows@[k],
                        self.columns@[col_idx as int],
                    ),
            decreases n - i,
        {
            let text = self.cell(&self.rows[i], &self.columns[col_idx]);
            keys.push(lowercase_chars(text.as_str()));
            i += 1;
        }
        let perm = stable_order(&keys);
        let mut order: Vec<usize> = Vec::new();
        let mut k: usize = 0;
        while k < n
            invariant
                k <= n,
                perm@.len() == n,
                order@.len() == k,
                forall|q: int| 0 <= q < k ==> order@[q] == if asc {
                    perm@[q]
                } else {
                    perm@[n - 1 - q]
                },
            decreases n - k,
        {
            order.push(if asc { perm[k] } else { perm[n - 1 - k] });
            k += 1;
        }
        let ghost ks = keys@.map_values(|k: Vec<char>| k@);
        proof {
            assert(ks =~= old(self).rows@.map_values(
                |r: RowRec| sort_key(r, old(self).columns@[col_idx as int]),
            ));
            if asc {
                assert(order@ =~= perm@);
            } else {
                assert(order@ =~= reversed(perm@));
            }
            assert(is_permutation(order@, n as int)) by {
                assert forall|a: int, b: int| 0 <= a < b < order@.len() implies order@[a] != order@[b] by {
                    if !asc {
                        assert(perm@[n - 1 - a] != perm@[n - 1 - b]);
                    }
                }
            }
        }
        let mut rows: Vec<RowRec> = Vec::new();
        std::mem::swap(&mut rows, &mut self.rows);
        self.rows = take_in_order(rows, &order);
        proof {
            assert(sorted_as(old(self).rows@, old(self).columns@, old(self).sort, *self)) by {
                assert(is_permutation(perm@, n as int));
                assert(stably_sorted(ks, perm@));
            }
        }
    }

    fn matches_filter(&self, row: &RowRec) -> (r: bool)
        ensures
            r == passes(self.filter, self.columns@, *row),
    {
        let f = match &self.filter {
            None => return true,
            Some(f) => f,
        };
        let q = lowercase_chars(f.query.as_str());
        match f.col {
            Some(i) => {
                if i < self.columns.len() {
                    let text = self.cell(row, &self.columns[i]);
                    contains_chars(&lowercase_chars(text.as_str()), &q)
                } else {
                    true
                }
            },
            None => {
                let mut c: usize = 0;
                while c < self.columns.len()
                    invariant
                        c <= self.columns@.len(),
                        self.filter == Some(*f),
                        f.col is None,
                        q@ == spec_lowercase(f.query@),
                        forall|d: int|
                            0 <= d < c ==> !(#[trigger] find(
                                spec_lowercase(row_cell(*row, self.columns@[d])),
                                q@,
                            ) is Some),
                    decreases self.columns@.len() - c,
                {
                    let text = self.cell(row, &self.columns[c]);
                    if contains_chars(&lowercase_chars(text.as_str()), &q) {
                        return true;
                    }
                    c += 1;
                }
                false
            },
        }
    }

    /// The rows actually shown: the rows (in their sorted order) that pass
    /// the active filter, if any.
    pub fn visible(&self) -> (r: Vec<&RowRec>)
        ensures
            r@.len() == shown(*self).len(),
            forall|k: int| 0 <= k < r@.len() ==> *r@[k] == self.rows@[#[trigger] shown(*self)[k]],
    {
        let mut out: Vec<&RowRec> = Vec::new();
        let mut i: usize = 0;
        while i < self.rows.len()
            invariant
                i <= self.rows@.len(),
                out@.len() == shown_upto(*self, i as int).len(),
                forall|k: int|
                    0 <= k < out@.len() ==> *out@[k] == self.rows@[#[trigger] shown_upto(
                        *self,
                        i as int,
                    )[k]],
            decreases self.rows@.len() - i,
        {
            if self.matches_filter(&self.rows[i]) {
                out.push(&self.rows[i]);
            }
            i += 1;
        }
        out
    }

    /// Position of the row with id `id` among the shown rows, if shown.
    pub fn rows_iter_position(&self, id: &str) -> (r: Option<usize>)
        ensures
            match r {
                Some(k) => k < shown(*self).len() && self.rows@[shown(*self)[k as int]].id@ == id@
                    && forall|j: int| 0 <= j < k ==> self.rows@[#[trigger] shown(*self)[j]].id@ != id@,
                None => forall|j: int|
                    0 <= j < shown(*self).len() ==> self.rows@[#[trigger] shown(*self)[j]].id@ != id@,
            },
    {
        let vis = self.visible();
        let mut k: usize = 0;
        while k < vis.len()
            invariant
                k <= vis@.len(),
                vis@.len() == shown(*self).len(),
                forall|q: int| 0 <= q < vis@.len() ==> *vis@[q] == self.rows@[#[trigger] shown(*self)[q]],
                forall|j: int| 0 <= j < k ==> self.rows@[#[trigger] shown(*self)[j]].id@ != id@,
            decreases vis@.len() - k,
        {
            if str_eq(vis[k].id.as_str(), id) {
                return Some(k);
            }
            k += 1;
        }
        None
    }

    /// Number of rows shown.
    pub fn row_count(&self) -> (r: usize)
        ensures
            r == shown(*self).len(),
    {
        self.visible().len()
    }

    /// Moves the cursor by `delta` rows, clamped to the shown rows; nothing
    /// happens when no row is shown.
    pub fn move_cursor(&mut self, delta: isize)
        ensures
            *final(self) == (TableView {
                cursor: if shown(*old(self)).len() == 0 {
                    old(self).cursor
                } else {
                    clamp(old(self).cursor + delta, 0, shown(*old(self)).len() - 1) as usize
                },
                ..*old(self)
            }),
    {
        let len = self.row_count();
        if len == 0 {
            return;
        }
        let target: i128 = self.cursor as i128 + delta as i128;
        let hi: i128 = len as i128 - 1;
        self.cursor = if target < 0 {
            0
        } else if target > hi {
            (len - 1) as usize
        } else {
            target as usize
        };
    }

    /// The id of the row under the cursor, if any.
    pub fn selected_row_id(&self) -> (r: Option<String>)
        ensures
            match r {
                Some(id) => self.cursor < shown(*self).len() && id@ == self.rows@[shown(
                    *self,
                )[self.cursor as int]].id@,
                None => self.cursor >= shown(*self).len(),
            },
    {
        let vis = self.visible();
        if self.cursor < vis.len() {
            Some(vis[self.cursor].id.clone())
        } else {
            None
        }
    }
}

/// `v`'s rows are `rows` ordered by `sort`: stably by the lowercased text of
/// the sorted column (reversed for descending), unchanged without a sort,
/// and unchanged (with the sort dropped) when the column does not exist.
pub open spec fn sorted_as(
    rows: Seq<RowRec>,
    columns: Seq<Column>,
    sort: Option<(usize, bool)>,
    v: TableView,
) -> bool {
    match sort {
        None => v.rows@ == rows && v.sort is None,
        Some((c, asc)) => if c >= columns.len() {
            v.rows@ == rows && v.sort is None
        } else {
            v.sort == sort && exists|perm: Seq<usize>|
                is_permutation(perm, rows.len() as int) && stably_sorted(
                    rows.map_values(|r: RowRec| sort_key(r, columns[c as int])),
                    perm,
                ) && v.rows@.len() == rows.len() && forall|k: int|
                    0 <= k < rows.len() ==> #[trigger] v.rows@[k] == rows[(if asc {
                        perm[k]
                    } else {
                        perm[rows.len() - 1 - k]
                    }) as int]
        },
    }
}

/// A sorted table is in order of its rows' lowercased cells in the sorted
/// column: ascending, no row's lowercased cell sorts before that of a row
/// above it, and rows whose lowercased cells are equal keep their input
/// order; descending, the other way round.
pub proof fn law_sort_orders_by_lowercased_cell(
    rows: Seq<RowRec>,
    columns: Seq<Column>,
    c: usize,
    asc: bool,
    v: TableView,
    a: int,
    b: int,
)
    requires
        sorted_as(rows, columns, Some((c, asc)), v),
        c < columns.len(),
        0 <= a < b < v.rows@.len(),
    ensures
        asc ==> !crate::order::seq_lt(
            spec_lowercase(row_cell(v.rows@[b], columns[c as int])),
            spec_lowercase(row_cell(v.rows@[a], columns[c as int])),
        ),
        !asc ==> !crate::order::seq_lt(
            spec_lowercase(row_cell(v.rows@[a], columns[c as int])),
            spec_lowercase(row_cell(v.rows@[b], columns[c as int])),
        ),
        v.rows@.len() == rows.len(),
        exists|i: int, j: int|
            0 <= i < rows.len() && 0 <= j < rows.len() && i != j && v.rows@[a] == rows[i] && v.rows@[b] == rows[j]
                && (asc && spec_lowercase(row_cell(rows[i], columns[c as int])) == spec_lowercase(
                row_cell(rows[j], columns[c as int]),
            ) ==> i < j),
{
    let col = columns[c as int];
    let keys = rows.map_values(|r: RowRec| sort_key(r, columns[c as int]));
    let perm = choose|perm: Seq<usize>|
        is_permutation(perm, rows.len() as int) && stably_sorted(
            rows.map_values(|r: RowRec| sort_key(r, columns[c as int])),
            perm,
        ) && v.rows@.len() == rows.len() && forall|k: int|
            0 <= k < rows.len() ==> #[trigger] v.rows@[k] == rows[(if asc {
                perm[k]
            } else {
                perm[rows.len() - 1 - k]
            }) as int];
    let n = rows.len() as int;
    assert(v.rows@[a] == rows[(if asc { perm[a] } else { perm[n - 1 - a] }) as int]);
    assert(v.rows@[b] == rows[(if asc { perm[b] } else { perm[n - 1 - b] }) as int]);
    if asc {
        assert(keys[perm[a] as int] == spec_lowercase(row_cell(rows[perm[a] as int], col)));
        assert(keys[perm[b] as int] == spec_lowercase(row_cell(rows[perm[b] as int], col)));
        assert(perm[a] != perm[b]);
        assert(stably_sorted(keys, perm));
        assert(!crate::order::seq_lt(keys[perm[b] as int], keys[perm[a] as int]));
        assert(keys[perm[a] as int] == keys[perm[b] as int] ==> perm[a] < perm[b]);
    } else {
        let i = n - 1 - b;
        let j = n - 1 - a;
        assert(0 <= i < j < n);
        assert(keys[perm[i] as int] == spec_lowercase(row_cell(rows[perm[i] as int], col)));
        assert(keys[perm[j] as int] == spec_lowercase(row_cell(rows[perm[j] as int], col)));
        assert(perm[i] != perm[j]);
    }
    let wi = (if asc { perm[a] } else { perm[n - 1 - a] }) as int;
    let wj = (if asc { perm[b] } else { perm[n - 1 - b] }) as int;
    assert(0 <= wi < n && 0 <= wj < n && wi != wj);
    assert(keys[wi] == spec_lowercase(row_cell(rows[wi], col)));
    assert(keys[wj] == spec_lowercase(row_cell(rows[wj], col)));
    assert(v.rows@[a] == rows[wi]);
    assert(v.rows@[b] == rows[wj]);
    assert(asc && keys[wi] == keys[wj] ==> wi < wj);
    assert(0 <= wi < rows.len() && 0 <= wj < rows.len() && wi != wj && v.rows@[a] == rows[wi] && v.rows@[b]
        == rows[wj] && (asc && spec_lowercase(row_cell(rows[wi], columns[c as int])) == spec_lowercase(
        row_cell(rows[wj], columns[c as int]),
    ) ==> wi < wj));
}

/// A free-text filter shows a row exactly when the lowercased query occurs
/// in the lowercased cell of some column, whichever column that is.
pub proof fn law_free_text_filter_searches_every_column(query: String, columns: Seq<Column>, row: RowRec, c: int)
    requires
        0 <= c < columns.len(),
    ensures
        find(spec_lowercase(row_cell(row, columns[c])), spec_lowercase(query@)) is Some ==> passes(
            Some(FilterState { col: None, query: query }),
            columns,
            row,
        ),
        passes(Some(FilterState { col: None, query: query }), columns, row) ==> exists|d: int|
            0 <= d < columns.len() && find(spec_lowercase(row_cell(row, columns[d])), spec_lowercase(query@)) is Some,
{
}

/// A filter on an existing column shows a row exactly when the lowercased
/// query occurs in that column's lowercased cell, whatever the other
/// columns hold.
pub proof fn law_column_filter_searches_its_column(query: String, columns: Seq<Column>, row: RowRec, i: usize)
    requires
        i < columns.len(),
    ensures
        passes(Some(FilterState { col: Some(i), query: query }), columns, row) == (find(
            spec_lowercase(row_cell(row, columns[i as int])),
            spec_lowercase(query@),
        ) is Some),
{
}

/// How wide a table column is drawn: at least, or exactly, so many cells.
#[derive(Clone, Copy, Debug, PartialEq, Eq, Structural)]
pub enum WidthRule {
    Min(u16),
    Length(u16),
}

/// The width of a column of type `prop_type`: the title column takes the
/// rest of the row (at least 20 cells); checkboxes, numbers and dates are
/// narrow; links and e-mail addresses wide.
pub open spec fn constraint_spec(prop_type: Seq<char>, is_title: bool) -> WidthRule {
    if is_title {
        WidthRule::Min(20)
    } else if prop_type == "checkbox"@ {
        WidthRule::Length(6)
    } else if prop_type == "number"@ {
        WidthRule::Length(10)
    } else if prop_type == "date"@ {
        WidthRule::Length(12)
    } else if prop_type == "url"@ || prop_type == "email"@ {
        WidthRule::Length(28)
    } else {
        WidthRule::Length(14)
    }
}

/// The width rule of column `col`.
pub fn column_constraint(col: &Column, is_title: bool) -> (r: WidthRule)
    ensures
        r == constraint_spec(col.prop_type@, is_title),
{
    if is_title {
        return WidthRule::Min(20);
    }
    let t = col.prop_type.as_str();
    if str_eq(t, "checkbox") {
        WidthRule::Length(6)
    } else if str_eq(t, "number") {
        WidthRule::Length(10)
    } else if str_eq(t, "date") {
        WidthRule::Length(12)
    } else if str_eq(t, "url") || str_eq(t, "email") {
        WidthRule::Length(28)
    } else {
        WidthRule::Length(14)
    }
}

/// The widths of `n` table columns: the first takes at least 20 cells, the
/// others 14.
pub open spec fn widths_spec(n: int) -> Seq<WidthRule> {
    Seq::new(n as nat, |i: int| if i == 0 {
        WidthRule::Min(20)
    } else {
        WidthRule::Length(14)
    })
}

/// The widths the table's columns are drawn with.
pub fn column_widths(columns: &Vec<Column>) -> (r: Vec<WidthRule>)
    ensures
        r@ == widths_spec(columns@.len() as int),
{
    let mut r: Vec<WidthRule> = Vec::new();
    let mut i: usize = 0;
    while i < columns.len()
        invariant
            i <= columns@.len(),
            r@ == widths_spec(columns@.len() as int).take(i as int),
        decreases columns@.len() - i,
    {
        r.push(if i == 0 {
            WidthRule::Min(20)
        } else {
            WidthRule::Length(14)
        });
        i += 1;
        proof {
            assert(r@ =~= widths_spec(columns@.len() as int).take(i as int));
        }
    }
    proof {
        assert(widths_spec(columns@.len() as int).take(columns@.len() as int) =~= widths_spec(columns@.len() as int));
    }
    r
}

/// The header label of column `i` named `name`: an arrow follows the name
/// when the table is sorted by that column (▲ ascending, ▼ descending), and
/// the label is bracketed when the sort key sits on that column.
pub open spec fn header_label(name: Seq<char>, sort: Option<(usize, bool)>, sort_col: usize, i: int) -> Seq<char> {
    let n = match sort {
        Some((sc, asc)) => if sc == i {
            name + if asc {
                " ▲"@
            } else {
                " ▼"@
            }
        } else {
            name
        },
        None => name,
    };
    if i == sort_col {
        "["@ + n + "]"@
    } else {
        n
    }
}

/// The header labels of the table's columns.
pub fn header_labels(columns: &Vec<Column>, sort: Option<(usize, bool)>, sort_col: usize) -> (r: Vec<String>)
    ensures
        r@.len() == columns@.len(),
        forall|i: int| 0 <= i < columns@.len() ==> #[trigger] r@[i]@ == header_label(columns@[i].name@, sort, sort_col, i),
{
    let mut r: Vec<String> = Vec::new();
    let mut i: usize = 0;
    while i < columns.len()
        invariant
            i <= columns@.len(),
            r@.len() == i,
            forall|j: int| 0 <= j < i ==> #[trigger] r@[j]@ == header_label(columns@[j].name@, sort, sort_col, j),
        decreases columns@.len() - i,
    {
        let mut name = String::new();
        push_str(&mut name, columns[i].name.as_str());
        match sort {
            Some((sc, asc)) => {
                if sc == i {
                    push_str(&mut name, if asc {
                        " ▲"
                    } else {
                        " ▼"
                    });
                }
            },
            None => {},
        }
        let label = if i == sort_col {
            let mut s = String::new();
            push_str(&mut s, "[");
            push_str(&mut s, name.as_str());
            push_str(&mut s, "]");
            s
        } else {
            name
        };
        r.push(label);
        i += 1;
    }
    r
}

/// The cells a column of width rule `w` takes when its width is fixed.
pub open spec fn fixed_len(w: WidthRule) -> int {
    match w {
        WidthRule::Length(n) => n as int,
        WidthRule::Min(_) => 0,
    }
}

/// The cells the fixed-width columns take together.
pub open spec fn fixed_total(ws: Seq<WidthRule>) -> int
    decreases ws.len(),
{
    if ws.len() == 0 {
        0
    } else {
        fixed_total(ws.drop_last()) + fixed_len(ws.last())
    }
}

proof fn lemma_fixed_total_prefix(ws: Seq<WidthRule>, j: int)
    requires
        0 <= j <= ws.len(),
    ensures
        0 <= fixed_total(ws.take(j)) <= fixed_total(ws),
    decreases ws.len(),
{
    if j < ws.len() {
        lemma_fixed_total_prefix(ws.drop_last(), j);
        assert(ws.drop_last().take(j) =~= ws.take(j));
    } else {
        assert(ws.take(j) =~= ws);
    }
    if ws.len() > 0 {
        lemma_fixed_total_prefix(ws.drop_last(), ws.len() - 1);
        assert(ws.drop_last().take(ws.len() - 1) =~= ws.drop_last());
    }
}

/// `a - b`, or 0 when `b` is larger.
pub open spec fn minus_or_zero(a: int, b: int) -> int {
    if a > b {
        a - b
    } else {
        0
    }
}

/// The cells left for the title column in a table `width` cells wide: the
/// width less the two borders, the one-cell gaps between columns (their
/// count taken as a `u16`) and the fixed columns, and at least 20.
pub open spec fn title_budget(width: int, ws: Seq<WidthRule>) -> int {
    let gaps = if ws.len() == 0 {
        0
    } else {
        (ws.len() - 1) % 65536
    };
    let left = minus_or_zero(minus_or_zero(minus_or_zero(width, 2), gaps), fixed_total(ws));
    if left < 20 {
        20
    } else {
        left
    }
}

/// How many cells each column's text may take before it is cut with an
/// ellipsis: a fixed column its own width, the title column what is left
/// (`title_budget`). `None` where the fixed widths add up past what a `u16`
/// holds.
pub fn cell_budgets(width: u16, widths: &Vec<WidthRule>) -> (r: Option<Vec<u16>>)
    ensures
        r is None <==> fixed_total(widths@) > u16::MAX,
        r matches Some(b) ==> b@.len() == widths@.len() && forall|i: int|
            0 <= i < widths@.len() ==> #[trigger] b@[i] as int == match widths@[i] {
                WidthRule::Length(n) => n as int,
                WidthRule::Min(_) => title_budget(width as int, widths@),
            },
{
    let mut fixed: u32 = 0;
    let mut i: usize = 0;
    while i < widths.len()
        invariant
            i <= widths@.len(),
            fixed as int == fixed_total(widths@.take(i as int)),
            fixed <= u16::MAX,
        decreases widths@.len() - i,
    {
        proof {
            assert(widths@.take(i + 1).drop_last() =~= widths@.take(i as int));
        }
        match widths[i] {
            WidthRule::Length(n) => {
                fixed = fixed + n as u32;
            },
            WidthRule::Min(_) => {},
        }
        i += 1;
        if fixed > 65535 {
            proof {
                lemma_fixed_total_prefix(widths@, i as int);
            }
            return None;
        }
    }
    proof {
        assert(widths@.take(widths@.len() as int) =~= widths@);
    }
    let gaps: u16 = if widths.len() == 0 {
        0
    } else {
        ((widths.len() - 1) % 65536) as u16
    };
    let fixed16: u16 = fixed as u16;
    let w1: u16 = if width > 2 {
        width - 2
    } else {
        0
    };
    let w2: u16 = if w1 > gaps {
        w1 - gaps
    } else {
        0
    };
    let w3: u16 = if w2 > fixed16 {
        w2 - fixed16
    } else {
        0
    };
    let title: u16 = if w3 < 20 {
        20
    } else {
        w3
    };
    assert(title as int == title_budget(width as int, widths@));
    let mut b: Vec<u16> = Vec::new();
    let mut k: usize = 0;
    while k < widths.len()
        invariant
            k <= widths@.len(),
            b@.len() == k,
            title as int == title_budget(width as int, widths@),
            forall|j: int|
                0 <= j < k ==> #[trigger] b@[j] as int == match widths@[j] {
                    WidthRule::Length(n) => n as int,
                    WidthRule::Min(_) => title_budget(width as int, widths@),
                },
        decreases widths@.len() - k,
    {
        let v = match widths[k] {
            WidthRule::Length(n) => n,
            WidthRule::Min(_) => title,
        };
        b.push(v);
        k += 1;
    }
    Some(b)
}

/// Where the terminal layout solver starts each of the columns with widths
/// `widths` across `area` (left to right).
pub uninterp spec fn layout_starts(area: crate::ui::Area, widths: Seq<WidthRule>) -> Seq<u16>;

/// Splits `area` horizontally by `widths` with ratatui's `Layout::split`
/// and returns the x of each part: one per width, as the layout solver
/// places them.
#[verifier::external_body]
fn split_starts(area: crate::ui::Area, widths: &Vec<WidthRule>) -> (r: Vec<u16>)
    ensures
        r@ == layout_starts(area, widths@),
        r@.len() == widths@.len(),
{
    let rect = ratatui::layout::Rect { x: area.x, y: area.y, width: area.width, height: area.height };
    let cs: Vec<ratatui::layout::Constraint> = widths.iter().map(|w| match *w {
        WidthRule::Min(n) => ratatui::layout::Constraint::Min(n),
        WidthRule::Length(n) => ratatui::layout::Constraint::Length(n),
    }).collect();
    let layout = ratatui::layout::Layout::default().direction(ratatui::layout::Direction::Horizontal).constraints(cs);
    layout.split(rect).iter().map(|r| r.x).collect()
}

/// The row inside the border of a table drawn in `area`.
pub open spec fn header_row(area: crate::ui::Area) -> crate::ui::Area {
    crate::ui::Area {
        x: if area.x < u16::MAX {
            (area.x + 1) as u16
        } else {
            u16::MAX
        },
        y: if area.y < u16::MAX {
            (area.y + 1) as u16
        } else {
            u16::MAX
        },
        width: if area.width >= 2 {
            (area.width - 2) as u16
        } else {
            0
        },
        height: 1,
    }
}

/// x-coordinate where each column of a table drawn in `area` starts, for
/// matching header clicks: the same split of the row inside the border that
/// drawing the table makes.
pub fn column_x_starts(area: crate::ui::Area, columns: &Vec<Column>) -> (r: Vec<u16>)
    ensures
        r@ == layout_starts(header_row(area), widths_spec(columns@.len() as int)),
        r@.len() == columns@.len(),
{
    let inner = crate::ui::Area {
        x: area.x.saturating_add(1),
        y: area.y.saturating_add(1),
        width: if area.width >= 2 {
            area.width - 2
        } else {
            0
        },
        height: 1,
    };
    let widths = column_widths(columns);
    split_starts(inner, &widths)
}

} // verus!
