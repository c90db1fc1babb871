//! Human-readable descriptions of queued edits for the queue view.
//!
//! Describing an op reads a few records of the local copy. `op_lookups`
//! names them; the caller fetches them into `OpFacts`; `describe_op` then
//! writes the description.
use vstd::prelude::*;
use crate::json::{get_spec, str_field, str_or_empty, str_spec, Json};
use crate::records::OpRec;
use crate::text::{chars_of, push_char, push_str, str_eq, string_of, string_of_range};
use crate::ui::table::{cell_spec, cell_text};

verus! {

broadcast use vstd::string::group_string_axioms;

/// A human-readable rendering of a pending op. `summary` is what the queue
/// shows; the other fields feed the conflict detail view.
pub struct OpDescription {
    /// One-line summary, e.g. "edit ¶ in 'Meeting Notes'" or "set Status on 'Q3 Launch'".
    pub summary: String,
    /// Title of the page / row / comment parent the op targets, when known locally.
    pub target_title: Option<String>,
    /// The property name (row ops), block-text snippet (block ops), or comment-body snippet.
    pub detail: Option<String>,
}

/// The records describing an op needs: a page (by id), a block of that
/// page, a data source and a row.
pub struct OpLookups {
    pub page_id: Option<String>,
    pub block_id: Option<String>,
    pub data_source_id: Option<String>,
    pub row_id: Option<String>,
}

/// What the local copy holds for the lookups: the page's title, the block's
/// plain text, the data source's title, and the row's parsed properties.
/// Each is `None` when the record is absent (or its properties do not parse).
pub struct OpFacts {
    pub page_title: Option<String>,
    pub block_text: Option<String>,
    pub data_source_title: Option<String>,
    pub row_properties: Option<Json>,
}

pub open spec fn opt_text(o: Option<String>) -> Option<Seq<char>> {
    match o {
        Some(s) => Some(s@),
        None => None,
    }
}

/// An id cut to its first 8 characters, with '…' when longer.
pub open spec fn short_id_spec(id: Seq<char>) -> Seq<char> {
    if id.len() > 8 {
        id.take(8).push('…')
    } else {
        id
    }
}

/// A text cut to its first 24 characters, with '…' when longer; none for
/// the empty text.
pub open spec fn snippet_spec(text: Seq<char>) -> Option<Seq<char>> {
    if text.len() == 0 {
        None
    } else if text.len() > 24 {
        Some(text.take(24).push('…'))
    } else {
        Some(text)
    }
}

/// The first `n` characters of `v`, with '…' when `v` is longer.
fn cut(v: &Vec<char>, n: usize) -> (r: String)
    ensures
        r@ == (if v@.len() > n {
            v@.take(n as int).push('…')
        } else {
            v@
        }),
{
    if v.len() > n {
        let mut s = string_of_range(v, 0, n);
        push_char(&mut s, '…');
        proof {
            assert(v@.subrange(0, n as int) =~= v@.take(n as int));
        }
        s
    } else {
        string_of(v)
    }
}

/// `id` shortened for display.
pub fn short_id(id: &str) -> (r: String)
    ensures
        r@ == short_id_spec(id@),
{
    cut(&chars_of(id), 8)
}

/// The start of `text` for display, or none when it is empty.
pub fn snippet(text: &str) -> (r: Option<String>)
    ensures
        opt_text(r) == snippet_spec(text@),
{
    let v = chars_of(text);
    if v.len() == 0 {
        None
    } else {
        Some(cut(&v, 24))
    }
}

/// The value of the first property (in map order) whose type is "title".
pub open spec fn first_title(m: Seq<(String, Json)>) -> Option<Json>
    decreases m.len(),
{
    if m.len() == 0 {
        None
    } else if str_spec(get_spec(m[0].1, "type"@)) == Some("title"@) {
        Some(m[0].1)
    } else {
        first_title(m.skip(1))
    }
}

/// The title a row's properties show, when there is a non-empty one.
pub open spec fn title_from_props_spec(props: Option<Json>) -> Option<Seq<char>> {
    match props {
        Some(Json::Object(m)) => match first_title(m@) {
            Some(p) => if cell_spec(p).len() > 0 {
                Some(cell_spec(p))
            } else {
                None
            },
            None => None,
        },
        _ => None,
    }
}

fn title_from_props(props: Option<&Json>) -> (r: Option<String>)
    ensures
        opt_text(r) == title_from_props_spec(crate::json::deref_opt(props)),
{
    let m = match props {
        Some(Json::Object(m)) => m,
        _ => return None,
    };
    let mut i: usize = 0;
    assert(m@.skip(0) =~= m@);
    while i < m.len()
        invariant
            i <= m@.len(),
            crate::json::deref_opt(props) == Some(Json::Object(*m)),
            first_title(m@) == first_title(m@.skip(i as int)),
        decreases m@.len() - i,
    {
        proof {
            assert(m@.skip(i as int)[0] == m@[i as int]);
            assert(m@.skip(i as int).skip(1) =~= m@.skip(i + 1));
        }
        let is_title = match m[i].1.get("type") {
            Some(Json::Str(t)) => str_eq(t.as_str(), "title"),
            _ => false,
        };
        if is_title {
            let t = cell_text(&m[i].1);
            return if !t.as_str().is_empty() {
                Some(t)
            } else {
                None
            };
        }
        i += 1;
    }
    assert(m@.skip(i as int).len() == 0);
    None
}

/// The key of the first entry of an object, if it is a non-empty object.
pub open spec fn first_key(v: Option<Json>) -> Option<Seq<char>> {
    match v {
        Some(Json::Object(m)) => if m@.len() > 0 {
            Some(m@[0].0@)
        } else {
            None
        },
        _ => None,
    }
}

/// Ops that edit a page's blocks.
pub open spec fn is_block_op(t: Seq<char>) -> bool {
    t == "update_block"@ || t == "append_block"@ || t == "delete_block"@ || t == "reorder_block"@
}

/// Which records describing an op of type `t` on `target` with `payload` needs.
pub open spec fn lookups_spec(t: Seq<char>, target: Seq<char>, payload: Json) -> (
    Option<Seq<char>>,
    Option<Seq<char>>,
    Option<Seq<char>>,
    Option<Seq<char>>,
) {
    if is_block_op(t) {
        (Some(str_or_empty(get_spec(payload, "page_id"@))), Some(target), None, None)
    } else if t == "create_row"@ {
        (None, None, Some(str_or_empty(get_spec(payload, "data_source_id"@))), None)
    } else if t == "update_row"@ || t == "delete_row"@ || t == "restore_row"@ {
        (None, None, None, Some(target))
    } else if t == "create_comment"@ {
        let parent = str_or_empty(get_spec(payload, "parent_id"@));
        (Some(parent), None, None, Some(parent))
    } else {
        (Some(target), None, None, None)
    }
}

/// The records describing `op` needs from the local copy.
pub fn op_lookups(op: &OpRec) -> (r: OpLookups)
    ensures
        (opt_text(r.page_id), opt_text(r.block_id), opt_text(r.data_source_id), opt_text(r.row_id))
            == lookups_spec(op.op_type@, op.target_id@, op.payload),
{
    let t = op.op_type.as_str();
    if str_eq(t, "update_block") || str_eq(t, "append_block") || str_eq(t, "delete_block")
        || str_eq(t, "reorder_block") {
        OpLookups {
            page_id: Some(str_field(&op.payload, "page_id").to_owned()),
            block_id: Some(op.target_id.clone()),
            data_source_id: None,
            row_id: None,
        }
    } else if str_eq(t, "create_row") {
        OpLookups {
            page_id: None,
            block_id: None,
            data_source_id: Some(str_field(&op.payload, "data_source_id").to_owned()),
            row_id: None,
        }
    } else if str_eq(t, "update_row") || str_eq(t, "delete_row") || str_eq(t, "restore_row") {
        OpLookups { page_id: None, block_id: None, data_source_id: None, row_id: Some(op.target_id.clone()) }
    } else if str_eq(t, "create_comment") {
        let parent = str_field(&op.payload, "parent_id");
        OpLookups {
            page_id: Some(parent.to_owned()),
            block_id: None,
            data_source_id: None,
            row_id: Some(parent.to_owned()),
        }
    } else {
        OpLookups { page_id: Some(op.target_id.clone()), block_id: None, data_source_id: None, row_id: None }
    }
}

/// `t` with underscores shown as spaces.
pub open spec fn spaced(t: Seq<char>) -> Seq<char> {
    t.map_values(|c: char| if c == '_' { ' ' } else { c })
}

/// `o`, or `d` when absent.
pub open spec fn or_else(o: Option<Seq<char>>, d: Seq<char>) -> Seq<char> {
    match o {
        Some(x) => x,
        None => d,
    }
}

/// The description of an op of type `t` on `target` with `payload`, given
/// what the local copy holds (`page`, `block`, `ds` titles/texts and the
/// row's properties): `(summary, target title, detail)`.
pub open spec fn describe_spec(
    t: Seq<char>,
    target: Seq<char>,
    payload: Json,
    page: Option<Seq<char>>,
    block: Option<Seq<char>>,
    ds: Option<Seq<char>>,
    row: Option<Json>,
) -> (Seq<char>, Option<Seq<char>>, Option<Seq<char>>) {
    if is_block_op(t) {
        let verb = if t == "update_block"@ {
            "edit"@
        } else if t == "append_block"@ {
            "add"@
        } else if t == "delete_block"@ {
            "delete"@
        } else {
            "move"@
        };
        let shown = or_else(page, short_id_spec(str_or_empty(get_spec(payload, "page_id"@))));
        (
            verb + " ¶ in '"@ + shown + "'"@,
            page,
            match block {
                Some(b) => snippet_spec(b),
                None => None,
            },
        )
    } else if t == "create_row"@ {
        let title = title_from_props_spec(get_spec(payload, "properties"@));
        let ds_title = or_else(ds, short_id_spec(str_or_empty(get_spec(payload, "data_source_id"@))));
        ("add row '"@ + or_else(title, "untitled"@) + "' to '"@ + ds_title + "'"@, title, None)
    } else if t == "update_row"@ {
        let title = title_from_props_spec(row);
        let shown = or_else(title, short_id_spec(target));
        let prop = first_key(get_spec(payload, "properties"@));
        (
            match prop {
                Some(p) => "set "@ + p + " on '"@ + shown + "'"@,
                None => "edit '"@ + shown + "'"@,
            },
            title,
            prop,
        )
    } else if t == "delete_row"@ || t == "restore_row"@ {
        let title = title_from_props_spec(row);
        let verb = if t == "delete_row"@ {
            "delete"@
        } else {
            "restore"@
        };
        (verb + " row '"@ + or_else(title, short_id_spec(target)) + "'"@, title, None)
    } else if t == "create_comment"@ {
        let parent = str_or_empty(get_spec(payload, "parent_id"@));
        let title = match page {
            Some(p) => Some(p),
            None => title_from_props_spec(row),
        };
        (
            "comment on '"@ + or_else(title, short_id_spec(parent)) + "'"@,
            title,
            match str_spec(get_spec(payload, "body"@)) {
                Some(b) => snippet_spec(b),
                None => None,
            },
        )
    } else {
        (spaced(t) + " on '"@ + or_else(page, short_id_spec(target)) + "'"@, page, None)
    }
}

/// `o`'s text, or `d` shortened as an id.
fn or_short_id(o: &Option<String>, d: &str) -> (r: String)
    ensures
        r@ == or_else(opt_text(*o), short_id_spec(d@)),
{
    match o {
        Some(x) => x.clone(),
        None => short_id(d),
    }
}

/// `a`, `b`, `c` and `d` one after another.
fn four(a: &str, b: &str, c: &str, d: &str) -> (r: String)
    ensures
        r@ == a@ + b@ + c@ + d@,
{
    let mut s = String::new();
    push_str(&mut s, a);
    push_str(&mut s, b);
    push_str(&mut s, c);
    push_str(&mut s, d);
    s
}

fn clone_opt(o: &Option<String>) -> (r: Option<String>)
    ensures
        opt_text(r) == opt_text(*o),
{
    match o {
        Some(x) => Some(x.clone()),
        None => None,
    }
}

/// Describes `op` from what the local copy holds for `op_lookups(op)`.
pub fn describe_op(op: &OpRec, facts: &OpFacts) -> (r: OpDescription)
    ensures
        (r.summary@, opt_text(r.target_title), opt_text(r.detail)) == describe_spec(
            op.op_type@,
            op.target_id@,
            op.payload,
            opt_text(facts.page_title),
            opt_text(facts.block_text),
            opt_text(facts.data_source_title),
            facts.row_properties,
        ),
{
    proof {
        reveal_strlit("");
        assert(""@ =~= Seq::<char>::empty());
    }
    let t = op.op_type.as_str();
    let payload = &op.payload;
    if str_eq(t, "update_block") || str_eq(t, "append_block") || str_eq(t, "delete_block")
        || str_eq(t, "reorder_block") {
        let verb = if str_eq(t, "update_block") {
            "edit"
        } else if str_eq(t, "append_block") {
            "add"
        } else if str_eq(t, "delete_block") {
            "delete"
        } else {
            "move"
        };
        let shown = or_short_id(&facts.page_title, str_field(payload, "page_id"));
        OpDescription {
            summary: four(verb, " ¶ in '", shown.as_str(), "'"),
            target_title: clone_opt(&facts.page_title),
            detail: match &facts.block_text {
                Some(b) => snippet(b.as_str()),
                None => None,
            },
        }
    } else if str_eq(t, "create_row") {
        let title = title_from_props(payload.get("properties"));
        let ds_title = or_short_id(&facts.data_source_title, str_field(payload, "data_source_id"));
        let mut summary = String::new();
        push_str(&mut summary, "add row '");
        match &title {
            Some(x) => push_str(&mut summary, x.as_str()),
            None => push_str(&mut summary, "untitled"),
        }
        push_str(&mut summary, "' to '");
        push_str(&mut summary, ds_title.as_str());
        push_str(&mut summary, "'");
        OpDescription { summary, target_title: title, detail: None }
    } else if str_eq(t, "update_row") {
        let title = title_from_props(facts.row_properties.as_ref());
        let shown = or_short_id(&title, op.target_id.as_str());
        let prop = match payload.get("properties") {
            Some(Json::Object(m)) => if m.len() > 0 {
                Some(m[0].0.clone())
            } else {
                None
            },
            _ => None,
        };
        let summary = match &prop {
            Some(p) => {
                let mut s = four("set ", p.as_str(), " on '", shown.as_str());
                push_str(&mut s, "'");
                s
            },
            None => four("edit '", shown.as_str(), "'", ""),
        };
        OpDescription { summary, target_title: title, detail: prop }
    } else if str_eq(t, "delete_row") || str_eq(t, "restore_row") {
        let title = title_from_props(facts.row_properties.as_ref());
        let verb = if str_eq(t, "delete_row") {
            "delete"
        } else {
            "restore"
        };
        let shown = or_short_id(&title, op.target_id.as_str());
        OpDescription { summary: four(verb, " row '", shown.as_str(), "'"), target_title: title, detail: None }
    } else if str_eq(t, "create_comment") {
        let parent = str_field(payload, "parent_id");
        let title = match &facts.page_title {
            Some(p) => Some(p.clone()),
            None => title_from_props(facts.row_properties.as_ref()),
        };
        let shown = or_short_id(&title, parent);
        let detail = match payload.get("body") {
            Some(b) => match b.as_str() {
                Some(text) => snippet(text),
                None => None,
            },
            None => None,
        };
        OpDescription { summary: four("comment on '", shown.as_str(), "'", ""), target_title: title, detail }
    } else {
        let chars = chars_of(t);
        let mut name = String::new();
        let mut i: usize = 0;
        while i < chars.len()
            invariant
                i <= chars@.len(),
                chars@ == t@,
                name@ == spaced(chars@.take(i as int)),
            decreases chars@.len() - i,
        {
            push_char(&mut name, if chars[i] == '_' { ' ' } else { chars[i] });
            i += 1;
            proof {
                assert(name@ =~= spaced(chars@.take(i as int)));
            }
        }
        proof {
            assert(chars@.take(chars@.len() as int) =~= chars@);
        }
        let shown = or_short_id(&facts.page_title, op.target_id.as_str());
        OpDescription {
            summary: four(name.as_str(), " on '", shown.as_str(), "'"),
            target_title: clone_opt(&facts.page_title),
            detail: None,
        }
    }
}

} // verus!
