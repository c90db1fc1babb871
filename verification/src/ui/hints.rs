//! What an empty pane says instead of showing nothing.
use vstd::prelude::*;
use crate::ui::comments::CommentsState;
use crate::ui::page::{page_lines, PageView};
use crate::ui::queue::QueueView;
use crate::ui::search::SearchState;
use crate::ui::sidebar::SidebarState;
use crate::ui::table::{shown, TableView};

verus! {

broadcast use vstd::string::group_string_axioms;

/// The sidebar's hint: before the first sync the tree is empty.
pub fn sidebar_hint(s: &SidebarState) -> (r: Option<&'static str>)
    ensures
        match r {
            Some(h) => s.nodes@.len() == 0 && h@ == "first sync in progress…"@,
            None => s.nodes@.len() > 0,
        },
{
    if s.nodes.len() == 0 {
        Some("first sync in progress…")
    } else {
        None
    }
}

/// A page without lines invites adding a block.
pub fn page_hint(v: &PageView) -> (r: Option<&'static str>)
    ensures
        match r {
            Some(h) => page_lines(*v).len() == 0 && h@ == "empty page — press a to add a block"@,
            None => page_lines(*v).len() > 0,
        },
{
    if v.lines().len() == 0 {
        Some("empty page — press a to add a block")
    } else {
        None
    }
}

/// A table that shows no row: the filter hides every row, or there are
/// none and one can be added.
pub fn table_hint(v: &TableView) -> (r: Option<&'static str>)
    ensures
        match r {
            Some(h) => shown(*v).len() == 0 && if v.filter is Some && v.rows@.len() > 0 {
                h@ == "no rows match the filter"@
            } else {
                h@ == "no rows — press o to add one"@
            },
            None => shown(*v).len() > 0,
        },
{
    if v.visible().len() > 0 {
        None
    } else if v.filter.is_some() && v.rows.len() > 0 {
        Some("no rows match the filter")
    } else {
        Some("no rows — press o to add one")
    }
}

/// A search with a query and no hits says so; an empty query stays quiet.
pub fn search_hint(s: &SearchState) -> (r: Option<&'static str>)
    ensures
        match r {
            Some(h) => s.input@.len() > 0 && s.results@.len() == 0 && h@ == "no results"@,
            None => s.input@.len() == 0 || s.results@.len() > 0,
        },
{
    if s.input.as_str().unicode_len() > 0 && s.results.len() == 0 {
        Some("no results")
    } else {
        None
    }
}

/// An empty comments panel points at `n`.
pub fn comments_hint(c: &CommentsState) -> (r: Option<&'static str>)
    ensures
        match r {
            Some(h) => c.items@.len() == 0 && h@ == "no comments yet — press n to add one"@,
            None => c.items@.len() > 0,
        },
{
    if c.items.len() == 0 {
        Some("no comments yet — press n to add one")
    } else {
        None
    }
}

/// An empty queue explains what would be there.
pub fn queue_hint(q: &QueueView) -> (r: Option<&'static str>)
    ensures
        match r {
            Some(h) => q.ops@.len() == 0 && h@ == "queue is empty — local edits appear here until synced"@,
            None => q.ops@.len() > 0,
        },
{
    if q.ops.len() == 0 {
        Some("queue is empty — local edits appear here until synced")
    } else {
        None
    }
}

} // verus!
