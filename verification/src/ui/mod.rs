//! Terminal views and modals: their state and how keys change it, and the
//! status line.
pub mod textline;
pub mod table;
pub mod props;
pub mod input;
pub mod confirm;
pub mod board;
pub mod comments;
pub mod search;
pub mod palette;
pub mod picker;
pub mod sidebar;
pub mod page;
pub mod queue;
pub mod help;
pub mod hints;

use vstd::prelude::*;
use crate::text::{chars_of, decimal, push_char, push_decimal, push_str, string_of_range};

verus! {

broadcast use vstd::string::group_string_axioms;

/// A rectangle of terminal cells.
#[derive(Clone, Copy, Debug, PartialEq, Eq, Structural)]
pub struct Area {
    pub x: u16,
    pub y: u16,
    pub width: u16,
    pub height: u16,
}

/// Where each interactive region was drawn in the last frame, for matching
/// clicks against what the user sees; with the scroll offsets of the lists
/// as drawn.
pub struct LayoutRects {
    pub sidebar: Option<Area>,
    pub main: Area,
    pub table_header_y: Option<u16>,
    pub table_col_x: Vec<u16>,
    pub board_columns: Vec<Area>,
    /// The first sidebar entry shown.
    pub sidebar_offset: usize,
    /// The first line (page) or card (active board column) shown.
    pub main_offset: usize,
}

impl Default for LayoutRects {
    /// Nothing drawn yet.
    fn default() -> (r: LayoutRects)
        ensures
            r.sidebar is None,
            r.main == (Area { x: 0, y: 0, width: 0, height: 0 }),
            r.table_header_y is None,
            r.table_col_x@.len() == 0,
            r.board_columns@.len() == 0,
            r.sidebar_offset == 0,
            r.main_offset == 0,
    {
        LayoutRects {
            sidebar: None,
            main: Area { x: 0, y: 0, width: 0, height: 0 },
            table_header_y: None,
            table_col_x: Vec::new(),
            board_columns: Vec::new(),
            sidebar_offset: 0,
            main_offset: 0,
        }
    }
}

/// Where background sync stands.
pub enum SyncStatus {
    Starting,
    Syncing { done: u32, total: u32 },
    Idle { updated: u32 },
    Offline,
    Failed(String),
}

/// Digits grouped by commas every three places from the right.
pub open spec fn grouped(d: Seq<char>) -> Seq<char>
    decreases d.len(),
{
    if d.len() <= 3 {
        d
    } else {
        grouped(d.take(d.len() - 3)) + seq![','] + d.skip(d.len() - 3)
    }
}

fn group_digits(d: &Vec<char>, end: usize) -> (r: String)
    requires
        end <= d@.len(),
    ensures
        r@ == grouped(d@.take(end as int)),
    decreases end,
{
    if end <= 3 {
        let r = string_of_range(d, 0, end);
        proof {
            assert(d@.subrange(0, end as int) =~= d@.take(end as int));
        }
        r
    } else {
        let mut s = group_digits(d, end - 3);
        push_char(&mut s, ',');
        let tail = string_of_range(d, end - 3, end);
        push_str(&mut s, tail.as_str());
        proof {
            let t = d@.take(end as int);
            assert(t.take(t.len() - 3) =~= d@.take(end - 3));
            assert(t.skip(t.len() - 3) =~= d@.subrange(end - 3, end as int));
        }
        s
    }
}

/// Renders a `u32` with thousands separators, e.g. `1893` -> `"1,893"`.
pub fn with_thousands_separators(n: u32) -> (r: String)
    ensures
        r@ == grouped(decimal(n as nat)),
{
    let mut digits = String::new();
    push_decimal(&mut digits, n as u64);
    let d = chars_of(digits.as_str());
    proof {
        assert(d@.take(d@.len() as int) =~= d@);
    }
    group_digits(&d, d.len())
}

/// The sync part of the status line.
pub open spec fn sync_text(status: SyncStatus) -> Seq<char> {
    match status {
        SyncStatus::Starting => "starting…"@,
        SyncStatus::Syncing { done, total } => if total > 0 {
            "⟳ syncing "@ + grouped(decimal(done as nat)) + "/"@ + grouped(decimal(total as nat))
                + " pages"@
        } else {
            "⟳ syncing…"@
        },
        SyncStatus::Idle { updated } => if updated == 0 {
            "✓ synced"@
        } else {
            "✓ synced ("@ + decimal(updated as nat) + " updated)"@
        },
        SyncStatus::Offline => "⚠ offline"@,
        SyncStatus::Failed(msg) => "✗ sync failed: "@ + msg@,
    }
}

/// `base`, then `" · " + part` when `part` is present.
pub open spec fn then_part(base: Seq<char>, part: Option<Seq<char>>) -> Seq<char> {
    match part {
        Some(p) => base + " · "@ + p,
        None => base,
    }
}

/// The status line: the breadcrumb (when given) and the sync state, then
/// each present item of pending edits, conflicts, the notice, key hints and
/// a pending key, separated by " · ".
pub open spec fn status_spec(
    breadcrumb: Option<Seq<char>>,
    status: SyncStatus,
    pending: u32,
    conflicted: u32,
    notice: Option<Seq<char>>,
    hints: Option<Seq<char>>,
    pending_key: Option<char>,
) -> Seq<char> {
    let head = match breadcrumb {
        Some(b) => b + " · "@ + sync_text(status),
        None => sync_text(status),
    };
    let a = then_part(head, if pending > 0 { Some(decimal(pending as nat) + " pending"@) } else { None });
    let b = then_part(a, if conflicted > 0 { Some("⚠ "@ + decimal(conflicted as nat) + " conflicted"@) } else { None });
    let c = then_part(then_part(b, notice), hints);
    then_part(c, match pending_key {
        Some(k) => Some(seq![k] + " pending"@),
        None => None,
    })
}

/// An optional text as plain text.
pub open spec fn opt_str(o: Option<&str>) -> Option<Seq<char>> {
    match o {
        Some(s) => Some(s@),
        None => None,
    }
}

fn sync_part(status: &SyncStatus) -> (r: String)
    ensures
        r@ == sync_text(*status),
{
    let mut s = String::new();
    match status {
        SyncStatus::Starting => push_str(&mut s, "starting…"),
        SyncStatus::Syncing { done, total } => {
            if *total > 0 {
                push_str(&mut s, "⟳ syncing ");
                let d = with_thousands_separators(*done);
                push_str(&mut s, d.as_str());
                push_str(&mut s, "/");
                let t = with_thousands_separators(*total);
                push_str(&mut s, t.as_str());
                push_str(&mut s, " pages");
            } else {
                push_str(&mut s, "⟳ syncing…");
            }
        },
        SyncStatus::Idle { updated } => {
            if *updated == 0 {
                push_str(&mut s, "✓ synced");
            } else {
                push_str(&mut s, "✓ synced (");
                push_decimal(&mut s, *updated as u64);
                push_str(&mut s, " updated)");
            }
        },
        SyncStatus::Offline => push_str(&mut s, "⚠ offline"),
        SyncStatus::Failed(msg) => {
            push_str(&mut s, "✗ sync failed: ");
            push_str(&mut s, msg.as_str());
        },
    }
    proof {
        assert(s@ =~= sync_text(*status));
    }
    s
}

/// The status line under the views.
pub fn status_line(
    breadcrumb: Option<&str>,
    status: &SyncStatus,
    pending: u32,
    conflicted: u32,
    notice: Option<&str>,
    hints: Option<&str>,
    pending_key: Option<char>,
) -> (r: String)
    ensures
        r@ == status_spec(
            opt_str(breadcrumb),
            *status,
            pending,
            conflicted,
            opt_str(notice),
            opt_str(hints),
            pending_key,
        ),
{
    let base = sync_part(status);
    let mut out = String::new();
    match breadcrumb {
        Some(b) => {
            push_str(&mut out, b);
            push_str(&mut out, " · ");
        },
        None => {},
    }
    push_str(&mut out, base.as_str());
    let ghost head = match opt_str(breadcrumb) {
        Some(b) => b + " · "@ + sync_text(*status),
        None => sync_text(*status),
    };
    assert(out@ =~= head);
    if pending > 0 {
        push_str(&mut out, " · ");
        push_decimal(&mut out, pending as u64);
        push_str(&mut out, " pending");
    }
    let ghost a = then_part(
        head,
        if pending > 0 {
            Some(decimal(pending as nat) + " pending"@)
        } else {
            None
        },
    );
    assert(out@ =~= a);
    if conflicted > 0 {
        push_str(&mut out, " · ⚠ ");
        push_decimal(&mut out, conflicted as u64);
        push_str(&mut out, " conflicted");
    }
    let ghost b2 = then_part(
        a,
        if conflicted > 0 {
            Some("⚠ "@ + decimal(conflicted as nat) + " conflicted"@)
        } else {
            None
        },
    );
    proof {
        if conflicted > 0 {
            assert(" · ⚠ "@ =~= " · "@ + "⚠ "@) by {
                reveal_strlit(" · ⚠ ");
                reveal_strlit(" · ");
                reveal_strlit("⚠ ");
            }
        }
    }
    assert(out@ =~= b2);
    match notice {
        Some(n) => {
            push_str(&mut out, " · ");
            push_str(&mut out, n);
        },
        None => {},
    }
    assert(out@ =~= then_part(b2, opt_str(notice)));
    match hints {
        Some(h) => {
            push_str(&mut out, " · ");
            push_str(&mut out, h);
        },
        None => {},
    }
    assert(out@ =~= then_part(then_part(b2, opt_str(notice)), opt_str(hints)));
    match pending_key {
        Some(k) => {
            push_str(&mut out, " · ");
            push_char(&mut out, k);
            push_str(&mut out, " pending");
        },
        None => {},
    }
    out
}

} // verus!
