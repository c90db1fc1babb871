//! Applying an externally edited Markdown document back to a page's blocks.
//!
//! Planning is pure: `plan_edit` decides which blocks to update, delete and
//! insert, and `resync_plan` which surviving blocks to move. The caller runs
//! the edits against the local copy in order, then asks for the moves.
use vstd::prelude::*;
use crate::markdown::parse::{classify, fence, lemma_indent, lines_view, opt_view, parse_from, parse_markdown, parse_spec, protected_marker, LineView, ParsedLine};
use crate::markdown::render::{indentation, unit_lines, units_view, Unit, UnitView};
use crate::records::BlockRec;
use crate::text::{eq_chars, chars_of, push_str, str_eq};
use crate::text::{ends_with_cr, find, find_from, has_prefix, is_ws, join, lemma_lines_join, lemma_trim_nonempty, nl_pieces, occurs_at, trim};

verus! {

broadcast use vstd::string::group_string_axioms;

/// Counts of what applying an edited document did, and the protected
/// blocks whose markers disappeared without the deletion being confirmed.
#[derive(Debug, Default, PartialEq)]
pub struct Applied {
    pub inserted: u32,
    pub updated: u32,
    pub deleted: u32,
    pub reordered: u32,
    pub protected_missing: Vec<String>,
}

/// The Markdown a parsed line renders back to, as the unit texts were
/// rendered (a code block loses its language).
pub open spec fn parsed_text(l: LineView) -> Seq<char> {
    let t = l.1;
    let x = l.2;
    if t == "heading_1"@ {
        "# "@ + x
    } else if t == "heading_2"@ {
        "## "@ + x
    } else if t == "heading_3"@ {
        "### "@ + x
    } else if t == "to_do"@ {
        "- ["@ + (if l.3 == Some(true) {
            "x"@
        } else {
            " "@
        }) + "] "@ + x
    } else if t == "bulleted_list_item"@ {
        "- "@ + x
    } else if t == "numbered_list_item"@ {
        "1. "@ + x
    } else if t == "quote"@ {
        "> "@ + x
    } else if t == "divider"@ {
        "---"@
    } else if t == "code"@ {
        "```\n"@ + x + "\n```"@
    } else {
        x
    }
}

/// The Markdown text of a parsed line, in the form units are rendered in.
pub fn render_parsed_text(line: &ParsedLine) -> (r: String)
    ensures
        r@ == parsed_text(line.view()),
{
    let t = line.block_type.as_str();
    let x = line.text.as_str();
    let mut s = String::new();
    if str_eq(t, "heading_1") {
        push_str(&mut s, "# ");
        push_str(&mut s, x);
    } else if str_eq(t, "heading_2") {
        push_str(&mut s, "## ");
        push_str(&mut s, x);
    } else if str_eq(t, "heading_3") {
        push_str(&mut s, "### ");
        push_str(&mut s, x);
    } else if str_eq(t, "to_do") {
        push_str(&mut s, "- [");
        push_str(
            &mut s,
            if line.checked == Some(true) {
                "x"
            } else {
                " "
            },
        );
        push_str(&mut s, "] ");
        push_str(&mut s, x);
    } else if str_eq(t, "bulleted_list_item") {
        push_str(&mut s, "- ");
        push_str(&mut s, x);
    } else if str_eq(t, "numbered_list_item") {
        push_str(&mut s, "1. ");
        push_str(&mut s, x);
    } else if str_eq(t, "quote") {
        push_str(&mut s, "> ");
        push_str(&mut s, x);
    } else if str_eq(t, "divider") {
        push_str(&mut s, "---");
    } else if str_eq(t, "code") {
        push_str(&mut s, "```\n");
        push_str(&mut s, x);
        push_str(&mut s, "\n```");
    } else {
        push_str(&mut s, x);
    }
    proof {
        assert(s@ =~= parsed_text(line.view()));
    }
    s
}

/// Whether some line of `ls` is the marker of protected block `id`.
pub open spec fn marker_present(ls: Seq<LineView>, id: Seq<char>) -> bool {
    exists|i: int| 0 <= i < ls.len() && #[trigger] ls[i].4 == Some(id)
}

/// Whether `v` holds `id`.
pub open spec fn holds(v: Seq<Seq<char>>, id: Seq<char>) -> bool {
    exists|i: int| 0 <= i < v.len() && #[trigger] v[i] == id
}

/// Ids of the protected units among the first `n` of `us` whose marker is
/// gone from `ls` and whose deletion is not in `confirmed`.
pub open spec fn missing_upto(
    us: Seq<UnitView>,
    ls: Seq<LineView>,
    confirmed: Seq<Seq<char>>,
    n: int,
) -> Seq<Seq<char>>
    decreases n,
{
    if n <= 0 {
        Seq::empty()
    } else {
        let r = missing_upto(us, ls, confirmed, n - 1);
        let u = us[n - 1];
        if u.4 && !marker_present(ls, u.0) && !holds(confirmed, u.0) {
            r.push(u.0)
        } else {
            r
        }
    }
}

/// Positions of the units (among the first `n`) that are not protected.
pub open spec fn editable_upto(us: Seq<UnitView>, n: int) -> Seq<int>
    decreases n,
{
    if n <= 0 {
        Seq::empty()
    } else if !us[n - 1].4 {
        editable_upto(us, n - 1).push(n - 1)
    } else {
        editable_upto(us, n - 1)
    }
}

/// Positions of the lines (among the first `n`) that are not protected markers.
pub open spec fn new_editable_upto(ls: Seq<LineView>, n: int) -> Seq<int>
    decreases n,
{
    if n <= 0 {
        Seq::empty()
    } else if ls[n - 1].4 is None {
        new_editable_upto(ls, n - 1).push(n - 1)
    } else {
        new_editable_upto(ls, n - 1)
    }
}

/// How many of the first `n` entries of `s` equal `x`.
pub open spec fn count_upto(s: Seq<Seq<char>>, x: Seq<char>, n: int) -> int
    decreases n,
{
    if n <= 0 {
        0
    } else {
        count_upto(s, x, n - 1) + if s[n - 1] == x {
            1int
        } else {
            0int
        }
    }
}

/// Position of the `k`-th (from 0) entry of `s` equal to `x`, if there is one.
pub open spec fn nth_position(s: Seq<Seq<char>>, x: Seq<char>, k: int) -> Option<int> {
    if exists|i: int| 0 <= i < s.len() && s[i] == x && count_upto(s, x, i) == k {
        Some(choose|i: int| 0 <= i < s.len() && s[i] == x && count_upto(s, x, i) == k)
    } else {
        None
    }
}

/// The old text an edited text at position `j` of `news` is matched to:
/// equal texts pair up in order, the k-th occurrence in the new text with
/// the k-th in the old.
pub open spec fn match_of(olds: Seq<Seq<char>>, news: Seq<Seq<char>>, j: int) -> Option<int> {
    nth_position(olds, news[j], count_upto(news, news[j], j))
}

proof fn lemma_count_step(s: Seq<Seq<char>>, x: Seq<char>, n: int)
    requires
        0 <= n,
    ensures
        count_upto(s, x, n) >= 0,
        count_upto(s, x, n) <= n,
    decreases n,
{
    if n > 0 {
        lemma_count_step(s, x, n - 1);
    }
}

proof fn lemma_count_mono(s: Seq<Seq<char>>, x: Seq<char>, a: int, b: int)
    requires
        0 <= a <= b,
    ensures
        count_upto(s, x, a) <= count_upto(s, x, b),
        s[a] == x && a < b ==> count_upto(s, x, a) < count_upto(s, x, b),
    decreases b - a,
{
    if a < b {
        lemma_count_mono(s, x, a, b - 1);
        if s[a] == x && a < b - 1 {
            lemma_count_mono(s, x, a, b - 1);
        }
    }
}

/// Counts in `s[..n]` how many entries equal `x`.
fn count_equal(s: &Vec<Vec<char>>, x: &Vec<char>, n: usize) -> (r: usize)
    requires
        n <= s@.len(),
    ensures
        r == count_upto(s@.map_values(|v: Vec<char>| v@), x@, n as int),
{
    let ghost ss = s@.map_values(|v: Vec<char>| v@);
    let mut c: usize = 0;
    let mut i: usize = 0;
    while i < n
        invariant
            i <= n <= s@.len(),
            ss == s@.map_values(|v: Vec<char>| v@),
            c == count_upto(ss, x@, i as int),
            c <= i,
        decreases n - i,
    {
        if eq_chars(&s[i], x) {
            c += 1;
        }
        i += 1;
    }
    c
}

/// Position of the `k`-th entry of `s` equal to `x`, if any.
fn find_nth(s: &Vec<Vec<char>>, x: &Vec<char>, k: usize) -> (r: Option<usize>)
    ensures
        match r {
            Some(i) => nth_position(s@.map_values(|v: Vec<char>| v@), x@, k as int) == Some(i as int),
            None => nth_position(s@.map_values(|v: Vec<char>| v@), x@, k as int) is None,
        },
{
    let ghost ss = s@.map_values(|v: Vec<char>| v@);
    let mut c: usize = 0;
    let mut i: usize = 0;
    while i < s.len()
        invariant
            i <= s@.len(),
            ss == s@.map_values(|v: Vec<char>| v@),
            c == count_upto(ss, x@, i as int),
            c <= k,
        decreases s@.len() - i,
    {
        if eq_chars(&s[i], x) {
            if c == k {
                proof {
                    assert(ss[i as int] == x@);
                    assert forall|j: int|
                        0 <= j < ss.len() && ss[j] == x@ && count_upto(ss, x@, j) == k implies j
                        == i by {
                        if j < i {
                            lemma_count_mono(ss, x@, j, i as int);
                        } else if j > i {
                            lemma_count_mono(ss, x@, i as int, j);
                        }
                    }
                }
                return Some(i);
            }
            c += 1;
        }
        i += 1;
    }
    proof {
        assert forall|j: int| 0 <= j < ss.len() && ss[j] == x@ implies count_upto(ss, x@, j) != k by {
            lemma_count_mono(ss, x@, j, ss.len() as int);
        }
    }
    None
}

/// A block an edit refers to: one that exists, or the one the plan's `k`-th
/// insert creates.
pub enum BlockRef {
    Existing(String),
    Inserted(usize),
}

/// A block reference as plain values.
pub enum RefView {
    Existing(Seq<char>),
    Inserted(int),
}

impl View for BlockRef {
    type V = RefView;

    open spec fn view(&self) -> RefView {
        match self {
            BlockRef::Existing(id) => RefView::Existing(id@),
            BlockRef::Inserted(k) => RefView::Inserted(*k as int),
        }
    }
}

/// One change to the local copy, to be made in plan order.
pub enum Edit {
    /// Replace the text of an existing block.
    UpdateText { id: String, text: String },
    /// Delete an existing block.
    Delete { id: String },
    /// Create a top-level block after `after` (first when `None`).
    InsertAfter { after: Option<BlockRef>, block_type: String, text: String },
}

/// An edit as plain values.
pub enum EditView {
    UpdateText { id: Seq<char>, text: Seq<char> },
    Delete { id: Seq<char> },
    InsertAfter { after: Option<RefView>, block_type: Seq<char>, text: Seq<char> },
}

impl View for Edit {
    type V = EditView;

    open spec fn view(&self) -> EditView {
        match self {
            Edit::UpdateText { id, text } => EditView::UpdateText { id: id@, text: text@ },
            Edit::Delete { id } => EditView::Delete { id: id@ },
            Edit::InsertAfter { after, block_type, text } => EditView::InsertAfter {
                after: ref_opt(*after),
                block_type: block_type@,
                text: text@,
            },
        }
    }
}

pub open spec fn ref_opt(r: Option<BlockRef>) -> Option<RefView> {
    match r {
        Some(b) => Some(b@),
        None => None,
    }
}

/// The edits as plain values.
pub open spec fn edits_view(v: Seq<Edit>) -> Seq<EditView> {
    v.map_values(|e: Edit| e@)
}

/// Line ids as plain values.
pub open spec fn ids_view(v: Seq<Option<BlockRef>>) -> Seq<Option<RefView>> {
    v.map_values(|r: Option<BlockRef>| ref_opt(r))
}

/// Which kind of change a diff step is.
#[derive(Clone, Copy, Debug, PartialEq, Eq, Structural)]
pub enum DiffTag {
    Equal,
    Delete,
    Insert,
}

/// One step of a line diff, with its positions in the old and new lists.
#[derive(Clone, Copy, Debug, PartialEq, Eq, Structural)]
pub struct DiffStep {
    pub tag: DiffTag,
    pub old_index: Option<usize>,
    pub new_index: Option<usize>,
}

/// The changes `similar`'s line diff (Myers, no deadline) reports between
/// `old` and `new`, in order.
pub uninterp spec fn line_diff(old: Seq<Seq<char>>, new: Seq<Seq<char>>) -> Seq<DiffStep>;

/// Every step names the positions its kind uses, within the lists.
pub open spec fn steps_fit(steps: Seq<DiffStep>, n_old: int, n_new: int) -> bool {
    forall|k: int|
        0 <= k < steps.len() ==> match (#[trigger] steps[k]).tag {
            DiffTag::Equal => (steps[k].old_index matches Some(o) && o < n_old) && (
            steps[k].new_index matches Some(n) && n < n_new),
            DiffTag::Delete => steps[k].old_index matches Some(o) && o < n_old,
            DiffTag::Insert => steps[k].new_index matches Some(n) && n < n_new,
        }
}

/// The texts of a list of strings.
pub open spec fn texts(v: Seq<String>) -> Seq<Seq<char>> {
    v.map_values(|s: String| s@)
}

/// `similar::TextDiff::from_slices(old, new).iter_all_changes()`: the line
/// diff of `old` and `new`, each change with its tag and the positions it
/// has in `old` and `new` (an equal line in both, a deleted line in `old`,
/// an inserted line in `new`).
#[verifier::external_body]
fn diff_lines(old: &Vec<String>, new: &Vec<String>) -> (r: Vec<DiffStep>)
    ensures
        r@ == line_diff(texts(old@), texts(new@)),
        steps_fit(r@, old@.len() as int, new@.len() as int),
{
    let o: Vec<&str> = old.iter().map(|s| s.as_str()).collect();
    let n: Vec<&str> = new.iter().map(|s| s.as_str()).collect();
    let diff = similar::TextDiff::from_slices(&o, &n);
    diff.iter_all_changes().map(|c| DiffStep {
        tag: match c.tag() {
            similar::ChangeTag::Equal => DiffTag::Equal,
            similar::ChangeTag::Delete => DiffTag::Delete,
            similar::ChangeTag::Insert => DiffTag::Insert,
        },
        old_index: c.old_index(),
        new_index: c.new_index(),
    }).collect()
}

/// What the diff pass has decided so far.
pub struct PassState {
    pub edits: Seq<EditView>,
    /// The block each document line ends up as, by line position.
    pub ids: Seq<Option<RefView>>,
    /// Unpaired deletions and insertions since the last flush (positions in
    /// the leftover lists).
    pub dels: Seq<int>,
    pub ins: Seq<int>,
    /// The block the next insert goes after.
    pub anchor: Option<RefView>,
    /// How many inserts so far; the next insert creates `Inserted(inserted)`.
    pub inserted: int,
}

/// What the diff pass works over: the leftover old blocks' ids, the
/// document line each leftover new text stands for, and the lines.
pub struct PassCtx {
    pub old_ids: Seq<Seq<char>>,
    pub new_lines: Seq<int>,
    pub lines: Seq<LineView>,
}

/// Pairs the first `k` pending deletions with pending insertions as text updates.
pub open spec fn pair_updates(st: PassState, c: PassCtx, k: int) -> PassState
    decreases k,
{
    if k <= 0 {
        st
    } else {
        let p = pair_updates(st, c, k - 1);
        let line = c.new_lines[st.ins[k - 1]];
        let id = c.old_ids[st.dels[k - 1]];
        PassState {
            edits: p.edits.push(EditView::UpdateText { id, text: c.lines[line].2 }),
            ids: p.ids.update(line, Some(RefView::Existing(id))),
            ..p
        }
    }
}

/// Deletes the pending deletions from position `from` up to `to`.
pub open spec fn drop_rest(st: PassState, c: PassCtx, from: int, to: int) -> PassState
    decreases to - from,
{
    if to <= from {
        st
    } else {
        let p = drop_rest(st, c, from, to - 1);
        PassState {
            edits: p.edits.push(EditView::Delete { id: c.old_ids[st.dels[to - 1]] }),
            ..p
        }
    }
}

/// Inserts the pending insertions from position `from` up to `to`, each
/// after the previous one.
pub open spec fn add_rest(st: PassState, c: PassCtx, from: int, to: int) -> PassState
    decreases to - from,
{
    if to <= from {
        st
    } else {
        let p = add_rest(st, c, from, to - 1);
        let line = c.new_lines[st.ins[to - 1]];
        let made = RefView::Inserted(p.inserted);
        PassState {
            edits: p.edits.push(
                EditView::InsertAfter { after: p.anchor, block_type: c.lines[line].1, text: c.lines[line].2 },
            ),
            ids: p.ids.update(line, Some(made)),
            anchor: Some(made),
            inserted: p.inserted + 1,
            ..p
        }
    }
}

/// Settles the pending deletions and insertions: paired ones become
/// updates, the rest deletes and inserts.
pub open spec fn flush(st: PassState, c: PassCtx) -> PassState {
    let n = if st.dels.len() < st.ins.len() {
        st.dels.len() as int
    } else {
        st.ins.len() as int
    };
    let a = pair_updates(st, c, n);
    let b = drop_rest(a, c, n, st.dels.len() as int);
    let d = add_rest(b, c, n, st.ins.len() as int);
    PassState { dels: Seq::empty(), ins: Seq::empty(), ..d }
}

/// One diff step: an equal line flushes and keeps its block; a deletion or
/// insertion waits to be paired.
pub open spec fn pass_step(st: PassState, c: PassCtx, s: DiffStep) -> PassState {
    match s.tag {
        DiffTag::Equal => {
            let f = flush(st, c);
            PassState {
                ids: f.ids.update(
                    c.new_lines[s.new_index.unwrap() as int],
                    Some(RefView::Existing(c.old_ids[s.old_index.unwrap() as int])),
                ),
                ..f
            }
        },
        DiffTag::Delete => PassState { dels: st.dels.push(s.old_index.unwrap() as int), ..st },
        DiffTag::Insert => PassState { ins: st.ins.push(s.new_index.unwrap() as int), ..st },
    }
}

/// The state after the first `k` steps.
pub open spec fn pass_upto(st: PassState, c: PassCtx, steps: Seq<DiffStep>, k: int) -> PassState
    decreases k,
{
    if k <= 0 {
        st
    } else {
        pass_step(pass_upto(st, c, steps, k - 1), c, steps[k - 1])
    }
}

fn clone_ref(r: &Option<BlockRef>) -> (c: Option<BlockRef>)
    ensures
        ref_opt(c) == ref_opt(*r),
{
    match r {
        Some(BlockRef::Existing(id)) => Some(BlockRef::Existing(id.clone())),
        Some(BlockRef::Inserted(k)) => Some(BlockRef::Inserted(*k)),
        None => None,
    }
}

/// The leftover lists the diff pass pairs up.
struct Ctx {
    old_ids: Vec<String>,
    new_lines: Vec<usize>,
}

/// The diff pass's working state.
struct Pass {
    edits: Vec<Edit>,
    ids: Vec<Option<BlockRef>>,
    dels: Vec<usize>,
    ins: Vec<usize>,
    anchor: Option<BlockRef>,
    inserted: usize,
}

pub open spec fn idx_view(v: Seq<usize>) -> Seq<int> {
    v.map_values(|x: usize| x as int)
}

impl Pass {
    spec fn view(&self) -> PassState {
        PassState {
            edits: edits_view(self.edits@),
            ids: ids_view(self.ids@),
            dels: idx_view(self.dels@),
            ins: idx_view(self.ins@),
            anchor: ref_opt(self.anchor),
            inserted: self.inserted as int,
        }
    }

    /// Positions are within the lists they index.
    spec fn fits(&self, c: &Ctx, lines: Seq<ParsedLine>) -> bool {
        &&& self.ids@.len() == lines.len()
        &&& self.inserted <= self.edits@.len()
        &&& forall|k: int| 0 <= k < self.dels@.len() ==> #[trigger] self.dels@[k] < c.old_ids@.len()
        &&& forall|k: int| 0 <= k < self.ins@.len() ==> #[trigger] self.ins@[k] < c.new_lines@.len()
        &&& forall|k: int| 0 <= k < c.new_lines@.len() ==> #[trigger] c.new_lines@[k] < lines.len()
    }
}

spec fn ctx_view(c: &Ctx, lines: Seq<ParsedLine>) -> PassCtx {
    PassCtx { old_ids: texts(c.old_ids@), new_lines: idx_view(c.new_lines@), lines: lines_view(lines) }
}

fn flush_pass(p: &mut Pass, c: &Ctx, lines: &Vec<ParsedLine>)
    requires
        old(p).fits(c, lines@),
    ensures
        final(p).fits(c, lines@),
        final(p).view() == flush(old(p).view(), ctx_view(c, lines@)),
{
    let ghost st = p.view();
    let ghost cv = ctx_view(c, lines@);
    let nd = p.dels.len();
    let ni = p.ins.len();
    let n = if nd < ni {
        nd
    } else {
        ni
    };
    let mut k: usize = 0;
    while k < n
        invariant
            k <= n,
            n <= nd,
            n <= ni,
            nd == p.dels@.len(),
            ni == p.ins@.len(),
            st.dels == idx_view(p.dels@),
            st.ins == idx_view(p.ins@),
            cv == ctx_view(c, lines@),
            p.fits(c, lines@),
            p.view() == pair_updates(st, cv, k as int),
        decreases n - k,
    {
        let line = c.new_lines[p.ins[k]];
        let id = c.old_ids[p.dels[k]].clone();
        let text = lines[line].text.clone();
        p.edits.push(Edit::UpdateText { id: id.clone(), text });
        p.ids.set(line, Some(BlockRef::Existing(id)));
        k += 1;
        proof {
            let q = pair_updates(st, cv, k - 1);
            assert(lines_view(lines@)[line as int] == lines@[line as int].view());
            assert(p.view().edits =~= pair_updates(st, cv, k as int).edits);
            assert(p.view().ids =~= pair_updates(st, cv, k as int).ids);
        }
    }
    let ghost a = p.view();
    let mut k: usize = n;
    while k < nd
        invariant
            n <= k <= nd,
            nd == p.dels@.len(),
            ni == p.ins@.len(),
            st.dels == idx_view(p.dels@),
            st.ins == idx_view(p.ins@),
            cv == ctx_view(c, lines@),
            a.dels == st.dels,
            p.fits(c, lines@),
            p.view() == drop_rest(a, cv, n as int, k as int),
        decreases nd - k,
    {
        let id = c.old_ids[p.dels[k]].clone();
        p.edits.push(Edit::Delete { id });
        k += 1;
        proof {
            assert(p.view().edits =~= drop_rest(a, cv, n as int, k as int).edits);
        }
    }
    let ghost b = p.view();
    let mut k: usize = n;
    while k < ni
        invariant
            n <= k <= ni,
            nd == p.dels@.len(),
            ni == p.ins@.len(),
            st.ins == idx_view(p.ins@),
            cv == ctx_view(c, lines@),
            b.ins == st.ins,
            p.fits(c, lines@),
            p.view() == add_rest(b, cv, n as int, k as int),
        decreases ni - k,
    {
        let line = c.new_lines[p.ins[k]];
        let made = p.inserted;
        let after = clone_ref(&p.anchor);
        let block_type = lines[line].block_type.clone();
        let text = lines[line].text.clone();
        p.edits.push(Edit::InsertAfter { after, block_type, text });
        let total = p.edits.len();
        assert(made < total);
        p.ids.set(line, Some(BlockRef::Inserted(made)));
        p.anchor = Some(BlockRef::Inserted(made));
        p.inserted = made + 1;
        k += 1;
        proof {
            assert(lines_view(lines@)[line as int] == lines@[line as int].view());
            assert(p.view().edits =~= add_rest(b, cv, n as int, k as int).edits);
            assert(p.view().ids =~= add_rest(b, cv, n as int, k as int).ids);
        }
    }
    p.dels.clear();
    p.ins.clear();
    proof {
        assert(idx_view(p.dels@) =~= Seq::<int>::empty());
        assert(idx_view(p.ins@) =~= Seq::<int>::empty());
    }
}

fn step_pass(p: &mut Pass, c: &Ctx, lines: &Vec<ParsedLine>, s: DiffStep)
    requires
        old(p).fits(c, lines@),
        match s.tag {
            DiffTag::Equal => (s.old_index matches Some(o) && o < c.old_ids@.len()) && (
            s.new_index matches Some(n) && n < c.new_lines@.len()),
            DiffTag::Delete => s.old_index matches Some(o) && o < c.old_ids@.len(),
            DiffTag::Insert => s.new_index matches Some(n) && n < c.new_lines@.len(),
        },
    ensures
        final(p).fits(c, lines@),
        final(p).view() == pass_step(old(p).view(), ctx_view(c, lines@), s),
{
    match s.tag {
        DiffTag::Equal => {
            flush_pass(p, c, lines);
            let o = s.old_index.unwrap();
            let n = s.new_index.unwrap();
            let line = c.new_lines[n];
            p.ids.set(line, Some(BlockRef::Existing(c.old_ids[o].clone())));
            proof {
                assert(p.view().ids =~= pass_step(old(p).view(), ctx_view(c, lines@), s).ids);
            }
        },
        DiffTag::Delete => {
            p.dels.push(s.old_index.unwrap());
            proof {
                assert(p.view().dels =~= pass_step(old(p).view(), ctx_view(c, lines@), s).dels);
            }
        },
        DiffTag::Insert => {
            p.ins.push(s.new_index.unwrap());
            proof {
                assert(p.view().ins =~= pass_step(old(p).view(), ctx_view(c, lines@), s).ins);
            }
        },
    }
}

/// Positions of the units that are not protected.
pub open spec fn editable(us: Seq<UnitView>) -> Seq<int> {
    editable_upto(us, us.len() as int)
}

/// The texts of the units that are not protected.
pub open spec fn old_texts(us: Seq<UnitView>) -> Seq<Seq<char>> {
    Seq::new(editable(us).len(), |i: int| us[editable(us)[i]].3)
}

/// Positions of the document lines that are not protected markers.
pub open spec fn new_positions(ls: Seq<LineView>) -> Seq<int> {
    new_editable_upto(ls, ls.len() as int)
}

/// The rendered texts of the document lines that are not protected markers.
pub open spec fn new_texts(ls: Seq<LineView>) -> Seq<Seq<char>> {
    Seq::new(new_positions(ls).len(), |j: int| parsed_text(ls[new_positions(ls)[j]]))
}

/// Whether old text `o` is matched by some new text.
pub open spec fn old_matched(olds: Seq<Seq<char>>, news: Seq<Seq<char>>, o: int) -> bool {
    exists|j: int| 0 <= j < news.len() && #[trigger] match_of(olds, news, j) == Some(o)
}

/// Positions (among the first `n`) of the old texts no new text matched.
pub open spec fn leftover_old_upto(olds: Seq<Seq<char>>, news: Seq<Seq<char>>, n: int) -> Seq<int>
    decreases n,
{
    if n <= 0 {
        Seq::empty()
    } else if !old_matched(olds, news, n - 1) {
        leftover_old_upto(olds, news, n - 1).push(n - 1)
    } else {
        leftover_old_upto(olds, news, n - 1)
    }
}

/// Positions (among the first `n`) of the new texts that matched no old text.
pub open spec fn leftover_new_upto(olds: Seq<Seq<char>>, news: Seq<Seq<char>>, n: int) -> Seq<int>
    decreases n,
{
    if n <= 0 {
        Seq::empty()
    } else if match_of(olds, news, n - 1) is None {
        leftover_new_upto(olds, news, n - 1).push(n - 1)
    } else {
        leftover_new_upto(olds, news, n - 1)
    }
}

/// Line ids before the diff pass: protected markers keep their block, and
/// (among the first `n` new texts) a matched text keeps its old block.
pub open spec fn init_ids_upto(us: Seq<UnitView>, ls: Seq<LineView>, n: int) -> Seq<Option<RefView>>
    decreases n,
{
    if n <= 0 {
        Seq::new(
            ls.len(),
            |i: int|
                match ls[i].4 {
                    Some(p) => Some(RefView::Existing(p)),
                    None => None,
                },
        )
    } else {
        let r = init_ids_upto(us, ls, n - 1);
        match match_of(old_texts(us), new_texts(ls), n - 1) {
            Some(o) => r.update(
                new_positions(ls)[n - 1],
                Some(RefView::Existing(us[editable(us)[o]].0)),
            ),
            None => r,
        }
    }
}

/// Position of the top-level block (among the first `n`) with the greatest
/// ordinal, the last of equals.
pub open spec fn last_top_upto(bs: Seq<BlockRec>, n: int) -> Option<int>
    decreases n,
{
    if n <= 0 {
        None
    } else {
        let b = last_top_upto(bs, n - 1);
        if bs[n - 1].parent_block_id is None && (match b {
            Some(i) => bs[n - 1].ordinal >= bs[i].ordinal,
            None => true,
        }) {
            Some(n - 1)
        } else {
            b
        }
    }
}

/// The diff pass's inputs for units `us`, edited lines `ls`.
pub open spec fn pass_ctx(us: Seq<UnitView>, ls: Seq<LineView>) -> PassCtx {
    let olds = old_texts(us);
    let news = new_texts(ls);
    let lo = leftover_old_upto(olds, news, olds.len() as int);
    let ln = leftover_new_upto(olds, news, news.len() as int);
    PassCtx {
        old_ids: Seq::new(lo.len(), |d: int| us[editable(us)[lo[d]]].0),
        new_lines: Seq::new(ln.len(), |i: int| new_positions(ls)[ln[i]]),
        lines: ls,
    }
}

/// The leftover texts the diff runs over: `(old, new)`.
pub open spec fn leftover_texts(us: Seq<UnitView>, ls: Seq<LineView>) -> (Seq<Seq<char>>, Seq<Seq<char>>) {
    let olds = old_texts(us);
    let news = new_texts(ls);
    let lo = leftover_old_upto(olds, news, olds.len() as int);
    let ln = leftover_new_upto(olds, news, news.len() as int);
    (Seq::new(lo.len(), |d: int| olds[lo[d]]), Seq::new(ln.len(), |i: int| news[ln[i]]))
}

/// The outcome of planning: edits, the block of each document line, and the
/// number of inserts, for units `us`, edited lines `ls`, and the page's
/// current blocks `bs` (new blocks go after the last top-level one).
pub open spec fn plan_spec(us: Seq<UnitView>, ls: Seq<LineView>, bs: Seq<BlockRec>) -> PassState {
    let c = pass_ctx(us, ls);
    let st0 = PassState {
        edits: Seq::empty(),
        ids: init_ids_upto(us, ls, new_texts(ls).len() as int),
        dels: Seq::empty(),
        ins: Seq::empty(),
        anchor: match last_top_upto(bs, bs.len() as int) {
            Some(i) => Some(RefView::Existing(bs[i].id@)),
            None => None,
        },
        inserted: 0,
    };
    let steps = diff_steps(leftover_texts(us, ls));
    flush(pass_upto(st0, c, steps, steps.len() as int), c)
}

/// The diff the pass runs over: none when nothing is left over on either side.
pub open spec fn diff_steps(t: (Seq<Seq<char>>, Seq<Seq<char>>)) -> Seq<DiffStep> {
    if t.0.len() == 0 && t.1.len() == 0 {
        Seq::empty()
    } else {
        line_diff(t.0, t.1)
    }
}

/// Among equal lists, every text is matched to itself.
proof fn lemma_match_self(xs: Seq<Seq<char>>, j: int)
    requires
        0 <= j < xs.len(),
    ensures
        match_of(xs, xs, j) == Some(j),
{
    let x = xs[j];
    let k = count_upto(xs, x, j);
    assert(xs[j] == x);
    assert(count_upto(xs, x, j) == k);
    assert(nth_position(xs, x, k) is Some);
    let i = nth_position(xs, x, k).unwrap();
    assert(0 <= i < xs.len() && xs[i] == x && count_upto(xs, x, i) == k);
    if i < j {
        lemma_count_mono(xs, x, i, j);
    } else if j < i {
        lemma_count_mono(xs, x, j, i);
    }
    assert(i == j);
}

proof fn lemma_no_leftover_new(xs: Seq<Seq<char>>, n: int)
    requires
        0 <= n <= xs.len(),
    ensures
        leftover_new_upto(xs, xs, n).len() == 0,
    decreases n,
{
    if n > 0 {
        lemma_match_self(xs, n - 1);
        lemma_no_leftover_new(xs, n - 1);
    }
}

proof fn lemma_no_leftover_old(xs: Seq<Seq<char>>, n: int)
    requires
        0 <= n <= xs.len(),
    ensures
        leftover_old_upto(xs, xs, n).len() == 0,
    decreases n,
{
    if n > 0 {
        lemma_match_self(xs, n - 1);
        assert(match_of(xs, xs, n - 1) == Some(n - 1));
        assert(old_matched(xs, xs, n - 1));
        lemma_no_leftover_old(xs, n - 1);
    }
}

// ---------------------------------------------------------------------------
// Reading back what was rendered

/// The body of a code block without a language, ```` ```\nBODY\n``` ````.
pub open spec fn code_line_body(t: Seq<char>) -> Option<Seq<char>> {
    if t.len() >= 8 && t.take(4) == seq!['`', '`', '`', '\n'] && t.skip(t.len() - 4) == seq!['\n', '`', '`', '`'] {
        Some(t.subrange(4, t.len() - 4))
    } else {
        None
    }
}

/// A unit whose Markdown reads back as itself: a depth of at least zero,
/// and either a code block without a language none of whose body lines is
/// a fence or ends with a carriage return; or a line with something other
/// than whitespace on it that neither starts with a space nor holds a line
/// break, protected exactly when it is a marker line, and, when not
/// protected, no code fence and no numbered item other than `1. `. (An
/// empty paragraph, for one, is skipped as a blank line and does not read
/// back.)
pub open spec fn reads_back_unchanged(u: UnitView) -> bool {
    let t = u.3;
    &&& u.1 >= 0
    &&& match code_line_body(t) {
        Some(x) => !u.4 && forall|k: int|
            0 <= k < nl_pieces(x).len() ==> trim(#[trigger] nl_pieces(x)[k]) != fence() && !ends_with_cr(
                nl_pieces(x)[k],
            ),
        None => {
            &&& t.len() > 0
            &&& t[0] != ' '
            &&& trim(t).len() > 0
            &&& !t.contains('\n')
            &&& (u.4 <==> protected_marker(t) is Some)
            &&& (!u.4 ==> !has_prefix(t, fence()) && (classify(t).0 != "numbered_list_item"@ || has_prefix(
                t,
                "1. "@,
            )))
        },
    }
}

/// The units of a document that reads back as itself: each unit reads
/// back, and no line but the document's last ends with a carriage return
/// (splitting into lines drops one before a line break).
pub open spec fn doc_reads_back(us: Seq<UnitView>) -> bool {
    &&& forall|k: int| 0 <= k < us.len() ==> reads_back_unchanged(#[trigger] us[k])
    &&& forall|k: int| 0 <= k < us.len() - 1 ==> !ends_with_cr((#[trigger] us[k]).3)
}

/// The line a unit's Markdown parses as.
pub open spec fn unit_parsed(u: UnitView) -> LineView {
    if u.4 {
        (u.1, "protected"@, Seq::empty(), None, protected_marker(u.3))
    } else {
        match code_line_body(u.3) {
            Some(x) => (u.1, "code"@, x, None, None),
            None => {
                let c = classify(u.3);
                (u.1, c.0, c.1, c.2, None)
            },
        }
    }
}

/// The physical lines a unit renders as.
pub open spec fn unit_phys(u: UnitView) -> Seq<Seq<char>> {
    match code_line_body(u.3) {
        Some(x) => seq![indentation(u.1) + fence()] + nl_pieces(x) + seq![fence()],
        None => seq![indentation(u.1) + u.3],
    }
}

/// The physical lines of a document's units, in order.
pub open spec fn phys_lines(us: Seq<UnitView>) -> Seq<Seq<char>>
    decreases us.len(),
{
    if us.len() == 0 {
        Seq::empty()
    } else {
        unit_phys(us[0]) + phys_lines(us.drop_first())
    }
}

/// No line holds a line break or a carriage return.
pub open spec fn clean_lines(ls: Seq<Seq<char>>) -> bool {
    forall|k: int| 0 <= k < ls.len() ==> !(#[trigger] ls[k]).contains('\n') && !ls[k].contains('\r')
}

/// Lines that splitting their joined text gives back: none holds a line
/// break and none but the last ends with a carriage return.
pub open spec fn joinable_lines(ls: Seq<Seq<char>>) -> bool {
    &&& forall|k: int| 0 <= k < ls.len() ==> !(#[trigger] ls[k]).contains('\n')
    &&& forall|k: int| 0 <= k < ls.len() - 1 ==> !ends_with_cr(#[trigger] ls[k])
}

proof fn lemma_clean_joinable(ls: Seq<Seq<char>>)
    requires
        clean_lines(ls),
    ensures
        joinable_lines(ls),
{
    assert forall|k: int| 0 <= k < ls.len() - 1 implies !ends_with_cr(#[trigger] ls[k]) by {
        if ends_with_cr(ls[k]) {
            assert(ls[k][ls[k].len() - 1] == '\r');
            assert(ls[k].contains('\r'));
        }
    }
}

proof fn lemma_no_char(t: Seq<char>, c: char, k: int)
    requires
        !t.contains(c),
        0 <= k < t.len(),
    ensures
        t[k] != c,
{
    if t[k] == c {
        assert(t.contains(c));
    }
}

proof fn lemma_clean_concat(a: Seq<char>, b: Seq<char>)
    requires
        !a.contains('\n') && !a.contains('\r'),
        !b.contains('\n') && !b.contains('\r'),
    ensures
        !(a + b).contains('\n') && !(a + b).contains('\r'),
{
    assert forall|k: int| 0 <= k < (a + b).len() implies (a + b)[k] != '\n' && (a + b)[k] != '\r' by {
        if k < a.len() {
            lemma_no_char(a, '\n', k);
            lemma_no_char(a, '\r', k);
        } else {
            lemma_no_char(b, '\n', k - a.len());
            lemma_no_char(b, '\r', k - a.len());
        }
    }
}

proof fn lemma_indentation_clean(d: int)
    requires
        d >= 0,
    ensures
        !indentation(d).contains('\n') && !indentation(d).contains('\r'),
{
    assert forall|k: int| 0 <= k < indentation(d).len() implies indentation(d)[k] != '\n' && indentation(d)[k]
        != '\r' by {}
}

proof fn lemma_fence_facts()
    ensures
        !fence().contains('\n') && !fence().contains('\r'),
        trim(fence()) == fence(),
        protected_marker(fence()) is None,
        !is_ws('`'),
{
    assert forall|k: int| 0 <= k < fence().len() implies fence()[k] != '\n' && fence()[k] != '\r' by {}
    assert(!is_ws('`'));
    assert(crate::text::lead_ws(fence()) == 0);
    assert(crate::text::trail_ws(fence()) == 0);
    assert(fence().subrange(0, 3) =~= fence());
}

/// A unit's physical lines joined with line breaks are its rendered text.
proof fn lemma_unit_join(u: UnitView)
    requires
        reads_back_unchanged(u),
    ensures
        join(unit_phys(u), seq!['\n']) == indentation(u.1) + u.3,
{
    let nl = seq!['\n'];
    match code_line_body(u.3) {
        Some(x) => {
            let a = indentation(u.1) + fence();
            let xs = nl_pieces(x);
            crate::text::lemma_nl_pieces_from(x, 0);
            assert(x.subrange(0, x.len() as int) =~= x);
            crate::text::lemma_join_append(seq![a], xs, nl);
            crate::text::lemma_join_append(seq![a] + xs, seq![fence()], nl);
            assert(join(seq![a], nl) == a);
            assert(join(seq![fence()], nl) == fence()) by {
                assert(seq![fence()].len() == 1);
            }
            let t = u.3;
            assert(t =~= t.take(4) + x + t.skip(t.len() - 4));
            assert(indentation(u.1) + t =~= a + nl + x + nl + fence());
        },
        None => {
            assert(unit_phys(u).len() == 1);
        },
    }
}

/// Rendering joins the units' texts; that is the physical lines joined.
proof fn lemma_join_phys(us: Seq<UnitView>)
    requires
        forall|k: int| 0 <= k < us.len() ==> reads_back_unchanged(#[trigger] us[k]),
    ensures
        join(unit_lines(us), seq!['\n']) == join(phys_lines(us), seq!['\n']),
        us.len() > 0 ==> phys_lines(us).len() > 0,
    decreases us.len(),
{
    if us.len() > 0 {
        let u = us[0];
        let rest = us.drop_first();
        assert(reads_back_unchanged(u));
        assert forall|k: int| 0 <= k < rest.len() implies reads_back_unchanged(#[trigger] rest[k]) by {
            assert(rest[k] == us[k + 1]);
        }
        lemma_join_phys(rest);
        lemma_unit_join(u);
        assert(unit_lines(us) =~= seq![indentation(u.1) + u.3] + unit_lines(rest));
        crate::text::lemma_join_front(indentation(u.1) + u.3, unit_lines(rest), seq!['\n']);
        if rest.len() > 0 {
            crate::text::lemma_join_append(unit_phys(u), phys_lines(rest), seq!['\n']);
        } else {
            assert(phys_lines(rest) =~= Seq::<Seq<char>>::empty());
            assert(phys_lines(us) =~= unit_phys(u));
        }
    }
}

/// The physical lines split back from their joined text, and the last is
/// not empty.
proof fn lemma_phys_clean(us: Seq<UnitView>)
    requires
        doc_reads_back(us),
    ensures
        joinable_lines(phys_lines(us)),
        phys_lines(us).len() > 0 ==> phys_lines(us).last().len() > 0,
    decreases us.len(),
{
    if us.len() > 0 {
        let u = us[0];
        let rest = us.drop_first();
        assert(reads_back_unchanged(u));
        assert forall|k: int| 0 <= k < rest.len() implies reads_back_unchanged(#[trigger] rest[k]) by {
            assert(rest[k] == us[k + 1]);
        }
        assert forall|k: int| 0 <= k < rest.len() - 1 implies !ends_with_cr((#[trigger] rest[k]).3) by {
            assert(rest[k] == us[k + 1]);
        }
        lemma_phys_clean(rest);
        lemma_indentation_clean(u.1);
        lemma_fence_facts();
        let p = unit_phys(u);
        let r = phys_lines(rest);
        let ind = indentation(u.1);
        match code_line_body(u.3) {
            Some(x) => {
                lemma_clean_concat(ind, fence());
                let xs = nl_pieces(x);
                crate::text::lemma_nl_pieces_from(x, 0);
                assert(p == seq![ind + fence()] + xs + seq![fence()]);
                assert forall|k: int| 0 <= k < p.len() implies !(#[trigger] p[k]).contains('\n') && !ends_with_cr(
                    p[k],
                ) by {
                    if k == 0 {
                        assert(p[k] == ind + fence());
                        assert((ind + fence()).last() == '`');
                    } else if k <= xs.len() {
                        assert(p[k] == xs[k - 1]);
                    } else {
                        assert(p[k] == fence());
                    }
                }
                assert(p.last() == fence());
            },
            None => {
                assert(p == seq![ind + u.3]);
                lemma_no_char_prefix(ind, u.3);
                if rest.len() > 0 {
                    assert(!ends_with_cr(us[0].3));
                    assert((ind + u.3).last() == u.3.last());
                }
            },
        }
        assert forall|k: int| 0 <= k < (p + r).len() implies !(#[trigger] (p + r)[k]).contains('\n') by {
            if k < p.len() {
                assert((p + r)[k] == p[k]);
            } else {
                assert((p + r)[k] == r[k - p.len()]);
            }
        }
        assert forall|k: int| 0 <= k < (p + r).len() - 1 implies !ends_with_cr(#[trigger] (p + r)[k]) by {
            if k < p.len() {
                assert((p + r)[k] == p[k]);
                if k == p.len() - 1 {
                    assert(r.len() > 0);
                    assert(rest.len() > 0);
                }
            } else {
                assert((p + r)[k] == r[k - p.len()]);
            }
        }
        if r.len() == 0 {
            assert((p + r).last() == p.last());
        } else {
            assert((p + r).last() == r.last());
        }
    }
}

/// An indent followed by a text without line breaks has no line break.
proof fn lemma_no_char_prefix(ind: Seq<char>, t: Seq<char>)
    requires
        !ind.contains('\n'),
        !t.contains('\n'),
    ensures
        !(ind + t).contains('\n'),
{
    assert forall|k: int| 0 <= k < (ind + t).len() implies (ind + t)[k] != '\n' by {
        if k < ind.len() {
            lemma_no_char(ind, '\n', k);
        } else {
            lemma_no_char(t, '\n', k - ind.len());
        }
    }
}

/// Where a closing fence is found, seen from inside `a + b`.
proof fn lemma_fence_end_shift(a: Seq<Seq<char>>, b: Seq<Seq<char>>, i: int)
    requires
        0 <= i <= b.len(),
    ensures
        crate::markdown::parse::fence_end(a + b, a.len() + i) == a.len() + crate::markdown::parse::fence_end(b, i),
    decreases b.len() - i,
{
    if i < b.len() {
        assert((a + b)[a.len() + i] == b[i]);
        lemma_fence_end_shift(a, b, i + 1);
    }
}

/// Parsing the lines of `b` from inside `a + b` gives the same lines (and
/// as many warnings, numbered further on).
proof fn lemma_parse_shift(a: Seq<Seq<char>>, b: Seq<Seq<char>>, i: int)
    requires
        0 <= i <= b.len(),
    ensures
        parse_from(a + b, a.len() + i).0 == parse_from(b, i).0,
        parse_from(a + b, a.len() + i).1.len() == parse_from(b, i).1.len(),
    decreases b.len() - i,
{
    let s = a + b;
    let k = a.len() + i;
    if i < b.len() {
        assert(s[k] == b[i]);
        let raw = b[i];
        if crate::text::trim(raw).len() == 0 {
            lemma_parse_shift(a, b, i + 1);
        } else {
            let ind = crate::markdown::parse::indent(raw);
            let t = raw.skip(ind as int);
            if protected_marker(t) is Some {
                lemma_parse_shift(a, b, i + 1);
            } else if has_prefix(t, fence()) {
                crate::markdown::parse::lemma_fence_end(b, i + 1);
                lemma_fence_end_shift(a, b, i + 1);
                let j = crate::markdown::parse::fence_end(b, i + 1);
                assert(s.subrange(k + 1, a.len() + j) =~= b.subrange(i + 1, j));
                if j < b.len() {
                    lemma_parse_shift(a, b, j + 1);
                }
            } else {
                lemma_parse_shift(a, b, i + 1);
            }
        }
    }
}

/// Parsing the physical lines of units that read back gives their lines.
proof fn lemma_parse_phys(us: Seq<UnitView>)
    requires
        forall|k: int| 0 <= k < us.len() ==> reads_back_unchanged(#[trigger] us[k]),
    ensures
        parse_from(phys_lines(us), 0) == (us.map_values(|u: UnitView| unit_parsed(u)), Seq::<int>::empty()),
    decreases us.len(),
{
    let ls = phys_lines(us);
    if us.len() == 0 {
        assert(us.map_values(|u: UnitView| unit_parsed(u)) =~= Seq::<LineView>::empty());
    } else {
        let u = us[0];
        let rest = us.drop_first();
        assert(reads_back_unchanged(u));
        assert forall|k: int| 0 <= k < rest.len() implies reads_back_unchanged(#[trigger] rest[k]) by {
            assert(rest[k] == us[k + 1]);
        }
        lemma_parse_phys(rest);
        let p = unit_phys(u);
        let r = phys_lines(rest);
        assert(ls == p + r);
        lemma_parse_shift(p, r, 0);
        let d = u.1;
        let n = 2 * d;
        assert(is_ws(' '));
        assert(n / 2 == d);
        lemma_fence_facts();
        match code_line_body(u.3) {
            Some(x) => {
                let raw = indentation(d) + fence();
                let xs = nl_pieces(x);
                crate::text::lemma_nl_pieces_from(x, 0);
                assert(x.subrange(0, x.len() as int) =~= x);
                let m = xs.len() as int;
                assert(p == seq![raw] + xs + seq![fence()]);
                assert(ls[0] == raw);
                assert(raw[n] == '`');
                lemma_trim_nonempty(raw, n);
                lemma_indent(raw, n);
                assert(raw.skip(n) =~= fence());
                assert(has_prefix(raw.skip(n), fence())) by {
                    assert(fence().take(3) =~= fence());
                }
                crate::markdown::parse::lemma_fence_end(ls, 1);
                let j = crate::markdown::parse::fence_end(ls, 1);
                assert forall|k: int| 1 <= k <= m implies trim(#[trigger] ls[k]) != fence() by {
                    assert(ls[k] == p[k]);
                    assert(p[k] == xs[k - 1]);
                }
                assert(ls[m + 1] == fence());
                if j < m + 1 {
                    assert(trim(ls[j]) == fence());
                }
                if j > m + 1 {
                    assert(trim(ls[m + 1]) != fence());
                }
                assert(j == m + 1);
                assert(ls.subrange(1, j) =~= xs);
                assert(p.len() == m + 2);
                assert(parse_from(ls, 0).0 =~= seq![unit_parsed(u)] + parse_from(ls, m + 2).0);
            },
            None => {
                let t = u.3;
                let raw = indentation(d) + t;
                assert(ls[0] == raw);
                assert(raw[n] == t[0]);
                crate::text::lemma_lead_ws_props(t);
                let a = crate::text::lead_ws(t) as int;
                assert(a < t.len());
                assert(raw[n + a] == t[a]);
                lemma_trim_nonempty(raw, n + a);
                lemma_indent(raw, n);
                assert(raw.skip(n) =~= t);
            },
        }
        assert(us.map_values(|u: UnitView| unit_parsed(u)) =~= seq![unit_parsed(u)] + rest.map_values(
            |u: UnitView| unit_parsed(u),
        ));
        assert(parse_from(ls, 0).1 =~= Seq::<int>::empty());
    }
}

proof fn lemma_editable_bounds(us: Seq<UnitView>, n: int, j: int)
    requires
        0 <= n <= us.len(),
        0 <= j < editable_upto(us, n).len(),
    ensures
        0 <= editable_upto(us, n)[j] < n,
        !us[editable_upto(us, n)[j]].4,
    decreases n,
{
    if n > 0 {
        let r = editable_upto(us, n - 1);
        if !(!us[n - 1].4 && j == r.len()) {
            lemma_editable_bounds(us, n - 1, j);
        }
    }
}

proof fn lemma_positions(us: Seq<UnitView>, ls: Seq<LineView>, n: int)
    requires
        0 <= n <= us.len(),
        ls.len() == us.len(),
        forall|k: int| 0 <= k < us.len() ==> (#[trigger] ls[k].4 is None <==> !us[k].4),
    ensures
        new_editable_upto(ls, n) == editable_upto(us, n),
    decreases n,
{
    if n > 0 {
        assert(ls[n - 1].4 is None <==> !us[n - 1].4);
        lemma_positions(us, ls, n - 1);
    }
}

/// `t` as its classification renders it back.
proof fn lemma_classify_reads_back(t: Seq<char>)
    requires
        classify(t).0 != "numbered_list_item"@ || has_prefix(t, "1. "@),
    ensures
        ({
            let c = classify(t);
            parsed_text((0, c.0, c.1, c.2, None)) == t
        }),
{
    reveal_strlit("heading_1");
    reveal_strlit("heading_2");
    reveal_strlit("heading_3");
    reveal_strlit("to_do");
    reveal_strlit("bulleted_list_item");
    reveal_strlit("numbered_list_item");
    reveal_strlit("quote");
    reveal_strlit("divider");
    reveal_strlit("code");
    reveal_strlit("paragraph");
    reveal_strlit("# ");
    reveal_strlit("## ");
    reveal_strlit("### ");
    reveal_strlit("- [");
    reveal_strlit("] ");
    reveal_strlit("x");
    reveal_strlit(" ");
    reveal_strlit("- ");
    reveal_strlit("1. ");
    reveal_strlit("> ");
    reveal_strlit("---");
    assert("heading_1"@[8] != "heading_2"@[8]);
    assert("heading_1"@[8] != "heading_3"@[8]);
    assert("heading_2"@[8] != "heading_3"@[8]);
    assert("quote"@[0] != "to_do"@[0]);
    assert("numbered_list_item"@[0] != "bulleted_list_item"@[0]);
    let c = classify(t);
    let l: LineView = (0, c.0, c.1, c.2, None);
    if has_prefix(t, seq!['#', '#', '#', ' ']) {
        assert(c.0 == "heading_3"@);
        assert("### "@ + t.skip(4) =~= t);
        assert(parsed_text(l) == t);
    } else if has_prefix(t, seq!['#', '#', ' ']) {
        assert(c.0 == "heading_2"@);
        assert("## "@ + t.skip(3) =~= t);
        assert(parsed_text(l) == t);
    } else if has_prefix(t, seq!['#', ' ']) {
        assert(c.0 == "heading_1"@);
        assert("# "@ + t.skip(2) =~= t);
        assert(parsed_text(l) == t);
    } else if has_prefix(t, seq!['-', ' ', '[', 'x', ']', ' ']) {
        assert(c.0 == "to_do"@);
        assert("- ["@ + "x"@ + "] "@ + t.skip(6) =~= t);
        assert(parsed_text(l) == t);
    } else if has_prefix(t, seq!['-', ' ', '[', ' ', ']', ' ']) {
        assert(c.0 == "to_do"@);
        assert("- ["@ + " "@ + "] "@ + t.skip(6) =~= t);
        assert(parsed_text(l) == t);
    } else if has_prefix(t, seq!['>', ' ']) {
        assert(c.0 == "quote"@);
        assert("> "@ + t.skip(2) =~= t);
        assert(parsed_text(l) == t);
    } else if t == seq!['-', '-', '-'] {
        assert(c.0 == "divider"@);
        assert("---"@ =~= t);
        assert(parsed_text(l) == t);
    } else if has_prefix(t, seq!['-', ' ']) {
        assert(c.0 == "bulleted_list_item"@);
        assert("- "@ + t.skip(2) =~= t);
        assert(parsed_text(l) == t);
    } else if c.0 == "numbered_list_item"@ {
        assert(has_prefix(t, "1. "@));
        assert(t[0] == '1' && t[1] == '.' && t[2] == ' ') by {
            assert(t.take(3) == "1. "@);
            assert(t.take(3)[0] == t[0]);
            assert(t.take(3)[1] == t[1]);
            assert(t.take(3)[2] == t[2]);
        }
        let p = seq!['.', ' '];
        assert(!occurs_at(t, p, 0));
        assert(occurs_at(t, p, 1)) by {
            assert(t.subrange(1, 3) =~= p);
        }
        assert(find_from(t, p, 1) == Some(1int));
        assert(find_from(t, p, 0) == Some(1int));
        assert(find(t, p) == Some(1int));
        assert(c.1 == t.skip(3));
        assert("1. "@ + t.skip(3) =~= t);
        assert(parsed_text(l) == t);
    } else {
        assert(c.0 == "paragraph"@);
        assert(parsed_text(l) == t);
    }
}

/// A code block without a language renders back as itself.
proof fn lemma_code_reads_back(t: Seq<char>)
    requires
        code_line_body(t) is Some,
    ensures
        parsed_text((0, "code"@, code_line_body(t).unwrap(), None, None)) == t,
{
    reveal_strlit("heading_1");
    reveal_strlit("heading_2");
    reveal_strlit("heading_3");
    reveal_strlit("to_do");
    reveal_strlit("bulleted_list_item");
    reveal_strlit("numbered_list_item");
    reveal_strlit("quote");
    reveal_strlit("divider");
    reveal_strlit("code");
    reveal_strlit("```\n");
    reveal_strlit("\n```");
    let x = code_line_body(t).unwrap();
    assert(t.take(4) =~= "```\n"@);
    assert(t.skip(t.len() - 4) =~= "\n```"@);
    assert(t =~= t.take(4) + x + t.skip(t.len() - 4));
    assert("```\n"@ + x + "\n```"@ =~= t);
    assert("code"@.len() == 4);
    assert(parsed_text((0, "code"@, x, None, None)) == "```\n"@ + x + "\n```"@);
}

/// What was rendered reads back: parsing the document rendered from units
/// that read back as themselves (code blocks without a language among
/// them) gives back exactly their editable texts, in order, with no
/// warning.
pub proof fn law_rendered_markdown_reads_back(us: Seq<UnitView>)
    requires
        doc_reads_back(us),
    ensures
        new_texts(parse_spec(join(unit_lines(us), seq!['\n'])).0) == old_texts(us),
        parse_spec(join(unit_lines(us), seq!['\n'])).1.len() == 0,
{
    let ps = phys_lines(us);
    lemma_join_phys(us);
    lemma_phys_clean(us);
    lemma_lines_join(ps);
    lemma_parse_phys(us);
    let ls = us.map_values(|u: UnitView| unit_parsed(u));
    assert(parse_spec(join(unit_lines(us), seq!['\n'])).0 == ls);
    assert forall|k: int| 0 <= k < us.len() implies (#[trigger] ls[k].4 is None <==> !us[k].4) by {
        assert(reads_back_unchanged(us[k]));
    }
    lemma_positions(us, ls, us.len() as int);
    let e = editable(us);
    assert(new_positions(ls) == e);
    assert forall|j: int| 0 <= j < e.len() implies #[trigger] new_texts(ls)[j] == old_texts(us)[j] by {
        lemma_editable_bounds(us, us.len() as int, j);
        let u = us[e[j]];
        assert(reads_back_unchanged(u));
        assert(!u.4);
        match code_line_body(u.3) {
            Some(x) => lemma_code_reads_back(u.3),
            None => lemma_classify_reads_back(u.3),
        }
    }
    assert(new_texts(ls) =~= old_texts(us));
}

/// Saving the Markdown unchanged plans no edit: for units whose lines read
/// back as themselves, applying the document rendered from them neither
/// edits nor creates a block.
pub proof fn law_saving_unchanged_markdown_plans_no_edits(us: Seq<UnitView>, bs: Seq<BlockRec>)
    requires
        doc_reads_back(us),
    ensures
        plan_spec(us, parse_spec(join(unit_lines(us), seq!['\n'])).0, bs).edits.len() == 0,
        plan_spec(us, parse_spec(join(unit_lines(us), seq!['\n'])).0, bs).inserted == 0,
{
    law_rendered_markdown_reads_back(us);
    law_unchanged_text_plans_no_edits(us, parse_spec(join(unit_lines(us), seq!['\n'])).0, bs);
}

/// Saving the document unchanged changes nothing: when the edited text's
/// editable lines read back as exactly the page's editable texts, in order,
/// the plan holds no edit and creates no block.
pub proof fn law_unchanged_text_plans_no_edits(us: Seq<UnitView>, ls: Seq<LineView>, bs: Seq<BlockRec>)
    requires
        new_texts(ls) == old_texts(us),
    ensures
        plan_spec(us, ls, bs).edits.len() == 0,
        plan_spec(us, ls, bs).inserted == 0,
{
    let xs = old_texts(us);
    lemma_no_leftover_new(xs, xs.len() as int);
    lemma_no_leftover_old(xs, xs.len() as int);
    let t = leftover_texts(us, ls);
    assert(t.0.len() == 0 && t.1.len() == 0);
    assert(diff_steps(t) =~= Seq::<DiffStep>::empty());
}

/// How many edits of `es` are text updates.
pub open spec fn count_updates(es: Seq<EditView>) -> int
    decreases es.len(),
{
    if es.len() == 0 {
        0
    } else {
        count_updates(es.drop_last()) + if es.last() is UpdateText {
            1int
        } else {
            0int
        }
    }
}

/// How many edits of `es` are deletions.
pub open spec fn count_deletes(es: Seq<EditView>) -> int
    decreases es.len(),
{
    if es.len() == 0 {
        0
    } else {
        count_deletes(es.drop_last()) + if es.last() is Delete {
            1int
        } else {
            0int
        }
    }
}

/// What applying an edited document takes.
pub struct EditPlan {
    /// The parsed edited document.
    pub lines: Vec<ParsedLine>,
    /// Protected blocks whose marker is gone and whose deletion was not confirmed.
    pub protected_missing: Vec<String>,
    /// The changes to make, in order (after deleting the confirmed protected blocks).
    pub edits: Vec<Edit>,
    /// The block each document line stands for once the edits are made.
    pub line_ids: Vec<Option<BlockRef>>,
    pub inserted: usize,
    pub updated: usize,
    /// Deletions among `edits`.
    pub deleted: usize,
    /// Confirmed protected deletions, made before the edits.
    pub confirmed_deleted: usize,
}

/// `x` as a `u32`, saturating.
pub open spec fn sat32(x: int) -> u32 {
    if x > u32::MAX {
        u32::MAX
    } else {
        x as u32
    }
}

fn to_u32(x: usize) -> (r: u32)
    ensures
        r == sat32(x as int),
{
    if x > u32::MAX as usize {
        u32::MAX
    } else {
        x as u32
    }
}

impl EditPlan {
    /// What applying the plan did, once `reordered` blocks were moved
    /// (counts saturate at `u32::MAX`).
    pub fn applied(&self, reordered: usize) -> (r: Applied)
        ensures
            r.inserted == sat32(self.inserted as int),
            r.updated == sat32(self.updated as int),
            r.deleted == sat32(self.deleted + self.confirmed_deleted),
            r.reordered == sat32(reordered as int),
            texts(r.protected_missing@) == texts(self.protected_missing@),
    {
        let deleted = if self.deleted > usize::MAX - self.confirmed_deleted {
            u32::MAX
        } else {
            to_u32(self.deleted + self.confirmed_deleted)
        };
        let mut missing: Vec<String> = Vec::new();
        let mut i: usize = 0;
        while i < self.protected_missing.len()
            invariant
                i <= self.protected_missing@.len(),
                missing@ == self.protected_missing@.take(i as int),
            decreases self.protected_missing@.len() - i,
        {
            missing.push(self.protected_missing[i].clone());
            i += 1;
            proof {
                assert(missing@ =~= self.protected_missing@.take(i as int));
            }
        }
        proof {
            assert(self.protected_missing@.take(self.protected_missing@.len() as int) =~= self.protected_missing@);
        }
        Applied {
            inserted: to_u32(self.inserted),
            updated: to_u32(self.updated),
            deleted,
            reordered: to_u32(reordered),
            protected_missing: missing,
        }
    }
}

fn marker_in(lines: &Vec<ParsedLine>, id: &String) -> (r: bool)
    ensures
        r == marker_present(lines_view(lines@), id@),
{
    let mut i: usize = 0;
    while i < lines.len()
        invariant
            i <= lines@.len(),
            forall|k: int| 0 <= k < i ==> (#[trigger] lines_view(lines@)[k]).4 != Some(id@),
        decreases lines@.len() - i,
    {
        match &lines[i].protected_id {
            Some(p) => {
                if str_eq(p.as_str(), id.as_str()) {
                    assert(lines_view(lines@)[i as int].4 == Some(id@));
                    return true;
                }
            },
            None => {},
        }
        assert(lines_view(lines@)[i as int] == lines@[i as int].view());
        i += 1;
    }
    false
}

fn holds_exec(v: &Vec<String>, id: &String) -> (r: bool)
    ensures
        r == holds(texts(v@), id@),
{
    let mut i: usize = 0;
    while i < v.len()
        invariant
            i <= v@.len(),
            forall|k: int| 0 <= k < i ==> #[trigger] texts(v@)[k] != id@,
        decreases v@.len() - i,
    {
        if str_eq(v[i].as_str(), id.as_str()) {
            assert(texts(v@)[i as int] == id@);
            return true;
        }
        i += 1;
    }
    false
}

fn missing_protected(before: &Vec<Unit>, lines: &Vec<ParsedLine>, confirmed: &Vec<String>) -> (r: Vec<String>)
    ensures
        texts(r@) == missing_upto(
            units_view(before@),
            lines_view(lines@),
            texts(confirmed@),
            before@.len() as int,
        ),
{
    let ghost us = units_view(before@);
    let mut out: Vec<String> = Vec::new();
    let mut i: usize = 0;
    while i < before.len()
        invariant
            i <= before@.len(),
            us == units_view(before@),
            texts(out@) == missing_upto(us, lines_view(lines@), texts(confirmed@), i as int),
        decreases before@.len() - i,
    {
        let u = &before[i];
        assert(us[i as int] == u.view());
        if u.protected && !marker_in(lines, &u.id) && !holds_exec(confirmed, &u.id) {
            out.push(u.id.clone());
            proof {
                assert(texts(out@) =~= missing_upto(us, lines_view(lines@), texts(confirmed@), i + 1));
            }
        }
        i += 1;
    }
    out
}

fn editable_positions(before: &Vec<Unit>) -> (r: Vec<usize>)
    ensures
        idx_view(r@) == editable(units_view(before@)),
        forall|k: int| 0 <= k < r@.len() ==> #[trigger] r@[k] < before@.len(),
{
    let ghost us = units_view(before@);
    let mut out: Vec<usize> = Vec::new();
    let mut i: usize = 0;
    while i < before.len()
        invariant
            i <= before@.len(),
            us == units_view(before@),
            idx_view(out@) == editable_upto(us, i as int),
            forall|k: int| 0 <= k < out@.len() ==> #[trigger] out@[k] < i,
        decreases before@.len() - i,
    {
        assert(us[i as int] == before@[i as int].view());
        if !before[i].protected {
            out.push(i);
            proof {
                assert(idx_view(out@) =~= editable_upto(us, i + 1));
            }
        }
        i += 1;
    }
    out
}

fn line_positions(lines: &Vec<ParsedLine>) -> (r: Vec<usize>)
    ensures
        idx_view(r@) == new_positions(lines_view(lines@)),
        forall|k: int| 0 <= k < r@.len() ==> #[trigger] r@[k] < lines@.len(),
{
    let ghost ls = lines_view(lines@);
    let mut out: Vec<usize> = Vec::new();
    let mut i: usize = 0;
    while i < lines.len()
        invariant
            i <= lines@.len(),
            ls == lines_view(lines@),
            idx_view(out@) == new_editable_upto(ls, i as int),
            forall|k: int| 0 <= k < out@.len() ==> #[trigger] out@[k] < i,
        decreases lines@.len() - i,
    {
        assert(ls[i as int] == lines@[i as int].view());
        if lines[i].protected_id.is_none() {
            out.push(i);
            proof {
                assert(idx_view(out@) =~= new_editable_upto(ls, i + 1));
            }
        }
        i += 1;
    }
    out
}

pub open spec fn char_texts(v: Seq<Vec<char>>) -> Seq<Seq<char>> {
    v.map_values(|x: Vec<char>| x@)
}

/// Plans applying `edited_text` to a page whose units were `before`, given
/// the protected blocks whose deletion the user confirmed and the page's
/// blocks once those are deleted.
pub fn plan_edit(
    before: &Vec<Unit>,
    edited_text: &str,
    delete_protected: &Vec<String>,
    current: &Vec<BlockRec>,
) -> (r: EditPlan)
    ensures
        lines_view(r.lines@) == parse_spec(edited_text@).0,
        texts(r.protected_missing@) == missing_upto(
            units_view(before@),
            parse_spec(edited_text@).0,
            texts(delete_protected@),
            before@.len() as int,
        ),
        edits_view(r.edits@) == plan_spec(units_view(before@), parse_spec(edited_text@).0, current@).edits,
        ids_view(r.line_ids@) == plan_spec(units_view(before@), parse_spec(edited_text@).0, current@).ids,
        r.inserted == plan_spec(units_view(before@), parse_spec(edited_text@).0, current@).inserted,
        r.updated == count_updates(edits_view(r.edits@)),
        r.deleted == count_deletes(edits_view(r.edits@)),
        r.confirmed_deleted == delete_protected@.len(),
{
    let lines = parse_markdown(edited_text);
    let ghost us = units_view(before@);
    let ghost ls = lines_view(lines@);
    let protected_missing = missing_protected(before, &lines, delete_protected);
    let ed = editable_positions(before);
    let np = line_positions(&lines);
    // the editable texts before and after
    let mut olds: Vec<Vec<char>> = Vec::new();
    let mut i: usize = 0;
    while i < ed.len()
        invariant
            i <= ed@.len(),
            us == units_view(before@),
            idx_view(ed@) == editable(us),
            forall|k: int| 0 <= k < ed@.len() ==> #[trigger] ed@[k] < before@.len(),
            olds@.len() == i,
            forall|k: int| 0 <= k < i ==> (#[trigger] olds@[k])@ == old_texts(us)[k],
        decreases ed@.len() - i,
    {
        let ghost pos = ed@[i as int];
        olds.push(chars_of(before[ed[i]].text.as_str()));
        i += 1;
        proof {
            assert(idx_view(ed@)[i - 1] == pos as int);
            assert(us[pos as int] == before@[pos as int].view());
            assert(old_texts(us)[i - 1] == us[pos as int].3);
        }
    }
    proof {
        assert(char_texts(olds@) =~= old_texts(us));
    }
    let mut news: Vec<Vec<char>> = Vec::new();
    let mut j: usize = 0;
    while j < np.len()
        invariant
            j <= np@.len(),
            ls == lines_view(lines@),
            idx_view(np@) == new_positions(ls),
            forall|k: int| 0 <= k < np@.len() ==> #[trigger] np@[k] < lines@.len(),
            news@.len() == j,
            forall|k: int| 0 <= k < j ==> (#[trigger] news@[k])@ == new_texts(ls)[k],
        decreases np@.len() - j,
    {
        let ghost pos = np@[j as int];
        let t = render_parsed_text(&lines[np[j]]);
        news.push(chars_of(t.as_str()));
        j += 1;
        proof {
            assert(idx_view(np@)[j - 1] == pos as int);
            assert(ls[pos as int] == lines@[pos as int].view());
            assert(new_texts(ls)[j - 1] == parsed_text(ls[pos as int]));
        }
    }
    proof {
        assert(char_texts(news@) =~= new_texts(ls));
    }
    let ghost olds_v = old_texts(us);
    let ghost news_v = new_texts(ls);
    // pass 1a: equal texts pair up in order
    let mut ids: Vec<Option<BlockRef>> = Vec::new();
    let mut i: usize = 0;
    while i < lines.len()
        invariant
            i <= lines@.len(),
            ls == lines_view(lines@),
            ids@.len() == i,
            forall|k: int| 0 <= k < i ==> #[trigger] ids_view(ids@)[k] == init_ids_upto(us, ls, 0)[k],
        decreases lines@.len() - i,
    {
        let r = match &lines[i].protected_id {
            Some(p) => Some(BlockRef::Existing(p.clone())),
            None => None,
        };
        let ghost rv = ref_opt(r);
        let ghost prev = ids@;
        ids.push(r);
        i += 1;
        proof {
            assert forall|k: int| 0 <= k < i - 1 implies #[trigger] ids_view(ids@)[k] == init_ids_upto(us, ls, 0)[k] by {
                assert(ids@[k] == prev[k]);
                assert(ids_view(prev)[k] == init_ids_upto(us, ls, 0)[k]);
            }
            assert(ls[i - 1] == lines@[i - 1].view());
            assert(ids_view(ids@)[i - 1] == rv);
            assert(rv == init_ids_upto(us, ls, 0)[i - 1]);
        }
    }
    proof {
        assert(ids_view(ids@) =~= init_ids_upto(us, ls, 0));
    }
    let mut matched_old: Vec<bool> = Vec::new();
    let mut i: usize = 0;
    while i < olds.len()
        invariant
            i <= olds@.len(),
            matched_old@.len() == i,
            forall|k: int| 0 <= k < i ==> !matched_old@[k],
        decreases olds@.len() - i,
    {
        matched_old.push(false);
        i += 1;
    }
    let mut leftover_new: Vec<usize> = Vec::new();
    let mut j: usize = 0;
    proof {
        assert(idx_view(leftover_new@) =~= leftover_new_upto(olds_v, news_v, 0));
        assert(news@.len() == char_texts(news@).len());
        assert(olds@.len() == char_texts(olds@).len());
    }
    while j < news.len()
        invariant
            j <= news@.len(),
            news@.len() == np@.len(),
            olds@.len() == ed@.len(),
            char_texts(olds@) == olds_v,
            char_texts(news@) == news_v,
            olds_v == old_texts(us),
            news_v == new_texts(ls),
            us == units_view(before@),
            ls == lines_view(lines@),
            idx_view(ed@) == editable(us),
            idx_view(np@) == new_positions(ls),
            forall|k: int| 0 <= k < ed@.len() ==> #[trigger] ed@[k] < before@.len(),
            forall|k: int| 0 <= k < np@.len() ==> #[trigger] np@[k] < lines@.len(),
            ids_view(ids@) == init_ids_upto(us, ls, j as int),
            ids@.len() == lines@.len(),
            matched_old@.len() == olds@.len(),
            forall|o: int|
                0 <= o < olds@.len() ==> (matched_old@[o] <==> exists|q: int|
                    0 <= q < j && #[trigger] match_of(olds_v, news_v, q) == Some(o)),
            idx_view(leftover_new@) == leftover_new_upto(olds_v, news_v, j as int),
            forall|k: int| 0 <= k < leftover_new@.len() ==> #[trigger] leftover_new@[k] < j,
        decreases news@.len() - j,
    {
        let k = count_equal(&news, &news[j], j);
        let m = find_nth(&olds, &news[j], k);
        proof {
            assert(char_texts(news@)[j as int] == news@[j as int]@);
        }
        match m {
            Some(o) => {
                proof {
                    assert(match_of(olds_v, news_v, j as int) == Some(o as int));
                    assert(0 <= o < olds_v.len());
                }
                let line = np[j];
                let id = before[ed[o]].id.clone();
                ids.set(line, Some(BlockRef::Existing(id)));
                matched_old.set(o, true);
                proof {
                    assert(us[ed@[o as int] as int] == before@[ed@[o as int] as int].view());
                    assert(ids_view(ids@) =~= init_ids_upto(us, ls, j + 1));
                    assert forall|o2: int|
                        0 <= o2 < olds@.len() implies (matched_old@[o2] <==> exists|q: int|
                            0 <= q < j + 1 && #[trigger] match_of(olds_v, news_v, q) == Some(o2)) by {
                        if o2 == o {
                            assert(match_of(olds_v, news_v, j as int) == Some(o2));
                        } else {
                            if exists|q: int| 0 <= q < j + 1 && #[trigger] match_of(olds_v, news_v, q) == Some(o2) {
                                let q = choose|q: int| 0 <= q < j + 1 && #[trigger] match_of(olds_v, news_v, q) == Some(o2);
                                assert(q < j);
                            }
                        }
                    }
                }
            },
            None => {
                leftover_new.push(j);
                proof {
                    assert(match_of(olds_v, news_v, j as int) is None);
                    assert(idx_view(leftover_new@) =~= leftover_new_upto(olds_v, news_v, j + 1));
                    assert forall|o2: int|
                        0 <= o2 < olds@.len() implies (matched_old@[o2] <==> exists|q: int|
                            0 <= q < j + 1 && #[trigger] match_of(olds_v, news_v, q) == Some(o2)) by {
                        if exists|q: int| 0 <= q < j + 1 && #[trigger] match_of(olds_v, news_v, q) == Some(o2) {
                            let q = choose|q: int| 0 <= q < j + 1 && #[trigger] match_of(olds_v, news_v, q) == Some(o2);
                            assert(q < j);
                        }
                    }
                }
            },
        }
        j += 1;
    }
    let mut leftover_old: Vec<usize> = Vec::new();
    let mut i: usize = 0;
    proof {
        assert(idx_view(leftover_old@) =~= leftover_old_upto(olds_v, news_v, 0));
    }
    while i < olds.len()
        invariant
            i <= olds@.len(),
            matched_old@.len() == olds@.len(),
            char_texts(olds@) == olds_v,
            char_texts(news@) == news_v,
            forall|o: int| 0 <= o < olds@.len() ==> (matched_old@[o] <==> old_matched(olds_v, news_v, o)),
            idx_view(leftover_old@) == leftover_old_upto(olds_v, news_v, i as int),
            forall|k: int| 0 <= k < leftover_old@.len() ==> #[trigger] leftover_old@[k] < i,
        decreases olds@.len() - i,
    {
        if !matched_old[i] {
            leftover_old.push(i);
            proof {
                assert(idx_view(leftover_old@) =~= leftover_old_upto(olds_v, news_v, i + 1));
            }
        }
        i += 1;
    }
    // the diff pass over what is left
    let ghost c = pass_ctx(us, ls);
    let mut old_ids: Vec<String> = Vec::new();
    let mut old_strs: Vec<String> = Vec::new();
    let mut d: usize = 0;
    while d < leftover_old.len()
        invariant
            d <= leftover_old@.len(),
            us == units_view(before@),
            idx_view(ed@) == editable(us),
            char_texts(olds@) == olds_v,
            olds_v == old_texts(us),
            forall|k: int| 0 <= k < ed@.len() ==> #[trigger] ed@[k] < before@.len(),
            forall|k: int| 0 <= k < leftover_old@.len() ==> #[trigger] leftover_old@[k] < olds@.len(),
            olds@.len() == ed@.len(),
            old_ids@.len() == d,
            old_strs@.len() == d,
            forall|k: int| 0 <= k < d ==> (#[trigger] old_ids@[k])@ == us[editable(us)[leftover_old@[k] as int]].0,
            forall|k: int| 0 <= k < d ==> (#[trigger] old_strs@[k])@ == olds_v[leftover_old@[k] as int],
        decreases leftover_old@.len() - d,
    {
        let o = leftover_old[d];
        old_ids.push(before[ed[o]].id.clone());
        old_strs.push(crate::text::string_of(&olds[o]));
        proof {
            assert(us[ed@[o as int] as int] == before@[ed@[o as int] as int].view());
            assert(char_texts(olds@)[o as int] == olds@[o as int]@);
        }
        d += 1;
    }
    let mut new_lines: Vec<usize> = Vec::new();
    let mut new_strs: Vec<String> = Vec::new();
    let mut e: usize = 0;
    while e < leftover_new.len()
        invariant
            e <= leftover_new@.len(),
            idx_view(np@) == new_positions(ls),
            char_texts(news@) == news_v,
            forall|k: int| 0 <= k < np@.len() ==> #[trigger] np@[k] < lines@.len(),
            forall|k: int| 0 <= k < leftover_new@.len() ==> #[trigger] leftover_new@[k] < news@.len(),
            news@.len() == np@.len(),
            new_lines@.len() == e,
            new_strs@.len() == e,
            forall|k: int| 0 <= k < e ==> #[trigger] new_lines@[k] as int == new_positions(ls)[leftover_new@[k] as int],
            forall|k: int| 0 <= k < e ==> #[trigger] new_lines@[k] < lines@.len(),
            forall|k: int| 0 <= k < e ==> (#[trigger] new_strs@[k])@ == news_v[leftover_new@[k] as int],
        decreases leftover_new@.len() - e,
    {
        let q = leftover_new[e];
        new_lines.push(np[q]);
        new_strs.push(crate::text::string_of(&news[q]));
        proof {
            assert(char_texts(news@)[q as int] == news@[q as int]@);
        }
        e += 1;
    }
    let ctx = Ctx { old_ids, new_lines };
    proof {
        assert(texts(ctx.old_ids@) =~= c.old_ids);
        assert(idx_view(ctx.new_lines@) =~= c.new_lines);
        assert(texts(old_strs@) =~= leftover_texts(us, ls).0);
        assert(texts(new_strs@) =~= leftover_texts(us, ls).1);
    }
    let mut anchor_pos: Option<usize> = None;
    let mut b: usize = 0;
    while b < current.len()
        invariant
            b <= current@.len(),
            match anchor_pos {
                Some(i) => last_top_upto(current@, b as int) == Some(i as int) && i < b,
                None => last_top_upto(current@, b as int) is None,
            },
        decreases current@.len() - b,
    {
        if current[b].parent_block_id.is_none() {
            let better = match anchor_pos {
                Some(i) => current[b].ordinal >= current[i].ordinal,
                None => true,
            };
            if better {
                anchor_pos = Some(b);
            }
        }
        b += 1;
    }
    let anchor = match anchor_pos {
        Some(i) => Some(BlockRef::Existing(current[i].id.clone())),
        None => None,
    };
    let mut pass = Pass { edits: Vec::new(), ids, dels: Vec::new(), ins: Vec::new(), anchor, inserted: 0 };
    let steps = if old_strs.len() == 0 && new_strs.len() == 0 {
        Vec::new()
    } else {
        diff_lines(&old_strs, &new_strs)
    };
    proof {
        assert(steps@ == diff_steps(leftover_texts(us, ls)));
    }
    let ghost st0 = pass.view();
    proof {
        assert(pass.view().edits =~= Seq::<EditView>::empty());
        assert(idx_view(pass.dels@) =~= Seq::<int>::empty());
        assert(idx_view(pass.ins@) =~= Seq::<int>::empty());
    }
    let mut k: usize = 0;
    while k < steps.len()
        invariant
            k <= steps@.len(),
            pass.fits(&ctx, lines@),
            steps_fit(steps@, ctx.old_ids@.len() as int, ctx.new_lines@.len() as int),
            pass.view() == pass_upto(st0, ctx_view(&ctx, lines@), steps@, k as int),
        decreases steps@.len() - k,
    {
        let s = steps[k];
        step_pass(&mut pass, &ctx, &lines, s);
        k += 1;
    }
    flush_pass(&mut pass, &ctx, &lines);
    proof {
        assert(ctx_view(&ctx, lines@) == c);
    }
    let mut updated: usize = 0;
    let mut deleted: usize = 0;
    let mut q: usize = 0;
    while q < pass.edits.len()
        invariant
            q <= pass.edits@.len(),
            updated == count_updates(edits_view(pass.edits@.take(q as int))),
            deleted == count_deletes(edits_view(pass.edits@.take(q as int))),
            updated + deleted <= q,
        decreases pass.edits@.len() - q,
    {
        proof {
            assert(edits_view(pass.edits@.take(q + 1)).drop_last() =~= edits_view(pass.edits@.take(q as int)));
        }
        match &pass.edits[q] {
            Edit::UpdateText { .. } => updated += 1,
            Edit::Delete { .. } => deleted += 1,
            _ => {},
        }
        q += 1;
    }
    proof {
        assert(pass.edits@.take(pass.edits@.len() as int) =~= pass.edits@);
    }
    EditPlan {
        lines,
        protected_missing,
        edits: pass.edits,
        line_ids: pass.ids,
        inserted: pass.inserted,
        updated,
        deleted,
        confirmed_deleted: delete_protected.len(),
    }
}

/// A move of a block to its place in the edited document.
pub struct Reorder {
    pub id: String,
    pub parent: Option<String>,
    /// The sibling it goes after (first among its siblings when `None`).
    pub after: Option<String>,
    pub ordinal: i64,
}

/// A move as plain values: `(id, parent, after, ordinal)`.
pub type ReorderView = (Seq<char>, Option<Seq<char>>, Option<Seq<char>>, int);

pub open spec fn reorder_view(r: Reorder) -> ReorderView {
    (r.id@, opt_view(r.parent), opt_view(r.after), r.ordinal as int)
}

/// Sibling groups are keyed by depth and parent.
pub type SiblingKey = (int, Option<Seq<char>>);

/// The resync walk's state: the open ancestors (depth, id), how many
/// siblings each group has so far, the last sibling placed in each group
/// (both as lists keyed by group), and the moves so far.
pub struct ResyncState {
    pub stack: Seq<(int, Seq<char>)>,
    pub counters: Seq<(SiblingKey, int)>,
    pub last_at: Seq<(SiblingKey, Seq<char>)>,
    pub out: Seq<ReorderView>,
}

/// Position of the first entry of `a` at or after `i` keyed `k`.
pub open spec fn key_index_from<W>(a: Seq<(SiblingKey, W)>, k: SiblingKey, i: int) -> Option<int>
    decreases a.len() - i,
{
    if i < 0 || i >= a.len() {
        None
    } else if a[i].0 == k {
        Some(i)
    } else {
        key_index_from(a, k, i + 1)
    }
}

/// Position of the first entry of `a` keyed `k`.
pub open spec fn key_index<W>(a: Seq<(SiblingKey, W)>, k: SiblingKey) -> Option<int> {
    key_index_from(a, k, 0)
}

proof fn lemma_key_index_from<W>(a: Seq<(SiblingKey, W)>, k: SiblingKey, i: int)
    requires
        0 <= i,
    ensures
        key_index_from(a, k, i) matches Some(x) ==> i <= x < a.len() && a[x].0 == k,
    decreases a.len() - i,
{
    if i < a.len() && a[i].0 != k {
        lemma_key_index_from(a, k, i + 1);
    }
}

proof fn lemma_key_index<W>(a: Seq<(SiblingKey, W)>, k: SiblingKey)
    ensures
        key_index(a, k) matches Some(i) ==> 0 <= i < a.len() && a[i].0 == k,
{
    lemma_key_index_from(a, k, 0);
}

/// `a` with the entry keyed `k` set to `v` (added at the end when absent).
pub open spec fn key_put<V>(a: Seq<(SiblingKey, V)>, k: SiblingKey, v: V) -> Seq<(SiblingKey, V)> {
    match key_index(a, k) {
        Some(i) => a.update(i, (k, v)),
        None => a.push((k, v)),
    }
}

/// `stack` without the entries at depth `d` or deeper on top.
pub open spec fn pop_to(stack: Seq<(int, Seq<char>)>, d: int) -> Seq<(int, Seq<char>)>
    decreases stack.len(),
{
    if stack.len() > 0 && stack.last().0 >= d {
        pop_to(stack.drop_last(), d)
    } else {
        stack
    }
}

/// The first block of `bs` with id `id`.
pub open spec fn block_with(bs: Seq<BlockRec>, id: Seq<char>) -> Option<BlockRec>
    decreases bs.len(),
{
    if bs.len() == 0 {
        None
    } else if bs[0].id@ == id {
        Some(bs[0])
    } else {
        block_with(bs.skip(1), id)
    }
}

/// Line `l` standing for block `id` takes its place: it goes under the
/// nearest open ancestor of smaller depth, after the previous sibling, and
/// a move is recorded unless the block already sits there.
pub open spec fn resync_step(st: ResyncState, bs: Seq<BlockRec>, l: LineView, id: Seq<char>) -> ResyncState {
    let stack = pop_to(st.stack, l.0);
    let parent: Option<Seq<char>> = if stack.len() > 0 {
        Some(stack.last().1)
    } else {
        None
    };
    let key = (l.0, parent);
    let ordinal = match key_index(st.counters, key) {
        Some(i) => st.counters[i].1,
        None => 0,
    };
    let after = match key_index(st.last_at, key) {
        Some(i) => Some(st.last_at[i].1),
        None => None,
    };
    let needs = match block_with(bs, id) {
        None => true,
        Some(b) => opt_view(b.parent_block_id) != parent || b.ordinal != ordinal,
    };
    ResyncState {
        stack: stack.push((l.0, id)),
        counters: key_put(st.counters, key, ordinal + 1),
        last_at: key_put(st.last_at, key, id),
        out: if needs {
            st.out.push((id, parent, after, ordinal))
        } else {
            st.out
        },
    }
}

/// The walk over the first `n` lines (lines without a block are skipped).
pub open spec fn resync_upto(bs: Seq<BlockRec>, ids: Seq<Option<Seq<char>>>, ls: Seq<LineView>, n: int) -> ResyncState
    decreases n,
{
    if n <= 0 {
        ResyncState { stack: Seq::empty(), counters: Seq::empty(), last_at: Seq::empty(), out: Seq::empty() }
    } else {
        let st = resync_upto(bs, ids, ls, n - 1);
        match ids[n - 1] {
            Some(id) => resync_step(st, bs, ls[n - 1], id),
            None => st,
        }
    }
}

pub open spec fn opt_ids(v: Seq<Option<String>>) -> Seq<Option<Seq<char>>> {
    v.map_values(|o: Option<String>| opt_view(o))
}

pub open spec fn key_view(k: (usize, Option<String>)) -> SiblingKey {
    (k.0 as int, opt_view(k.1))
}

pub open spec fn stack_view(v: Seq<(usize, String)>) -> Seq<(int, Seq<char>)> {
    v.map_values(|e: (usize, String)| (e.0 as int, e.1@))
}

pub open spec fn counters_view(v: Seq<((usize, Option<String>), i64)>) -> Seq<(SiblingKey, int)> {
    v.map_values(|e: ((usize, Option<String>), i64)| (key_view(e.0), e.1 as int))
}

pub open spec fn last_view(v: Seq<((usize, Option<String>), String)>) -> Seq<(SiblingKey, Seq<char>)> {
    v.map_values(|e: ((usize, Option<String>), String)| (key_view(e.0), e.1@))
}

pub open spec fn moves_view(v: Seq<Reorder>) -> Seq<ReorderView> {
    v.map_values(|m: Reorder| reorder_view(m))
}

fn key_eq(a: &(usize, Option<String>), b: &(usize, Option<String>)) -> (r: bool)
    ensures
        r == (key_view(*a) == key_view(*b)),
{
    if a.0 != b.0 {
        return false;
    }
    match (&a.1, &b.1) {
        (Some(x), Some(y)) => str_eq(x.as_str(), y.as_str()),
        (None, None) => true,
        _ => false,
    }
}

fn clone_opt_string(o: &Option<String>) -> (r: Option<String>)
    ensures
        opt_view(r) == opt_view(*o),
{
    match o {
        Some(x) => Some(x.clone()),
        None => None,
    }
}

fn clone_key(k: &(usize, Option<String>)) -> (r: (usize, Option<String>))
    ensures
        key_view(r) == key_view(*k),
{
    (k.0, clone_opt_string(&k.1))
}

/// Finds the first block of `bs` with id `id`.
fn find_block<'a>(bs: &'a Vec<BlockRec>, id: &String) -> (r: Option<&'a BlockRec>)
    ensures
        match r {
            Some(b) => block_with(bs@, id@) == Some(*b),
            None => block_with(bs@, id@) is None,
        },
{
    let mut i: usize = 0;
    assert(bs@.skip(0) =~= bs@);
    while i < bs.len()
        invariant
            i <= bs@.len(),
            block_with(bs@, id@) == block_with(bs@.skip(i as int), id@),
        decreases bs@.len() - i,
    {
        proof {
            assert(bs@.skip(i as int)[0] == bs@[i as int]);
            assert(bs@.skip(i as int).skip(1) =~= bs@.skip(i + 1));
        }
        if str_eq(bs[i].id.as_str(), id.as_str()) {
            return Some(&bs[i]);
        }
        i += 1;
    }
    assert(bs@.skip(i as int).len() == 0);
    None
}

/// Finds the first entry keyed like `k`: the position found is the one
/// `key_index` names.
fn find_key<V, W>(a: &Vec<((usize, Option<String>), V)>, k: &(usize, Option<String>), Ghost(va): Ghost<Seq<(SiblingKey, W)>>) -> (r: Option<usize>)
    requires
        va.len() == a@.len(),
        forall|j: int| 0 <= j < a@.len() ==> #[trigger] va[j].0 == key_view(a@[j].0),
    ensures
        match r {
            Some(i) => key_index(va, key_view(*k)) == Some(i as int) && i < a@.len(),
            None => key_index(va, key_view(*k)) is None,
        },
{
    let mut j: usize = 0;
    while j < a.len()
        invariant
            j <= a@.len(),
            va.len() == a@.len(),
            forall|q: int| 0 <= q < a@.len() ==> #[trigger] va[q].0 == key_view(a@[q].0),
            key_index(va, key_view(*k)) == key_index_from(va, key_view(*k), j as int),
        decreases a@.len() - j,
    {
        assert(va[j as int].0 == key_view(a@[j as int].0));
        if key_eq(&a[j].0, k) {
            return Some(j);
        }
        j += 1;
    }
    None
}

/// The moves that bring each surviving or created block to its place in
/// the edited document: `ids[i]` is the block line `i` stands for, and `bs`
/// the page's blocks after the edits.
pub fn resync_plan(bs: &Vec<BlockRec>, ids: &Vec<Option<String>>, lines: &Vec<ParsedLine>) -> (r: Vec<Reorder>)
    requires
        ids@.len() == lines@.len(),
        lines@.len() < i64::MAX,
    ensures
        moves_view(r@) == resync_upto(bs@, opt_ids(ids@), lines_view(lines@), lines@.len() as int).out,
{
    let ghost idv = opt_ids(ids@);
    let ghost ls = lines_view(lines@);
    let mut stack: Vec<(usize, String)> = Vec::new();
    let mut counters: Vec<((usize, Option<String>), i64)> = Vec::new();
    let mut last_at: Vec<((usize, Option<String>), String)> = Vec::new();
    let mut out: Vec<Reorder> = Vec::new();
    let mut i: usize = 0;
    proof {
        assert(stack_view(stack@) =~= Seq::<(int, Seq<char>)>::empty());
        assert(counters_view(counters@) =~= Seq::<(SiblingKey, int)>::empty());
        assert(last_view(last_at@) =~= Seq::<(SiblingKey, Seq<char>)>::empty());
        assert(moves_view(out@) =~= Seq::<ReorderView>::empty());
    }
    while i < lines.len()
        invariant
            i <= lines@.len(),
            ids@.len() == lines@.len(),
            lines@.len() < i64::MAX,
            idv == opt_ids(ids@),
            ls == lines_view(lines@),
            stack_view(stack@) == resync_upto(bs@, idv, ls, i as int).stack,
            counters_view(counters@) == resync_upto(bs@, idv, ls, i as int).counters,
            last_view(last_at@) == resync_upto(bs@, idv, ls, i as int).last_at,
            moves_view(out@) == resync_upto(bs@, idv, ls, i as int).out,
            forall|j: int| 0 <= j < counters@.len() ==> 0 <= #[trigger] counters@[j].1 <= i,
        decreases lines@.len() - i,
    {
        let ghost st = resync_upto(bs@, idv, ls, i as int);
        proof {
            assert(ls[i as int] == lines@[i as int].view());
            assert(idv[i as int] == opt_view(ids@[i as int]));
        }
        match &ids[i] {
            None => {},
            Some(id) => {
                let depth = lines[i].depth;
                let ghost sv = stack_view(stack@);
                while stack.len() > 0 && stack[stack.len() - 1].0 >= depth
                    invariant
                        pop_to(stack_view(stack@), depth as int) == pop_to(sv, depth as int),
                    decreases stack@.len(),
                {
                    let ghost before = stack_view(stack@);
                    stack.pop();
                    proof {
                        assert(stack_view(stack@) =~= before.drop_last());
                    }
                }
                let ghost popped = stack_view(stack@);
                proof {
                    assert(pop_to(popped, depth as int) == popped);
                }
                let parent: Option<String> = if stack.len() > 0 {
                    Some(stack[stack.len() - 1].1.clone())
                } else {
                    None
                };
                let key: (usize, Option<String>) = (depth, clone_opt_string(&parent));
                proof {
                    assert forall|j: int| 0 <= j < counters@.len() implies #[trigger] counters_view(counters@)[j].0 == key_view(counters@[j].0) by {}
                    assert forall|j: int| 0 <= j < last_at@.len() implies #[trigger] last_view(last_at@)[j].0 == key_view(last_at@[j].0) by {}
                }
                let ghost cv0 = counters_view(counters@);
                let ci = find_key::<i64, int>(&counters, &key, Ghost(cv0));
                let ordinal: i64 = match ci {
                    Some(x) => {
                        let entry = &counters[x];
                        assert(entry.1 == counters@[x as int].1);
                        entry.1
                    },
                    None => 0,
                };
                assert(ci matches Some(x) ==> ordinal == counters@[x as int].1);
                proof {
                    lemma_key_index(cv0, key_view(key));
                    match key_index(cv0, key_view(key)) {
                        Some(q) => {
                            assert(0 <= q < cv0.len());
                            assert(cv0[q].1 == counters@[q].1 as int);
                            assert(ordinal as int == cv0[q].1);
                        },
                        None => {},
                    }
                }
                let ghost lv0 = last_view(last_at@);
                let li = find_key::<String, Seq<char>>(&last_at, &key, Ghost(lv0));
                let after: Option<String> = match li {
                    Some(x) => Some(last_at[x].1.clone()),
                    None => None,
                };
                proof {
                    lemma_key_index(lv0, key_view(key));
                    match key_index(lv0, key_view(key)) {
                        Some(q) => {
                            assert(lv0[q].1 == last_at@[q].1@);
                        },
                        None => {},
                    }
                }
                let needs = match find_block(bs, id) {
                    None => true,
                    Some(b) => {
                        let same_parent = match (&b.parent_block_id, &parent) {
                            (Some(x), Some(y)) => str_eq(x.as_str(), y.as_str()),
                            (None, None) => true,
                            _ => false,
                        };
                        !same_parent || b.ordinal != ordinal
                    },
                };
                let ghost out0 = out@;
                if needs {
                    out.push(
                        Reorder {
                            id: id.clone(),
                            parent: clone_opt_string(&parent),
                            after: clone_opt_string(&after),
                            ordinal,
                        },
                    );
                }
                let ghost c0 = counters@;
                match ci {
                    Some(x) => {
                        counters.set(x, (clone_key(&key), ordinal + 1));
                    },
                    None => {
                        counters.push((clone_key(&key), 1));
                    },
                }
                let ghost l0 = last_at@;
                match li {
                    Some(x) => {
                        last_at.set(x, (clone_key(&key), id.clone()));
                    },
                    None => {
                        last_at.push((clone_key(&key), id.clone()));
                    },
                }
                stack.push((depth, id.clone()));
                proof {
                    let st2 = resync_step(st, bs@, ls[i as int], id@);
                    let sp = pop_to(st.stack, ls[i as int].0);
                    let spar: Option<Seq<char>> = if sp.len() > 0 { Some(sp.last().1) } else { None };
                    assert(sp == popped);
                    assert(opt_view(parent) == spar);
                    assert(key_view(key) == (ls[i as int].0, spar));
                    let sord = match key_index(st.counters, key_view(key)) {
                        Some(q) => st.counters[q].1,
                        None => 0,
                    };
                    assert(ordinal as int == sord);
                    let saft = match key_index(st.last_at, key_view(key)) {
                        Some(q) => Some(st.last_at[q].1),
                        None => None,
                    };
                    assert(opt_view(after) == saft);
                    let sneeds = match block_with(bs@, id@) {
                        None => true,
                        Some(b) => opt_view(b.parent_block_id) != spar || b.ordinal != sord,
                    };
                    assert(needs == sneeds);
                    assert(resync_upto(bs@, idv, ls, i + 1) == st2);
                    assert(stack_view(stack@) =~= st2.stack);
                    assert(moves_view(out@) =~= st2.out) by {
                        if needs {
                            let m = out@[out@.len() - 1];
                            assert(reorder_view(m) == (id@, spar, opt_view(after), ordinal as int));
                            assert(moves_view(out@) =~= moves_view(out0).push(reorder_view(m)));
                        } else {
                            assert(out@ == out0);
                        }
                    }
                    assert(counters_view(counters@) =~= st2.counters);
                    assert(last_view(last_at@) =~= st2.last_at) by {
                        match li {
                            Some(x) => {
                                assert(last_view(last_at@) =~= last_view(l0).update(x as int, (key_view(key), id@)));
                            },
                            None => {
                                assert(last_view(last_at@) =~= last_view(l0).push((key_view(key), id@)));
                            },
                        }
                    }
                    assert forall|j: int| 0 <= j < counters@.len() implies 0 <= #[trigger] counters@[j].1 <= i + 1 by {
                        if j < c0.len() {
                            if ci matches Some(x) && x == j {
                            } else {
                                assert(counters@[j] == c0[j]);
                            }
                        }
                    }
                }
            },
        }
        i += 1;
    }
    out
}

// ---------------------------------------------------------------------------
// Which block each line of an unchanged document stands for, and its place

/// Every unit that is not protected is among the editable positions.
proof fn lemma_editable_has(us: Seq<UnitView>, n: int, k: int)
    requires
        0 <= k < n <= us.len(),
        !us[k].4,
    ensures
        editable_upto(us, n).contains(k),
    decreases n,
{
    if k == n - 1 {
        assert(editable_upto(us, n) == editable_upto(us, n - 1).push(n - 1));
        assert(editable_upto(us, n).last() == k);
    } else {
        lemma_editable_has(us, n - 1, k);
        let i = choose|i: int| 0 <= i < editable_upto(us, n - 1).len() && #[trigger] editable_upto(us, n - 1)[i] == k;
        if !us[n - 1].4 {
            assert(editable_upto(us, n)[i] == k);
        }
    }
}

/// The line ids before the diff, with the texts of the first `m` editable
/// lines matched to themselves.
proof fn lemma_init_ids(us: Seq<UnitView>, ls: Seq<LineView>, m: int)
    requires
        ls.len() == us.len(),
        new_positions(ls) == editable(us),
        new_texts(ls) == old_texts(us),
        0 <= m <= editable(us).len(),
    ensures
        init_ids_upto(us, ls, m).len() == ls.len(),
        forall|k: int|
            0 <= k < ls.len() ==> #[trigger] init_ids_upto(us, ls, m)[k] == if editable(us).take(m).contains(k) {
                Some(RefView::Existing(us[k].0))
            } else {
                match ls[k].4 {
                    Some(p) => Some(RefView::Existing(p)),
                    None => None,
                }
            },
    decreases m,
{
    let e = editable(us);
    if m == 0 {
        assert forall|k: int| 0 <= k < ls.len() implies !e.take(0).contains(k) by {}
    } else {
        lemma_init_ids(us, ls, m - 1);
        lemma_match_self(old_texts(us), m - 1);
        assert(match_of(old_texts(us), new_texts(ls), m - 1) == Some(m - 1));
        lemma_editable_bounds(us, us.len() as int, m - 1);
        assert(e.take(m) =~= e.take(m - 1).push(e[m - 1]));
        assert forall|k: int| 0 <= k < ls.len() implies #[trigger] init_ids_upto(us, ls, m)[k] == if e.take(
            m,
        ).contains(k) {
            Some(RefView::Existing(us[k].0))
        } else {
            match ls[k].4 {
                Some(p) => Some(RefView::Existing(p)),
                None => None,
            }
        } by {
            if k == e[m - 1] {
                assert(e.take(m).contains(k)) by {
                    assert(e.take(m)[m - 1] == k);
                }
            } else {
                if e.take(m).contains(k) {
                    let i = choose|i: int| 0 <= i < e.take(m).len() && #[trigger] e.take(m)[i] == k;
                    assert(i < m - 1);
                    assert(e.take(m - 1)[i] == k);
                }
                if e.take(m - 1).contains(k) {
                    let i = choose|i: int| 0 <= i < e.take(m - 1).len() && #[trigger] e.take(m - 1)[i] == k;
                    assert(e.take(m)[i] == k);
                }
            }
        }
    }
}

/// Saving the Markdown unchanged keeps every block: each line of the
/// document rendered from units that read back (protected ones naming
/// their own block) stands for the unit's own block.
pub proof fn law_unchanged_markdown_keeps_every_block(us: Seq<UnitView>, bs: Seq<BlockRec>)
    requires
        doc_reads_back(us),
        forall|k: int| 0 <= k < us.len() ==> (#[trigger] us[k]).4 ==> protected_marker(us[k].3) == Some(us[k].0),
    ensures
        plan_spec(us, parse_spec(join(unit_lines(us), seq!['\n'])).0, bs).ids == us.map_values(
            |u: UnitView| Some(RefView::Existing(u.0)),
        ),
{
    law_rendered_markdown_reads_back(us);
    let ps = phys_lines(us);
    lemma_join_phys(us);
    lemma_phys_clean(us);
    lemma_lines_join(ps);
    lemma_parse_phys(us);
    let ls = us.map_values(|u: UnitView| unit_parsed(u));
    assert(parse_spec(join(unit_lines(us), seq!['\n'])).0 == ls);
    assert forall|k: int| 0 <= k < us.len() implies (#[trigger] ls[k].4 is None <==> !us[k].4) by {
        assert(reads_back_unchanged(us[k]));
    }
    lemma_positions(us, ls, us.len() as int);
    let e = editable(us);
    lemma_init_ids(us, ls, e.len() as int);
    assert(e.take(e.len() as int) =~= e);
    // with nothing left over, the diff pass keeps the ids it starts from
    let xs = old_texts(us);
    lemma_no_leftover_new(xs, xs.len() as int);
    lemma_no_leftover_old(xs, xs.len() as int);
    assert(diff_steps(leftover_texts(us, ls)) =~= Seq::<DiffStep>::empty());
    assert forall|k: int| 0 <= k < us.len() implies #[trigger] plan_spec(us, ls, bs).ids[k] == Some(
        RefView::Existing(us[k].0),
    ) by {
        assert(reads_back_unchanged(us[k]));
        if !us[k].4 {
            lemma_editable_has(us, us.len() as int, k);
        } else {
            if e.contains(k) {
                let i = choose|i: int| 0 <= i < e.len() && #[trigger] e[i] == k;
                lemma_editable_bounds(us, us.len() as int, i);
            }
        }
    }
    assert(plan_spec(us, ls, bs).ids =~= us.map_values(|u: UnitView| Some(RefView::Existing(u.0))));
}

/// The outline of units: each unit's depth and block id, in document order.
pub open spec fn outline(us: Seq<UnitView>) -> Seq<(int, Seq<char>)> {
    us.map_values(|u: UnitView| (u.1, u.0))
}

/// Position of the last of the first `n` entries of `o` shallower than `d`.
pub open spec fn shallower_before(o: Seq<(int, Seq<char>)>, d: int, n: int) -> Option<int>
    decreases n,
{
    if n <= 0 {
        None
    } else if o[n - 1].0 < d {
        Some(n - 1)
    } else {
        shallower_before(o, d, n - 1)
    }
}

/// The block the entry at `k` sits under: that of the nearest earlier entry
/// of smaller depth (none at the top level).
pub open spec fn outline_parent(o: Seq<(int, Seq<char>)>, k: int) -> Option<Seq<char>> {
    match shallower_before(o, o[k].0, k) {
        Some(j) => Some(o[j].1),
        None => None,
    }
}

pub open spec fn outline_key(o: Seq<(int, Seq<char>)>, k: int) -> SiblingKey {
    (o[k].0, outline_parent(o, k))
}

/// How many of the first `n` entries share the sibling key `key`.
pub open spec fn key_count(o: Seq<(int, Seq<char>)>, key: SiblingKey, n: int) -> int
    decreases n,
{
    if n <= 0 {
        0
    } else {
        key_count(o, key, n - 1) + if outline_key(o, n - 1) == key {
            1int
        } else {
            0int
        }
    }
}

/// The entry's place among its siblings: how many earlier entries share its key.
pub open spec fn outline_ordinal(o: Seq<(int, Seq<char>)>, k: int) -> int {
    key_count(o, outline_key(o, k), k)
}

/// Every entry's block exists and sits where the outline puts it: under the
/// entry's parent, at the entry's place among its siblings.
pub open spec fn outline_in_place(o: Seq<(int, Seq<char>)>, bs: Seq<BlockRec>) -> bool {
    forall|k: int|
        0 <= k < o.len() ==> (block_with(bs, (#[trigger] o[k]).1) matches Some(b) && opt_view(b.parent_block_id)
            == outline_parent(o, k) && b.ordinal == outline_ordinal(o, k))
}

/// The counter a walk state holds for `key` (0 when it has none).
pub open spec fn key_lookup(c: Seq<(SiblingKey, int)>, key: SiblingKey) -> int {
    match key_index(c, key) {
        Some(i) => c[i].1,
        None => 0,
    }
}

proof fn lemma_pop_to_twice(s: Seq<(int, Seq<char>)>, a: int, b: int)
    requires
        b <= a,
    ensures
        pop_to(pop_to(s, a), b) == pop_to(s, b),
    decreases s.len(),
{
    if s.len() > 0 && s.last().0 >= a {
        lemma_pop_to_twice(s.drop_last(), a, b);
    }
}

proof fn lemma_key_index_same_keys(a: Seq<(SiblingKey, int)>, b: Seq<(SiblingKey, int)>, k: SiblingKey, i: int)
    requires
        a.len() == b.len(),
        forall|j: int| 0 <= j < a.len() ==> (#[trigger] a[j]).0 == b[j].0,
    ensures
        key_index_from(a, k, i) == key_index_from(b, k, i),
    decreases a.len() - i,
{
    if 0 <= i < a.len() {
        assert(a[i].0 == b[i].0);
        lemma_key_index_same_keys(a, b, k, i + 1);
    }
}

proof fn lemma_key_index_push(a: Seq<(SiblingKey, int)>, e: (SiblingKey, int), k: SiblingKey, i: int)
    requires
        0 <= i,
    ensures
        key_index_from(a.push(e), k, i) == match key_index_from(a, k, i) {
            Some(x) => Some(x),
            None => if i <= a.len() && e.0 == k {
                Some(a.len() as int)
            } else {
                None
            },
        },
    decreases a.len() + 1 - i,
{
    if i < a.len() {
        assert(a.push(e)[i] == a[i]);
        if a[i].0 != k {
            lemma_key_index_push(a, e, k, i + 1);
        }
    } else if i == a.len() {
        assert(a.push(e)[i] == e);
        if e.0 != k {
            assert(key_index_from(a.push(e), k, i + 1) is None);
        }
    }
}

/// Setting one counter leaves the others as they were.
proof fn lemma_key_put_lookup(a: Seq<(SiblingKey, int)>, k: SiblingKey, v: int, k2: SiblingKey)
    ensures
        key_lookup(key_put(a, k, v), k2) == if k2 == k {
            v
        } else {
            key_lookup(a, k2)
        },
{
    let b = key_put(a, k, v);
    lemma_key_index(a, k);
    lemma_key_index(a, k2);
    match key_index(a, k) {
        Some(i) => {
            assert forall|j: int| 0 <= j < a.len() implies (#[trigger] a[j]).0 == b[j].0 by {}
            lemma_key_index_same_keys(a, b, k2, 0);
        },
        None => {
            lemma_key_index_push(a, (k, v), k2, 0);
        },
    }
}

/// After the walk over the first `n` lines, the nearest open line shallower
/// than `d` is the nearest earlier entry shallower than `d`.
proof fn lemma_walk_stack(
    bs: Seq<BlockRec>,
    ids: Seq<Option<Seq<char>>>,
    ls: Seq<LineView>,
    o: Seq<(int, Seq<char>)>,
    n: int,
    d: int,
)
    requires
        0 <= n <= o.len(),
        ls.len() == o.len(),
        ids.len() == o.len(),
        forall|k: int| 0 <= k < o.len() ==> (#[trigger] ls[k]).0 == o[k].0 && ids[k] == Some(o[k].1),
    ensures
        ({
            let p = pop_to(resync_upto(bs, ids, ls, n).stack, d);
            match shallower_before(o, d, n) {
                Some(j) => p.len() > 0 && p.last() == o[j],
                None => p.len() == 0,
            }
        }),
    decreases n,
{
    if n > 0 {
        lemma_walk_stack(bs, ids, ls, o, n - 1, d);
        let st = resync_upto(bs, ids, ls, n - 1);
        let dl = ls[n - 1].0;
        assert(ls[n - 1].0 == o[n - 1].0 && ids[n - 1] == Some(o[n - 1].1));
        let s = resync_upto(bs, ids, ls, n).stack;
        assert(s == pop_to(st.stack, dl).push((dl, o[n - 1].1)));
        if dl < d {
            assert(pop_to(s, d) == s);
            assert(o[n - 1] == (o[n - 1].0, o[n - 1].1));
        } else {
            assert(s.drop_last() =~= pop_to(st.stack, dl));
            assert(pop_to(s, d) == pop_to(pop_to(st.stack, dl), d));
            lemma_pop_to_twice(st.stack, dl, d);
        }
    } else {
        assert(resync_upto(bs, ids, ls, n).stack.len() == 0);
    }
}

/// The walk over the first `n` lines of an outline whose blocks are in place
/// records no move, and counts for each sibling key the lines that have it.
proof fn lemma_walk_in_place(
    bs: Seq<BlockRec>,
    ids: Seq<Option<Seq<char>>>,
    ls: Seq<LineView>,
    o: Seq<(int, Seq<char>)>,
    n: int,
)
    requires
        0 <= n <= o.len(),
        ls.len() == o.len(),
        ids.len() == o.len(),
        forall|k: int| 0 <= k < o.len() ==> (#[trigger] ls[k]).0 == o[k].0 && ids[k] == Some(o[k].1),
        outline_in_place(o, bs),
    ensures
        resync_upto(bs, ids, ls, n).out.len() == 0,
        forall|key: SiblingKey| #[trigger] key_lookup(resync_upto(bs, ids, ls, n).counters, key) == key_count(o, key, n),
    decreases n,
{
    if n == 0 {
        assert forall|key: SiblingKey| #[trigger] key_lookup(resync_upto(bs, ids, ls, n).counters, key) == key_count(o, key, n) by {
            assert(key_index(Seq::<(SiblingKey, int)>::empty(), key) is None);
        }
    } else {
        lemma_walk_in_place(bs, ids, ls, o, n - 1);
        let st = resync_upto(bs, ids, ls, n - 1);
        let k = n - 1;
        assert(ls[k].0 == o[k].0 && ids[k] == Some(o[k].1));
        let id = o[k].1;
        lemma_walk_stack(bs, ids, ls, o, k, o[k].0);
        let stack = pop_to(st.stack, ls[k].0);
        let parent: Option<Seq<char>> = if stack.len() > 0 {
            Some(stack.last().1)
        } else {
            None
        };
        assert(parent == outline_parent(o, k));
        let key = (ls[k].0, parent);
        assert(key == outline_key(o, k));
        let ordinal = key_lookup(st.counters, key);
        assert(ordinal == outline_ordinal(o, k));
        assert(block_with(bs, o[k].1) matches Some(b) && opt_view(b.parent_block_id) == outline_parent(o, k)
            && b.ordinal == outline_ordinal(o, k));
        let nst = resync_upto(bs, ids, ls, n);
        assert(nst == resync_step(st, bs, ls[k], id));
        assert(nst.out == st.out);
        assert(nst.counters == key_put(st.counters, key, ordinal + 1));
        assert forall|key2: SiblingKey| #[trigger] key_lookup(nst.counters, key2) == key_count(o, key2, n) by {
            lemma_key_put_lookup(st.counters, key, ordinal + 1, key2);
        }
    }
}

/// Saving the Markdown unchanged moves nothing: when the page's blocks sit
/// where the document's outline puts them (each under the nearest earlier
/// unit of smaller depth, numbered among its siblings in document order),
/// the resync walk over the document's lines, each standing for its unit's
/// own block as `law_unchanged_markdown_keeps_every_block` shows, records
/// no move.
pub proof fn law_unchanged_markdown_moves_nothing(us: Seq<UnitView>, bs: Seq<BlockRec>)
    requires
        doc_reads_back(us),
        outline_in_place(outline(us), bs),
    ensures
        ({
            let ls = parse_spec(join(unit_lines(us), seq!['\n'])).0;
            resync_upto(bs, us.map_values(|u: UnitView| Some(u.0)), ls, ls.len() as int).out.len() == 0
        }),
{
    let ps = phys_lines(us);
    lemma_join_phys(us);
    lemma_phys_clean(us);
    lemma_lines_join(ps);
    lemma_parse_phys(us);
    let ls = us.map_values(|u: UnitView| unit_parsed(u));
    assert(parse_spec(join(unit_lines(us), seq!['\n'])).0 == ls);
    let ids = us.map_values(|u: UnitView| Some(u.0));
    let o = outline(us);
    assert forall|k: int| 0 <= k < o.len() implies (#[trigger] ls[k]).0 == o[k].0 && ids[k] == Some(o[k].1) by {}
    lemma_walk_in_place(bs, ids, ls, o, o.len() as int);
}

// ---------------------------------------------------------------------------
// A parsed line rendered on its own reads back as itself

/// The lines of a text without `'\r'` hold neither `'\n'` nor `'\r'`.
proof fn lemma_lines_from_clean(s: Seq<char>, i: int)
    requires
        !s.contains('\r'),
        0 <= i,
    ensures
        clean_lines(crate::text::lines_from(s, i)),
    decreases s.len() - i,
{
    if i < s.len() {
        let j = crate::text::nl_pos(s, i);
        crate::text::lemma_nl_pos(s, i);
        let x = s.subrange(i, j);
        assert forall|k: int| 0 <= k < x.len() implies x[k] != '\n' && x[k] != '\r' by {
            lemma_no_char(s, '\r', i + k);
        }
        assert(!x.contains('\n') && !x.contains('\r'));
        if j < s.len() {
            lemma_lines_from_clean(s, j + 1);
            let rest = crate::text::lines_from(s, j + 1);
            if x.len() > 0 {
                lemma_no_char(x, '\r', x.len() - 1);
            }
            assert(crate::text::strip_cr(x) == x);
            assert forall|k: int| 0 <= k < (seq![x] + rest).len() implies !(#[trigger] (seq![x] + rest)[k]).contains(
                '\n',
            ) && !(seq![x] + rest)[k].contains('\r') by {
                if k > 0 {
                    assert((seq![x] + rest)[k] == rest[k - 1]);
                }
            }
        }
    }
}

/// The leading spaces of `s` are its indent.
proof fn lemma_indent_props(s: Seq<char>)
    ensures
        crate::markdown::parse::indent(s) <= s.len(),
        forall|k: int| 0 <= k < crate::markdown::parse::indent(s) ==> #[trigger] s[k] == ' ',
        crate::markdown::parse::indent(s) < s.len() ==> s[crate::markdown::parse::indent(s) as int] != ' ',
    decreases s.len(),
{
    if s.len() > 0 && s[0] == ' ' {
        lemma_indent_props(s.drop_first());
        assert forall|k: int| 0 <= k < crate::markdown::parse::indent(s) implies #[trigger] s[k] == ' ' by {
            if k > 0 {
                assert(s[k] == s.drop_first()[k - 1]);
            }
        }
    }
}

/// A one-line text with something on it, not indented, neither a marker nor
/// a fence, parses as the one line its classification gives.
proof fn lemma_single_line_parse(r: Seq<char>)
    requires
        trim(r).len() > 0,
        r.len() > 0,
        r[0] != ' ',
        !r.contains('\n'),
        protected_marker(r) is None,
        !has_prefix(r, fence()),
    ensures
        ({
            let c = classify(r);
            parse_spec(r).0 == seq![(0int, c.0, c.1, c.2, None::<Seq<char>>)]
        }),
{
    let ps = seq![r];
    assert(joinable_lines(ps));
    lemma_lines_join(ps);
    assert(join(ps, seq!['\n']) == r);
    assert(crate::text::lines(r) == ps);
    assert(crate::markdown::parse::indent(r) == 0);
    assert(r.skip(0) =~= r);
    let c = classify(r);
    assert(parse_from(ps, 1).0.len() == 0);
    assert(parse_from(ps, 0).0 =~= seq![(0int, c.0, c.1, c.2, None::<Seq<char>>)]);
}

/// A numbered item rendered with `1. ` classifies back to its text.
proof fn lemma_classify_numbered(x: Seq<char>)
    ensures
        classify("1. "@ + x) == ("numbered_list_item"@, x, None::<bool>),
{
    reveal_strlit("1. ");
    let r = "1. "@ + x;
    assert(r[0] == '1' && r[1] == '.' && r[2] == ' ');
    assert(!has_prefix(r, seq!['#', '#', '#', ' '])) by {
        if r.len() >= 4 {
            assert(r.take(4)[0] == '1');
        }
    }
    assert(!has_prefix(r, seq!['#', '#', ' '])) by {
        assert(r.take(3)[0] == '1');
    }
    assert(!has_prefix(r, seq!['#', ' '])) by {
        assert(r.take(2)[0] == '1');
    }
    assert(!has_prefix(r, seq!['-', ' ', '[', 'x', ']', ' '])) by {
        if r.len() >= 6 {
            assert(r.take(6)[0] == '1');
        }
    }
    assert(!has_prefix(r, seq!['-', ' ', '[', ' ', ']', ' '])) by {
        if r.len() >= 6 {
            assert(r.take(6)[0] == '1');
        }
    }
    assert(!has_prefix(r, seq!['>', ' '])) by {
        assert(r.take(2)[0] == '1');
    }
    assert(r != seq!['-', '-', '-']);
    assert(!has_prefix(r, seq!['-', ' '])) by {
        assert(r.take(2)[0] == '1');
    }
    let p = seq!['.', ' '];
    assert(!occurs_at(r, p, 0)) by {
        assert(r.subrange(0, 2)[0] == '1');
    }
    assert(occurs_at(r, p, 1)) by {
        assert(r.subrange(1, 3) =~= p);
    }
    assert(find_from(r, p, 1) == Some(1int));
    assert(find_from(r, p, 0) == Some(1int));
    assert(find(r, p) == Some(1int));
    assert(crate::markdown::parse::all_digits(r.take(1))) by {
        assert forall|k: int| 0 <= k < r.take(1).len() implies '0' <= #[trigger] r.take(1)[k] <= '9' by {
            assert(r.take(1)[k] == r[0]);
        }
    }
    assert(r.skip(3) =~= x);
}

/// A code line renders as a fenced block that parses back to it.
proof fn lemma_code_block_parse(b: Seq<Seq<char>>)
    requires
        clean_lines(b),
        forall|k: int| 0 <= k < b.len() ==> trim(#[trigger] b[k]) != fence(),
    ensures
        ({
            let l: LineView = (0int, "code"@, join(b, seq!['\n']), None::<bool>, None::<Seq<char>>);
            parse_spec(parsed_text(l)).0 == seq![l]
        }),
{
    reveal_strlit("heading_1");
    reveal_strlit("heading_2");
    reveal_strlit("heading_3");
    reveal_strlit("to_do");
    reveal_strlit("bulleted_list_item");
    reveal_strlit("numbered_list_item");
    reveal_strlit("quote");
    reveal_strlit("divider");
    reveal_strlit("code");
    reveal_strlit("```\n");
    reveal_strlit("\n```");
    lemma_fence_facts();
    let nl = seq!['\n'];
    let body = join(b, nl);
    let b2: Seq<Seq<char>> = if b.len() == 0 {
        seq![Seq::<char>::empty()]
    } else {
        b
    };
    assert(join(b2, nl) == body);
    assert(trim(Seq::<char>::empty()) =~= Seq::<char>::empty());
    let f = fence();
    let ps = seq![f] + b2 + seq![f];
    crate::text::lemma_join_append(seq![f], b2, nl);
    crate::text::lemma_join_append(seq![f] + b2, seq![f], nl);
    assert(join(seq![f], nl) == f);
    assert(join(ps, nl) == f + nl + body + nl + f);
    let l: LineView = (0int, "code"@, body, None::<bool>, None::<Seq<char>>);
    assert("code"@.len() == 4);
    assert(parsed_text(l) == "```\n"@ + body + "\n```"@);
    assert("```\n"@ + body + "\n```"@ =~= f + nl + body + nl + f);
    let n = b2.len() as int;
    assert forall|k: int| 0 <= k < ps.len() implies !(#[trigger] ps[k]).contains('\n') && !ps[k].contains('\r') by {
        if 1 <= k <= n {
            assert(ps[k] == b2[k - 1]);
        }
    }
    lemma_clean_joinable(ps);
    lemma_lines_join(ps);
    assert(crate::text::lines(parsed_text(l)) == ps);
    // the opening fence
    assert(ps[0] == f);
    assert(crate::markdown::parse::indent(f) == 0);
    assert(f.skip(0) =~= f);
    assert(has_prefix(f, fence())) by {
        assert(f.take(3) =~= f);
    }
    // the closing fence is the first line after it that trims to a fence
    crate::markdown::parse::lemma_fence_end(ps, 1);
    let j = crate::markdown::parse::fence_end(ps, 1);
    assert forall|k: int| 1 <= k <= n implies trim(#[trigger] ps[k]) != fence() by {
        assert(ps[k] == b2[k - 1]);
    }
    assert(ps[n + 1] == f);
    if j < n + 1 {
        assert(trim(ps[j]) == fence());
    }
    if j > n + 1 {
        assert(trim(ps[n + 1]) != fence());
    }
    assert(j == n + 1);
    assert(ps.subrange(1, j) =~= b2);
    assert(parse_from(ps, j + 1).0.len() == 0);
    assert(parse_from(ps, 0).0 =~= seq![l]);
}

/// Each top-level, unprotected line parsed from clean lines renders back as
/// itself.
#[verifier::spinoff_prover]
#[verifier::rlimit(40)]
proof fn lemma_parsed_renders_back(ls: Seq<Seq<char>>, i: int, k: int)
    requires
        clean_lines(ls),
        0 <= i <= ls.len(),
        0 <= k < parse_from(ls, i).0.len(),
        parse_from(ls, i).0[k].0 == 0,
        parse_from(ls, i).0[k].4 is None,
    ensures
        parse_spec(parsed_text(parse_from(ls, i).0[k])).0 == seq![parse_from(ls, i).0[k]],
    decreases ls.len() - i,
{
    let raw = ls[i];
    if trim(raw).len() == 0 {
        lemma_parsed_renders_back(ls, i + 1, k);
        return;
    }
    let ind = crate::markdown::parse::indent(raw);
    let t = raw.skip(ind as int);
    lemma_indent_props(raw);
    if protected_marker(t) is Some {
        let rest = parse_from(ls, i + 1);
        assert(parse_from(ls, i).0[k] == rest.0[k - 1]);
        lemma_parsed_renders_back(ls, i + 1, k - 1);
    } else if has_prefix(t, fence()) {
        let j = crate::markdown::parse::fence_end(ls, i + 1);
        crate::markdown::parse::lemma_fence_end(ls, i + 1);
        if k == 0 {
            let b = ls.subrange(i + 1, j);
            assert forall|q: int| 0 <= q < b.len() implies !(#[trigger] b[q]).contains('\n') && !b[q].contains('\r') by {
                assert(b[q] == ls[i + 1 + q]);
            }
            assert forall|q: int| 0 <= q < b.len() implies trim(#[trigger] b[q]) != fence() by {
                assert(b[q] == ls[i + 1 + q]);
            }
            lemma_code_block_parse(b);
        } else {
            let rest = parse_from(ls, j + 1);
            assert(parse_from(ls, i).0[k] == rest.0[k - 1]);
            lemma_parsed_renders_back(ls, j + 1, k - 1);
        }
    } else {
        let c = classify(t);
        if k > 0 {
            let rest = parse_from(ls, i + 1);
            assert(parse_from(ls, i).0[k] == rest.0[k - 1]);
            lemma_parsed_renders_back(ls, i + 1, k - 1);
        } else {
            let l: LineView = (0int, c.0, c.1, c.2, None::<Seq<char>>);
            assert(parse_from(ls, i).0[0] == ((ind / 2) as int, c.0, c.1, c.2, None::<Seq<char>>));
            assert(l == parse_from(ls, i).0[0]);
            // something sits on the line past its indent
            crate::text::lemma_lead_ws_props(raw);
            let a = crate::text::lead_ws(raw) as int;
            assert(a < raw.len());
            assert(!is_ws(raw[a]));
            if a < ind {
                assert(raw[a] == ' ');
                assert(is_ws(' '));
            }
            assert(t[a - ind] == raw[a]);
            lemma_trim_nonempty(t, a - ind);
            assert(t[0] == raw[ind as int]);
            assert(!ls[i].contains('\n') && !ls[i].contains('\r'));
            assert forall|q: int| 0 <= q < t.len() implies t[q] != '\n' && t[q] != '\r' by {
                assert(t[q] == raw[ind + q]);
                lemma_no_char(raw, '\n', ind + q);
                lemma_no_char(raw, '\r', ind + q);
            }
            assert(!t.contains('\n') && !t.contains('\r'));
            if c.0 != "numbered_list_item"@ || has_prefix(t, "1. "@) {
                lemma_classify_reads_back(t);
                lemma_single_line_parse(t);
            } else {
                reveal_strlit("heading_1");
                reveal_strlit("heading_2");
                reveal_strlit("heading_3");
                reveal_strlit("to_do");
                reveal_strlit("bulleted_list_item");
                reveal_strlit("numbered_list_item");
                reveal_strlit("quote");
                reveal_strlit("divider");
                reveal_strlit("1. ");
                reveal_strlit("<");
                assert("heading_1"@[0] != "numbered_list_item"@[0]);
                assert("heading_2"@[0] != "numbered_list_item"@[0]);
                assert("heading_3"@[0] != "numbered_list_item"@[0]);
                assert("to_do"@[0] != "numbered_list_item"@[0]);
                assert("bulleted_list_item"@[0] != "numbered_list_item"@[0]);
                reveal_strlit("paragraph");
                assert("quote"@[0] != "numbered_list_item"@[0]);
                assert("divider"@[0] != "numbered_list_item"@[0]);
                assert("paragraph"@[0] != "numbered_list_item"@[0]);
                assert(find(t, seq!['.', ' ']) is Some);
                let x = c.1;
                let r = "1. "@ + x;
                assert(parsed_text(l) == r);
                lemma_classify_numbered(x);
                assert(c.2 is None);
                assert(r[0] == '1');
                assert(!is_ws('1'));
                lemma_trim_nonempty(r, 0);
                // the text after the number is a piece of the line
                let d = find(t, seq!['.', ' ']).unwrap();
                assert(x == t.skip(d + 2));
                assert(0 <= d + 2 <= t.len()) by {
                    crate::text::lemma_find_from_some(t, seq!['.', ' '], 0);
                }
                assert forall|q: int| 0 <= q < r.len() implies r[q] != '\n' && r[q] != '\r' by {
                    if q >= 3 {
                        assert(r[q] == t[d + 2 + q - 3]);
                    }
                }
                assert(!r.contains('\n') && !r.contains('\r'));
                assert(protected_marker(r) is None) by {
                    if has_prefix(r, crate::markdown::parse::marker_open()) {
                        assert(r.take(crate::markdown::parse::marker_open().len() as int)[0] == r[0]);
                    }
                }
                assert(!has_prefix(r, fence())) by {
                    if has_prefix(r, fence()) {
                        assert(r.take(3)[0] == r[0]);
                    }
                }
                lemma_single_line_parse(r);
            }
        }
    }
}

/// A top-level line parsed from Markdown reads back as itself: rendering
/// any top-level line that is not a protected marker, parsed from a text
/// without `'\r'`, and parsing the result gives exactly that line again.
pub proof fn law_parsed_line_renders_back(md: Seq<char>, k: int)
    requires
        !md.contains('\r'),
        0 <= k < parse_spec(md).0.len(),
        parse_spec(md).0[k].0 == 0,
        parse_spec(md).0[k].4 is None,
    ensures
        parse_spec(parsed_text(parse_spec(md).0[k])).0 == seq![parse_spec(md).0[k]],
{
    lemma_lines_from_clean(md, 0);
    lemma_parsed_renders_back(crate::text::lines(md), 0, k);
}

// ---------------------------------------------------------------------------
// A block's rendered line reads back as the block

/// Block types whose Markdown line starts with a marker of its own.
pub open spec fn has_line_marker(t: Seq<char>) -> bool {
    t == "heading_1"@ || t == "heading_2"@ || t == "heading_3"@ || t == "to_do"@ || t == "bulleted_list_item"@
        || t == "numbered_list_item"@ || t == "quote"@ || t == "divider"@
}

/// `r` differs from `q` at position `i`, so it does not start with `q`.
proof fn lemma_not_prefix(r: Seq<char>, q: Seq<char>, i: int)
    requires
        0 <= i < q.len(),
        i < r.len() ==> r[i] != q[i],
    ensures
        !has_prefix(r, q),
{
    if has_prefix(r, q) {
        assert(r.take(q.len() as int)[i] == r[i]);
    }
}

/// A line made of a marker `p` and a text without line breaks parses as the
/// one top-level line its classification gives.
proof fn lemma_marked_line(p: Seq<char>, x: Seq<char>)
    requires
        p.len() > 0,
        p[0] == '#' || p[0] == '-' || p[0] == '1' || p[0] == '>',
        forall|k: int| 0 <= k < p.len() ==> p[k] != '\n',
        !x.contains('\n'),
    ensures
        ({
            let c = classify(p + x);
            parse_spec(p + x).0 == seq![(0int, c.0, c.1, c.2, None::<Seq<char>>)]
        }),
{
    let r = p + x;
    assert(r[0] == p[0]);
    assert(!is_ws(r[0]));
    lemma_trim_nonempty(r, 0);
    assert(!p.contains('\n'));
    lemma_no_char_prefix(p, x);
    crate::markdown::parse::lemma_fence_end(seq![r], 0);
    lemma_not_prefix(r, fence(), 0);
    lemma_not_prefix(r, crate::markdown::parse::marker_open(), 0);
    lemma_single_line_parse(r);
}

/// A block's Markdown line reads back as the block: parsing the line
/// rendered from a heading, to-do, bulleted or numbered item, quote or
/// divider gives one top-level line of the block's type, with the block's
/// text (a divider has none) and, for a to-do, its check mark. (A bulleted
/// item's text must not itself start like a to-do's box.)
pub proof fn law_rendered_block_reads_back(b: BlockRec)
    requires
        has_line_marker(b.block_type@),
        !b.plain_text@.contains('\n'),
        b.block_type@ == "bulleted_list_item"@ ==> !has_prefix(b.plain_text@, seq!['[', 'x', ']', ' '])
            && !has_prefix(b.plain_text@, seq!['[', ' ', ']', ' ']),
    ensures
        parse_spec(crate::markdown::render::line_text(b)).0 == seq![
            (
                0int,
                b.block_type@,
                if b.block_type@ == "divider"@ {
                    Seq::<char>::empty()
                } else {
                    b.plain_text@
                },
                if b.block_type@ == "to_do"@ {
                    Some(
                        crate::json::bool_spec(crate::json::get_spec(b.payload, "checked"@)) == Some(true),
                    )
                } else {
                    None::<bool>
                },
                None::<Seq<char>>,
            ),
        ],
{
    reveal_strlit("heading_1");
    reveal_strlit("heading_2");
    reveal_strlit("heading_3");
    reveal_strlit("to_do");
    reveal_strlit("bulleted_list_item");
    reveal_strlit("numbered_list_item");
    reveal_strlit("quote");
    reveal_strlit("divider");
    reveal_strlit("paragraph");
    reveal_strlit("code");
    reveal_strlit("# ");
    reveal_strlit("## ");
    reveal_strlit("### ");
    reveal_strlit("- [");
    reveal_strlit("x");
    reveal_strlit(" ");
    reveal_strlit("] ");
    reveal_strlit("- ");
    reveal_strlit("1. ");
    reveal_strlit("> ");
    reveal_strlit("---");
    let t = b.block_type@;
    let x = b.plain_text@;
    let r = crate::markdown::render::line_text(b);
    let ck = if t == "to_do"@ {
        Some(crate::json::bool_spec(crate::json::get_spec(b.payload, "checked"@)) == Some(true))
    } else {
        None::<bool>
    };
    let xt = if t == "divider"@ {
        Seq::<char>::empty()
    } else {
        x
    };
    let want = seq![(0int, t, xt, ck, None::<Seq<char>>)];
    let h3 = seq!['#', '#', '#', ' '];
    let h2 = seq!['#', '#', ' '];
    let h1 = seq!['#', ' '];
    let tx = seq!['-', ' ', '[', 'x', ']', ' '];
    let tb = seq!['-', ' ', '[', ' ', ']', ' '];
    let qt = seq!['>', ' '];
    let dv = seq!['-', '-', '-'];
    let bl = seq!['-', ' '];
    assert("heading_1"@[8] != "heading_2"@[8]);
    assert("heading_1"@[8] != "heading_3"@[8]);
    assert("heading_2"@[8] != "heading_3"@[8]);
    assert("heading_1"@[0] != "to_do"@[0]);
    assert("heading_1"@[0] != "bulleted_list_item"@[0]);
    assert("heading_1"@[0] != "numbered_list_item"@[0]);
    assert("heading_1"@[0] != "quote"@[0]);
    assert("heading_1"@[0] != "divider"@[0]);
    assert("to_do"@[0] != "bulleted_list_item"@[0]);
    assert("to_do"@[0] != "numbered_list_item"@[0]);
    assert("to_do"@[0] != "quote"@[0]);
    assert("to_do"@[0] != "divider"@[0]);
    assert("bulleted_list_item"@[0] != "numbered_list_item"@[0]);
    assert("bulleted_list_item"@[0] != "quote"@[0]);
    assert("bulleted_list_item"@[0] != "divider"@[0]);
    assert("numbered_list_item"@[0] != "quote"@[0]);
    assert("numbered_list_item"@[0] != "divider"@[0]);
    assert("quote"@[0] != "divider"@[0]);
    if t == "heading_1"@ {
        assert(r =~= h1 + x);
        lemma_marked_line(h1, x);
        lemma_not_prefix(r, h3, 1);
        lemma_not_prefix(r, h2, 1);
        assert(r.take(2) =~= h1);
        assert(r.skip(2) =~= x);
        assert(parse_spec(r).0 == want);
    } else if t == "heading_2"@ {
        assert(r =~= h2 + x);
        lemma_marked_line(h2, x);
        lemma_not_prefix(r, h3, 2);
        assert(r.take(3) =~= h2);
        assert(r.skip(3) =~= x);
        assert(parse_spec(r).0 == want);
    } else if t == "heading_3"@ {
        assert(r =~= h3 + x);
        lemma_marked_line(h3, x);
        assert(r.take(4) =~= h3);
        assert(r.skip(4) =~= x);
        assert(parse_spec(r).0 == want);
    } else if t == "to_do"@ {
        let checked = crate::json::bool_spec(crate::json::get_spec(b.payload, "checked"@)) == Some(true);
        lemma_not_prefix(r, h3, 0);
        lemma_not_prefix(r, h2, 0);
        if checked {
            assert(r =~= tx + x);
            lemma_marked_line(tx, x);
            lemma_not_prefix(r, h1, 0);
            assert(r.take(6) =~= tx);
            assert(r.skip(6) =~= x);
        } else {
            assert(r =~= tb + x);
            lemma_marked_line(tb, x);
            lemma_not_prefix(r, h1, 0);
            lemma_not_prefix(r, tx, 3);
            assert(r.take(6) =~= tb);
            assert(r.skip(6) =~= x);
        }
        assert(parse_spec(r).0 == want);
    } else if t == "bulleted_list_item"@ {
        assert(r =~= bl + x);
        lemma_marked_line(bl, x);
        lemma_not_prefix(r, h3, 0);
        lemma_not_prefix(r, h2, 0);
        lemma_not_prefix(r, h1, 0);
        if has_prefix(r, tx) {
            assert(x.take(4) =~= r.take(6).subrange(2, 6));
            assert(r.take(6).subrange(2, 6) =~= seq!['[', 'x', ']', ' ']);
            assert(has_prefix(x, seq!['[', 'x', ']', ' ']));
        }
        if has_prefix(r, tb) {
            assert(x.take(4) =~= r.take(6).subrange(2, 6));
            assert(r.take(6).subrange(2, 6) =~= seq!['[', ' ', ']', ' ']);
            assert(has_prefix(x, seq!['[', ' ', ']', ' ']));
        }
        lemma_not_prefix(r, qt, 0);
        if r == dv {
            assert(r[1] == dv[1]);
        }
        assert(r.take(2) =~= bl);
        assert(r.skip(2) =~= x);
        assert(parse_spec(r).0 == want);
    } else if t == "numbered_list_item"@ {
        assert(r =~= "1. "@ + x);
        assert("1. "@ =~= seq!['1', '.', ' ']);
        lemma_marked_line(seq!['1', '.', ' '], x);
        lemma_classify_numbered(x);
        assert(parse_spec(r).0 == want);
    } else if t == "quote"@ {
        assert(r =~= qt + x);
        lemma_marked_line(qt, x);
        lemma_not_prefix(r, h3, 0);
        lemma_not_prefix(r, h2, 0);
        lemma_not_prefix(r, h1, 0);
        lemma_not_prefix(r, tx, 0);
        lemma_not_prefix(r, tb, 0);
        assert(r.take(2) =~= qt);
        assert(r.skip(2) =~= x);
        assert(parse_spec(r).0 == want);
    } else {
        assert(t == "divider"@);
        assert(r =~= dv + Seq::<char>::empty());
        assert(!Seq::<char>::empty().contains('\n'));
        lemma_marked_line(dv, Seq::<char>::empty());
        lemma_not_prefix(r, h3, 0);
        lemma_not_prefix(r, h2, 0);
        lemma_not_prefix(r, h1, 0);
        lemma_not_prefix(r, tx, 3);
        lemma_not_prefix(r, tb, 3);
        lemma_not_prefix(r, qt, 0);
        assert(parse_spec(r).0 == want);
    }
}

} // verus!
