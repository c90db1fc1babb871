//! The sidebar: the workspace's page tree and data sources.
use vstd::prelude::*;
use crate::text::str_eq;
use crate::ui::table::clamp;

verus! {

broadcast use vstd::string::group_string_axioms;

/// Whether a tree entry is a page or a data source.
#[derive(Clone, Copy, Debug, PartialEq, Eq, Structural)]
pub enum NodeKind {
    Page,
    DataSource,
}

/// An entry of the workspace tree.
pub struct TreeNode {
    pub id: String,
    pub title: String,
    pub parent_id: Option<String>,
    pub kind: NodeKind,
}

/// A shown entry and how deep it is nested.
pub struct VisibleNode<'a> {
    pub node: &'a TreeNode,
    pub depth: usize,
}

/// The tree, which pages are collapsed, the cursor, and whether the sidebar is hidden.
pub struct SidebarState {
    pub nodes: Vec<TreeNode>,
    /// Ids of collapsed pages, each once.
    pub collapsed: Vec<String>,
    pub cursor: usize,
    pub hidden: bool,
}

pub open spec fn texts(v: Seq<String>) -> Seq<Seq<char>> {
    v.map_values(|s: String| s@)
}

/// Whether some page among `ns` has id `id`.
pub open spec fn is_page_id(ns: Seq<TreeNode>, id: Seq<char>) -> bool {
    exists|i: int| 0 <= i < ns.len() && ns[i].kind == NodeKind::Page && #[trigger] ns[i].id@ == id
}

/// A page whose parent is no page of the tree starts a subtree.
pub open spec fn is_root(ns: Seq<TreeNode>, n: TreeNode) -> bool {
    n.kind == NodeKind::Page && match n.parent_id {
        None => true,
        Some(p) => !is_page_id(ns, p@),
    }
}

/// Whether `n` is a page directly under page `p`.
pub open spec fn is_child(n: TreeNode, p: Seq<char>) -> bool {
    n.kind == NodeKind::Page && (n.parent_id matches Some(q) && q@ == p)
}

/// The shown entries `(position, depth)` below page `p` among the first
/// `k` nodes: each child followed by its own shown subtree. Nesting deeper
/// than the number of nodes only arises from a cyclic parent relation and
/// shows nothing.
pub open spec fn below(ns: Seq<TreeNode>, collapsed: Seq<Seq<char>>, p: Seq<char>, depth: int, k: int) -> Seq<(int, int)>
    decreases ns.len() - depth, 1int, k,
{
    if depth < 0 || depth >= ns.len() || k <= 0 || k > ns.len() {
        Seq::empty()
    } else if is_child(ns[k - 1], p) {
        below(ns, collapsed, p, depth, k - 1) + subtree(ns, collapsed, k - 1, depth)
    } else {
        below(ns, collapsed, p, depth, k - 1)
    }
}

/// Node `i` at `depth`, then (unless it is collapsed) everything below it.
pub open spec fn subtree(ns: Seq<TreeNode>, collapsed: Seq<Seq<char>>, i: int, depth: int) -> Seq<(int, int)>
    decreases ns.len() - depth, 0int, 0int,
{
    if depth < 0 || depth >= ns.len() || i < 0 || i >= ns.len() {
        Seq::empty()
    } else if collapsed.contains(ns[i].id@) {
        seq![(i, depth)]
    } else {
        seq![(i, depth)] + below(ns, collapsed, ns[i].id@, depth + 1, ns.len() as int)
    }
}

/// The subtrees of the roots among the first `k` nodes, in order.
pub open spec fn roots_upto(ns: Seq<TreeNode>, collapsed: Seq<Seq<char>>, k: int) -> Seq<(int, int)>
    decreases k,
{
    if k <= 0 || k > ns.len() {
        Seq::empty()
    } else if is_root(ns, ns[k - 1]) {
        roots_upto(ns, collapsed, k - 1) + subtree(ns, collapsed, k - 1, 0)
    } else {
        roots_upto(ns, collapsed, k - 1)
    }
}

/// The data sources among the first `k` nodes, at depth 0.
pub open spec fn sources_upto(ns: Seq<TreeNode>, k: int) -> Seq<(int, int)>
    decreases k,
{
    if k <= 0 || k > ns.len() {
        Seq::empty()
    } else if ns[k - 1].kind == NodeKind::DataSource {
        sources_upto(ns, k - 1).push((k - 1, 0))
    } else {
        sources_upto(ns, k - 1)
    }
}

/// The shown entries `(position, depth)`: the page tree depth-first from
/// its roots, then the data sources.
pub open spec fn shown(s: SidebarState) -> Seq<(int, int)> {
    roots_upto(s.nodes@, texts(s.collapsed@), s.nodes@.len() as int) + sources_upto(
        s.nodes@,
        s.nodes@.len() as int,
    )
}

/// The shown entries as positions and depths.
pub open spec fn entries_view(v: Seq<(usize, usize)>) -> Seq<(int, int)> {
    v.map_values(|e: (usize, usize)| (e.0 as int, e.1 as int))
}

fn same_id(a: &Option<String>, b: &String) -> (r: bool)
    ensures
        r == (a matches Some(x) && x@ == b@),
{
    match a {
        Some(x) => str_eq(x.as_str(), b.as_str()),
        None => false,
    }
}

pub fn holds(v: &Vec<String>, id: &String) -> (r: bool)
    ensures
        r == texts(v@).contains(id@),
{
    let mut i: usize = 0;
    while i < v.len()
        invariant
            i <= v@.len(),
            forall|k: int| 0 <= k < i ==> #[trigger] texts(v@)[k] != id@,
        decreases v@.len() - i,
    {
        if str_eq(v[i].as_str(), id.as_str()) {
            assert(texts(v@)[i as int] == id@);
            return true;
        }
        i += 1;
    }
    false
}

/// `n` is `o` after moving the cursor by `delta` entries, clamped to the
/// shown ones (unchanged when nothing is shown).
pub open spec fn sidebar_moved(o: SidebarState, n: SidebarState, delta: int) -> bool {
    &&& n.nodes == o.nodes
    &&& n.collapsed == o.collapsed
    &&& n.hidden == o.hidden
    &&& n.cursor == if shown(o).len() == 0 {
        o.cursor as int
    } else {
        clamp(o.cursor + delta, 0, shown(o).len() - 1)
    }
}

/// `n` is `o` with the entry under the cursor collapsed or expanded (the
/// collapsed ids read as a set), or `o` itself when no entry is under it.
pub open spec fn sidebar_toggled(o: SidebarState, n: SidebarState) -> bool {
    &&& n.nodes == o.nodes
    &&& n.cursor == o.cursor
    &&& n.hidden == o.hidden
    &&& if o.cursor < shown(o).len() {
        let id = o.nodes@[shown(o)[o.cursor as int].0].id@;
        forall|x: Seq<char>|
            #[trigger] texts(n.collapsed@).contains(x) == if x == id {
                !texts(o.collapsed@).contains(id)
            } else {
                texts(o.collapsed@).contains(x)
            }
    } else {
        n.collapsed == o.collapsed
    }
}

impl SidebarState {
    /// A sidebar over `nodes`, nothing collapsed, cursor at the top, shown.
    pub fn new(nodes: Vec<TreeNode>) -> (r: SidebarState)
        ensures
            r.nodes == nodes,
            r.collapsed@.len() == 0,
            r.cursor == 0,
            !r.hidden,
    {
        SidebarState { nodes, collapsed: Vec::new(), cursor: 0, hidden: false }
    }

    fn push_subtree(&self, i: usize, depth: usize, out: &mut Vec<(usize, usize)>)
        requires
            i < self.nodes@.len(),
            depth <= self.nodes@.len(),
        ensures
            entries_view(final(out)@) == entries_view(old(out)@) + subtree(
                self.nodes@,
                texts(self.collapsed@),
                i as int,
                depth as int,
            ),
        decreases self.nodes@.len() - depth, 0int, 0int,
    {
        let ghost ns = self.nodes@;
        let ghost cs = texts(self.collapsed@);
        if depth >= self.nodes.len() {
            assert(entries_view(out@) =~= entries_view(out@) + subtree(ns, cs, i as int, depth as int));
            return;
        }
        let ghost start = entries_view(out@);
        out.push((i, depth));
        proof {
            assert(entries_view(out@) =~= start.push((i as int, depth as int)));
        }
        if holds(&self.collapsed, &self.nodes[i].id) {
            assert(entries_view(out@) =~= start + subtree(ns, cs, i as int, depth as int));
            return;
        }
        let ghost mid = entries_view(out@);
        self.push_below(i, depth + 1, self.nodes.len(), out);
        proof {
            assert(entries_view(out@) =~= start + subtree(ns, cs, i as int, depth as int));
        }
    }

    fn push_below(&self, p: usize, depth: usize, k: usize, out: &mut Vec<(usize, usize)>)
        requires
            p < self.nodes@.len(),
            0 < depth <= self.nodes@.len(),
            k <= self.nodes@.len(),
        ensures
            entries_view(final(out)@) == entries_view(old(out)@) + below(
                self.nodes@,
                texts(self.collapsed@),
                self.nodes@[p as int].id@,
                depth as int,
                k as int,
            ),
        decreases self.nodes@.len() - depth, 1int, k,
    {
        let ghost ns = self.nodes@;
        let ghost cs = texts(self.collapsed@);
        let ghost pid = self.nodes@[p as int].id@;
        if depth >= self.nodes.len() || k == 0 {
            assert(entries_view(out@) =~= entries_view(out@) + below(ns, cs, pid, depth as int, k as int));
            return;
        }
        let ghost start = entries_view(out@);
        self.push_below(p, depth, k - 1, out);
        let ghost mid = entries_view(out@);
        let n = &self.nodes[k - 1];
        if n.kind == NodeKind::Page && same_id(&n.parent_id, &self.nodes[p].id) {
            self.push_subtree(k - 1, depth, out);
            proof {
                assert(entries_view(out@) =~= start + below(ns, cs, pid, depth as int, k as int));
            }
        }
    }

    fn is_page(&self, id: &String) -> (r: bool)
        ensures
            r == is_page_id(self.nodes@, id@),
    {
        let mut i: usize = 0;
        while i < self.nodes.len()
            invariant
                i <= self.nodes@.len(),
                forall|k: int| 0 <= k < i ==> !(self.nodes@[k].kind == NodeKind::Page && #[trigger] self.nodes@[k].id@ == id@),
            decreases self.nodes@.len() - i,
        {
            if self.nodes[i].kind == NodeKind::Page && str_eq(self.nodes[i].id.as_str(), id.as_str()) {
                return true;
            }
            i += 1;
        }
        false
    }

    fn shown_entries(&self) -> (r: Vec<(usize, usize)>)
        ensures
            entries_view(r@) == shown(*self),
            forall|k: int| 0 <= k < r@.len() ==> #[trigger] r@[k].0 < self.nodes@.len(),
    {
        let ghost ns = self.nodes@;
        let ghost cs = texts(self.collapsed@);
        let mut out: Vec<(usize, usize)> = Vec::new();
        let mut k: usize = 0;
        proof {
            assert(entries_view(out@) =~= Seq::<(int, int)>::empty());
        }
        while k < self.nodes.len()
            invariant
                k <= self.nodes@.len(),
                ns == self.nodes@,
                cs == texts(self.collapsed@),
                entries_view(out@) == roots_upto(ns, cs, k as int),
            decreases self.nodes@.len() - k,
        {
            let n = &self.nodes[k];
            let root = n.kind == NodeKind::Page && match &n.parent_id {
                None => true,
                Some(p) => !self.is_page(p),
            };
            if root {
                let ghost before = entries_view(out@);
                self.push_subtree(k, 0, &mut out);
            }
            k += 1;
        }
        let ghost trees = entries_view(out@);
        let mut k: usize = 0;
        while k < self.nodes.len()
            invariant
                k <= self.nodes@.len(),
                ns == self.nodes@,
                entries_view(out@) == trees + sources_upto(ns, k as int),
            decreases self.nodes@.len() - k,
        {
            if self.nodes[k].kind == NodeKind::DataSource {
                let ghost before = entries_view(out@);
                out.push((k, 0));
                proof {
                    assert(entries_view(out@) =~= before.push((k as int, 0int)));
                }
            }
            k += 1;
        }
        proof {
            lemma_shown_bounds(*self);
            assert forall|k: int| 0 <= k < out@.len() implies #[trigger] out@[k].0 < self.nodes@.len() by {
                assert(entries_view(out@)[k].0 == out@[k].0 as int);
                assert(shown(*self)[k] == entries_view(out@)[k]);
            }
        }
        out
    }

    /// The shown entries: the page tree depth-first from its roots (a
    /// collapsed page hides what is below it), then the data sources.
    pub fn visible(&self) -> (r: Vec<VisibleNode<'_>>)
        ensures
            r@.len() == shown(*self).len(),
            forall|k: int|
                0 <= k < r@.len() ==> *r@[k].node == self.nodes@[(#[trigger] shown(*self)[k]).0]
                    && r@[k].depth as int == shown(*self)[k].1,
    {
        let es = self.shown_entries();
        let mut out: Vec<VisibleNode<'_>> = Vec::new();
        let mut k: usize = 0;
        while k < es.len()
            invariant
                k <= es@.len(),
                entries_view(es@) == shown(*self),
                forall|q: int| 0 <= q < es@.len() ==> #[trigger] es@[q].0 < self.nodes@.len(),
                out@.len() == k,
                forall|q: int|
                    0 <= q < k ==> *out@[q].node == self.nodes@[(#[trigger] shown(*self)[q]).0]
                        && out@[q].depth as int == shown(*self)[q].1,
            decreases es@.len() - k,
        {
            let (i, d) = es[k];
            proof {
                assert(entries_view(es@)[k as int] == (i as int, d as int));
            }
            out.push(VisibleNode { node: &self.nodes[i], depth: d });
            k += 1;
        }
        out
    }

    /// Moves the cursor by `delta` entries, clamped to the shown ones;
    /// nothing happens when nothing is shown.
    pub fn move_cursor(&mut self, delta: isize)
        ensures
            sidebar_moved(*old(self), *final(self), delta as int),
    {
        let len = self.shown_entries().len();
        if len == 0 {
            return;
        }
        let target: i128 = self.cursor as i128 + delta as i128;
        let hi: i128 = len as i128 - 1;
        self.cursor = if target < 0 {
            0
        } else if target > hi {
            (len - 1) as usize
        } else {
            target as usize
        };
    }

    /// Collapses the page under the cursor, or expands it if collapsed.
    pub fn toggle_collapse(&mut self)
        ensures
            sidebar_toggled(*old(self), *final(self)),
    {
        let es = self.shown_entries();
        if self.cursor >= es.len() {
            return;
        }
        proof {
            assert(entries_view(es@)[self.cursor as int].0 == es@[self.cursor as int].0 as int);
        }
        let id = self.nodes[es[self.cursor].0].id.clone();
        let ghost before = texts(self.collapsed@);
        let mut kept: Vec<String> = Vec::new();
        let mut found = false;
        let mut i: usize = 0;
        while i < self.collapsed.len()
            invariant
                i <= self.collapsed@.len(),
                before == texts(self.collapsed@),
                found == before.take(i as int).contains(id@),
                forall|x: Seq<char>| #[trigger] texts(kept@).contains(x) == (x != id@ && before.take(i as int).contains(x)),
            decreases self.collapsed@.len() - i,
        {
            let ghost t0 = before.take(i as int);
            let ghost y = before[i as int];
            proof {
                assert(y == self.collapsed@[i as int]@);
                assert(before.take(i + 1) =~= t0.push(y));
                assert forall|x: Seq<char>| t0.push(y).contains(x) == (t0.contains(x) || x == y) by {
                    if x == y {
                        assert(t0.push(y)[t0.len() as int] == y);
                    }
                    if t0.contains(x) {
                        let w = choose|w: int| 0 <= w < t0.len() && t0[w] == x;
                        assert(t0.push(y)[w] == x);
                    }
                }
            }
            if str_eq(self.collapsed[i].as_str(), id.as_str()) {
                found = true;
                proof {
                    assert forall|x: Seq<char>| #[trigger] texts(kept@).contains(x) == (x != id@ && before.take(i + 1).contains(x)) by {
                        assert(t0.push(y).contains(x) == (t0.contains(x) || x == y));
                    }
                    assert(before.take(i + 1).contains(id@)) by {
                        assert(before.take(i + 1)[i as int] == id@);
                    }
                }
            } else {
                let ghost k0 = texts(kept@);
                kept.push(self.collapsed[i].clone());
                proof {
                    assert(texts(kept@) =~= k0.push(y));
                    assert forall|x: Seq<char>| k0.push(y).contains(x) == (k0.contains(x) || x == y) by {
                        if x == y {
                            assert(k0.push(y)[k0.len() as int] == y);
                        }
                        if k0.contains(x) {
                            let w = choose|w: int| 0 <= w < k0.len() && k0[w] == x;
                            assert(k0.push(y)[w] == x);
                        }
                    }
                    assert forall|x: Seq<char>| #[trigger] texts(kept@).contains(x) == (x != id@ && before.take(i + 1).contains(x)) by {
                        assert(t0.push(y).contains(x) == (t0.contains(x) || x == y));
                        if x == y {
                            assert(k0.push(y)[k0.len() as int] == y);
                        }
                        if k0.contains(x) {
                            let w = choose|w: int| 0 <= w < k0.len() && k0[w] == x;
                            assert(k0.push(y)[w] == x);
                        }
                        assert(k0.push(y).contains(x) == (k0.contains(x) || x == y));
                        assert(k0.contains(x) == (x != id@ && t0.contains(x)));
                    }
                    assert(before.take(i + 1).contains(id@) == t0.contains(id@)) by {
                        assert(t0.push(y).contains(id@) == (t0.contains(id@) || id@ == y));
                    }
                }
            }
            i += 1;
        }
        proof {
            assert(before.take(self.collapsed@.len() as int) =~= before);
            assert(found == before.contains(id@));
        }
        let ghost idv = id@;
        proof {
            assert(idv == self.nodes@[shown(*self)[self.cursor as int].0].id@);
        }
        if !found {
            let ghost k0 = texts(kept@);
            kept.push(id);
            proof {
                assert(texts(kept@) =~= k0.push(idv));
                assert forall|x: Seq<char>|
                    #[trigger] texts(kept@).contains(x) == if x == idv {
                        !before.contains(idv)
                    } else {
                        before.contains(x)
                    } by {
                    if x == idv {
                        assert(k0.push(idv)[k0.len() as int] == idv);
                    }
                    if k0.contains(x) {
                        let w = choose|w: int| 0 <= w < k0.len() && k0[w] == x;
                        assert(k0.push(idv)[w] == x);
                    }
                    if k0.push(idv).contains(x) && x != idv {
                        let w = choose|w: int| 0 <= w < k0.len() + 1 && k0.push(idv)[w] == x;
                        assert(w < k0.len());
                        assert(k0[w] == x);
                    }
                }
            }
        } else {
            proof {
                assert forall|x: Seq<char>|
                    #[trigger] texts(kept@).contains(x) == if x == idv {
                        !before.contains(idv)
                    } else {
                        before.contains(x)
                    } by {}
            }
        }
        self.collapsed = kept;
    }

    /// The entry under the cursor, if any.
    pub fn selected(&self) -> (r: Option<&TreeNode>)
        ensures
            match r {
                Some(n) => self.cursor < shown(*self).len() && *n == self.nodes@[shown(*self)[self.cursor as int].0],
                None => self.cursor >= shown(*self).len(),
            },
    {
        let es = self.shown_entries();
        if self.cursor < es.len() {
            let i = es[self.cursor].0;
            proof {
                assert(entries_view(es@)[self.cursor as int].0 == i as int);
            }
            Some(&self.nodes[i])
        } else {
            None
        }
    }
}

proof fn lemma_below_bounds(ns: Seq<TreeNode>, cs: Seq<Seq<char>>, p: Seq<char>, depth: int, k: int)
    ensures
        forall|q: int| 0 <= q < below(ns, cs, p, depth, k).len() ==> 0 <= #[trigger] below(ns, cs, p, depth, k)[q].0 < ns.len(),
    decreases ns.len() - depth, 1int, k,
{
    if !(depth < 0 || depth >= ns.len() || k <= 0 || k > ns.len()) {
        lemma_below_bounds(ns, cs, p, depth, k - 1);
        if is_child(ns[k - 1], p) {
            lemma_subtree_bounds(ns, cs, k - 1, depth);
            let a = below(ns, cs, p, depth, k - 1);
            let b = subtree(ns, cs, k - 1, depth);
            assert forall|q: int| 0 <= q < (a + b).len() implies 0 <= #[trigger] (a + b)[q].0 < ns.len() by {
                if q >= a.len() {
                    assert((a + b)[q] == b[q - a.len()]);
                }
            }
            assert(below(ns, cs, p, depth, k) == a + b);
        } else {
            assert(below(ns, cs, p, depth, k) == below(ns, cs, p, depth, k - 1));
        }
    }
}

proof fn lemma_subtree_bounds(ns: Seq<TreeNode>, cs: Seq<Seq<char>>, i: int, depth: int)
    ensures
        forall|q: int| 0 <= q < subtree(ns, cs, i, depth).len() ==> 0 <= #[trigger] subtree(ns, cs, i, depth)[q].0 < ns.len(),
    decreases ns.len() - depth, 0int, 0int,
{
    if !(depth < 0 || depth >= ns.len() || i < 0 || i >= ns.len()) && !cs.contains(ns[i].id@) {
        lemma_below_bounds(ns, cs, ns[i].id@, depth + 1, ns.len() as int);
        let b = below(ns, cs, ns[i].id@, depth + 1, ns.len() as int);
        assert forall|q: int| 0 <= q < (seq![(i, depth)] + b).len() implies 0 <= #[trigger] (seq![(i, depth)] + b)[q].0 < ns.len() by {
            if q >= 1 {
                assert((seq![(i, depth)] + b)[q] == b[q - 1]);
            }
        }
        assert(subtree(ns, cs, i, depth) == seq![(i, depth)] + b);
    }
}

proof fn lemma_roots_bounds(ns: Seq<TreeNode>, cs: Seq<Seq<char>>, k: int)
    ensures
        forall|q: int| 0 <= q < roots_upto(ns, cs, k).len() ==> 0 <= #[trigger] roots_upto(ns, cs, k)[q].0 < ns.len(),
    decreases k,
{
    if !(k <= 0 || k > ns.len()) {
        lemma_roots_bounds(ns, cs, k - 1);
        if is_root(ns, ns[k - 1]) {
            lemma_subtree_bounds(ns, cs, k - 1, 0);
            let a = roots_upto(ns, cs, k - 1);
            let b = subtree(ns, cs, k - 1, 0);
            assert forall|q: int| 0 <= q < (a + b).len() implies 0 <= #[trigger] (a + b)[q].0 < ns.len() by {
                if q >= a.len() {
                    assert((a + b)[q] == b[q - a.len()]);
                }
            }
            assert(roots_upto(ns, cs, k) == a + b);
        } else {
            assert(roots_upto(ns, cs, k) == roots_upto(ns, cs, k - 1));
        }
    }
}

proof fn lemma_sources_bounds(ns: Seq<TreeNode>, k: int)
    ensures
        forall|q: int| 0 <= q < sources_upto(ns, k).len() ==> 0 <= #[trigger] sources_upto(ns, k)[q].0 < ns.len(),
    decreases k,
{
    if !(k <= 0 || k > ns.len()) {
        lemma_sources_bounds(ns, k - 1);
        let a = sources_upto(ns, k - 1);
        if ns[k - 1].kind == NodeKind::DataSource {
            assert forall|q: int| 0 <= q < a.push((k - 1, 0)).len() implies 0 <= #[trigger] a.push((k - 1, 0))[q].0 < ns.len() by {
                if q < a.len() {
                    assert(a.push((k - 1, 0))[q] == a[q]);
                }
            }
            assert(sources_upto(ns, k) == a.push((k - 1, 0)));
        } else {
            assert(sources_upto(ns, k) == a);
        }
    }
}

proof fn lemma_shown_bounds(s: SidebarState)
    ensures
        forall|q: int| 0 <= q < shown(s).len() ==> 0 <= #[trigger] shown(s)[q].0 < s.nodes@.len(),
{
    let ns = s.nodes@;
    let cs = texts(s.collapsed@);
    lemma_roots_bounds(ns, cs, ns.len() as int);
    lemma_sources_bounds(ns, ns.len() as int);
    let a = roots_upto(ns, cs, ns.len() as int);
    let b = sources_upto(ns, ns.len() as int);
    assert forall|q: int| 0 <= q < shown(s).len() implies 0 <= #[trigger] shown(s)[q].0 < s.nodes@.len() by {
        if q >= a.len() {
            assert((a + b)[q] == b[q - a.len()]);
        } else {
            assert((a + b)[q] == a[q]);
        }
    }
}

} // verus!
