//! The page view: a page's blocks as indented, prefixed lines.
use vstd::prelude::*;
use crate::json::{bool_field, bool_spec, get_spec, str_field, str_or_empty, Json};
use crate::markdown::render::is_child_of;
use crate::records::{BlockRec, PageRec};
use crate::text::{chars_of, decimal, join, lines, push_decimal, push_seq, push_str, split_lines, str_eq};
use crate::ui::sidebar::texts;
use crate::ui::table::{clamp, field_texts};

verus! {

broadcast use vstd::string::group_string_axioms;

/// One shown line of a page. Code blocks give one line per source line and
/// carry their language so the renderer can highlight them.
pub struct BlockLine {
    pub block_id: String,
    pub text: String,
    pub indent: usize,
    pub link_page_id: Option<String>,
    pub code_language: Option<String>,
}

/// A line as plain values: `(block id, text, indent, link, code language)`.
pub type LineView = (Seq<char>, Seq<char>, int, Option<Seq<char>>, Option<Seq<char>>);

pub open spec fn opt_text(o: Option<String>) -> Option<Seq<char>> {
    match o {
        Some(s) => Some(s@),
        None => None,
    }
}

pub open spec fn line_view(l: BlockLine) -> LineView {
    (l.block_id@, l.text@, l.indent as int, opt_text(l.link_page_id), opt_text(l.code_language))
}

pub open spec fn lines_view(v: Seq<BlockLine>) -> Seq<LineView> {
    v.map_values(|l: BlockLine| line_view(l))
}

/// A page, its blocks, the cursor line, and the collapsed toggles.
pub struct PageView {
    pub page: PageRec,
    pub blocks: Vec<BlockRec>,
    pub cursor: usize,
    /// Ids of collapsed toggle blocks, each once.
    pub collapsed_toggles: Vec<String>,
}

/// A block's caption text (images): its pieces' `plain_text`, concatenated.
pub open spec fn caption_spec(payload: Json) -> Seq<char> {
    match get_spec(payload, "caption"@) {
        Some(Json::Array(a)) => join(field_texts(a@, "plain_text"@), Seq::empty()),
        _ => Seq::empty(),
    }
}

/// The shown text of a non-code block `b`, given its number among a run of
/// numbered siblings and whether it is a collapsed toggle.
pub open spec fn block_text(b: BlockRec, number: nat, collapsed: bool) -> Seq<char> {
    let t = b.block_type@;
    let x = b.plain_text@;
    if t == "heading_1"@ {
        "# "@ + x
    } else if t == "heading_2"@ {
        "## "@ + x
    } else if t == "heading_3"@ {
        "### "@ + x
    } else if t == "to_do"@ {
        (if bool_spec(get_spec(b.payload, "checked"@)) == Some(true) {
            "[x] "@
        } else {
            "[ ] "@
        }) + x
    } else if t == "bulleted_list_item"@ {
        "• "@ + x
    } else if t == "numbered_list_item"@ {
        decimal(number) + ". "@ + x
    } else if t == "toggle"@ {
        (if collapsed {
            "▸ "@
        } else {
            "▾ "@
        }) + x
    } else if t == "quote"@ {
        "┃ "@ + x
    } else if t == "callout"@ {
        "💡 "@ + x
    } else if t == "divider"@ {
        "────────"@
    } else if t == "child_page"@ || t == "child_database"@ {
        "→ "@ + x
    } else if t == "paragraph"@ {
        x
    } else if t == "image"@ {
        "[image: "@ + (if caption_spec(b.payload).len() == 0 {
            "untitled"@
        } else {
            caption_spec(b.payload)
        }) + "]"@
    } else if t == "bookmark"@ {
        "[bookmark: "@ + str_or_empty(get_spec(b.payload, "url"@)) + "]"@
    } else if t == "embed"@ {
        "[embed: "@ + str_or_empty(get_spec(b.payload, "url"@)) + "]"@
    } else {
        "["@ + t + "]"@
    }
}

/// The lines of code block `b` at `indent`: one per source line.
pub open spec fn code_lines(b: BlockRec, indent: int) -> Seq<LineView> {
    let ls = lines(b.plain_text@);
    Seq::new(
        ls.len(),
        |k: int|
            (b.id@, "│ "@ + ls[k], indent, None, Some(str_or_empty(get_spec(b.payload, "language"@)))),
    )
}

/// The lines of the children of `parent` among the first `k` blocks, each
/// followed by its own children's lines one level deeper (not for code
/// blocks, whose lines are their source, nor below a collapsed toggle),
/// and how many numbered items end the run so far. Nesting deeper than the
/// number of blocks only arises from a cyclic parent relation and shows
/// nothing.
pub open spec fn kids(
    bs: Seq<BlockRec>,
    collapsed: Seq<Seq<char>>,
    parent: Option<Seq<char>>,
    indent: int,
    k: int,
) -> (Seq<LineView>, nat)
    decreases bs.len() - indent, k,
{
    if indent < 0 || indent >= bs.len() || k <= 0 || k > bs.len() {
        (Seq::empty(), 0)
    } else {
        let (prev, num) = kids(bs, collapsed, parent, indent, k - 1);
        let b = bs[k - 1];
        if !is_child_of(b, parent) {
            (prev, num)
        } else {
            let n: nat = if b.block_type@ == "numbered_list_item"@ {
                num + 1
            } else {
                0
            };
            if b.block_type@ == "code"@ {
                (prev + code_lines(b, indent), n)
            } else {
                let is_collapsed = collapsed.contains(b.id@);
                let link = if b.block_type@ == "child_page"@ || b.block_type@ == "child_database"@ {
                    Some(b.id@)
                } else {
                    None
                };
                let line = (b.id@, block_text(b, n, is_collapsed), indent, link, None);
                if b.block_type@ == "toggle"@ && is_collapsed {
                    (prev.push(line), n)
                } else {
                    (prev.push(line) + kids(bs, collapsed, Some(b.id@), indent + 1, bs.len() as int).0, n)
                }
            }
        }
    }
}

/// The page's lines.
pub open spec fn page_lines(v: PageView) -> Seq<LineView> {
    kids(v.blocks@, texts(v.collapsed_toggles@), None, 0, v.blocks@.len() as int).0
}

fn holds(v: &Vec<String>, id: &String) -> (r: bool)
    ensures
        r == texts(v@).contains(id@),
{
    let mut i: usize = 0;
    while i < v.len()
        invariant
            i <= v@.len(),
            forall|k: int| 0 <= k < i ==> #[trigger] texts(v@)[k] != id@,
        decreases v@.len() - i,
    {
        if str_eq(v[i].as_str(), id.as_str()) {
            assert(texts(v@)[i as int] == id@);
            return true;
        }
        i += 1;
    }
    false
}

fn caption_text(payload: &Json) -> (r: String)
    ensures
        r@ == caption_spec(*payload),
{
    let mut out = String::new();
    match payload.get("caption") {
        Some(Json::Array(a)) => {
            let mut i: usize = 0;
            while i < a.len()
                invariant
                    i <= a@.len(),
                    out@ == join(field_texts(a@.take(i as int), "plain_text"@), Seq::empty()),
                decreases a@.len() - i,
            {
                proof {
                    assert(a@.take(i + 1).drop_last() =~= a@.take(i as int));
                    assert(a@.take(i + 1).last() == a@[i as int]);
                }
                let ghost before = field_texts(a@.take(i as int), "plain_text"@);
                match a[i].get("plain_text") {
                    Some(x) => match x.as_str() {
                        Some(t) => {
                            push_str(&mut out, t);
                            proof {
                                crate::text::lemma_join_push(before, t@, Seq::empty());
                                assert(out@ =~= join(before.push(t@), Seq::empty()));
                            }
                        },
                        None => {},
                    },
                    None => {},
                }
                i += 1;
            }
            proof {
                assert(a@.take(a@.len() as int) =~= a@);
            }
        },
        _ => {},
    }
    out
}

fn text_of(b: &BlockRec, number: usize, collapsed: bool) -> (r: String)
    ensures
        r@ == block_text(*b, number as nat, collapsed),
{
    let t = b.block_type.as_str();
    let x = b.plain_text.as_str();
    let mut s = String::new();
    if str_eq(t, "heading_1") {
        push_str(&mut s, "# ");
        push_str(&mut s, x);
    } else if str_eq(t, "heading_2") {
        push_str(&mut s, "## ");
        push_str(&mut s, x);
    } else if str_eq(t, "heading_3") {
        push_str(&mut s, "### ");
        push_str(&mut s, x);
    } else if str_eq(t, "to_do") {
        push_str(&mut s, if bool_field(&b.payload, "checked") { "[x] " } else { "[ ] " });
        push_str(&mut s, x);
    } else if str_eq(t, "bulleted_list_item") {
        push_str(&mut s, "• ");
        push_str(&mut s, x);
    } else if str_eq(t, "numbered_list_item") {
        push_decimal(&mut s, number as u64);
        push_str(&mut s, ". ");
        push_str(&mut s, x);
    } else if str_eq(t, "toggle") {
        push_str(&mut s, if collapsed { "▸ " } else { "▾ " });
        push_str(&mut s, x);
    } else if str_eq(t, "quote") {
        push_str(&mut s, "┃ ");
        push_str(&mut s, x);
    } else if str_eq(t, "callout") {
        push_str(&mut s, "💡 ");
        push_str(&mut s, x);
    } else if str_eq(t, "divider") {
        push_str(&mut s, "────────");
    } else if str_eq(t, "child_page") || str_eq(t, "child_database") {
        push_str(&mut s, "→ ");
        push_str(&mut s, x);
    } else if str_eq(t, "paragraph") {
        push_str(&mut s, x);
    } else if str_eq(t, "image") {
        let caption = caption_text(&b.payload);
        push_str(&mut s, "[image: ");
        if caption.as_str().is_empty() {
            push_str(&mut s, "untitled");
        } else {
            push_str(&mut s, caption.as_str());
        }
        push_str(&mut s, "]");
    } else if str_eq(t, "bookmark") {
        push_str(&mut s, "[bookmark: ");
        push_str(&mut s, str_field(&b.payload, "url"));
        push_str(&mut s, "]");
    } else if str_eq(t, "embed") {
        push_str(&mut s, "[embed: ");
        push_str(&mut s, str_field(&b.payload, "url"));
        push_str(&mut s, "]");
    } else {
        push_str(&mut s, "[");
        push_str(&mut s, t);
        push_str(&mut s, "]");
    }
    proof {
        assert(s@ =~= block_text(*b, number as nat, collapsed));
    }
    s
}

fn clone_opt(o: &Option<String>) -> (r: Option<String>)
    ensures
        opt_text(r) == opt_text(*o),
{
    match o {
        Some(x) => Some(x.clone()),
        None => None,
    }
}

/// `n` is `o` after moving the cursor by `delta` lines, clamped to the
/// page's lines (unchanged on an empty page).
pub open spec fn page_moved(o: PageView, n: PageView, delta: int) -> bool {
    &&& n.page == o.page
    &&& n.blocks == o.blocks
    &&& n.collapsed_toggles == o.collapsed_toggles
    &&& n.cursor == if page_lines(o).len() == 0 {
        o.cursor as int
    } else {
        clamp(o.cursor + delta, 0, page_lines(o).len() - 1)
    }
}

/// `n` is `o` with the toggle under the cursor collapsed or opened (the
/// collapsed set read as a set of ids), or `o` itself when the cursor is not
/// on a toggle.
pub open spec fn page_toggled(o: PageView, n: PageView) -> bool {
    let ls = page_lines(o);
    let c = o.cursor as int;
    &&& n.page == o.page
    &&& n.blocks == o.blocks
    &&& n.cursor == o.cursor
    &&& if c < ls.len() && exists|k: int|
        0 <= k < o.blocks@.len() && #[trigger] o.blocks@[k].id@ == ls[c].0 && o.blocks@[k].block_type@
            == "toggle"@ {
        forall|x: Seq<char>|
            #[trigger] texts(n.collapsed_toggles@).contains(x) == if x == ls[c].0 {
                !texts(o.collapsed_toggles@).contains(x)
            } else {
                texts(o.collapsed_toggles@).contains(x)
            }
    } else {
        n.collapsed_toggles == o.collapsed_toggles
    }
}

impl PageView {
    /// A view of `page` with the cursor on the first line and every toggle open.
    pub fn new(page: PageRec, blocks: Vec<BlockRec>) -> (r: PageView)
        ensures
            r.page == page,
            r.blocks == blocks,
            r.cursor == 0,
            r.collapsed_toggles@.len() == 0,
    {
        PageView { page, blocks, cursor: 0, collapsed_toggles: Vec::new() }
    }

    /// The page's lines, in document order.
    pub fn lines(&self) -> (r: Vec<BlockLine>)
        ensures
            lines_view(r@) == page_lines(*self),
    {
        let mut out: Vec<BlockLine> = Vec::new();
        proof {
            assert(lines_view(out@) =~= Seq::<LineView>::empty());
        }
        self.push_children(None, 0, &mut out);
        out
    }

    fn push_children(&self, parent: Option<&str>, indent: usize, out: &mut Vec<BlockLine>)
        requires
            indent <= self.blocks@.len(),
        ensures
            lines_view(final(out)@) == lines_view(old(out)@) + kids(
                self.blocks@,
                texts(self.collapsed_toggles@),
                match parent {
                    Some(p) => Some(p@),
                    None => None,
                },
                indent as int,
                self.blocks@.len() as int,
            ).0,
        decreases self.blocks@.len() - indent,
    {
        let ghost bs = self.blocks@;
        let ghost cs = texts(self.collapsed_toggles@);
        let ghost par: Option<Seq<char>> = match parent {
            Some(p) => Some(p@),
            None => None,
        };
        let ghost start = lines_view(out@);
        if indent >= self.blocks.len() {
            assert(lines_view(out@) =~= start + kids(bs, cs, par, indent as int, bs.len() as int).0);
            return;
        }
        let mut numbered: usize = 0;
        let mut i: usize = 0;
        while i < self.blocks.len()
            invariant
                i <= self.blocks@.len(),
                indent < self.blocks@.len(),
                bs == self.blocks@,
                cs == texts(self.collapsed_toggles@),
                par == match parent {
                    Some(p) => Some(p@),
                    None => None,
                },
                lines_view(out@) == start + kids(bs, cs, par, indent as int, i as int).0,
                numbered as nat == kids(bs, cs, par, indent as int, i as int).1,
                numbered <= i,
            decreases self.blocks@.len() - i,
        {
            let b = &self.blocks[i];
            let under = match (&b.parent_block_id, parent) {
                (Some(p), Some(q)) => str_eq(p.as_str(), q),
                (None, None) => true,
                _ => false,
            };
            let ghost before = lines_view(out@);
            if under {
                if str_eq(b.block_type.as_str(), "numbered_list_item") {
                    numbered = numbered + 1;
                } else {
                    numbered = 0;
                }
                if str_eq(b.block_type.as_str(), "code") {
                    let language = str_field(&b.payload, "language");
                    let src = split_lines(&chars_of(b.plain_text.as_str()));
                    let ghost ls = lines(b.plain_text@);
                    let mut j: usize = 0;
                    while j < src.len()
                        invariant
                            j <= src@.len(),
                            ls == lines(b.plain_text@),
                            language@ == str_or_empty(get_spec(b.payload, "language"@)),
                            src@.len() == ls.len(),
                            forall|q: int| 0 <= q < src@.len() ==> (#[trigger] src@[q])@ == ls[q],
                            lines_view(out@) == before + code_lines(*b, indent as int).take(j as int),
                        decreases src@.len() - j,
                    {
                        let mut text = String::new();
                        push_str(&mut text, "│ ");
                        push_seq(&mut text, &src[j]);
                        let ghost prev = lines_view(out@);
                        out.push(
                            BlockLine {
                                block_id: b.id.clone(),
                                text,
                                indent,
                                link_page_id: None,
                                code_language: Some(language.to_owned()),
                            },
                        );
                        j += 1;
                        proof {
                            let cl = code_lines(*b, indent as int);
                            assert(ls == lines(b.plain_text@));
                            assert(cl.len() == ls.len());
                            assert(cl[j - 1] == (b.id@, "│ "@ + ls[j - 1], indent as int, None::<Seq<char>>, Some(language@)));
                            assert(lines_view(out@) =~= prev.push(cl[j - 1]));
                            assert(cl.take(j as int) =~= cl.take(j - 1).push(cl[j - 1]));
                            assert(lines_view(out@) =~= before + cl.take(j as int));
                        }
                    }
                    proof {
                        assert(code_lines(*b, indent as int).take(src@.len() as int) =~= code_lines(*b, indent as int));
                    }
                } else {
                    let collapsed = holds(&self.collapsed_toggles, &b.id);
                    let text = text_of(b, numbered, collapsed);
                    let is_link = str_eq(b.block_type.as_str(), "child_page") || str_eq(
                        b.block_type.as_str(),
                        "child_database",
                    );
                    let link = if is_link {
                        Some(b.id.clone())
                    } else {
                        None
                    };
                    out.push(
                        BlockLine { block_id: b.id.clone(), text, indent, link_page_id: link, code_language: None },
                    );
                    proof {
                        assert(lines_view(out@) =~= before.push(
                            (
                                b.id@,
                                block_text(*b, numbered as nat, collapsed),
                                indent as int,
                                if is_link {
                                    Some(b.id@)
                                } else {
                                    None
                                },
                                None,
                            ),
                        ));
                    }
                    if !(str_eq(b.block_type.as_str(), "toggle") && collapsed) {
                        let ghost mid = lines_view(out@);
                        self.push_children(Some(b.id.as_str()), indent + 1, out);
                    }
                }
            }
            i += 1;
            proof {
                assert(lines_view(out@) =~= start + kids(bs, cs, par, indent as int, i as int).0);
            }
        }
    }

    /// Moves the cursor by `delta` lines, clamped to the page's lines;
    /// nothing happens on an empty page.
    pub fn move_cursor(&mut self, delta: isize)
        ensures
            page_moved(*old(self), *final(self), delta as int),
    {
        let len = self.lines().len();
        if len == 0 {
            return;
        }
        let target: i128 = self.cursor as i128 + delta as i128;
        let hi: i128 = len as i128 - 1;
        self.cursor = if target < 0 {
            0
        } else if target > hi {
            (len - 1) as usize
        } else {
            target as usize
        };
    }

    /// Whether some block with id `id` has type `ty`.
    fn block_is(&self, id: &String, ty: &str) -> (r: bool)
        ensures
            r == exists|k: int|
                0 <= k < self.blocks@.len() && #[trigger] self.blocks@[k].id@ == id@ && self.blocks@[k].block_type@
                    == ty@,
    {
        let mut k: usize = 0;
        while k < self.blocks.len()
            invariant
                k <= self.blocks@.len(),
                forall|q: int|
                    0 <= q < k ==> !(#[trigger] self.blocks@[q].id@ == id@ && self.blocks@[q].block_type@ == ty@),
            decreases self.blocks@.len() - k,
        {
            if str_eq(self.blocks[k].id.as_str(), id.as_str()) && str_eq(self.blocks[k].block_type.as_str(), ty) {
                return true;
            }
            k += 1;
        }
        false
    }

    /// Collapses the toggle under the cursor, or opens it if collapsed;
    /// other lines are left alone.
    pub fn toggle_at_cursor(&mut self)
        ensures
            page_toggled(*old(self), *final(self)),
    {
        let ls = self.lines();
        if self.cursor >= ls.len() {
            return;
        }
        let id = ls[self.cursor].block_id.clone();
        proof {
            assert(lines_view(ls@)[self.cursor as int].0 == id@);
        }
        if !self.block_is(&id, "toggle") {
            return;
        }
        let ghost before = texts(self.collapsed_toggles@);
        let ghost idv = id@;
        let mut kept: Vec<String> = Vec::new();
        let mut found = false;
        let mut i: usize = 0;
        while i < self.collapsed_toggles.len()
            invariant
                i <= self.collapsed_toggles@.len(),
                before == texts(self.collapsed_toggles@),
                idv == id@,
                found == before.take(i as int).contains(idv),
                forall|x: Seq<char>| #[trigger] texts(kept@).contains(x) == (x != idv && before.take(i as int).contains(x)),
            decreases self.collapsed_toggles@.len() - i,
        {
            let ghost t0 = before.take(i as int);
            let ghost y = before[i as int];
            proof {
                assert(y == self.collapsed_toggles@[i as int]@);
                assert(before.take(i + 1) =~= t0.push(y));
                assert forall|x: Seq<char>| t0.push(y).contains(x) == (t0.contains(x) || x == y) by {
                    if x == y {
                        assert(t0.push(y)[t0.len() as int] == y);
                    }
                    if t0.contains(x) {
                        let w = choose|w: int| 0 <= w < t0.len() && t0[w] == x;
                        assert(t0.push(y)[w] == x);
                    }
                }
            }
            if str_eq(self.collapsed_toggles[i].as_str(), id.as_str()) {
                found = true;
                proof {
                    assert forall|x: Seq<char>| #[trigger] texts(kept@).contains(x) == (x != idv && before.take(i + 1).contains(x)) by {
                        assert(t0.push(y).contains(x) == (t0.contains(x) || x == y));
                    }
                    assert(before.take(i + 1).contains(idv)) by {
                        assert(before.take(i + 1)[i as int] == idv);
                    }
                }
            } else {
                let ghost k0 = texts(kept@);
                kept.push(self.collapsed_toggles[i].clone());
                proof {
                    assert(texts(kept@) =~= k0.push(y));
                    assert forall|x: Seq<char>| #[trigger] texts(kept@).contains(x) == (x != idv && before.take(i + 1).contains(x)) by {
                        assert(t0.push(y).contains(x) == (t0.contains(x) || x == y));
                        if x == y {
                            assert(k0.push(y)[k0.len() as int] == y);
                        }
                        if k0.contains(x) {
                            let w = choose|w: int| 0 <= w < k0.len() && k0[w] == x;
                            assert(k0.push(y)[w] == x);
                        }
                        assert(k0.push(y).contains(x) == (k0.contains(x) || x == y));
                        assert(k0.contains(x) == (x != idv && t0.contains(x)));
                    }
                    assert(before.take(i + 1).contains(idv) == t0.contains(idv)) by {
                        assert(t0.push(y).contains(idv) == (t0.contains(idv) || idv == y));
                    }
                }
            }
            i += 1;
        }
        proof {
            assert(before.take(self.collapsed_toggles@.len() as int) =~= before);
        }
        if !found {
            let ghost k0 = texts(kept@);
            kept.push(id);
            proof {
                assert(texts(kept@) =~= k0.push(idv));
                assert forall|x: Seq<char>|
                    #[trigger] texts(kept@).contains(x) == if x == idv {
                        !before.contains(x)
                    } else {
                        before.contains(x)
                    } by {
                    if x == idv {
                        assert(k0.push(idv)[k0.len() as int] == idv);
                    }
                    if k0.contains(x) {
                        let w = choose|w: int| 0 <= w < k0.len() && k0[w] == x;
                        assert(k0.push(idv)[w] == x);
                    }
                    if k0.push(idv).contains(x) && x != idv {
                        let w = choose|w: int| 0 <= w < k0.len() + 1 && k0.push(idv)[w] == x;
                        assert(w < k0.len());
                        assert(k0[w] == x);
                    }
                }
            }
        } else {
            proof {
                assert forall|x: Seq<char>|
                    #[trigger] texts(kept@).contains(x) == if x == idv {
                        !before.contains(x)
                    } else {
                        before.contains(x)
                    } by {}
            }
        }
        self.collapsed_toggles = kept;
    }

    /// The page a link line under the cursor leads to.
    pub fn link_at_cursor(&self) -> (r: Option<String>)
        ensures
            opt_text(r) == if self.cursor < page_lines(*self).len() {
                page_lines(*self)[self.cursor as int].3
            } else {
                None
            },
    {
        let ls = self.lines();
        if self.cursor < ls.len() {
            proof {
                assert(lines_view(ls@)[self.cursor as int] == line_view(ls@[self.cursor as int]));
            }
            clone_opt(&ls[self.cursor].link_page_id)
        } else {
            None
        }
    }

    /// The block of the line under the cursor.
    pub fn block_id_at_cursor(&self) -> (r: Option<String>)
        ensures
            opt_text(r) == if self.cursor < page_lines(*self).len() {
                Some(page_lines(*self)[self.cursor as int].0)
            } else {
                None
            },
    {
        let ls = self.lines();
        if self.cursor < ls.len() {
            proof {
                assert(lines_view(ls@)[self.cursor as int] == line_view(ls@[self.cursor as int]));
            }
            Some(ls[self.cursor].block_id.clone())
        } else {
            None
        }
    }

    /// The block under the cursor when it is a to-do.
    pub fn todo_block_at_cursor(&self) -> (r: Option<String>)
        ensures
            opt_text(r) == if self.cursor < page_lines(*self).len() && exists|k: int|
                0 <= k < self.blocks@.len() && #[trigger] self.blocks@[k].id@ == page_lines(*self)[self.cursor as int].0
                    && self.blocks@[k].block_type@ == "to_do"@ {
                Some(page_lines(*self)[self.cursor as int].0)
            } else {
                None
            },
    {
        match self.block_id_at_cursor() {
            None => None,
            Some(id) => if self.block_is(&id, "to_do") {
                Some(id)
            } else {
                None
            },
        }
    }

    /// The block under the cursor when it is a child database.
    pub fn child_database_id_at_cursor(&self) -> (r: Option<String>)
        ensures
            opt_text(r) == if self.cursor < page_lines(*self).len() && exists|k: int|
                0 <= k < self.blocks@.len() && #[trigger] self.blocks@[k].id@ == page_lines(*self)[self.cursor as int].0
                    && self.blocks@[k].block_type@ == "child_database"@ {
                Some(page_lines(*self)[self.cursor as int].0)
            } else {
                None
            },
    {
        match self.block_id_at_cursor() {
            None => None,
            Some(id) => if self.block_is(&id, "child_database") {
                Some(id)
            } else {
                None
            },
        }
    }
}

} // verus!
