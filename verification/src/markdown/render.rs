//! Rendering a page's blocks to Markdown for external editing.
use vstd::prelude::*;
use crate::json::{bool_field, bool_spec, get_spec, str_field, str_or_empty};
use crate::records::BlockRec;
use crate::text::{join, lemma_join_push, push_char, push_str, str_eq};

verus! {

broadcast use vstd::string::group_string_axioms;

/// One rendered top-level "atom" of the document: an expressible block, or a
/// protected island standing for a block the Markdown cannot express (with
/// its whole subtree).
pub struct Unit {
    pub id: String,
    pub depth: usize,
    pub block_type: String,
    pub text: String,
    pub protected: bool,
}

/// A unit as plain values: `(id, depth, block type, text, protected)`.
pub type UnitView = (Seq<char>, int, Seq<char>, Seq<char>, bool);

impl Unit {
    pub open spec fn view(&self) -> UnitView {
        (self.id@, self.depth as int, self.block_type@, self.text@, self.protected)
    }
}

/// The units as plain values.
pub open spec fn units_view(v: Seq<Unit>) -> Seq<UnitView> {
    v.map_values(|u: Unit| u.view())
}

/// Block types a line of Markdown can express.
pub open spec fn expressible(t: Seq<char>) -> bool {
    t == "paragraph"@ || t == "heading_1"@ || t == "heading_2"@ || t == "heading_3"@ || t
        == "to_do"@ || t == "bulleted_list_item"@ || t == "numbered_list_item"@ || t == "quote"@
        || t == "divider"@ || t == "code"@
}

/// Whether a block of type `block_type` renders as Markdown (else it is protected).
pub fn is_expressible(block_type: &str) -> (r: bool)
    ensures
        r == expressible(block_type@),
{
    str_eq(block_type, "paragraph") || str_eq(block_type, "heading_1") || str_eq(
        block_type,
        "heading_2",
    ) || str_eq(block_type, "heading_3") || str_eq(block_type, "to_do") || str_eq(
        block_type,
        "bulleted_list_item",
    ) || str_eq(block_type, "numbered_list_item") || str_eq(block_type, "quote") || str_eq(
        block_type,
        "divider",
    ) || str_eq(block_type, "code")
}

/// The Markdown line (several lines for code) of block `b`.
pub open spec fn line_text(b: BlockRec) -> Seq<char> {
    let t = b.block_type@;
    let x = b.plain_text@;
    if t == "heading_1"@ {
        "# "@ + x
    } else if t == "heading_2"@ {
        "## "@ + x
    } else if t == "heading_3"@ {
        "### "@ + x
    } else if t == "to_do"@ {
        "- ["@ + (if bool_spec(get_spec(b.payload, "checked"@)) == Some(true) {
            "x"@
        } else {
            " "@
        }) + "] "@ + x
    } else if t == "bulleted_list_item"@ {
        "- "@ + x
    } else if t == "numbered_list_item"@ {
        "1. "@ + x
    } else if t == "quote"@ {
        "> "@ + x
    } else if t == "divider"@ {
        "---"@
    } else if t == "code"@ {
        "```"@ + str_or_empty(get_spec(b.payload, "language"@)) + "\n"@ + x + "\n```"@
    } else {
        x
    }
}

/// The marker line that stands for protected block `id`.
pub open spec fn marker_text(id: Seq<char>) -> Seq<char> {
    "<!--notion:block:"@ + id + "-->"@
}

/// `a` followed by `b`.
fn two(a: &str, b: &str) -> (r: String)
    ensures
        r@ == a@ + b@,
{
    let mut s = String::new();
    push_str(&mut s, a);
    push_str(&mut s, b);
    s
}

fn render_line(b: &BlockRec) -> (r: String)
    ensures
        r@ == line_text(*b),
{
    let t = b.block_type.as_str();
    let x = b.plain_text.as_str();
    if str_eq(t, "heading_1") {
        two("# ", x)
    } else if str_eq(t, "heading_2") {
        two("## ", x)
    } else if str_eq(t, "heading_3") {
        two("### ", x)
    } else if str_eq(t, "to_do") {
        let mark = if bool_field(&b.payload, "checked") {
            "x"
        } else {
            " "
        };
        let mut s = String::new();
        push_str(&mut s, "- [");
        push_str(&mut s, mark);
        push_str(&mut s, "] ");
        push_str(&mut s, x);
        s
    } else if str_eq(t, "bulleted_list_item") {
        two("- ", x)
    } else if str_eq(t, "numbered_list_item") {
        two("1. ", x)
    } else if str_eq(t, "quote") {
        two("> ", x)
    } else if str_eq(t, "divider") {
        "---".to_owned()
    } else if str_eq(t, "code") {
        let lang = str_field(&b.payload, "language");
        let mut s = String::new();
        push_str(&mut s, "```");
        push_str(&mut s, lang);
        push_str(&mut s, "\n");
        push_str(&mut s, x);
        push_str(&mut s, "\n```");
        s
    } else {
        x.to_owned()
    }
}

/// Whether block `b` sits directly under `parent` (`None`: at the top level).
pub open spec fn is_child_of(b: BlockRec, parent: Option<Seq<char>>) -> bool {
    match b.parent_block_id {
        Some(p) => parent == Some(p@),
        None => parent is None,
    }
}

/// The units of the children of `parent` among the first `n` blocks, each
/// followed by the units of its own children (at `depth + 1`) when it is
/// expressible; a non-expressible block yields one protected unit and
/// nothing below it. Nesting deeper than the number of blocks only arises
/// from a cyclic parent relation and yields nothing.
pub open spec fn walk(bs: Seq<BlockRec>, parent: Option<Seq<char>>, depth: int, n: int) -> Seq<UnitView>
    decreases bs.len() - depth, n,
{
    if depth < 0 || depth >= bs.len() || n <= 0 || n > bs.len() {
        Seq::empty()
    } else {
        let before = walk(bs, parent, depth, n - 1);
        let b = bs[n - 1];
        if !is_child_of(b, parent) {
            before
        } else if expressible(b.block_type@) {
            let u = (b.id@, depth, b.block_type@, line_text(b), false);
            if b.has_children {
                before.push(u) + walk(bs, Some(b.id@), depth + 1, bs.len() as int)
            } else {
                before.push(u)
            }
        } else {
            before.push((b.id@, depth, b.block_type@, marker_text(b.id@), true))
        }
    }
}

/// Two spaces per level of `depth`.
pub open spec fn indentation(depth: int) -> Seq<char> {
    Seq::new((2 * depth) as nat, |i: int| ' ')
}

/// The document lines of `units`: each unit's text indented by its depth.
pub open spec fn unit_lines(units: Seq<UnitView>) -> Seq<Seq<char>> {
    units.map_values(|u: UnitView| indentation(u.1) + u.3)
}

fn push_children(blocks: &Vec<BlockRec>, parent: Option<&str>, depth: usize, out: &mut Vec<Unit>)
    requires
        depth <= blocks@.len(),
    ensures
        units_view(final(out)@) == units_view(old(out)@) + walk(
            blocks@,
            match parent {
                Some(p) => Some(p@),
                None => None,
            },
            depth as int,
            blocks@.len() as int,
        ),
    decreases blocks@.len() - depth,
{
    let ghost par: Option<Seq<char>> = match parent {
        Some(p) => Some(p@),
        None => None,
    };
    let ghost start = units_view(out@);
    if depth >= blocks.len() {
        assert(units_view(out@) =~= start + walk(blocks@, par, depth as int, blocks@.len() as int));
        return;
    }
    let mut i: usize = 0;
    while i < blocks.len()
        invariant
            i <= blocks@.len(),
            depth < blocks@.len(),

            par == match parent {
                Some(p) => Some(p@),
                None => None,
            },
            units_view(out@) == start + walk(blocks@, par, depth as int, i as int),
        decreases blocks@.len() - i,
    {
        let b = &blocks[i];
        let under = match (&b.parent_block_id, parent) {
            (Some(p), Some(q)) => str_eq(p.as_str(), q),
            (None, None) => true,
            _ => false,
        };
        let ghost before = units_view(out@);
        if under {
            if is_expressible(b.block_type.as_str()) {
                let text = render_line(b);
                out.push(
                    Unit {
                        id: b.id.clone(),
                        depth,
                        block_type: b.block_type.clone(),
                        text,
                        protected: false,
                    },
                );
                proof {
                    assert(units_view(out@) =~= before.push(
                        (b.id@, depth as int, b.block_type@, line_text(*b), false),
                    ));
                }
                if b.has_children {
                    let ghost mid = units_view(out@);
                    push_children(blocks, Some(b.id.as_str()), depth + 1, out);
                    proof {
                        assert(units_view(out@) =~= mid + walk(
                            blocks@,
                            Some(b.id@),
                            depth + 1,
                            blocks@.len() as int,
                        ));
                    }
                }
            } else {
                let mut text = String::new();
                push_str(&mut text, "<!--notion:block:");
                push_str(&mut text, b.id.as_str());
                push_str(&mut text, "-->");
                out.push(
                    Unit {
                        id: b.id.clone(),
                        depth,
                        block_type: b.block_type.clone(),
                        text,
                        protected: true,
                    },
                );
                proof {
                    assert(units_view(out@) =~= before.push(
                        (b.id@, depth as int, b.block_type@, marker_text(b.id@), true),
                    ));
                }
            }
        }
        i += 1;
        proof {
            assert(units_view(out@) =~= start + walk(blocks@, par, depth as int, i as int));
        }
    }
}

/// Renders a page's blocks to Markdown. Returns the joined text plus the flat
/// list of units (one per rendered atom, in document order) that applying an
/// edited text correlates back to block ids.
pub fn blocks_to_markdown(blocks: &Vec<BlockRec>) -> (r: (String, Vec<Unit>))
    ensures
        units_view(r.1@) == walk(blocks@, None, 0, blocks@.len() as int),
        r.0@ == join(unit_lines(units_view(r.1@)), seq!['\n']),
{
    let mut units: Vec<Unit> = Vec::new();
    push_children(blocks, None, 0, &mut units);
    proof {
        assert(units_view(units@) =~= walk(blocks@, None, 0, blocks@.len() as int));
    }
    let mut md = String::new();
    let mut i: usize = 0;
    while i < units.len()
        invariant
            i <= units@.len(),
            md@ == join(unit_lines(units_view(units@.take(i as int))), seq!['\n']),
        decreases units@.len() - i,
    {
        let ghost prev = unit_lines(units_view(units@.take(i as int)));
        if i > 0 {
            push_char(&mut md, '\n');
        }
        let ghost after_sep = md@;
        let u = &units[i];
        let mut k: usize = 0;
        while k < u.depth
            invariant
                k <= u.depth,
                md@ == after_sep + indentation(k as int),
            decreases u.depth - k,
        {
            push_char(&mut md, ' ');
            push_char(&mut md, ' ');
            k += 1;
            proof {
                assert(md@ =~= after_sep + indentation(k as int));
            }
        }
        push_str(&mut md, u.text.as_str());
        proof {
            let line = indentation(u.depth as int) + u.text@;
            assert(units@.take(i + 1) =~= units@.take(i as int).push(units@[i as int]));
            assert(unit_lines(units_view(units@.take(i + 1))) =~= prev.push(line));
            lemma_join_push(prev, line, seq!['\n']);
            assert(prev.len() == i);
            assert(md@ =~= join(prev.push(line), seq!['\n']));
        }
        i += 1;
    }
    proof {
        assert(units@.take(units@.len() as int) =~= units@);
    }
    (md, units)
}

} // verus!
