//! Parsing edited Markdown back into block lines.
use vstd::prelude::*;
use crate::text::{
    chars_of, ends_with, eq_chars, find, find_chars, has_prefix, has_suffix, join, lines,
    push_char, push_seq, slice_vec, split_lines, starts_with, string_of, string_of_range, trim,
    trim_chars,
};

verus! {

broadcast use vstd::string::group_string_axioms;

/// One block recovered from an edited Markdown document.
pub struct ParsedLine {
    pub depth: usize,
    pub block_type: String,
    pub text: String,
    pub checked: Option<bool>,
    pub protected_id: Option<String>,
}

/// A non-fatal problem noticed while parsing; the parse still produces a
/// best-effort result, but the caller may want the user to confirm it.
#[derive(Debug, PartialEq, Eq)]
pub enum ParseWarning {
    /// A fence opened on `line` (1-based) was never closed, so everything
    /// after it was swallowed into a single code block.
    UnclosedFence { line: usize },
}

/// The abstract content of a parsed line:
/// `(depth, block type, text, checked, protected id)`.
pub type LineView = (int, Seq<char>, Seq<char>, Option<bool>, Option<Seq<char>>);

pub open spec fn opt_view(o: Option<String>) -> Option<Seq<char>> {
    match o {
        Some(s) => Some(s@),
        None => None,
    }
}

impl ParsedLine {
    pub open spec fn view(&self) -> LineView {
        (
            self.depth as int,
            self.block_type@,
            self.text@,
            self.checked,
            opt_view(self.protected_id),
        )
    }
}

/// The 1-based line number an unclosed-fence warning reports.
pub open spec fn warning_line(w: ParseWarning) -> int {
    match w {
        ParseWarning::UnclosedFence { line } => line as int,
    }
}

/// Number of leading `' '` characters.
pub open spec fn indent(s: Seq<char>) -> nat
    decreases s.len(),
{
    if s.len() > 0 && s[0] == ' ' {
        1 + indent(s.drop_first())
    } else {
        0
    }
}

pub open spec fn marker_open() -> Seq<char> {
    seq!['<', '!', '-', '-', 'n', 'o', 't', 'i', 'o', 'n', ':', 'b', 'l', 'o', 'c', 'k', ':']
}

pub open spec fn marker_close() -> Seq<char> {
    seq!['-', '-', '>']
}

pub open spec fn fence() -> Seq<char> {
    seq!['`', '`', '`']
}

/// The id a protected-block marker line `<!--notion:block:ID-->` names.
pub open spec fn protected_marker(t: Seq<char>) -> Option<Seq<char>> {
    if has_prefix(t, marker_open()) && has_suffix(t.skip(marker_open().len() as int), marker_close()) {
        Some(t.subrange(marker_open().len() as int, t.len() - marker_close().len()))
    } else {
        None
    }
}

/// Whether every character of `s` is an ASCII digit.
pub open spec fn all_digits(s: Seq<char>) -> bool {
    forall|k: int| 0 <= k < s.len() ==> '0' <= #[trigger] s[k] <= '9'
}

/// Block type, text and checked state of an unindented Markdown line.
pub open spec fn classify(t: Seq<char>) -> (Seq<char>, Seq<char>, Option<bool>) {
    if has_prefix(t, seq!['#', '#', '#', ' ']) {
        ("heading_3"@, t.skip(4), None)
    } else if has_prefix(t, seq!['#', '#', ' ']) {
        ("heading_2"@, t.skip(3), None)
    } else if has_prefix(t, seq!['#', ' ']) {
        ("heading_1"@, t.skip(2), None)
    } else if has_prefix(t, seq!['-', ' ', '[', 'x', ']', ' ']) {
        ("to_do"@, t.skip(6), Some(true))
    } else if has_prefix(t, seq!['-', ' ', '[', ' ', ']', ' ']) {
        ("to_do"@, t.skip(6), Some(false))
    } else if has_prefix(t, seq!['>', ' ']) {
        ("quote"@, t.skip(2), None)
    } else if t == seq!['-', '-', '-'] {
        ("divider"@, Seq::empty(), None)
    } else if has_prefix(t, seq!['-', ' ']) {
        ("bulleted_list_item"@, t.skip(2), None)
    } else {
        match find(t, seq!['.', ' ']) {
            Some(d) if d > 0 && all_digits(t.take(d)) => ("numbered_list_item"@, t.skip(d + 2), None),
            _ => ("paragraph"@, t, None),
        }
    }
}

/// First index at or after `i` holding a closing fence line, or `ls.len()`.
pub open spec fn fence_end(ls: Seq<Seq<char>>, i: int) -> int
    decreases ls.len() - i,
{
    if i < 0 || i >= ls.len() {
        ls.len() as int
    } else if trim(ls[i]) == fence() {
        i
    } else {
        fence_end(ls, i + 1)
    }
}

pub proof fn lemma_fence_end(ls: Seq<Seq<char>>, i: int)
    requires
        0 <= i <= ls.len(),
    ensures
        i <= fence_end(ls, i) <= ls.len(),
        fence_end(ls, i) < ls.len() ==> trim(ls[fence_end(ls, i)]) == fence(),
        forall|k: int| i <= k < fence_end(ls, i) ==> trim(#[trigger] ls[k]) != fence(),
    decreases ls.len() - i,
{
    if i < ls.len() && trim(ls[i]) != fence() {
        lemma_fence_end(ls, i + 1);
    }
}

/// The lines parsed from `ls[i..]` and the 1-based line numbers of fences
/// left unclosed there.
pub open spec fn parse_from(ls: Seq<Seq<char>>, i: int) -> (Seq<LineView>, Seq<int>)
    decreases ls.len() - i,
{
    if i < 0 || i >= ls.len() {
        (Seq::empty(), Seq::empty())
    } else {
        let raw = ls[i];
        if trim(raw).len() == 0 {
            parse_from(ls, i + 1)
        } else {
            let ind = indent(raw);
            let depth = (ind / 2) as int;
            let t = raw.skip(ind as int);
            if protected_marker(t) is Some {
                let rest = parse_from(ls, i + 1);
                (
                    seq![(depth, "protected"@, Seq::<char>::empty(), None, protected_marker(t))]
                        + rest.0,
                    rest.1,
                )
            } else if has_prefix(t, fence()) {
                let j = fence_end(ls, i + 1);
                proof {
                    lemma_fence_end(ls, i + 1);
                }
                let body = join(ls.subrange(i + 1, j), seq!['\n']);
                let line = (depth, "code"@, body, None::<bool>, None::<Seq<char>>);
                if j < ls.len() {
                    let rest = parse_from(ls, j + 1);
                    (seq![line] + rest.0, rest.1)
                } else {
                    (seq![line], seq![i + 1])
                }
            } else {
                let c = classify(t);
                let rest = parse_from(ls, i + 1);
                (seq![(depth, c.0, c.1, c.2, None::<Seq<char>>)] + rest.0, rest.1)
            }
        }
    }
}

/// What parsing `md` yields: its lines and the unclosed-fence warnings.
pub open spec fn parse_spec(md: Seq<char>) -> (Seq<LineView>, Seq<int>) {
    parse_from(lines(md), 0)
}

/// A run of `i` leading spaces followed by something else is an indent of `i`.
pub proof fn lemma_indent(s: Seq<char>, i: int)
    requires
        0 <= i <= s.len(),
        forall|k: int| 0 <= k < i ==> #[trigger] s[k] == ' ',
        i == s.len() || s[i] != ' ',
    ensures
        indent(s) == i,
    decreases s.len(),
{
    if i > 0 {
        assert(s[0] == ' ');
        lemma_indent(s.drop_first(), i - 1);
    }
}

fn protected_id(t: &Vec<char>) -> (r: Option<String>)
    ensures
        opt_view(r) == protected_marker(t@),
{
    let open = vec!['<', '!', '-', '-', 'n', 'o', 't', 'i', 'o', 'n', ':', 'b', 'l', 'o', 'c', 'k', ':'];
    let close = vec!['-', '-', '>'];
    assert(open@ == marker_open());
    assert(close@ == marker_close());
    if !starts_with(t, &open) {
        return None;
    }
    let rest = slice_vec(t, open.len(), t.len());
    if !ends_with(&rest, &close) {
        assert(rest@ == t@.skip(marker_open().len() as int));
        return None;
    }
    assert(rest@ == t@.skip(marker_open().len() as int));
    Some(string_of_range(t, open.len(), t.len() - close.len()))
}

fn all_ascii_digits(v: &Vec<char>, upto: usize) -> (r: bool)
    requires
        upto <= v@.len(),
    ensures
        r == all_digits(v@.take(upto as int)),
{
    let mut k: usize = 0;
    while k < upto
        invariant
            upto <= v@.len(),
            k <= upto,
            forall|j: int| 0 <= j < k ==> '0' <= #[trigger] v@[j] <= '9',
        decreases upto - k,
    {
        if !('0' <= v[k] && v[k] <= '9') {
            assert(!('0' <= v@.take(upto as int)[k as int] <= '9'));
            return false;
        }
        k += 1;
    }
    assert forall|j: int| 0 <= j < upto implies '0' <= #[trigger] v@.take(upto as int)[j] <= '9' by {
        assert(v@.take(upto as int)[j] == v@[j]);
    }
    true
}

fn classify_line(t: &Vec<char>) -> (r: (String, String, Option<bool>))
    ensures
        (r.0@, r.1@, r.2) == classify(t@),
{
    let h3 = vec!['#', '#', '#', ' '];
    let h2 = vec!['#', '#', ' '];
    let h1 = vec!['#', ' '];
    let done = vec!['-', ' ', '[', 'x', ']', ' '];
    let todo = vec!['-', ' ', '[', ' ', ']', ' '];
    let quote = vec!['>', ' '];
    let rule = vec!['-', '-', '-'];
    let bullet = vec!['-', ' '];
    let dot = vec!['.', ' '];
    let n = t.len();
    if starts_with(t, &h3) {
        return ("heading_3".to_owned(), string_of_range(t, 4, n), None);
    }
    if starts_with(t, &h2) {
        return ("heading_2".to_owned(), string_of_range(t, 3, n), None);
    }
    if starts_with(t, &h1) {
        return ("heading_1".to_owned(), string_of_range(t, 2, n), None);
    }
    if starts_with(t, &done) {
        return ("to_do".to_owned(), string_of_range(t, 6, n), Some(true));
    }
    if starts_with(t, &todo) {
        return ("to_do".to_owned(), string_of_range(t, 6, n), Some(false));
    }
    if starts_with(t, &quote) {
        return ("quote".to_owned(), string_of_range(t, 2, n), None);
    }
    if eq_chars(t, &rule) {
        return ("divider".to_owned(), String::new(), None);
    }
    if starts_with(t, &bullet) {
        return ("bulleted_list_item".to_owned(), string_of_range(t, 2, n), None);
    }
    match find_chars(t, &dot) {
        Some(d) => {
            if d > 0 && all_ascii_digits(t, d) {
                return ("numbered_list_item".to_owned(), string_of_range(t, d + 2, n), None);
            }
        },
        None => {},
    }
    let whole = string_of(t);
    ("paragraph".to_owned(), whole, None)
}

/// The abstract content of a list of parsed lines.
pub open spec fn lines_view(v: Seq<ParsedLine>) -> Seq<LineView> {
    v.map_values(|l: ParsedLine| l.view())
}

/// The line numbers a list of warnings reports.
pub open spec fn warnings_view(v: Seq<ParseWarning>) -> Seq<int> {
    v.map_values(|w: ParseWarning| warning_line(w))
}

/// Parses edited Markdown into block lines, also reporting non-fatal
/// problems (an unclosed code fence).
pub fn parse_markdown_checked(md: &str) -> (r: (Vec<ParsedLine>, Vec<ParseWarning>))
    ensures
        lines_view(r.0@) == parse_spec(md@).0,
        warnings_view(r.1@) == parse_spec(md@).1,
{
    let chars = chars_of(md);
    let ls = split_lines(&chars);
    let ghost lsv = lines(md@);
    let fence_chars = vec!['`', '`', '`'];
    assert(fence_chars@ == fence());
    let mut out: Vec<ParsedLine> = Vec::new();
    let mut warnings: Vec<ParseWarning> = Vec::new();
    let mut i: usize = 0;
    while i < ls.len()
        invariant
            fence_chars@ == fence(),
            ls@.len() == lsv.len(),
            forall|k: int| 0 <= k < ls@.len() ==> (#[trigger] ls@[k])@ == lsv[k],
            i <= ls@.len(),
            parse_from(lsv, 0).0 == lines_view(out@) + parse_from(lsv, i as int).0,
            parse_from(lsv, 0).1 == warnings_view(warnings@) + parse_from(lsv, i as int).1,
        decreases ls@.len() - i,
    {
        let ghost old_out = out@;
        let ghost old_w = warnings@;
        let raw = &ls[i];
        let tr = trim_chars(raw);
        assert(raw@ == lsv[i as int]);
        if tr.len() == 0 {
            i += 1;
        } else {
            let mut ind: usize = 0;
            while ind < raw.len() && raw[ind] == ' '
                invariant
                    ind <= raw@.len(),
                    forall|k: int| 0 <= k < ind ==> #[trigger] raw@[k] == ' ',
                decreases raw@.len() - ind,
            {
                ind += 1;
            }
            proof {
                lemma_indent(raw@, ind as int);
            }
            let depth = ind / 2;
            let t = slice_vec(raw, ind, raw.len());
            assert(t@ == raw@.skip(ind as int));
            match protected_id(&t) {
                Some(id) => {
                    let line = ParsedLine {
                        depth,
                        block_type: "protected".to_owned(),
                        text: String::new(),
                        checked: None,
                        protected_id: Some(id),
                    };
                    out.push(line);
                    proof {
                        assert(lines_view(out@) == lines_view(old_out).push(line.view()));
                        assert(lines_view(out@) + parse_from(lsv, i + 1).0 == lines_view(old_out)
                            + parse_from(lsv, i as int).0);
                    }
                    i += 1;
                },
                None => {
                    if starts_with(&t, &fence_chars) {
                        proof {
                            lemma_fence_end(lsv, i + 1);
                        }
                        let mut j = i + 1;
                        let mut body = String::new();
                        while j < ls.len() && !eq_chars(&trim_chars(&ls[j]), &fence_chars)
                            invariant
                                fence_chars@ == fence(),
                                ls@.len() == lsv.len(),
                                forall|k: int| 0 <= k < ls@.len() ==> (#[trigger] ls@[k])@ == lsv[k],
                                i + 1 <= j <= ls@.len(),
                                fence_end(lsv, i + 1) == fence_end(lsv, j as int),
                                body@ == join(lsv.subrange(i + 1, j as int), seq!['\n']),
                            decreases ls@.len() - j,
                        {
                            assert(ls@[j as int]@ == lsv[j as int]);
                            let ghost before = body@;
                            if j > i + 1 {
                                push_char(&mut body, '\n');
                            }
                            push_seq(&mut body, &ls[j]);
                            proof {
                                let parts = lsv.subrange(i + 1, j + 1);
                                assert(parts.drop_last() == lsv.subrange(i + 1, j as int));
                                assert(parts.last() == lsv[j as int]);
                                if j == i + 1 {
                                    assert(parts.len() == 1);
                                }
                            }
                            j += 1;
                        }
                        let line = ParsedLine {
                            depth,
                            block_type: "code".to_owned(),
                            text: body,
                            checked: None,
                            protected_id: None,
                        };
                        out.push(line);
                        proof {
                            if j < ls@.len() {
                                assert(ls@[j as int]@ == lsv[j as int]);
                            }
                            assert(fence_end(lsv, j as int) == j);
                            assert(lines_view(out@) == lines_view(old_out).push(line.view()));
                        }
                        if j < ls.len() {
                            i = j + 1;
                        } else {
                            let w = ParseWarning::UnclosedFence { line: i + 1 };
                            warnings.push(w);
                            proof {
                                assert(warnings_view(warnings@) == warnings_view(old_w).push(
                                    warning_line(w),
                                ));
                                assert(parse_from(lsv, j as int).0.len() == 0);
                            }
                            i = j;
                        }
                    } else {
                        let (bt, text, checked) = classify_line(&t);
                        let line = ParsedLine {
                            depth,
                            block_type: bt,
                            text,
                            checked,
                            protected_id: None,
                        };
                        out.push(line);
                        proof {
                            assert(lines_view(out@) == lines_view(old_out).push(line.view()));
                        }
                        i += 1;
                    }
                },
            }
        }
    }
    (out, warnings)
}

/// Parses edited Markdown into block lines.
pub fn parse_markdown(md: &str) -> (r: Vec<ParsedLine>)
    ensures
        lines_view(r@) == parse_spec(md@).0,
{
    parse_markdown_checked(md).0
}

} // verus!
