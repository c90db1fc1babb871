//! Character-level string helpers shared by the parsers and views.
use vstd::prelude::*;

verus! {

broadcast use vstd::string::group_string_axioms;

/// The characters of `s`, in order.
pub fn chars_of(s: &str) -> (r: Vec<char>)
    ensures
        r@ == s@,
{
    let mut r: Vec<char> = Vec::new();
    for c in it: s.chars()
        invariant
            r@ == it.seq().take(it.index()),
    {
        r.push(c);
    }
    r
}

/// Appends one character to a `String` (std's `String::push`).
#[verifier::external_body]
pub(crate) fn push_char(s: &mut String, c: char)
    ensures
        final(s)@ == old(s)@.push(c),
{
    s.push(c);
}

/// A `String` holding `v[from..to]`.
pub fn string_of_range(v: &Vec<char>, from: usize, to: usize) -> (r: String)
    requires
        from <= to <= v@.len(),
    ensures
        r@ == v@.subrange(from as int, to as int),
{
    let mut r = String::new();
    let mut i = from;
    while i < to
        invariant
            from <= i <= to <= v@.len(),
            r@ == v@.subrange(from as int, i as int),
        decreases to - i,
    {
        push_char(&mut r, v[i]);
        i += 1;
    }
    r
}

/// A `String` holding exactly the characters of `v`.
pub fn string_of(v: &Vec<char>) -> (r: String)
    ensures
        r@ == v@,
{
    string_of_range(v, 0, v.len())
}

/// Appends the characters of `t` to `s`.
pub fn push_seq(s: &mut String, t: &Vec<char>)
    ensures
        final(s)@ == old(s)@ + t@,
{
    let mut i: usize = 0;
    while i < t.len()
        invariant
            i <= t@.len(),
            s@ == old(s)@ + t@.take(i as int),
        decreases t@.len() - i,
    {
        push_char(s, t[i]);
        i += 1;
    }
}

/// Appends the characters of `t` to `s`.
pub fn push_str(s: &mut String, t: &str)
    ensures
        final(s)@ == old(s)@ + t@,
{
    let v = chars_of(t);
    push_seq(s, &v);
}

/// Unicode `White_Space`, the property `char::is_whitespace` reports.
pub open spec fn is_ws(c: char) -> bool {
    let u = c as u32;
    (0x9 <= u && u <= 0xd) || u == 0x20 || u == 0x85 || u == 0xa0 || u == 0x1680
        || (0x2000 <= u && u <= 0x200a) || u == 0x2028 || u == 0x2029 || u == 0x202f
        || u == 0x205f || u == 0x3000
}

pub fn is_whitespace(c: char) -> (r: bool)
    ensures
        r == is_ws(c),
{
    let u = c as u32;
    (0x9 <= u && u <= 0xd) || u == 0x20 || u == 0x85 || u == 0xa0 || u == 0x1680
        || (0x2000 <= u && u <= 0x200a) || u == 0x2028 || u == 0x2029 || u == 0x202f
        || u == 0x205f || u == 0x3000
}

/// Number of leading whitespace characters.
pub open spec fn lead_ws(s: Seq<char>) -> nat
    decreases s.len(),
{
    if s.len() > 0 && is_ws(s[0]) {
        1 + lead_ws(s.drop_first())
    } else {
        0
    }
}

/// Number of trailing whitespace characters.
pub open spec fn trail_ws(s: Seq<char>) -> nat
    decreases s.len(),
{
    if s.len() > 0 && is_ws(s.last()) {
        1 + trail_ws(s.drop_last())
    } else {
        0
    }
}

/// `s` with leading and trailing whitespace removed (`str::trim`).
pub open spec fn trim(s: Seq<char>) -> Seq<char> {
    let a = lead_ws(s);
    if a == s.len() {
        Seq::empty()
    } else {
        s.subrange(a as int, s.len() - trail_ws(s))
    }
}

proof fn lemma_lead_ws(s: Seq<char>, i: int)
    requires
        0 <= i <= s.len(),
        forall|k: int| 0 <= k < i ==> is_ws(#[trigger] s[k]),
        i == s.len() || !is_ws(s[i]),
    ensures
        lead_ws(s) == i,
    decreases s.len(),
{
    if s.len() > 0 && i > 0 {
        assert(is_ws(s[0]));
        lemma_lead_ws(s.drop_first(), i - 1);
    }
}

proof fn lemma_trail_ws(s: Seq<char>, i: int)
    requires
        0 <= i <= s.len(),
        forall|k: int| i <= k < s.len() ==> is_ws(#[trigger] s[k]),
        i == 0 || !is_ws(s[i - 1]),
    ensures
        trail_ws(s) == s.len() - i,
    decreases s.len(),
{
    if s.len() > 0 && i < s.len() {
        assert(is_ws(s[s.len() - 1]));
        lemma_trail_ws(s.drop_last(), i);
    }
}

pub proof fn lemma_lead_ws_props(s: Seq<char>)
    ensures
        lead_ws(s) <= s.len(),
        forall|k: int| 0 <= k < lead_ws(s) ==> is_ws(#[trigger] s[k]),
        lead_ws(s) < s.len() ==> !is_ws(s[lead_ws(s) as int]),
    decreases s.len(),
{
    if s.len() > 0 && is_ws(s[0]) {
        lemma_lead_ws_props(s.drop_first());
        assert forall|k: int| 0 <= k < lead_ws(s) implies is_ws(#[trigger] s[k]) by {
            if k > 0 {
                assert(s[k] == s.drop_first()[k - 1]);
            }
        }
    }
}

proof fn lemma_trail_ws_props(s: Seq<char>)
    ensures
        trail_ws(s) <= s.len(),
        forall|k: int| s.len() - trail_ws(s) <= k < s.len() ==> is_ws(#[trigger] s[k]),
        trail_ws(s) < s.len() ==> !is_ws(s[s.len() - trail_ws(s) - 1]),
    decreases s.len(),
{
    if s.len() > 0 && is_ws(s.last()) {
        lemma_trail_ws_props(s.drop_last());
        assert forall|k: int| s.len() - trail_ws(s) <= k < s.len() implies is_ws(#[trigger] s[k]) by {
            if k < s.len() - 1 {
                assert(s[k] == s.drop_last()[k]);
            }
        }
    }
}

/// Trimming twice trims no more than once.
pub proof fn lemma_trim_idempotent(s: Seq<char>)
    ensures
        trim(trim(s)) == trim(s),
{
    lemma_lead_ws_props(s);
    lemma_trail_ws_props(s);
    let a = lead_ws(s);
    let t = trim(s);
    if a < s.len() {
        let b = s.len() - trail_ws(s);
        assert(a < b);
        assert(t[0] == s[a as int]);
        assert(t.last() == s[b - 1]);
        assert(lead_ws(t) == 0);
        assert(trail_ws(t) == 0);
        assert(t.subrange(0, t.len() as int) =~= t);
    } else {
        assert(lead_ws(t) == 0);
    }
}

/// How many whitespace characters `v` starts with.
pub fn lead_ws_count(v: &Vec<char>) -> (r: usize)
    ensures
        r == lead_ws(v@),
        r <= v@.len(),
{
    let mut a: usize = 0;
    while a < v.len() && is_whitespace(v[a])
        invariant
            a <= v@.len(),
            forall|k: int| 0 <= k < a ==> is_ws(#[trigger] v@[k]),
        decreases v@.len() - a,
    {
        a += 1;
    }
    proof {
        lemma_lead_ws(v@, a as int);
    }
    a
}

/// Bounds `(a, b)` of the trimmed part of `v`.
pub fn trim_bounds(v: &Vec<char>) -> (r: (usize, usize))
    ensures
        r.0 <= r.1 <= v@.len(),
        v@.subrange(r.0 as int, r.1 as int) == trim(v@),
{
    let mut a: usize = 0;
    while a < v.len() && is_whitespace(v[a])
        invariant
            a <= v@.len(),
            forall|k: int| 0 <= k < a ==> is_ws(#[trigger] v@[k]),
        decreases v@.len() - a,
    {
        a += 1;
    }
    proof {
        lemma_lead_ws(v@, a as int);
    }
    if a == v.len() {
        return (a, a);
    }
    let mut b: usize = v.len();
    while b > a && is_whitespace(v[b - 1])
        invariant
            a < v@.len(),
            !is_ws(v@[a as int]),
            a <= b <= v@.len(),
            forall|k: int| b <= k < v@.len() ==> is_ws(#[trigger] v@[k]),
        decreases b,
    {
        b -= 1;
    }
    proof {
        lemma_trail_ws(v@, b as int);
    }
    (a, b)
}

/// `trim` of `v`, as characters.
pub fn trim_chars(v: &Vec<char>) -> (r: Vec<char>)
    ensures
        r@ == trim(v@),
{
    let (a, b) = trim_bounds(v);
    slice_vec(v, a, b)
}

/// `v[from..to]` as a new vector.
pub fn slice_vec(v: &Vec<char>, from: usize, to: usize) -> (r: Vec<char>)
    requires
        from <= to <= v@.len(),
    ensures
        r@ == v@.subrange(from as int, to as int),
{
    let mut r: Vec<char> = Vec::new();
    let mut i = from;
    while i < to
        invariant
            from <= i <= to <= v@.len(),
            r@ == v@.subrange(from as int, i as int),
        decreases to - i,
    {
        r.push(v[i]);
        i += 1;
    }
    r
}

/// `p` is a prefix of `s`.
pub open spec fn has_prefix(s: Seq<char>, p: Seq<char>) -> bool {
    p.len() <= s.len() && s.take(p.len() as int) == p
}

/// `p` is a suffix of `s`.
pub open spec fn has_suffix(s: Seq<char>, p: Seq<char>) -> bool {
    p.len() <= s.len() && s.skip(s.len() - p.len()) == p
}

/// `p` occurs in `s` at position `i`.
pub open spec fn occurs_at(s: Seq<char>, p: Seq<char>, i: int) -> bool {
    0 <= i && i + p.len() <= s.len() && s.subrange(i, i + p.len()) == p
}

/// Whether `s[at..]` starts with `p`.
pub fn matches_at(s: &Vec<char>, at: usize, p: &Vec<char>) -> (r: bool)
    ensures
        r == occurs_at(s@, p@, at as int),
{
    if at > s.len() || p.len() > s.len() - at {
        return false;
    }
    let end = at + p.len();
    let mut idx: usize = at;
    while idx < end
        invariant
            end == at + p@.len() <= s@.len(),
            at <= idx <= end,
            forall|j: int| 0 <= j < idx - at ==> s@[at + j] == p@[j],
        decreases end - idx,
    {
        if s[idx] != p[idx - at] {
            assert(s@.subrange(at as int, at + p@.len())[idx - at] != p@[idx - at]);
            return false;
        }
        idx += 1;
    }
    assert(s@.subrange(at as int, at + p@.len()) =~= p@);
    true
}

/// Whether `s` starts with `p`.
pub fn starts_with(s: &Vec<char>, p: &Vec<char>) -> (r: bool)
    ensures
        r == has_prefix(s@, p@),
{
    let r = matches_at(s, 0, p);
    proof {
        if p@.len() <= s@.len() {
            assert(s@.subrange(0, p@.len() as int) == s@.take(p@.len() as int));
        }
    }
    r
}

/// Whether `s` ends with `p`.
pub fn ends_with(s: &Vec<char>, p: &Vec<char>) -> (r: bool)
    ensures
        r == has_suffix(s@, p@),
{
    if p.len() > s.len() {
        return false;
    }
    let r = matches_at(s, s.len() - p.len(), p);
    proof {
        assert(s@.subrange(s@.len() - p@.len(), s@.len() as int) == s@.skip(
            s@.len() - p@.len(),
        ));
    }
    r
}

/// First position at or after `i` where `p` occurs in `s`.
pub open spec fn find_from(s: Seq<char>, p: Seq<char>, i: int) -> Option<int>
    decreases s.len() + 1 - i,
{
    if i < 0 || i > s.len() {
        None
    } else if occurs_at(s, p, i) {
        Some(i)
    } else {
        find_from(s, p, i + 1)
    }
}

/// First position of `p` in `s` (`str::find`).
pub open spec fn find(s: Seq<char>, p: Seq<char>) -> Option<int> {
    find_from(s, p, 0)
}

/// What `find_from` finds is an occurrence at or after where it starts.
pub proof fn lemma_find_from_some(s: Seq<char>, p: Seq<char>, i: int)
    requires
        0 <= i,
        find_from(s, p, i) is Some,
    ensures
        i <= find_from(s, p, i).unwrap() && occurs_at(s, p, find_from(s, p, i).unwrap()),
    decreases s.len() + 1 - i,
{
    if i <= s.len() && !occurs_at(s, p, i) {
        lemma_find_from_some(s, p, i + 1);
    }
}

proof fn lemma_find_from_none(s: Seq<char>, p: Seq<char>, i: int)
    requires
        0 <= i,
        find_from(s, p, i) is None,
    ensures
        forall|j: int| i <= j ==> !occurs_at(s, p, j),
    decreases s.len() + 1 - i,
{
    if i <= s.len() {
        lemma_find_from_none(s, p, i + 1);
    }
}

/// The first occurrence of `p` in `s`, if any.
pub fn find_chars(s: &Vec<char>, p: &Vec<char>) -> (r: Option<usize>)
    ensures
        r matches Some(i) ==> find(s@, p@) == Some(i as int),
        r matches Some(i) ==> occurs_at(s@, p@, i as int),
        r is None ==> find(s@, p@) is None,
        r is None ==> forall|j: int| !occurs_at(s@, p@, j),
{
    let mut i: usize = 0;
    while i < s.len()
        invariant
            i <= s@.len(),
            find(s@, p@) == find_from(s@, p@, i as int),
        decreases s@.len() - i,
    {
        if matches_at(s, i, p) {
            return Some(i);
        }
        i += 1;
    }
    if matches_at(s, i, p) {
        return Some(i);
    }
    proof {
        assert(find_from(s@, p@, i as int) == find_from(s@, p@, i + 1int));
        assert(find_from(s@, p@, s@.len() + 1int) is None);
        lemma_find_from_none(s@, p@, 0);
    }
    None
}

/// Whether `p` occurs somewhere in `s` (`str::contains`).
pub fn contains_chars(s: &Vec<char>, p: &Vec<char>) -> (r: bool)
    ensures
        r == (find(s@, p@) is Some),
{
    find_chars(s, p).is_some()
}

/// What std's `str::to_lowercase` returns for a string with these characters
/// (Unicode lowercase mapping, context-sensitive for final sigma).
pub uninterp spec fn spec_lowercase(s: Seq<char>) -> Seq<char>;

/// std's `str::to_lowercase`; the result is named by `spec_lowercase`.
#[verifier::external_body]
pub(crate) fn lowercase(s: &str) -> (r: String)
    ensures
        r@ == spec_lowercase(s@),
{
    s.to_lowercase()
}

/// The characters of the lowercase form of `s`.
pub fn lowercase_chars(s: &str) -> (r: Vec<char>)
    ensures
        r@ == spec_lowercase(s@),
{
    let l = lowercase(s);
    chars_of(l.as_str())
}

/// Index of the first `'\n'` at or after `i` (or `s.len()`).
pub open spec fn nl_pos(s: Seq<char>, i: int) -> int
    decreases s.len() - i,
{
    if i < 0 || i >= s.len() {
        s.len() as int
    } else if s[i] == '\n' {
        i
    } else {
        nl_pos(s, i + 1)
    }
}

pub proof fn lemma_nl_pos(s: Seq<char>, i: int)
    requires
        0 <= i <= s.len(),
    ensures
        i <= nl_pos(s, i) <= s.len(),
        nl_pos(s, i) < s.len() ==> s[nl_pos(s, i)] == '\n',
        forall|k: int| i <= k < nl_pos(s, i) ==> s[k] != '\n',
    decreases s.len() - i,
{
    if i < s.len() && s[i] != '\n' {
        lemma_nl_pos(s, i + 1);
    }
}

/// A line without its `'\r'` terminator, if any.
pub open spec fn strip_cr(x: Seq<char>) -> Seq<char> {
    if x.len() > 0 && x.last() == '\r' {
        x.drop_last()
    } else {
        x
    }
}

/// The lines of `s[i..]` as `str::lines` yields them: split at `'\n'`, a
/// `'\r'` right before the `'\n'` dropped, no final empty line.
pub open spec fn lines_from(s: Seq<char>, i: int) -> Seq<Seq<char>>
    decreases s.len() - i,
{
    if i < 0 || i >= s.len() {
        Seq::empty()
    } else {
        let j = nl_pos(s, i);
        proof {
            lemma_nl_pos(s, i);
        }
        if j < s.len() {
            seq![strip_cr(s.subrange(i, j))] + lines_from(s, j + 1)
        } else {
            seq![s.subrange(i, j)]
        }
    }
}

/// The pieces of `s[i..]` between line breaks (one more than the breaks).
pub open spec fn nl_pieces_from(s: Seq<char>, i: int) -> Seq<Seq<char>>
    decreases s.len() - i,
{
    if i < 0 || i > s.len() {
        Seq::empty()
    } else {
        let j = nl_pos(s, i);
        proof {
            if i < s.len() {
                lemma_nl_pos(s, i);
            }
        }
        if i < s.len() && j < s.len() {
            seq![s.subrange(i, j)] + nl_pieces_from(s, j + 1)
        } else {
            seq![s.subrange(i, s.len() as int)]
        }
    }
}

/// The pieces of `s` between line breaks.
pub open spec fn nl_pieces(s: Seq<char>) -> Seq<Seq<char>> {
    nl_pieces_from(s, 0)
}

/// The pieces hold no line break, there is at least one, and joined with
/// line breaks they give the text back.
pub proof fn lemma_nl_pieces_from(s: Seq<char>, i: int)
    requires
        0 <= i <= s.len(),
    ensures
        nl_pieces_from(s, i).len() > 0,
        forall|k: int| 0 <= k < nl_pieces_from(s, i).len() ==> !(#[trigger] nl_pieces_from(s, i)[k]).contains('\n'),
        join(nl_pieces_from(s, i), seq!['\n']) == s.subrange(i, s.len() as int),
    decreases s.len() - i,
{
    let ps = nl_pieces_from(s, i);
    if i < s.len() {
        lemma_nl_pos(s, i);
    }
    let j = nl_pos(s, i);
    if i < s.len() && j < s.len() {
        lemma_nl_pieces_from(s, j + 1);
        let p = s.subrange(i, j);
        let rest = nl_pieces_from(s, j + 1);
        assert forall|q: int| 0 <= q < p.len() implies p[q] != '\n' by {
            assert(p[q] == s[i + q]);
        }
        assert(!p.contains('\n'));
        assert forall|k: int| 0 <= k < ps.len() implies !(#[trigger] ps[k]).contains('\n') by {
            if k > 0 {
                assert(ps[k] == rest[k - 1]);
            }
        }
        lemma_join_front(p, rest, seq!['\n']);
        assert(s.subrange(i, s.len() as int) =~= p + seq!['\n'] + s.subrange(j + 1, s.len() as int));
    } else {
        let p = s.subrange(i, s.len() as int);
        if i < s.len() {
            assert(j == s.len());
        }
        assert forall|q: int| 0 <= q < p.len() implies p[q] != '\n' by {
            assert(p[q] == s[i + q]);
        }
        assert(!p.contains('\n'));
        assert(ps =~= seq![p]);
    }
}

/// The lines of `s` (`str::lines`).
pub open spec fn lines(s: Seq<char>) -> Seq<Seq<char>> {
    lines_from(s, 0)
}

/// The lines of `v`, as `str::lines` splits them.
pub fn split_lines(v: &Vec<char>) -> (r: Vec<Vec<char>>)
    ensures
        r@.len() == lines(v@).len(),
        forall|k: int| 0 <= k < r@.len() ==> (#[trigger] r@[k])@ == lines(v@)[k],
{
    let mut r: Vec<Vec<char>> = Vec::new();
    let mut i: usize = 0;
    while i < v.len()
        invariant
            i <= v@.len(),
            r@.len() + lines_from(v@, i as int).len() == lines(v@).len(),
            forall|k: int| 0 <= k < r@.len() ==> (#[trigger] r@[k])@ == lines(v@)[k],
            forall|k: int|
                0 <= k < lines_from(v@, i as int).len() ==> lines(v@)[r@.len() + k]
                    == #[trigger] lines_from(v@, i as int)[k],
        decreases v@.len() - i,
    {
        let mut j = i;
        while j < v.len() && v[j] != '\n'
            invariant
                i <= j <= v@.len(),
                nl_pos(v@, i as int) == nl_pos(v@, j as int),
            decreases v@.len() - j,
        {
            j += 1;
        }
        proof {
            lemma_nl_pos(v@, i as int);
        }
        let ghost old_r = r@;
        let ghost rest = lines_from(v@, i as int);
        if j < v.len() {
            let mut e = j;
            if e > i && v[e - 1] == '\r' {
                e = e - 1;
            }
            let line = slice_vec(v, i, e);
            r.push(line);
            proof {
                assert(rest == seq![strip_cr(v@.subrange(i as int, j as int))] + lines_from(
                    v@,
                    j + 1,
                ));
                assert(line@ == strip_cr(v@.subrange(i as int, j as int)));
                assert forall|k: int| 0 <= k < r@.len() implies (#[trigger] r@[k])@ == lines(
                    v@,
                )[k] by {
                    if k == old_r.len() {
                        assert(rest[0] == lines(v@)[old_r.len() as int]);
                    }
                }
                assert forall|k: int|
                    0 <= k < lines_from(v@, j + 1).len() implies lines(v@)[r@.len() + k]
                    == #[trigger] lines_from(v@, j + 1)[k] by {
                    assert(rest[k + 1] == lines_from(v@, j + 1)[k]);
                    assert(lines(v@)[old_r.len() + (k + 1)] == rest[k + 1]);
                }
            }
            i = j + 1;
        } else {
            let line = slice_vec(v, i, j);
            r.push(line);
            proof {
                assert(rest == seq![v@.subrange(i as int, j as int)]);
                assert(lines(v@)[old_r.len() as int] == rest[0]);
                assert(lines_from(v@, v@.len() as int).len() == 0);
            }
            i = j;
        }
    }
    r
}

/// The decimal digit character for `d < 10`.
pub open spec fn digit_char(d: nat) -> char {
    ((48 + d) as u8) as char
}

/// The decimal representation of `n`, as `format!("{}", n)` prints it.
pub open spec fn decimal(n: nat) -> Seq<char>
    decreases n,
{
    if n < 10 {
        seq![digit_char(n)]
    } else {
        decimal(n / 10).push(digit_char(n % 10))
    }
}

/// Appends the decimal form of `n` to `s`.
pub fn push_decimal(s: &mut String, n: u64)
    ensures
        final(s)@ == old(s)@ + decimal(n as nat),
    decreases n,
{
    if n >= 10 {
        push_decimal(s, n / 10);
    }
    let d = (48 + (n % 10) as u8) as char;
    push_char(s, d);
    proof {
        if n >= 10 {
            assert(decimal(n as nat) == decimal((n / 10) as nat).push(digit_char((n % 10) as nat)));
        }
    }
}

/// Whether `a` and `b` hold the same characters.
pub fn eq_chars(a: &Vec<char>, b: &Vec<char>) -> (r: bool)
    ensures
        r == (a@ == b@),
{
    if a.len() != b.len() {
        return false;
    }
    let mut i: usize = 0;
    while i < a.len()
        invariant
            a@.len() == b@.len(),
            i <= a@.len(),
            forall|k: int| 0 <= k < i ==> a@[k] == b@[k],
        decreases a@.len() - i,
    {
        if a[i] != b[i] {
            return false;
        }
        i += 1;
    }
    assert(a@ =~= b@);
    true
}

/// `parts` joined with `sep` between consecutive parts.
pub open spec fn join(parts: Seq<Seq<char>>, sep: Seq<char>) -> Seq<char>
    decreases parts.len(),
{
    if parts.len() == 0 {
        Seq::empty()
    } else if parts.len() == 1 {
        parts[0]
    } else {
        join(parts.drop_last(), sep) + sep + parts.last()
    }
}

/// Joining one more part extends the joined text by the separator and the part.
pub proof fn lemma_join_push(p: Seq<Seq<char>>, x: Seq<char>, sep: Seq<char>)
    ensures
        join(p.push(x), sep) == (if p.len() == 0 {
            x
        } else {
            join(p, sep) + sep + x
        }),
{
    assert(p.push(x).drop_last() =~= p);
}

/// Whether `a` and `b` are the same string.
pub fn str_eq(a: &str, b: &str) -> (r: bool)
    ensures
        r == (a@ == b@),
{
    let x = chars_of(a);
    let y = chars_of(b);
    eq_chars(&x, &y)
}

/// Whether every character of `s` is an ASCII digit.
pub open spec fn all_ascii_digits(s: Seq<char>) -> bool {
    forall|k: int| 0 <= k < s.len() ==> '0' <= #[trigger] s[k] <= '9'
}

/// Whether `v[a..b]` holds only ASCII digits.
pub fn digits_in(v: &Vec<char>, a: usize, b: usize) -> (r: bool)
    requires
        a <= b <= v@.len(),
    ensures
        r == all_ascii_digits(v@.subrange(a as int, b as int)),
{
    let mut k = a;
    while k < b
        invariant
            a <= k <= b <= v@.len(),
            forall|j: int| a <= j < k ==> '0' <= #[trigger] v@[j] <= '9',
        decreases b - k,
    {
        if !('0' <= v[k] && v[k] <= '9') {
            assert(!('0' <= v@.subrange(a as int, b as int)[k - a] <= '9'));
            return false;
        }
        k += 1;
    }
    assert forall|j: int| 0 <= j < b - a implies '0' <= #[trigger] v@.subrange(
        a as int,
        b as int,
    )[j] <= '9' by {
        assert(v@.subrange(a as int, b as int)[j] == v@[a + j]);
    }
    true
}

/// `s` split at every `sep` (`str::split` with a character pattern).
pub open spec fn split_on(s: Seq<char>, sep: char) -> Seq<Seq<char>>
    decreases s.len(),
{
    match find(s, seq![sep]) {
        Some(i) => if 0 <= i < s.len() {
            seq![s.take(i)] + split_on(s.skip(i + 1), sep)
        } else {
            seq![s]
        },
        None => seq![s],
    }
}

/// `v` split at every `sep`.
pub fn split_chars(v: &Vec<char>, sep: char) -> (r: Vec<Vec<char>>)
    ensures
        r@.len() == split_on(v@, sep).len(),
        forall|k: int| 0 <= k < r@.len() ==> (#[trigger] r@[k])@ == split_on(v@, sep)[k],
{
    let pat = vec![sep];
    assert(pat@ == seq![sep]);
    let mut r: Vec<Vec<char>> = Vec::new();
    let mut rest = slice_vec(v, 0, v.len());
    assert(rest@ == v@);
    loop
        invariant
            pat@ == seq![sep],
            r@.len() + split_on(rest@, sep).len() == split_on(v@, sep).len(),
            forall|k: int| 0 <= k < r@.len() ==> (#[trigger] r@[k])@ == split_on(v@, sep)[k],
            forall|k: int|
                0 <= k < split_on(rest@, sep).len() ==> split_on(v@, sep)[r@.len() + k]
                    == #[trigger] split_on(rest@, sep)[k],
        decreases rest@.len(),
    {
        let ghost old_r = r@;
        let ghost parts = split_on(rest@, sep);
        match find_chars(&rest, &pat) {
            Some(i) => {
                let n = rest.len();
                assert(i < n);
                let head = slice_vec(&rest, 0, i);
                let tail = slice_vec(&rest, i + 1, n);
                proof {
                    assert(head@ == rest@.take(i as int));
                    assert(tail@ == rest@.skip(i + 1));
                    assert(parts == seq![rest@.take(i as int)] + split_on(rest@.skip(i + 1), sep));
                }
                r.push(head);
                proof {
                    assert forall|k: int| 0 <= k < r@.len() implies (#[trigger] r@[k])@ == split_on(
                        v@,
                        sep,
                    )[k] by {
                        if k == old_r.len() {
                            assert(parts[0] == split_on(v@, sep)[old_r.len() as int]);
                        }
                    }
                    assert forall|k: int| 0 <= k < split_on(tail@, sep).len() implies split_on(
                        v@,
                        sep,
                    )[r@.len() + k] == #[trigger] split_on(tail@, sep)[k] by {
                        assert(parts[k + 1] == split_on(tail@, sep)[k]);
                        assert(split_on(v@, sep)[old_r.len() + (k + 1)] == parts[k + 1]);
                    }
                }
                rest = tail;
            },
            None => {
                proof {
                    assert(parts == seq![rest@]);
                    assert(parts[0] == split_on(v@, sep)[old_r.len() as int]);
                }
                r.push(rest);
                return r;
            },
        }
    }
}

/// `s` split at every occurrence of the non-empty pattern `p`
/// (`str::split` with a string pattern).
pub open spec fn split_pat(s: Seq<char>, p: Seq<char>) -> Seq<Seq<char>>
    decreases s.len(),
{
    if p.len() == 0 {
        seq![s]
    } else {
        match find(s, p) {
            Some(i) => if 0 <= i && i + p.len() <= s.len() {
                seq![s.take(i)] + split_pat(s.skip(i + p.len()), p)
            } else {
                seq![s]
            },
            None => seq![s],
        }
    }
}

/// `v` split at every occurrence of the non-empty pattern `p`.
pub fn split_at_pattern(v: &Vec<char>, p: &Vec<char>) -> (r: Vec<Vec<char>>)
    requires
        p@.len() > 0,
    ensures
        r@.len() == split_pat(v@, p@).len(),
        forall|k: int| 0 <= k < r@.len() ==> (#[trigger] r@[k])@ == split_pat(v@, p@)[k],
{
    let mut r: Vec<Vec<char>> = Vec::new();
    let mut rest = slice_vec(v, 0, v.len());
    assert(rest@ == v@);
    loop
        invariant
            p@.len() > 0,
            r@.len() + split_pat(rest@, p@).len() == split_pat(v@, p@).len(),
            forall|k: int| 0 <= k < r@.len() ==> (#[trigger] r@[k])@ == split_pat(v@, p@)[k],
            forall|k: int|
                0 <= k < split_pat(rest@, p@).len() ==> split_pat(v@, p@)[r@.len() + k]
                    == #[trigger] split_pat(rest@, p@)[k],
        decreases rest@.len(),
    {
        let ghost old_r = r@;
        let ghost parts = split_pat(rest@, p@);
        match find_chars(&rest, p) {
            Some(i) => {
                let n = rest.len();
                let pl = p.len();
                assert(i + pl <= n);
                let head = slice_vec(&rest, 0, i);
                let tail = slice_vec(&rest, i + pl, n);
                proof {
                    assert(head@ == rest@.take(i as int));
                    assert(tail@ == rest@.skip(i + pl));
                    assert(parts == seq![rest@.take(i as int)] + split_pat(rest@.skip(i + pl), p@));
                }
                r.push(head);
                proof {
                    assert forall|k: int| 0 <= k < r@.len() implies (#[trigger] r@[k])@ == split_pat(
                        v@,
                        p@,
                    )[k] by {
                        if k == old_r.len() {
                            assert(parts[0] == split_pat(v@, p@)[old_r.len() as int]);
                        }
                    }
                    assert forall|k: int| 0 <= k < split_pat(tail@, p@).len() implies split_pat(
                        v@,
                        p@,
                    )[r@.len() + k] == #[trigger] split_pat(tail@, p@)[k] by {
                        assert(parts[k + 1] == split_pat(tail@, p@)[k]);
                        assert(split_pat(v@, p@)[old_r.len() + (k + 1)] == parts[k + 1]);
                    }
                }
                rest = tail;
            },
            None => {
                proof {
                    assert(parts == seq![rest@]);
                    assert(parts[0] == split_pat(v@, p@)[old_r.len() as int]);
                }
                r.push(rest);
                return r;
            },
        }
    }
}

/// A copy of a list of strings.
pub fn clone_strings(v: &Vec<String>) -> (r: Vec<String>)
    ensures
        r@ == v@,
{
    let mut r: Vec<String> = Vec::new();
    let mut i: usize = 0;
    while i < v.len()
        invariant
            i <= v@.len(),
            r@ == v@.take(i as int),
        decreases v@.len() - i,
    {
        r.push(v[i].clone());
        i += 1;
        assert(r@ =~= v@.take(i as int));
    }
    assert(v@.take(v@.len() as int) == v@);
    r
}

/// A text with a character that is not whitespace trims to something.
pub proof fn lemma_trim_nonempty(s: Seq<char>, k: int)
    requires
        0 <= k < s.len(),
        !is_ws(s[k]),
    ensures
        trim(s).len() > 0,
{
    lemma_lead_ws_props(s);
    lemma_trail_ws_props(s);
    assert(lead_ws(s) <= k);
    assert(s.len() - trail_ws(s) > k);
}

/// Joining a first part onto the rest.
pub proof fn lemma_join_front(p: Seq<char>, rest: Seq<Seq<char>>, sep: Seq<char>)
    ensures
        join(seq![p] + rest, sep) == (if rest.len() == 0 {
            p
        } else {
            p + sep + join(rest, sep)
        }),
    decreases rest.len(),
{
    let q = seq![p] + rest;
    if rest.len() == 0 {
        assert(q =~= seq![p]);
    } else {
        assert(q.drop_last() =~= seq![p] + rest.drop_last());
        assert(q.last() == rest.last());
        lemma_join_front(p, rest.drop_last(), sep);
        if rest.len() == 1 {
            assert(rest.drop_last().len() == 0);
            assert(join(rest, sep) == rest[0]);
        } else {
            assert(join(rest, sep) == join(rest.drop_last(), sep) + sep + rest.last());
            assert(p + sep + join(rest.drop_last(), sep) + sep + rest.last() =~= p + sep + (join(
                rest.drop_last(),
                sep,
            ) + sep + rest.last()));
        }
    }
}

/// The next line break of `b` seen from inside `a + b`.
pub proof fn lemma_nl_pos_shift(a: Seq<char>, b: Seq<char>, i: int)
    requires
        0 <= i <= b.len(),
    ensures
        nl_pos(a + b, a.len() + i) == a.len() + nl_pos(b, i),
    decreases b.len() - i,
{
    if i < b.len() {
        assert((a + b)[a.len() + i] == b[i]);
        if b[i] != '\n' {
            lemma_nl_pos_shift(a, b, i + 1);
        }
    }
}

/// The lines of `b` seen from inside `a + b`.
pub proof fn lemma_lines_from_shift(a: Seq<char>, b: Seq<char>, i: int)
    requires
        0 <= i <= b.len(),
    ensures
        lines_from(a + b, a.len() + i) == lines_from(b, i),
    decreases b.len() - i,
{
    let s = a + b;
    let j = a.len() + i;
    if i < b.len() {
        lemma_nl_pos_shift(a, b, i);
        lemma_nl_pos(b, i);
        let m = nl_pos(b, i);
        assert(nl_pos(s, j) == a.len() + m);
        assert(s.subrange(j, a.len() + m) =~= b.subrange(i, m));
        if m < b.len() {
            lemma_lines_from_shift(a, b, m + 1);
        }
    }
}

/// `s` ends with a carriage return.
pub open spec fn ends_with_cr(s: Seq<char>) -> bool {
    s.len() > 0 && s.last() == '\r'
}

/// The lines of parts joined with line breaks are the parts, when none
/// holds a line break, none but the last ends with a carriage return, and
/// the last is not empty.
pub proof fn lemma_lines_join(ps: Seq<Seq<char>>)
    requires
        forall|k: int| 0 <= k < ps.len() ==> !(#[trigger] ps[k]).contains('\n'),
        forall|k: int| 0 <= k < ps.len() - 1 ==> !ends_with_cr(#[trigger] ps[k]),
        ps.len() > 0 ==> ps.last().len() > 0,
    ensures
        lines(join(ps, seq!['\n'])) == ps,
    decreases ps.len(),
{
    if ps.len() == 0 {
        assert(lines(join(ps, seq!['\n'])) =~= ps);
    } else {
        let p = ps[0];
        let rest = ps.drop_first();
        assert(ps =~= seq![p] + rest);
        lemma_join_front(p, rest, seq!['\n']);
        assert(!p.contains('\n'));
        assert forall|k: int| 0 <= k < p.len() implies p[k] != '\n' by {
            if p[k] == '\n' {
                assert(p.contains('\n'));
            }
        }
        if rest.len() == 0 {
            lemma_nl_pos(p, 0);
            if nl_pos(p, 0) < p.len() {
                assert(p[nl_pos(p, 0)] == '\n');
            }
            assert(p == ps.last());
            assert(p.subrange(0, p.len() as int) =~= p);
            assert(lines(p) =~= seq![p]);
            assert(ps =~= seq![p]);
        } else {
            let r = join(rest, seq!['\n']);
            let s = p + seq!['\n'] + r;
            assert(join(ps, seq!['\n']) == s);
            lemma_nl_pos(s, 0);
            assert(s[p.len() as int] == '\n');
            assert forall|k: int| 0 <= k < p.len() implies s[k] != '\n' by {
                assert(s[k] == p[k]);
            }
            let m = nl_pos(s, 0);
            assert(m == p.len()) by {
                if m < p.len() {
                    assert(s[m] == '\n');
                    assert(s[m] == p[m]);
                } else if m > p.len() {
                    assert(s[p.len() as int] != '\n');
                }
            }
            assert(s.subrange(0, m) =~= p);
            assert(!ends_with_cr(ps[0]));
            assert(strip_cr(p) =~= p);
            assert forall|k: int| 0 <= k < rest.len() implies !(#[trigger] rest[k]).contains('\n') by {
                assert(rest[k] == ps[k + 1]);
            }
            assert forall|k: int| 0 <= k < rest.len() - 1 implies !ends_with_cr(#[trigger] rest[k]) by {
                assert(rest[k] == ps[k + 1]);
            }
            assert(rest.last() == ps.last());
            lemma_lines_join(rest);
            assert(s =~= (p + seq!['\n']) + r);
            lemma_lines_from_shift(p + seq!['\n'], r, 0);
            assert(lines_from(s, m + 1) == lines_from(r, 0));
            assert(lines(s) =~= seq![p] + rest);
        }
    }
}

/// Joining two non-empty lists of parts: the joined lists with a separator between.
pub proof fn lemma_join_append(a: Seq<Seq<char>>, b: Seq<Seq<char>>, sep: Seq<char>)
    requires
        a.len() > 0,
        b.len() > 0,
    ensures
        join(a + b, sep) == join(a, sep) + sep + join(b, sep),
    decreases b.len(),
{
    let ab = a + b;
    assert(ab.drop_last() =~= a + b.drop_last());
    assert(ab.last() == b.last());
    if b.len() == 1 {
        assert(b.drop_last().len() == 0);
        assert(a + b.drop_last() =~= a);
        assert(join(b, sep) == b[0]);
    } else {
        lemma_join_append(a, b.drop_last(), sep);
        assert(join(b, sep) == join(b.drop_last(), sep) + sep + b.last());
        assert(join(a, sep) + sep + join(b.drop_last(), sep) + sep + b.last() =~= join(a, sep) + sep + (join(
            b.drop_last(),
            sep,
        ) + sep + b.last()));
    }
}

} // verus!
