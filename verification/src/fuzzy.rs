//! Case-insensitive subsequence matching with an fzf-style score.
use vstd::prelude::*;
use crate::text::{lowercase_chars, spec_lowercase};

verus! {

/// The first position at or after `from` where `c` holds `ch`.
pub open spec fn next_pos(c: Seq<char>, ch: char, from: int) -> Option<int>
    decreases c.len() - from,
{
    if from < 0 || from >= c.len() {
        None
    } else if c[from] == ch {
        Some(from)
    } else {
        next_pos(c, ch, from + 1)
    }
}

/// Where the leftmost embedding of `q` as a subsequence of `c` places each
/// character of `q`; `None` when `q` is not a subsequence of `c`.
pub open spec fn embedding(q: Seq<char>, c: Seq<char>) -> Option<Seq<int>>
    decreases q.len(),
{
    if q.len() == 0 {
        Some(Seq::empty())
    } else {
        match embedding(q.drop_last(), c) {
            None => None,
            Some(ps) => {
                let from = if ps.len() == 0 { 0 } else { ps.last() + 1 };
                match next_pos(c, q.last(), from) {
                    None => None,
                    Some(p) => Some(ps.push(p)),
                }
            },
        }
    }
}

/// Points for matched positions `ps`: 10 per match, 15 more when a match
/// directly follows the previous one, 20 more for a match at position 0.
pub open spec fn points(ps: Seq<int>) -> int
    decreases ps.len(),
{
    if ps.len() == 0 {
        0
    } else {
        points(ps.drop_last()) + 10 + (if ps.len() >= 2 && ps.last() == ps[ps.len() - 2] + 1 {
            15int
        } else {
            0int
        }) + (if ps.last() == 0 {
            20int
        } else {
            0int
        })
    }
}

/// The score of `query` against `candidate`, both lowercased; capped at `i64::MAX`.
pub open spec fn score_spec(query: Seq<char>, candidate: Seq<char>) -> Option<int> {
    if query.len() == 0 {
        Some(0)
    } else {
        match embedding(spec_lowercase(query), spec_lowercase(candidate)) {
            Some(ps) => Some(if points(ps) > i64::MAX {
                i64::MAX as int
            } else {
                points(ps)
            }),
            None => None,
        }
    }
}

proof fn lemma_next_pos_skip(c: Seq<char>, ch: char, from: int, upto: int)
    requires
        0 <= from <= upto <= c.len(),
        forall|k: int| from <= k < upto ==> c[k] != ch,
    ensures
        next_pos(c, ch, from) == next_pos(c, ch, upto),
    decreases upto - from,
{
    if from < upto {
        lemma_next_pos_skip(c, ch, from + 1, upto);
    }
}

proof fn lemma_embedding_none_grows(q: Seq<char>, c: Seq<char>, k: int, m: int)
    requires
        0 <= k <= m <= q.len(),
        embedding(q.take(k), c) is None,
    ensures
        embedding(q.take(m), c) is None,
    decreases m - k,
{
    if k < m {
        assert(q.take(k + 1).drop_last() == q.take(k));
        lemma_embedding_none_grows(q, c, k + 1, m);
    }
}

proof fn lemma_points_nonneg(ps: Seq<int>)
    ensures
        points(ps) >= 0,
    decreases ps.len(),
{
    if ps.len() > 0 {
        lemma_points_nonneg(ps.drop_last());
    }
}

/// Case-insensitive subsequence match with a lightweight fzf-style score:
/// +10 per matched character, +15 when it is contiguous with the previous
/// match, +20 when the match starts at position 0. `None` when `query` is
/// not a subsequence of `candidate`.
pub fn subsequence_score(query: &str, candidate: &str) -> (r: Option<i64>)
    ensures
        r is Some <==> score_spec(query@, candidate@) is Some,
        r matches Some(s) ==> score_spec(query@, candidate@) == Some(s as int),
{
    if query.is_empty() {
        return Some(0);
    }
    let q = lowercase_chars(query);
    let c = lowercase_chars(candidate);
    let mut qi: usize = 0;
    let mut score: i64 = 0;
    let mut last_match: Option<usize> = None;
    let mut ci: usize = 0;
    let ghost mut ps: Seq<int> = Seq::empty();
    proof {
        lemma_points_nonneg(ps);
    }
    while ci < c.len() && qi < q.len()
        invariant
            ci <= c@.len(),
            qi <= q@.len(),
            ps.len() == qi,
            embedding(q@.take(qi as int), c@) == Some(ps),
            forall|k: int| 0 <= k < ps.len() ==> 0 <= #[trigger] ps[k] < ci,
            qi < q@.len() ==> next_pos(c@, q@[qi as int], if qi == 0 { 0 } else { ps.last() + 1 })
                == next_pos(c@, q@[qi as int], ci as int),
            qi == 0 ==> last_match is None,
            qi > 0 ==> last_match == Some(ps.last() as usize),
            score as int == (if points(ps) > i64::MAX { i64::MAX as int } else { points(ps) }),
            points(ps) >= 0,
        decreases c@.len() - ci,
    {
        if c[ci] == q[qi] {
            let mut inc: i64 = 10;
            if ci > 0 && last_match == Some(ci - 1) {
                inc = inc + 15;
            }
            if ci == 0 {
                inc = inc + 20;
            }
            score = if score > i64::MAX - inc { i64::MAX } else { score + inc };
            proof {
                let from = if qi == 0 { 0 } else { ps.last() + 1 };
                assert(next_pos(c@, q@[qi as int], ci as int) == Some(ci as int));
                let q1 = q@.take(qi + 1);
                assert(q1.drop_last() == q@.take(qi as int));
                assert(q1.last() == q@[qi as int]);
                let old_ps = ps;
                ps = ps.push(ci as int);
                assert(ps.drop_last() == old_ps);
                assert(embedding(q1, c@) == Some(ps));
                if ci == 0 {
                    assert(qi == 0);
                }
            }
            last_match = Some(ci);
            qi += 1;
        } else {
            proof {
                if ci + 1 <= c@.len() {
                    lemma_next_pos_skip(c@, q@[qi as int], ci as int, ci + 1);
                }
            }
        }
        ci += 1;
    }
    if qi == q.len() {
        assert(q@.take(qi as int) == q@);
        Some(score)
    } else {
        proof {
            let from = if qi == 0 { 0 } else { ps.last() + 1 };
            assert(next_pos(c@, q@[qi as int], ci as int) is None);
            let q1 = q@.take(qi + 1);
            assert(q1.drop_last() == q@.take(qi as int));
            assert(q1.last() == q@[qi as int]);
            assert(embedding(q1, c@) is None);
            lemma_embedding_none_grows(q@, c@, qi + 1, q@.len() as int);
            assert(q@.take(q@.len() as int) == q@);
        }
        None
    }
}

/// First position in `keys` whose score is below `s` (or `keys.len()`):
/// where a new entry of score `s` goes so it lands after every entry
/// scoring at least `s`.
pub open spec fn insert_pos(keys: Seq<(int, int)>, s: int) -> int
    decreases keys.len(),
{
    if keys.len() == 0 {
        0
    } else if keys[0].0 < s {
        0
    } else {
        1 + insert_pos(keys.drop_first(), s)
    }
}

/// `(score, index)` pairs stable-sorted by descending score.
pub open spec fn stable_rank(xs: Seq<(int, int)>) -> Seq<(int, int)>
    decreases xs.len(),
{
    if xs.len() == 0 {
        Seq::empty()
    } else {
        let r = stable_rank(xs.drop_last());
        r.insert(insert_pos(r, xs.last().0), xs.last())
    }
}

/// `(score, index)` of every label in `labels` that `query` matches, in order.
pub open spec fn scored(query: Seq<char>, labels: Seq<Seq<char>>) -> Seq<(int, int)>
    decreases labels.len(),
{
    if labels.len() == 0 {
        Seq::empty()
    } else {
        let r = scored(query, labels.drop_last());
        match score_spec(query, labels.last()) {
            Some(s) => r.push((s, labels.len() - 1)),
            None => r,
        }
    }
}

/// The labels of `items`.
pub open spec fn labels_of<T>(items: Seq<(T, String)>) -> Seq<Seq<char>> {
    items.map_values(|it: (T, String)| it.1@)
}

/// The order `subsequence_rank` gives: `(score, index)` of the matching items,
/// highest score first, ties in input order.
pub open spec fn rank_order<T>(query: Seq<char>, items: Seq<(T, String)>) -> Seq<(int, int)> {
    stable_rank(scored(query, labels_of(items)))
}

proof fn lemma_insert_pos(keys: Seq<(int, int)>, s: int, p: int)
    requires
        0 <= p <= keys.len(),
        forall|k: int| 0 <= k < p ==> (#[trigger] keys[k]).0 >= s,
        p == keys.len() || keys[p].0 < s,
    ensures
        insert_pos(keys, s) == p,
    decreases keys.len(),
{
    if keys.len() > 0 && p > 0 {
        assert(keys[0].0 >= s);
        lemma_insert_pos(keys.drop_first(), s, p - 1);
    }
}

proof fn lemma_insert_pos_bounds(keys: Seq<(int, int)>, s: int)
    ensures
        0 <= insert_pos(keys, s) <= keys.len(),
        forall|k: int| 0 <= k < insert_pos(keys, s) ==> (#[trigger] keys[k]).0 >= s,
        insert_pos(keys, s) < keys.len() ==> keys[insert_pos(keys, s)].0 < s,
    decreases keys.len(),
{
    if keys.len() > 0 && keys[0].0 >= s {
        let t = keys.drop_first();
        lemma_insert_pos_bounds(t, s);
        assert forall|k: int| 0 <= k < insert_pos(keys, s) implies (#[trigger] keys[k]).0 >= s by {
            if k > 0 {
                assert(keys[k] == t[k - 1]);
            }
        }
    }
}

proof fn lemma_scored_prefix(query: Seq<char>, labels: Seq<Seq<char>>, k: int)
    requires
        0 <= k < labels.len(),
    ensures
        scored(query, labels.take(k + 1)) == match score_spec(query, labels[k]) {
            Some(s) => scored(query, labels.take(k)).push((s, k)),
            None => scored(query, labels.take(k)),
        },
{
    assert(labels.take(k + 1).drop_last() == labels.take(k));
}

/// Filters `items` to those whose label `query` matches as a subsequence,
/// stable-sorted by descending `subsequence_score` (ties keep `items`' order).
pub fn subsequence_rank<T>(query: &str, items: Vec<(T, String)>) -> (r: Vec<T>)
    ensures
        r@.len() == rank_order(query@, items@).len(),
        forall|k: int|
            0 <= k < r@.len() ==> r@[k] == items@[#[trigger] rank_order(query@, items@)[k].1].0,
{
    let ghost orig = items@;
    let ghost labels = labels_of(orig);
    let mut items = items;
    let total = items.len();
    assert(total == orig.len());
    let mut out: Vec<(i64, T)> = Vec::new();
    let ghost mut keys: Seq<(int, int)> = Seq::empty();
    let mut n: usize = 0;
    while items.len() > 0
        invariant
            n + items@.len() == orig.len(),
            orig.len() <= usize::MAX,
            items@ == orig.skip(n as int),
            labels == labels_of(orig),
            keys == stable_rank(scored(query@, labels.take(n as int))),
            out@.len() == keys.len(),
            forall|k: int| 0 <= k < keys.len() ==> 0 <= (#[trigger] keys[k]).1 < n,
            forall|k: int|
                0 <= k < out@.len() ==> (#[trigger] out@[k]).0 as int == keys[k].0 && out@[k].1
                    == orig[keys[k].1].0,
        decreases items@.len(),
    {
        let ghost before = items@;
        let (item, label) = items.remove(0);
        proof {
            assert(before[0] == orig[n as int]);
            assert(items@ == orig.skip(n + 1));
            assert(labels[n as int] == label@);
            lemma_scored_prefix(query@, labels, n as int);
            assert(labels.take(n as int).len() == n);
        }
        match subsequence_score(query, label.as_str()) {
            Some(s) => {
                let mut p: usize = 0;
                while p < out.len() && out[p].0 >= s
                    invariant
                        p <= out@.len(),
                        out@.len() == keys.len(),
                        forall|k: int|
                            0 <= k < out@.len() ==> (#[trigger] out@[k]).0 as int == keys[k].0,
                        forall|k: int| 0 <= k < p ==> (#[trigger] keys[k]).0 >= s,
                    decreases out@.len() - p,
                {
                    p += 1;
                }
                proof {
                    lemma_insert_pos(keys, s as int, p as int);
                    let xs = scored(query@, labels.take(n + 1));
                    assert(xs == scored(query@, labels.take(n as int)).push((s as int, n as int)));
                    assert(xs.drop_last() == scored(query@, labels.take(n as int)));
                }
                let ghost old_out = out@;
                let ghost old_keys = keys;
                out.insert(p, (s, item));
                proof {
                    keys = keys.insert(p as int, (s as int, n as int));
                    assert forall|k: int|
                        0 <= k < out@.len() implies (#[trigger] out@[k]).0 as int == keys[k].0
                        && out@[k].1 == orig[keys[k].1].0 by {
                        if k < p {
                            assert(out@[k] == old_out[k]);
                            assert(keys[k] == old_keys[k]);
                        } else if k > p {
                            assert(out@[k] == old_out[k - 1]);
                            assert(keys[k] == old_keys[k - 1]);
                        }
                    }
                    assert forall|k: int| 0 <= k < keys.len() implies 0 <= (#[trigger] keys[k]).1
                        < n + 1 by {
                        if k < p {
                            assert(keys[k] == old_keys[k]);
                        } else if k > p {
                            assert(keys[k] == old_keys[k - 1]);
                        }
                    }
                }
            },
            None => {},
        }
        n += 1;
    }
    proof {
        assert(labels.take(n as int) == labels);
    }
    let mut r: Vec<T> = Vec::new();
    let ghost full = out@;
    let out_len = out.len();
    assert(out_len == full.len());
    let mut m: usize = 0;
    while out.len() > 0
        invariant
            m + out@.len() == full.len(),
            full.len() <= usize::MAX,
            out@ == full.skip(m as int),
            n == orig.len(),
            forall|k: int| 0 <= k < keys.len() ==> 0 <= (#[trigger] keys[k]).1 < n,
            r@.len() == m,
            full.len() == keys.len(),
            forall|k: int| 0 <= k < full.len() ==> (#[trigger] full[k]).1 == orig[keys[k].1].0,
            forall|k: int| 0 <= k < m ==> r@[k] == (#[trigger] full[k]).1,
        decreases out@.len(),
    {
        let ghost before = out@;
        let (_, item) = out.remove(0);
        proof {
            assert(before[0] == full[m as int]);
            assert(out@ == full.skip(m + 1));
        }
        r.push(item);
        m += 1;
    }
    proof {
        assert(keys == rank_order(query@, orig));
        assert forall|k: int| 0 <= k < r@.len() implies r@[k] == orig[#[trigger] rank_order(
            query@,
            orig,
        )[k].1].0 by {
            assert(r@[k] == full[k].1);
        }
    }
    r
}

/// The indices in `xs` increase strictly.
pub open spec fn indices_increasing(xs: Seq<(int, int)>) -> bool {
    forall|a: int, b: int| 0 <= a < b < xs.len() ==> (#[trigger] xs[a]).1 < (#[trigger] xs[b]).1
}

/// `rs` is ordered by descending score, equal scores by ascending index.
pub open spec fn ranked_order(rs: Seq<(int, int)>) -> bool {
    forall|a: int, b: int|
        0 <= a < b < rs.len() ==> (#[trigger] rs[a]).0 > (#[trigger] rs[b]).0 || (rs[a].0
            == rs[b].0 && rs[a].1 < rs[b].1)
}

proof fn lemma_stable_rank(xs: Seq<(int, int)>)
    requires
        indices_increasing(xs),
    ensures
        stable_rank(xs).len() == xs.len(),
        stable_rank(xs).to_multiset() == xs.to_multiset(),
        ranked_order(stable_rank(xs)),
    decreases xs.len(),
{
    broadcast use vstd::seq_lib::to_multiset_build, vstd::seq_lib::to_multiset_insert,
        vstd::seq_lib::to_multiset_contains;

    if xs.len() > 0 {
        let ys = xs.drop_last();
        let x = xs.last();
        assert(indices_increasing(ys));
        lemma_stable_rank(ys);
        let r = stable_rank(ys);
        let p = insert_pos(r, x.0);
        lemma_insert_pos_bounds(r, x.0);
        assert(xs == ys.push(x));
        // every entry of r comes from ys, whose indices are below x's
        assert forall|k: int| 0 <= k < r.len() implies (#[trigger] r[k]).1 < x.1 by {
            assert(r.to_multiset().count(r[k]) > 0);
            assert(ys.contains(r[k]));
            let w = choose|w: int| 0 <= w < ys.len() && ys[w] == r[k];
            assert(xs[w] == ys[w]);
            assert(xs[xs.len() - 1] == x);
        }
        // entries at or after p score below x
        assert forall|k: int| p <= k < r.len() implies (#[trigger] r[k]).0 < x.0 by {
            if k > p {
                assert(r[p].0 >= r[k].0);
            }
        }
        let rs = r.insert(p, x);
        assert forall|a: int, b: int| 0 <= a < b < rs.len() implies (#[trigger] rs[a]).0 > (
        #[trigger] rs[b]).0 || (rs[a].0 == rs[b].0 && rs[a].1 < rs[b].1) by {
            if a < p {
                assert(rs[a] == r[a]);
                if b < p {
                    assert(rs[b] == r[b]);
                } else if b == p {
                    assert(rs[b] == x);
                } else {
                    assert(rs[b] == r[b - 1]);
                }
            } else if a == p {
                assert(rs[a] == x);
                assert(rs[b] == r[b - 1]);
            } else {
                assert(rs[a] == r[a - 1]);
                assert(rs[b] == r[b - 1]);
            }
        }
    }
}

proof fn lemma_scored_indices(query: Seq<char>, labels: Seq<Seq<char>>)
    ensures
        indices_increasing(scored(query, labels)),
        forall|k: int|
            0 <= k < scored(query, labels).len() ==> 0 <= (#[trigger] scored(query, labels)[k]).1
                < labels.len(),
        forall|k: int|
            0 <= k < scored(query, labels).len() ==> score_spec(
                query,
                labels[(#[trigger] scored(query, labels)[k]).1],
            ) == Some(scored(query, labels)[k].0),
        forall|i: int|
            0 <= i < labels.len() && (#[trigger] score_spec(query, labels[i])) is Some ==> exists|
                k: int,
            | 0 <= k < scored(query, labels).len() && #[trigger] scored(query, labels)[k].1 == i,
    decreases labels.len(),
{
    if labels.len() > 0 {
        let init = labels.drop_last();
        lemma_scored_indices(query, init);
        let r = scored(query, init);
        assert forall|i: int| 0 <= i < init.len() implies init[i] == labels[i] by {}
        let n = labels.len() - 1;
        assert forall|i: int|
            0 <= i < labels.len() && (#[trigger] score_spec(query, labels[i])) is Some implies exists|
                k: int,
            | 0 <= k < scored(query, labels).len() && #[trigger] scored(query, labels)[k].1 == i by {
            if i < n {
                assert(init[i] == labels[i]);
                let k = choose|k: int| 0 <= k < r.len() && #[trigger] r[k].1 == i;
                assert(scored(query, labels)[k] == r[k]);
            } else {
                assert(scored(query, labels)[r.len() as int].1 == i);
            }
        }
    }
}

/// The ranking holds exactly the items whose label `query` matches, each
/// with its `subsequence_score`, once each.
pub proof fn law_rank_keeps_exactly_the_matches<T>(query: Seq<char>, items: Seq<(T, String)>)
    ensures
        rank_order(query, items).to_multiset() == scored(query, labels_of(items)).to_multiset(),
        forall|k: int|
            0 <= k < rank_order(query, items).len() ==> 0 <= (#[trigger] rank_order(
                query,
                items,
            )[k]).1 < items.len() && score_spec(query, items[rank_order(query, items)[k].1].1@)
                == Some(rank_order(query, items)[k].0),
        forall|i: int|
            0 <= i < items.len() && (#[trigger] score_spec(query, items[i].1@)) is Some ==> exists|
                k: int,
            | 0 <= k < rank_order(query, items).len() && #[trigger] rank_order(query, items)[k].1
                == i,
{
    broadcast use vstd::seq_lib::to_multiset_contains;

    let labels = labels_of(items);
    lemma_scored_indices(query, labels);
    lemma_stable_rank(scored(query, labels));
    let xs = scored(query, labels);
    let rs = rank_order(query, items);
    assert forall|k: int| 0 <= k < rs.len() implies 0 <= (#[trigger] rs[k]).1 < items.len()
        && score_spec(query, items[rs[k].1].1@) == Some(rs[k].0) by {
        assert(rs.to_multiset().count(rs[k]) > 0);
        assert(xs.contains(rs[k]));
        let w = choose|w: int| 0 <= w < xs.len() && xs[w] == rs[k];
        assert(labels[xs[w].1] == items[xs[w].1].1@);
    }
    assert forall|i: int|
        0 <= i < items.len() && (#[trigger] score_spec(query, items[i].1@)) is Some implies exists|
            k: int,
        | 0 <= k < rs.len() && #[trigger] rs[k].1 == i by {
        assert(labels[i] == items[i].1@);
        assert(score_spec(query, labels[i]) is Some);
        let w = choose|w: int| 0 <= w < xs.len() && #[trigger] xs[w].1 == i;
        assert(xs.to_multiset().count(xs[w]) > 0);
        assert(rs.contains(xs[w]));
        let k = choose|k: int| 0 <= k < rs.len() && rs[k] == xs[w];
        assert(rs[k].1 == i);
    }
}

/// The ranking is ordered by descending score; items with equal scores keep
/// their input order.
pub proof fn law_rank_is_stable_descending<T>(
    query: Seq<char>,
    items: Seq<(T, String)>,
    a: int,
    b: int,
)
    requires
        0 <= a < b < rank_order(query, items).len(),
    ensures
        rank_order(query, items)[a].0 >= rank_order(query, items)[b].0,
        rank_order(query, items)[a].0 == rank_order(query, items)[b].0 ==> rank_order(
            query,
            items,
        )[a].1 < rank_order(query, items)[b].1,
{
    lemma_scored_indices(query, labels_of(items));
    lemma_stable_rank(scored(query, labels_of(items)));
}

/// The empty query matches every candidate with score 0.
pub proof fn law_empty_query_scores_zero(candidate: Seq<char>)
    ensures
        score_spec(Seq::empty(), candidate) == Some(0int),
{
}

proof fn lemma_scored_empty_query(labels: Seq<Seq<char>>)
    ensures
        scored(Seq::empty(), labels) == Seq::new(labels.len(), |k: int| (0int, k)),
    decreases labels.len(),
{
    if labels.len() > 0 {
        lemma_scored_empty_query(labels.drop_last());
        assert(scored(Seq::empty(), labels) =~= Seq::new(labels.len(), |k: int| (0int, k)));
    }
}

proof fn lemma_stable_rank_equal_scores(xs: Seq<(int, int)>)
    requires
        forall|k: int| 0 <= k < xs.len() ==> (#[trigger] xs[k]).0 == 0,
    ensures
        stable_rank(xs) == xs,
    decreases xs.len(),
{
    if xs.len() > 0 {
        let ys = xs.drop_last();
        assert forall|k: int| 0 <= k < ys.len() implies (#[trigger] ys[k]).0 == 0 by {
            assert(ys[k] == xs[k]);
        }
        lemma_stable_rank_equal_scores(ys);
        assert(xs.last().0 == 0);
        lemma_insert_pos(ys, 0, ys.len() as int);
        assert(ys.insert(ys.len() as int, xs.last()) =~= xs);
    }
}

/// An empty query ranks every item, in input order: the `k`-th of the
/// ranking is item `k`, with score 0.
pub proof fn law_empty_query_keeps_input_order<T>(items: Seq<(T, String)>)
    ensures
        rank_order(Seq::empty(), items).len() == items.len(),
        forall|k: int| 0 <= k < items.len() ==> #[trigger] rank_order(Seq::empty(), items)[k] == (0int, k),
{
    let labels = labels_of(items);
    lemma_scored_empty_query(labels);
    let xs = scored(Seq::empty(), labels);
    assert forall|k: int| 0 <= k < xs.len() implies (#[trigger] xs[k]).0 == 0 by {}
    lemma_stable_rank_equal_scores(xs);
}

} // verus!
