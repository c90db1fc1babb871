//! Ordering text: lexicographic comparison by code point (the order of
//! `str`'s `cmp`) and a stable sort of positions by text keys.
use vstd::prelude::*;

verus! {

/// `a` sorts strictly before `b`: at the first differing character `a`'s
/// code point is lower, or `a` is a proper prefix of `b`.
pub open spec fn seq_lt(a: Seq<char>, b: Seq<char>) -> bool
    decreases a.len(),
{
    if a.len() == 0 {
        b.len() > 0
    } else if b.len() == 0 {
        false
    } else if a[0] != b[0] {
        a[0] < b[0]
    } else {
        seq_lt(a.drop_first(), b.drop_first())
    }
}

/// Nothing sorts before itself.
pub proof fn lemma_lt_irreflexive(a: Seq<char>)
    ensures
        !seq_lt(a, a),
    decreases a.len(),
{
    if a.len() > 0 {
        lemma_lt_irreflexive(a.drop_first());
    }
}

/// Two texts neither of which sorts before the other are equal.
pub proof fn lemma_lt_total(a: Seq<char>, b: Seq<char>)
    ensures
        seq_lt(a, b) || seq_lt(b, a) || a == b,
    decreases a.len(),
{
    if a.len() > 0 && b.len() > 0 {
        if a[0] == b[0] {
            lemma_lt_total(a.drop_first(), b.drop_first());
            if a.drop_first() == b.drop_first() {
                assert(a =~= seq![a[0]] + a.drop_first());
                assert(b =~= seq![b[0]] + b.drop_first());
            }
        } else {

        }
    } else if a.len() == 0 && b.len() == 0 {
        assert(a =~= b);
    }
}

/// Sorting before is transitive.
pub proof fn lemma_lt_transitive(a: Seq<char>, b: Seq<char>, c: Seq<char>)
    requires
        seq_lt(a, b),
        seq_lt(b, c),
    ensures
        seq_lt(a, c),
    decreases a.len(),
{
    if a.len() > 0 && b.len() > 0 && c.len() > 0 {
        if a[0] == b[0] && b[0] == c[0] {
            lemma_lt_transitive(a.drop_first(), b.drop_first(), c.drop_first());
        }
    }
}

/// Whether `a` sorts strictly before `b`.
pub fn chars_lt(a: &Vec<char>, b: &Vec<char>) -> (r: bool)
    ensures
        r == seq_lt(a@, b@),
{
    let mut i: usize = 0;
    assert(a@.skip(0) =~= a@ && b@.skip(0) =~= b@);
    while i < a.len() && i < b.len() && a[i] == b[i]
        invariant
            i <= a@.len(),
            i <= b@.len(),
            forall|k: int| 0 <= k < i ==> a@[k] == b@[k],
            seq_lt(a@, b@) == seq_lt(a@.skip(i as int), b@.skip(i as int)),
        decreases a@.len() - i,
    {
        proof {
            let sa = a@.skip(i as int);
            let sb = b@.skip(i as int);
            assert(sa.drop_first() =~= a@.skip(i + 1));
            assert(sb.drop_first() =~= b@.skip(i + 1));
        }
        i += 1;
    }
    proof {
        let sa = a@.skip(i as int);
        let sb = b@.skip(i as int);
        if i < a.len() && i < b.len() {
            assert(sa[0] == a@[i as int]);
            assert(sb[0] == b@[i as int]);
        }
    }
    if i == a.len() {
        i < b.len()
    } else if i == b.len() {
        false
    } else {
        a[i] < b[i]
    }
}

/// `perm` lists each position below `n` exactly once.
pub open spec fn is_permutation(perm: Seq<usize>, n: int) -> bool {
    &&& perm.len() == n
    &&& forall|i: int| 0 <= i < perm.len() ==> perm[i] < n
    &&& forall|i: int, j: int| 0 <= i < j < perm.len() ==> perm[i] != perm[j]
}

/// Positions taken in the order of `perm` have non-decreasing keys, and
/// equal keys keep their original order.
pub open spec fn stably_sorted(keys: Seq<Seq<char>>, perm: Seq<usize>) -> bool {
    forall|i: int, j: int|
        0 <= i < j < perm.len() ==> !seq_lt(keys[perm[j] as int], keys[perm[i] as int]) && (
        keys[perm[i] as int] == keys[perm[j] as int] ==> perm[i] < perm[j])
}

/// The positions of `keys` in stably sorted order of their keys.
pub fn stable_order(keys: &Vec<Vec<char>>) -> (perm: Vec<usize>)
    ensures
        is_permutation(perm@, keys@.len() as int),
        stably_sorted(keys@.map_values(|k: Vec<char>| k@), perm@),
{
    let ghost ks = keys@.map_values(|k: Vec<char>| k@);
    let n = keys.len();
    let mut perm: Vec<usize> = Vec::new();
    let mut i: usize = 0;
    while i < n
        invariant
            n == keys@.len(),
            ks == keys@.map_values(|k: Vec<char>| k@),
            i <= n,
            is_permutation(perm@, i as int),
            stably_sorted(ks, perm@),
        decreases n - i,
    {
        let mut p = perm.len();
        while p > 0 && chars_lt(&keys[i], &keys[perm[p - 1]])
            invariant
                n == keys@.len(),
                ks == keys@.map_values(|k: Vec<char>| k@),
                i < n,
                p <= perm@.len(),
                is_permutation(perm@, i as int),
                forall|q: int| p <= q < perm@.len() ==> seq_lt(ks[i as int], ks[perm@[q] as int]),
            decreases p,
        {
            p -= 1;
        }
        let ghost old_perm = perm@;
        proof {
            // every entry before `p` has a key no greater than key `i`
            if p > 0 {
                assert(!seq_lt(ks[i as int], ks[old_perm[p - 1] as int]));
            }
            assert forall|q: int| 0 <= q < p implies !seq_lt(ks[i as int], #[trigger] ks[old_perm[q] as int]) by {
                if q < p - 1 {
                    let a = ks[old_perm[q] as int];
                    let b = ks[old_perm[p - 1] as int];
                    let c = ks[i as int];
                    lemma_lt_total(b, c);
                    if seq_lt(c, a) {
                        if seq_lt(b, c) {
                            lemma_lt_transitive(b, c, a);
                        }
                    }
                }
            }
        }
        perm.insert(p, i);
        proof {
            let np = perm@;
            assert forall|a: int, b: int| 0 <= a < b < np.len() implies np[a] != np[b] by {
                if a < p && b > p {
                    assert(np[a] == old_perm[a]);
                    assert(np[b] == old_perm[b - 1]);
                } else if a < p && b == p {
                    assert(np[a] == old_perm[a]);
                } else if a == p {
                    assert(np[b] == old_perm[b - 1]);
                } else if a > p {
                    assert(np[a] == old_perm[a - 1]);
                    assert(np[b] == old_perm[b - 1]);
                }
            }
            assert forall|a: int, b: int| 0 <= a < b < np.len() implies !seq_lt(
                ks[np[b] as int],
                ks[np[a] as int],
            ) && (ks[np[a] as int] == ks[np[b] as int] ==> np[a] < np[b]) by {
                let c = ks[i as int];
                let sorted_before = stably_sorted(ks, old_perm);
                if a < p && b < p {
                    assert(np[a] == old_perm[a] && np[b] == old_perm[b]);
                    assert(sorted_before);
                    assert(!seq_lt(ks[old_perm[b] as int], ks[old_perm[a] as int]));
                    assert(ks[old_perm[a] as int] == ks[old_perm[b] as int] ==> old_perm[a] < old_perm[b]);
                } else if a < p && b == p {
                    assert(np[a] == old_perm[a]);
                    assert(np[b] == i);
                    assert(!seq_lt(c, ks[old_perm[a] as int]));
                    assert(old_perm[a] < i);
                } else if a < p && b > p {
                    assert(np[a] == old_perm[a] && np[b] == old_perm[b - 1]);
                    assert(sorted_before);
                    assert(0 <= a < b - 1 < old_perm.len());
                    assert(!seq_lt(ks[old_perm[b - 1] as int], ks[old_perm[a] as int]));
                    assert(ks[old_perm[a] as int] == ks[old_perm[b - 1] as int] ==> old_perm[a] < old_perm[b - 1]);
                } else if a == p {
                    assert(np[a] == i);
                    assert(np[b] == old_perm[b - 1]);
                    lemma_lt_irreflexive(c);
                    let d = ks[old_perm[b - 1] as int];
                    assert(p <= b - 1 < old_perm.len());
                    assert(seq_lt(c, d));
                    if seq_lt(d, c) {
                        lemma_lt_transitive(c, d, c);
                    }
                } else {
                    assert(np[a] == old_perm[a - 1] && np[b] == old_perm[b - 1]);
                    assert(sorted_before);
                    assert(0 <= a - 1 < b - 1 < old_perm.len());
                    assert(!seq_lt(ks[old_perm[b - 1] as int], ks[old_perm[a - 1] as int]));
                    assert(ks[old_perm[a - 1] as int] == ks[old_perm[b - 1] as int] ==> old_perm[a - 1] < old_perm[b - 1]);
                }
            }
        }
        i += 1;
    }
    perm
}

/// The items of `items` in the order `perm` lists their positions.
pub fn take_in_order<T>(items: Vec<T>, perm: &Vec<usize>) -> (r: Vec<T>)
    requires
        is_permutation(perm@, items@.len() as int),
    ensures
        r@.len() == perm@.len(),
        forall|k: int| 0 <= k < r@.len() ==> r@[k] == items@[perm@[k] as int],
{
    let ghost orig = items@;
    let n = items.len();
    let mut items = items;
    let mut rev: Vec<T> = Vec::new();
    while items.len() > 0
        invariant
            items@.len() + rev@.len() == n,
            n == orig.len(),
            items@ == orig.take(items@.len() as int),
            forall|k: int| 0 <= k < rev@.len() ==> rev@[k] == orig[n - 1 - k],
        decreases items@.len(),
    {
        let x = items.pop().unwrap();
        rev.push(x);
        proof {
            assert(items@ =~= orig.take(items@.len() as int));
        }
    }
    let mut slots: Vec<Option<T>> = Vec::new();
    while rev.len() > 0
        invariant
            rev@.len() + slots@.len() == n,
            n == orig.len(),
            forall|k: int| 0 <= k < rev@.len() ==> rev@[k] == orig[n - 1 - k],
            forall|k: int| 0 <= k < slots@.len() ==> slots@[k] == Some(orig[k]),
        decreases rev@.len(),
    {
        let x = rev.pop().unwrap();
        slots.push(Some(x));
    }
    let mut r: Vec<T> = Vec::new();
    let mut k: usize = 0;
    while k < n
        invariant
            k <= n,
            n == orig.len(),
            is_permutation(perm@, n as int),
            slots@.len() == n,
            r@.len() == k,
            forall|q: int| 0 <= q < k ==> r@[q] == orig[perm@[q] as int],
            forall|j: int|
                0 <= j < n ==> (slots@[j] is Some <==> forall|q: int| 0 <= q < k ==> perm@[q] != j),
            forall|j: int| 0 <= j < n && slots@[j] is Some ==> slots@[j] == Some(orig[j]),
        decreases n - k,
    {
        let j = perm[k];
        assert(slots@[j as int] is Some) by {
            assert forall|q: int| 0 <= q < k implies perm@[q] != j by {
                assert(perm@[q] != perm@[k as int]);
            }
        }
        let x = slots[j].take();
        r.push(x.unwrap());
        k += 1;
    }
    r
}

} // verus!
