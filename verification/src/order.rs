//! The ordering of text keys (code point by code point, which is byte
//! order on UTF-8), and a stable sort of row positions by a text key.

use vstd::prelude::*;

verus! {

/// `a` sorts strictly before `b`.
pub open spec fn lex_lt(a: Seq<char>, b: Seq<char>) -> bool
    decreases a.len(),
{
    if a.len() == 0 {
        b.len() > 0
    } else if b.len() == 0 {
        false
    } else if a[0] != b[0] {
        (a[0] as int) < (b[0] as int)
    } else {
        lex_lt(a.drop_first(), b.drop_first())
    }
}

pub open spec fn lex_le(a: Seq<char>, b: Seq<char>) -> bool {
    lex_lt(a, b) || a == b
}

pub proof fn lemma_lex_irreflexive(a: Seq<char>)
    ensures
        !lex_lt(a, a),
    decreases a.len(),
{
    if a.len() > 0 {
        lemma_lex_irreflexive(a.drop_first());
    }
}

pub proof fn lemma_lex_trichotomy(a: Seq<char>, b: Seq<char>)
    ensures
        lex_lt(a, b) || a == b || lex_lt(b, a),
        !(lex_lt(a, b) && lex_lt(b, a)),
    decreases a.len(),
{
    if a.len() == 0 || b.len() == 0 {
        if a.len() == 0 && b.len() == 0 {
            assert(a =~= b);
        }
    } else if a[0] != b[0] {
        assert((a[0] as int) != (b[0] as int));
    } else {
        lemma_lex_trichotomy(a.drop_first(), b.drop_first());
        if a.drop_first() == b.drop_first() {
            assert(a =~= seq![a[0]] + a.drop_first());
            assert(b =~= seq![b[0]] + b.drop_first());
        }
    }
}

pub proof fn lemma_lex_transitive(a: Seq<char>, b: Seq<char>, c: Seq<char>)
    requires
        lex_lt(a, b),
        lex_lt(b, c),
    ensures
        lex_lt(a, c),
    decreases a.len(),
{
    if a.len() > 0 && b.len() > 0 && c.len() > 0 {
        if a[0] == b[0] && b[0] == c[0] {
            lemma_lex_transitive(a.drop_first(), b.drop_first(), c.drop_first());
        }
    }
}

pub proof fn lemma_lex_lt_le(a: Seq<char>, b: Seq<char>, c: Seq<char>)
    requires
        lex_lt(a, b),
        lex_le(b, c),
    ensures
        lex_lt(a, c),
{
    if lex_lt(b, c) {
        lemma_lex_transitive(a, b, c);
    }
}

/// Strictly increasing under `lex_lt`.
#[verifier::opaque]
pub open spec fn lex_increasing(s: Seq<Seq<char>>) -> bool {
    forall|a: int, b: int| 0 <= a < b < s.len() ==> lex_lt(#[trigger] s[a], #[trigger] s[b])
}

/// Two strictly increasing listings of the same texts are the same listing.
pub proof fn lemma_increasing_unique(a: Seq<Seq<char>>, b: Seq<Seq<char>>)
    requires
        lex_increasing(a),
        lex_increasing(b),
        forall|x: Seq<char>| a.contains(x) <==> b.contains(x),
    ensures
        a == b,
    decreases a.len() + b.len(),
{
    reveal(lex_increasing);
    if a.len() == 0 {
        if b.len() > 0 {
            assert(b.contains(b[0]));
        }
        assert(a =~= b);
    } else if b.len() == 0 {
        assert(a.contains(a[0]));
    } else {
        assert(a.contains(a[0]));
        assert(b.contains(b[0]));
        let k = choose|k: int| 0 <= k < b.len() && b[k] == a[0];
        let m = choose|m: int| 0 <= m < a.len() && a[m] == b[0];
        if k > 0 && m > 0 {
            assert(lex_lt(b[0], b[k]));
            assert(lex_lt(a[0], a[m]));
            lemma_lex_transitive(a[0], b[0], a[0]);
            lemma_lex_irreflexive(a[0]);
        }
        assert(a[0] == b[0]);
        let (a2, b2) = (a.drop_first(), b.drop_first());
        assert forall|x: Seq<char>| a2.contains(x) <==> b2.contains(x) by {
            if a2.contains(x) {
                let i = choose|i: int| 0 <= i < a2.len() && a2[i] == x;
                assert(a.contains(a[i + 1]));
                assert(lex_lt(a[0], a[i + 1]));
                lemma_lex_irreflexive(x);
                let j = choose|j: int| 0 <= j < b.len() && b[j] == x;
                assert(j != 0);
                assert(b2[j - 1] == x);
            }
            if b2.contains(x) {
                let i = choose|i: int| 0 <= i < b2.len() && b2[i] == x;
                assert(b.contains(b[i + 1]));
                assert(lex_lt(b[0], b[i + 1]));
                lemma_lex_irreflexive(x);
                let j = choose|j: int| 0 <= j < a.len() && a[j] == x;
                assert(j != 0);
                assert(a2[j - 1] == x);
            }
        }
        assert forall|i: int, j: int| 0 <= i < j < a2.len() implies lex_lt(#[trigger] a2[i], #[trigger] a2[j]) by {
            assert(a2[i] == a[i + 1] && a2[j] == a[j + 1]);
        }
        assert forall|i: int, j: int| 0 <= i < j < b2.len() implies lex_lt(#[trigger] b2[i], #[trigger] b2[j]) by {
            assert(b2[i] == b[i + 1] && b2[j] == b[j + 1]);
        }
        lemma_increasing_unique(a2, b2);
        assert(a =~= b) by {
            assert forall|i: int| 0 <= i < a.len() implies a[i] == b[i] by {
                if i > 0 {
                    assert(a[i] == a2[i - 1] && b[i] == b2[i - 1]);
                }
            }
        }
    }
}

/// Whether `a` sorts strictly before `b` (`lex_lt`).
pub fn lex_less(a: &Vec<char>, b: &Vec<char>) -> (r: bool)
    ensures
        r == lex_lt(a@, b@),
{
    let mut i: usize = 0;
    assert(a@.skip(0) =~= a@);
    assert(b@.skip(0) =~= b@);
    while i < a.len() && i < b.len()
        invariant
            i <= a.len(),
            i <= b.len(),
            lex_lt(a@, b@) == lex_lt(a@.skip(i as int), b@.skip(i as int)),
        decreases a.len() - i,
    {
        if a[i] != b[i] {
            return a[i] < b[i];
        }
        assert(a@.skip(i as int).drop_first() =~= a@.skip(i + 1));
        assert(b@.skip(i as int).drop_first() =~= b@.skip(i + 1));
        i = i + 1;
    }
    i < b.len()
}

/// Row `i` sorts strictly before row `j` when rows are ordered by their key
/// and, among equal keys, by position.
pub open spec fn key_pos_lt(keys: Seq<Seq<char>>, i: int, j: int) -> bool {
    lex_lt(keys[i], keys[j]) || (keys[i] == keys[j] && i < j)
}

/// `idx` lists every position of `keys` once, ordered by key and then by
/// position: a stable sort of the rows by key.
pub open spec fn sorts_by_key(idx: Seq<usize>, keys: Seq<Seq<char>>) -> bool {
    &&& idx.len() == keys.len()
    &&& forall|a: int| 0 <= a < idx.len() ==> #[trigger] idx[a] < keys.len()
    &&& forall|a: int, b: int|
        0 <= a < b < idx.len() ==> key_pos_lt(keys, #[trigger] idx[a] as int, #[trigger] idx[b] as int)
}

/// Positions `0..keys.len()` sorted by key, ties in position order.
pub fn sort_positions(keys: &Vec<Vec<char>>) -> (idx: Vec<usize>)
    ensures
        sorts_by_key(idx@, keys@.map_values(|k: Vec<char>| k@)),
        forall|j: usize| j < keys.len() ==> #[trigger] idx@.contains(j),
{
    let ghost ks = keys@.map_values(|k: Vec<char>| k@);
    let mut idx: Vec<usize> = Vec::new();
    let mut n: usize = 0;
    while n < keys.len()
        invariant
            n <= keys.len(),
            ks == keys@.map_values(|k: Vec<char>| k@),
            idx.len() == n,
            forall|a: int| 0 <= a < idx.len() ==> #[trigger] idx[a] < n,
            forall|j: usize| j < n ==> #[trigger] idx@.contains(j),
            forall|a: int, b: int|
                0 <= a < b < idx.len() ==> key_pos_lt(ks, #[trigger] idx[a] as int, #[trigger] idx[b] as int),
        decreases keys.len() - n,
    {
        // first position whose key is strictly greater than key n
        let mut pos: usize = 0;
        while pos < idx.len() && !lex_less(&keys[n], &keys[idx[pos]])
            invariant
                pos <= idx.len(),
                n < keys.len(),
                ks == keys@.map_values(|k: Vec<char>| k@),
                forall|a: int| 0 <= a < idx.len() ==> #[trigger] idx[a] < n,
                forall|a: int| 0 <= a < pos ==> lex_le(#[trigger] ks[idx[a] as int], ks[n as int]),
            decreases idx.len() - pos,
        {
            proof {
                lemma_lex_trichotomy(ks[n as int], ks[idx[pos as int] as int]);
            }
            pos = pos + 1;
        }
        let ghost old_idx = idx@;
        proof {
            assert forall|b: int| pos <= b < old_idx.len() implies lex_lt(
                ks[n as int],
                ks[#[trigger] old_idx[b] as int],
            ) by {
                if b > pos {
                    assert(key_pos_lt(ks, old_idx[pos as int] as int, old_idx[b] as int));
                    lemma_lex_lt_le(ks[n as int], ks[old_idx[pos as int] as int], ks[old_idx[b] as int]);
                }
            }
        }
        idx.insert(pos, n);
        proof {
            assert(idx@[pos as int] == n);
            assert forall|j: usize| j < n + 1 implies #[trigger] idx@.contains(j) by {
                if j < n {
                    assert(old_idx.contains(j));
                    let a = choose|a: int| 0 <= a < old_idx.len() && old_idx[a] == j;
                    if a < pos {
                        assert(idx@[a] == j);
                    } else {
                        assert(idx@[a + 1] == j);
                    }
                }
            }
            assert forall|a: int, b: int|
                0 <= a < b < idx.len() implies key_pos_lt(ks, #[trigger] idx[a] as int, #[trigger] idx[b] as int) by {
                if b < pos {
                    assert(idx[a] == old_idx[a] && idx[b] == old_idx[b]);
                } else if b == pos {
                    assert(idx[a] == old_idx[a]);
                    assert(lex_le(ks[old_idx[a] as int], ks[n as int]));
                } else if a < pos {
                    assert(idx[a] == old_idx[a] && idx[b] == old_idx[b - 1]);
                    assert(key_pos_lt(ks, old_idx[a] as int, old_idx[b - 1] as int));
                } else if a == pos {
                    assert(idx[b] == old_idx[b - 1]);
                } else {
                    assert(idx[a] == old_idx[a - 1] && idx[b] == old_idx[b - 1]);
                }
            }
        }
        n = n + 1;
    }
    idx
}

/// `pos` lists, once each, the positions `j < n` for which `pred(j)` holds,
/// ordered by `key(j)` and, among equal keys, by position: the rows that
/// satisfy `pred`, stably sorted by key.
pub open spec fn enumerates_sorted(
    pos: Seq<int>,
    n: int,
    pred: spec_fn(int) -> bool,
    key: spec_fn(int) -> Seq<char>,
) -> bool {
    &&& forall|k: int| 0 <= k < pos.len() ==> 0 <= #[trigger] pos[k] < n && pred(pos[k])
    &&& forall|j: int| 0 <= j < n && #[trigger] pred(j) ==> pos.contains(j)
    &&& forall|a: int, b: int|
        0 <= a < b < pos.len() ==> lex_lt(key(#[trigger] pos[a]), key(#[trigger] pos[b])) || (key(pos[a])
            == key(pos[b]) && pos[a] < pos[b])
}

/// `cand` lists, in increasing order, exactly the positions below `n` for
/// which `pred` holds.
pub open spec fn candidates(cand: Seq<usize>, n: int, pred: spec_fn(int) -> bool) -> bool {
    &&& forall|a: int, b: int| 0 <= a < b < cand.len() ==> #[trigger] cand[a] < #[trigger] cand[b]
    &&& forall|k: int| 0 <= k < cand.len() ==> #[trigger] cand[k] < n && pred(cand[k] as int)
    &&& forall|j: int| 0 <= j < n && #[trigger] pred(j) ==> cand.contains(j as usize)
}

/// Sorting the candidate positions by their keys gives the ordered listing.
pub proof fn lemma_enumerates(
    cand: Seq<usize>,
    keys: Seq<Seq<char>>,
    idx: Seq<usize>,
    out: Seq<int>,
    n: int,
    pred: spec_fn(int) -> bool,
    key: spec_fn(int) -> Seq<char>,
)
    requires
        candidates(cand, n, pred),
        keys.len() == cand.len(),
        forall|t: int| 0 <= t < cand.len() ==> #[trigger] keys[t] == key(cand[t] as int),
        sorts_by_key(idx, keys),
        forall|t: usize| t < cand.len() ==> #[trigger] idx.contains(t),
        out.len() == idx.len(),
        forall|k: int| 0 <= k < out.len() ==> #[trigger] out[k] == cand[idx[k] as int] as int,
        n <= usize::MAX,
        cand.len() <= usize::MAX,
    ensures
        enumerates_sorted(out, n, pred, key),
{
    assert forall|k: int| 0 <= k < out.len() implies 0 <= #[trigger] out[k] < n && pred(out[k]) by {
        assert(idx[k] < keys.len());
    }
    assert forall|j: int| 0 <= j < n && #[trigger] pred(j) implies out.contains(j) by {
        let t = choose|t: int| 0 <= t < cand.len() && cand[t] == j as usize;
        assert(idx.contains(t as usize));
        let k = choose|k: int| 0 <= k < idx.len() && idx[k] == t as usize;
        assert(out[k] == j);
    }
    assert forall|a: int, b: int| 0 <= a < b < out.len() implies lex_lt(
        key(#[trigger] out[a]),
        key(#[trigger] out[b]),
    ) || (key(out[a]) == key(out[b]) && out[a] < out[b]) by {
        let ia = idx[a] as int;
        let ib = idx[b] as int;
        assert(key_pos_lt(keys, ia, ib));
        assert(keys[ia] == key(out[a]));
        assert(keys[ib] == key(out[b]));
        if !lex_lt(keys[ia], keys[ib]) {
            assert(ia < ib);
            assert(cand[ia] < cand[ib]);
        }
    }
}

} // verus!
