//! Lexicographic order on strings (as `Ord` for `str` compares them) and a
//! stable sort of indices by string keys.

use vstd::prelude::*;

verus! {

/// `a` sorts strictly before `b`: character by character by code point (the order UTF-8 bytes also give), a
/// proper prefix first.
pub open spec fn lex_lt(a: Seq<char>, b: Seq<char>) -> bool
    decreases a.len(),
{
    if a.len() == 0 {
        b.len() > 0
    } else if b.len() == 0 {
        false
    } else if a[0] != b[0] {
        a[0] < b[0]
    } else {
        lex_lt(a.drop_first(), b.drop_first())
    }
}

/// Exactly one of `a < b`, `a == b`, `b < a` holds.
pub proof fn lemma_lex_trichotomy(a: Seq<char>, b: Seq<char>)
    ensures
        lex_lt(a, b) || a == b || lex_lt(b, a),
        !(lex_lt(a, b) && lex_lt(b, a)),
        !(lex_lt(a, b) && a == b),
    decreases a.len(),
{
    if a.len() > 0 && b.len() > 0 {
        if a[0] == b[0] {
            lemma_lex_trichotomy(a.drop_first(), b.drop_first());
            if a.drop_first() == b.drop_first() {
                assert(a =~= seq![a[0]] + a.drop_first());
                assert(b =~= seq![b[0]] + b.drop_first());
            }
        }
    } else if a.len() == 0 && b.len() == 0 {
        assert(a =~= b);
    }
}

/// `lex_lt` is transitive.
pub proof fn lemma_lex_transitive(a: Seq<char>, b: Seq<char>, c: Seq<char>)
    requires
        lex_lt(a, b),
        lex_lt(b, c),
    ensures
        lex_lt(a, c),
    decreases a.len(),
{
    if a.len() > 0 && b.len() > 0 && c.len() > 0 && a[0] == b[0] && b[0] == c[0] {
        lemma_lex_transitive(a.drop_first(), b.drop_first(), c.drop_first());
    } else if a.len() > 0 && b.len() > 0 && c.len() > 0 {
    }
}

/// Two strings compare by their first differing character, by code point:
/// when `a` and `b` agree before position `i` and differ at `i`, `a` sorts
/// first exactly when its character there is the smaller.
pub proof fn law_lex_first_difference(a: Seq<char>, b: Seq<char>, i: int)
    requires
        0 <= i < a.len(),
        i < b.len(),
        a.take(i) == b.take(i),
        a[i] != b[i],
    ensures
        lex_lt(a, b) == (a[i] < b[i]),
    decreases i,
{
    if i > 0 {
        assert(a[0] == a.take(i)[0] && b[0] == b.take(i)[0]);
        assert(a.drop_first().take(i - 1) =~= a.take(i).drop_first());
        assert(b.drop_first().take(i - 1) =~= b.take(i).drop_first());
        law_lex_first_difference(a.drop_first(), b.drop_first(), i - 1);
    }
}

/// A proper prefix sorts before the longer string; no string sorts before
/// its own prefix.
pub proof fn law_lex_prefix(a: Seq<char>, b: Seq<char>)
    requires
        a.len() <= b.len(),
        b.take(a.len() as int) == a,
    ensures
        lex_lt(a, b) == (a.len() < b.len()),
        !lex_lt(b, a),
    decreases a.len(),
{
    if a.len() > 0 {
        assert(a[0] == b[0]);
        assert(b.drop_first().take(a.len() - 1) =~= a.drop_first());
        law_lex_prefix(a.drop_first(), b.drop_first());
    }
}

/// One-character strings are ordered by code point.
pub proof fn law_lex_single_chars(c: char, d: char)
    ensures
        lex_lt(seq![c], seq![d]) == (c < d),
{
    let a = seq![c];
    let b = seq![d];
    assert(a[0] == c && b[0] == d);
    assert(a.drop_first() =~= Seq::<char>::empty());
    assert(b.drop_first() =~= Seq::<char>::empty());
    assert(!lex_lt(Seq::<char>::empty(), Seq::<char>::empty()));
}

/// Whether `a` sorts strictly before `b`.
pub fn lex_less(a: &Vec<char>, b: &Vec<char>) -> (r: bool)
    ensures
        r == lex_lt(a@, b@),
{
    let mut i: usize = 0;
    assert(a@.skip(0) =~= a@ && b@.skip(0) =~= b@);
    while i < a.len() && i < b.len()
        invariant
            i <= a.len(),
            i <= b.len(),
            lex_lt(a@, b@) == lex_lt(a@.skip(i as int), b@.skip(i as int)),
        decreases a.len() - i,
    {
        if a[i] != b[i] {
            assert(a@.skip(i as int)[0] == a@[i as int]);
            assert(b@.skip(i as int)[0] == b@[i as int]);
            return a[i] < b[i];
        }
        assert(a@.skip(i as int).drop_first() =~= a@.skip(i + 1));
        assert(b@.skip(i as int).drop_first() =~= b@.skip(i + 1));
        i = i + 1;
    }
    i < b.len()
}

/// `order` lists each index below `n` exactly once.
pub open spec fn is_permutation_of_range(order: Seq<usize>, n: nat) -> bool {
    &&& order.len() == n
    &&& forall|i: int| 0 <= i < order.len() ==> order[i] < n
    &&& forall|i: int, j: int| 0 <= i < j < order.len() ==> order[i] != order[j]
}

/// `order` lists the keys in non-decreasing order, and equal keys by
/// increasing index: what a stable sort by key yields.
pub open spec fn is_stable_order(order: Seq<usize>, keys: Seq<Seq<char>>) -> bool {
    &&& is_permutation_of_range(order, keys.len())
    &&& forall|i: int, j: int|
        0 <= i < j < order.len() ==> !lex_lt(keys[order[j] as int], keys[order[i] as int])
    &&& forall|i: int, j: int|
        0 <= i < j < order.len() && keys[order[i] as int] == keys[order[j] as int] ==> order[i] < order[j]
}

/// The order in which a stable sort by `keys` puts the indices of `keys`.
pub fn stable_order(keys: &Vec<Vec<char>>) -> (order: Vec<usize>)
    ensures
        is_stable_order(order@, keys@.map_values(|k: Vec<char>| k@)),
{
    let ghost ks = keys@.map_values(|k: Vec<char>| k@);
    let mut order: Vec<usize> = Vec::new();
    let mut k: usize = 0;
    while k < keys.len()
        invariant
            k <= keys.len(),
            ks == keys@.map_values(|k: Vec<char>| k@),
            order.len() == k,
            forall|i: int| 0 <= i < order.len() ==> order@[i] < k,
            forall|i: int, j: int| 0 <= i < j < order.len() ==> order@[i] != order@[j],
            forall|i: int, j: int|
                0 <= i < j < order.len() ==> !lex_lt(ks[order@[j] as int], ks[order@[i] as int]),
            forall|i: int, j: int|
                0 <= i < j < order.len() && ks[order@[i] as int] == ks[order@[j] as int] ==> order@[i] < order@[j],
        decreases keys.len() - k,
    {
        let mut p: usize = 0;
        while p < order.len() && !lex_less(&keys[k], &keys[order[p]])
            invariant
                p <= order.len(),
                k < keys.len(),
                ks == keys@.map_values(|k: Vec<char>| k@),
                forall|i: int| 0 <= i < order.len() ==> order@[i] < k,
                forall|q: int| 0 <= q < p ==> !lex_lt(ks[k as int], #[trigger] ks[order@[q] as int]),
            decreases order.len() - p,
        {
            assert(ks[k as int] == keys@[k as int]@);
            assert(ks[order@[p as int] as int] == keys@[order@[p as int] as int]@);
            p = p + 1;
        }
        assert(ks[k as int] == keys@[k as int]@);
        assert(p < order.len() ==> ks[order@[p as int] as int] == keys@[order@[p as int] as int]@);
        let ghost old_order = order@;
        order.insert(p, k);
        proof {
            assert forall|i: int, j: int| 0 <= i < j < order.len() implies !lex_lt(ks[order@[j] as int], ks[order@[i] as int]) by {
                if i < p && j == p {
                    lemma_lex_trichotomy(ks[k as int], ks[old_order[i] as int]);
                } else if i == p && j > p {
                    let b = ks[old_order[p as int] as int];
                    let c = ks[old_order[j - 1] as int];
                    if j - 1 > p {
                        lemma_lex_trichotomy(b, c);
                        if lex_lt(b, c) {
                            lemma_lex_transitive(ks[k as int], b, c);
                        }
                    }
                    lemma_lex_trichotomy(ks[k as int], c);
                } else if i < p && j > p {
                    assert(order@[i] == old_order[i]);
                    assert(order@[j] == old_order[j - 1]);
                } else if i > p {
                    assert(order@[i] == old_order[i - 1]);
                    assert(order@[j] == old_order[j - 1]);
                }
            }
            assert forall|i: int, j: int|
                0 <= i < j < order.len() && ks[order@[i] as int] == ks[order@[j] as int] implies order@[i] < order@[j] by {
                if i == p && j > p {
                    lemma_lex_trichotomy(ks[k as int], ks[old_order[p as int] as int]);
                    let b = ks[old_order[p as int] as int];
                    let c = ks[old_order[j - 1] as int];
                    if j - 1 > p {
                        lemma_lex_trichotomy(b, c);
                        if lex_lt(b, c) {
                            lemma_lex_transitive(ks[k as int], b, c);
                        }
                    }
                    lemma_lex_trichotomy(ks[k as int], c);
                } else if i < p && j > p {
                    assert(order@[i] == old_order[i]);
                    assert(order@[j] == old_order[j - 1]);
                } else if i > p {
                    assert(order@[i] == old_order[i - 1]);
                    assert(order@[j] == old_order[j - 1]);
                } else if i < p && j < p {
                    assert(order@[i] == old_order[i]);
                    assert(order@[j] == old_order[j]);
                }
            }
        }
        k = k + 1;
    }
    order
}

} // verus!
