//! Stable ordering by insertion, as a specification and its laws.
//!
//! `before(a, b)` is a strict order; `stable_sort` inserts each element
//! after every element it does not come before, so that elements that
//! compare equal keep their original order.

use vstd::prelude::*;

verus! {

/// `s` with `x` inserted before the first element that `x` comes before.
pub open spec fn insert_in_order<A>(s: Seq<A>, x: A, before: spec_fn(A, A) -> bool) -> Seq<A>
    decreases s.len(),
{
    if s.len() == 0 {
        seq![x]
    } else if before(x, s[0]) {
        seq![x] + s
    } else {
        seq![s[0]] + insert_in_order(s.drop_first(), x, before)
    }
}

/// The stable sort of `s` by `before`.
pub open spec fn stable_sort<A>(s: Seq<A>, before: spec_fn(A, A) -> bool) -> Seq<A>
    decreases s.len(),
{
    if s.len() == 0 {
        s
    } else {
        insert_in_order(stable_sort(s.drop_last(), before), s.last(), before)
    }
}

/// No element comes before an element that precedes it.
pub open spec fn is_ordered<A>(s: Seq<A>, before: spec_fn(A, A) -> bool) -> bool {
    forall|i: int, j: int| 0 <= i < j < s.len() ==> !before(#[trigger] s[j], #[trigger] s[i])
}

/// `before` is a strict order: irreflexive and transitive.
pub open spec fn strict_order<A>(before: spec_fn(A, A) -> bool) -> bool {
    &&& forall|a: A| !#[trigger] before(a, a)
    &&& forall|a: A, b: A, c: A| #[trigger] before(a, b) && #[trigger] before(b, c) ==> before(a, c)
}

/// The first position of `s` whose element `x` comes before, or `s.len()`.
pub open spec fn insert_position<A>(s: Seq<A>, x: A, before: spec_fn(A, A) -> bool) -> int
    decreases s.len(),
{
    if s.len() == 0 {
        0
    } else if before(x, s[0]) {
        0
    } else {
        1 + insert_position(s.drop_first(), x, before)
    }
}

/// Inserting in order is inserting at the first position that `x` comes before.
pub proof fn lemma_insert_position<A>(s: Seq<A>, x: A, before: spec_fn(A, A) -> bool)
    ensures
        0 <= insert_position(s, x, before) <= s.len(),
        insert_in_order(s, x, before) == s.insert(insert_position(s, x, before), x),
        forall|i: int| 0 <= i < insert_position(s, x, before) ==> !before(x, #[trigger] s[i]),
        insert_position(s, x, before) < s.len() ==> before(x, s[insert_position(s, x, before)]),
    decreases s.len(),
{
    if s.len() == 0 {
        assert(s.insert(0, x) =~= seq![x]);
    } else if before(x, s[0]) {
        assert(s.insert(0, x) =~= seq![x] + s);
    } else {
        let t = s.drop_first();
        lemma_insert_position(t, x, before);
        let p = insert_position(t, x, before);
        assert(seq![s[0]] + t.insert(p, x) =~= s.insert(p + 1, x));
        assert forall|i: int| 0 <= i < p + 1 implies !before(x, #[trigger] s[i]) by {
            if i > 0 {
                assert(s[i] == t[i - 1]);
            }
        }
    }
}

/// Inserting in order keeps a sequence ordered.
pub proof fn lemma_insert_keeps_order<A>(s: Seq<A>, x: A, before: spec_fn(A, A) -> bool)
    requires
        strict_order(before),
        is_ordered(s, before),
    ensures
        is_ordered(insert_in_order(s, x, before), before),
{
    lemma_insert_position(s, x, before);
    let p = insert_position(s, x, before);
    let r = insert_in_order(s, x, before);
    assert forall|i: int, j: int| 0 <= i < j < r.len() implies !before(#[trigger] r[j], #[trigger] r[i]) by {
        if j < p {
            assert(r[i] == s[i] && r[j] == s[j]);
        } else if j == p {
            assert(r[j] == x && r[i] == s[i]);
        } else if i < p {
            assert(r[i] == s[i] && r[j] == s[j - 1]);
        } else if i == p {
            // r[i] == x, r[j] == s[j - 1], s[p] is x's successor
            assert(r[i] == x && r[j] == s[j - 1]);
            if before(s[j - 1], x) {
                assert(before(x, s[p]));
                if j - 1 > p {
                    assert(!before(s[j - 1], s[p]));
                } else {
                    assert(before(x, x));
                }
            }
        } else {
            assert(r[i] == s[i - 1] && r[j] == s[j - 1]);
        }
    }
}

/// Law: a stable sort by a strict order is ordered.
pub proof fn lemma_stable_sort_ordered<A>(s: Seq<A>, before: spec_fn(A, A) -> bool)
    requires
        strict_order(before),
    ensures
        is_ordered(stable_sort(s, before), before),
    decreases s.len(),
{
    if s.len() > 0 {
        lemma_stable_sort_ordered(s.drop_last(), before);
        lemma_insert_keeps_order(stable_sort(s.drop_last(), before), s.last(), before);
    }
}

/// Law: a stable sort rearranges its input and neither adds nor drops elements.
pub proof fn lemma_stable_sort_permutes<A>(s: Seq<A>, before: spec_fn(A, A) -> bool)
    ensures
        stable_sort(s, before).to_multiset() == s.to_multiset(),
    decreases s.len(),
{
    broadcast use vstd::seq_lib::to_multiset_insert;
    broadcast use vstd::multiset::group_multiset_axioms;
    if s.len() > 0 {
        let t = s.drop_last();
        lemma_stable_sort_permutes(t, before);
        let st = stable_sort(t, before);
        lemma_insert_position(st, s.last(), before);
        assert(s =~= t.push(s.last()));
        vstd::seq_lib::to_multiset_build(t, s.last());
    }
}

/// Keeping the first `m` elements of an ordered insertion only needs the
/// first `k` elements of the sequence, when `m <= k` or `k` is all of it.
pub proof fn lemma_insert_into_prefix<A>(
    s: Seq<A>,
    x: A,
    before: spec_fn(A, A) -> bool,
    k: int,
    m: int,
)
    requires
        0 <= k <= s.len(),
        0 <= m <= k + 1,
        m <= k || k == s.len(),
    ensures
        insert_in_order(s.take(k), x, before).take(m) == insert_in_order(s, x, before).take(m),
{
    lemma_insert_position(s, x, before);
    lemma_insert_position(s.take(k), x, before);
    let p = insert_position(s, x, before);
    let q = insert_position(s.take(k), x, before);
    let a = insert_in_order(s.take(k), x, before);
    let b = insert_in_order(s, x, before);
    if p < k {
        assert(q <= p) by {
            if q > p {
                assert(s.take(k)[p] == s[p]);
            }
        }
        assert(q >= p) by {
            if q < p {
                assert(s.take(k)[q] == s[q]);
            }
        }
    } else {
        assert(q == k) by {
            if q < k {
                assert(s.take(k)[q] == s[q]);
            }
        }
    }
    assert forall|i: int| 0 <= i < m implies a[i] == b[i] by {
        if p < k {
            if i < p {
                assert(a[i] == s[i]);
            } else if i > p {
                assert(a[i] == s.take(k)[i - 1]);
            }
        } else {
            if i < k {
                assert(a[i] == s[i]);
                assert(b[i] == s[i]);
            }
        }
    }
    assert(a.take(m) =~= b.take(m));
}

} // verus!
