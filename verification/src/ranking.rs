//! Stable ordering of items from the highest key down, as insertion into an
//! already ordered sequence, and the facts that make it a sort.

use vstd::prelude::*;

verus! {

broadcast use vstd::seq_lib::group_to_multiset_ensures;

/// `gt` is a strict order: never both ways, and transitive.
pub open spec fn strict_order<T>(gt: spec_fn(T, T) -> bool) -> bool {
    &&& forall|a: T, b: T| #[trigger] gt(a, b) ==> !gt(b, a)
    &&& forall|a: T, b: T, c: T| #[trigger] gt(a, b) && #[trigger] gt(b, c) ==> gt(a, c)
}

/// Where `x` goes in `s`: before the first item that it outranks, after all
/// the others.
pub open spec fn insert_pos<T>(s: Seq<T>, x: T, gt: spec_fn(T, T) -> bool) -> int
    decreases s.len(),
{
    if s.len() == 0 {
        0
    } else if gt(x, s[0]) {
        0
    } else {
        1 + insert_pos(s.drop_first(), x, gt)
    }
}

/// `s` ordered from the highest key down, items with equal keys keeping
/// their order.
pub open spec fn rank_desc<T>(s: Seq<T>, gt: spec_fn(T, T) -> bool) -> Seq<T>
    decreases s.len(),
{
    if s.len() == 0 {
        s
    } else {
        let t = rank_desc(s.drop_last(), gt);
        t.insert(insert_pos(t, s.last(), gt), s.last())
    }
}

/// No item of `s` is outranked by an item after it.
pub open spec fn ranked<T>(s: Seq<T>, gt: spec_fn(T, T) -> bool) -> bool {
    forall|i: int, j: int| 0 <= i < j < s.len() ==> !gt(#[trigger] s[j], #[trigger] s[i])
}

/// The insertion point is the first index whose item `x` outranks.
pub proof fn lemma_insert_pos<T>(s: Seq<T>, x: T, gt: spec_fn(T, T) -> bool, k: int)
    requires
        0 <= k <= s.len(),
        forall|j: int| 0 <= j < k ==> !gt(x, #[trigger] s[j]),
        k == s.len() || gt(x, s[k]),
    ensures
        insert_pos(s, x, gt) == k,
    decreases s.len(),
{
    if s.len() > 0 && k > 0 {
        assert(!gt(x, s[0]));
        assert forall|j: int| 0 <= j < k - 1 implies !gt(x, #[trigger] s.drop_first()[j]) by {
            assert(s.drop_first()[j] == s[j + 1]);
        }
        lemma_insert_pos(s.drop_first(), x, gt, k - 1);
    }
}

pub proof fn lemma_insert_pos_facts<T>(s: Seq<T>, x: T, gt: spec_fn(T, T) -> bool)
    ensures
        0 <= insert_pos(s, x, gt) <= s.len(),
        forall|j: int| 0 <= j < insert_pos(s, x, gt) ==> !gt(x, #[trigger] s[j]),
        insert_pos(s, x, gt) < s.len() ==> gt(x, s[insert_pos(s, x, gt)]),
    decreases s.len(),
{
    if s.len() > 0 && !gt(x, s[0]) {
        let t = s.drop_first();
        lemma_insert_pos_facts(t, x, gt);
        assert forall|j: int| 0 <= j < insert_pos(s, x, gt) implies !gt(x, #[trigger] s[j]) by {
            if j > 0 {
                assert(s[j] == t[j - 1]);
            }
        }
    }
}

/// Ranking keeps every item, as often as it occurs.
pub proof fn lemma_rank_desc_permutes<T>(s: Seq<T>, gt: spec_fn(T, T) -> bool)
    ensures
        rank_desc(s, gt).to_multiset() == s.to_multiset(),
        rank_desc(s, gt).len() == s.len(),
    decreases s.len(),
{
    if s.len() > 0 {
        let t = rank_desc(s.drop_last(), gt);
        lemma_rank_desc_permutes(s.drop_last(), gt);
        lemma_insert_pos_facts(t, s.last(), gt);
        let p = insert_pos(t, s.last(), gt);
        let u = t.insert(p, s.last());
        assert(u.remove(p) =~= t);
        assert(u[p] == s.last());
        assert(u.remove(p).to_multiset() == u.to_multiset().remove(s.last()));
        assert(u.to_multiset().count(s.last()) > 0) by {
            assert(u.contains(s.last()));
        }
        assert(u.to_multiset() =~= t.to_multiset().insert(s.last()));
        assert(s.drop_last().push(s.last()) =~= s);
    }
}

/// Under a strict order, ranking puts no item after one that it outranks.
pub proof fn lemma_rank_desc_ranked<T>(s: Seq<T>, gt: spec_fn(T, T) -> bool)
    requires
        strict_order(gt),
    ensures
        ranked(rank_desc(s, gt), gt),
    decreases s.len(),
{
    if s.len() > 0 {
        let t = rank_desc(s.drop_last(), gt);
        lemma_rank_desc_ranked(s.drop_last(), gt);
        let x = s.last();
        lemma_insert_pos_facts(t, x, gt);
        let p = insert_pos(t, x, gt);
        let u = t.insert(p, x);
        assert forall|i: int, j: int| 0 <= i < j < u.len() implies !gt(#[trigger] u[j], #[trigger] u[i]) by {
            if j < p {
                assert(u[i] == t[i] && u[j] == t[j]);
            } else if j == p {
                assert(u[i] == t[i]);
                assert(!gt(x, t[i]));
            } else if i == p {
                assert(u[j] == t[j - 1]);
                assert(gt(x, t[p]));
                if j - 1 > p {
                    assert(!gt(t[j - 1], t[p]));
                }
                if gt(t[j - 1], x) {
                    assert(gt(t[j - 1], t[p]));
                }
            } else if i < p {
                assert(u[i] == t[i] && u[j] == t[j - 1]);
            } else {
                assert(u[i] == t[i - 1] && u[j] == t[j - 1]);
            }
        }
    }
}

} // verus!
