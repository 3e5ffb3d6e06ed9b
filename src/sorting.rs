//! Stable insertion order on sequences: where an element goes among sorted
//! ones, and the sorted form of a sequence.

use vstd::prelude::*;

verus! {

broadcast use vstd::seq_lib::group_to_multiset_ensures;

/// `lt` is irreflexive and transitive.
pub open spec fn strict_order<A>(lt: spec_fn(A, A) -> bool) -> bool {
    &&& forall|a: A| !(#[trigger] lt(a, a))
    &&& forall|a: A, b: A, c: A| #[trigger] lt(a, b) && #[trigger] lt(b, c) ==> lt(a, c)
}

/// No element is ordered strictly before one that precedes it.
pub open spec fn sorted_by<A>(s: Seq<A>, lt: spec_fn(A, A) -> bool) -> bool {
    forall|i: int, j: int| 0 <= i < j < s.len() ==> !lt(#[trigger] s[j], #[trigger] s[i])
}

/// `x` placed before the first element that it is strictly before, so after
/// every element it ties with.
pub open spec fn insert_by<A>(x: A, s: Seq<A>, lt: spec_fn(A, A) -> bool) -> Seq<A>
    decreases s.len(),
{
    if s.len() == 0 {
        seq![x]
    } else if lt(x, s[0]) {
        seq![x] + s
    } else {
        seq![s[0]] + insert_by(x, s.drop_first(), lt)
    }
}

/// The stable sort of `s` by `lt`: each element inserted in turn.
pub open spec fn sort_by<A>(s: Seq<A>, lt: spec_fn(A, A) -> bool) -> Seq<A>
    decreases s.len(),
{
    if s.len() == 0 {
        s
    } else {
        insert_by(s.last(), sort_by(s.drop_last(), lt), lt)
    }
}

/// `insert_by` puts `x` at the first position whose element `x` is strictly
/// before.
pub proof fn lemma_insert_by_at<A>(x: A, s: Seq<A>, lt: spec_fn(A, A) -> bool, p: int)
    requires
        0 <= p <= s.len(),
        forall|k: int| 0 <= k < p ==> !lt(x, #[trigger] s[k]),
        p < s.len() ==> lt(x, s[p]),
    ensures
        insert_by(x, s, lt) == s.insert(p, x),
    decreases s.len(),
{
    if s.len() == 0 {
        assert(insert_by(x, s, lt) =~= s.insert(p, x));
    } else if lt(x, s[0]) {
        if p > 0 {
            assert(!lt(x, s[0]));
        }
        assert(insert_by(x, s, lt) =~= s.insert(p, x));
    } else {
        let t = s.drop_first();
        assert forall|k: int| 0 <= k < p - 1 implies !lt(x, #[trigger] t[k]) by {
            assert(t[k] == s[k + 1]);
        }
        lemma_insert_by_at(x, t, lt, p - 1);
        assert(insert_by(x, s, lt) =~= s.insert(p, x));
    }
}

/// Where `insert_by` puts `x`.
pub proof fn lemma_insert_by_position<A>(x: A, s: Seq<A>, lt: spec_fn(A, A) -> bool) -> (p: int)
    ensures
        0 <= p <= s.len(),
        insert_by(x, s, lt) == s.insert(p, x),
        forall|k: int| 0 <= k < p ==> !lt(x, #[trigger] s[k]),
        p < s.len() ==> lt(x, s[p]),
    decreases s.len(),
{
    if s.len() == 0 {
        assert(insert_by(x, s, lt) =~= s.insert(0, x));
        0
    } else if lt(x, s[0]) {
        assert(insert_by(x, s, lt) =~= s.insert(0, x));
        0
    } else {
        let t = s.drop_first();
        let q = lemma_insert_by_position(x, t, lt);
        assert(insert_by(x, s, lt) =~= s.insert(q + 1, x));
        assert forall|k: int| 0 <= k < q + 1 implies !lt(x, #[trigger] s[k]) by {
            if k > 0 {
                assert(s[k] == t[k - 1]);
            }
        }
        if q + 1 < s.len() {
            assert(s[q + 1] == t[q]);
        }
        q + 1
    }
}

/// Inserting into a sorted sequence keeps it sorted and adds exactly `x`.
pub proof fn lemma_insert_by_sorted<A>(x: A, s: Seq<A>, lt: spec_fn(A, A) -> bool)
    requires
        strict_order(lt),
        sorted_by(s, lt),
    ensures
        sorted_by(insert_by(x, s, lt), lt),
        insert_by(x, s, lt).to_multiset() == s.to_multiset().insert(x),
        insert_by(x, s, lt).len() == s.len() + 1,
{
    let p = lemma_insert_by_position(x, s, lt);
    let n = s.insert(p, x);
    assert forall|i: int, j: int| 0 <= i < j < n.len() implies !lt(#[trigger] n[j], #[trigger] n[i]) by {
        if j < p {
            assert(n[i] == s[i] && n[j] == s[j]);
        } else if j == p {
            assert(n[i] == s[i]);
        } else if i == p {
            assert(n[j] == s[j - 1]);
            if lt(s[j - 1], x) {
                if j - 1 == p {
                    assert(lt(s[p], s[p]));
                } else {
                    assert(lt(s[j - 1], s[p]));
                }
            }
        } else if i < p {
            assert(n[i] == s[i] && n[j] == s[j - 1]);
        } else {
            assert(n[i] == s[i - 1] && n[j] == s[j - 1]);
        }
    }
}

/// The stable sort is sorted and a permutation of its input.
pub proof fn lemma_sort_by_sorted<A>(s: Seq<A>, lt: spec_fn(A, A) -> bool)
    requires
        strict_order(lt),
    ensures
        sorted_by(sort_by(s, lt), lt),
        sort_by(s, lt).to_multiset() == s.to_multiset(),
        sort_by(s, lt).len() == s.len(),
    decreases s.len(),
{
    if s.len() > 0 {
        lemma_sort_by_sorted(s.drop_last(), lt);
        lemma_insert_by_sorted(s.last(), sort_by(s.drop_last(), lt), lt);
        s.lemma_add_last_back();
        assert(s.drop_last().push(s.last()).to_multiset() =~= s.drop_last().to_multiset().insert(s.last()));
    }
}

} // verus!
