//! A helper fact about association sequences: filtering keeps keys distinct.

use vstd::prelude::*;

use vstd::multiset::Multiset;

verus! {

/// Filtering a sequence keeps every surviving element an element of the
/// original, and therefore keeps pairwise-distinct keys distinct.
pub proof fn lemma_filter_distinct_by<A, K>(s: Seq<A>, pred: spec_fn(A) -> bool, key: spec_fn(
    A,
) -> K)
    requires
        forall|i: int, j: int| 0 <= i < j < s.len() ==> key(s[i]) != key(s[j]),
    ensures
        forall|x: A| #[trigger] s.filter(pred).contains(x) ==> s.contains(x),
        forall|i: int, j: int|
            0 <= i < j < s.filter(pred).len() ==> key(#[trigger] s.filter(pred)[i]) != key(
                #[trigger] s.filter(pred)[j],
            ),
    decreases s.len(),
{
    reveal(Seq::filter);
    if s.len() > 0 {
        let d = s.drop_last();
        let l = s.last();
        assert(forall|i: int, j: int| 0 <= i < j < d.len() ==> key(d[i]) != key(d[j]));
        lemma_filter_distinct_by(d, pred, key);
        let f = s.filter(pred);
        let fd = d.filter(pred);
        assert forall|x: A| #[trigger] f.contains(x) implies s.contains(x) by {
            let j = choose|j: int| 0 <= j < f.len() && f[j] == x;
            if pred(l) && j == f.len() - 1 {
                assert(s[s.len() - 1] == x);
            } else {
                assert(fd[j] == x);
                assert(fd.contains(x));
                let k = choose|k: int| 0 <= k < d.len() && d[k] == x;
                assert(s[k] == x);
            }
        }
        assert forall|i: int, j: int| 0 <= i < j < f.len() implies key(f[i]) != key(f[j]) by {
            if pred(l) && j == f.len() - 1 {
                assert(fd.contains(f[i]));
                assert(d.contains(f[i]));
                let k = choose|k: int| 0 <= k < d.len() && d[k] == f[i];
                assert(key(s[k]) != key(s[s.len() - 1]));
            } else {
                assert(key(fd[i]) != key(fd[j]));
            }
        }
    }
}

/// Every element of a filtered sequence is an element of the original.
pub proof fn lemma_filter_membership<A>(s: Seq<A>, pred: spec_fn(A) -> bool)
    ensures
        forall|x: A| #[trigger] s.filter(pred).contains(x) ==> s.contains(x),
    decreases s.len(),
{
    reveal(Seq::filter);
    if s.len() > 0 {
        let d = s.drop_last();
        lemma_filter_membership(d, pred);
        assert forall|x: A| #[trigger] s.filter(pred).contains(x) implies s.contains(x) by {
            let f = s.filter(pred);
            let j = choose|j: int| 0 <= j < f.len() && f[j] == x;
            if pred(s.last()) && j == f.len() - 1 {
                assert(s[s.len() - 1] == x);
            } else {
                assert(d.filter(pred)[j] == x);
                assert(d.filter(pred).contains(x));
                let k = choose|k: int| 0 <= k < d.len() && d[k] == x;
                assert(s[k] == x);
            }
        }
    }
}

/// Inserting an element anywhere in a sequence adds exactly it to the
/// sequence's multiset.
pub proof fn lemma_insert_to_multiset<A>(s: Seq<A>, p: int, x: A)
    requires
        0 <= p <= s.len(),
    ensures
        s.insert(p, x).to_multiset() =~= s.to_multiset().insert(x),
{
    broadcast use vstd::seq_lib::group_to_multiset_ensures;

    let a = s.subrange(0, p);
    let c = s.subrange(p, s.len() as int);
    assert(s.insert(p, x) =~= a + (seq![x] + c));
    assert(s =~= a + c);
    vstd::seq_lib::lemma_multiset_commutative(a, seq![x] + c);
    vstd::seq_lib::lemma_multiset_commutative(seq![x], c);
    vstd::seq_lib::lemma_multiset_commutative(a, c);
    assert(seq![x] =~= Seq::empty().push(x));
    assert(Seq::<A>::empty().to_multiset() =~= Multiset::<A>::empty());
    assert(seq![x].to_multiset() =~= Multiset::<A>::empty().insert(x));
}

} // verus!
