//! Permutations of the numbers below a bound.

use vstd::prelude::*;
use vstd::seq_lib::*;

verus! {

/// The numbers from 0 up to `n`, in order.
pub open spec fn identity(n: nat) -> Seq<usize> {
    Seq::new(n, |i: int| i as usize)
}

/// `s` holds each number below its length exactly once.
pub open spec fn is_permutation(s: Seq<usize>) -> bool {
    s.to_multiset() == identity(s.len()).to_multiset()
}

/// Every entry of a permutation is below its length.
pub proof fn lemma_permutation_bound(s: Seq<usize>, i: int)
    requires
        is_permutation(s),
        0 <= i < s.len() <= usize::MAX,
    ensures
        s[i] < s.len(),
{
    let id = identity(s.len());
    to_multiset_contains(s, s[i]);
    to_multiset_contains(id, s[i]);
    assert(s.contains(s[i]));
    assert(id.contains(s[i]));
    let j = choose|j: int| 0 <= j < id.len() && id[j] == s[i];
    assert(id[j] == j);
}

/// Exchanging two entries of a sequence keeps what it holds.
pub proof fn lemma_swap_multiset(s: Seq<usize>, i: int, j: int)
    requires
        0 <= i < s.len(),
        0 <= j < s.len(),
    ensures
        s.update(i, s[j]).update(j, s[i]).to_multiset() == s.to_multiset(),
{
    let a = s[i];
    let b = s[j];
    let s1 = s.update(i, b);
    to_multiset_update(s, i, b);
    to_multiset_update(s1, j, a);
    to_multiset_contains(s, a);
    to_multiset_contains(s, b);
    assert(s.contains(a));
    assert(s.contains(b));
    assert(s1[j] == b);
    assert(s.to_multiset().insert(b).remove(a).insert(a).remove(b) =~= s.to_multiset()) by {
        broadcast use vstd::multiset::group_multiset_axioms;

    }
}

/// A permutation holds every number below its length.
pub proof fn lemma_permutation_holds(s: Seq<usize>, x: usize)
    requires
        is_permutation(s),
        x < s.len(),
    ensures
        s.contains(x),
{
    let id = identity(s.len());
    assert(id[x as int] == x);
    assert(id.contains(x));
    to_multiset_contains(s, x);
    to_multiset_contains(id, x);
}

} // verus!
