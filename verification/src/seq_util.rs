//! The first element of a sequence that has a property.

use vstd::prelude::*;

verus! {

/// The position of the first element of `s` for which `p` holds, or the
/// length of `s` where there is none.
pub open spec fn first_index<T>(s: Seq<T>, p: spec_fn(T) -> bool) -> int
    decreases s.len(),
{
    if s.len() == 0 {
        0
    } else if p(s[0]) {
        0
    } else {
        1 + first_index(s.drop_first(), p)
    }
}

/// Where `p` holds of no element before `k`, and of the one at `k` unless
/// `k` is the end, `k` is the first index.
pub proof fn lemma_first_index<T>(s: Seq<T>, p: spec_fn(T) -> bool, k: int)
    requires
        0 <= k <= s.len(),
        forall|j: int| 0 <= j < k ==> !p(#[trigger] s[j]),
        k == s.len() || p(s[k]),
    ensures
        first_index(s, p) == k,
    decreases s.len(),
{
    if s.len() > 0 && k > 0 {
        let rest = s.drop_first();
        assert(!p(s[0]));
        assert forall|j: int| 0 <= j < k - 1 implies !p(#[trigger] rest[j]) by {
            assert(rest[j] == s[j + 1]);
        }
        lemma_first_index(rest, p, k - 1);
    }
}

/// The first index is in range, `p` holds at it where it is below the
/// length, and of no element before it.
pub proof fn lemma_first_index_found<T>(s: Seq<T>, p: spec_fn(T) -> bool)
    ensures
        0 <= first_index(s, p) <= s.len(),
        first_index(s, p) < s.len() ==> p(s[first_index(s, p)]),
        forall|j: int| 0 <= j < first_index(s, p) ==> !p(#[trigger] s[j]),
    decreases s.len(),
{
    if s.len() > 0 && !p(s[0]) {
        let rest = s.drop_first();
        lemma_first_index_found(rest, p);
        assert forall|j: int| 0 <= j < first_index(s, p) implies !p(#[trigger] s[j]) by {
            if j > 0 {
                assert(s[j] == rest[j - 1]);
            }
        }
    }
}

} // verus!
