//! Facts about sequences that the rest of the library builds on.

use vstd::prelude::*;

verus! {

/// The index of the first element of `s` equal to `x`, or `s.len()` when there is none.
pub open spec fn first_position<A>(s: Seq<A>, x: A) -> int
    decreases s.len(),
{
    if s.len() == 0 {
        0
    } else if s[0] == x {
        0
    } else {
        1 + first_position(s.drop_first(), x)
    }
}

/// `first_position` stays inside `0..=len`, points at `x` when it is inside the
/// sequence, and nothing before it equals `x`.
pub proof fn lemma_first_position<A>(s: Seq<A>, x: A)
    ensures
        0 <= first_position(s, x) <= s.len(),
        first_position(s, x) < s.len() ==> s[first_position(s, x)] == x,
        forall|j: int| 0 <= j < first_position(s, x) ==> s[j] != x,
        first_position(s, x) < s.len() <==> s.contains(x),
    decreases s.len(),
{
    if s.len() == 0 {
    } else if s[0] == x {
    } else {
        let t = s.drop_first();
        lemma_first_position(t, x);
        let p = first_position(t, x);
        assert forall|j: int| 0 <= j < 1 + p implies s[j] != x by {
            if j > 0 {
                assert(t[j - 1] == s[j]);
            }
        }
        if p < t.len() {
            assert(s[p + 1] == t[p]);
        }
        if s.contains(x) {
            let i = choose|i: int| 0 <= i < s.len() && s[i] == x;
            assert(t[i - 1] == x);
        }
    }
}

/// An index with the defining properties of the first position is the first position.
pub proof fn lemma_first_position_is<A>(s: Seq<A>, x: A, p: int)
    requires
        0 <= p <= s.len(),
        p < s.len() ==> s[p] == x,
        forall|j: int| 0 <= j < p ==> s[j] != x,
    ensures
        first_position(s, x) == p,
{
    lemma_first_position(s, x);
    let q = first_position(s, x);
    if q < p {
        assert(s[q] == x);
    } else if p < q {
        assert(s[p] == x);
    }
}

/// In a sequence without duplicates every element sits at its first position.
pub proof fn lemma_first_position_no_duplicates<A>(s: Seq<A>, i: int)
    requires
        s.no_duplicates(),
        0 <= i < s.len(),
    ensures
        first_position(s, s[i]) == i,
{
    lemma_first_position(s, s[i]);
    let q = first_position(s, s[i]);
    assert(s.contains(s[i]));
}

} // verus!
