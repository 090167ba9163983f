//! The first position of a value in a sequence.

use vstd::prelude::*;

verus! {

/// The position of the first `x` in `s`, or the length of `s` where it holds
/// none.
pub open spec fn first_index_of<T>(s: Seq<T>, x: T) -> int
    decreases s.len(),
{
    if s.len() == 0 {
        0
    } else if s[0] == x {
        0
    } else {
        1 + first_index_of(s.skip(1), x)
    }
}

/// A position before which `s` holds no `x`, and which holds `x` or is the end
/// of `s`, is the first position of `x`.
pub proof fn lemma_first_index_of<T>(s: Seq<T>, x: T, i: int)
    requires
        0 <= i <= s.len(),
        forall|j: int| 0 <= j < i ==> s[j] != x,
        i < s.len() ==> s[i] == x,
    ensures
        first_index_of(s, x) == i,
    decreases s.len(),
{
    if s.len() > 0 && i > 0 {
        let rest = s.skip(1);
        assert forall|j: int| 0 <= j < i - 1 implies rest[j] != x by {
            assert(rest[j] == s[j + 1]);
        }
        lemma_first_index_of(rest, x, i - 1);
    }
}

} // verus!
