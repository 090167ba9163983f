//! Searching and comparing byte strings.

use vstd::prelude::*;
use crate::seqs::{first_index_of, lemma_first_index_of};

verus! {

/// Finds the first `b` among the bytes of `text` from `from` up to `to`;
/// gives `to` where there is none.
pub fn find_byte(text: &[u8], from: usize, to: usize, b: u8) -> (at: usize)
    requires
        from <= to <= text@.len(),
    ensures
        from <= at <= to,
        at - from == first_index_of(text@.subrange(from as int, to as int), b),
{
    let mut at: usize = from;
    while at < to && text[at] != b
        invariant
            from <= at <= to <= text@.len(),
            forall|j: int| from <= j < at ==> text@[j] != b,
        decreases to - at,
    {
        at += 1;
    }
    proof {
        lemma_first_index_of(text@.subrange(from as int, to as int), b, at - from);
    }
    at
}

/// Whether two byte strings hold the same bytes.
pub fn same_bytes(a: &[u8], b: &[u8]) -> (r: bool)
    ensures
        r == (a@ == b@),
{
    if a.len() != b.len() {
        return false;
    }
    let mut i: usize = 0;
    while i < a.len()
        invariant
            a@.len() == b@.len(),
            0 <= i <= a@.len(),
            forall|j: int| 0 <= j < i ==> a@[j] == b@[j],
        decreases a@.len() - i,
    {
        if a[i] != b[i] {
            return false;
        }
        i += 1;
    }
    assert(a@ =~= b@);
    true
}

} // verus!
