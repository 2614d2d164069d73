//! Majority arithmetic shared by the replication and agreement engines.

use vstd::prelude::*;

verus! {

/// The size of a majority among `n` participants: `floor(n / 2) + 1`.
pub open spec fn majority_of(n: nat) -> nat {
    n / 2 + 1
}

/// Computes the majority threshold for `n` participants.
pub fn majority(n: usize) -> (m: usize)
    ensures
        m == majority_of(n as nat),
        1 <= m,
        n > 0 ==> m <= n,
{
    n / 2 + 1
}

/// Two majorities of the same group always share a member: their sizes add up
/// to more than the group.
pub proof fn lemma_majorities_intersect(n: nat)
    ensures
        2 * majority_of(n) > n,
{
}

} // verus!
