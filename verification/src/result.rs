use vstd::prelude::*;

verus! {

/// Saturate a mathematical total at the largest value a 64-bit counter holds.
pub open spec fn sat64(n: nat) -> nat {
    if n <= u64::MAX as nat {
        n
    } else {
        u64::MAX as nat
    }
}

/// Saturating addition on mathematical totals.
pub open spec fn sat_add(a: nat, b: nat) -> nat {
    sat64(a + b)
}

/// Aggregate over one subtree: how many entries were seen and how many
/// bytes they reported, inclusive of the subtree root's immediate entries
/// and all descendants, exclusive of the subtree root itself.
#[derive(Clone, Copy, PartialEq, Eq, Structural, Debug)]
pub struct TraversalResult {
    pub count: u64,
    pub size: u64,
}

impl TraversalResult {
    /// The contribution of a subtree that could not be read.
    pub fn zero() -> (r: Self)
        ensures
            r.count == 0,
            r.size == 0,
    {
        TraversalResult { count: 0, size: 0 }
    }

    /// Pairwise addition of counts and of sizes, saturating so that a walk
    /// over any tree stays total.
    pub fn combine(self, other: Self) -> (r: Self)
        ensures
            r.count as nat == sat_add(self.count as nat, other.count as nat),
            r.size as nat == sat_add(self.size as nat, other.size as nat),
    {
        let count = if self.count <= u64::MAX - other.count {
            self.count + other.count
        } else {
            u64::MAX
        };
        let size = if self.size <= u64::MAX - other.size {
            self.size + other.size
        } else {
            u64::MAX
        };
        TraversalResult { count, size }
    }
}

/// Saturating at every step loses nothing against saturating once at the end.
pub proof fn lemma_sat_add_absorb(a: nat, b: nat)
    ensures
        sat_add(sat64(a), b) == sat64(a + b),
        sat_add(a, sat64(b)) == sat64(a + b),
{
}

/// Totals that agree after saturation keep agreeing when the same amount is added.
pub proof fn lemma_sat64_add_congruence(a: nat, b: nat, c: nat)
    requires
        sat64(a) == sat64(b),
    ensures
        sat64(a + c) == sat64(b + c),
{
}

} // verus!
