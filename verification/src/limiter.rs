use vstd::prelude::*;

verus! {

/// A counting limiter shared by every traversal of one run: a directory is
/// read only while holding one of its units, so at most `capacity` reads
/// are in flight at any instant, however deep the recursion fans out.
pub struct ConcurrencyLimiter {
    capacity: u64,
    in_flight: u64,
}

impl ConcurrencyLimiter {
    /// How many directory reads may run at once.
    pub closed spec fn capacity(self) -> u64 {
        self.capacity
    }

    /// How many directory reads hold a unit right now.
    pub closed spec fn in_flight(self) -> u64 {
        self.in_flight
    }

    /// No value of this type ever has more reads in flight than its capacity.
    #[verifier::type_invariant]
    pub closed spec fn bounded(self) -> bool {
        self.in_flight <= self.capacity
    }

    /// A fresh limiter with every unit free.
    pub fn new(capacity: u64) -> (r: Self)
        ensures
            r.capacity() == capacity,
            r.in_flight() == 0,
    {
        ConcurrencyLimiter { capacity, in_flight: 0 }
    }

    /// Take one unit if any is free; a caller that gets `false` must wait
    /// and try again, so a read never starts beyond the bound.
    pub fn try_acquire(&mut self) -> (ok: bool)
        ensures
            final(self).capacity() == old(self).capacity(),
            ok == (old(self).in_flight() < old(self).capacity()),
            ok ==> final(self).in_flight() == old(self).in_flight() + 1,
            !ok ==> final(self).in_flight() == old(self).in_flight(),
    {
        if self.in_flight < self.capacity {
            self.in_flight = self.in_flight + 1;
            true
        } else {
            false
        }
    }

    /// Give a unit back once the directory read has returned, before the
    /// subtree's children are awaited, so deep recursion cannot starve the
    /// limiter. Giving back a unit that was never taken changes nothing.
    pub fn release(&mut self)
        ensures
            final(self).capacity() == old(self).capacity(),
            old(self).in_flight() > 0 ==> final(self).in_flight() == old(self).in_flight() - 1,
            old(self).in_flight() == 0 ==> final(self).in_flight() == 0,
    {
        proof {
            use_type_invariant(&*self);
        }
        if self.in_flight > 0 {
            self.in_flight = self.in_flight - 1;
        }
    }

    /// How many units are held, readable at run time so a driver can decide
    /// whether waiting is needed. Whatever was acquired and released so far,
    /// the reads in flight never exceed the capacity.
    pub fn held(&self) -> (n: u64)
        ensures
            n == self.in_flight(),
            n <= self.capacity(),
    {
        proof {
            use_type_invariant(self);
        }
        self.in_flight
    }
}

} // verus!
