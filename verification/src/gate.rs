//! Counting admission gate: a permit pool that bounds how many
//! resolutions may run at once.

use vstd::prelude::*;

verus! {

/// A counting permit pool.  `available + held == limit` at all times;
/// neither counter is ever negative, so no more than `limit` permits are
/// ever held at once and no permit is ever duplicated or lost.
pub struct AdmissionGate {
    limit: usize,
    available: usize,
    held: usize,
}

impl AdmissionGate {
    /// Conservation invariant of the permit pool.
    pub closed spec fn wf(self) -> bool {
        self.available + self.held == self.limit
    }

    pub closed spec fn spec_limit(self) -> int {
        self.limit as int
    }

    pub closed spec fn spec_available(self) -> int {
        self.available as int
    }

    pub closed spec fn spec_held(self) -> int {
        self.held as int
    }

    /// A fresh pool has every permit available.
    pub fn new(limit: usize) -> (g: AdmissionGate)
        ensures
            g.wf(),
            g.spec_limit() == limit,
            g.spec_available() == limit,
            g.spec_held() == 0,
    {
        AdmissionGate { limit, available: limit, held: 0 }
    }

    pub fn limit(&self) -> (n: usize)
        ensures
            n == self.spec_limit(),
    {
        self.limit
    }

    pub fn available(&self) -> (n: usize)
        ensures
            n == self.spec_available(),
    {
        self.available
    }

    pub fn held(&self) -> (n: usize)
        ensures
            n == self.spec_held(),
    {
        self.held
    }

    /// Take one permit.  The caller must know a permit is free; the batch
    /// driver releases every permit it takes, so this always holds there.
    pub fn acquire(&mut self)
        requires
            old(self).wf(),
            old(self).spec_available() > 0,
        ensures
            final(self).wf(),
            final(self).spec_limit() == old(self).spec_limit(),
            final(self).spec_available() == old(self).spec_available() - 1,
            final(self).spec_held() == old(self).spec_held() + 1,
    {
        self.available = self.available - 1;
        self.held = self.held + 1;
    }

    /// Return one permit to the pool.
    pub fn release(&mut self)
        requires
            old(self).wf(),
            old(self).spec_held() > 0,
        ensures
            final(self).wf(),
            final(self).spec_limit() == old(self).spec_limit(),
            final(self).spec_available() == old(self).spec_available() + 1,
            final(self).spec_held() == old(self).spec_held() - 1,
    {
        self.available = self.available + 1;
        self.held = self.held - 1;
    }

    /// Permits are never over-issued: however the pool has been driven
    /// through `acquire` and `release`, the number of concurrently held
    /// permits never exceeds the configured limit.
    pub proof fn lemma_never_over_issued(self)
        requires
            self.wf(),
        ensures
            0 <= self.spec_held() <= self.spec_limit(),
            self.spec_available() + self.spec_held() == self.spec_limit(),
    {
    }
}

} // verus!
