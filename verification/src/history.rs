//! The reconstruction budget: at most [`MAX_CONCURRENT_RECONSTRUCTIONS`]
//! historical reconstructions at once, the surplus refused outright rather
//! than queued. A permit is taken before a reconstruction starts and handed
//! back when it ends.

use vstd::prelude::*;

verus! {

/// Concurrent historical reconstructions allowed at once.
pub const MAX_CONCURRENT_RECONSTRUCTIONS: usize = 2;

/// A counting try-acquire with no queue and no blocking: `available` of
/// `capacity` permits are free.
#[derive(Debug)]
pub struct ReconstructPermits {
    available: usize,
    capacity: usize,
}

/// One held permit; handing it back releases the slot.
#[derive(Debug)]
pub struct ReconstructPermit {
    taken: (),
}

impl ReconstructPermits {
    /// The free permits.
    pub closed spec fn free(&self) -> nat {
        self.available as nat
    }

    /// The budget the pool was made with.
    pub closed spec fn cap(&self) -> nat {
        self.capacity as nat
    }

    #[verifier::type_invariant]
    closed spec fn within(&self) -> bool {
        self.available <= self.capacity
    }

    /// A pool of `n` permits, all free.
    pub fn new(n: usize) -> (p: ReconstructPermits)
        ensures
            p.free() == n,
            p.cap() == n,
    {
        ReconstructPermits { available: n, capacity: n }
    }

    /// One permit, or `None` right now — never blocks.
    pub fn try_acquire(&mut self) -> (r: Option<ReconstructPermit>)
        ensures
            final(self).cap() == old(self).cap(),
            match acquired(old(self).free()) {
                Some(l) => r is Some && final(self).free() == l,
                None => r is None && final(self).free() == old(self).free(),
            },
            final(self).free() <= final(self).cap(),
    {
        proof {
            use_type_invariant(&*self);
        }
        if self.available == 0 {
            None
        } else {
            self.available = self.available - 1;
            Some(ReconstructPermit { taken: () })
        }
    }

    /// Hand a held permit back: exactly one slot reopens.
    pub fn release(&mut self, permit: ReconstructPermit)
        requires
            old(self).free() < old(self).cap(),
        ensures
            final(self).cap() == old(self).cap(),
            final(self).free() == old(self).free() + 1,
    {
        let ReconstructPermit { taken: () } = permit;
        self.available = self.available + 1;
    }

    /// The free permits, at run time.
    pub fn available(&self) -> (n: usize)
        ensures
            n == self.free(),
    {
        self.available
    }
}

/// One try-acquire on a pool with `free` permits free: the permits left
/// after a success, or `None` for a refusal, which changes nothing.
pub open spec fn acquired(free: nat) -> Option<nat> {
    if free > 0 {
        Some((free - 1) as nat)
    } else {
        None
    }
}

/// `k` try-acquires in a row, none handed back: how many succeed, and the
/// permits left free.
pub open spec fn acquire_run(free: nat, k: nat) -> (nat, nat)
    decreases k,
{
    if k == 0 {
        (0, free)
    } else {
        let (won, left) = acquire_run(free, (k - 1) as nat);
        match acquired(left) {
            Some(l) => (won + 1, l),
            None => (won, left),
        }
    }
}

/// The budget is exact: of `k` try-acquires on a pool with `n` free, the
/// first `min(n, k)` succeed and every later one is refused.
pub proof fn law_budget_is_exact(n: nat, k: nat)
    ensures
        acquire_run(n, k) == (if k <= n {
            (k, (n - k) as nat)
        } else {
            (n, 0nat)
        }),
    decreases k,
{
    if k > 0 {
        law_budget_is_exact(n, (k - 1) as nat);
    }
}

/// A permit taken and handed back leaves the pool as it was.
pub proof fn law_release_undoes_acquire(free: nat)
    requires
        free > 0,
    ensures
        acquired(free) matches Some(l) && l + 1 == free,
{
}

/// The history surface's budget.
#[derive(Debug)]
pub struct History {
    permits: ReconstructPermits,
}

impl History {
    /// The free reconstruction permits.
    pub closed spec fn free(&self) -> nat {
        self.permits.free()
    }

    /// The budget.
    pub closed spec fn cap(&self) -> nat {
        self.permits.cap()
    }

    /// A history surface with the whole budget free.
    pub fn new() -> (h: History)
        ensures
            h.free() == MAX_CONCURRENT_RECONSTRUCTIONS,
            h.cap() == MAX_CONCURRENT_RECONSTRUCTIONS,
    {
        History { permits: ReconstructPermits::new(MAX_CONCURRENT_RECONSTRUCTIONS) }
    }

    /// Hold one permit exactly as an in-flight reconstruction does, or
    /// `None` when all of them are taken. The slot comes back only through
    /// [`History::release_permit`]; a reconstruction itself runs through
    /// [`History::with_reconstruction`], which hands it back on every path.
    pub fn try_hold_permit(&mut self) -> (r: Option<ReconstructPermit>)
        ensures
            final(self).cap() == old(self).cap(),
            match acquired(old(self).free()) {
                Some(l) => r is Some && final(self).free() == l,
                None => r is None && final(self).free() == old(self).free(),
            },
            final(self).free() <= final(self).cap(),
    {
        self.permits.try_acquire()
    }

    /// Run one reconstruction step under a permit — THE form a
    /// reconstruction takes: `None`, the step never run, when the whole
    /// budget is taken; otherwise the step's answer, with its permit handed
    /// back on the way out, whatever the step answered. The budget is the
    /// same after the call as before it.
    pub fn with_reconstruction<T, F: FnOnce() -> T>(&mut self, step: F) -> (r: Option<T>)
        requires
            call_requires(step, ()),
        ensures
            final(self).free() == old(self).free(),
            final(self).cap() == old(self).cap(),
            r is Some <==> old(self).free() > 0,
            r matches Some(v) ==> call_ensures(step, (), v),
    {
        proof {
            use_type_invariant(&self.permits);
        }
        match self.permits.try_acquire() {
            None => None,
            Some(permit) => {
                let v = step();
                self.permits.release(permit);
                Some(v)
            },
        }
    }

    /// A held permit handed back.
    pub fn release_permit(&mut self, permit: ReconstructPermit)
        requires
            old(self).free() < old(self).cap(),
        ensures
            final(self).cap() == old(self).cap(),
            final(self).free() == old(self).free() + 1,
    {
        self.permits.release(permit)
    }
}

} // verus!
