use vstd::prelude::*;

verus! {

/// A fixed pool of permits that bounds how many sessions run at once.
///
/// Taking a permit never fails outright: a caller that finds the pool empty
/// waits for a release and asks again.
pub struct Gate {
    capacity: usize,
    held: usize,
}

impl Gate {
    pub closed spec fn spec_capacity(&self) -> nat {
        self.capacity as nat
    }

    /// Permits handed out and not yet returned.
    pub closed spec fn spec_held(&self) -> nat {
        self.held as nat
    }

    pub closed spec fn wf(&self) -> bool {
        self.held <= self.capacity
    }

    pub fn new(capacity: usize) -> (r: Gate)
        ensures
            r.wf(),
            r.spec_capacity() == capacity,
            r.spec_held() == 0,
    {
        Gate { capacity, held: 0 }
    }

    pub fn capacity(&self) -> (r: usize)
        ensures
            r == self.spec_capacity(),
    {
        self.capacity
    }

    pub fn held(&self) -> (r: usize)
        ensures
            r == self.spec_held(),
    {
        self.held
    }

    /// Permits that can still be taken without waiting.
    pub fn available(&self) -> (r: usize)
        requires
            self.wf(),
        ensures
            r == self.spec_capacity() - self.spec_held(),
    {
        self.capacity - self.held
    }

    /// Takes a permit when one is free; `false` means the caller must wait.
    pub fn try_acquire(&mut self) -> (r: bool)
        requires
            old(self).wf(),
        ensures
            final(self).wf(),
            r == (old(self).spec_held() < old(self).spec_capacity()),
            final(self).spec_capacity() == old(self).spec_capacity(),
            final(self).spec_held() == if r {
                old(self).spec_held() + 1
            } else {
                old(self).spec_held()
            },
    {
        if self.held < self.capacity {
            self.held = self.held + 1;
            true
        } else {
            false
        }
    }

    /// Returns a permit to the pool.
    pub fn release(&mut self)
        requires
            old(self).wf(),
            old(self).spec_held() > 0,
        ensures
            final(self).wf(),
            final(self).spec_capacity() == old(self).spec_capacity(),
            final(self).spec_held() == old(self).spec_held() - 1,
    {
        self.held = self.held - 1;
    }
}

/// A well-formed gate never has more permits out than its capacity; every
/// operation on a gate keeps it well-formed, so this holds at every point of
/// a sender's life.
pub proof fn lemma_permits_bounded(g: Gate)
    requires
        g.wf(),
    ensures
        g.spec_held() <= g.spec_capacity(),
{
}

/// Relies on `num_cpus::get`: the number of CPUs this process may use.
#[verifier::external_body]
fn cpu_count() -> (r: usize) {
    num_cpus::get()
}

/// How many sessions to admit at once, and how many copy workers each runs:
/// the CPUs this process may use, and never fewer than one.
pub fn parallelism() -> (r: usize)
    ensures
        r >= 1,
{
    at_least_one(cpu_count())
}

/// `n`, raised to one when it is zero.
pub fn at_least_one(n: usize) -> (r: usize)
    ensures
        r == if n == 0 {
            1
        } else {
            n
        },
{
    if n == 0 {
        1
    } else {
        n
    }
}

} // verus!
