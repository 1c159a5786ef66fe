use vstd::prelude::*;

verus! {

/// A tally of payload bytes moved by one session, against the size that the
/// handshake announced.
///
/// The tally only grows, and never passes the announced size: a chunk that
/// would carry it past the total is refused and leaves the tally unchanged.
pub struct Progress {
    pub value: u64,
    pub total: u64,
}

impl Progress {
    pub open spec fn wf(&self) -> bool {
        self.value <= self.total
    }

    /// True once every announced byte has been counted.
    pub open spec fn spec_is_complete(&self) -> bool {
        self.value == self.total
    }

    pub fn new(total: u64) -> (r: Progress)
        ensures
            r.value == 0,
            r.total == total,
            r.wf(),
    {
        Progress { value: 0, total }
    }

    pub fn value(&self) -> (r: u64)
        ensures
            r == self.value,
    {
        self.value
    }

    pub fn total(&self) -> (r: u64)
        ensures
            r == self.total,
    {
        self.total
    }

    /// Bytes still owed before the tally reaches the total.
    pub fn remaining(&self) -> (r: u64)
        requires
            self.wf(),
        ensures
            r == self.total - self.value,
    {
        self.total - self.value
    }

    #[verifier::when_used_as_spec(spec_is_complete)]
    pub fn is_complete(&self) -> (r: bool)
        ensures
            r == self.spec_is_complete(),
    {
        self.value == self.total
    }

    /// Counts `n` more bytes after a completed sink write. Returns `false`,
    /// and counts nothing, when that would pass the announced total.
    pub fn advance(&mut self, n: u64) -> (r: bool)
        requires
            old(self).wf(),
        ensures
            r == (n <= old(self).total - old(self).value),
            final(self).total == old(self).total,
            final(self).value == if r { old(self).value + n } else { old(self).value as int },
            final(self).value >= old(self).value,
            final(self).wf(),
    {
        if n <= self.total - self.value {
            self.value = self.value + n;
            true
        } else {
            false
        }
    }
}

/// Number of `chunk`-sized pieces that `size` bytes make, the last one
/// possibly short.
pub open spec fn spec_chunk_count(size: nat, chunk: nat) -> nat
    recommends
        chunk > 0,
{
    if size % chunk == 0 {
        size / chunk
    } else {
        size / chunk + 1
    }
}

/// Number of chunks of `chunk` bytes needed to move `size` bytes; this never
/// overflows, also for the largest sizes.
pub fn chunk_count(size: u64, chunk: u64) -> (r: u64)
    requires
        chunk > 0,
    ensures
        r == spec_chunk_count(size as nat, chunk as nat),
        r as int * chunk >= size,
        (r as int - 1) * chunk < size,
{
    let q = size / chunk;
    let rem = size % chunk;
    proof {
        assert(size == q * chunk + rem && 0 <= rem < chunk) by (nonlinear_arith)
            requires
                q == size / chunk,
                rem == size % chunk,
                chunk > 0,
        ;
        if rem != 0 {
            assert(q * 2 <= q * chunk) by (nonlinear_arith)
                requires
                    chunk >= 2,
                    q >= 0,
            ;
        }
        assert((q + 1) * chunk == q * chunk + chunk) by (nonlinear_arith);
        assert((q - 1) * chunk == q * chunk - chunk) by (nonlinear_arith);
    }
    if rem == 0 {
        q
    } else {
        q + 1
    }
}

} // verus!
