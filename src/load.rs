//! A load worker's buffer: decoded records gather until a batch is full,
//! and the batch is then handed to the quad store in one call.
use vstd::prelude::*;
use crate::record::Decoded;

verus! {

/// Records per batch written to the quad store.
pub const BATCH_SIZE: usize = 50000;

/// Capacity of the channel between the reader and the workers.
pub const CHANNEL_CAPACITY: usize = 1000;

/// Number of load workers.
pub const NUM_WORKERS: usize = 4;

pub struct Batcher {
    records: Vec<Decoded>,
    cap: usize,
}

impl Batcher {
    pub closed spec fn pending(&self) -> Seq<Decoded> {
        self.records@
    }

    pub closed spec fn capacity(&self) -> nat {
        self.cap as nat
    }

    /// Fewer records wait than a batch holds.
    pub closed spec fn wf(&self) -> bool {
        self.cap > 0 && self.records@.len() < self.cap
    }

    pub fn new(cap: usize) -> (r: Batcher)
        requires
            cap > 0,
        ensures
            r.wf(),
            r.pending().len() < r.capacity(),
            r.pending().len() == 0,
            r.capacity() == cap,
    {
        Batcher { records: Vec::new(), cap }
    }

    /// A well-formed buffer holds fewer records than a batch.
    pub proof fn lemma_below_capacity(&self)
        requires
            self.wf(),
        ensures
            self.pending().len() < self.capacity(),
    {
    }

    pub fn len(&self) -> (r: usize)
        ensures
            r == self.pending().len(),
    {
        self.records.len()
    }

    /// Adds a record; when that fills a batch, hands the batch back and
    /// starts an empty one.
    pub fn push(&mut self, r: Decoded) -> (full: Option<Vec<Decoded>>)
        requires
            old(self).wf(),
        ensures
            final(self).wf(),
            final(self).pending().len() < final(self).capacity(),
            final(self).capacity() == old(self).capacity(),
            old(self).pending().len() + 1 == old(self).capacity() ==> (full matches Some(b) && b@
                == old(self).pending().push(r)) && final(self).pending().len() == 0,
            old(self).pending().len() + 1 < old(self).capacity() ==> full is None && final(self).pending()
                == old(self).pending().push(r),
    {
        self.records.push(r);
        if self.records.len() >= self.cap {
            let mut out: Vec<Decoded> = Vec::new();
            std::mem::swap(&mut self.records, &mut out);
            Some(out)
        } else {
            None
        }
    }

    /// Hands back what waits, if anything, and leaves the buffer empty.
    pub fn take_rest(&mut self) -> (rest: Option<Vec<Decoded>>)
        requires
            old(self).wf(),
        ensures
            final(self).wf(),
            final(self).pending().len() < final(self).capacity(),
            final(self).capacity() == old(self).capacity(),
            final(self).pending().len() == 0,
            old(self).pending().len() == 0 ==> rest is None,
            old(self).pending().len() > 0 ==> (rest matches Some(b) && b@ == old(self).pending()),
    {
        if self.records.len() == 0 {
            None
        } else {
            let mut out: Vec<Decoded> = Vec::new();
            std::mem::swap(&mut self.records, &mut out);
            Some(out)
        }
    }
}

} // verus!
