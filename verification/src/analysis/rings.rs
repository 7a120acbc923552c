//! Sliding windows of trades: where a window of `size` slots writes each new trade
//! and where it reads its oldest and newest ones.
//!
//! Indices grow by one per trade and are reduced modulo the size; the arithmetic
//! on them wraps around as `usize` does.
use vstd::prelude::*;

verus! {

/// The bookkeeping of a sliding window: how many trades it has taken in, whether it
/// has been filled once, and its size.
pub struct RingCursor {
    index: usize,
    full: bool,
    size: usize,
}

impl RingCursor {
    pub closed spec fn spec_index(&self) -> usize {
        self.index
    }

    pub closed spec fn spec_full(&self) -> bool {
        self.full
    }

    pub closed spec fn spec_size(&self) -> usize {
        self.size
    }

    /// The window is full exactly when it has a size and has taken in that many
    /// trades or more.
    pub open spec fn wf(&self) -> bool {
        self.spec_full() == (self.spec_size() > 0 && self.spec_index() >= self.spec_size())
    }

    /// An empty window of `size` slots.
    pub fn initialize(size: usize) -> (c: Self)
        ensures
            c.spec_index() == 0,
            !c.spec_full(),
            c.spec_size() == size,
            c.wf(),
    {
        RingCursor { index: 0, full: false, size }
    }

    /// Whether the window has been filled once.
    pub fn full(&self) -> (r: bool)
        ensures
            r == self.spec_full(),
    {
        self.full
    }

    /// The number of trades taken in.
    pub fn index(&self) -> (r: usize)
        ensures
            r == self.spec_index(),
    {
        self.index
    }

    /// The number of slots.
    pub fn size(&self) -> (r: usize)
        ensures
            r == self.spec_size(),
    {
        self.size
    }

    /// The slot that the next trade is written to.
    pub fn write_slot(&self) -> (slot: usize)
        requires
            self.spec_size() > 0,
        ensures
            slot == self.spec_index() % self.spec_size(),
            slot < self.spec_size(),
    {
        self.index % self.size
    }

    /// Counts one more trade; the window becomes full when the count reaches its size.
    pub fn advance(&mut self)
        requires
            old(self).wf(),
            old(self).spec_size() > 0,
            old(self).spec_index() < usize::MAX,
        ensures
            final(self).spec_index() == old(self).spec_index() + 1,
            final(self).spec_size() == old(self).spec_size(),
            final(self).spec_full() == (old(self).spec_full() || final(self).spec_index()
                == old(self).spec_size()),
            final(self).wf(),
    {
        self.index = self.index + 1;
        if self.index == self.size {
            self.full = true;
        }
    }

    /// The slots of the window's two ends: the one written next, then the newest.
    pub fn endpoints(&self) -> (r: (usize, usize))
        requires
            self.spec_size() > 0,
            self.spec_index() != 0,
        ensures
            r.0 == self.spec_index() % self.spec_size(),
            r.1 == (self.spec_index() - 1) as usize % self.spec_size(),
    {
        (self.index % self.size, (self.index - 1) % self.size)
    }

    /// The slot read as the oldest: the first slot when exactly `size` trades were
    /// taken in, else the one after the slot written next.
    pub fn oldest(&self) -> (slot: usize)
        requires
            self.spec_size() > 0,
        ensures
            slot == (if self.spec_index() == self.spec_size() {
                0
            } else {
                self.spec_index().wrapping_add(1) % self.spec_size()
            }),
            slot < self.spec_size(),
    {
        if self.index == self.size {
            return 0;
        }
        self.index.wrapping_add(1) % self.size
    }

    /// The slot of the newest trade.
    pub fn most_recent(&self) -> (slot: usize)
        requires
            self.spec_size() > 0,
        ensures
            slot == self.spec_index().wrapping_sub(1) % self.spec_size(),
            slot < self.spec_size(),
    {
        self.index.wrapping_sub(1) % self.size
    }

    /// The slots that the estimate of the second derivative reads: the two ends of
    /// the older half window, then those of the newer one, each later slot first.
    pub fn second_derivative_slots(&self) -> (r: (usize, usize, usize, usize))
        requires
            self.spec_size() / 2 != 0,
        ensures
            ({
                let step = self.spec_size() / 2;
                let i = self.spec_index();
                let j = i.wrapping_sub((step + 1) as usize);
                &&& r.0 == i.wrapping_add(step) % self.spec_size()
                &&& r.1 == i % self.spec_size()
                &&& r.2 == j.wrapping_add(step) % self.spec_size()
                &&& r.3 == j % self.spec_size()
            }),
            r.0 < self.spec_size(),
            r.1 < self.spec_size(),
            r.2 < self.spec_size(),
            r.3 < self.spec_size(),
    {
        let step = self.size / 2;
        let i = self.index;
        let j = i.wrapping_sub(step + 1);
        (
            i.wrapping_add(step) % self.size,
            i % self.size,
            j.wrapping_add(step) % self.size,
            j % self.size,
        )
    }
}

} // verus!
