//! The schedule of the exposure strategy: hour-long windows cut into epochs, one
//! price partition per epoch.
use vstd::prelude::*;

verus! {

/// The number of partitions, and of epochs in a window.
pub const TIMESTEPS: usize = 6;

/// The length of a window in seconds: one hour.
pub const WINDOW: usize = 3600;

/// The length of an epoch in seconds.
pub fn epoch_seconds() -> (s: u64)
    ensures
        s == WINDOW / TIMESTEPS,
{
    (WINDOW / TIMESTEPS) as u64
}

/// The count of epochs that have passed, over `timesteps` partitions.
pub struct EpochClock {
    epoch: usize,
    timesteps: usize,
}

impl EpochClock {
    pub closed spec fn spec_epoch(&self) -> usize {
        self.epoch
    }

    pub closed spec fn spec_timesteps(&self) -> usize {
        self.timesteps
    }

    /// A clock at epoch zero.
    pub fn new(timesteps: usize) -> (c: Self)
        ensures
            c.spec_epoch() == 0,
            c.spec_timesteps() == timesteps,
    {
        EpochClock { epoch: 0, timesteps }
    }

    /// The number of epochs that have ended.
    pub fn epoch(&self) -> (r: usize)
        ensures
            r == self.spec_epoch(),
    {
        self.epoch
    }

    /// Ends an epoch: the partition that the next one fills, and whether a full
    /// window of partitions has been gathered, so that trades can be made.
    pub fn tick(&mut self) -> (r: (usize, bool))
        requires
            old(self).spec_timesteps() > 0,
            old(self).spec_epoch() < usize::MAX,
        ensures
            final(self).spec_epoch() == old(self).spec_epoch() + 1,
            final(self).spec_timesteps() == old(self).spec_timesteps(),
            r.0 == final(self).spec_epoch() % final(self).spec_timesteps(),
            r.0 < final(self).spec_timesteps(),
            r.1 == (final(self).spec_epoch() >= final(self).spec_timesteps()),
    {
        self.epoch = self.epoch + 1;
        (self.epoch % self.timesteps, self.epoch >= self.timesteps)
    }
}

/// The partitions that a dip or a rise is read from at epoch `epoch`: the newest,
/// the oldest, and the one after the oldest.
pub fn partition_slots(epoch: usize, n: usize) -> (r: (usize, usize, usize))
    requires
        0 < n <= epoch,
    ensures
        r.0 == (epoch - 1) as usize % n,
        r.1 == (epoch - n) as usize % n,
        r.2 == (epoch - (n - 1)) as usize % n,
        r.0 < n && r.1 < n && r.2 < n,
{
    ((epoch - 1) % n, (epoch - n) % n, (epoch - (n - 1)) % n)
}

/// A trade opened at epoch `opened` is due to be closed at `epoch` once a full
/// window of epochs has passed.
pub fn trade_expired(epoch: usize, opened: usize, timesteps: usize) -> (r: bool)
    requires
        opened <= epoch,
    ensures
        r == (epoch - opened >= timesteps),
{
    epoch - opened >= timesteps
}

} // verus!
