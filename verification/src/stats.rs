//! Statistics of a stream that can be followed from anywhere while it is sent.

use std::sync::atomic::AtomicU32;
use std::sync::atomic::AtomicU64;
use std::sync::atomic::Ordering;
use std::sync::Arc;

use vstd::prelude::*;

verus! {

/// How many frames were sent, which is the number of the next one, and how many bytes of
/// payload.
#[derive(Clone)]
pub struct StatsHandle {
    frame_id: Arc<AtomicU32>,
    octet_count: Arc<AtomicU64>,
}

impl StatsHandle {
    /// A handle to which nothing was published: both counts are zero. They stand in atomics,
    /// whose values belong to no contract.
    fn new() -> StatsHandle {
        StatsHandle { frame_id: Arc::new(AtomicU32::new(0)), octet_count: Arc::new(AtomicU64::new(0)) }
    }

    /// The frame number and the byte count that the sender last published, each as it stood
    /// when it was read: the sender may be publishing at the same time. Both counts wrap, so
    /// any two numbers can come back.
    pub fn snapshot(&self) -> (u32, u64) {
        (self.frame_id.load(Ordering::Relaxed), self.octet_count.load(Ordering::Relaxed))
    }
}

/// The one that publishes statistics, with what it published last.
pub struct Publisher {
    handle: StatsHandle,
    frame_id: u32,
    octet_count: u64,
}

impl Publisher {
    /// The handle that follows what is published.
    pub closed spec fn handle(&self) -> StatsHandle {
        self.handle
    }

    /// The frame number and the byte count that were published last.
    pub closed spec fn last(&self) -> (u32, u64) {
        (self.frame_id, self.octet_count)
    }

    /// A publisher that has published that nothing was sent.
    pub fn new() -> (publisher: Publisher)
        ensures
            publisher.last() == (0u32, 0u64),
    {
        Publisher { handle: StatsHandle::new(), frame_id: 0, octet_count: 0 }
    }

    /// Publishes a frame number and a byte count.
    pub fn publish(&mut self, frame_id: u32, octet_count: u64)
        ensures
            final(self).last() == (frame_id, octet_count),
            final(self).handle() == old(self).handle(),
    {
        self.handle.frame_id.store(frame_id, Ordering::Relaxed);
        self.handle.octet_count.store(octet_count, Ordering::Relaxed);
        self.frame_id = frame_id;
        self.octet_count = octet_count;
    }

    /// What was published last.
    pub fn recall(&self) -> (last: (u32, u64))
        ensures
            last == self.last(),
    {
        (self.frame_id, self.octet_count)
    }

    /// A handle that follows what is published.
    pub fn follow(&self) -> (handle: StatsHandle)
        ensures
            handle == self.handle(),
    {
        StatsHandle {
            frame_id: Arc::clone(&self.handle.frame_id),
            octet_count: Arc::clone(&self.handle.octet_count),
        }
    }
}

} // verus!
