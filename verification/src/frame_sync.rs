//! The bounded ring of per-frame synchronization slots.
//!
//! Each slot stands for one in-flight frame: an image-available signal, a
//! render-finished signal, and a CPU-observable completion fence. This
//! module models the fence state the render loop's correctness depends on:
//! a slot is *in flight* from the moment work is submitted against it until
//! the blocking wait observes its fence signaled. A slot must never be
//! reused while it is in flight.

use vstd::prelude::*;

verus! {

/// Upper bound on frames with outstanding GPU work; two slots let CPU and
/// GPU overlap while bounding how far the GPU may run ahead.
pub const MAX_FRAMES_IN_FLIGHT: usize = 2;

/// The fence states of the fixed slot ring.
pub struct FrameSyncSet {
    pub in_flight: Vec<bool>,
}

/// The ring always holds exactly `MAX_FRAMES_IN_FLIGHT` slots.
pub open spec fn sync_wf(s: FrameSyncSet) -> bool {
    s.in_flight@.len() == MAX_FRAMES_IN_FLIGHT
}

impl FrameSyncSet {
    /// A fresh ring: no slot has outstanding work.
    pub fn new() -> (r: FrameSyncSet)
        ensures
            sync_wf(r),
            forall|i: int| 0 <= i < MAX_FRAMES_IN_FLIGHT ==> !r.in_flight@[i],
    {
        let mut v: Vec<bool> = Vec::new();
        let mut i: usize = 0;
        while i < MAX_FRAMES_IN_FLIGHT
            invariant
                i <= MAX_FRAMES_IN_FLIGHT,
                v@.len() == i,
                forall|j: int| 0 <= j < i ==> !v@[j],
            decreases MAX_FRAMES_IN_FLIGHT - i,
        {
            v.push(false);
            i = i + 1;
        }
        FrameSyncSet { in_flight: v }
    }

    /// Whether the slot still guards GPU work not yet observed complete.
    pub fn is_in_flight(&self, slot: usize) -> (r: bool)
        requires
            sync_wf(*self),
            slot < MAX_FRAMES_IN_FLIGHT,
        ensures
            r == self.in_flight@[slot as int],
    {
        self.in_flight[slot]
    }

    /// Record that the blocking wait observed the slot's fence signaled:
    /// the slot's prior work is complete and the slot may be reused.
    pub fn mark_waited(&mut self, slot: usize)
        requires
            sync_wf(*old(self)),
            slot < MAX_FRAMES_IN_FLIGHT,
        ensures
            sync_wf(*final(self)),
            !final(self).in_flight@[slot as int],
            forall|i: int|
                0 <= i < MAX_FRAMES_IN_FLIGHT && i != slot ==> final(self).in_flight@[i] == old(
                    self,
                ).in_flight@[i],
    {
        self.in_flight.set(slot, false);
    }

    /// Record a submission against the slot. The slot must not be reused
    /// until its fence has signaled, so it must not be in flight.
    pub fn mark_submitted(&mut self, slot: usize)
        requires
            sync_wf(*old(self)),
            slot < MAX_FRAMES_IN_FLIGHT,
            !old(self).in_flight@[slot as int],
        ensures
            sync_wf(*final(self)),
            final(self).in_flight@[slot as int],
            forall|i: int|
                0 <= i < MAX_FRAMES_IN_FLIGHT && i != slot ==> final(self).in_flight@[i] == old(
                    self,
                ).in_flight@[i],
    {
        self.in_flight.set(slot, true);
    }
}

} // verus!
