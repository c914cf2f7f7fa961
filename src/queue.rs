//! The hand-off between a capture callback and the consumer loop: a bounded
//! first-in first-out queue of frames that drops, and counts, what arrives
//! while it is full rather than make the producer wait.
use std::collections::VecDeque;
use vstd::prelude::*;

verus! {

/// A bounded queue of frames in arrival order.
pub struct FrameQueue {
    capacity: usize,
    frames: VecDeque<Vec<i16>>,
    dropped: u64,
}

impl FrameQueue {
    /// The frames held, oldest first.
    pub closed spec fn held(&self) -> Seq<Seq<i16>> {
        self.frames@.map_values(|f: Vec<i16>| f@)
    }

    /// The most frames the queue holds.
    pub closed spec fn capacity_spec(&self) -> nat {
        self.capacity as nat
    }

    /// The number of frames dropped so far (it stops growing at `u64::MAX`).
    pub closed spec fn dropped_spec(&self) -> nat {
        self.dropped as nat
    }

    pub closed spec fn wf(&self) -> bool {
        self.frames@.len() <= self.capacity
    }

    /// An empty queue that holds at most `capacity` frames; there is none of
    /// capacity zero.
    pub fn new(capacity: usize) -> (r: Option<FrameQueue>)
        ensures
            capacity == 0 <==> r is None,
            r is Some ==> r->Some_0.wf() && r->Some_0.held().len() == 0
                && r->Some_0.capacity_spec() == capacity && r->Some_0.dropped_spec() == 0,
    {
        if capacity == 0 {
            return None;
        }
        let q = FrameQueue { capacity, frames: VecDeque::new(), dropped: 0 };
        assert(q.held() =~= Seq::<Seq<i16>>::empty());
        Some(q)
    }

    /// Offers a frame: it is queued when there is room, else dropped and
    /// counted. Returns whether it was queued.
    pub fn offer(&mut self, frame: Vec<i16>) -> (r: bool)
        requires
            old(self).wf(),
        ensures
            final(self).wf(),
            final(self).capacity_spec() == old(self).capacity_spec(),
            r == (old(self).held().len() < old(self).capacity_spec()),
            r ==> final(self).held() == old(self).held().push(frame@) && final(self).dropped_spec()
                == old(self).dropped_spec(),
            !r ==> final(self).held() == old(self).held() && final(self).dropped_spec() == (if old(
                self,
            ).dropped_spec() < u64::MAX {
                old(self).dropped_spec() + 1
            } else {
                old(self).dropped_spec()
            }),
    {
        if self.frames.len() < self.capacity {
            let ghost before = self.held();
            let ghost f = frame@;
            self.frames.push_back(frame);
            assert(self.held() =~= before.push(f));
            true
        } else {
            if self.dropped < u64::MAX {
                self.dropped = self.dropped + 1;
            }
            false
        }
    }

    /// Takes the oldest frame, if any.
    pub fn take(&mut self) -> (r: Option<Vec<i16>>)
        requires
            old(self).wf(),
        ensures
            final(self).wf(),
            final(self).capacity_spec() == old(self).capacity_spec(),
            final(self).dropped_spec() == old(self).dropped_spec(),
            old(self).held().len() == 0 ==> r is None && final(self).held() == old(self).held(),
            old(self).held().len() > 0 ==> r is Some && r->Some_0@ == old(self).held()[0]
                && final(self).held() == old(self).held().drop_first(),
    {
        let ghost before = self.held();
        let r = self.frames.pop_front();
        proof {
            if before.len() > 0 {
                assert(self.held() =~= before.drop_first());
            }
        }
        r
    }

    /// The number of frames held.
    pub fn len(&self) -> (r: usize)
        ensures
            r == self.held().len(),
    {
        self.frames.len()
    }

    /// The number of frames dropped so far.
    pub fn dropped(&self) -> (r: u64)
        ensures
            r == self.dropped_spec(),
    {
        self.dropped
    }
}

} // verus!
