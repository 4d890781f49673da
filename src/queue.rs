//! Outbound scheduling: a priority queue for handshake and control frames
//! and a data queue for chunks. Data is dropped when its queue is full;
//! control frames never are.
use vstd::prelude::*;

verus! {

/// Default priority queue capacity, in frames.
pub const PRIORITY_CAPACITY: usize = 1000;

/// Default data queue capacity, in frames.
pub const DATA_CAPACITY: usize = 200_000;

pub struct OutboundQueues {
    pub priority: Vec<Vec<u8>>,
    pub data: Vec<Vec<u8>>,
    pub priority_capacity: usize,
    pub data_capacity: usize,
    /// Data frames refused because their queue was full.
    pub dropped_data: u64,
}

impl OutboundQueues {
    pub fn new(priority_capacity: usize, data_capacity: usize) -> (r: OutboundQueues)
        ensures
            r.priority@.len() == 0,
            r.data@.len() == 0,
            r.priority_capacity == priority_capacity,
            r.data_capacity == data_capacity,
            r.dropped_data == 0,
    {
        OutboundQueues {
            priority: Vec::new(),
            data: Vec::new(),
            priority_capacity,
            data_capacity,
            dropped_data: 0,
        }
    }

    /// Queues a control frame. When the priority queue is full the frame is
    /// handed back for the caller to offer again after draining; it is never
    /// dropped.
    pub fn offer_control(&mut self, frame: Vec<u8>) -> (r: Result<(), Vec<u8>>)
        ensures
            final(self).data@ == old(self).data@,
            final(self).dropped_data == old(self).dropped_data,
            final(self).priority_capacity == old(self).priority_capacity,
            final(self).data_capacity == old(self).data_capacity,
            old(self).priority@.len() < old(self).priority_capacity ==> r is Ok && final(self).priority@ == old(self).priority@.push(frame),
            old(self).priority@.len() >= old(self).priority_capacity ==> r == Err::<(), Vec<u8>>(
                frame,
            ) && final(self).priority@ == old(self).priority@,
    {
        if self.priority.len() < self.priority_capacity {
            self.priority.push(frame);
            Ok(())
        } else {
            Err(frame)
        }
    }

    /// Queues a data frame, or drops it when the data queue is full. The
    /// control queue is never touched.
    pub fn offer_data(&mut self, frame: Vec<u8>) -> (r: bool)
        ensures
            final(self).priority@ == old(self).priority@,
            final(self).priority_capacity == old(self).priority_capacity,
            final(self).data_capacity == old(self).data_capacity,
            r == (old(self).data@.len() < old(self).data_capacity),
            r ==> final(self).data@ == old(self).data@.push(frame) && final(self).dropped_data
                == old(self).dropped_data,
            !r ==> final(self).data@ == old(self).data@ && final(self).dropped_data
                == crate::stats::sat_add(old(self).dropped_data, 1),
    {
        if self.data.len() < self.data_capacity {
            self.data.push(frame);
            true
        } else {
            self.dropped_data = self.dropped_data.saturating_add(1);
            false
        }
    }

    /// The next frame to write: the oldest control frame if any, else the
    /// oldest data frame.
    pub fn next(&mut self) -> (r: Option<Vec<u8>>)
        ensures
            final(self).priority_capacity == old(self).priority_capacity,
            final(self).data_capacity == old(self).data_capacity,
            final(self).dropped_data == old(self).dropped_data,
            old(self).priority@.len() > 0 ==> r == Some(old(self).priority@[0]) && final(self).priority@ == old(self).priority@.drop_first() && final(self).data@ == old(self).data@,
            old(self).priority@.len() == 0 && old(self).data@.len() > 0 ==> r == Some(
                old(self).data@[0],
            ) && final(self).data@ == old(self).data@.drop_first() && final(self).priority@ == old(self).priority@,
            old(self).priority@.len() == 0 && old(self).data@.len() == 0 ==> r is None && final(self).priority@ == old(self).priority@ && final(self).data@ == old(self).data@,
    {
        if self.priority.len() > 0 {
            let f = self.priority.remove(0);
            assert(self.priority@ =~= old(self).priority@.drop_first());
            Some(f)
        } else if self.data.len() > 0 {
            let f = self.data.remove(0);
            assert(self.data@ =~= old(self).data@.drop_first());
            Some(f)
        } else {
            None
        }
    }
}

} // verus!
