use vstd::prelude::*;

use crate::record::FilenodeAccessRecord;
use crate::record::RecordModel;

verus! {

/// Bounded, best-effort channel between the recording decorator and the
/// snapshot builder. Sending never blocks: when the buffer is full, or the
/// channel is already closed, the record is silently dropped so that the
/// primary lookup path is never delayed. Receiving pops records in arrival
/// order; the sender side is released by closing the channel.
pub struct RecordChannel {
    capacity: usize,
    buffer: Vec<FilenodeAccessRecord>,
    closed: bool,
}

impl RecordChannel {
    /// The records currently buffered, oldest first.
    pub closed spec fn contents(self) -> Seq<RecordModel> {
        self.buffer@.map_values(|r: FilenodeAccessRecord| r@)
    }

    /// The fixed capacity the channel was created with.
    pub closed spec fn cap(self) -> nat {
        self.capacity as nat
    }

    /// Whether all sending handles have been released.
    pub closed spec fn is_closed(self) -> bool {
        self.closed
    }

    /// The buffer never holds more records than the capacity.
    pub closed spec fn wf(self) -> bool {
        self.buffer@.len() <= self.capacity
    }

    pub fn new(capacity: usize) -> (c: RecordChannel)
        ensures
            c.wf(),
            c.contents() == Seq::<RecordModel>::empty(),
            c.cap() == capacity as nat,
            !c.is_closed(),
    {
        let c = RecordChannel { capacity, buffer: Vec::new(), closed: false };
        proof {
            assert(c.contents() =~= Seq::<RecordModel>::empty());
        }
        c
    }

    /// Non-blocking attempted send. The record is accepted exactly when the
    /// channel is still open and has a free slot; otherwise it is dropped and
    /// the channel is left unchanged.
    pub fn try_send(&mut self, record: FilenodeAccessRecord) -> (accepted: bool)
        requires
            old(self).wf(),
        ensures
            final(self).wf(),
            final(self).cap() == old(self).cap(),
            final(self).is_closed() == old(self).is_closed(),
            accepted == (!old(self).is_closed() && old(self).contents().len() < old(self).cap()),
            accepted ==> final(self).contents() == old(self).contents().push(record@),
            !accepted ==> final(self).contents() == old(self).contents(),
    {
        if !self.closed && self.buffer.len() < self.capacity {
            let ghost before = self.contents();
            self.buffer.push(record);
            proof {
                assert(self.contents() =~= before.push(record@));
            }
            true
        } else {
            false
        }
    }

    /// Release the sending side: no record is accepted afterwards.
    pub fn close(&mut self)
        requires
            old(self).wf(),
        ensures
            final(self).wf(),
            final(self).cap() == old(self).cap(),
            final(self).is_closed(),
            final(self).contents() == old(self).contents(),
    {
        self.closed = true;
    }

    /// Pop the oldest buffered record, if any.
    pub fn try_recv(&mut self) -> (r: Option<FilenodeAccessRecord>)
        requires
            old(self).wf(),
        ensures
            final(self).wf(),
            final(self).cap() == old(self).cap(),
            final(self).is_closed() == old(self).is_closed(),
            old(self).contents().len() == 0 ==> (r is None && final(self).contents()
                == old(self).contents()),
            old(self).contents().len() > 0 ==> (r matches Some(rec) && rec@
                == old(self).contents()[0] && final(self).contents() == old(self).contents().skip(
                1,
            )),
    {
        if self.buffer.len() > 0 {
            let ghost before = self.contents();
            let rec = self.buffer.remove(0);
            proof {
                assert(self.contents() =~= before.skip(1));
            }
            Some(rec)
        } else {
            None
        }
    }

    /// How many records are currently buffered.
    pub fn len(&self) -> (n: usize)
        ensures
            n == self.contents().len(),
    {
        self.buffer.len()
    }
}

} // verus!
