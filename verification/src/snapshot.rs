use vstd::prelude::*;

use crate::channel::RecordChannel;
use crate::record::FilenodeAccessRecord;
use crate::record::RecordModel;

verus! {

/// Immutable collection of the reads captured during one warmup run, in
/// arrival order. Built exactly once per run and discarded after a
/// successful commit.
pub struct Snapshot {
    pub repo: u64,
    pub records: Vec<FilenodeAccessRecord>,
}

/// Mathematical model of a [`Snapshot`].
pub ghost struct SnapshotModel {
    pub repo: u64,
    pub records: Seq<RecordModel>,
}

impl View for Snapshot {
    type V = SnapshotModel;

    open spec fn view(&self) -> SnapshotModel {
        SnapshotModel {
            repo: self.repo,
            records: self.records@.map_values(|r: FilenodeAccessRecord| r@),
        }
    }
}

impl Snapshot {
    /// Drain the channel into a snapshot. Runs a single pass and terminates
    /// because the sending side has been released, so the buffered records
    /// are all there will ever be; completion depends only on channel
    /// closure, never on how the paired warmup ended. The snapshot holds
    /// exactly the channel's records, in arrival order.
    pub fn build(repo: u64, channel: RecordChannel) -> (s: Snapshot)
        requires
            channel.wf(),
            channel.is_closed(),
        ensures
            s@.repo == repo,
            s@.records == channel.contents(),
    {
        let mut ch = channel;
        let mut records: Vec<FilenodeAccessRecord> = Vec::new();
        proof {
            assert(records@.map_values(|r: FilenodeAccessRecord| r@) =~= Seq::<
                RecordModel,
            >::empty());
        }
        loop
            invariant
                ch.wf(),
                records@.map_values(|r: FilenodeAccessRecord| r@).add(ch.contents())
                    == channel.contents(),
            ensures
                records@.map_values(|r: FilenodeAccessRecord| r@) == channel.contents(),
            decreases ch.contents().len(),
        {
            let ghost drained = records@.map_values(|r: FilenodeAccessRecord| r@);
            let ghost remaining = ch.contents();
            match ch.try_recv() {
                Some(rec) => {
                    records.push(rec);
                    proof {
                        assert(records@.map_values(|r: FilenodeAccessRecord| r@) =~= drained.push(
                            rec@,
                        ));
                        assert(drained.push(remaining[0]).add(remaining.skip(1)) =~= drained.add(
                            remaining,
                        ));
                    }
                },
                None => {
                    proof {
                        assert(drained.add(remaining) =~= drained);
                    }
                    break ;
                },
            }
        }
        let s = Snapshot { repo, records };
        s
    }
}

} // verus!
