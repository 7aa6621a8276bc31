//! Partitions: named, movable pointers to snapshots that keep their history.

use crate::model::snapshot::{copy_ids, ids_view};
use crate::model::types::{ContentId, PartitionId, PartitionType, PartitionTypeV, SnapshotId};
use vstd::prelude::*;

verus! {

/// A partition: a pointer to its current snapshot and every snapshot it has
/// pointed to, oldest first.
#[derive(Debug)]
pub struct Partition {
    /// Partition identifier.
    pub id: PartitionId,
    /// Partition name.
    pub name: String,
    /// The snapshot in effect.
    pub current_snapshot: SnapshotId,
    /// Every snapshot the partition has pointed to, oldest first.
    pub history: Vec<SnapshotId>,
    /// The kind of partition.
    pub partition_type: PartitionType,
}

/// The view of a partition.
pub struct PartitionV {
    pub id: Seq<u8>,
    pub name: Seq<char>,
    pub current: Seq<u8>,
    pub history: Seq<Seq<u8>>,
    pub partition_type: PartitionTypeV,
}

impl View for Partition {
    type V = PartitionV;

    open spec fn view(&self) -> PartitionV {
        PartitionV {
            id: self.id.0@,
            name: self.name@,
            current: self.current_snapshot.0@,
            history: ids_view(self.history@),
            partition_type: self.partition_type@,
        }
    }
}

impl PartitionV {
    /// The partition points at the last snapshot of its history.
    pub open spec fn wf(self) -> bool {
        self.history.len() > 0 && self.current == self.history.last()
    }

    /// The index of the first occurrence of `target` in the history, if any.
    pub open spec fn position(self, target: Seq<u8>) -> Option<int> {
        if exists|i: int| 0 <= i < self.history.len() && self.history[i] == target {
            Some(choose|i: int| 0 <= i < self.history.len() && self.history[i] == target
                && forall|j: int| 0 <= j < i ==> self.history[j] != target)
        } else {
            None
        }
    }
}

/// Whether `i` is the first occurrence of `target` in `h`.
pub open spec fn first_at(h: Seq<Seq<u8>>, target: Seq<u8>, i: int) -> bool {
    0 <= i < h.len() && h[i] == target && forall|j: int| 0 <= j < i ==> h[j] != target
}

impl Partition {
    /// A new partition (random identifier) pointing at `initial_snapshot`,
    /// which starts its history.
    pub fn new(name: String, partition_type: PartitionType, initial_snapshot: SnapshotId) -> (r: Partition)
        ensures
            r@.name == name@,
            r@.partition_type == partition_type@,
            r@.current == initial_snapshot.0@,
            r@.history == seq![initial_snapshot.0@],
            r@.wf(),
    {
        let mut history: Vec<SnapshotId> = Vec::new();
        history.push(initial_snapshot);
        let r = Partition {
            id: PartitionId::new_random(),
            name,
            current_snapshot: initial_snapshot,
            history,
            partition_type,
        };
        proof {
            assert(ids_view(r.history@) =~= seq![initial_snapshot.0@]);
        }
        r
    }

    /// Points the partition at `new_snapshot`, appending it to the history.
    pub fn advance(&mut self, new_snapshot: SnapshotId)
        ensures
            final(self)@ == (PartitionV {
                current: new_snapshot.0@,
                history: old(self)@.history.push(new_snapshot.0@),
                ..old(self)@
            }),
    {
        self.current_snapshot = new_snapshot;
        let ghost h0 = self.history@;
        self.history.push(new_snapshot);
        proof {
            assert(ids_view(self.history@) =~= ids_view(h0).push(new_snapshot.0@));
        }
    }

    /// Moves the pointer back to the first occurrence of `target` in the
    /// history and drops what came after it; `false`, with nothing changed,
    /// when `target` is not in the history.
    pub fn rollback_to(&mut self, target: &SnapshotId) -> (r: bool)
        ensures
            r == exists|i: int| first_at(old(self)@.history, target.0@, i),
            !r ==> final(self)@ == old(self)@,
            r ==> exists|i: int| first_at(old(self)@.history, target.0@, i) && final(self)@ == (PartitionV {
                current: target.0@,
                history: old(self)@.history.take(i + 1),
                ..old(self)@
            }),
    {
        let ghost h = ids_view(self.history@);
        let mut i: usize = 0;
        while i < self.history.len()
            invariant
                h == ids_view(self.history@),
                h == old(self)@.history,
                self@ == old(self)@,
                i <= self.history@.len(),
                forall|j: int| 0 <= j < i ==> h[j] != target.0@,
            decreases self.history@.len() - i,
        {
            if self.history[i] == *target {
                proof {
                    assert(h[i as int] == target.0@);
                    assert(first_at(h, target.0@, i as int));
                }
                self.current_snapshot = *target;
                self.history.truncate(i + 1);
                proof {
                    assert(ids_view(self.history@) =~= h.take(i + 1));
                    assert(first_at(old(self)@.history, target.0@, i as int));
                }
                return true;
            }
            i += 1;
        }
        proof {
            assert forall|k: int| !first_at(h, target.0@, k) by {
                if 0 <= k < h.len() {
                    assert(h[k] != target.0@);
                }
            }
        }
        false
    }

    /// Moves the pointer back one step, dropping the last history entry, and
    /// returns the snapshot now pointed at; `None`, with nothing changed, when
    /// the history has one entry or none.
    pub fn rollback_one(&mut self) -> (r: Option<SnapshotId>)
        ensures
            old(self)@.history.len() <= 1 <==> r is None,
            r is None ==> final(self)@ == old(self)@,
            r matches Some(p) ==> {
                &&& p.0@ == old(self)@.history[old(self)@.history.len() - 2]
                &&& final(self)@ == (PartitionV {
                    current: p.0@,
                    history: old(self)@.history.drop_last(),
                    ..old(self)@
                })
            },
    {
        let n = self.history.len();
        if n > 1 {
            let prev = self.history[n - 2];
            self.current_snapshot = prev;
            let ghost h0 = self.history@;
            self.history.pop();
            proof {
                assert(ids_view(self.history@) =~= ids_view(h0).drop_last());
            }
            Some(prev)
        } else {
            None
        }
    }
}

impl Clone for Partition {
    fn clone(&self) -> (r: Self)
        ensures
            r@ == self@,
    {
        Partition {
            id: self.id,
            name: self.name.clone(),
            current_snapshot: self.current_snapshot,
            history: copy_ids(&self.history),
            partition_type: self.partition_type.clone(),
        }
    }
}

/// A partition that points at the last snapshot of its history keeps doing
/// so through `advance`, `rollback_to` and `rollback_one`.
pub proof fn lemma_partition_wf_kept(p: PartitionV, s: Seq<u8>, i: int)
    requires
        p.wf(),
    ensures
        (PartitionV { current: s, history: p.history.push(s), ..p }).wf(),
        first_at(p.history, s, i) ==> (PartitionV { current: s, history: p.history.take(i + 1), ..p }).wf(),
        p.history.len() > 1 ==> (PartitionV { current: p.history[p.history.len() - 2], history: p.history.drop_last(), ..p }).wf(),
{
}

/// Advancing and then rolling back one step gives back the partition as it
/// was, when it pointed at the last snapshot of its history.
pub proof fn lemma_advance_then_rollback(p: PartitionV, s: Seq<u8>)
    requires
        p.wf(),
    ensures
        ({
            let q = PartitionV { current: s, history: p.history.push(s), ..p };
            (PartitionV { current: q.history[q.history.len() - 2], history: q.history.drop_last(), ..q }) == p
        }),
{
    let q = PartitionV { current: s, history: p.history.push(s), ..p };
    assert(q.history.drop_last() =~= p.history);
}

} // verus!
