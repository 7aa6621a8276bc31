//! The layered pipeline: manual_edit → agent_edit → approval → staged.
//!
//! Partitions of each layer point at snapshots; the operations here move
//! content between them, through a storage backend. What the backend hands
//! back is its own affair, so each operation states what holds whatever it
//! read, and the decisions on the values read are functions of their own.

pub mod approval;
pub mod integrated;
pub mod staged;
pub mod transition;
pub mod unified;

use crate::checkpoint::checkpoint::Checkpoint;
use crate::checkpoint::branch::Branch;
use crate::engine::diff::{diff_to_line_diff, spec_line_diff};
use crate::engine::line_ops::no_lone_cr;
use crate::engine::merge::{apply_diff, Applied};
use crate::text::spec_lines;
use crate::layered::transition::snapshot_text;
use crate::engine::merge::MergeConflict;
use crate::error::{StorageError, StratumError};
use crate::model::delta::{delta_digest, zero_id, Delta, DeltaV};
use crate::model::file_node::FileNode;
use crate::model::layer::Layer;
use crate::model::partition::{Partition, PartitionV};
use crate::model::snapshot::{ids_view, snapshot_digest, Snapshot};
use crate::model::types::{blake3_digest, hunks_view, CheckpointId, Hunk, HunkV, LayerType, LineDiff, PartitionId, PartitionType, PartitionTypeV, SnapshotId, SourceType};
use crate::storage::repository::{BranchStore, CheckpointStore, DeltaStore, LayerStore, PartitionStore, SnapshotStore, TransactionStore};
use std::sync::Arc;
use vstd::prelude::*;

verus! {

broadcast use vstd::string::group_string_axioms;

/// The layer a kind of partition belongs to: approval, integration and
/// unified partitions all sit in the approval layer.
pub open spec fn layer_of(pt: PartitionTypeV) -> LayerType {
    match pt {
        PartitionTypeV::Manual => LayerType::ManualEdit,
        PartitionTypeV::Agent(_) => LayerType::AgentEdit,
        PartitionTypeV::Approval(_) => LayerType::Approval,
        PartitionTypeV::Integrated(_) => LayerType::Approval,
        PartitionTypeV::Unified => LayerType::Approval,
        PartitionTypeV::Staged => LayerType::Staged,
    }
}

fn partition_type_to_layer(pt: &PartitionType) -> (r: LayerType)
    ensures
        r == layer_of(pt@),
{
    match pt {
        PartitionType::Manual => LayerType::ManualEdit,
        PartitionType::Agent(_) => LayerType::AgentEdit,
        PartitionType::Approval(_) => LayerType::Approval,
        PartitionType::Integrated(_) => LayerType::Approval,
        PartitionType::Unified => LayerType::Approval,
        PartitionType::Staged => LayerType::Staged,
    }
}

/// The outcome of a merge into a partition: the snapshot the partition points
/// at afterwards and the conflicts met.
#[derive(Debug)]
pub struct MergeResult {
    pub snapshot_id: SnapshotId,
    pub conflicts: Vec<MergeConflict>,
}

impl MergeResult {
    /// Whether the merge met conflicts.
    pub fn has_conflicts(&self) -> (r: bool)
        ensures
            r == (self.conflicts@.len() > 0),
    {
        self.conflicts.len() > 0
    }
}

/// Whether `step` is what merging `new_text` into a partition whose text is
/// `current_text` records (see `merge_step`): nothing when the texts do not
/// differ, else the delta between them (of `file`, from `source`) and the
/// merge snapshot of the parents (`first` the partition's snapshot, the
/// parents' identifiers `parent_ids`) that appends it.
pub open spec fn merge_records(
    step: Option<(Delta, Snapshot)>,
    first: Snapshot,
    parent_ids: Seq<Seq<u8>>,
    file: FileNode,
    current_text: Seq<char>,
    new_text: Seq<char>,
    source: SourceType,
    partition_type: Seq<char>,
    has_conflicts: bool,
) -> bool {
    &&& (step is None <==> spec_line_diff(current_text, new_text).len() == 0)
    &&& step matches Some((d, s)) ==> {
        &&& d.diff@ == spec_line_diff(current_text, new_text)
        &&& d.file@ == file@
        &&& d.source@ == source@
        &&& d.id.0@ == delta_digest(DeltaV { id: zero_id(), file: file@, diff: d.diff@, source: source@, timestamp: d.timestamp })
        &&& s.file@ == first.file@
        &&& ids_view(s.deltas@) == ids_view(first.deltas@).push(d.id.0@)
        &&& ids_view(s.parents@) == parent_ids
        &&& s.partition_type@ == partition_type
        &&& s.has_conflicts == has_conflicts
        &&& s.id.0@ == snapshot_digest(s@)
    }
}

/// What a merge into a partition records.
///
/// `None` when the new text does not differ from the partition's text.
/// Otherwise the delta from the partition's text to the new text (of `file`,
/// from `source`) and the merge snapshot of `parents` (the partition's
/// snapshot first) that appends it.
pub fn merge_step(
    parents: Vec<&Snapshot>,
    file: FileNode,
    current_text: &str,
    new_text: &str,
    source: SourceType,
    partition_type: String,
    has_conflicts: bool,
) -> (r: Option<(Delta, Snapshot)>)
    requires
        parents@.len() > 0,
    ensures
        r is None <==> spec_line_diff(current_text@, new_text@).len() == 0,
        r matches Some((d, s)) ==> {
            &&& d.diff@ == spec_line_diff(current_text@, new_text@)
            &&& d.file@ == file@
            &&& d.source@ == source@
            &&& d.id.0@ == delta_digest(DeltaV { id: zero_id(), file: file@, diff: d.diff@, source: source@, timestamp: d.timestamp })
            &&& s.file@ == parents@[0].file@
            &&& ids_view(s.deltas@) == ids_view(parents@[0].deltas@).push(d.id.0@)
            &&& ids_view(s.parents@) == Seq::new(parents@.len(), |i: int| parents@[i].id.0@)
            &&& s.partition_type@ == partition_type@
            &&& s.has_conflicts == has_conflicts
            &&& s.id.0@ == snapshot_digest(s@)
        },
        r matches Some((d, s)) ==> (no_lone_cr(current_text@) && no_lone_cr(new_text@) && spec_lines(current_text@).len() < u32::MAX
            && spec_lines(new_text@).len() < u32::MAX ==> apply_diff(spec_lines(current_text@), d.diff@) == Applied::Done(spec_lines(new_text@))),
{
    let diff = diff_to_line_diff(current_text, new_text);
    if diff.is_empty() {
        return None;
    }
    let delta = Delta::new(file, diff, source);
    let snapshot = Snapshot::merge(parents, delta.id, partition_type, has_conflicts);
    Some((delta, snapshot))
}

/// A new baseline of a file: the file node of `content` at `path`, an empty
/// delta on it from `source`, and the initial snapshot made of that delta.
pub fn new_baseline(path: String, content: &[u8], source: SourceType) -> (r: (FileNode, Delta, Snapshot))
    ensures
        r.0.file_path@ == path@,
        r.0.base_hash@ == blake3_digest(content@),
        r.1.file@ == r.0@,
        r.1.diff@ == Seq::<HunkV>::empty(),
        r.1.source@ == source@,
        r.1.id.0@ == delta_digest(DeltaV { id: zero_id(), file: r.0@, diff: Seq::<HunkV>::empty(), source: source@, timestamp: r.1.timestamp }),
        r.2.file@ == r.0@,
        ids_view(r.2.deltas@) == seq![r.1.id.0@],
        r.2.parents@.len() == 0,
        r.2.partition_type@ == Seq::<char>::empty(),
        !r.2.has_conflicts,
        r.2.id.0@ == snapshot_digest(r.2@),
{
    let file_node = FileNode::new(path, content);
    let empty: Vec<Hunk> = Vec::new();
    proof {
        assert(hunks_view(empty@) =~= Seq::<HunkV>::empty());
    }
    let delta = Delta::new(file_node.duplicate(), LineDiff::new(empty), source);
    let snapshot = Snapshot::new_initial(file_node.duplicate(), delta.id);
    (file_node, delta, snapshot)
}

/// A partition with a fixed identifier and name, pointing at
/// `initial_snapshot`, which starts its history.
pub fn fixed_partition(id: PartitionId, name: String, initial_snapshot: SnapshotId, partition_type: PartitionType) -> (r: Partition)
    ensures
        r@ == (PartitionV {
            id: id.0@,
            name: name@,
            current: initial_snapshot.0@,
            history: seq![initial_snapshot.0@],
            partition_type: partition_type@,
        }),
{
    let mut history: Vec<SnapshotId> = Vec::new();
    history.push(initial_snapshot);
    let r = Partition { id, name, current_snapshot: initial_snapshot, history, partition_type };
    proof {
        assert(ids_view(r.history@) =~= seq![initial_snapshot.0@]);
    }
    r
}

/// The partition with `partition`'s identifier, or `partition` recorded and
/// returned when the backend has none. A stored partition under that
/// identifier that holds another identifier is refused as a serialization
/// error of the storage.
pub fn ensure_partition<S: PartitionStore>(storage: &S, partition: Partition) -> (r: Result<Partition, StratumError>)
    ensures
        r matches Err(e) ==> e is Storage,
        r matches Ok(p) ==> p.id.0@ == partition.id.0@,
{
    match storage.get_partition(&partition.id) {
        Ok(p) => {
            if p.id == partition.id {
                Ok(p)
            } else {
                Err(StratumError::Storage(StorageError::Serialization("stored partition holds another identifier".to_string())))
            }
        },
        Err(_) => match storage.create_partition(&partition) {
            Ok(()) => Ok(partition),
            Err(e) => Err(StratumError::Storage(e)),
        },
    }
}

/// Whether `id` is what a two-way merge into the partition `p` (read with
/// identifier `pid`, current snapshot `cur`, text `ours`) of the partition
/// `q` (read with identifier `qid`, current snapshot `src`, text `theirs`)
/// gave: `p` stays at its snapshot when the texts have no line difference;
/// otherwise it points at a merge snapshot of `cur` and `src`, of type
/// `ptype`, one delta past `cur`, that delta being the diff from `ours` to
/// `theirs`.
pub open spec fn two_way_merged_over(
    p: Partition,
    q: Partition,
    cur: Snapshot,
    src: Snapshot,
    ours: Seq<char>,
    theirs: Seq<char>,
    pid: Seq<u8>,
    qid: Seq<u8>,
    ptype: Seq<char>,
    id: SnapshotId,
) -> bool {
    &&& p.id.0@ == pid
    &&& q.id.0@ == qid
    &&& cur.id.0@ == p.current_snapshot.0@
    &&& src.id.0@ == q.current_snapshot.0@
    &&& snapshot_text(cur, ours)
    &&& snapshot_text(src, theirs)
    &&& spec_line_diff(ours, theirs).len() == 0 ==> id == p.current_snapshot
    &&& spec_line_diff(ours, theirs).len() > 0 ==> exists|sn: Snapshot, d: Delta| {
        &&& #[trigger] sn.id == id
        &&& #[trigger] d.diff@ == spec_line_diff(ours, theirs)
        &&& ids_view(sn.deltas@) == ids_view(cur.deltas@).push(d.id.0@)
        &&& ids_view(sn.parents@) == seq![cur.id.0@, src.id.0@]
        &&& sn.partition_type@ == ptype
    }
}

/// Whether `id` is what a two-way merge of the partition `qid` into the
/// partition `pid` gave, for some values read (see `two_way_merged_over`).
pub open spec fn two_way_merged(pid: Seq<u8>, qid: Seq<u8>, ptype: Seq<char>, id: SnapshotId) -> bool {
    exists|p: Partition, q: Partition, cur: Snapshot, src: Snapshot, ours: Seq<char>, theirs: Seq<char>|
        #[trigger] two_way_merged_over(p, q, cur, src, ours, theirs, pid, qid, ptype, id)
}

/// Records a merge: stores its delta and snapshot and points the partition at
/// the snapshot, which is returned.
pub fn record_merge<S: SnapshotStore + DeltaStore + PartitionStore>(
    storage: &S,
    partition_id: &PartitionId,
    delta: &Delta,
    snapshot: &Snapshot,
) -> (r: Result<SnapshotId, StratumError>)
    ensures
        r matches Ok(id) ==> id == snapshot.id,
        r matches Err(e) ==> e is Storage,
{
    if let Err(e) = storage.store_delta(delta) {
        return Err(StratumError::Storage(e));
    }
    if let Err(e) = storage.store_snapshot(snapshot, &[]) {
        return Err(StratumError::Storage(e));
    }
    match storage.update_pointer(partition_id, &snapshot.id) {
        Ok(()) => Ok(snapshot.id),
        Err(e) => Err(StratumError::Storage(e)),
    }
}

/// Whether switching to the branch `name` returned `h`: `b` is the branch
/// read, `h` its head, and `c` the head checkpoint read, which holds a
/// snapshot (the one staged is pointed at).
pub open spec fn switched_to(b: Branch, c: Checkpoint, name: Seq<char>, h: CheckpointId) -> bool {
    &&& b.name@ == name
    &&& h == b.head
    &&& c.id.0@ == b.head.0@
    &&& c.baseline_snapshots@.len() > 0
}

/// Whether switching to the branch `name` returned `h`, for some branch and
/// checkpoint read (see `switched_to`).
pub open spec fn switched(name: Seq<char>, h: CheckpointId) -> bool {
    exists|b: Branch, c: Checkpoint| #[trigger] switched_to(b, c, name, h)
}

/// The layered state machine: the entry point to the partitions of every
/// layer of a storage backend.
pub struct StateMachine<S> {
    storage: Arc<S>,
}

impl<S: PartitionStore + BranchStore + CheckpointStore + LayerStore> StateMachine<S> {
    /// A state machine over a storage backend.
    pub fn new(storage: Arc<S>) -> (r: Self)
        ensures
            r.storage_view() == *storage,
    {
        StateMachine { storage }
    }

    /// The storage backend.
    pub closed spec fn storage_view(&self) -> S {
        *self.storage
    }

    /// The storage backend.
    pub fn storage(&self) -> (r: &S)
        ensures
            *r == self.storage_view(),
    {
        &*self.storage
    }

    /// The partition with this identifier; a storage error when the backend
    /// has none.
    pub fn get_partition(&self, _layer: &LayerType, partition_id: &PartitionId) -> (r: Result<Partition, StratumError>)
        ensures
            r matches Err(e) ==> e is Storage,
    {
        match self.storage.get_partition(partition_id) {
            Ok(p) => Ok(p),
            Err(e) => Err(StratumError::Storage(e)),
        }
    }

    /// The partition with this identifier, to be changed by the caller.
    pub fn get_partition_mut(&self, _layer: &LayerType, partition_id: &PartitionId) -> (r: Result<Partition, StratumError>)
        ensures
            r matches Err(e) ==> e is Storage,
    {
        match self.storage.get_partition(partition_id) {
            Ok(p) => Ok(p),
            Err(e) => Err(StratumError::Storage(e)),
        }
    }

    /// The partition with this identifier, or `partition` recorded and
    /// returned when the backend has none.
    pub fn get_or_create_partition(
        &self,
        _layer: &LayerType,
        partition_id: &PartitionId,
        _name: &str,
        partition: &Partition,
    ) -> (r: Result<Partition, StratumError>)
        ensures
            r matches Err(e) ==> e is Storage,
    {
        match self.storage.get_partition(partition_id) {
            Ok(p) => Ok(p),
            Err(_) => {
                match self.storage.create_partition(partition) {
                    Ok(()) => Ok(partition.clone()),
                    Err(e) => Err(StratumError::Storage(e)),
                }
            },
        }
    }

    /// Points a partition at a snapshot.
    pub fn update_partition_pointer(&self, partition_id: &PartitionId, snapshot_id: &SnapshotId) -> (r: Result<(), StratumError>)
        ensures
            r matches Err(e) ==> e is Storage,
    {
        match self.storage.update_pointer(partition_id, snapshot_id) {
            Ok(()) => Ok(()),
            Err(e) => Err(StratumError::Storage(e)),
        }
    }

    /// An empty layer of the given kind.
    pub fn create_layer(&self, layer_type: &LayerType) -> (r: Layer)
        ensures
            r.layer_type == *layer_type,
            r.partitions@.len() == 0,
    {
        Layer::new(*layer_type)
    }

    /// Switches to a branch: the staged partition is pointed at the first
    /// snapshot of the branch's head checkpoint (and created there when
    /// absent). Returns the head checkpoint.
    pub fn switch_branch(&self, branch_name: &str) -> (r: Result<CheckpointId, StratumError>)
        ensures
            r matches Err(e) ==> (e is Storage || (e matches StratumError::Checkpoint(m) && m@ == head_without_snapshots_msg())),
            r matches Ok(h) ==> switched(branch_name@, h),
    {
        let branch = match self.storage.get_branch(branch_name) {
            Ok(b) => b,
            Err(e) => return Err(StratumError::Storage(e)),
        };
        let head_cp: Checkpoint = match self.storage.get_checkpoint(&branch.head) {
            Ok(c) => c,
            Err(e) => return Err(StratumError::Storage(e)),
        };
        if head_cp.baseline_snapshots.len() == 0 {
            return Err(StratumError::Checkpoint(head_without_snapshots()));
        }
        let base_snapshot = head_cp.baseline_snapshots[0];
        let staged_pid = staged::staged_partition_id();
        match self.storage.get_partition(&staged_pid) {
            Ok(_) => {
                if let Err(e) = self.storage.update_pointer(&staged_pid, &base_snapshot) {
                    return Err(StratumError::Storage(e));
                }
            },
            Err(_) => {
                let partition = Partition::new("staged".to_string(), PartitionType::Staged, base_snapshot);
                if let Err(e) = self.storage.create_partition(&partition) {
                    return Err(StratumError::Storage(e));
                }
            },
        }
        proof {
            assert(switched_to(branch, head_cp, branch_name@, branch.head));
            assert(switched(branch_name@, branch.head));
        }
        Ok(branch.head)
    }

    /// Records one layer per layer kind present among the partitions, holding
    /// the identifiers of its partitions in the order listed.
    pub fn sync_layers(&self) -> (r: Result<(), StratumError>)
        ensures
            r matches Err(e) ==> e is Storage,
    {
        let partitions = match self.storage.list_partitions() {
            Ok(ps) => ps,
            Err(e) => return Err(StratumError::Storage(e)),
        };
        let layers = group_by_layer(&partitions);
        let mut i: usize = 0;
        while i < layers.len()
            invariant
                i <= layers@.len(),
            decreases layers@.len() - i,
        {
            if let Err(e) = self.storage.store_layer(&layers[i]) {
                return Err(StratumError::Storage(e));
            }
            i += 1;
        }
        Ok(())
    }

}

impl<S: PartitionStore + BranchStore + CheckpointStore + LayerStore + TransactionStore> StateMachine<S> {
    /// Runs `f` on the storage backend inside a transaction: the transaction
    /// is committed when `f` succeeds and rolled back when it fails, and
    /// `f`'s result is returned. A failure to begin (before `f` runs), to
    /// commit or to roll back is returned as a storage error.
    pub fn with_transaction<F, T>(&self, f: F) -> (r: Result<T, StratumError>)
        where
            F: FnOnce(&S) -> Result<T, StratumError>,
        requires
            f.requires((&self.storage_view(),)),
        ensures
            r matches Ok(v) ==> f.ensures((&self.storage_view(),), Ok::<T, StratumError>(v)),
            r matches Err(e) ==> e is Storage || f.ensures((&self.storage_view(),), Err::<T, StratumError>(e)),
    {
        if let Err(e) = self.storage.begin_transaction() {
            return Err(StratumError::Storage(e));
        }
        let result = f(&*self.storage);
        let end = match &result {
            Ok(_) => self.storage.commit_transaction(),
            Err(_) => self.storage.rollback_transaction(),
        };
        match end {
            Ok(()) => result,
            Err(e) => Err(StratumError::Storage(e)),
        }
    }
}

/// The message for a branch head without snapshots.
pub open spec fn head_without_snapshots_msg() -> Seq<char> {
    "branch head checkpoint has no snapshots"@
}

fn head_without_snapshots() -> (r: String)
    ensures
        r@ == head_without_snapshots_msg(),
{
    "branch head checkpoint has no snapshots".to_string()
}

/// The identifiers of the partitions of a layer, in list order.
pub open spec fn ids_in_layer(ps: Seq<Partition>, l: LayerType) -> Seq<Seq<u8>>
    decreases ps.len(),
{
    if ps.len() == 0 {
        seq![]
    } else {
        let rest = ids_in_layer(ps.drop_last(), l);
        if layer_of(ps.last().partition_type@) == l {
            rest.push(ps.last().id.0@)
        } else {
            rest
        }
    }
}

/// The byte sequences of a list of partition identifiers.
pub open spec fn pids_view(v: Seq<PartitionId>) -> Seq<Seq<u8>> {
    Seq::new(v.len(), |i: int| v[i].0@)
}

/// The layer of kind `l` holding the partitions of that kind.
fn layer_of_kind(partitions: &Vec<Partition>, l: LayerType) -> (r: Layer)
    ensures
        r.layer_type == l,
        pids_view(r.partitions@) == ids_in_layer(partitions@, l),
{
    let mut layer = Layer::new(l);
    let mut k: usize = 0;
    while k < partitions.len()
        invariant
            k <= partitions@.len(),
            layer.layer_type == l,
            pids_view(layer.partitions@) == ids_in_layer(partitions@.take(k as int), l),
        decreases partitions@.len() - k,
    {
        let ghost before = partitions@.take(k as int);
        let ghost v0 = layer.partitions@;
        proof {
            assert(partitions@.take(k + 1).drop_last() =~= before);
            assert(partitions@.take(k + 1).last() == partitions@[k as int]);
        }
        if partition_type_to_layer(&partitions[k].partition_type) == l {
            layer.partitions.push(partitions[k].id);
            proof {
                assert(pids_view(layer.partitions@) =~= pids_view(v0).push(partitions@[k as int].id.0@));
            }
        }
        k += 1;
    }
    proof {
        assert(partitions@.take(partitions@.len() as int) =~= partitions@);
    }
    layer
}

/// Appends a layer that holds partitions and is of a kind not yet present.
fn push_nonempty(layers: &mut Vec<Layer>, layer: Layer, partitions: &Vec<Partition>)
    requires
        pids_view(layer.partitions@) == ids_in_layer(partitions@, layer.layer_type),
        forall|i: int| 0 <= i < old(layers)@.len() ==> (#[trigger] old(layers)@[i]).layer_type != layer.layer_type,
    ensures
        layer.partitions@.len() > 0 ==> final(layers)@ == old(layers)@.push(layer),
        layer.partitions@.len() == 0 ==> final(layers)@ == old(layers)@,
{
    if layer.partitions.len() > 0 {
        layers.push(layer);
    }
}

/// The layers of a list of partitions: one for each layer kind that holds a
/// partition, in pipeline order, each with the identifiers of its partitions
/// in list order.
pub fn group_by_layer(partitions: &Vec<Partition>) -> (r: Vec<Layer>)
    ensures
        forall|i: int| 0 <= i < r@.len() ==> {
            &&& pids_view((#[trigger] r@[i]).partitions@) == ids_in_layer(partitions@, r@[i].layer_type)
            &&& r@[i].partitions@.len() > 0
        },
        forall|i: int, j: int| 0 <= i < j < r@.len() ==> r@[i].layer_type != r@[j].layer_type,
        forall|l: LayerType| ids_in_layer(partitions@, l).len() > 0 ==> exists|i: int| 0 <= i < r@.len() && (#[trigger] r@[i]).layer_type == l,
{
    let mut layers: Vec<Layer> = Vec::new();
    push_nonempty(&mut layers, layer_of_kind(partitions, LayerType::ManualEdit), partitions);
    let ghost s1 = layers@;
    push_nonempty(&mut layers, layer_of_kind(partitions, LayerType::AgentEdit), partitions);
    let ghost s2 = layers@;
    push_nonempty(&mut layers, layer_of_kind(partitions, LayerType::Approval), partitions);
    let ghost s3 = layers@;
    push_nonempty(&mut layers, layer_of_kind(partitions, LayerType::Staged), partitions);
    proof {
        assert(layers@.len() >= s3.len() >= s2.len() >= s1.len());
        assert(forall|i: int| 0 <= i < s3.len() ==> layers@[i] == s3[i]);
        assert(forall|i: int| 0 <= i < s2.len() ==> s3[i] == s2[i]);
        assert(forall|i: int| 0 <= i < s1.len() ==> s2[i] == s1[i]);
        assert forall|l: LayerType| ids_in_layer(partitions@, l).len() > 0 implies exists|i: int| 0 <= i < layers@.len() && (#[trigger] layers@[i]).layer_type == l by {
            match l {
                LayerType::ManualEdit => {
                    assert(layers@[s1.len() - 1] == s1[s1.len() - 1]);
                },
                LayerType::AgentEdit => {
                    assert(layers@[s2.len() - 1] == s2[s2.len() - 1]);
                },
                LayerType::Approval => {
                    assert(layers@[s3.len() - 1] == s3[s3.len() - 1]);
                },
                LayerType::Staged => {
                    assert(layers@[layers@.len() - 1].layer_type == LayerType::Staged);
                },
            }
        }
    }
    layers
}

} // verus!
