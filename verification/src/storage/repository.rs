//! The storage interfaces the pipeline is written against.
//!
//! A backend (a database, or an in-memory store) implements these. What a
//! backend hands back depends on what it holds, so the operations written
//! against them state what holds whatever comes back, and leave the decisions
//! on the values read to functions that take those values as arguments. A
//! lookup by key gives back an item with that key: every implementation owes
//! these clauses (they are not proved of an implementation outside this crate).

use crate::checkpoint::branch::Branch;
use crate::checkpoint::checkpoint::Checkpoint;
use crate::checkpoint::dag::CheckpointDag;
use crate::error::StorageError;
use crate::model::delta::Delta;
use crate::model::file_node::FileNode;
use crate::model::layer::Layer;
use crate::model::partition::Partition;
use crate::model::snapshot::Snapshot;
use crate::model::types::{CheckpointId, DeltaId, PartitionId, SnapshotId};
use vstd::prelude::*;

verus! {

/// Partitions and their snapshot pointers.
pub trait PartitionStore {
    /// The partition with this identifier.
    fn get_partition(&self, id: &PartitionId) -> (r: Result<Partition, StorageError>)
        ensures
            r matches Ok(p) ==> p.id.0@ == id.0@;

    /// Records a new partition.
    fn create_partition(&self, partition: &Partition) -> Result<(), StorageError>;

    /// Points a partition at a snapshot, appending it to the history.
    fn update_pointer(&self, id: &PartitionId, snapshot_id: &SnapshotId) -> Result<(), StorageError>;

    /// Every partition.
    fn list_partitions(&self) -> Result<Vec<Partition>, StorageError>;
}

/// Snapshots by identifier.
pub trait SnapshotStore {
    /// Records a snapshot (with optional content).
    fn store_snapshot(&self, snapshot: &Snapshot, content: &[u8]) -> Result<(), StorageError>;

    /// The snapshot with this identifier.
    fn get_snapshot(&self, id: &SnapshotId) -> (r: Result<Snapshot, StorageError>)
        ensures
            r matches Ok(s) ==> s.id.0@ == id.0@;
}

/// Deltas by identifier.
pub trait DeltaStore {
    /// Records a delta.
    fn store_delta(&self, delta: &Delta) -> Result<(), StorageError>;

    /// The deltas with these identifiers, in the same order.
    fn get_deltas(&self, ids: &[DeltaId]) -> (r: Result<Vec<Delta>, StorageError>)
        ensures
            r matches Ok(ds) ==> ds@.len() == ids@.len() && forall|i: int| 0 <= i < ids@.len() ==> (#[trigger] ds@[i]).id.0@ == ids@[i].0@;
}

/// File contents by path and content digest.
pub trait FileNodeStore {
    /// Records the content of a file baseline.
    fn store_file_node(&self, node: &FileNode, content: &[u8]) -> Result<(), StorageError>;

    /// The content recorded for a path and content digest.
    fn get_file_content(&self, path: &str, hash: &[u8; 32]) -> Result<Vec<u8>, StorageError>;
}

/// Branches by name.
pub trait BranchStore {
    /// The branch with this name.
    fn get_branch(&self, name: &str) -> (r: Result<Branch, StorageError>)
        ensures
            r matches Ok(b) ==> b.name@ == name@;

    /// Records a branch.
    fn store_branch(&self, branch: &Branch) -> Result<(), StorageError>;

    /// Moves a branch's head.
    fn update_branch_head(&self, name: &str, head: &CheckpointId) -> Result<(), StorageError>;

    /// Every branch.
    fn list_branches(&self) -> Result<Vec<Branch>, StorageError>;
}

/// Checkpoints by identifier.
pub trait CheckpointStore {
    /// Records a checkpoint.
    fn store_checkpoint(&self, checkpoint: &Checkpoint) -> Result<(), StorageError>;

    /// The checkpoint with this identifier.
    fn get_checkpoint(&self, id: &CheckpointId) -> (r: Result<Checkpoint, StorageError>)
        ensures
            r matches Ok(c) ==> c.id.0@ == id.0@;

    /// Every checkpoint, newest first.
    fn list_checkpoints(&self) -> Result<Vec<Checkpoint>, StorageError>;

    /// Forgets the checkpoint with this identifier.
    fn delete_checkpoint(&self, id: &CheckpointId) -> Result<(), StorageError>;
}

/// The checkpoint DAG.
pub trait DagStore {
    /// The stored DAG.
    fn load_dag(&self) -> Result<CheckpointDag, StorageError>;

    /// Replaces the stored DAG.
    fn store_dag(&self, dag: &CheckpointDag) -> Result<(), StorageError>;
}

/// Named settings of the repository (such as the current branch).
pub trait MetadataStore {
    /// Records the value of a setting.
    fn store_metadata(&self, key: &str, value: &str) -> Result<(), StorageError>;

    /// The value recorded for a setting, if any.
    fn load_metadata(&self, key: &str) -> Result<Option<String>, StorageError>;
}

/// Transactions of the backend: what is written between a begin and a
/// rollback is undone; a commit keeps it.
pub trait TransactionStore {
    /// Starts a transaction.
    fn begin_transaction(&self) -> Result<(), StorageError>;

    /// Keeps what was written since the transaction began.
    fn commit_transaction(&self) -> Result<(), StorageError>;

    /// Undoes what was written since the transaction began.
    fn rollback_transaction(&self) -> Result<(), StorageError>;
}

/// Layers and the partitions they hold.
pub trait LayerStore {
    /// Records a layer.
    fn store_layer(&self, layer: &Layer) -> Result<(), StorageError>;
}

} // verus!
