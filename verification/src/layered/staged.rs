//! The staged layer: the last layer before a commit. Approved content is
//! merged into its single partition, which a commit packs into a checkpoint.

use crate::checkpoint::branch::Branch;
use crate::checkpoint::checkpoint::{new_checkpoint_id, Checkpoint, CheckpointMetadata, MetadataV};
use crate::checkpoint::dag::{ensure_node, with_edge, CheckpointDag};
use crate::model::snapshot::ids_view;
use crate::error::{StorageError, StratumError};
use crate::layered::transition::reconstruct_text;
use crate::layered::{ensure_partition, fixed_partition, merge_step, record_merge, two_way_merged, two_way_merged_over};
use crate::engine::diff::spec_line_diff;
use crate::model::types::partition_type_name;
use crate::model::partition::{Partition, PartitionV};
use crate::model::types::{CheckpointId, PartitionId, PartitionType, PartitionTypeV, SnapshotId, SourceType};
use crate::storage::repository::{BranchStore, CheckpointStore, DagStore, DeltaStore, FileNodeStore, PartitionStore, SnapshotStore};
use vstd::prelude::*;

verus! {

broadcast use vstd::string::group_string_axioms;

/// The fixed identifier of the staged partition (`0x60` then zeros).
pub fn staged_partition_id() -> (r: PartitionId)
    ensures
        r.0@ == seq![0x60u8] + Seq::new(15, |i: int| 0u8),
{
    PartitionId::with_first_byte(0x60)
}

/// The staged partition, or a new one named `staged` at
/// `initial_snapshot_id` when the backend has none.
pub fn ensure_staged_partition<S: PartitionStore>(storage: &S, initial_snapshot_id: SnapshotId) -> (r: Result<Partition, StratumError>)
    ensures
        r matches Err(e) ==> e is Storage,
        r matches Ok(p) ==> p.id.0@ == seq![0x60u8] + Seq::new(15, |i: int| 0u8),
{
    let p = fixed_partition(staged_partition_id(), "staged".to_string(), initial_snapshot_id, PartitionType::Staged);
    ensure_partition(storage, p)
}

/// The message for an absent staged partition.
pub open spec fn staged_missing_msg() -> Seq<char> {
    "staged partition not found, call ensure_staged_partition first"@
}

/// Merges the current snapshot of an approval partition into staged.
///
/// Both texts are rebuilt; when the approval text differs from the staged
/// one, the delta between them (of the staged file, a manual change) and a
/// merge snapshot of the staged and approval snapshots (type `staged`, no
/// conflicts) are recorded and staged points at it. Returns the snapshot
/// staged points at.
pub fn merge_approval_to_staged<S: SnapshotStore + DeltaStore + FileNodeStore + PartitionStore>(
    storage: &S,
    approval_partition_id: &PartitionId,
) -> (r: Result<SnapshotId, StratumError>)
    ensures
        r matches Err(e) ==> (e is Storage || e is Engine || (e matches StratumError::NotFound(m) && (m@ == "approval partition not found"@
            || m@ == staged_missing_msg()))),
        r matches Ok(id) ==> two_way_merged(seq![0x60u8] + Seq::new(15, |i: int| 0u8), approval_partition_id.0@,
            partition_type_name(PartitionTypeV::Staged), id),
{
    let staged_pid = staged_partition_id();
    let approval_partition = match storage.get_partition(approval_partition_id) {
        Ok(p) => p,
        Err(_) => return Err(StratumError::NotFound("approval partition not found".to_string())),
    };
    let staged_partition = match storage.get_partition(&staged_pid) {
        Ok(p) => p,
        Err(_) => return Err(StratumError::NotFound("staged partition not found, call ensure_staged_partition first".to_string())),
    };
    merge_into_staged(storage, &staged_pid, &staged_partition, &approval_partition)
}

/// Merges the current snapshot of `source` into the staged partition (see
/// `merge_approval_to_staged`).
fn merge_into_staged<S: SnapshotStore + DeltaStore + FileNodeStore + PartitionStore>(
    storage: &S,
    staged_pid: &PartitionId,
    staged_partition: &Partition,
    source: &Partition,
) -> (r: Result<SnapshotId, StratumError>)
    ensures
        r matches Err(e) ==> (e is Storage || e is Engine),
        r matches Ok(id) ==> two_way_merged(staged_partition.id.0@, source.id.0@, partition_type_name(PartitionTypeV::Staged), id),
{
    let source_snapshot = match storage.get_snapshot(&source.current_snapshot) {
        Ok(s) => s,
        Err(e) => return Err(StratumError::Storage(e)),
    };
    let staged_snapshot = match storage.get_snapshot(&staged_partition.current_snapshot) {
        Ok(s) => s,
        Err(e) => return Err(StratumError::Storage(e)),
    };
    let source_text = reconstruct_text(storage, &source_snapshot)?;
    let staged_text = reconstruct_text(storage, &staged_snapshot)?;
    let parents = vec![&staged_snapshot, &source_snapshot];
    proof {
        assert(Seq::new(parents@.len(), |i: int| parents@[i].id.0@) =~= seq![staged_snapshot.id.0@, source_snapshot.id.0@]);
    }
    let step = merge_step(
        parents,
        staged_snapshot.file.clone(),
        staged_text.as_str(),
        source_text.as_str(),
        SourceType::Manual,
        PartitionType::Staged.name(),
        false,
    );
    let id = match step {
        None => staged_partition.current_snapshot,
        Some((delta, snapshot)) => {
            let id = record_merge(storage, staged_pid, &delta, &snapshot)?;
            proof {
                assert(snapshot.id == id && delta.diff@ == spec_line_diff(staged_text@, source_text@));
            }
            id
        },
    };
    proof {
        assert(two_way_merged_over(*staged_partition, *source, staged_snapshot, source_snapshot, staged_text@, source_text@,
            staged_partition.id.0@, source.id.0@, partition_type_name(PartitionTypeV::Staged), id));
    }
    Ok(id)
}

/// Merges the current snapshot of the unified partition into staged, the
/// last step of the approval pipeline (as `merge_approval_to_staged`).
pub fn merge_unified_to_staged<S: SnapshotStore + DeltaStore + FileNodeStore + PartitionStore>(storage: &S) -> (r: Result<SnapshotId, StratumError>)
    ensures
        r matches Err(e) ==> (e is Storage || e is Engine || (e matches StratumError::NotFound(m) && (m@
            == "unified partition not found, call ensure_unified_partition first"@ || m@ == staged_missing_msg()))),
        r matches Ok(id) ==> two_way_merged(seq![0x60u8] + Seq::new(15, |i: int| 0u8), seq![0x50u8] + Seq::new(15, |i: int| 0u8),
            partition_type_name(PartitionTypeV::Staged), id),
{
    let staged_pid = staged_partition_id();
    let unified_pid = crate::layered::unified::unified_partition_id();
    let unified_partition = match storage.get_partition(&unified_pid) {
        Ok(p) => p,
        Err(_) => return Err(StratumError::NotFound("unified partition not found, call ensure_unified_partition first".to_string())),
    };
    let staged_partition = match storage.get_partition(&staged_pid) {
        Ok(p) => p,
        Err(_) => return Err(StratumError::NotFound("staged partition not found, call ensure_staged_partition first".to_string())),
    };
    merge_into_staged(storage, &staged_pid, &staged_partition, &unified_partition)
}

/// The checkpoint that a commit of `staged` makes over the branch head
/// `head`: the head is its one parent, the staged snapshot its one baseline.
pub fn commit_checkpoint(staged: SnapshotId, head: CheckpointId, message: &str, author: &str) -> (r: Checkpoint)
    ensures
        r@.parents == seq![head.0@],
        r@.baselines == seq![staged.0@],
        r@.metadata == (MetadataV { author: author@, message: message@, git_anchor: None }),
        r@.id == new_checkpoint_id(seq![head.0@], seq![staged.0@], author@, message@),
{
    let metadata = CheckpointMetadata::new(author, message);
    let mut baselines: Vec<SnapshotId> = Vec::new();
    baselines.push(staged);
    let mut parents: Vec<CheckpointId> = Vec::new();
    parents.push(head);
    proof {
        assert(ids_view(parents@) =~= seq![head.0@]);
        assert(ids_view(baselines@) =~= seq![staged.0@]);
    }
    Checkpoint::new(baselines, parents, metadata)
}

/// The message of the error that refuses a stored DAG that is not consistent.
pub open spec fn malformed_dag_msg() -> Seq<char> {
    "stored checkpoint DAG is malformed"@
}

/// The stored DAG after a commit: the new checkpoint `id` is added with an
/// edge from the branch head `head`. A DAG that is not consistent is refused.
pub fn dag_after_commit(dag: CheckpointDag, head: CheckpointId, id: CheckpointId) -> (r: Result<CheckpointDag, StratumError>)
    ensures
        r is Ok <==> dag.wf(),
        r matches Ok(d) ==> d.wf() && d@ == with_edge(ensure_node(dag@, id.0@), head.0@, id.0@),
        r matches Err(e) ==> (e matches StratumError::Storage(StorageError::Serialization(m)) && m@ == malformed_dag_msg()),
{
    let mut dag = dag;
    if !dag.is_well_formed() {
        return Err(StratumError::Storage(StorageError::Serialization("stored checkpoint DAG is malformed".to_string())));
    }
    dag.add_node(id);
    dag.add_edge(head, id);
    Ok(dag)
}

/// Whether `id` is the checkpoint a commit makes from the staged partition
/// `sp` and the branch `main` as read (`None` when it could not be read):
/// the checkpoint of the staged snapshot over main's head, or over the staged
/// snapshot itself when main was not there.
pub open spec fn committed_over(sp: Partition, main: Option<Branch>, author: Seq<char>, message: Seq<char>, id: CheckpointId) -> bool {
    &&& sp.id.0@ == seq![0x60u8] + Seq::new(15, |i: int| 0u8)
    &&& main matches Some(b) ==> b.name@ == "main"@
    &&& id.0@ == new_checkpoint_id(
        seq![
            match main {
                Some(b) => b.head.0@,
                None => sp.current_snapshot.0@,
            },
        ],
        seq![sp.current_snapshot.0@],
        author,
        message,
    )
}

/// Whether `id` is the checkpoint a commit makes for some staged partition
/// and branch `main` read (see `committed_over`).
pub open spec fn committed(author: Seq<char>, message: Seq<char>, id: CheckpointId) -> bool {
    exists|sp: Partition, main: Option<Branch>| #[trigger] committed_over(sp, main, author, message, id)
}

/// Commits the staged partition as a checkpoint on branch `main`.
///
/// The checkpoint (see `commit_checkpoint`) holds the staged snapshot and has
/// the branch head as its parent; when there is no `main` branch yet, one is
/// recorded pointing at the staged snapshot, which is then taken as the head.
/// The checkpoint is stored, the stored DAG is replaced by
/// `dag_after_commit` of it, and the branch is moved to the checkpoint. A
/// stored DAG that is not consistent is refused with a storage error.
pub fn commit_staged_to_checkpoint<S: SnapshotStore + PartitionStore + CheckpointStore + BranchStore + DagStore>(
    storage: &S,
    message: &str,
    author: &str,
) -> (r: Result<CheckpointId, StratumError>)
    ensures
        r matches Err(e) ==> (e is Storage || (e matches StratumError::NotFound(m) && m@ == "staged partition not found"@)),
        r matches Ok(id) ==> exists|head: Seq<u8>, staged: Seq<u8>| #[trigger] new_checkpoint_id(seq![head], seq![staged], author@, message@) == id.0@,
        r matches Ok(id) ==> committed(author@, message@, id),
{
    let staged_pid = staged_partition_id();
    let staged_partition = match storage.get_partition(&staged_pid) {
        Ok(p) => p,
        Err(_) => return Err(StratumError::NotFound("staged partition not found".to_string())),
    };
    let current_snapshot_id = staged_partition.current_snapshot;
    let branch_name = "main";
    proof {
        reveal_strlit("main");
    }
    let ghost mut main_read: Option<Branch> = None;
    let branch_head = match storage.get_branch(branch_name) {
        Ok(b) => {
            proof {
                main_read = Some(b);
            }
            b.head
        },
        Err(_) => {
            let branch = Branch::new(branch_name, current_snapshot_id);
            if let Err(e) = storage.store_branch(&branch) {
                return Err(StratumError::Storage(e));
            }
            current_snapshot_id
        },
    };
    let cp = commit_checkpoint(current_snapshot_id, branch_head, message, author);
    let cp_id = cp.id;
    proof {
        assert(committed_over(staged_partition, main_read, author@, message@, cp_id));
    }
    if let Err(e) = storage.store_checkpoint(&cp) {
        return Err(StratumError::Storage(e));
    }
    let stored = match storage.load_dag() {
        Ok(d) => d,
        Err(e) => return Err(StratumError::Storage(e)),
    };
    let dag = match dag_after_commit(stored, branch_head, cp_id) {
        Ok(d) => d,
        Err(e) => return Err(e),
    };
    if let Err(e) = storage.store_dag(&dag) {
        return Err(StratumError::Storage(e));
    }
    match storage.update_branch_head(branch_name, &cp_id) {
        Ok(()) => Ok(cp_id),
        Err(e) => Err(StratumError::Storage(e)),
    }
}

/// Points the staged partition back at a base snapshot.
pub fn reset_staged<S: PartitionStore>(storage: &S, base_snapshot_id: SnapshotId) -> (r: Result<(), StratumError>)
    ensures
        r matches Err(e) ==> e is Storage,
{
    let pid = staged_partition_id();
    match storage.update_pointer(&pid, &base_snapshot_id) {
        Ok(()) => Ok(()),
        Err(e) => Err(StratumError::Storage(e)),
    }
}

} // verus!
