//! The manual_edit layer: human edits are collected in its single partition
//! and merged into staged.

use crate::error::StratumError;
use crate::layered::merge_step;
use crate::layered::record_merge;
use crate::layered::transition::reconstruct_text;
use crate::model::partition::Partition;
use crate::model::types::{partition_type_name, PartitionId, PartitionType, PartitionTypeV, SnapshotId, SourceType};
use crate::layered::{two_way_merged, two_way_merged_over};
use crate::engine::diff::spec_line_diff;
use crate::state_machine::{edit_recorded, record_edit};
use crate::state_machine::staged::staged_partition_id;
use crate::storage::repository::{DeltaStore, FileNodeStore, PartitionStore, SnapshotStore};
use vstd::prelude::*;

verus! {

broadcast use vstd::string::group_string_axioms;

/// The fixed identifier of the manual_edit partition (zeros then `1`).
pub fn manual_partition_id() -> (r: PartitionId)
    ensures
        r.0@ == Seq::new(15, |i: int| 0u8).push(1u8),
{
    PartitionId::with_last_byte(1)
}

/// The manual_edit partition, or a new partition named `manual_edit` (with a
/// fresh identifier) at `initial_snapshot_id` when the backend has none.
pub fn ensure_manual_partition<S: PartitionStore>(storage: &S, initial_snapshot_id: SnapshotId) -> (r: Result<Partition, StratumError>)
    ensures
        r matches Err(e) ==> e is Storage,
{
    let pid = manual_partition_id();
    match storage.get_partition(&pid) {
        Ok(p) => Ok(p),
        Err(_) => {
            let partition = Partition::new("manual_edit".to_string(), PartitionType::Manual, initial_snapshot_id);
            match storage.create_partition(&partition) {
                Ok(()) => Ok(partition),
                Err(e) => Err(StratumError::Storage(e)),
            }
        },
    }
}

/// The message for an absent manual_edit partition.
pub open spec fn manual_missing_msg() -> Seq<char> {
    "manual_edit partition not found, call ensure_manual_partition first"@
}

/// Applies a human edit of a file to the manual_edit partition (see
/// `record_edit`; the snapshot's partition type is `manual`) and returns the
/// snapshot the partition points at.
pub fn apply_manual_edit<S: SnapshotStore + DeltaStore + FileNodeStore + PartitionStore>(
    storage: &S,
    file_path: &str,
    new_content: &str,
) -> (r: Result<SnapshotId, StratumError>)
    ensures
        r matches Err(e) ==> (e is Storage || e is Engine || (e matches StratumError::NotFound(m) && m@ == manual_missing_msg())),
        r matches Ok(id) ==> edit_recorded(Seq::new(15, |i: int| 0u8).push(1u8), file_path@, new_content@, SourceType::Manual,
            partition_type_name(PartitionTypeV::Manual), id),
{
    let pid = manual_partition_id();
    record_edit(
        storage,
        &pid,
        "manual_edit partition not found, call ensure_manual_partition first".to_string(),
        file_path,
        new_content,
        SourceType::Manual,
        PartitionType::Manual.name(),
    )
}

/// Merges the manual_edit partition's current snapshot into staged.
///
/// When the manual text differs from the staged text, the delta between them
/// (of the staged file, a manual change) and a merge snapshot of the staged
/// and manual snapshots (type `staged`) are recorded and staged points at it.
/// Returns the snapshot staged points at.
pub fn merge_manual_to_staged<S: SnapshotStore + DeltaStore + FileNodeStore + PartitionStore>(storage: &S) -> (r: Result<SnapshotId, StratumError>)
    ensures
        r matches Err(e) ==> (e is Storage || e is Engine || (e matches StratumError::NotFound(m) && (m@ == "manual_edit partition not found"@
            || m@ == "staged partition not found"@))),
        r matches Ok(id) ==> two_way_merged(seq![0x60u8] + Seq::new(15, |i: int| 0u8), Seq::new(15, |i: int| 0u8).push(1u8),
            partition_type_name(PartitionTypeV::Staged), id),
{
    let manual_pid = manual_partition_id();
    let staged_pid = staged_partition_id();
    let manual_partition = match storage.get_partition(&manual_pid) {
        Ok(p) => p,
        Err(_) => return Err(StratumError::NotFound("manual_edit partition not found".to_string())),
    };
    let staged_partition = match storage.get_partition(&staged_pid) {
        Ok(p) => p,
        Err(_) => return Err(StratumError::NotFound("staged partition not found".to_string())),
    };
    let manual_snapshot = match storage.get_snapshot(&manual_partition.current_snapshot) {
        Ok(s) => s,
        Err(e) => return Err(StratumError::Storage(e)),
    };
    let staged_snapshot = match storage.get_snapshot(&staged_partition.current_snapshot) {
        Ok(s) => s,
        Err(e) => return Err(StratumError::Storage(e)),
    };
    let manual_text = reconstruct_text(storage, &manual_snapshot)?;
    let staged_text = reconstruct_text(storage, &staged_snapshot)?;
    let parents = vec![&staged_snapshot, &manual_snapshot];
    proof {
        assert(Seq::new(parents@.len(), |i: int| parents@[i].id.0@) =~= seq![staged_snapshot.id.0@, manual_snapshot.id.0@]);
    }
    let step = merge_step(
        parents,
        staged_snapshot.file.clone(),
        staged_text.as_str(),
        manual_text.as_str(),
        SourceType::Manual,
        PartitionType::Staged.name(),
        false,
    );
    let id = match step {
        None => staged_partition.current_snapshot,
        Some((delta, snapshot)) => {
            let id = record_merge(storage, &staged_pid, &delta, &snapshot)?;
            proof {
                assert(snapshot.id == id && delta.diff@ == spec_line_diff(staged_text@, manual_text@));
            }
            id
        },
    };
    proof {
        assert(two_way_merged_over(staged_partition, manual_partition, staged_snapshot, manual_snapshot, staged_text@, manual_text@,
            staged_pid.0@, manual_pid.0@, partition_type_name(PartitionTypeV::Staged), id));
    }
    Ok(id)
}

} // verus!
