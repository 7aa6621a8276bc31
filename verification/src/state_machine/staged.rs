//! The staged partition in the first form of the state machine.

use crate::error::StratumError;
use crate::model::partition::Partition;
use crate::model::types::{PartitionType, SnapshotId};
use crate::storage::repository::PartitionStore;
use vstd::prelude::*;

pub use crate::layered::staged::{merge_approval_to_staged, reset_staged, staged_partition_id};

verus! {

/// The staged partition, or a new partition named `staged` (with a fresh
/// identifier) at `initial_snapshot_id` when the backend has none.
pub fn ensure_staged_partition<S: PartitionStore>(storage: &S, initial_snapshot_id: SnapshotId) -> (r: Result<Partition, StratumError>)
    ensures
        r matches Err(e) ==> e is Storage,
{
    let pid = staged_partition_id();
    match storage.get_partition(&pid) {
        Ok(p) => Ok(p),
        Err(_) => {
            let partition = Partition::new("staged".to_string(), PartitionType::Staged, initial_snapshot_id);
            match storage.create_partition(&partition) {
                Ok(()) => Ok(partition),
                Err(e) => Err(StratumError::Storage(e)),
            }
        },
    }
}

} // verus!
