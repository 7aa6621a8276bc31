//! What the command line shows of the layers and their partitions.

use crate::layered::StateMachine;
use crate::model::partition::Partition;
use crate::model::types::{spec_hex, PartitionType, PartitionTypeV};
use crate::storage::repository::{BranchStore, CheckpointStore, LayerStore, PartitionStore};
use vstd::prelude::*;

verus! {

broadcast use vstd::string::group_string_axioms;

/// Output format mode.
#[derive(Debug, Clone, Copy, PartialEq, Eq, Structural)]
pub enum OutputFormat {
    Plain,
    Json,
}

/// The name of the layer a kind of partition lives in: agent partitions in
/// `agent_edit`; approval, integration and unified partitions in `approval`.
pub open spec fn partition_layer_name(pt: PartitionTypeV) -> Seq<char> {
    match pt {
        PartitionTypeV::Manual => "manual_edit"@,
        PartitionTypeV::Agent(_) => "agent_edit"@,
        PartitionTypeV::Approval(_) => "approval"@,
        PartitionTypeV::Integrated(_) => "approval"@,
        PartitionTypeV::Unified => "approval"@,
        PartitionTypeV::Staged => "staged"@,
    }
}

/// The name of the layer a kind of partition lives in.
pub fn layer_name_for_partition(pt: &PartitionType) -> (r: String)
    ensures
        r@ == partition_layer_name(pt@),
{
    match pt {
        PartitionType::Manual => "manual_edit".to_string(),
        PartitionType::Agent(_) => "agent_edit".to_string(),
        PartitionType::Approval(_) => "approval".to_string(),
        PartitionType::Integrated(_) => "approval".to_string(),
        PartitionType::Unified => "approval".to_string(),
        PartitionType::Staged => "staged".to_string(),
    }
}

/// One row of the status table.
#[derive(Debug)]
pub struct StatusEntry {
    pub layer: String,
    pub partition: String,
    pub current_snapshot: String,
    pub history_len: usize,
}

/// The status table: one row per partition, or the error met reading them.
#[derive(Debug)]
pub struct StatusOutput {
    pub entries: Vec<StatusEntry>,
    pub error: Option<String>,
}

impl StatusOutput {
    /// An empty table.
    pub fn new() -> (r: StatusOutput)
        ensures
            r.entries@.len() == 0,
            r.error is None,
    {
        StatusOutput { entries: Vec::new(), error: None }
    }

    /// Appends a row.
    pub fn add_entry(&mut self, layer: String, partition: String, snapshot: String, history: usize)
        ensures
            final(self).error == old(self).error,
            final(self).entries@.len() == old(self).entries@.len() + 1,
            forall|i: int| 0 <= i < old(self).entries@.len() ==> final(self).entries@[i] == old(self).entries@[i],
            ({
                let e = final(self).entries@.last();
                e.layer@ == layer@ && e.partition@ == partition@ && e.current_snapshot@ == snapshot@ && e.history_len == history
            }),
    {
        self.entries.push(StatusEntry { layer, partition, current_snapshot: snapshot, history_len: history });
    }
}

/// Whether a row shows a partition: its layer, name, current snapshot in
/// hexadecimal and number of snapshots in its history.
pub open spec fn row_shows(e: StatusEntry, p: Partition) -> bool {
    &&& e.layer@ == partition_layer_name(p.partition_type@)
    &&& e.partition@ == p.name@
    &&& e.current_snapshot@ == spec_hex(p.current_snapshot.0@)
    &&& e.history_len == p.history@.len()
}

/// The status table of some partitions: one row per partition, in order.
pub fn status_rows(partitions: &Vec<Partition>) -> (r: StatusOutput)
    ensures
        r.error is None,
        r.entries@.len() == partitions@.len(),
        forall|i: int| 0 <= i < partitions@.len() ==> row_shows(#[trigger] r.entries@[i], partitions@[i]),
{
    let mut out = StatusOutput::new();
    let mut i: usize = 0;
    while i < partitions.len()
        invariant
            i <= partitions@.len(),
            out.error is None,
            out.entries@.len() == i,
            forall|j: int| 0 <= j < i ==> row_shows(#[trigger] out.entries@[j], partitions@[j]),
        decreases partitions@.len() - i,
    {
        let p = &partitions[i];
        out.add_entry(layer_name_for_partition(&p.partition_type), p.name.clone(), p.current_snapshot.to_hex(), p.history.len());
        i += 1;
    }
    out
}

/// The status table of every partition of the state machine's storage, or,
/// when the partitions cannot be read, no row and the storage error's message.
pub fn status_output<S: PartitionStore + BranchStore + CheckpointStore + LayerStore>(state_machine: &StateMachine<S>) -> (r: StatusOutput)
    ensures
        r.error matches Some(_) ==> r.entries@.len() == 0,
{
    match state_machine.storage().list_partitions() {
        Ok(partitions) => status_rows(&partitions),
        Err(e) => {
            let mut out = StatusOutput::new();
            out.error = Some(e.to_string());
            out
        },
    }
}

} // verus!
