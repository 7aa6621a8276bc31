//! The agent_edit layer: one partition per agent instance, holding the
//! agent's edits until they are submitted for approval or discarded.

use crate::error::StratumError;
use crate::layered::transition::reconstruct_text;
use crate::layered::{merge_step, record_merge};
use crate::model::partition::Partition;
use crate::model::snapshot::Snapshot;
use crate::model::types::{partition_type_name, AgentInstanceId, PartitionId, PartitionType, PartitionTypeV, SnapshotId, SourceType};
use crate::layered::{two_way_merged, two_way_merged_over};
use crate::engine::diff::spec_line_diff;
use crate::state_machine::approval::approval_agent_partition_id;
use crate::state_machine::{edit_recorded, mixed_bytes, mixed_id, record_edit};
use crate::storage::repository::{DeltaStore, FileNodeStore, PartitionStore, SnapshotStore};
use crate::text::append_str;
use vstd::prelude::*;
use vstd::utf8::encode_utf8;

verus! {

broadcast use vstd::string::group_string_axioms;

/// The identifier of an agent's partition: the agent identifier's first 16
/// bytes added (wrapping) to the namespace `0x20` then zeros.
pub fn agent_partition_id(agent_id: &AgentInstanceId) -> (r: PartitionId)
    ensures
        r.0@ == mixed_bytes(0x20, encode_utf8(agent_id.0@)),
{
    mixed_id(0x20, agent_id.0.as_str().as_bytes())
}

fn agent_message(prefix: &str, agent_id: &AgentInstanceId, suffix: &str) -> (r: String)
    ensures
        r@ == prefix@ + agent_id.0@ + suffix@,
{
    let mut s = prefix.to_string();
    append_str(&mut s, agent_id.0.as_str());
    append_str(&mut s, suffix);
    s
}

/// An agent's partition, or a new partition named `agent_edit/<agent>` (with
/// a fresh identifier) at `initial_snapshot_id` when the backend has none.
pub fn ensure_agent_partition<S: PartitionStore>(storage: &S, agent_id: &AgentInstanceId, initial_snapshot_id: SnapshotId) -> (r: Result<Partition, StratumError>)
    ensures
        r matches Err(e) ==> e is Storage,
{
    let pid = agent_partition_id(agent_id);
    match storage.get_partition(&pid) {
        Ok(p) => Ok(p),
        Err(_) => {
            let partition = Partition::new(
                agent_message("agent_edit/", agent_id, ""),
                PartitionType::Agent(agent_id.clone()),
                initial_snapshot_id,
            );
            match storage.create_partition(&partition) {
                Ok(()) => Ok(partition),
                Err(e) => Err(StratumError::Storage(e)),
            }
        },
    }
}

/// The message for an agent whose partition is absent when editing.
pub open spec fn agent_missing_msg(agent: Seq<char>) -> Seq<char> {
    "agent partition for "@ + agent + " not found, call ensure_agent_partition first"@
}

/// Applies an agent's edit of a file to the agent's partition (see
/// `record_edit`; the change comes from the agent and the snapshot's
/// partition type is `agent/<agent>`) and returns the snapshot the partition
/// points at.
pub fn apply_agent_edit<S: SnapshotStore + DeltaStore + FileNodeStore + PartitionStore>(
    storage: &S,
    agent_id: &AgentInstanceId,
    file_path: &str,
    new_content: &str,
) -> (r: Result<SnapshotId, StratumError>)
    ensures
        r matches Err(e) ==> (e is Storage || e is Engine || (e matches StratumError::NotFound(m) && m@ == agent_missing_msg(agent_id.0@))),
        r matches Ok(id) ==> exists|src: SourceType| src@ == SourceType::Agent(*agent_id)@ && #[trigger] edit_recorded(
            mixed_bytes(0x20, encode_utf8(agent_id.0@)),
            file_path@,
            new_content@,
            src,
            partition_type_name(PartitionTypeV::Agent(agent_id.0@)),
            id,
        ),
{
    let pid = agent_partition_id(agent_id);
    record_edit(
        storage,
        &pid,
        agent_message("agent partition for ", agent_id, " not found, call ensure_agent_partition first"),
        file_path,
        new_content,
        SourceType::Agent(agent_id.clone()),
        PartitionType::Agent(agent_id.clone()).name(),
    )
}

/// The message for an absent agent partition.
pub open spec fn agent_partition_missing_msg(agent: Seq<char>) -> Seq<char> {
    "agent partition "@ + agent + " not found"@
}

/// The message for an agent without an approval partition.
pub open spec fn approval_partition_missing_msg(agent: Seq<char>) -> Seq<char> {
    "approval partition for agent "@ + agent + " not found, call ensure_approval_agent_partition first"@
}

/// Submits an agent's work for approval: when the agent's text differs from
/// its approval partition's text, the delta between them (of the agent
/// snapshot's file, from the agent) and a merge snapshot of the approval and
/// agent snapshots (type `approval/<agent>`) are recorded and the approval
/// partition points at it. Returns the snapshot the approval partition
/// points at.
pub fn move_agent_to_approval<S: SnapshotStore + DeltaStore + FileNodeStore + PartitionStore>(
    storage: &S,
    agent_id: &AgentInstanceId,
) -> (r: Result<SnapshotId, StratumError>)
    ensures
        r matches Err(e) ==> (e is Storage || e is Engine || (e matches StratumError::NotFound(m) && (m@ == agent_partition_missing_msg(
            agent_id.0@,
        ) || m@ == approval_partition_missing_msg(agent_id.0@)))),
        r matches Ok(id) ==> two_way_merged(mixed_bytes(0x30, encode_utf8(agent_id.0@)), mixed_bytes(0x20, encode_utf8(agent_id.0@)),
            partition_type_name(PartitionTypeV::Approval(agent_id.0@)), id),
{
    let agent_pid = agent_partition_id(agent_id);
    let approval_pid = approval_agent_partition_id(agent_id);
    let agent_partition = match storage.get_partition(&agent_pid) {
        Ok(p) => p,
        Err(_) => return Err(StratumError::NotFound(agent_message("agent partition ", agent_id, " not found"))),
    };
    let approval_partition = match storage.get_partition(&approval_pid) {
        Ok(p) => p,
        Err(_) => return Err(StratumError::NotFound(agent_message(
            "approval partition for agent ",
            agent_id,
            " not found, call ensure_approval_agent_partition first",
        ))),
    };
    let agent_snapshot = match storage.get_snapshot(&agent_partition.current_snapshot) {
        Ok(s) => s,
        Err(e) => return Err(StratumError::Storage(e)),
    };
    let approval_snapshot = match storage.get_snapshot(&approval_partition.current_snapshot) {
        Ok(s) => s,
        Err(e) => return Err(StratumError::Storage(e)),
    };
    let agent_text = reconstruct_text(storage, &agent_snapshot)?;
    let approval_text = reconstruct_text(storage, &approval_snapshot)?;
    let parents = vec![&approval_snapshot, &agent_snapshot];
    proof {
        assert(Seq::new(parents@.len(), |i: int| parents@[i].id.0@) =~= seq![approval_snapshot.id.0@, agent_snapshot.id.0@]);
    }
    let step = merge_step(
        parents,
        agent_snapshot.file.clone(),
        approval_text.as_str(),
        agent_text.as_str(),
        SourceType::Agent(agent_id.clone()),
        PartitionType::Approval(agent_id.clone()).name(),
        false,
    );
    let id = match step {
        None => approval_partition.current_snapshot,
        Some((delta, snapshot)) => {
            let id = record_merge(storage, &approval_pid, &delta, &snapshot)?;
            proof {
                assert(snapshot.id == id && delta.diff@ == spec_line_diff(approval_text@, agent_text@));
            }
            id
        },
    };
    proof {
        assert(two_way_merged_over(approval_partition, agent_partition, approval_snapshot, agent_snapshot, approval_text@, agent_text@,
            approval_pid.0@, agent_pid.0@, partition_type_name(PartitionTypeV::Approval(agent_id.0@)), id));
    }
    Ok(id)
}

/// The message for an agent snapshot without a parent.
pub open spec fn no_parent_to_discard_msg() -> Seq<char> {
    "agent has no parent snapshot to discard to"@
}

/// Whether `p` is the partition with identifier `pid`, `s` the snapshot it
/// points at, and `id` the first parent of `s`.
pub open spec fn discards_to(p: Partition, s: Snapshot, pid: Seq<u8>, id: SnapshotId) -> bool {
    &&& p.id.0@ == pid
    &&& s.id.0@ == p.current_snapshot.0@
    &&& s.parents@.len() > 0
    &&& id == s.parents@[0]
}

/// Whether, for a partition with identifier `pid` as read and the snapshot it
/// pointed at, `id` is that snapshot's first parent.
pub open spec fn first_parent_of_current(pid: Seq<u8>, id: SnapshotId) -> bool {
    exists|p: Partition, s: Snapshot| #[trigger] discards_to(p, s, pid, id)
}

/// Discards the agent's last edit: its partition is pointed at the first
/// parent of its current snapshot, which is returned.
pub fn discard_agent_edit<S: SnapshotStore + PartitionStore>(storage: &S, agent_id: &AgentInstanceId) -> (r: Result<SnapshotId, StratumError>)
    ensures
        r matches Err(e) ==> (e is Storage || (e matches StratumError::NotFound(m) && m@ == agent_partition_missing_msg(agent_id.0@))
            || (e matches StratumError::StateMachine(m) && m@ == no_parent_to_discard_msg())),
        r matches Ok(id) ==> first_parent_of_current(mixed_bytes(0x20, encode_utf8(agent_id.0@)), id),
{
    let pid = agent_partition_id(agent_id);
    let partition = match storage.get_partition(&pid) {
        Ok(p) => p,
        Err(_) => return Err(StratumError::NotFound(agent_message("agent partition ", agent_id, " not found"))),
    };
    let current_snapshot = match storage.get_snapshot(&partition.current_snapshot) {
        Ok(s) => s,
        Err(e) => return Err(StratumError::Storage(e)),
    };
    if current_snapshot.parents.len() > 0 {
        let parent_id = current_snapshot.parents[0];
        match storage.update_pointer(&pid, &parent_id) {
            Ok(()) => {
                proof {
                    assert(discards_to(partition, current_snapshot, mixed_bytes(0x20, encode_utf8(agent_id.0@)), parent_id));
                    assert(first_parent_of_current(mixed_bytes(0x20, encode_utf8(agent_id.0@)), parent_id));
                }
                Ok(parent_id)
            },
            Err(e) => Err(StratumError::Storage(e)),
        }
    } else {
        Err(StratumError::StateMachine("agent has no parent snapshot to discard to".to_string()))
    }
}

} // verus!
