//! Integration (feature) partitions of the approval layer: agents' approved
//! changes are merged into a named feature, which later flows to unified.

pub use crate::engine::merge::MergeConflict;
pub use crate::layered::unified::{ensure_unified_partition, move_integrated_to_unified, unified_partition_id};
use crate::engine::merge::try_merge_texts;
use crate::error::StratumError;
use crate::layered::transition::{reconstruct_text, snapshot_text};
use crate::layered::unified::three_way_outcome;
use crate::layered::unified::unmergeable;
use crate::layered::{ensure_partition, fixed_partition, merge_step, record_merge, MergeResult};
use crate::model::partition::Partition;
use crate::model::snapshot::Snapshot;
use crate::model::types::{partition_type_name, uuid_v5, AgentInstanceId, PartitionId, PartitionType, PartitionTypeV, SnapshotId, SourceType};
use crate::storage::repository::{DeltaStore, FileNodeStore, PartitionStore, SnapshotStore};
use crate::text::append_str;
use vstd::prelude::*;
use vstd::utf8::encode_utf8;

verus! {

broadcast use vstd::string::group_string_axioms;

/// The identifier of the integration partition named `name`: the version 5
/// UUID of the name in the namespace `0x40` then zeros.
pub fn integrated_partition_id(name: &str) -> (r: PartitionId)
    ensures
        r.0@ == uuid_v5(seq![0x40u8] + Seq::new(15, |i: int| 0u8), encode_utf8(name@)),
{
    let namespace = PartitionId::with_first_byte(0x40);
    PartitionId::new_v5(&namespace, name.as_bytes())
}

fn prefixed_name(prefix: &str, name: &str) -> (r: String)
    ensures
        r@ == prefix@ + name@,
{
    let mut s = prefix.to_string();
    append_str(&mut s, name);
    s
}

/// The integration partition named `name`, or a new one (named
/// `integrated/<name>`) at `initial_snapshot_id` when the backend has none.
pub fn ensure_integrated_partition<S: PartitionStore>(storage: &S, name: &str, initial_snapshot_id: SnapshotId) -> (r: Result<Partition, StratumError>)
    ensures
        r matches Err(e) ==> e is Storage,
        r matches Ok(p) ==> p.id.0@ == uuid_v5(seq![0x40u8] + Seq::new(15, |i: int| 0u8), encode_utf8(name@)),
{
    let p = fixed_partition(
        integrated_partition_id(name),
        prefixed_name("integrated/", name),
        initial_snapshot_id,
        PartitionType::Integrated(name.to_string()),
    );
    ensure_partition(storage, p)
}

/// Records a new feature partition (named `feature/<name>`) whose baseline,
/// the first snapshot of its history, is `baseline_snapshot_id`.
pub fn create_feature_branch<S: PartitionStore>(storage: &S, name: &str, baseline_snapshot_id: SnapshotId) -> (r: Result<Partition, StratumError>)
    ensures
        r matches Err(e) ==> e is Storage,
        r matches Ok(p) ==> {
            &&& p@.id == uuid_v5(seq![0x40u8] + Seq::new(15, |i: int| 0u8), encode_utf8(name@))
            &&& p@.name == "feature/"@ + name@
            &&& p@.current == baseline_snapshot_id.0@
            &&& p@.history == seq![baseline_snapshot_id.0@]
            &&& p@.partition_type == crate::model::types::PartitionTypeV::Integrated(name@)
        },
{
    let p = fixed_partition(
        integrated_partition_id(name),
        prefixed_name("feature/", name),
        baseline_snapshot_id,
        PartitionType::Integrated(name.to_string()),
    );
    match storage.create_partition(&p) {
        Ok(()) => Ok(p),
        Err(e) => Err(StratumError::Storage(e)),
    }
}

/// The message for an absent feature partition when reading its baseline.
pub open spec fn baseline_missing_msg(name: Seq<char>) -> Seq<char> {
    "integrated partition "@ + name + " not found"@
}

/// The message for a feature partition with an empty history.
pub open spec fn baseline_empty_msg(name: Seq<char>) -> Seq<char> {
    "integrated partition "@ + name + " has empty history"@
}

fn spaced_message(prefix: &str, name: &str, suffix: &str) -> (r: String)
    ensures
        r@ == prefix@ + name@ + suffix@,
{
    let mut s = prefix.to_string();
    append_str(&mut s, name);
    append_str(&mut s, suffix);
    s
}

/// The baseline snapshot of a feature: the first snapshot of its history.
/// A state-machine error when the history is empty.
pub fn get_feature_baseline<S: SnapshotStore + PartitionStore>(storage: &S, feature_name: &str) -> (r: Result<Snapshot, StratumError>)
    ensures
        r matches Err(e) ==> (e is Storage || (e matches StratumError::NotFound(m) && m@ == baseline_missing_msg(feature_name@))
            || (e matches StratumError::StateMachine(m) && m@ == baseline_empty_msg(feature_name@))),
{
    let pid = integrated_partition_id(feature_name);
    let part = match storage.get_partition(&pid) {
        Ok(p) => p,
        Err(_) => return Err(StratumError::NotFound(spaced_message("integrated partition ", feature_name, " not found"))),
    };
    if part.history.len() == 0 {
        return Err(StratumError::StateMachine(spaced_message("integrated partition ", feature_name, " has empty history")));
    }
    match storage.get_snapshot(&part.history[0]) {
        Ok(s) => Ok(s),
        Err(e) => Err(StratumError::Storage(e)),
    }
}

/// The message for an absent approval partition of an agent.
pub open spec fn approval_missing_msg(agent: Seq<char>) -> Seq<char> {
    "approval agent partition "@ + agent + " not found"@
}

/// Whether `m` is what merging an agent's approval partition into the
/// feature `name` gave, for the approval partition `ap` and feature partition
/// `ip` read, the feature's baseline snapshot `bs`, the approval and feature
/// snapshots `aps` and `fs`, and their texts `b`, `a`, `f`: nothing changes
/// when the feature already points at the approval snapshot; otherwise the
/// three-way merge of `a` and `f` over `b`, measured against the baseline
/// text (see `three_way_outcome`).
pub open spec fn agent_merged_over(
    ap: Partition,
    ip: Partition,
    bs: Snapshot,
    aps: Snapshot,
    fs: Snapshot,
    b: Seq<char>,
    a: Seq<char>,
    f: Seq<char>,
    agent: Seq<char>,
    name: Seq<char>,
    m: MergeResult,
) -> bool {
    &&& ap.id.0@ == uuid_v5(seq![0x30u8] + Seq::new(15, |i: int| 0u8), encode_utf8(agent))
    &&& ip.id.0@ == uuid_v5(seq![0x40u8] + Seq::new(15, |i: int| 0u8), encode_utf8(name))
    &&& ip.current_snapshot.0@ == ap.current_snapshot.0@ ==> m.snapshot_id == ip.current_snapshot && m.conflicts@.len() == 0
    &&& ip.current_snapshot.0@ != ap.current_snapshot.0@ ==> {
        &&& aps.id.0@ == ap.current_snapshot.0@
        &&& fs.id.0@ == ip.current_snapshot.0@
        &&& snapshot_text(bs, b) && snapshot_text(aps, a) && snapshot_text(fs, f)
        &&& three_way_outcome(ip.current_snapshot, b, a, f, b, seq![bs.id.0@, aps.id.0@, fs.id.0@],
            partition_type_name(PartitionTypeV::Integrated(name)), m)
    }
}

/// Whether `m` is what merging agent `agent`'s approval partition into the
/// feature `name` gave, for some values read (see `agent_merged_over`).
pub open spec fn agent_merged(agent: Seq<char>, name: Seq<char>, m: MergeResult) -> bool {
    exists|ap: Partition, ip: Partition, bs: Snapshot, aps: Snapshot, fs: Snapshot, b: Seq<char>, a: Seq<char>, f: Seq<char>|
        #[trigger] agent_merged_over(ap, ip, bs, aps, fs, b, a, f, agent, name, m)
}

/// Merges an agent's approval partition into a feature by a three-way merge.
///
/// The feature is created at the approval snapshot when absent; when it
/// already points at that snapshot nothing changes. Otherwise the base is the
/// feature's baseline, ours the approval text and theirs the feature text;
/// when the merged text differs from the baseline text, the delta between
/// them (of the baseline's file, from the agent) and a merge snapshot of the
/// baseline, approval and feature snapshots (type `integrated/<name>`,
/// flagged when there were conflicts) are recorded and the feature points at
/// it. Texts whose diffs name a base region that does not exist give an
/// engine error.
pub fn merge_agent_to_feature<S: SnapshotStore + DeltaStore + FileNodeStore + PartitionStore>(
    storage: &S,
    agent_id: &AgentInstanceId,
    feature_name: &str,
) -> (r: Result<MergeResult, StratumError>)
    ensures
        r matches Err(e) ==> (e is Storage || e is Engine || e is StateMachine || (e matches StratumError::NotFound(m) && (m@
            == approval_missing_msg(agent_id.0@) || m@ == baseline_missing_msg(feature_name@)))),
        r matches Ok(m) ==> agent_merged(agent_id.0@, feature_name@, m),
{
    let approval_pid = crate::layered::approval::approval_agent_partition_id(agent_id);
    let integrated_pid = integrated_partition_id(feature_name);
    let approval_partition = match storage.get_partition(&approval_pid) {
        Ok(p) => p,
        Err(_) => return Err(StratumError::NotFound(spaced_message("approval agent partition ", agent_id.0.as_str(), " not found"))),
    };
    let approval_snapshot = match storage.get_snapshot(&approval_partition.current_snapshot) {
        Ok(s) => s,
        Err(e) => return Err(StratumError::Storage(e)),
    };
    let integrated_partition = ensure_integrated_partition(storage, feature_name, approval_partition.current_snapshot)?;
    if integrated_partition.current_snapshot == approval_partition.current_snapshot {
        let m = MergeResult { snapshot_id: integrated_partition.current_snapshot, conflicts: Vec::new() };
        proof {
            assert(agent_merged_over(approval_partition, integrated_partition, approval_snapshot, approval_snapshot,
                approval_snapshot, seq![], seq![], seq![], agent_id.0@, feature_name@, m));
            assert(agent_merged(agent_id.0@, feature_name@, m));
        }
        return Ok(m);
    }
    let baseline_snapshot = get_feature_baseline(storage, feature_name)?;
    let integrated_snapshot = match storage.get_snapshot(&integrated_partition.current_snapshot) {
        Ok(s) => s,
        Err(e) => return Err(StratumError::Storage(e)),
    };
    let baseline_text = reconstruct_text(storage, &baseline_snapshot)?;
    let approval_text = reconstruct_text(storage, &approval_snapshot)?;
    let integrated_text = reconstruct_text(storage, &integrated_snapshot)?;
    let ghost pids = seq![baseline_snapshot.id.0@, approval_snapshot.id.0@, integrated_snapshot.id.0@];
    let ptype = PartitionType::Integrated(feature_name.to_string()).name();
    let parents = vec![&baseline_snapshot, &approval_snapshot, &integrated_snapshot];
    proof {
        assert(Seq::new(parents@.len(), |i: int| parents@[i].id.0@) =~= pids);
    }
    let (step, conflicts) = crate::layered::unified::three_way_step(
        parents,
        baseline_snapshot.file.clone(),
        baseline_text.as_str(),
        approval_text.as_str(),
        integrated_text.as_str(),
        baseline_text.as_str(),
        SourceType::Agent(agent_id.clone()),
        ptype,
    )?;
    let m = match step {
        None => MergeResult { snapshot_id: integrated_partition.current_snapshot, conflicts },
        Some((delta, snapshot)) => {
            let id = record_merge(storage, &integrated_pid, &delta, &snapshot)?;
            MergeResult { snapshot_id: id, conflicts }
        },
    };
    proof {
        assert(agent_merged_over(approval_partition, integrated_partition, baseline_snapshot, approval_snapshot,
            integrated_snapshot, baseline_text@, approval_text@, integrated_text@, agent_id.0@, feature_name@, m));
        assert(agent_merged(agent_id.0@, feature_name@, m));
    }
    Ok(m)
}

/// The snapshot the feature points at after merging the agent's approval
/// partition into it (see `merge_agent_to_feature`).
pub fn move_approval_to_integrated<S: SnapshotStore + DeltaStore + FileNodeStore + PartitionStore>(
    storage: &S,
    agent_id: &AgentInstanceId,
    integrated_name: &str,
) -> (r: Result<SnapshotId, StratumError>)
    ensures
        r matches Err(e) ==> (e is Storage || e is Engine || e is StateMachine || e is NotFound),
        r matches Ok(id) ==> exists|m: MergeResult| #[trigger] agent_merged(agent_id.0@, integrated_name@, m) && m.snapshot_id == id,
{
    match merge_agent_to_feature(storage, agent_id, integrated_name) {
        Ok(m) => Ok(m.snapshot_id),
        Err(e) => Err(e),
    }
}

/// Points the target partition at the source partition's current snapshot
/// (no content is written).
pub fn migrate_between_partitions<S: PartitionStore>(storage: &S, from_partition_id: &PartitionId, to_partition_id: &PartitionId) -> (r: Result<(), StratumError>)
    ensures
        r matches Err(e) ==> (e is Storage || (e matches StratumError::NotFound(m) && m@ == "source partition not found"@)),
{
    let from_partition = match storage.get_partition(from_partition_id) {
        Ok(p) => p,
        Err(_) => return Err(StratumError::NotFound("source partition not found".to_string())),
    };
    match storage.update_pointer(to_partition_id, &from_partition.current_snapshot) {
        Ok(()) => Ok(()),
        Err(e) => Err(StratumError::Storage(e)),
    }
}

} // verus!
