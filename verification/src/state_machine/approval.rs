//! Approval, integration and unified partitions in the first form of the
//! state machine. Agent and integration partitions are identified by mixing
//! the name's bytes into a fixed namespace; integration is a two-way merge
//! and unified absorbs the integration partitions one after the other.

use crate::error::StratumError;
use crate::layered::transition::{rebuild_text, reconstruct_text, snapshot_text};
use crate::layered::{ensure_partition, fixed_partition, merge_step, record_merge, two_way_merged, two_way_merged_over};
use crate::model::delta::Delta;
use crate::model::file_node::FileNode;
use crate::engine::diff::{diff_to_line_diff, spec_line_diff};
use crate::engine::line_ops::no_lone_cr;
use crate::engine::merge::{apply_diff, lemma_one_delta_chain, rebuild, Applied};
use crate::text::{join_lines, spec_lines};
use crate::model::partition::Partition;
use crate::model::snapshot::{ids_view, snapshot_digest, Snapshot};
use crate::model::types::{partition_type_name, AgentInstanceId, ContentId, PartitionId, PartitionType, PartitionTypeV, SnapshotId, SourceType};
use crate::state_machine::{mixed_bytes, mixed_id};
use crate::storage::repository::{DeltaStore, FileNodeStore, PartitionStore, SnapshotStore};
use crate::text::append_str;
use vstd::prelude::*;
use vstd::utf8::encode_utf8;

pub use crate::layered::integrated::migrate_between_partitions;
pub use crate::layered::unified::unified_partition_id;

verus! {

broadcast use vstd::string::group_string_axioms;

/// The identifier of an agent's approval partition: the agent identifier's
/// first 16 bytes added (wrapping) to the namespace `0x30` then zeros.
pub fn approval_agent_partition_id(agent_id: &AgentInstanceId) -> (r: PartitionId)
    ensures
        r.0@ == mixed_bytes(0x30, encode_utf8(agent_id.0@)),
{
    mixed_id(0x30, agent_id.0.as_str().as_bytes())
}

/// The identifier of the integration partition named `name`: the name's
/// first 16 bytes added (wrapping) to the namespace `0x40` then zeros.
pub fn integrated_partition_id(name: &str) -> (r: PartitionId)
    ensures
        r.0@ == mixed_bytes(0x40, encode_utf8(name@)),
{
    mixed_id(0x40, name.as_bytes())
}

fn named(prefix: &str, name: &str, suffix: &str) -> (r: String)
    ensures
        r@ == prefix@ + name@ + suffix@,
{
    let mut s = prefix.to_string();
    append_str(&mut s, name);
    append_str(&mut s, suffix);
    s
}

/// An agent's approval partition, or a new one (named `approval/<agent>`) at
/// `initial_snapshot_id` when the backend has none.
pub fn ensure_approval_agent_partition<S: PartitionStore>(
    storage: &S,
    agent_id: &AgentInstanceId,
    initial_snapshot_id: SnapshotId,
) -> (r: Result<Partition, StratumError>)
    ensures
        r matches Err(e) ==> e is Storage,
        r matches Ok(p) ==> p.id.0@ == mixed_bytes(0x30, encode_utf8(agent_id.0@)),
{
    let p = fixed_partition(
        approval_agent_partition_id(agent_id),
        named("approval/", agent_id.0.as_str(), ""),
        initial_snapshot_id,
        PartitionType::Approval(agent_id.clone()),
    );
    ensure_partition(storage, p)
}

/// The integration partition named `name`, or a new one (named
/// `integrated/<name>`) at `initial_snapshot_id` when the backend has none.
pub fn ensure_integrated_partition<S: PartitionStore>(storage: &S, name: &str, initial_snapshot_id: SnapshotId) -> (r: Result<Partition, StratumError>)
    ensures
        r matches Err(e) ==> e is Storage,
        r matches Ok(p) ==> p.id.0@ == mixed_bytes(0x40, encode_utf8(name@)),
{
    let p = fixed_partition(
        integrated_partition_id(name),
        named("integrated/", name, ""),
        initial_snapshot_id,
        PartitionType::Integrated(name.to_string()),
    );
    ensure_partition(storage, p)
}

/// The unified partition, or a new one named `unified` at
/// `initial_snapshot_id` when the backend has none.
pub fn ensure_unified_partition<S: PartitionStore>(storage: &S, initial_snapshot_id: SnapshotId) -> (r: Result<Partition, StratumError>)
    ensures
        r matches Err(e) ==> e is Storage,
        r matches Ok(p) ==> p.id.0@ == seq![0x50u8] + Seq::new(15, |i: int| 0u8),
{
    crate::layered::unified::ensure_unified_partition(storage, initial_snapshot_id)
}

/// The message for an absent approval partition of an agent.
pub open spec fn approval_missing_msg(agent: Seq<char>) -> Seq<char> {
    "approval agent partition "@ + agent + " not found"@
}

/// Whether `id` is the snapshot both the partitions `pid` and `qid` were
/// read pointing at (so that merging one into the other changed nothing).
pub open spec fn already_at(pid: Seq<u8>, qid: Seq<u8>, id: SnapshotId) -> bool {
    exists|p: Partition, q: Partition| #[trigger] already_at_over(p, q, pid, qid, id)
}

/// Whether `p` (identifier `pid`) and `q` (identifier `qid`) were read
/// pointing at the same snapshot `id`.
pub open spec fn already_at_over(p: Partition, q: Partition, pid: Seq<u8>, qid: Seq<u8>, id: SnapshotId) -> bool {
    &&& p.id.0@ == pid
    &&& q.id.0@ == qid
    &&& p.current_snapshot.0@ == q.current_snapshot.0@
    &&& id == p.current_snapshot
}

/// Moves an agent's approval partition into an integration partition by a
/// two-way merge.
///
/// The integration partition is created at the approval snapshot when
/// absent; when it already points there nothing changes. Otherwise, when the
/// approval text differs from the integration text, the delta between them
/// (of the approval snapshot's file, from the agent) and a merge snapshot of
/// the integration and approval snapshots (type `integrated/<name>`) are
/// recorded and the integration partition points at it.
pub fn move_approval_to_integrated<S: SnapshotStore + DeltaStore + FileNodeStore + PartitionStore>(
    storage: &S,
    agent_id: &AgentInstanceId,
    integrated_name: &str,
) -> (r: Result<SnapshotId, StratumError>)
    ensures
        r matches Err(e) ==> (e is Storage || e is Engine || (e matches StratumError::NotFound(m) && m@ == approval_missing_msg(agent_id.0@))),
        r matches Ok(id) ==> already_at(mixed_bytes(0x40, encode_utf8(integrated_name@)), mixed_bytes(0x30, encode_utf8(agent_id.0@)), id)
            || two_way_merged(mixed_bytes(0x40, encode_utf8(integrated_name@)), mixed_bytes(0x30, encode_utf8(agent_id.0@)),
            partition_type_name(PartitionTypeV::Integrated(integrated_name@)), id),
{
    let approval_pid = approval_agent_partition_id(agent_id);
    let integrated_pid = integrated_partition_id(integrated_name);
    let approval_partition = match storage.get_partition(&approval_pid) {
        Ok(p) => p,
        Err(_) => return Err(StratumError::NotFound(named("approval agent partition ", agent_id.0.as_str(), " not found"))),
    };
    let approval_snapshot = match storage.get_snapshot(&approval_partition.current_snapshot) {
        Ok(s) => s,
        Err(e) => return Err(StratumError::Storage(e)),
    };
    let integrated_partition = ensure_integrated_partition(storage, integrated_name, approval_partition.current_snapshot)?;
    if integrated_partition.current_snapshot == approval_partition.current_snapshot {
        proof {
            assert(already_at_over(integrated_partition, approval_partition, integrated_pid.0@, approval_pid.0@,
                integrated_partition.current_snapshot));
        }
        return Ok(integrated_partition.current_snapshot);
    }
    let integrated_snapshot = match storage.get_snapshot(&integrated_partition.current_snapshot) {
        Ok(s) => s,
        Err(e) => return Err(StratumError::Storage(e)),
    };
    let approval_text = reconstruct_text(storage, &approval_snapshot)?;
    let integrated_text = reconstruct_text(storage, &integrated_snapshot)?;
    let parents = vec![&integrated_snapshot, &approval_snapshot];
    proof {
        assert(Seq::new(parents@.len(), |i: int| parents@[i].id.0@) =~= seq![integrated_snapshot.id.0@, approval_snapshot.id.0@]);
    }
    let step = merge_step(
        parents,
        approval_snapshot.file.clone(),
        integrated_text.as_str(),
        approval_text.as_str(),
        SourceType::Agent(agent_id.clone()),
        PartitionType::Integrated(integrated_name.to_string()).name(),
        false,
    );
    let id = match step {
        None => integrated_partition.current_snapshot,
        Some((delta, snapshot)) => {
            let id = record_merge(storage, &integrated_pid, &delta, &snapshot)?;
            proof {
                assert(snapshot.id == id && delta.diff@ == spec_line_diff(integrated_text@, approval_text@));
            }
            id
        },
    };
    proof {
        assert(two_way_merged_over(integrated_partition, approval_partition, integrated_snapshot, approval_snapshot, integrated_text@,
            approval_text@, integrated_pid.0@, approval_pid.0@, partition_type_name(PartitionTypeV::Integrated(integrated_name@)), id));
    }
    Ok(id)
}

/// The message for an absent integration partition.
pub open spec fn integrated_missing_msg(name: Seq<char>) -> Seq<char> {
    "integrated partition "@ + name + " not found"@
}

/// What absorbing the text `t` into the merged text `m` gives: `m` when they
/// have no line difference, else the lines that the diff from `m` to `t`
/// makes of `m`'s lines, joined (`m` where that diff does not apply).
pub open spec fn absorb_next(m: Seq<char>, t: Seq<char>) -> Seq<char> {
    if spec_line_diff(m, t).len() == 0 {
        m
    } else {
        match apply_diff(spec_lines(m), spec_line_diff(m, t)) {
            Applied::Done(ls) => join_lines(ls),
            _ => m,
        }
    }
}

/// What absorbing the texts `ts` one after the other into `m` gives.
pub open spec fn absorb_all(m: Seq<char>, ts: Seq<Seq<char>>) -> Seq<char>
    decreases ts.len(),
{
    if ts.len() == 0 {
        m
    } else {
        absorb_next(absorb_all(m, ts.drop_last()), ts.last())
    }
}

/// One step of absorbing a partition's text into the merged text. Nothing
/// changes when the two texts have no line difference. Otherwise the delta
/// from the merged text to the partition's text (of `file`, a manual change)
/// is made, and the merged text becomes the merged text rebuilt through it
/// (see `rebuild_text`); for texts without a lone carriage return and with fewer
/// than `u32::MAX` lines, that is the partition's text.
pub fn absorb_text(merged: &str, file: &FileNode, text: &str) -> (r: Result<(String, Option<Delta>), StratumError>)
    ensures
        spec_line_diff(merged@, text@).len() == 0 <==> (r matches Ok((_, d)) && d is None),
        r matches Ok((t, None)) ==> t@ == merged@,
        r matches Ok((t, Some(d))) ==> {
            &&& d.diff@ == spec_line_diff(merged@, text@)
            &&& d.file@ == file@
            &&& d.source is Manual
            &&& rebuild(merged@, seq![d]) matches Applied::Done(ls) && t@ == join_lines(ls)
        },
        r is Err ==> spec_line_diff(merged@, text@).len() > 0 && (r matches Err(StratumError::Engine(_))),
        r matches Ok((t, _)) ==> t@ == absorb_next(merged@, text@),
        no_lone_cr(merged@) && no_lone_cr(text@) && spec_lines(merged@).len() < u32::MAX && spec_lines(text@).len() < u32::MAX
            ==> (r matches Ok((t, d)) && (d is Some ==> t@ == join_lines(spec_lines(text@)))),
{
    let diff = diff_to_line_diff(merged, text);
    if diff.is_empty() {
        return Ok((merged.to_string(), None));
    }
    let delta = Delta::new(file.duplicate(), diff, SourceType::Manual);
    let mut one: Vec<Delta> = Vec::new();
    one.push(delta);
    proof {
        assert(one@ =~= seq![delta]);
        lemma_one_delta_chain(merged@, delta);
    }
    let t = rebuild_text(merged, one.as_slice())?;
    let delta = one.pop().unwrap();
    Ok((t, Some(delta)))
}

/// What absorbing into unified records: the delta from the unified text
/// `base_text` to the merged text (of the unified snapshot's file, a manual
/// change) and the merge snapshot of `parents` (the unified snapshot first,
/// then every partition's snapshot) one delta past the unified snapshot, of
/// type `unified`.
pub fn unified_record(parents: Vec<&Snapshot>, base_text: &str, merged_text: &str) -> (r: (Delta, Snapshot))
    requires
        parents@.len() > 0,
    ensures
        r.0.diff@ == spec_line_diff(base_text@, merged_text@),
        r.0.file@ == parents@[0].file@,
        r.0.source is Manual,
        r.1.file@ == parents@[0].file@,
        ids_view(r.1.deltas@) == ids_view(parents@[0].deltas@).push(r.0.id.0@),
        ids_view(r.1.parents@) == Seq::new(parents@.len(), |i: int| parents@[i].id.0@),
        r.1.partition_type@ == partition_type_name(PartitionTypeV::Unified),
        !r.1.has_conflicts,
        r.1.id.0@ == snapshot_digest(r.1@),
{
    let final_diff = diff_to_line_diff(base_text, merged_text);
    let merge_delta = Delta::new(parents[0].file.clone(), final_diff, SourceType::Manual);
    let new_snapshot = Snapshot::merge(parents, merge_delta.id, PartitionType::Unified.name(), false);
    (merge_delta, new_snapshot)
}

/// Whether `id` is the snapshot unified points at after absorbing the
/// integration partitions named `names`, for the values read: the unified
/// partition `up` and its snapshot `us` (whose text was read as `u0`, then
/// again as `u1`), the integration partitions `qs` with their snapshots `ps`
/// and texts `ts`: `sn` is the merge snapshot of `us` and every `ps`, of type
/// `unified`, one delta past `us`, that delta being the diff from `u1` to
/// the texts `ts` absorbed into `u0` in order.
pub open spec fn unified_absorbed_over(
    up: Partition,
    us: Snapshot,
    u0: Seq<char>,
    u1: Seq<char>,
    qs: Seq<Partition>,
    ps: Seq<Snapshot>,
    ts: Seq<Seq<char>>,
    names: Seq<String>,
    sn: Snapshot,
    d: Delta,
    id: SnapshotId,
) -> bool {
    &&& up.id.0@ == seq![0x50u8] + Seq::new(15, |i: int| 0u8)
    &&& us.id.0@ == up.current_snapshot.0@
    &&& snapshot_text(us, u0) && snapshot_text(us, u1)
    &&& qs.len() == names.len() && ps.len() == names.len() && ts.len() == names.len()
    &&& forall|i: int| 0 <= i < names.len() ==> (#[trigger] qs[i]).id.0@ == mixed_bytes(0x40, encode_utf8(names[i]@))
        && ps[i].id.0@ == qs[i].current_snapshot.0@ && snapshot_text(ps[i], ts[i])
    &&& sn.id == id
    &&& ids_view(sn.parents@) == seq![us.id.0@] + Seq::new(ps.len(), |i: int| ps[i].id.0@)
    &&& sn.partition_type@ == partition_type_name(PartitionTypeV::Unified)
    &&& d.diff@ == spec_line_diff(u1, absorb_all(u0, ts))
    &&& ids_view(sn.deltas@) == ids_view(us.deltas@).push(d.id.0@)
}

/// Whether `id` is the snapshot unified points at after absorbing the
/// integration partitions named `names`, for some values read (see
/// `unified_absorbed_over`).
pub open spec fn unified_absorbed(names: Seq<String>, id: SnapshotId) -> bool {
    exists|up: Partition, us: Snapshot, u0: Seq<char>, u1: Seq<char>, qs: Seq<Partition>, ps: Seq<Snapshot>, ts: Seq<Seq<char>>, sn: Snapshot, d: Delta|
        #[trigger] unified_absorbed_over(up, us, u0, u1, qs, ps, ts, names, sn, d, id)
}

/// Whether `id` is the snapshot the unified partition was read pointing at.
pub open spec fn unified_read_at(id: SnapshotId) -> bool {
    exists|up: Partition| up.id.0@ == seq![0x50u8] + Seq::new(15, |i: int| 0u8) && #[trigger] up.current_snapshot == id
}

/// Moves integration partitions into unified, absorbing them one after the
/// other.
///
/// With no names, unified is created at a placeholder snapshot (the content
/// address of `unified-placeholder`) when absent, and its snapshot returned.
/// Otherwise unified is created at the first partition's snapshot when
/// absent; starting from the unified text, each partition's text is absorbed
/// in turn (see `absorb_text`; each delta it makes is stored); finally what
/// `unified_record` makes of the unified text and the merged text (the delta
/// between them and a merge snapshot of the unified snapshot and every
/// partition's snapshot) is recorded and unified points at it.
pub fn move_integrated_to_unified<S: SnapshotStore + DeltaStore + FileNodeStore + PartitionStore>(
    storage: &S,
    integrated_names: &[String],
) -> (r: Result<SnapshotId, StratumError>)
    ensures
        r matches Err(e) ==> (e is Storage || e is Engine || (e matches StratumError::NotFound(m) && (m@ == "unified partition not found"@
            || exists|i: int| 0 <= i < integrated_names@.len() && m@ == integrated_missing_msg(integrated_names@[i]@)))),
        r matches Ok(id) ==> (integrated_names@.len() == 0 ==> unified_read_at(id)),
        r matches Ok(id) ==> (integrated_names@.len() > 0 ==> unified_absorbed(integrated_names@, id)),
{
    let unified_pid = unified_partition_id();
    if integrated_names.len() == 0 {
        let placeholder = ContentId::from_content("unified-placeholder".as_bytes());
        let _ = ensure_unified_partition(storage, placeholder)?;
        let unified = match storage.get_partition(&unified_pid) {
            Ok(p) => p,
            Err(_) => return Err(StratumError::NotFound("unified partition not found".to_string())),
        };
        proof {
            assert(unified_read_at(unified.current_snapshot));
        }
        return Ok(unified.current_snapshot);
    }
    let first_pid = integrated_partition_id(integrated_names[0].as_str());
    let first_part = match storage.get_partition(&first_pid) {
        Ok(p) => p,
        Err(_) => return Err(StratumError::NotFound(named("integrated partition ", integrated_names[0].as_str(), " not found"))),
    };
    let unified_partition = ensure_unified_partition(storage, first_part.current_snapshot)?;
    let unified_snapshot = match storage.get_snapshot(&unified_partition.current_snapshot) {
        Ok(s) => s,
        Err(e) => return Err(StratumError::Storage(e)),
    };
    let unified_text = reconstruct_text(storage, &unified_snapshot)?;
    let mut merged_text = unified_text.clone();
    let mut parent_snapshots: Vec<Snapshot> = Vec::new();
    let ghost mut qs: Seq<Partition> = seq![];
    let ghost mut ts: Seq<Seq<char>> = seq![];
    let ghost u0 = unified_text@;
    proof {
        assert(absorb_all(u0, ts) == u0);
    }
    let mut i: usize = 0;
    while i < integrated_names.len()
        invariant
            i <= integrated_names@.len(),
            qs.len() == i && parent_snapshots@.len() == i && ts.len() == i,
            forall|j: int| 0 <= j < i ==> (#[trigger] qs[j]).id.0@ == mixed_bytes(0x40, encode_utf8(integrated_names@[j]@))
                && parent_snapshots@[j].id.0@ == qs[j].current_snapshot.0@ && snapshot_text(parent_snapshots@[j], ts[j]),
            merged_text@ == absorb_all(u0, ts),
        decreases integrated_names@.len() - i,
    {
        let name = integrated_names[i].as_str();
        let pid = integrated_partition_id(name);
        let part = match storage.get_partition(&pid) {
            Ok(p) => p,
            Err(_) => {
                let m = named("integrated partition ", name, " not found");
                proof {
                    assert(m@ == integrated_missing_msg(integrated_names@[i as int]@));
                }
                return Err(StratumError::NotFound(m));
            },
        };
        let snap = match storage.get_snapshot(&part.current_snapshot) {
            Ok(s) => s,
            Err(e) => return Err(StratumError::Storage(e)),
        };
        let text = reconstruct_text(storage, &snap)?;
        let (next_text, absorbed) = absorb_text(merged_text.as_str(), &snap.file, text.as_str())?;
        if let Some(delta) = absorbed {
            if let Err(e) = storage.store_delta(&delta) {
                return Err(StratumError::Storage(e));
            }
        }
        proof {
            let ts2 = ts.push(text@);
            assert(ts2.drop_last() =~= ts);
            assert(next_text@ == absorb_all(u0, ts2));
            qs = qs.push(part);
            ts = ts2;
        }
        merged_text = next_text;
        parent_snapshots.push(snap);
        i += 1;
    }
    let mut all_parents: Vec<&Snapshot> = Vec::new();
    all_parents.push(&unified_snapshot);
    let mut k: usize = 0;
    while k < parent_snapshots.len()
        invariant
            k <= parent_snapshots@.len(),
            all_parents@.len() == k + 1,
            *all_parents@[0] == unified_snapshot,
            forall|j: int| 0 <= j < k ==> *all_parents@[j + 1] == parent_snapshots@[j],
        decreases parent_snapshots@.len() - k,
    {
        all_parents.push(&parent_snapshots[k]);
        k += 1;
    }
    let ghost ps = parent_snapshots@;
    proof {
        assert(Seq::new(all_parents@.len(), |j: int| all_parents@[j].id.0@) =~= seq![unified_snapshot.id.0@]
            + Seq::new(ps.len(), |j: int| ps[j].id.0@));
    }
    let base_text = reconstruct_text(storage, &unified_snapshot)?;
    let (merge_delta, new_snapshot) = unified_record(all_parents, base_text.as_str(), merged_text.as_str());
    let id = record_merge(storage, &unified_pid, &merge_delta, &new_snapshot)?;
    proof {
        assert(unified_absorbed_over(unified_partition, unified_snapshot, u0, base_text@, qs, ps, ts, integrated_names@, new_snapshot,
            merge_delta, id));
        assert(unified_absorbed(integrated_names@, id));
    }
    Ok(id)
}

} // verus!
