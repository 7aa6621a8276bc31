//! Approval partitions: one per agent, holding what the agent submitted
//! until it is merged into a feature or rejected.

use crate::error::StratumError;
use crate::layered::{ensure_partition, fixed_partition};
use crate::model::partition::{Partition, PartitionV};
use crate::model::types::{uuid_v5, AgentInstanceId, PartitionId, PartitionType, PartitionTypeV, SnapshotId};
use crate::storage::repository::PartitionStore;
use crate::text::append_str;
use vstd::prelude::*;
use vstd::utf8::encode_utf8;

verus! {

broadcast use vstd::string::group_string_axioms;

/// The identifier of an agent's approval partition: the version 5 UUID of
/// the agent identifier in the namespace `0x30` then zeros.
pub fn approval_agent_partition_id(agent_id: &AgentInstanceId) -> (r: PartitionId)
    ensures
        r.0@ == uuid_v5(seq![0x30u8] + Seq::new(15, |i: int| 0u8), encode_utf8(agent_id.0@)),
{
    let namespace = PartitionId::with_first_byte(0x30);
    PartitionId::new_v5(&namespace, agent_id.0.as_str().as_bytes())
}

/// An agent's approval partition, or a new one (named `approval/<agent>`) at
/// `initial_snapshot_id` when the backend has none.
pub fn ensure_approval_agent_partition<S: PartitionStore>(
    storage: &S,
    agent_id: &AgentInstanceId,
    initial_snapshot_id: SnapshotId,
) -> (r: Result<Partition, StratumError>)
    ensures
        r matches Err(e) ==> e is Storage,
        r matches Ok(p) ==> p.id.0@ == uuid_v5(seq![0x30u8] + Seq::new(15, |i: int| 0u8), encode_utf8(agent_id.0@)),
{
    let mut name = "approval/".to_string();
    append_str(&mut name, agent_id.0.as_str());
    let p = fixed_partition(approval_agent_partition_id(agent_id), name, initial_snapshot_id, PartitionType::Approval(agent_id.clone()));
    ensure_partition(storage, p)
}

/// The views of a list of partitions.
pub open spec fn pviews(ps: Seq<Partition>) -> Seq<PartitionV> {
    Seq::new(ps.len(), |i: int| ps[i]@)
}

/// The approval partitions among `ps` (or only those pending: with more than
/// one snapshot in their history), in order.
pub open spec fn approvals(ps: Seq<PartitionV>, pending_only: bool) -> Seq<PartitionV>
    decreases ps.len(),
{
    if ps.len() == 0 {
        seq![]
    } else {
        let rest = approvals(ps.drop_last(), pending_only);
        let p = ps.last();
        if p.partition_type is Approval && (!pending_only || p.history.len() > 1) {
            rest.push(p)
        } else {
            rest
        }
    }
}

/// The approval partitions among `ps` (see `approvals`).
pub fn filter_approvals(ps: &Vec<Partition>, pending_only: bool) -> (r: Vec<Partition>)
    ensures
        pviews(r@) == approvals(pviews(ps@), pending_only),
{
    let mut out: Vec<Partition> = Vec::new();
    let mut k: usize = 0;
    while k < ps.len()
        invariant
            k <= ps@.len(),
            pviews(out@) == approvals(pviews(ps@).take(k as int), pending_only),
        decreases ps@.len() - k,
    {
        let ghost o0 = pviews(out@);
        proof {
            assert(pviews(ps@).take(k + 1).drop_last() =~= pviews(ps@).take(k as int));
            assert(pviews(ps@).take(k + 1).last() == ps@[k as int]@);
        }
        let p = &ps[k];
        let keep = match &p.partition_type {
            PartitionType::Approval(_) => !pending_only || p.history.len() > 1,
            _ => false,
        };
        if keep {
            out.push(p.clone());
            proof {
                assert(pviews(out@) =~= o0.push(ps@[k as int]@));
            }
        }
        k += 1;
    }
    proof {
        assert(pviews(ps@).take(ps@.len() as int) =~= pviews(ps@));
    }
    out
}

/// Every approval partition.
pub fn list_approval_partitions<S: PartitionStore>(storage: &S) -> (r: Result<Vec<Partition>, StratumError>)
    ensures
        r matches Err(e) ==> e is Storage,
        r matches Ok(v) ==> forall|i: int| 0 <= i < v@.len() ==> (#[trigger] v@[i]).partition_type@ is Approval,
        r matches Ok(v) ==> exists|all: Seq<PartitionV>| #[trigger] approvals(all, false) == pviews(v@),
{
    match storage.list_partitions() {
        Ok(all) => {
            let v = filter_approvals(&all, false);
            proof {
                assert(approvals(pviews(all@), false) == pviews(v@));
                lemma_approvals_kind(pviews(all@), false);
                assert forall|i: int| 0 <= i < v@.len() implies (#[trigger] v@[i]).partition_type@ is Approval by {
                    assert(pviews(v@)[i] == v@[i]@);
                }
            }
            Ok(v)
        },
        Err(e) => Err(StratumError::Storage(e)),
    }
}

/// Every pending approval partition: one with more than one snapshot in its
/// history, an agent's submission not yet merged or rejected.
pub fn list_pending_approvals<S: PartitionStore>(storage: &S) -> (r: Result<Vec<Partition>, StratumError>)
    ensures
        r matches Err(e) ==> e is Storage,
        r matches Ok(v) ==> forall|i: int| 0 <= i < v@.len() ==> (#[trigger] v@[i]).partition_type@ is Approval && v@[i]@.history.len() > 1,
        r matches Ok(v) ==> exists|listed: Seq<PartitionV>| #[trigger] approvals(approvals(listed, false), true) == pviews(v@),
{
    let all = list_approval_partitions(storage)?;
    let v = filter_approvals(&all, true);
    proof {
        let listed = choose|listed: Seq<PartitionV>| #[trigger] approvals(listed, false) == pviews(all@);
        assert(approvals(approvals(listed, false), true) == pviews(v@));
        lemma_approvals_kind(pviews(all@), true);
        assert forall|i: int| 0 <= i < v@.len() implies (#[trigger] v@[i]).partition_type@ is Approval && v@[i]@.history.len() > 1 by {
            assert(pviews(v@)[i] == v@[i]@);
        }
    }
    Ok(v)
}

/// What the approval filter keeps is of approval kind, and pending when asked.
pub proof fn lemma_approvals_kind(ps: Seq<PartitionV>, pending_only: bool)
    ensures
        forall|i: int| 0 <= i < approvals(ps, pending_only).len() ==> {
            &&& (#[trigger] approvals(ps, pending_only)[i]).partition_type is Approval
            &&& pending_only ==> approvals(ps, pending_only)[i].history.len() > 1
        },
    decreases ps.len(),
{
    if ps.len() > 0 {
        lemma_approvals_kind(ps.drop_last(), pending_only);
    }
}

/// The approval filter keeps exactly the approval partitions (the pending
/// ones, those with more than one snapshot in their history, when asked):
/// a partition is in the result if and only if it is among the given ones
/// and of that kind.
pub proof fn lemma_approvals_members(ps: Seq<PartitionV>, pending_only: bool)
    ensures
        forall|q: PartitionV| #[trigger] approvals(ps, pending_only).contains(q) <==> ps.contains(q) && q.partition_type is Approval
            && (!pending_only || q.history.len() > 1),
    decreases ps.len(),
{
    if ps.len() > 0 {
        let init = ps.drop_last();
        let p = ps.last();
        lemma_approvals_members(init, pending_only);
        let rest = approvals(init, pending_only);
        assert forall|q: PartitionV| #[trigger] approvals(ps, pending_only).contains(q) <==> ps.contains(q) && q.partition_type is Approval
            && (!pending_only || q.history.len() > 1) by {
            let keep = p.partition_type is Approval && (!pending_only || p.history.len() > 1);
            assert(ps =~= init.push(p));
            assert(ps.contains(q) <==> init.contains(q) || q == p) by {
                if ps.contains(q) {
                    let k = choose|k: int| 0 <= k < ps.len() && ps[k] == q;
                    if k < init.len() {
                        assert(init[k] == q);
                    }
                }
                if init.contains(q) {
                    let k = choose|k: int| 0 <= k < init.len() && init[k] == q;
                    assert(ps[k] == q);
                }
                if q == p {
                    assert(ps[ps.len() - 1] == q);
                }
            }
            if keep {
                let r = rest.push(p);
                assert(approvals(ps, pending_only) == r);
                assert(r.contains(q) <==> rest.contains(q) || q == p) by {
                    if r.contains(q) {
                        let k = choose|k: int| 0 <= k < r.len() && r[k] == q;
                        if k < rest.len() {
                            assert(rest[k] == q);
                        }
                    }
                    if rest.contains(q) {
                        let k = choose|k: int| 0 <= k < rest.len() && rest[k] == q;
                        assert(r[k] == q);
                    }
                    if q == p {
                        assert(r[rest.len() as int] == q);
                    }
                }
            } else {
                assert(approvals(ps, pending_only) == rest);
            }
        }
    }
}

/// The pending list of the listed partitions (as `list_pending_approvals`
/// builds it) holds exactly the listed approval partitions with more than one
/// snapshot in their history.
pub proof fn lemma_pending_complete(listed: Seq<PartitionV>)
    ensures
        forall|q: PartitionV| #[trigger] approvals(approvals(listed, false), true).contains(q) <==> listed.contains(q)
            && q.partition_type is Approval && q.history.len() > 1,
{
    lemma_approvals_members(listed, false);
    lemma_approvals_members(approvals(listed, false), true);
    assert forall|q: PartitionV| #[trigger] approvals(approvals(listed, false), true).contains(q) <==> listed.contains(q)
        && q.partition_type is Approval && q.history.len() > 1 by {
        assert(approvals(listed, false).contains(q) <==> listed.contains(q) && q.partition_type is Approval);
    }
}

/// The message for an agent without an approval partition.
pub open spec fn no_approval_msg(agent: Seq<char>) -> Seq<char> {
    "approval partition for agent '"@ + agent + "' not found"@
}

/// The message for an approval partition with an empty history.
pub open spec fn empty_approval_msg() -> Seq<char> {
    "approval partition has empty history"@
}

/// Whether `p` is the approval partition of agent `agent` and `s` the first
/// snapshot of its history.
pub open spec fn reset_to_first_of(p: Partition, agent: Seq<char>, s: SnapshotId) -> bool {
    &&& p.id.0@ == uuid_v5(seq![0x30u8] + Seq::new(15, |i: int| 0u8), encode_utf8(agent))
    &&& p.history@.len() > 0
    &&& s == p.history@[0]
}

/// Whether `s` is the first snapshot of the history of the approval
/// partition of agent `agent`, as read.
pub open spec fn reset_to_first(agent: Seq<char>, s: SnapshotId) -> bool {
    exists|p: Partition| #[trigger] reset_to_first_of(p, agent, s)
}

/// Where rejecting a submission points an approval partition: the first
/// snapshot of its history; an empty history is refused.
pub fn rejection_target(partition: &Partition) -> (r: Result<SnapshotId, StratumError>)
    ensures
        partition.history@.len() == 0 ==> (r matches Err(StratumError::StateMachine(m)) && m@ == empty_approval_msg()),
        partition.history@.len() > 0 ==> r == Ok::<SnapshotId, StratumError>(partition.history@[0]),
{
    if partition.history.len() == 0 {
        return Err(StratumError::StateMachine("approval partition has empty history".to_string()));
    }
    Ok(partition.history[0])
}

/// Rejects an agent's submission: its approval partition is pointed back at
/// the snapshot `rejection_target` gives for it, which is returned.
pub fn reject_approval<S: PartitionStore>(storage: &S, agent_id: &AgentInstanceId) -> (r: Result<SnapshotId, StratumError>)
    ensures
        r matches Err(e) ==> (e is Storage || (e matches StratumError::NotFound(m) && m@ == no_approval_msg(agent_id.0@))
            || (e matches StratumError::StateMachine(m) && m@ == empty_approval_msg())),
        r matches Ok(s) ==> reset_to_first(agent_id.0@, s),
{
    let pid = approval_agent_partition_id(agent_id);
    let partition = match storage.get_partition(&pid) {
        Ok(p) => p,
        Err(_) => {
            let mut m = "approval partition for agent '".to_string();
            append_str(&mut m, agent_id.0.as_str());
            append_str(&mut m, "' not found");
            return Err(StratumError::NotFound(m));
        },
    };
    let base_snapshot = rejection_target(&partition)?;
    proof {
        assert(reset_to_first_of(partition, agent_id.0@, base_snapshot));
    }
    match storage.update_pointer(&pid, &base_snapshot) {
        Ok(()) => Ok(base_snapshot),
        Err(e) => Err(StratumError::Storage(e)),
    }
}

} // verus!
