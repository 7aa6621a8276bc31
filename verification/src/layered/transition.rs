//! The flows between layers and the rules they obey.

use crate::engine::merge::{rebuild, try_apply_deltas, Applied};
use crate::error::{error_text, StratumError};
use crate::model::delta::Delta;
use crate::model::partition::Partition;
use crate::model::snapshot::Snapshot;
use crate::model::types::{parse_partition_id, uuid_parsed, AgentInstanceId, LayerType, PartitionId, SnapshotId};
use crate::storage::repository::{DeltaStore, FileNodeStore, PartitionStore, SnapshotStore};
use crate::text::{append_str, contains_str, contains_text, join_lines, split_char, text_of_bytes, trim_str, trim_ws};
use vstd::prelude::*;

verus! {

broadcast use vstd::string::group_string_axioms;

/// The kinds of forward flow.
#[derive(Debug, Clone, PartialEq, Eq, Structural)]
pub enum ForwardTransition {
    /// manual_edit → staged
    ManualToStaged,
    /// agent_edit → approval
    AgentToApproval,
    /// approval → integrated
    ApprovalToIntegrated,
    /// integrated → unified
    IntegratedToUnified,
    /// approval → staged
    ApprovalToStaged,
}

/// The kinds of rollback.
#[derive(Debug, Clone, PartialEq, Eq, Structural)]
pub enum RollbackTransition {
    /// staged → manual_edit
    StagedToManual,
    /// staged → approval
    StagedToApproval,
    /// staged → agent_edit
    StagedToAgentRaw,
    /// approval → agent_edit
    ApprovalToAgentRaw,
}

/// How a layer prints in messages.
pub open spec fn layer_debug(l: LayerType) -> Seq<char> {
    match l {
        LayerType::ManualEdit => "ManualEdit"@,
        LayerType::AgentEdit => "AgentEdit"@,
        LayerType::Approval => "Approval"@,
        LayerType::Staged => "Staged"@,
    }
}

fn push_layer(s: &mut String, l: &LayerType)
    ensures
        final(s)@ == old(s)@ + layer_debug(*l),
{
    match l {
        LayerType::ManualEdit => append_str(s, "ManualEdit"),
        LayerType::AgentEdit => append_str(s, "AgentEdit"),
        LayerType::Approval => append_str(s, "Approval"),
        LayerType::Staged => append_str(s, "Staged"),
    }
}

/// The forward flows allowed: each goes to the next layer only
/// (manual_edit → staged, agent_edit → approval, approval → staged).
pub open spec fn forward_allowed(from: LayerType, to: LayerType) -> bool {
    ||| from == LayerType::ManualEdit && to == LayerType::Staged
    ||| from == LayerType::AgentEdit && to == LayerType::Approval
    ||| from == LayerType::Approval && to == LayerType::Staged
}

/// The rollbacks allowed: staged back to any earlier layer, approval back to
/// agent_edit.
pub open spec fn rollback_allowed(from: LayerType, to: LayerType) -> bool {
    ||| from == LayerType::Staged && to == LayerType::ManualEdit
    ||| from == LayerType::Staged && to == LayerType::AgentEdit
    ||| from == LayerType::Staged && to == LayerType::Approval
    ||| from == LayerType::Approval && to == LayerType::AgentEdit
}

/// The message for a refused forward flow.
pub open spec fn forward_refused_msg(from: LayerType, to: LayerType) -> Seq<char> {
    "Ironclad check failed: impermissible cross-layer flow "@ + layer_debug(from) + " → "@ + layer_debug(to)
}

/// The message for a refused rollback.
pub open spec fn rollback_refused_msg(from: LayerType, to: LayerType) -> Seq<char> {
    "Ironclad check failed: impermissible cross-level fallback "@ + layer_debug(from) + " → "@ + layer_debug(to)
}

fn refusal(prefix: &str, from: &LayerType, to: &LayerType) -> (r: String)
    ensures
        r@ == prefix@ + layer_debug(*from) + " → "@ + layer_debug(*to),
{
    let mut s = String::new();
    append_str(&mut s, prefix);
    push_layer(&mut s, from);
    append_str(&mut s, " → ");
    push_layer(&mut s, to);
    s
}

/// Checks that a forward flow goes to the next layer; a state-machine error
/// otherwise.
pub fn check_forward_valid(from: &LayerType, to: &LayerType) -> (r: Result<(), StratumError>)
    ensures
        r is Ok <==> forward_allowed(*from, *to),
        r matches Err(e) ==> e matches StratumError::StateMachine(m) && m@ == forward_refused_msg(*from, *to),
{
    let valid = match (from, to) {
        (LayerType::ManualEdit, LayerType::Staged) => true,
        (LayerType::AgentEdit, LayerType::Approval) => true,
        (LayerType::Approval, LayerType::Staged) => true,
        _ => false,
    };
    if !valid {
        return Err(StratumError::StateMachine(refusal("Ironclad check failed: impermissible cross-layer flow ", from, to)));
    }
    Ok(())
}

/// Checks that a rollback is one of those allowed; a state-machine error
/// otherwise.
pub fn check_rollback_valid(from: &LayerType, to: &LayerType) -> (r: Result<(), StratumError>)
    ensures
        r is Ok <==> rollback_allowed(*from, *to),
        r matches Err(e) ==> e matches StratumError::StateMachine(m) && m@ == rollback_refused_msg(*from, *to),
{
    let valid = match (from, to) {
        (LayerType::Staged, LayerType::ManualEdit) => true,
        (LayerType::Staged, LayerType::AgentEdit) => true,
        (LayerType::Staged, LayerType::Approval) => true,
        (LayerType::Approval, LayerType::AgentEdit) => true,
        _ => false,
    };
    if !valid {
        return Err(StratumError::StateMachine(refusal("Ironclad check failed: impermissible cross-level fallback ", from, to)));
    }
    Ok(())
}

/// The message for a forward flow that lacks a parameter.
pub open spec fn missing_param_msg(flow: Seq<char>, param: Seq<char>) -> Seq<char> {
    flow + " requires "@ + param + " parameter"@
}

pub(crate) fn missing_param(flow: &str, param: &str) -> (r: StratumError)
    ensures
        r matches StratumError::StateMachine(m) && m@ == missing_param_msg(flow@, param@),
{
    let mut m = flow.to_string();
    append_str(&mut m, " requires ");
    append_str(&mut m, param);
    append_str(&mut m, " parameter");
    StratumError::StateMachine(m)
}

/// Runs a forward flow with its parameters: manual_edit into staged; an
/// agent's edits (`params[0]` the agent) into approval; an agent's approval
/// (`params[0]`) into the integration partition `params[1]`; the integration
/// partitions named in `params[0]` (comma-separated, each trimmed) into
/// unified; the approval partition whose UUID is `params[0]` into staged. A
/// missing parameter, or a UUID that does not parse, is refused with a
/// state-machine error before anything is read.
pub fn execute_forward<S: SnapshotStore + DeltaStore + FileNodeStore + PartitionStore>(
    storage: &S,
    transition: ForwardTransition,
    params: &[&str],
) -> (r: Result<SnapshotId, StratumError>)
    ensures
        transition == ForwardTransition::AgentToApproval && params@.len() == 0 ==> (r matches Err(StratumError::StateMachine(m))
            && m@ == missing_param_msg("AgentToApproval"@, "agent_id"@)),
        transition == ForwardTransition::ApprovalToIntegrated && params@.len() == 0 ==> (r matches Err(StratumError::StateMachine(m))
            && m@ == missing_param_msg("ApprovalToIntegrated"@, "agent_id"@)),
        transition == ForwardTransition::ApprovalToIntegrated && params@.len() == 1 ==> (r matches Err(StratumError::StateMachine(m))
            && m@ == missing_param_msg("ApprovalToIntegrated"@, "integrated_name"@)),
        transition == ForwardTransition::IntegratedToUnified && params@.len() == 0 ==> (r matches Err(StratumError::StateMachine(m))
            && m@ == missing_param_msg("IntegratedToUnified"@, "integrated_names"@)),
        transition == ForwardTransition::ApprovalToStaged && params@.len() == 0 ==> (r matches Err(StratumError::StateMachine(m))
            && m@ == missing_param_msg("ApprovalToStaged"@, "approval_partition_id"@)),
        transition == ForwardTransition::ApprovalToStaged && params@.len() > 0 && uuid_parsed(params@[0]@) is None
            ==> (r matches Err(StratumError::StateMachine(m)) && m@ == "invalid partition_id UUID"@),
{
    match transition {
        ForwardTransition::ManualToStaged => {
            check_forward_valid(&LayerType::ManualEdit, &LayerType::Staged)?;
            crate::state_machine::manual::merge_manual_to_staged(storage)
        },
        ForwardTransition::AgentToApproval => {
            check_forward_valid(&LayerType::AgentEdit, &LayerType::Approval)?;
            if params.len() == 0 {
                return Err(missing_param("AgentToApproval", "agent_id"));
            }
            let agent = AgentInstanceId(params[0].to_string());
            crate::state_machine::agent::move_agent_to_approval(storage, &agent)
        },
        ForwardTransition::ApprovalToIntegrated => {
            if params.len() == 0 {
                return Err(missing_param("ApprovalToIntegrated", "agent_id"));
            }
            if params.len() == 1 {
                return Err(missing_param("ApprovalToIntegrated", "integrated_name"));
            }
            let agent = AgentInstanceId(params[0].to_string());
            crate::layered::integrated::move_approval_to_integrated(storage, &agent, params[1])
        },
        ForwardTransition::IntegratedToUnified => {
            if params.len() == 0 {
                return Err(missing_param("IntegratedToUnified", "integrated_names"));
            }
            let pieces = split_char(params[0], ',');
            let mut names: Vec<String> = Vec::new();
            let mut i: usize = 0;
            while i < pieces.len()
                invariant
                    i <= pieces@.len(),
                    names@.len() == i,
                    forall|j: int| 0 <= j < i ==> (#[trigger] names@[j])@ == trim_ws(pieces@[j]@),
                decreases pieces@.len() - i,
            {
                names.push(trim_str(pieces[i].as_str()));
                i += 1;
            }
            crate::layered::unified::move_integrated_to_unified(storage, names.as_slice())
        },
        ForwardTransition::ApprovalToStaged => {
            check_forward_valid(&LayerType::Approval, &LayerType::Staged)?;
            if params.len() == 0 {
                return Err(missing_param("ApprovalToStaged", "approval_partition_id"));
            }
            let pid = match parse_partition_id(params[0]) {
                Some(p) => p,
                None => return Err(StratumError::StateMachine("invalid partition_id UUID".to_string())),
            };
            crate::layered::staged::merge_approval_to_staged(storage, &pid)
        },
    }
}

/// Every forward flow can be rolled back: the reverse of an allowed forward
/// flow is an allowed rollback.
pub proof fn lemma_forward_reversible(from: LayerType, to: LayerType)
    requires
        forward_allowed(from, to),
    ensures
        rollback_allowed(to, from),
{
}

/// No move between layers is both a forward flow and a rollback, and no
/// layer flows or rolls back to itself.
pub proof fn lemma_directions_disjoint(from: LayerType, to: LayerType)
    ensures
        !(forward_allowed(from, to) && rollback_allowed(from, to)),
        !forward_allowed(from, from),
        !rollback_allowed(from, from),
{
}


// ---------------------------------------------------------------------------
// Operations on stored partitions
// ---------------------------------------------------------------------------

/// The message for a partition that cannot roll back further.
pub open spec fn single_snapshot_msg() -> Seq<char> {
    "cannot rollback: only one snapshot in history"@
}

/// The snapshot a partition rolls back to: the one before the last in its
/// history; a state-machine error when the history holds one snapshot or none.
pub fn rollback_target(partition: &Partition) -> (r: Result<SnapshotId, StratumError>)
    ensures
        partition.history@.len() <= 1 ==> (r matches Err(StratumError::StateMachine(m)) && m@ == single_snapshot_msg()),
        partition.history@.len() > 1 ==> (r matches Ok(id) && id == partition.history@[partition.history@.len() - 2]),
{
    let n = partition.history.len();
    if n <= 1 {
        return Err(StratumError::StateMachine("cannot rollback: only one snapshot in history".to_string()));
    }
    Ok(partition.history[n - 2])
}

/// Moves a partition's pointer back to the snapshot before its current one.
/// A `NotFound` error when the partition cannot be read, a state-machine
/// error when its history holds one snapshot or none.
pub fn rollback_partition<S: PartitionStore>(storage: &S, partition_id: &PartitionId) -> (r: Result<SnapshotId, StratumError>)
    ensures
        r matches Err(e) ==> (e is Storage || (e matches StratumError::NotFound(m) && m@ == "partition not found"@)
            || (e matches StratumError::StateMachine(m) && m@ == single_snapshot_msg())),
{
    let partition = match storage.get_partition(partition_id) {
        Ok(p) => p,
        Err(_) => return Err(StratumError::NotFound("partition not found".to_string())),
    };
    let prev_id = rollback_target(&partition)?;
    match storage.update_pointer(partition_id, &prev_id) {
        Ok(()) => Ok(prev_id),
        Err(e) => Err(StratumError::Storage(e)),
    }
}

/// The text searched for in a snapshot's partition type to find the snapshot
/// a layer contributed.
pub open spec fn layer_label(l: LayerType) -> Seq<char> {
    match l {
        LayerType::ManualEdit => "manual"@,
        LayerType::AgentEdit => "agent"@,
        LayerType::Approval => "approval"@,
        LayerType::Staged => "staged"@,
    }
}

fn layer_label_str(l: LayerType) -> (r: &'static str)
    ensures
        r@ == layer_label(l),
{
    match l {
        LayerType::ManualEdit => "manual",
        LayerType::AgentEdit => "agent",
        LayerType::Approval => "approval",
        LayerType::Staged => "staged",
    }
}

/// Whether a snapshot made in a partition of type `partition_type` came from
/// the layer with label `label`: the type contains the label.
pub fn type_matches(partition_type: &str, label: &str) -> (r: bool)
    ensures
        r == contains_text(partition_type@, label@),
{
    contains_str(partition_type, label)
}

/// The message for a staged snapshot with no parent from the target layer.
pub open spec fn no_parent_msg(l: LayerType) -> Seq<char> {
    "no parent found for target layer "@ + layer_debug(l) + " in staged snapshot parents"@
}

fn no_parent_message(l: &LayerType) -> (r: String)
    ensures
        r@ == no_parent_msg(*l),
{
    let mut s = "no parent found for target layer ".to_string();
    push_layer(&mut s, l);
    append_str(&mut s, " in staged snapshot parents");
    s
}

/// Rolls the staged partition back to the first parent of its current
/// snapshot that was made in the target layer (its partition type contains
/// the layer's label), and returns that parent.
pub fn rollback_staged_to_layer<S: SnapshotStore + PartitionStore>(storage: &S, target_layer: LayerType) -> (r: Result<SnapshotId, StratumError>)
    ensures
        r matches Err(e) ==> (e is Storage || (e matches StratumError::NotFound(m) && (m@ == "staged partition not found"@
            || m@ == no_parent_msg(target_layer)))),
        r matches Ok(p) ==> rolled_back(layer_label(target_layer), p),
{
    let staged_pid = crate::layered::staged::staged_partition_id();
    let staged_partition = match storage.get_partition(&staged_pid) {
        Ok(p) => p,
        Err(_) => return Err(StratumError::NotFound("staged partition not found".to_string())),
    };
    let staged_snapshot = match storage.get_snapshot(&staged_partition.current_snapshot) {
        Ok(s) => s,
        Err(e) => return Err(StratumError::Storage(e)),
    };
    let label = layer_label_str(target_layer);
    let ghost mut ps: Seq<Snapshot> = seq![];
    let mut i: usize = 0;
    while i < staged_snapshot.parents.len()
        invariant
            i <= staged_snapshot.parents@.len(),
            label@ == layer_label(target_layer),
            staged_partition.id.0@ == seq![0x60u8] + Seq::new(15, |i: int| 0u8),
            staged_snapshot.id.0@ == staged_partition.current_snapshot.0@,
            ps.len() == i,
            forall|j: int| 0 <= j < i ==> (#[trigger] ps[j]).id.0@ == staged_snapshot.parents@[j].0@
                && !contains_text(ps[j].partition_type@, label@),
        decreases staged_snapshot.parents@.len() - i,
    {
        let parent_id = staged_snapshot.parents[i];
        let parent_snapshot = match storage.get_snapshot(&parent_id) {
            Ok(s) => s,
            Err(e) => return Err(StratumError::Storage(e)),
        };
        let hit = type_matches(parent_snapshot.partition_type.as_str(), label);
        proof {
            ps = ps.push(parent_snapshot);
        }
        if hit {
            proof {
                assert(parents_read(staged_snapshot, ps, layer_label(target_layer), true));
                assert(staged_snapshot.parents@[ps.len() - 1] == parent_id);
                assert(rolled_back_to(staged_partition, staged_snapshot, ps, layer_label(target_layer), parent_id));
                assert(rolled_back(layer_label(target_layer), parent_id));
            }
            match storage.update_pointer(&staged_pid, &parent_id) {
                Ok(()) => return Ok(parent_id),
                Err(e) => return Err(StratumError::Storage(e)),
            }
        }
        i += 1;
    }
    Err(StratumError::NotFound(no_parent_message(&target_layer)))
}

/// The message for a delta chain that keeps lines past the end of the text.
pub open spec fn chain_out_of_range_msg() -> Seq<char> {
    "delta keeps lines past the end of the text"@
}

/// The text of a snapshot given the content of its file baseline and its
/// deltas: the deltas applied to the content in turn (see `rebuild`).
///
/// A refused delta gives an engine error carrying the engine error's message;
/// a delta that keeps lines past the end of the text it meets gives an engine
/// error saying so.
pub fn rebuild_text(content: &str, deltas: &[Delta]) -> (r: Result<String, StratumError>)
    ensures
        match rebuild(content@, deltas@) {
            Applied::Done(ls) => r matches Ok(t) && t@ == join_lines(ls),
            Applied::Rejected(m) => r matches Err(StratumError::Engine(e)) && e@ == "Engine error: "@ + m,
            Applied::Crash => r matches Err(StratumError::Engine(e)) && e@ == chain_out_of_range_msg(),
        },
{
    match try_apply_deltas(content, deltas) {
        Some(Ok(t)) => Ok(t),
        Some(Err(e)) => {
            let m = e.to_string();
            proof {
                assert(e matches StratumError::Engine(x) && error_text(e) == "Engine error: "@ + x@);
            }
            Err(StratumError::Engine(m))
        },
        None => Err(StratumError::Engine("delta keeps lines past the end of the text".to_string())),
    }
}

/// Whether `t` is the text of `snapshot` rebuilt from the file content
/// `content` and the deltas `ds` read for it: the deltas carry the
/// snapshot's delta identifiers in order, and applying them to the content
/// (its characters, when it is valid UTF-8) gives `t`'s lines.
pub open spec fn rebuilt_from(snapshot: Snapshot, content: Seq<u8>, ds: Seq<Delta>, t: Seq<char>) -> bool {
    &&& ds.len() == snapshot.deltas@.len()
    &&& forall|i: int| 0 <= i < ds.len() ==> (#[trigger] ds[i]).id.0@ == snapshot.deltas@[i].0@
    &&& exists|base: Seq<char>| (vstd::utf8::valid_utf8(content) ==> base == vstd::utf8::decode_utf8(content))
        && (#[trigger] rebuild(base, ds) matches Applied::Done(ls) && t == join_lines(ls))
}

/// Whether `t` is the text of `snapshot` rebuilt from some file content and
/// deltas read for it (see `rebuilt_from`).
pub open spec fn snapshot_text(snapshot: Snapshot, t: Seq<char>) -> bool {
    exists|content: Seq<u8>, ds: Seq<Delta>| #[trigger] rebuilt_from(snapshot, content, ds, t)
}

/// The text of a snapshot: the stored content of its file baseline (decoded
/// as UTF-8) with its stored deltas applied (see `rebuild_text`).
pub fn reconstruct_text<S: FileNodeStore + DeltaStore>(storage: &S, snapshot: &Snapshot) -> (r: Result<String, StratumError>)
    ensures
        r matches Err(e) ==> (e is Storage || e is Engine),
        r matches Ok(t) ==> snapshot_text(*snapshot, t@),
{
    let file_content = match storage.get_file_content(snapshot.file.path_str(), &snapshot.file.base_hash) {
        Ok(c) => c,
        Err(e) => return Err(StratumError::Storage(e)),
    };
    let content_str = text_of_bytes(file_content.as_slice());
    let deltas = match storage.get_deltas(snapshot.deltas.as_slice()) {
        Ok(d) => d,
        Err(e) => return Err(StratumError::Storage(e)),
    };
    let r = rebuild_text(content_str.as_str(), deltas.as_slice());
    proof {
        if r is Ok {
            assert(rebuilt_from(*snapshot, file_content@, deltas@, r->Ok_0@));
            assert(snapshot_text(*snapshot, r->Ok_0@));
        }
    }
    r
}

/// Whether some parent of a snapshot was made in a partition whose type
/// contains `partition_type_prefix`; parents are read in order until one is.
pub fn has_parent_of_type<S: SnapshotStore>(storage: &S, snapshot: &Snapshot, partition_type_prefix: &str) -> (r: Result<bool, StratumError>)
    ensures
        r matches Err(e) ==> e is Storage,
        snapshot.parents@.len() == 0 ==> r == Ok::<bool, StratumError>(false),
        r matches Ok(b) ==> parents_answer(*snapshot, partition_type_prefix@, b),
{
    let ghost mut ps: Seq<Snapshot> = seq![];
    let mut i: usize = 0;
    while i < snapshot.parents.len()
        invariant
            i <= snapshot.parents@.len(),
            ps.len() == i,
            forall|j: int| 0 <= j < i ==> (#[trigger] ps[j]).id.0@ == snapshot.parents@[j].0@
                && !contains_text(ps[j].partition_type@, partition_type_prefix@),
        decreases snapshot.parents@.len() - i,
    {
        let parent = match storage.get_snapshot(&snapshot.parents[i]) {
            Ok(p) => p,
            Err(e) => return Err(StratumError::Storage(e)),
        };
        let hit = type_matches(parent.partition_type.as_str(), partition_type_prefix);
        proof {
            ps = ps.push(parent);
        }
        if hit {
            proof {
                assert(parents_read(*snapshot, ps, partition_type_prefix@, true));
                assert(parents_answer(*snapshot, partition_type_prefix@, true));
            }
            return Ok(true);
        }
        i += 1;
    }
    proof {
        assert(parents_read(*snapshot, ps, partition_type_prefix@, false));
        assert(parents_answer(*snapshot, partition_type_prefix@, false));
    }
    Ok(false)
}

/// Whether rolling staged back chose `p`: `sp` is the staged partition read,
/// `ss` its current snapshot, and `p` the first parent of `ss` (read as `ps`)
/// whose type contains `label`.
pub open spec fn rolled_back_to(sp: Partition, ss: Snapshot, ps: Seq<Snapshot>, label: Seq<char>, p: SnapshotId) -> bool {
    &&& sp.id.0@ == seq![0x60u8] + Seq::new(15, |i: int| 0u8)
    &&& ss.id.0@ == sp.current_snapshot.0@
    &&& parents_read(ss, ps, label, true)
    &&& p.0@ == ss.parents@[ps.len() - 1].0@
}

/// Whether rolling staged back to the layer labelled `label` chose `p`, for
/// some staged partition, snapshot and parents read.
pub open spec fn rolled_back(label: Seq<char>, p: SnapshotId) -> bool {
    exists|sp: Partition, ss: Snapshot, ps: Seq<Snapshot>| #[trigger] rolled_back_to(sp, ss, ps, label, p)
}

/// Whether some parents read for `snapshot` answer `b` for a type prefix
/// (see `parents_read`).
pub open spec fn parents_answer(snapshot: Snapshot, prefix: Seq<char>, b: bool) -> bool {
    exists|ps: Seq<Snapshot>| #[trigger] parents_read(snapshot, ps, prefix, b)
}

/// Whether the parents `ps` read for `snapshot` (in order, from the first)
/// answer `b` for a type prefix: each carries its parent's identifier; every
/// one but the last fails to match; `b` is whether the last matches, and all
/// parents were read when none does.
pub open spec fn parents_read(snapshot: Snapshot, ps: Seq<Snapshot>, prefix: Seq<char>, b: bool) -> bool {
    &&& ps.len() <= snapshot.parents@.len()
    &&& forall|j: int| 0 <= j < ps.len() ==> (#[trigger] ps[j]).id.0@ == snapshot.parents@[j].0@
    &&& forall|j: int| 0 <= j < ps.len() - 1 ==> !contains_text((#[trigger] ps[j]).partition_type@, prefix)
    &&& b ==> ps.len() > 0 && contains_text(ps.last().partition_type@, prefix)
    &&& !b ==> ps.len() == snapshot.parents@.len() && (ps.len() > 0 ==> !contains_text(ps.last().partition_type@, prefix))
}

} // verus!
