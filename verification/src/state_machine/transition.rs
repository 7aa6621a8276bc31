//! The flows between layers and the rules they obey.

use crate::error::StratumError;
use crate::layered::transition::{missing_param, missing_param_msg};
use crate::model::types::{parse_partition_id, uuid_parsed, AgentInstanceId, LayerType, SnapshotId};
use crate::storage::repository::{DeltaStore, FileNodeStore, PartitionStore, SnapshotStore};
use crate::text::{append_str, split_char, trim_str, trim_ws};
use vstd::prelude::*;

pub use crate::layered::transition::{has_parent_of_type, reconstruct_text, rollback_partition, rollback_staged_to_layer};

verus! {

broadcast use vstd::string::group_string_axioms;

/// The kinds of forward flow.
#[derive(Debug, Clone, PartialEq, Eq, Structural)]
pub enum ForwardTransition {
    /// manual_edit → staged
    ManualToStaged,
    /// agent_edit → approval
    AgentToApproval,
    /// approval → integrated
    ApprovalToIntegrated,
    /// integrated → unified
    IntegratedToUnified,
    /// approval → staged
    ApprovalToStaged,
}

/// The kinds of rollback.
#[derive(Debug, Clone, PartialEq, Eq, Structural)]
pub enum RollbackTransition {
    /// staged → manual_edit
    StagedToManual,
    /// staged → approval
    StagedToApproval,
    /// staged → agent_edit
    StagedToAgentRaw,
    /// approval → agent_edit
    ApprovalToAgentRaw,
}

/// How a layer prints in messages.
pub open spec fn layer_debug(l: LayerType) -> Seq<char> {
    match l {
        LayerType::ManualEdit => "ManualEdit"@,
        LayerType::AgentEdit => "AgentEdit"@,
        LayerType::Approval => "Approval"@,
        LayerType::Staged => "Staged"@,
    }
}

fn push_layer(s: &mut String, l: &LayerType)
    ensures
        final(s)@ == old(s)@ + layer_debug(*l),
{
    match l {
        LayerType::ManualEdit => append_str(s, "ManualEdit"),
        LayerType::AgentEdit => append_str(s, "AgentEdit"),
        LayerType::Approval => append_str(s, "Approval"),
        LayerType::Staged => append_str(s, "Staged"),
    }
}

/// The forward flows allowed: each goes to the next layer only
/// (manual_edit → staged, agent_edit → approval, approval → staged).
pub open spec fn forward_allowed(from: LayerType, to: LayerType) -> bool {
    ||| from == LayerType::ManualEdit && to == LayerType::Staged
    ||| from == LayerType::AgentEdit && to == LayerType::Approval
    ||| from == LayerType::Approval && to == LayerType::Staged
}

/// The rollbacks allowed: staged back to any earlier layer, approval back to
/// agent_edit.
pub open spec fn rollback_allowed(from: LayerType, to: LayerType) -> bool {
    ||| from == LayerType::Staged && to == LayerType::ManualEdit
    ||| from == LayerType::Staged && to == LayerType::AgentEdit
    ||| from == LayerType::Staged && to == LayerType::Approval
    ||| from == LayerType::Approval && to == LayerType::AgentEdit
}

/// The message for a refused forward flow.
pub open spec fn forward_refused_msg(from: LayerType, to: LayerType) -> Seq<char> {
    "铁律检查失败: 不允许的越层流转 "@ + layer_debug(from) + " → "@ + layer_debug(to)
}

/// The message for a refused rollback.
pub open spec fn rollback_refused_msg(from: LayerType, to: LayerType) -> Seq<char> {
    "铁律检查失败: 不允许的越层回退 "@ + layer_debug(from) + " → "@ + layer_debug(to)
}

fn refusal(prefix: &str, from: &LayerType, to: &LayerType) -> (r: String)
    ensures
        r@ == prefix@ + layer_debug(*from) + " → "@ + layer_debug(*to),
{
    let mut s = String::new();
    append_str(&mut s, prefix);
    push_layer(&mut s, from);
    append_str(&mut s, " → ");
    push_layer(&mut s, to);
    s
}

/// Checks that a forward flow goes to the next layer; a state-machine error
/// otherwise.
pub fn check_forward_valid(from: &LayerType, to: &LayerType) -> (r: Result<(), StratumError>)
    ensures
        r is Ok <==> forward_allowed(*from, *to),
        r matches Err(e) ==> e matches StratumError::StateMachine(m) && m@ == forward_refused_msg(*from, *to),
{
    let valid = match (from, to) {
        (LayerType::ManualEdit, LayerType::Staged) => true,
        (LayerType::AgentEdit, LayerType::Approval) => true,
        (LayerType::Approval, LayerType::Staged) => true,
        _ => false,
    };
    if !valid {
        return Err(StratumError::StateMachine(refusal("铁律检查失败: 不允许的越层流转 ", from, to)));
    }
    Ok(())
}

/// Checks that a rollback is one of those allowed; a state-machine error
/// otherwise.
pub fn check_rollback_valid(from: &LayerType, to: &LayerType) -> (r: Result<(), StratumError>)
    ensures
        r is Ok <==> rollback_allowed(*from, *to),
        r matches Err(e) ==> e matches StratumError::StateMachine(m) && m@ == rollback_refused_msg(*from, *to),
{
    let valid = match (from, to) {
        (LayerType::Staged, LayerType::ManualEdit) => true,
        (LayerType::Staged, LayerType::AgentEdit) => true,
        (LayerType::Staged, LayerType::Approval) => true,
        (LayerType::Approval, LayerType::AgentEdit) => true,
        _ => false,
    };
    if !valid {
        return Err(StratumError::StateMachine(refusal("铁律检查失败: 不允许的越层回退 ", from, to)));
    }
    Ok(())
}

/// Runs a forward flow with its parameters: manual_edit into staged; an
/// agent's edits (`params[0]` the agent) into approval; an agent's approval
/// (`params[0]`) into the integration partition `params[1]`; the integration
/// partitions named in `params[0]` (comma-separated, each trimmed) into
/// unified, one after the other; the approval partition whose UUID is
/// `params[0]` into staged. A missing parameter, or a UUID that does not
/// parse, is refused with a state-machine error before anything is read.
pub fn execute_forward<S: SnapshotStore + DeltaStore + FileNodeStore + PartitionStore>(
    storage: &S,
    transition: ForwardTransition,
    params: &[&str],
) -> (r: Result<SnapshotId, StratumError>)
    ensures
        transition == ForwardTransition::AgentToApproval && params@.len() == 0 ==> (r matches Err(StratumError::StateMachine(m))
            && m@ == missing_param_msg("AgentToApproval"@, "agent_id"@)),
        transition == ForwardTransition::ApprovalToIntegrated && params@.len() == 0 ==> (r matches Err(StratumError::StateMachine(m))
            && m@ == missing_param_msg("ApprovalToIntegrated"@, "agent_id"@)),
        transition == ForwardTransition::ApprovalToIntegrated && params@.len() == 1 ==> (r matches Err(StratumError::StateMachine(m))
            && m@ == missing_param_msg("ApprovalToIntegrated"@, "integrated_name"@)),
        transition == ForwardTransition::IntegratedToUnified && params@.len() == 0 ==> (r matches Err(StratumError::StateMachine(m))
            && m@ == missing_param_msg("IntegratedToUnified"@, "integrated_names"@)),
        transition == ForwardTransition::ApprovalToStaged && params@.len() == 0 ==> (r matches Err(StratumError::StateMachine(m))
            && m@ == missing_param_msg("ApprovalToStaged"@, "approval_partition_id"@)),
        transition == ForwardTransition::ApprovalToStaged && params@.len() > 0 && uuid_parsed(params@[0]@) is None
            ==> (r matches Err(StratumError::StateMachine(m)) && m@ == "invalid partition_id UUID"@),
{
    match transition {
        ForwardTransition::ManualToStaged => {
            check_forward_valid(&LayerType::ManualEdit, &LayerType::Staged)?;
            crate::state_machine::manual::merge_manual_to_staged(storage)
        },
        ForwardTransition::AgentToApproval => {
            check_forward_valid(&LayerType::AgentEdit, &LayerType::Approval)?;
            if params.len() == 0 {
                return Err(missing_param("AgentToApproval", "agent_id"));
            }
            let agent = AgentInstanceId(params[0].to_string());
            crate::state_machine::agent::move_agent_to_approval(storage, &agent)
        },
        ForwardTransition::ApprovalToIntegrated => {
            if params.len() == 0 {
                return Err(missing_param("ApprovalToIntegrated", "agent_id"));
            }
            if params.len() == 1 {
                return Err(missing_param("ApprovalToIntegrated", "integrated_name"));
            }
            let agent = AgentInstanceId(params[0].to_string());
            crate::state_machine::approval::move_approval_to_integrated(storage, &agent, params[1])
        },
        ForwardTransition::IntegratedToUnified => {
            if params.len() == 0 {
                return Err(missing_param("IntegratedToUnified", "integrated_names"));
            }
            let pieces = split_char(params[0], ',');
            let mut names: Vec<String> = Vec::new();
            let mut i: usize = 0;
            while i < pieces.len()
                invariant
                    i <= pieces@.len(),
                    names@.len() == i,
                    forall|j: int| 0 <= j < i ==> (#[trigger] names@[j])@ == trim_ws(pieces@[j]@),
                decreases pieces@.len() - i,
            {
                names.push(trim_str(pieces[i].as_str()));
                i += 1;
            }
            crate::state_machine::approval::move_integrated_to_unified(storage, names.as_slice())
        },
        ForwardTransition::ApprovalToStaged => {
            check_forward_valid(&LayerType::Approval, &LayerType::Staged)?;
            if params.len() == 0 {
                return Err(missing_param("ApprovalToStaged", "approval_partition_id"));
            }
            let pid = match parse_partition_id(params[0]) {
                Some(p) => p,
                None => return Err(StratumError::StateMachine("invalid partition_id UUID".to_string())),
            };
            crate::state_machine::staged::merge_approval_to_staged(storage, &pid)
        },
    }
}

/// Every forward flow can be rolled back: the reverse of an allowed forward
/// flow is an allowed rollback.
pub proof fn lemma_forward_reversible(from: LayerType, to: LayerType)
    requires
        forward_allowed(from, to),
    ensures
        rollback_allowed(to, from),
{
}

/// No move between layers is both a forward flow and a rollback, and no
/// layer flows or rolls back to itself.
pub proof fn lemma_directions_disjoint(from: LayerType, to: LayerType)
    ensures
        !(forward_allowed(from, to) && rollback_allowed(from, to)),
        !forward_allowed(from, from),
        !rollback_allowed(from, from),
{
}

} // verus!
