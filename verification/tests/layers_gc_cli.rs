use stratum::api::cli::output::OutputFormat;
use stratum::checkpoint::repo::CheckpointRepo;
use stratum::cli::output::{layer_name_for_partition, StatusOutput};
use stratum::error::StratumError;
use stratum::git_sync::gc::{check_delta_chain_depth, collect_garbage, collect_protected_checkpoints, GCStats};
use stratum::layered::transition::{check_forward_valid, check_rollback_valid};
use stratum::model::types::{AgentInstanceId, ContentId, LayerType, PartitionType, SnapshotId};
use stratum::state_machine::transition as sm_transition;

fn dummy_snapshot_id(n: u8) -> SnapshotId {
    ContentId::from_content(&[n; 8])
}

const ALL: [LayerType; 4] = [LayerType::ManualEdit, LayerType::AgentEdit, LayerType::Approval, LayerType::Staged];

#[test]
fn transition_test_check_forward_valid() {
    assert!(check_forward_valid(&LayerType::ManualEdit, &LayerType::Staged).is_ok());
    assert!(check_forward_valid(&LayerType::AgentEdit, &LayerType::Approval).is_ok());
    assert!(check_forward_valid(&LayerType::Approval, &LayerType::Staged).is_ok());

    assert!(check_forward_valid(&LayerType::AgentEdit, &LayerType::Staged).is_err());
    assert!(check_forward_valid(&LayerType::ManualEdit, &LayerType::Approval).is_err());
}

#[test]
fn test_check_forward_valid() {
    assert!(sm_transition::check_forward_valid(&LayerType::ManualEdit, &LayerType::Staged).is_ok());
    assert!(sm_transition::check_forward_valid(&LayerType::AgentEdit, &LayerType::Approval).is_ok());
    assert!(sm_transition::check_forward_valid(&LayerType::Approval, &LayerType::Staged).is_ok());

    assert!(sm_transition::check_forward_valid(&LayerType::AgentEdit, &LayerType::Staged).is_err());
    assert!(sm_transition::check_forward_valid(&LayerType::ManualEdit, &LayerType::Approval).is_err());
}

#[test]
fn test_check_forward_invalid_all() {
    let valid_pairs = [
        (LayerType::ManualEdit, LayerType::Staged),
        (LayerType::AgentEdit, LayerType::Approval),
        (LayerType::Approval, LayerType::Staged),
    ];

    let all_pairs = [
        (LayerType::ManualEdit, LayerType::ManualEdit),
        (LayerType::ManualEdit, LayerType::AgentEdit),
        (LayerType::ManualEdit, LayerType::Approval),
        (LayerType::AgentEdit, LayerType::ManualEdit),
        (LayerType::AgentEdit, LayerType::AgentEdit),
        (LayerType::AgentEdit, LayerType::Staged),
        (LayerType::Approval, LayerType::ManualEdit),
        (LayerType::Approval, LayerType::AgentEdit),
        (LayerType::Approval, LayerType::Approval),
        (LayerType::Staged, LayerType::ManualEdit),
        (LayerType::Staged, LayerType::AgentEdit),
        (LayerType::Staged, LayerType::Approval),
        (LayerType::Staged, LayerType::Staged),
    ];

    for (from, to) in &all_pairs {
        let is_valid = valid_pairs.contains(&(from.clone(), to.clone()));
        let result = check_forward_valid(from, to);
        if is_valid {
            assert!(result.is_ok(), "expected OK for {:?} -> {:?}", from, to);
        } else {
            assert!(result.is_err(), "expected Err for {:?} -> {:?}", from, to);
        }
    }
}

#[test]
fn transition_test_check_rollback_valid() {
    assert!(check_rollback_valid(&LayerType::Staged, &LayerType::ManualEdit).is_ok());
    assert!(check_rollback_valid(&LayerType::Staged, &LayerType::AgentEdit).is_ok());
    assert!(check_rollback_valid(&LayerType::Staged, &LayerType::Approval).is_ok());
    assert!(check_rollback_valid(&LayerType::Approval, &LayerType::AgentEdit).is_ok());

    assert!(check_rollback_valid(&LayerType::Approval, &LayerType::Staged).is_err());
}

#[test]
fn test_check_rollback_valid() {
    assert!(sm_transition::check_rollback_valid(&LayerType::Staged, &LayerType::ManualEdit).is_ok());
    assert!(sm_transition::check_rollback_valid(&LayerType::Staged, &LayerType::AgentEdit).is_ok());
    assert!(sm_transition::check_rollback_valid(&LayerType::Staged, &LayerType::Approval).is_ok());
    assert!(sm_transition::check_rollback_valid(&LayerType::Approval, &LayerType::AgentEdit).is_ok());

    assert!(sm_transition::check_rollback_valid(&LayerType::Approval, &LayerType::Staged).is_err());
}

#[test]
fn test_check_rollback_invalid_all() {
    let valid_pairs = [
        (LayerType::Staged, LayerType::ManualEdit),
        (LayerType::Staged, LayerType::AgentEdit),
        (LayerType::Staged, LayerType::Approval),
        (LayerType::Approval, LayerType::AgentEdit),
    ];

    let all_pairs = [
        (LayerType::ManualEdit, LayerType::ManualEdit),
        (LayerType::ManualEdit, LayerType::AgentEdit),
        (LayerType::ManualEdit, LayerType::Approval),
        (LayerType::ManualEdit, LayerType::Staged),
        (LayerType::AgentEdit, LayerType::ManualEdit),
        (LayerType::AgentEdit, LayerType::AgentEdit),
        (LayerType::AgentEdit, LayerType::Approval),
        (LayerType::AgentEdit, LayerType::Staged),
        (LayerType::Approval, LayerType::ManualEdit),
        (LayerType::Approval, LayerType::Approval),
        (LayerType::Approval, LayerType::Staged),
        (LayerType::Staged, LayerType::Staged),
    ];

    for (from, to) in &all_pairs {
        let is_valid = valid_pairs.contains(&(from.clone(), to.clone()));
        let result = check_rollback_valid(from, to);
        if is_valid {
            assert!(result.is_ok(), "expected OK for {:?} -> {:?}", from, to);
        } else {
            assert!(result.is_err(), "expected Err for {:?} -> {:?}", from, to);
        }
    }
}

#[test]
fn every_forward_flow_can_be_rolled_back() {
    for from in ALL.iter() {
        for to in ALL.iter() {
            if check_forward_valid(from, to).is_ok() {
                assert!(check_rollback_valid(to, from).is_ok(), "{:?} -> {:?}", from, to);
                assert!(check_rollback_valid(from, to).is_err());
            }
        }
    }
}

#[test]
fn refused_flow_names_both_layers() {
    match check_forward_valid(&LayerType::AgentEdit, &LayerType::Staged) {
        Err(StratumError::StateMachine(m)) => {
            assert_eq!(m, "Ironclad check failed: impermissible cross-layer flow AgentEdit → Staged")
        }
        other => panic!("unexpected {:?}", other),
    }
    match check_rollback_valid(&LayerType::Approval, &LayerType::Staged) {
        Err(StratumError::StateMachine(m)) => {
            assert_eq!(m, "Ironclad check failed: impermissible cross-level fallback Approval → Staged")
        }
        other => panic!("unexpected {:?}", other),
    }
}

#[test]
fn test_layer_name_for_partition() {
    assert_eq!(layer_name_for_partition(&PartitionType::Manual), "manual_edit");
    assert_eq!(layer_name_for_partition(&PartitionType::Staged), "staged");
    assert_eq!(layer_name_for_partition(&PartitionType::Agent(AgentInstanceId("agent-1".to_string()))), "agent_edit");
}

#[test]
fn layer_names_of_approval_kinds() {
    assert_eq!(layer_name_for_partition(&PartitionType::Approval(AgentInstanceId("a".to_string()))), "approval");
    assert_eq!(layer_name_for_partition(&PartitionType::Integrated("team".to_string())), "approval");
    assert_eq!(layer_name_for_partition(&PartitionType::Unified), "approval");
    assert_eq!(LayerType::Approval.name(), "approval");
}

#[test]
fn test_output_format_enum() {
    assert_ne!(OutputFormat::Plain as u8, OutputFormat::Json as u8);
}

#[test]
fn status_output_collects_rows() {
    let mut out = StatusOutput::new();
    assert!(out.entries.is_empty());
    out.add_entry("staged".to_string(), "main".to_string(), "abc".to_string(), 3);
    assert_eq!(out.entries.len(), 1);
    assert_eq!(out.entries[0].history_len, 3);
    assert!(out.error.is_none());
}

#[test]
fn test_collect_protected_empty() {
    let repo = CheckpointRepo::new_single(dummy_snapshot_id(1));
    let protected = collect_protected_checkpoints(&repo);
    assert!(!protected.is_empty(), "root checkpoint should be protected");
}

#[test]
fn test_protected_includes_branch_head() {
    let mut repo = CheckpointRepo::new_single(dummy_snapshot_id(1));
    let cp_id = repo.commit_single(dummy_snapshot_id(2), "second", "user").unwrap();
    let protected = collect_protected_checkpoints(&repo);
    assert!(protected.contains(&cp_id), "branch head should be protected");
}

#[test]
fn test_gc_no_removable() {
    let mut repo = CheckpointRepo::new_single(dummy_snapshot_id(1));
    for i in 2..=5 {
        repo.commit_single(dummy_snapshot_id(i), &format!("commit {}", i), "user").unwrap();
    }
    let stats = collect_garbage(&mut repo).unwrap();
    assert_eq!(stats.removed_checkpoints, 0);
}

#[test]
fn test_gc_removes_orphan() {
    let mut repo = CheckpointRepo::new_single(dummy_snapshot_id(1));
    let _main_root = repo.current_branch_head();
    repo.create_branch("feature").unwrap();
    let cp_f1 = repo.commit_single(dummy_snapshot_id(10), "feature commit", "user").unwrap();
    repo.switch_branch("main").unwrap();

    let protected = collect_protected_checkpoints(&repo);
    assert!(protected.contains(&cp_f1), "feature checkpoint should be protected (branch exists)");

    let stats = collect_garbage(&mut repo).unwrap();
    assert_eq!(stats.removed_checkpoints, 0);
}

#[test]
fn test_gc_orphan_removal() {
    let mut repo = CheckpointRepo::new_single(dummy_snapshot_id(1));
    let protected = collect_protected_checkpoints(&repo);
    let all = repo.dag().all_nodes();
    for cp_id in all {
        if !protected.contains(&cp_id) {}
    }
    let stats = collect_garbage(&mut repo).unwrap();
    assert_eq!(stats.removed_checkpoints, 0);
}

#[test]
fn test_delta_chain_depth_check() {
    let repo = CheckpointRepo::new_single(dummy_snapshot_id(1));
    let (max_depth, triggered) = check_delta_chain_depth(&repo).unwrap();
    assert_eq!(max_depth, 0);
    assert!(!triggered);
}

#[test]
fn test_gc_stats_struct() {
    let stats = GCStats::new();
    assert_eq!(stats.removed_checkpoints, 0);
    assert_eq!(stats.removed_snapshots, 0);
    assert_eq!(stats.freed_bytes, 0);
    assert!(!stats.delta_chain_depth_triggered);
}

/// A repository whose root was removed, with a feature checkpoint that no
/// branch reaches any more and that descends from no protected checkpoint.
fn repo_with_stray(anchor: bool) -> (CheckpointRepo, ContentId, ContentId) {
    let mut repo = CheckpointRepo::new_single(dummy_snapshot_id(1));
    let root = repo.current_branch_head();
    repo.create_branch("feature").unwrap();
    repo.switch_branch("feature").unwrap();
    let stray = repo.commit_single(dummy_snapshot_id(7), "stray", "user").unwrap();
    if anchor {
        repo.get_checkpoint_mut(&stray).unwrap().metadata.git_anchor = Some("deadbeef".to_string());
    }
    repo.switch_branch("main").unwrap();
    let main_head = repo.commit_single(dummy_snapshot_id(8), "main", "user").unwrap();
    repo.branches[1].head = main_head;
    repo.remove_checkpoint(&root).unwrap();
    (repo, stray, main_head)
}

#[test]
fn gc_removes_unreachable_checkpoint() {
    let (mut repo, stray, main_head) = repo_with_stray(false);
    let protected = collect_protected_checkpoints(&repo);
    assert!(!protected.contains(&stray));
    assert!(protected.contains(&main_head));
    let stats = collect_garbage(&mut repo).unwrap();
    assert_eq!(stats.removed_checkpoints, 1);
    assert!(repo.get_checkpoint(&stray).is_err());
    assert!(repo.get_checkpoint(&main_head).is_ok());
    assert!(!repo.dag().has_node(&stray));
}

#[test]
fn gc_keeps_git_anchored_checkpoint() {
    let (mut repo, stray, _) = repo_with_stray(true);
    assert!(collect_protected_checkpoints(&repo).contains(&stray));
    let stats = collect_garbage(&mut repo).unwrap();
    assert_eq!(stats.removed_checkpoints, 0);
    assert!(repo.get_checkpoint(&stray).is_ok());
}

#[test]
fn gc_keeps_descendants_of_protected_checkpoints() {
    let mut repo = CheckpointRepo::new_single(dummy_snapshot_id(1));
    let root = repo.current_branch_head();
    repo.create_branch("feature").unwrap();
    repo.switch_branch("feature").unwrap();
    let child = repo.commit_single(dummy_snapshot_id(7), "child", "user").unwrap();
    repo.branches[1].head = root;
    assert!(!collect_protected_checkpoints(&repo).contains(&child));
    let stats = collect_garbage(&mut repo).unwrap();
    assert_eq!(stats.removed_checkpoints, 0);
    assert!(repo.get_checkpoint(&child).is_ok());
}

#[test]
fn gc_stats_default_is_new() {
    assert_eq!(GCStats::default(), GCStats::new());
}
