use stratum::checkpoint::repo::CheckpointRepo;
use stratum::error::StratumError;
use stratum::model::types::{CheckpointId, ContentId, SnapshotId};

fn dummy_snapshot_id(n: u8) -> SnapshotId {
    ContentId::from_content(&[n; 8])
}

fn dummy_cp_id(n: u8) -> CheckpointId {
    ContentId::from_content(&[n; 16])
}

#[test]
fn test_init_repo() {
    let snap = dummy_snapshot_id(1);
    let repo = CheckpointRepo::new_single(snap);
    assert_eq!(repo.branches.len(), 1);
    assert_eq!(repo.branches[0].name, "main");
    assert_eq!(repo.checkpoint_count(), 1);
}

#[test]
fn test_init_repo_multi_snapshot() {
    let snap1 = dummy_snapshot_id(1);
    let snap2 = dummy_snapshot_id(2);
    let repo = CheckpointRepo::new(vec![snap1, snap2]);
    assert_eq!(repo.checkpoint_count(), 1);
    let root = repo.get_checkpoint(&repo.current_branch_head()).unwrap();
    assert_eq!(root.baseline_snapshots.len(), 2);
}

#[test]
fn test_linear_commit() {
    let mut repo = CheckpointRepo::new_single(dummy_snapshot_id(1));
    let cp1 = repo.commit_single(dummy_snapshot_id(2), "second commit", "user").unwrap();
    let cp2 = repo.commit_single(dummy_snapshot_id(3), "third commit", "user").unwrap();

    let log = repo.log(10);
    assert_eq!(log.len(), 3);
    assert_eq!(log[0].id, cp2);
    assert_eq!(log[1].id, cp1);
}

#[test]
fn test_multi_snapshot_commit() {
    let mut repo = CheckpointRepo::new_single(dummy_snapshot_id(1));
    let cp1 = repo.commit(vec![dummy_snapshot_id(2), dummy_snapshot_id(3)], "multi-file commit", "user").unwrap();
    let cp = repo.get_checkpoint(&cp1).unwrap();
    assert_eq!(cp.baseline_snapshots.len(), 2);
}

#[test]
fn test_create_and_switch_branch() {
    let mut repo = CheckpointRepo::new_single(dummy_snapshot_id(1));
    repo.create_branch("feature").unwrap();
    assert_eq!(repo.branches.len(), 2);
    repo.switch_branch("feature").unwrap();
    assert_eq!(repo.current_branch_name(), "feature");
}

#[test]
fn test_merge_branches() {
    let mut repo = CheckpointRepo::new_single(dummy_snapshot_id(1));
    repo.commit_single(dummy_snapshot_id(2), "main v2", "user").unwrap();
    repo.create_branch("feature").unwrap();
    repo.commit_single(dummy_snapshot_id(3), "feature v1", "user").unwrap();
    repo.switch_branch("main").unwrap();

    let merge_cp = repo.merge_branches("feature", vec![dummy_snapshot_id(4)], "merge feature", "user").unwrap();
    let cp = repo.get_checkpoint(&merge_cp).unwrap();
    assert_eq!(cp.parents.len(), 2, "merge checkpoint should have 2 parents");
}

#[test]
fn test_log_count() {
    let mut repo = CheckpointRepo::new_single(dummy_snapshot_id(1));
    for i in 2..=10 {
        repo.commit_single(dummy_snapshot_id(i), &format!("commit {}", i), "user").unwrap();
    }
    let log = repo.log(5);
    assert_eq!(log.len(), 5);
    assert_eq!(log[0].metadata.message, "commit 10");
}

#[test]
fn test_list_branches() {
    let mut repo = CheckpointRepo::new_single(dummy_snapshot_id(1));
    repo.create_branch("feature-a").unwrap();
    repo.create_branch("feature-b").unwrap();
    let branches = repo.list_branches();
    assert_eq!(branches.len(), 3);
}

#[test]
fn test_empty_commit_fails() {
    let mut repo = CheckpointRepo::new_single(dummy_snapshot_id(1));
    let result = repo.commit(vec![], "empty", "user");
    assert!(result.is_err());
}

#[test]
fn test_switch_nonexistent_branch_fails() {
    let mut repo = CheckpointRepo::new_single(dummy_snapshot_id(1));
    let result = repo.switch_branch("nonexistent");
    assert!(result.is_err());
}

#[test]
fn test_delete_nonexistent_checkpoint_fails() {
    let mut repo = CheckpointRepo::new_single(dummy_snapshot_id(1));
    let fake_id = CheckpointId::from_content(b"fake");
    let result = repo.remove_checkpoint(&fake_id);
    assert!(result.is_err());
}

#[test]
fn test_create_duplicate_branch_fails() {
    let mut repo = CheckpointRepo::new_single(dummy_snapshot_id(1));
    repo.create_branch("feature").unwrap();
    let result = repo.create_branch("feature");
    assert!(result.is_err());
}

#[test]
fn test_create_branch_from_nonexistent_checkpoint_fails() {
    let mut repo = CheckpointRepo::new_single(dummy_snapshot_id(1));
    let fake_id = CheckpointId::from_content(b"fake");
    let result = repo.create_branch_from("feature", fake_id);
    assert!(result.is_err());
}

#[test]
fn test_merge_with_empty_snapshots_fails() {
    let mut repo = CheckpointRepo::new_single(dummy_snapshot_id(1));
    repo.create_branch("feature").unwrap();
    let result = repo.merge_branches("feature", vec![], "merge", "user");
    assert!(result.is_err());
}

#[test]
fn test_merge_nonexistent_branch_fails() {
    let mut repo = CheckpointRepo::new_single(dummy_snapshot_id(1));
    let result = repo.merge_branches("nonexistent", vec![dummy_snapshot_id(2)], "merge", "user");
    assert!(result.is_err());
}

#[test]
fn test_log_from_merge_commit() {
    let mut repo = CheckpointRepo::new_single(dummy_snapshot_id(1));
    repo.commit_single(dummy_snapshot_id(2), "main v2", "user").unwrap();
    repo.create_branch("feature").unwrap();
    repo.commit_single(dummy_snapshot_id(3), "feature v1", "user").unwrap();
    repo.switch_branch("main").unwrap();
    repo.merge_branches("feature", vec![dummy_snapshot_id(4)], "merge feature", "user").unwrap();

    let log = repo.log(10);
    assert!(log.len() >= 4);
    let merge_cp = &log[0];
    assert_eq!(merge_cp.parents.len(), 2, "merge should have 2 parents");
}

#[test]
fn test_get_branch_head_nonexistent_fails() {
    let repo = CheckpointRepo::new_single(dummy_snapshot_id(1));
    let result = repo.get_branch_head("nonexistent");
    assert!(result.is_err());
}

#[test]
fn test_multiple_branch_switching() {
    let mut repo = CheckpointRepo::new_single(dummy_snapshot_id(1));
    repo.create_branch("feature-a").unwrap();
    repo.create_branch("feature-b").unwrap();

    repo.switch_branch("feature-a").unwrap();
    assert_eq!(repo.current_branch_name(), "feature-a");
    repo.switch_branch("feature-b").unwrap();
    assert_eq!(repo.current_branch_name(), "feature-b");
    repo.switch_branch("main").unwrap();
    assert_eq!(repo.current_branch_name(), "main");
}

#[test]
fn test_remove_checkpoint_updates_dag() {
    let mut repo = CheckpointRepo::new_single(dummy_snapshot_id(1));
    let _cp1 = repo.commit_single(dummy_snapshot_id(2), "second", "user").unwrap();
    let cp2 = repo.commit_single(dummy_snapshot_id(3), "third", "user").unwrap();

    repo.remove_checkpoint(&cp2).unwrap();

    assert_eq!(repo.checkpoint_count(), 2);
    assert!(repo.get_checkpoint(&cp2).is_err());
    assert!(!repo.checkpoint_dag.has_node(&cp2));
}

#[test]
fn test_find_branch() {
    let mut repo = CheckpointRepo::new_single(dummy_snapshot_id(1));
    repo.create_branch("feature").unwrap();
    let idx = repo.find_branch("feature").unwrap();
    assert_eq!(repo.branches[idx].name, "feature");
    let result = repo.find_branch("nonexistent");
    assert!(result.is_err());
}

#[test]
fn test_restore_full_basic() {
    let repo = CheckpointRepo::new_single(dummy_snapshot_id(1));
    let head = repo.current_branch_head();
    let result = repo.restore_full(&head);
    assert!(result.is_err() || result.is_ok());
}

#[test]
fn test_list_snapshots_returns_snapshot_info() {
    let snap_id = dummy_snapshot_id(1);
    let repo = CheckpointRepo::new_single(snap_id);
    let head = repo.current_branch_head();
    let result = repo.list_snapshots(&head);
    assert!(result.is_ok());
    let snapshots = result.unwrap();
    assert_eq!(snapshots.len(), 1);
    assert_eq!(snapshots[0].0, snap_id);
}

#[test]
fn test_diff_checkpoints_empty() {
    let mut repo = CheckpointRepo::new_single(dummy_snapshot_id(1));
    let cp1 = repo.commit_single(dummy_snapshot_id(2), "second", "user").unwrap();
    let head = repo.current_branch_head();
    let diff = repo.diff_checkpoints(&cp1, &head).unwrap();
    assert!(diff.is_empty());
}

#[test]
fn test_diff_checkpoints_nonexistent_from_fails() {
    let repo = CheckpointRepo::new_single(dummy_snapshot_id(1));
    let head = repo.current_branch_head();
    let fake_id = dummy_cp_id(255);
    let result = repo.diff_checkpoints(&fake_id, &head);
    assert!(result.is_err());
}

#[test]
fn test_validate_integrity_basic() {
    let repo = CheckpointRepo::new_single(dummy_snapshot_id(1));
    let head = repo.current_branch_head();
    let issues = repo.validate_integrity(&head).unwrap();
    assert!(issues.is_empty() || !issues.is_empty());
}

#[test]
fn test_ancestry_chain_linear() {
    let mut repo = CheckpointRepo::new_single(dummy_snapshot_id(1));
    let _cp1 = repo.commit_single(dummy_snapshot_id(2), "second", "user").unwrap();
    let head = repo.current_branch_head();
    let ancestry = repo.get_ancestry_chain(&head).unwrap();
    assert!(ancestry.len() >= 2);
    assert_eq!(*ancestry.last().unwrap(), head);
}

// ---------------------------------------------------------------------------
// Further cases
// ---------------------------------------------------------------------------

#[test]
fn commit_moves_only_the_current_branch() {
    let mut repo = CheckpointRepo::new_single(dummy_snapshot_id(1));
    let root = repo.current_branch_head();
    repo.create_branch("feature").unwrap();
    let cp = repo.commit_single(dummy_snapshot_id(2), "c", "u").unwrap();
    assert_eq!(repo.get_branch_head("main").unwrap(), cp);
    assert_eq!(repo.get_branch_head("feature").unwrap(), root);
    assert!(repo.dag().is_ancestor(&root, &cp));
    assert_eq!(repo.get_checkpoint(&cp).unwrap().parents, vec![root]);
}

#[test]
fn error_messages_name_the_missing_item() {
    let mut repo = CheckpointRepo::new_single(dummy_snapshot_id(1));
    match repo.switch_branch("ghost") {
        Err(StratumError::NotFound(m)) => assert_eq!(m, "branch 'ghost' not found"),
        other => panic!("unexpected {:?}", other),
    }
    match repo.create_branch("main") {
        Err(StratumError::Checkpoint(m)) => assert_eq!(m, "branch 'main' already exists"),
        other => panic!("unexpected {:?}", other),
    }
    match repo.commit(vec![], "m", "a") {
        Err(StratumError::Checkpoint(m)) => assert_eq!(m, "cannot commit with empty snapshot list"),
        other => panic!("unexpected {:?}", other),
    }
    let fake = CheckpointId::from_content(b"fake");
    match repo.get_checkpoint(&fake) {
        Err(StratumError::NotFound(m)) => assert_eq!(m, format!("checkpoint {} not found", fake.to_hex())),
        other => panic!("unexpected {:?}", other),
    }
}

#[test]
fn branch_from_existing_checkpoint() {
    let mut repo = CheckpointRepo::new_single(dummy_snapshot_id(1));
    let root = repo.current_branch_head();
    repo.commit_single(dummy_snapshot_id(2), "c", "u").unwrap();
    repo.create_branch_from("old", root).unwrap();
    assert_eq!(repo.get_branch_head("old").unwrap(), root);
}

#[test]
fn log_stops_at_count_and_walks_all_parents() {
    let mut repo = CheckpointRepo::new_single(dummy_snapshot_id(1));
    repo.create_branch("side").unwrap();
    repo.commit_single(dummy_snapshot_id(2), "main", "u").unwrap();
    repo.switch_branch("side").unwrap();
    repo.commit_single(dummy_snapshot_id(3), "side", "u").unwrap();
    repo.switch_branch("main").unwrap();
    repo.merge_branches("side", vec![dummy_snapshot_id(4)], "merge", "u").unwrap();
    assert_eq!(repo.log(10).len(), 4);
    assert_eq!(repo.log(2).len(), 2);
    assert_eq!(repo.log(0).len(), 0);
}

#[test]
fn diff_checkpoints_lists_added_and_removed() {
    let mut repo = CheckpointRepo::new(vec![dummy_snapshot_id(1), dummy_snapshot_id(2)]);
    let root = repo.current_branch_head();
    let cp = repo.commit(vec![dummy_snapshot_id(2), dummy_snapshot_id(3)], "m", "u").unwrap();
    let d = repo.diff_checkpoints(&root, &cp).unwrap();
    assert_eq!(d.added, vec![dummy_snapshot_id(3)]);
    assert_eq!(d.removed, vec![dummy_snapshot_id(1)]);
    assert!(d.modified.is_empty());
    assert!(!d.is_empty());
}

#[test]
fn restore_full_needs_snapshot_storage() {
    let repo = CheckpointRepo::new_single(dummy_snapshot_id(1));
    let head = repo.current_branch_head();
    assert!(matches!(repo.restore_full(&head), Err(StratumError::NotFound(_))));
    let issues = repo.validate_integrity(&head).unwrap();
    assert_eq!(issues, vec![format!("Snapshot {} referenced but not found", dummy_snapshot_id(1).to_hex())]);
}

#[test]
fn remove_then_parent_table_drops_checkpoint() {
    let mut repo = CheckpointRepo::new_single(dummy_snapshot_id(1));
    let cp = repo.commit_single(dummy_snapshot_id(2), "c", "u").unwrap();
    assert_eq!(repo.parent_table().len(), 2);
    repo.remove_checkpoint(&cp).unwrap();
    assert_eq!(repo.parent_table().len(), 1);
    assert_eq!(repo.checkpoint_count(), 1);
}

#[test]
fn test_restore_by_time_requires_storage() {
    let snap_id = dummy_snapshot_id(1);
    let repo = CheckpointRepo::new_single(snap_id);
    // restore_by_time uses snapshot lookup which requires storage backend
    let result = repo.restore_by_time(0, None);
    // Without storage, snapshot content loading fails
    assert!(result.is_err());
}

#[test]
fn nearest_checkpoint_of_single_repo_is_its_head() {
    let repo = CheckpointRepo::new_single(dummy_snapshot_id(1));
    let head = repo.current_branch_head();
    assert_eq!(repo.nearest_checkpoint(0), Some(head));
    assert_eq!(repo.nearest_checkpoint(i64::MAX / 2), Some(head));
}
