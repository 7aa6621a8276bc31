use std::cell::RefCell;
use std::collections::HashMap;
use std::sync::Arc;

use stratum::api::service::{ApiServiceImpl, ServiceConfig};
use stratum::api::types::{
    BranchCreateRequest, BranchSwitchRequest, CommitRequest, EditRequest, GcRequest, InitRequest, InitResponse, LogRequest, MergeRequest,
    ShowRequest,
};
use stratum::checkpoint::branch::Branch;
use stratum::checkpoint::repo::CheckpointRepo;
use stratum::cli::output::status_output;
use stratum::checkpoint::checkpoint::Checkpoint;
use stratum::checkpoint::dag::CheckpointDag;
use stratum::engine::diff::diff_to_line_diff;
use stratum::error::{StorageError, StratumError};
use stratum::layered::approval::{
    approval_agent_partition_id, ensure_approval_agent_partition, list_approval_partitions, list_pending_approvals, reject_approval,
};
use stratum::layered::integrated::{
    create_feature_branch, ensure_integrated_partition, get_feature_baseline, integrated_partition_id, merge_agent_to_feature,
    migrate_between_partitions, move_approval_to_integrated,
};
use stratum::layered::staged::{commit_staged_to_checkpoint, ensure_staged_partition, merge_approval_to_staged, merge_unified_to_staged, reset_staged, staged_partition_id};
use stratum::layered::transition::{
    execute_forward, has_parent_of_type, rebuild_text, reconstruct_text, rollback_partition, rollback_staged_to_layer, ForwardTransition,
};
use stratum::layered::unified::{ensure_unified_partition, merge_feature_to_unified, merge_features_to_unified, move_integrated_to_unified, unified_partition_id};
use stratum::layered::{group_by_layer, merge_step, StateMachine};
use stratum::model::delta::{Delta, LineDiff};
use stratum::model::file_node::FileNode;
use stratum::model::layer::Layer;
use stratum::model::partition::Partition;
use stratum::model::snapshot::Snapshot;
use stratum::model::types::{AgentInstanceId, CheckpointId, ContentId, DeltaId, LayerType, PartitionId, PartitionType, SnapshotId, SourceType};
use stratum::state_machine;
use stratum::storage::repository::{BranchStore, CheckpointStore, DagStore, DeltaStore, FileNodeStore, LayerStore, MetadataStore, PartitionStore, SnapshotStore, TransactionStore};

/// An in-memory backend. A file content, once recorded for a path and
/// digest, is kept.
#[derive(Default)]
struct MemStore {
    partitions: RefCell<Vec<Partition>>,
    snapshots: RefCell<HashMap<SnapshotId, Snapshot>>,
    deltas: RefCell<HashMap<DeltaId, Delta>>,
    files: RefCell<HashMap<(String, [u8; 32]), Vec<u8>>>,
    branches: RefCell<Vec<Branch>>,
    checkpoints: RefCell<Vec<Checkpoint>>,
    dag: RefCell<Option<CheckpointDag>>,
    layers: RefCell<Vec<Layer>>,
    metadata: RefCell<HashMap<String, String>>,
    saved_partitions: RefCell<Option<Vec<Partition>>>,
}

fn missing(what: &str) -> StorageError {
    StorageError::NotFound(what.to_string())
}

impl PartitionStore for MemStore {
    fn get_partition(&self, id: &PartitionId) -> Result<Partition, StorageError> {
        self.partitions.borrow().iter().find(|p| p.id == *id).cloned().ok_or_else(|| missing("partition"))
    }
    fn create_partition(&self, partition: &Partition) -> Result<(), StorageError> {
        if self.partitions.borrow().iter().any(|p| p.id == partition.id) {
            return Err(StorageError::ConstraintViolation("partition exists".to_string()));
        }
        self.partitions.borrow_mut().push(partition.clone());
        Ok(())
    }
    fn update_pointer(&self, id: &PartitionId, snapshot_id: &SnapshotId) -> Result<(), StorageError> {
        let mut ps = self.partitions.borrow_mut();
        let p = ps.iter_mut().find(|p| p.id == *id).ok_or_else(|| missing("partition"))?;
        p.advance(*snapshot_id);
        Ok(())
    }
    fn list_partitions(&self) -> Result<Vec<Partition>, StorageError> {
        Ok(self.partitions.borrow().clone())
    }
}

impl SnapshotStore for MemStore {
    fn store_snapshot(&self, snapshot: &Snapshot, _content: &[u8]) -> Result<(), StorageError> {
        self.snapshots.borrow_mut().insert(snapshot.id, snapshot.clone());
        Ok(())
    }
    fn get_snapshot(&self, id: &SnapshotId) -> Result<Snapshot, StorageError> {
        self.snapshots.borrow().get(id).cloned().ok_or_else(|| missing("snapshot"))
    }
}

impl DeltaStore for MemStore {
    fn store_delta(&self, delta: &Delta) -> Result<(), StorageError> {
        self.deltas.borrow_mut().insert(delta.id, delta.clone());
        Ok(())
    }
    fn get_deltas(&self, ids: &[DeltaId]) -> Result<Vec<Delta>, StorageError> {
        let ds = self.deltas.borrow();
        ids.iter().map(|id| ds.get(id).cloned().ok_or_else(|| missing("delta"))).collect()
    }
}

impl FileNodeStore for MemStore {
    fn store_file_node(&self, node: &FileNode, content: &[u8]) -> Result<(), StorageError> {
        self.files.borrow_mut().entry((node.file_path.clone(), node.base_hash)).or_insert_with(|| content.to_vec());
        Ok(())
    }
    fn get_file_content(&self, path: &str, hash: &[u8; 32]) -> Result<Vec<u8>, StorageError> {
        self.files.borrow().get(&(path.to_string(), *hash)).cloned().ok_or_else(|| missing("file"))
    }
}

impl BranchStore for MemStore {
    fn get_branch(&self, name: &str) -> Result<Branch, StorageError> {
        self.branches.borrow().iter().find(|b| b.name == name).map(|b| b.duplicate()).ok_or_else(|| missing("branch"))
    }
    fn store_branch(&self, branch: &Branch) -> Result<(), StorageError> {
        let mut bs = self.branches.borrow_mut();
        match bs.iter_mut().find(|b| b.name == branch.name) {
            Some(b) => *b = branch.duplicate(),
            None => bs.push(branch.duplicate()),
        }
        Ok(())
    }
    fn update_branch_head(&self, name: &str, head: &CheckpointId) -> Result<(), StorageError> {
        let mut bs = self.branches.borrow_mut();
        let b = bs.iter_mut().find(|b| b.name == name).ok_or_else(|| missing("branch"))?;
        b.set_head(*head);
        Ok(())
    }
    fn list_branches(&self) -> Result<Vec<Branch>, StorageError> {
        Ok(self.branches.borrow().iter().map(|b| b.duplicate()).collect())
    }
}

impl CheckpointStore for MemStore {
    fn store_checkpoint(&self, checkpoint: &Checkpoint) -> Result<(), StorageError> {
        let mut cs = self.checkpoints.borrow_mut();
        match cs.iter_mut().find(|c| c.id == checkpoint.id) {
            Some(c) => *c = checkpoint.clone(),
            None => cs.push(checkpoint.clone()),
        }
        Ok(())
    }
    fn get_checkpoint(&self, id: &CheckpointId) -> Result<Checkpoint, StorageError> {
        self.checkpoints.borrow().iter().find(|c| c.id == *id).cloned().ok_or_else(|| missing("checkpoint"))
    }
    fn list_checkpoints(&self) -> Result<Vec<Checkpoint>, StorageError> {
        Ok(self.checkpoints.borrow().iter().rev().cloned().collect())
    }
    fn delete_checkpoint(&self, id: &CheckpointId) -> Result<(), StorageError> {
        self.checkpoints.borrow_mut().retain(|c| c.id != *id);
        Ok(())
    }
}

impl TransactionStore for MemStore {
    fn begin_transaction(&self) -> Result<(), StorageError> {
        *self.saved_partitions.borrow_mut() = Some(self.partitions.borrow().clone());
        Ok(())
    }
    fn commit_transaction(&self) -> Result<(), StorageError> {
        *self.saved_partitions.borrow_mut() = None;
        Ok(())
    }
    fn rollback_transaction(&self) -> Result<(), StorageError> {
        if let Some(saved) = self.saved_partitions.borrow_mut().take() {
            *self.partitions.borrow_mut() = saved;
        }
        Ok(())
    }
}

impl MetadataStore for MemStore {
    fn store_metadata(&self, key: &str, value: &str) -> Result<(), StorageError> {
        self.metadata.borrow_mut().insert(key.to_string(), value.to_string());
        Ok(())
    }
    fn load_metadata(&self, key: &str) -> Result<Option<String>, StorageError> {
        Ok(self.metadata.borrow().get(key).cloned())
    }
}

impl DagStore for MemStore {
    fn load_dag(&self) -> Result<CheckpointDag, StorageError> {
        Ok(match &*self.dag.borrow() {
            Some(d) => d.duplicate(),
            None => CheckpointDag::new(),
        })
    }
    fn store_dag(&self, dag: &CheckpointDag) -> Result<(), StorageError> {
        *self.dag.borrow_mut() = Some(dag.duplicate());
        Ok(())
    }
}

impl LayerStore for MemStore {
    fn store_layer(&self, layer: &Layer) -> Result<(), StorageError> {
        self.layers.borrow_mut().push(Layer { layer_type: layer.layer_type, partitions: layer.partitions.clone() });
        Ok(())
    }
}

fn setup_storage() -> MemStore {
    MemStore::default()
}

fn create_initial_snapshot(storage: &MemStore, content: &str) -> SnapshotId {
    let file_node = FileNode::new("test.txt".to_string(), content.as_bytes());
    storage.store_file_node(&file_node, content.as_bytes()).unwrap();
    let empty_diff = LineDiff::new(vec![]);
    let delta = Delta::new(file_node.clone(), empty_diff, SourceType::Manual);
    storage.store_delta(&delta).unwrap();
    let snapshot = Snapshot::new_initial(file_node, delta.id);
    storage.store_snapshot(&snapshot, b"").unwrap();
    snapshot.id
}

fn create_snapshot_with_content(storage: &MemStore, parent_id: &SnapshotId, content: &str, partition_type: &str) -> SnapshotId {
    let parent = storage.get_snapshot(parent_id).unwrap();
    let file_node = FileNode::new("test.txt".to_string(), content.as_bytes());
    storage.store_file_node(&file_node, content.as_bytes()).unwrap();
    let parent_text = reconstruct_text(storage, &parent).unwrap();
    let diff = diff_to_line_diff(&parent_text, content);
    let delta = Delta::new(file_node, diff, SourceType::Manual);
    storage.store_delta(&delta).unwrap();
    let snap = Snapshot::from_parent(&parent, delta.id, partition_type.to_string());
    storage.store_snapshot(&snap, b"").unwrap();
    snap.id
}

fn partition(id: PartitionId, name: &str, current: SnapshotId, history: Vec<SnapshotId>, partition_type: PartitionType) -> Partition {
    Partition { id, name: name.to_string(), current_snapshot: current, history, partition_type }
}

fn create_approval_partition(storage: &MemStore, content: &str) -> PartitionId {
    let agent_id = AgentInstanceId("test-agent".into());
    let initial_id = create_initial_snapshot(storage, "base\n");
    let pid = approval_agent_partition_id(&agent_id);
    storage
        .create_partition(&partition(pid, "approval/test-agent", initial_id, vec![initial_id], PartitionType::Approval(agent_id.clone())))
        .unwrap();
    let file_node = FileNode::new("test.txt".to_string(), content.as_bytes());
    storage.store_file_node(&file_node, content.as_bytes()).unwrap();
    let diff = diff_to_line_diff("base\n", content);
    let delta = Delta::new(file_node, diff, SourceType::Manual);
    storage.store_delta(&delta).unwrap();
    let snap = storage.get_snapshot(&initial_id).unwrap();
    let new_snap = Snapshot::from_parent(&snap, delta.id, PartitionType::Approval(agent_id).name());
    storage.store_snapshot(&new_snap, b"").unwrap();
    storage.update_pointer(&pid, &new_snap.id).unwrap();
    pid
}

// ---------------------------------------------------------------------------
// Transitions
// ---------------------------------------------------------------------------

#[test]
fn transition_test_rollback_partition() {
    let storage = setup_storage();
    let initial_id = create_initial_snapshot(&storage, "v1\n");
    let pid = staged_partition_id();
    storage.create_partition(&partition(pid, "test", initial_id, vec![initial_id], PartitionType::Staged)).unwrap();

    let file_node = FileNode::new("test.txt".to_string(), b"v1\n");
    let delta = Delta::new(file_node, LineDiff::new(vec![]), SourceType::Manual);
    storage.store_delta(&delta).unwrap();
    let snap = storage.get_snapshot(&initial_id).unwrap();
    let s2 = Snapshot::from_parent(&snap, delta.id, "staged".to_string());
    storage.store_snapshot(&s2, b"").unwrap();
    storage.update_pointer(&pid, &s2.id).unwrap();

    let prev = rollback_partition(&storage, &pid).unwrap();
    assert_eq!(prev, initial_id);
}

#[test]
fn test_rollback_partition_error() {
    let storage = setup_storage();
    let initial_id = create_initial_snapshot(&storage, "v1\n");
    let pid = staged_partition_id();
    storage.create_partition(&partition(pid, "test", initial_id, vec![initial_id], PartitionType::Staged)).unwrap();
    let result = rollback_partition(&storage, &pid);
    assert!(result.is_err(), "should error when only one snapshot in history");
}

#[test]
fn transition_test_reconstruct_text() {
    let storage = setup_storage();
    let file_node = FileNode::new("test.txt".to_string(), b"hello\n");
    storage.store_file_node(&file_node, b"hello\n").unwrap();
    let diff = diff_to_line_diff("hello\n", "hello world\n");
    let delta = Delta::new(file_node.clone(), diff, SourceType::Manual);
    storage.store_delta(&delta).unwrap();
    let snapshot = Snapshot::new_initial(file_node, delta.id);
    storage.store_snapshot(&snapshot, b"").unwrap();

    let text = reconstruct_text(&storage, &snapshot).unwrap();
    assert_eq!(text, "hello world");
}

#[test]
fn test_has_parent_of_type() {
    let storage = setup_storage();
    let initial_id = create_initial_snapshot(&storage, "base\n");

    let file_node = FileNode::new("test.txt".to_string(), b"base\nmodified\n");
    storage.store_file_node(&file_node, b"base\nmodified\n").unwrap();
    let diff = diff_to_line_diff("base\n", "base\nmodified\n");
    let delta = Delta::new(file_node, diff, SourceType::Manual);
    storage.store_delta(&delta).unwrap();

    let parent_snap = storage.get_snapshot(&initial_id).unwrap();
    let manual_snap = Snapshot::from_parent(&parent_snap, delta.id, "manual_edit".to_string());
    storage.store_snapshot(&manual_snap, b"").unwrap();

    let file_node2 = FileNode::new("test.txt".to_string(), b"base\n");
    storage.store_file_node(&file_node2, b"base\n").unwrap();
    let diff2 = diff_to_line_diff("base\nmodified\n", "base\n");
    let delta2 = Delta::new(file_node2, diff2, SourceType::Manual);
    storage.store_delta(&delta2).unwrap();
    let staged_snap = Snapshot::from_parent(&manual_snap, delta2.id, "staged".to_string());
    storage.store_snapshot(&staged_snap, b"").unwrap();

    let has_manual = has_parent_of_type(&storage, &staged_snap, "manual").unwrap();
    assert!(has_manual, "staged snapshot should have parent with 'manual'");

    let has = has_parent_of_type(&storage, &parent_snap, "manual").unwrap();
    assert!(!has, "initial snapshot has no parent");
}

#[test]
fn test_rollback_staged_to_layer_not_found() {
    let storage = setup_storage();
    let initial_id = create_initial_snapshot(&storage, "base\n");
    ensure_staged_partition(&storage, initial_id).unwrap();
    let result = rollback_staged_to_layer(&storage, LayerType::ManualEdit);
    assert!(result.is_err(), "should error when no suitable parent found");
}

#[test]
fn rollback_staged_finds_the_layer_parent() {
    let storage = setup_storage();
    let initial_id = create_initial_snapshot(&storage, "base\n");
    ensure_staged_partition(&storage, initial_id).unwrap();
    let approval_pid = create_approval_partition(&storage, "base\nmodified\n");
    let approval_head = storage.get_partition(&approval_pid).unwrap().current_snapshot;
    merge_approval_to_staged(&storage, &approval_pid).unwrap();
    let back = rollback_staged_to_layer(&storage, LayerType::Approval).unwrap();
    assert_eq!(back, approval_head);
    assert_eq!(storage.get_partition(&staged_partition_id()).unwrap().current_snapshot, approval_head);
    match rollback_staged_to_layer(&storage, LayerType::AgentEdit) {
        Err(StratumError::NotFound(m)) => assert_eq!(m, "no parent found for target layer AgentEdit in staged snapshot parents"),
        other => panic!("unexpected {:?}", other),
    }
}

#[test]
fn rebuild_text_reports_out_of_range_chain() {
    let f = FileNode::new("t.txt".to_string(), b"");
    let hunk = stratum::model::types::Hunk {
        old_start: 1,
        old_len: 1,
        new_start: 1,
        new_len: 1,
        ops: vec![stratum::model::types::DiffOp::Equal { count: 5 }],
    };
    let d = Delta::new(f, LineDiff::new(vec![hunk]), SourceType::Manual);
    match rebuild_text("a\n", &[d]) {
        Err(StratumError::Engine(m)) => assert_eq!(m, "delta keeps lines past the end of the text"),
        other => panic!("unexpected {:?}", other),
    }
    assert_eq!(rebuild_text("a\nb\n", &[]).unwrap(), "a\nb");
}

// ---------------------------------------------------------------------------
// Approval partitions
// ---------------------------------------------------------------------------

#[test]
fn approval_test_ensure_approval_agent_partition() {
    let storage = setup_storage();
    let agent_id = AgentInstanceId("test-agent".into());
    let initial_id = create_initial_snapshot(&storage, "base\n");
    let p1 = ensure_approval_agent_partition(&storage, &agent_id, initial_id).unwrap();
    let p2 = ensure_approval_agent_partition(&storage, &agent_id, initial_id).unwrap();
    assert_eq!(p1.id, p2.id, "second call should return existing partition");
}

#[test]
fn test_approval_agent_partition_id() {
    let aa = approval_agent_partition_id(&AgentInstanceId("agent-a".into()));
    let ab = approval_agent_partition_id(&AgentInstanceId("agent-b".into()));
    assert_ne!(aa, ab, "different agents should have different approval partition ids");
}

#[test]
fn test_list_approval_partitions() {
    let storage = setup_storage();
    let base_id = create_initial_snapshot(&storage, "base\n");
    ensure_approval_agent_partition(&storage, &AgentInstanceId("agent-a".into()), base_id).unwrap();
    ensure_approval_agent_partition(&storage, &AgentInstanceId("agent-b".into()), base_id).unwrap();
    let list = list_approval_partitions(&storage).unwrap();
    assert_eq!(list.len(), 2);
}

#[test]
fn test_list_pending_approvals_empty() {
    let storage = setup_storage();
    let base_id = create_initial_snapshot(&storage, "base\n");
    ensure_approval_agent_partition(&storage, &AgentInstanceId("agent".into()), base_id).unwrap();
    let pending = list_pending_approvals(&storage).unwrap();
    assert!(pending.is_empty());
}

#[test]
fn test_reject_approval() {
    let storage = setup_storage();
    let base_id = create_initial_snapshot(&storage, "base\n");
    let agent = AgentInstanceId("reject-agent".into());
    let mut p = ensure_approval_agent_partition(&storage, &agent, base_id).unwrap();
    let merged_id = create_initial_snapshot(&storage, "agent changes\n");
    p.advance(merged_id);
    storage.update_pointer(&p.id, &merged_id).map_err(StratumError::Storage).unwrap();

    let before = storage.get_partition(&p.id).unwrap();
    assert_eq!(before.history.len(), 2);

    let rolled_back = reject_approval(&storage, &agent).unwrap();
    assert_eq!(rolled_back, base_id);

    let after = storage.get_partition(&p.id).unwrap();
    assert_eq!(after.current_snapshot, base_id);
}

#[test]
fn test_reject_approval_nonexistent_agent() {
    let storage = setup_storage();
    let result = reject_approval(&storage, &AgentInstanceId("ghost".into()));
    assert!(result.is_err());
}

#[test]
fn pending_approvals_list_submitted_partitions() {
    let storage = setup_storage();
    let base_id = create_initial_snapshot(&storage, "base\n");
    ensure_approval_agent_partition(&storage, &AgentInstanceId("quiet".into()), base_id).unwrap();
    let pid = create_approval_partition(&storage, "base\nchanged\n");
    ensure_staged_partition(&storage, base_id).unwrap();
    let pending = list_pending_approvals(&storage).unwrap();
    assert_eq!(pending.len(), 1);
    assert_eq!(pending[0].id, pid);
    assert_eq!(list_approval_partitions(&storage).unwrap().len(), 2);
}

// ---------------------------------------------------------------------------
// Integration, unified and staged partitions
// ---------------------------------------------------------------------------

#[test]
fn integrated_test_migrate_between_partitions() {
    let storage = setup_storage();
    let initial_id = create_initial_snapshot(&storage, "base\n");
    let agent_id = AgentInstanceId("test-agent".into());
    let approval_pid = approval_agent_partition_id(&agent_id);
    let integrated_name = "integrated-1";
    let integrated_pid = integrated_partition_id(integrated_name);
    storage
        .create_partition(&partition(approval_pid, "approval/test-agent", initial_id, vec![initial_id], PartitionType::Approval(agent_id.clone())))
        .unwrap();
    storage
        .create_partition(&partition(
            integrated_pid,
            &format!("integrated/{}", integrated_name),
            initial_id,
            vec![initial_id],
            PartitionType::Integrated(integrated_name.to_string()),
        ))
        .unwrap();

    let snap = storage.get_snapshot(&initial_id).unwrap();
    let new_snap = Snapshot::from_parent(
        &snap,
        Delta::new(FileNode::new("test.txt".to_string(), b"base\n"), LineDiff::new(vec![]), SourceType::Manual).id,
        PartitionType::Approval(agent_id.clone()).name(),
    );
    storage.store_snapshot(&new_snap, b"").unwrap();
    storage.update_pointer(&approval_pid, &new_snap.id).unwrap();

    migrate_between_partitions(&storage, &approval_pid, &integrated_pid).unwrap();
    let integrated = storage.get_partition(&integrated_pid).unwrap();
    assert_eq!(integrated.current_snapshot, new_snap.id);
}

#[test]
fn integrated_test_ensure_integrated_partition() {
    let storage = setup_storage();
    let initial_id = create_initial_snapshot(&storage, "base\n");
    let p1 = ensure_integrated_partition(&storage, "feat-1", initial_id).unwrap();
    let p2 = ensure_integrated_partition(&storage, "feat-1", initial_id).unwrap();
    assert_eq!(p1.id, p2.id);
    let p3 = ensure_integrated_partition(&storage, "feat-2", initial_id).unwrap();
    assert_ne!(p1.id, p3.id, "different names should produce different partition ids");
}

#[test]
fn integrated_test_ensure_unified_partition() {
    let storage = setup_storage();
    let initial_id = create_initial_snapshot(&storage, "base\n");
    let p1 = ensure_unified_partition(&storage, initial_id).unwrap();
    let p2 = ensure_unified_partition(&storage, initial_id).unwrap();
    assert_eq!(p1.id, p2.id, "unified partition should be singleton");
}

#[test]
fn unified_test_ensure_unified_partition() {
    let storage = setup_storage();
    let initial_id = create_initial_snapshot(&storage, "base\n");
    let p1 = ensure_unified_partition(&storage, initial_id).unwrap();
    let p2 = ensure_unified_partition(&storage, initial_id).unwrap();
    assert_eq!(p1.id, p2.id, "unified partition should be singleton");
}

#[test]
fn integrated_test_move_approval_to_integrated() {
    let storage = setup_storage();
    let agent_id = AgentInstanceId("test-agent".into());
    let initial_id = create_initial_snapshot(&storage, "base\n");
    let approval_pid = approval_agent_partition_id(&agent_id);
    storage
        .create_partition(&partition(approval_pid, "approval/test-agent", initial_id, vec![initial_id], PartitionType::Approval(agent_id.clone())))
        .unwrap();
    let integrated_name = "feat-integrated";
    let integrated_pid = integrated_partition_id(integrated_name);
    storage
        .create_partition(&partition(
            integrated_pid,
            &format!("integrated/{}", integrated_name),
            initial_id,
            vec![initial_id],
            PartitionType::Integrated(integrated_name.to_string()),
        ))
        .unwrap();

    let approval_new_id = create_snapshot_with_content(&storage, &initial_id, "base\nmodified\n", "approval/test-agent");
    storage.update_pointer(&approval_pid, &approval_new_id).unwrap();

    let result = move_approval_to_integrated(&storage, &agent_id, integrated_name);
    assert!(result.is_ok());

    let integrated = storage.get_partition(&integrated_pid).unwrap();
    assert_ne!(integrated.current_snapshot, initial_id);
}

#[test]
fn integrated_test_partition_id_uniqueness() {
    let aa = approval_agent_partition_id(&AgentInstanceId("agent-a".into()));
    let ab = approval_agent_partition_id(&AgentInstanceId("agent-b".into()));
    assert_ne!(aa, ab, "different agents should have different approval partition ids");
    let ia = integrated_partition_id("feat-a");
    let ib = integrated_partition_id("feat-b");
    assert_ne!(ia, ib, "different integrations should have different partition ids");
    assert_ne!(aa, ia, "approval and integrated partition ids should differ");
}

#[test]
fn test_unified_partition_id() {
    let id1 = unified_partition_id();
    let id2 = unified_partition_id();
    assert_eq!(id1, id2, "unified partition ID must be deterministic");
}

#[test]
fn test_merge_feature_to_unified_no_changes() {
    let storage = setup_storage();
    let initial_id = create_initial_snapshot(&storage, "base\n");
    let feature_name = "test-feature";
    let integrated_pid = integrated_partition_id(feature_name);
    storage
        .create_partition(&partition(
            integrated_pid,
            &format!("integrated/{}", feature_name),
            initial_id,
            vec![initial_id],
            PartitionType::Integrated(feature_name.to_string()),
        ))
        .unwrap();
    let result = merge_feature_to_unified(&storage, feature_name).unwrap();
    assert_eq!(result.snapshot_id, initial_id);
    assert!(!result.has_conflicts());
}

#[test]
fn test_merge_feature_to_unified_with_changes() {
    let storage = setup_storage();
    let initial_id = create_initial_snapshot(&storage, "base\n");
    let feature_name = "test-feature";
    let integrated_pid = integrated_partition_id(feature_name);
    let feature_snap_id = create_snapshot_with_content(&storage, &initial_id, "base\nfeature-added\n", "integrated/test-feature");
    storage
        .create_partition(&partition(
            integrated_pid,
            &format!("integrated/{}", feature_name),
            feature_snap_id,
            vec![initial_id, feature_snap_id],
            PartitionType::Integrated(feature_name.to_string()),
        ))
        .unwrap();
    let result = merge_feature_to_unified(&storage, feature_name).unwrap();
    assert!(result.snapshot_id != initial_id, "should create new snapshot when feature has changes");
    assert!(!result.has_conflicts());
}

#[test]
fn test_merge_features_to_unified_multiple() {
    let storage = setup_storage();
    let initial_id = create_initial_snapshot(&storage, "base\nline2\nline3\n");
    let feat_a_snap = create_snapshot_with_content(&storage, &initial_id, "base\nmodified-by-A\nline3\n", "integrated/feat-a");
    let pid_a = integrated_partition_id("feat-a");
    storage
        .create_partition(&partition(pid_a, "integrated/feat-a", feat_a_snap, vec![initial_id], PartitionType::Integrated("feat-a".into())))
        .unwrap();
    let feat_b_snap = create_snapshot_with_content(&storage, &initial_id, "base\nline2\nmodified-by-B\n", "integrated/feat-b");
    let pid_b = integrated_partition_id("feat-b");
    storage
        .create_partition(&partition(pid_b, "integrated/feat-b", feat_b_snap, vec![initial_id], PartitionType::Integrated("feat-b".into())))
        .unwrap();

    let result = merge_features_to_unified(&storage, &["feat-a".to_string(), "feat-b".to_string()]).unwrap();
    assert!(result.snapshot_id != initial_id, "should create new snapshot");
    assert!(!result.has_conflicts(), "non-overlapping edits should not conflict");
}

#[test]
fn unified_holds_both_features_text() {
    let storage = setup_storage();
    let initial_id = create_initial_snapshot(&storage, "base\nline2\nline3\n");
    let a = create_snapshot_with_content(&storage, &initial_id, "base\nA\nline3\n", "integrated/a");
    storage.create_partition(&partition(integrated_partition_id("a"), "integrated/a", a, vec![initial_id], PartitionType::Integrated("a".into()))).unwrap();
    let b = create_snapshot_with_content(&storage, &initial_id, "base\nline2\nB\n", "integrated/b");
    storage.create_partition(&partition(integrated_partition_id("b"), "integrated/b", b, vec![initial_id], PartitionType::Integrated("b".into()))).unwrap();
    let id = move_integrated_to_unified(&storage, &["a".to_string(), "b".to_string()]).unwrap();
    let snap = storage.get_snapshot(&id).unwrap();
    assert_eq!(reconstruct_text(&storage, &snap).unwrap(), "base\nA\nB");
    assert_eq!(snap.partition_type, "unified");
    match merge_features_to_unified(&storage, &[]) {
        Err(StratumError::General(m)) => assert_eq!(m, "at least one feature required"),
        other => panic!("unexpected {:?}", other),
    }
}

#[test]
fn conflicting_features_are_flagged() {
    let storage = setup_storage();
    let initial_id = create_initial_snapshot(&storage, "a\nb\nc\n");
    let x = create_snapshot_with_content(&storage, &initial_id, "a\nX\nc\n", "integrated/x");
    storage.create_partition(&partition(integrated_partition_id("x"), "integrated/x", x, vec![initial_id], PartitionType::Integrated("x".into()))).unwrap();
    let y = create_snapshot_with_content(&storage, &initial_id, "a\nY\nc\n", "integrated/y");
    storage.create_partition(&partition(integrated_partition_id("y"), "integrated/y", y, vec![initial_id], PartitionType::Integrated("y".into()))).unwrap();
    let first = merge_feature_to_unified(&storage, "x").unwrap();
    assert!(!first.has_conflicts());
    let second = merge_feature_to_unified(&storage, "y").unwrap();
    assert!(second.has_conflicts());
    assert!(storage.get_snapshot(&second.snapshot_id).map(|s| s.has_conflicts).unwrap_or(false) || second.snapshot_id == first.snapshot_id);
}

#[test]
fn staged_test_merge_approval_to_staged() {
    let storage = setup_storage();
    let initial_id = create_initial_snapshot(&storage, "base\n");
    ensure_staged_partition(&storage, initial_id).unwrap();
    let approval_pid = create_approval_partition(&storage, "base\nmodified\n");
    let merged_id = merge_approval_to_staged(&storage, &approval_pid).unwrap();
    let staged = storage.get_partition(&staged_partition_id()).unwrap();
    assert_eq!(staged.current_snapshot, merged_id);
    let merged = storage.get_snapshot(&merged_id).unwrap();
    assert_eq!(merged.parents.len(), 2);
}

#[test]
fn test_ensure_staged_partition() {
    let storage = setup_storage();
    let initial_id = create_initial_snapshot(&storage, "base\n");
    let p1 = ensure_staged_partition(&storage, initial_id).unwrap();
    let p2 = ensure_staged_partition(&storage, initial_id).unwrap();
    assert_eq!(p1.id, p2.id);
}

#[test]
fn test_merge_approval_to_staged_no_changes() {
    let storage = setup_storage();
    let initial_id = create_initial_snapshot(&storage, "base\n");
    ensure_staged_partition(&storage, initial_id).unwrap();
    let approval_pid = create_approval_partition(&storage, "base\n");
    let result = merge_approval_to_staged(&storage, &approval_pid);
    assert!(result.is_ok());
    let staged = storage.get_partition(&staged_partition_id()).unwrap();
    assert_eq!(staged.current_snapshot, initial_id);
}

#[test]
fn test_reset_staged() {
    let storage = setup_storage();
    let initial_id = create_initial_snapshot(&storage, "base\n");
    ensure_staged_partition(&storage, initial_id).unwrap();

    let file_node = FileNode::new("test.txt".to_string(), b"base\nmodified\n");
    storage.store_file_node(&file_node, b"base\nmodified\n").unwrap();
    let diff = diff_to_line_diff("base\n", "base\nmodified\n");
    let delta = Delta::new(file_node, diff, SourceType::Manual);
    storage.store_delta(&delta).unwrap();
    let snap = storage.get_snapshot(&initial_id).unwrap();
    let new_snap = Snapshot::from_parent(&snap, delta.id, PartitionType::Staged.name());
    storage.store_snapshot(&new_snap, b"").unwrap();
    let staged_pid = staged_partition_id();
    storage.update_pointer(&staged_pid, &new_snap.id).unwrap();

    let staged = storage.get_partition(&staged_pid).unwrap();
    assert_ne!(staged.current_snapshot, initial_id);

    reset_staged(&storage, initial_id).unwrap();
    let staged = storage.get_partition(&staged_pid).unwrap();
    assert_eq!(staged.current_snapshot, initial_id);
}

#[test]
fn test_reset_staged_at_base() {
    let storage = setup_storage();
    let initial_id = create_initial_snapshot(&storage, "base\n");
    ensure_staged_partition(&storage, initial_id).unwrap();
    reset_staged(&storage, initial_id).unwrap();
    let staged = storage.get_partition(&staged_partition_id()).unwrap();
    assert_eq!(staged.current_snapshot, initial_id);
}

#[test]
fn unified_flows_into_staged_and_commits() {
    let storage = setup_storage();
    let initial_id = create_initial_snapshot(&storage, "base\n");
    ensure_staged_partition(&storage, initial_id).unwrap();
    let f = create_snapshot_with_content(&storage, &initial_id, "base\nfeature\n", "integrated/f");
    storage.create_partition(&partition(integrated_partition_id("f"), "integrated/f", f, vec![initial_id, f], PartitionType::Integrated("f".into()))).unwrap();
    merge_feature_to_unified(&storage, "f").unwrap();
    let staged_id = merge_unified_to_staged(&storage).unwrap();
    let staged_snap = storage.get_snapshot(&staged_id).unwrap();
    assert_eq!(reconstruct_text(&storage, &staged_snap).unwrap(), "base\nfeature");

    let cp1 = commit_staged_to_checkpoint(&storage, "first", "me").unwrap();
    let cp2 = commit_staged_to_checkpoint(&storage, "second", "me").unwrap();
    assert_eq!(storage.get_branch("main").unwrap().head, cp2);
    let c2 = storage.get_checkpoint(&cp2).unwrap();
    assert_eq!(c2.parents, vec![cp1]);
    assert_eq!(c2.baseline_snapshots, vec![staged_id]);
    let dag = storage.load_dag().unwrap();
    assert!(dag.is_ancestor(&cp1, &cp2));
}

#[test]
fn merge_agent_into_feature_three_way() {
    let storage = setup_storage();
    let base = create_initial_snapshot(&storage, "a\nb\nc\n");
    create_feature_branch(&storage, "feat", base).unwrap();
    assert_eq!(get_feature_baseline(&storage, "feat").unwrap().id, base);
    let agent = AgentInstanceId("ag".into());
    let pid = approval_agent_partition_id(&agent);
    storage.create_partition(&partition(pid, "approval/ag", base, vec![base], PartitionType::Approval(agent.clone()))).unwrap();
    let s = create_snapshot_with_content(&storage, &base, "a\nb\nc\nd\n", "approval/ag");
    storage.update_pointer(&pid, &s).unwrap();
    let r = merge_agent_to_feature(&storage, &agent, "feat").unwrap();
    assert!(!r.has_conflicts());
    let snap = storage.get_snapshot(&r.snapshot_id).unwrap();
    assert_eq!(snap.parents.len(), 3);
    assert_eq!(snap.partition_type, "integrated/feat");
    assert_eq!(reconstruct_text(&storage, &snap).unwrap(), "a\nb\nc\nd");
    match get_feature_baseline(&storage, "none") {
        Err(StratumError::NotFound(m)) => assert_eq!(m, "integrated partition none not found"),
        other => panic!("unexpected {:?}", other),
    }
}

// ---------------------------------------------------------------------------
// The state machine entry point
// ---------------------------------------------------------------------------

#[test]
fn test_state_machine_new() {
    let sm = StateMachine::new(Arc::new(setup_storage()));
    let _ = sm.get_partition(&LayerType::ManualEdit, &PartitionId::new_random());
}

#[test]
fn test_state_machine_create_layer() {
    let sm = StateMachine::new(Arc::new(setup_storage()));
    let manual_layer = sm.create_layer(&LayerType::ManualEdit);
    assert_eq!(manual_layer.layer_type, LayerType::ManualEdit);
    assert!(manual_layer.partitions.is_empty());
    assert_eq!(sm.create_layer(&LayerType::AgentEdit).layer_type, LayerType::AgentEdit);
    assert_eq!(sm.create_layer(&LayerType::Approval).layer_type, LayerType::Approval);
    assert_eq!(sm.create_layer(&LayerType::Staged).layer_type, LayerType::Staged);
}

#[test]
fn test_state_machine_update_partition_pointer() {
    let storage = Arc::new(setup_storage());
    let sm = StateMachine::new(storage.clone());
    let initial_id = create_initial_snapshot(&storage, "base\n");
    let pid = PartitionId::new_random();
    storage.create_partition(&partition(pid, "test", initial_id, vec![initial_id], PartitionType::Manual)).unwrap();

    let file_node = FileNode::new("test.txt".to_string(), b"base\nmodified\n");
    storage.store_file_node(&file_node, b"base\nmodified\n").unwrap();
    let diff = diff_to_line_diff("base\n", "base\nmodified\n");
    let delta = Delta::new(file_node, diff, SourceType::Manual);
    storage.store_delta(&delta).unwrap();
    let snap = storage.get_snapshot(&initial_id).unwrap();
    let new_snap = Snapshot::from_parent(&snap, delta.id, "manual".to_string());
    storage.store_snapshot(&new_snap, b"").unwrap();

    let result = sm.update_partition_pointer(&pid, &new_snap.id);
    assert!(result.is_ok());
    let updated = storage.get_partition(&pid).unwrap();
    assert_eq!(updated.current_snapshot, new_snap.id);
}

#[test]
fn test_state_machine_storage_accessor() {
    let storage = Arc::new(setup_storage());
    let sm = StateMachine::new(storage.clone());
    let retrieved = sm.storage();
    assert!(retrieved.list_partitions().is_ok());
}

#[test]
fn state_machine_syncs_layers_and_switches_branch() {
    let storage = Arc::new(setup_storage());
    let sm = StateMachine::new(storage.clone());
    let base = create_initial_snapshot(&storage, "base\n");
    ensure_staged_partition(&*storage, base).unwrap();
    ensure_approval_agent_partition(&*storage, &AgentInstanceId("a".into()), base).unwrap();
    ensure_unified_partition(&*storage, base).unwrap();
    sm.sync_layers().unwrap();
    let layers = storage.layers.borrow();
    assert_eq!(layers.len(), 2);
    assert_eq!(layers[0].layer_type, LayerType::Approval);
    assert_eq!(layers[0].partitions.len(), 2);
    assert_eq!(layers[1].layer_type, LayerType::Staged);
    drop(layers);

    let other = create_initial_snapshot(&storage, "other\n");
    let cp = Checkpoint::new(vec![other], vec![], stratum::checkpoint::checkpoint::CheckpointMetadata::new("u", "m"));
    storage.store_checkpoint(&cp).unwrap();
    storage.store_branch(&Branch::new("dev", cp.id)).unwrap();
    assert_eq!(sm.switch_branch("dev").unwrap(), cp.id);
    assert_eq!(storage.get_partition(&staged_partition_id()).unwrap().current_snapshot, other);
    assert!(matches!(sm.switch_branch("missing"), Err(StratumError::Storage(_))));
    let r: Result<usize, StratumError> = sm.with_transaction(|s| Ok(s.list_partitions().map(|v| v.len()).unwrap_or(0)));
    assert_eq!(r.unwrap(), 3);
}

#[test]
fn group_by_layer_orders_layers() {
    let base = ContentId::from_content(b"x");
    let ps = vec![
        partition(PartitionId::with_last_byte(1), "s", base, vec![base], PartitionType::Staged),
        partition(PartitionId::with_last_byte(2), "m", base, vec![base], PartitionType::Manual),
        partition(PartitionId::with_last_byte(3), "s2", base, vec![base], PartitionType::Staged),
    ];
    let layers = group_by_layer(&ps);
    assert_eq!(layers.len(), 2);
    assert_eq!(layers[0].layer_type, LayerType::ManualEdit);
    assert_eq!(layers[1].layer_type, LayerType::Staged);
    assert_eq!(layers[1].partitions, vec![PartitionId::with_last_byte(1), PartitionId::with_last_byte(3)]);
}

#[test]
fn merge_step_is_none_without_change() {
    let f = FileNode::new("t".to_string(), b"");
    let snap = Snapshot::new_initial(f.clone(), Delta::new(f.clone(), LineDiff::new(vec![]), SourceType::Manual).id);
    assert!(merge_step(vec![&snap], f.clone(), "a\nb", "a\nb", SourceType::Manual, "staged".to_string(), false).is_none());
    let (d, s) = merge_step(vec![&snap], f, "a\nb", "a\nc", SourceType::Manual, "staged".to_string(), true).unwrap();
    assert_eq!(s.deltas.last(), Some(&d.id));
    assert_eq!(s.parents, vec![snap.id]);
    assert!(s.has_conflicts);
}

// ---------------------------------------------------------------------------
// The first form of the state machine
// ---------------------------------------------------------------------------

fn fixed(storage: &MemStore, pid: PartitionId, name: &str, base: SnapshotId, pt: PartitionType) {
    storage.create_partition(&partition(pid, name, base, vec![base], pt)).unwrap();
}

#[test]
fn test_apply_agent_edit() {
    let storage = setup_storage();
    let agent_id = AgentInstanceId("agent-1".into());
    let initial_id = create_initial_snapshot(&storage, "base\n");
    fixed(&storage, state_machine::agent::agent_partition_id(&agent_id), "agent_edit/agent-1", initial_id, PartitionType::Agent(agent_id.clone()));
    let new_id = state_machine::agent::apply_agent_edit(&storage, &agent_id, "test.txt", "base\nmodified\n").unwrap();
    assert_ne!(new_id, initial_id);
}

#[test]
fn test_discard_agent_edit() {
    let storage = setup_storage();
    let agent_id = AgentInstanceId("agent-2".into());
    let initial_id = create_initial_snapshot(&storage, "original\n");
    let pid = state_machine::agent::agent_partition_id(&agent_id);
    fixed(&storage, pid, "agent_edit/agent-2", initial_id, PartitionType::Agent(agent_id.clone()));
    let edited_id = state_machine::agent::apply_agent_edit(&storage, &agent_id, "test.txt", "original\nchanged\n").unwrap();
    assert_ne!(edited_id, initial_id);
    state_machine::agent::discard_agent_edit(&storage, &agent_id).unwrap();
    let partition = storage.get_partition(&pid).unwrap();
    assert_eq!(partition.current_snapshot, initial_id);
}

#[test]
fn test_agent_isolation() {
    let storage = setup_storage();
    let initial_id = create_initial_snapshot(&storage, "shared\n");
    let agent_a = AgentInstanceId("agent-a".into());
    let agent_b = AgentInstanceId("agent-b".into());
    let pa_id = state_machine::agent::agent_partition_id(&agent_a);
    let pb_id = state_machine::agent::agent_partition_id(&agent_b);
    fixed(&storage, pa_id, "agent_edit/agent-a", initial_id, PartitionType::Agent(agent_a.clone()));
    fixed(&storage, pb_id, "agent_edit/agent-b", initial_id, PartitionType::Agent(agent_b.clone()));
    let a_id = state_machine::agent::apply_agent_edit(&storage, &agent_a, "test.txt", "shared\na-edit\n").unwrap();
    let b_id = state_machine::agent::apply_agent_edit(&storage, &agent_b, "test.txt", "shared\nb-edit\n").unwrap();
    assert_ne!(a_id, b_id);
    assert_eq!(storage.get_partition(&pa_id).unwrap().current_snapshot, a_id);
    assert_eq!(storage.get_partition(&pb_id).unwrap().current_snapshot, b_id);
}

#[test]
fn test_apply_manual_edit() {
    let storage = setup_storage();
    let initial_id = create_initial_snapshot(&storage, "hello\nworld\n");
    fixed(&storage, state_machine::manual::manual_partition_id(), "manual_edit", initial_id, PartitionType::Manual);
    let new_id = state_machine::manual::apply_manual_edit(&storage, "test.txt", "hello\nrust\n").unwrap();
    assert_ne!(new_id, initial_id);
    let snapshot = storage.get_snapshot(&new_id).unwrap();
    assert_eq!(snapshot.parents.len(), 1);
    assert_eq!(snapshot.parents[0], initial_id);
}

#[test]
fn test_merge_manual_to_staged() {
    let storage = setup_storage();
    let initial_id = create_initial_snapshot(&storage, "base\ncontent\n");
    fixed(&storage, state_machine::manual::manual_partition_id(), "manual_edit", initial_id, PartitionType::Manual);
    fixed(&storage, state_machine::staged::staged_partition_id(), "staged", initial_id, PartitionType::Staged);
    state_machine::manual::apply_manual_edit(&storage, "test.txt", "base\nmodified\n").unwrap();
    let merged_id = state_machine::manual::merge_manual_to_staged(&storage).unwrap();
    let staged = storage.get_partition(&state_machine::staged::staged_partition_id()).unwrap();
    assert_eq!(staged.current_snapshot, merged_id);
    let merged = storage.get_snapshot(&merged_id).unwrap();
    assert_eq!(merged.parents.len(), 2);
    assert_eq!(reconstruct_text(&storage, &merged).unwrap(), "base\nmodified");
}

#[test]
fn manual_edit_without_change_keeps_snapshot() {
    let storage = setup_storage();
    let initial_id = create_initial_snapshot(&storage, "same\n");
    fixed(&storage, state_machine::manual::manual_partition_id(), "manual_edit", initial_id, PartitionType::Manual);
    assert_eq!(state_machine::manual::apply_manual_edit(&storage, "test.txt", "same").unwrap(), initial_id);
    match state_machine::manual::apply_manual_edit(&setup_storage(), "test.txt", "x") {
        Err(StratumError::NotFound(m)) => assert_eq!(m, "manual_edit partition not found, call ensure_manual_partition first"),
        other => panic!("unexpected {:?}", other),
    }
}

#[test]
fn agent_work_moves_to_approval_and_unified() {
    let storage = setup_storage();
    let base = create_initial_snapshot(&storage, "one\ntwo\n");
    let agent = AgentInstanceId("bot".into());
    fixed(&storage, state_machine::agent::agent_partition_id(&agent), "agent_edit/bot", base, PartitionType::Agent(agent.clone()));
    state_machine::approval::ensure_approval_agent_partition(&storage, &agent, base).unwrap();
    state_machine::agent::apply_agent_edit(&storage, &agent, "test.txt", "one\ntwo\nthree\n").unwrap();
    let approval_id = state_machine::agent::move_agent_to_approval(&storage, &agent).unwrap();
    let approval_snap = storage.get_snapshot(&approval_id).unwrap();
    assert_eq!(approval_snap.partition_type, "approval/bot");
    assert_eq!(reconstruct_text(&storage, &approval_snap).unwrap(), "one\ntwo\nthree");

    let feature_id = state_machine::approval::move_approval_to_integrated(&storage, &agent, "feat").unwrap();
    assert_eq!(feature_id, approval_id, "a new feature starts at the approval snapshot");
    let unified_id = state_machine::approval::move_integrated_to_unified(&storage, &["feat".to_string()]).unwrap();
    let unified = storage.get_snapshot(&unified_id).unwrap();
    assert_eq!(unified.parents.len(), 2);
    assert_eq!(reconstruct_text(&storage, &unified).unwrap(), "one\ntwo\nthree");
}

#[test]
fn mixed_partition_ids_add_name_bytes() {
    let id = state_machine::approval::integrated_partition_id("ab");
    let mut expected = [0u8; 16];
    expected[0] = 0x40u8.wrapping_add(b'a');
    expected[1] = b'b';
    assert_eq!(id.0, expected);
    let long = state_machine::agent::agent_partition_id(&AgentInstanceId("\u{ff}".repeat(20)));
    assert_eq!(long.0[0], 0x20u8.wrapping_add(0xc3));
}

#[test]
fn approval_test_migrate_between_partitions() {
    let storage = setup_storage();
    let initial_id = create_initial_snapshot(&storage, "base\n");
    let agent_id = AgentInstanceId("test-agent".into());
    let approval_pid = state_machine::approval::approval_agent_partition_id(&agent_id);
    let integrated_name = "integrated-1";
    let integrated_pid = state_machine::approval::integrated_partition_id(integrated_name);
    fixed(&storage, approval_pid, "approval/test-agent", initial_id, PartitionType::Approval(agent_id.clone()));
    fixed(&storage, integrated_pid, "integrated/integrated-1", initial_id, PartitionType::Integrated(integrated_name.to_string()));

    let snap = storage.get_snapshot(&initial_id).unwrap();
    let new_snap = Snapshot::from_parent(
        &snap,
        Delta::new(FileNode::new("test.txt".to_string(), b"base\n"), LineDiff::new(vec![]), SourceType::Manual).id,
        PartitionType::Approval(agent_id.clone()).name(),
    );
    storage.store_snapshot(&new_snap, b"").unwrap();
    storage.update_pointer(&approval_pid, &new_snap.id).unwrap();

    state_machine::approval::migrate_between_partitions(&storage, &approval_pid, &integrated_pid).unwrap();
    let integrated = storage.get_partition(&integrated_pid).unwrap();
    assert_eq!(integrated.current_snapshot, new_snap.id);
}

#[test]
fn approval_test_ensure_integrated_partition() {
    let storage = setup_storage();
    let initial_id = create_initial_snapshot(&storage, "base\n");
    let p1 = state_machine::approval::ensure_integrated_partition(&storage, "feat-1", initial_id).unwrap();
    let p2 = state_machine::approval::ensure_integrated_partition(&storage, "feat-1", initial_id).unwrap();
    assert_eq!(p1.id, p2.id);
    let p3 = state_machine::approval::ensure_integrated_partition(&storage, "feat-2", initial_id).unwrap();
    assert_ne!(p1.id, p3.id, "different names should produce different partition ids");
}

#[test]
fn approval_test_ensure_unified_partition() {
    let storage = setup_storage();
    let initial_id = create_initial_snapshot(&storage, "base\n");
    let p1 = state_machine::approval::ensure_unified_partition(&storage, initial_id).unwrap();
    let p2 = state_machine::approval::ensure_unified_partition(&storage, initial_id).unwrap();
    assert_eq!(p1.id, p2.id, "unified partition should be singleton");
}

#[test]
fn approval_test_move_approval_to_integrated() {
    let storage = setup_storage();
    let agent_id = AgentInstanceId("test-agent".into());
    let initial_id = create_initial_snapshot(&storage, "base\n");
    let approval_pid = state_machine::approval::approval_agent_partition_id(&agent_id);
    fixed(&storage, approval_pid, "approval/test-agent", initial_id, PartitionType::Approval(agent_id.clone()));
    let integrated_name = "feat-integrated";
    let integrated_pid = state_machine::approval::integrated_partition_id(integrated_name);
    fixed(&storage, integrated_pid, "integrated/feat-integrated", initial_id, PartitionType::Integrated(integrated_name.to_string()));

    let approval_new_id = create_snapshot_with_content(&storage, &initial_id, "base\nmodified\n", "approval/test-agent");
    storage.update_pointer(&approval_pid, &approval_new_id).unwrap();

    let result = state_machine::approval::move_approval_to_integrated(&storage, &agent_id, integrated_name);
    assert!(result.is_ok());
    let integrated = storage.get_partition(&integrated_pid).unwrap();
    assert_ne!(integrated.current_snapshot, initial_id);
}

#[test]
fn test_move_integrated_to_unified() {
    let storage = setup_storage();
    let initial_id = create_initial_snapshot(&storage, "base\n");
    state_machine::approval::ensure_unified_partition(&storage, initial_id).unwrap();
    let integrated_names = vec!["int-a".to_string(), "int-b".to_string()];
    for name in &integrated_names {
        let pid = state_machine::approval::integrated_partition_id(name);
        fixed(&storage, pid, &format!("integrated/{}", name), initial_id, PartitionType::Integrated(name.clone()));
        let new_id = create_snapshot_with_content(&storage, &initial_id, &format!("base\nfrom-{}\n", name), &format!("integrated/{}", name));
        storage.update_pointer(&pid, &new_id).unwrap();
    }
    let result = state_machine::approval::move_integrated_to_unified(&storage, &integrated_names);
    assert!(result.is_ok());
    let unified = storage.get_partition(&state_machine::approval::unified_partition_id()).unwrap();
    assert_ne!(unified.current_snapshot, initial_id);
}

#[test]
fn approval_test_partition_id_uniqueness() {
    let aa = state_machine::approval::approval_agent_partition_id(&AgentInstanceId("agent-a".into()));
    let ab = state_machine::approval::approval_agent_partition_id(&AgentInstanceId("agent-b".into()));
    assert_ne!(aa, ab, "different agents should have different approval partition ids");
    let ia = state_machine::approval::integrated_partition_id("feat-a");
    let ib = state_machine::approval::integrated_partition_id("feat-b");
    assert_ne!(ia, ib, "different integrations should have different partition ids");
    assert_ne!(aa, ia, "approval and integrated partition ids should differ");
}

// ---------------------------------------------------------------------------
// The service over an in-memory backend
// ---------------------------------------------------------------------------

fn service() -> (Arc<MemStore>, ApiServiceImpl<MemStore>) {
    let store = Arc::new(MemStore::default());
    let svc = ApiServiceImpl::new(store.clone(), ServiceConfig { db_path: "repo/.stratum/stratum.db".to_string() });
    (store, svc)
}

fn init_plain(svc: &ApiServiceImpl<MemStore>) -> InitResponse {
    svc.init(InitRequest { db_path: None, git_repo: None, git_ref: None }).unwrap()
}

#[test]
fn service_init_creates_manual_and_staged() {
    let (store, svc) = service();
    let resp = init_plain(&svc);
    assert_eq!(resp.db_path, "repo/.stratum/stratum.db");
    assert_eq!(resp.branch, "main");
    assert_eq!(resp.manual_partition_id, state_machine::manual::manual_partition_id().to_string());
    assert_eq!(resp.staged_partition_id, staged_partition_id().to_string());
    let status = svc.status().unwrap();
    assert_eq!(status.partitions.len(), 2);
    let layers: Vec<&str> = status.partitions.iter().map(|p| p.layer.as_str()).collect();
    assert!(layers.contains(&"manual_edit"));
    assert!(layers.contains(&"staged"));
    assert!(status.partitions.iter().all(|p| p.history_len == 1 && p.current_snapshot.len() == 64));
    assert_eq!(store.list_partitions().unwrap().len(), 2);
}

#[test]
fn service_init_from_git_is_refused() {
    let (_store, svc) = service();
    let err = svc
        .init(InitRequest { db_path: Some("elsewhere.db".to_string()), git_repo: Some("/tmp/repo".to_string()), git_ref: None })
        .unwrap_err();
    assert_eq!(err.code, "GIT_SYNC_ERROR");
}

#[test]
fn service_edit_needs_content() {
    let (_store, svc) = service();
    init_plain(&svc);
    let err = svc.edit(EditRequest { file: "a.txt".to_string(), content: None }).unwrap_err();
    assert_eq!(err.code, "INVALID_PARAMS");
    assert_eq!(err.message, "edit content is required (provide via -c/--content or pipe via stdin)");
    assert_eq!(err.suggestion.as_deref(), Some("check the provided parameters"));
}

#[test]
fn service_edit_commit_log_round() {
    let (_store, svc) = service();
    init_plain(&svc);
    let edit = svc.edit(EditRequest { file: "a.txt".to_string(), content: Some("hello\nworld\n".to_string()) }).unwrap();
    assert_eq!(edit.snapshot_id.len(), 64);
    assert!(edit.staged_snapshot_id.is_some());
    let commit = svc.commit(CommitRequest { message: "first".to_string(), author: None }).unwrap();
    assert_eq!(commit.message, "first");
    let log = svc.log(LogRequest { count: None }).unwrap();
    assert_eq!(log.total, 2);
    assert_eq!(log.checkpoints[0].id, commit.checkpoint_id);
    assert_eq!(log.checkpoints[0].author, "user");
    assert_eq!(log.checkpoints[0].message, "first");
    assert_eq!(log.checkpoints[1].message, "root checkpoint");
    assert_eq!(log.checkpoints[0].parents, vec![log.checkpoints[1].id.clone()]);
    let second = svc.commit(CommitRequest { message: "second".to_string(), author: Some("ann".to_string()) }).unwrap();
    let log = svc.log(LogRequest { count: Some(1) }).unwrap();
    assert_eq!(log.total, 1);
    assert_eq!(log.checkpoints[0].id, second.checkpoint_id);
    assert_eq!(log.checkpoints[0].author, "ann");
    assert_eq!(log.checkpoints[0].parents, vec![commit.checkpoint_id.clone()]);
}

#[test]
fn service_branch_create_and_list() {
    let (_store, svc) = service();
    let err = svc.branch_create(BranchCreateRequest { name: "dev".to_string() }).unwrap_err();
    assert_eq!(err.message, "no checkpoints yet. Make a commit first.");
    init_plain(&svc);
    svc.edit(EditRequest { file: "a.txt".to_string(), content: Some("x\n".to_string()) }).unwrap();
    let cp = svc.commit(CommitRequest { message: "c".to_string(), author: None }).unwrap();
    let created = svc.branch_create(BranchCreateRequest { name: "dev".to_string() }).unwrap();
    assert_eq!(created.name, "dev");
    assert_eq!(created.head, cp.checkpoint_id);
    let again = svc.branch_create(BranchCreateRequest { name: "dev".to_string() }).unwrap_err();
    assert_eq!(again.code, "INVALID_PARAMS");
    assert_eq!(again.message, "branch 'dev' already exists");
    let list = svc.branch_list().unwrap();
    assert!(list.current.is_none());
    let names: Vec<&str> = list.branches.iter().map(|b| b.name.as_str()).collect();
    assert!(names.contains(&"main") && names.contains(&"dev"));
    assert!(list.branches.iter().all(|b| !b.is_current && b.head.len() == 64 && b.updated_at.parse::<i64>().is_ok()));
}

#[test]
fn service_branch_switch_unknown_branch() {
    let (_store, svc) = service();
    init_plain(&svc);
    let err = svc.branch_switch(BranchSwitchRequest { name: "nope".to_string() }).unwrap_err();
    assert_eq!(err.code, "NOT_FOUND");
    assert_eq!(err.message, "branch 'nope' not found");
}

#[test]
fn service_show_targets() {
    let (_store, svc) = service();
    init_plain(&svc);
    svc.edit(EditRequest { file: "a.txt".to_string(), content: Some("one\ntwo\n".to_string()) }).unwrap();
    let shown = svc.show(ShowRequest { show_what: "staged".to_string(), target_id: None }).unwrap();
    assert_eq!(shown.target, "staged");
    assert_eq!(shown.diffs.len(), 1);
    assert_eq!(shown.diffs[0].inserts, 2);
    assert_eq!(shown.diffs[0].deletes, 0);
    let bad = svc.show(ShowRequest { show_what: "bogus".to_string(), target_id: None }).unwrap_err();
    assert_eq!(bad.message, "unknown show target 'bogus'. Use 'staged', 'checkpoint', or 'partition'");
    let no_id = svc.show(ShowRequest { show_what: "checkpoint".to_string(), target_id: None }).unwrap_err();
    assert_eq!(no_id.message, "checkpoint ID required for 'checkpoint' target");
    let no_name = svc.show(ShowRequest { show_what: "partition".to_string(), target_id: None }).unwrap_err();
    assert_eq!(no_name.message, "partition name required for 'partition' target");
    let bad_id = svc.show(ShowRequest { show_what: "checkpoint".to_string(), target_id: Some("zz".to_string()) }).unwrap_err();
    assert_eq!(bad_id.message, "invalid checkpoint ID 'zz'");
    let part = svc.show(ShowRequest { show_what: "partition".to_string(), target_id: Some("staged".to_string()) }).unwrap();
    assert_eq!(part.target, "partition:staged");
    let cp = svc.commit(CommitRequest { message: "c".to_string(), author: None }).unwrap();
    let shown = svc.show(ShowRequest { show_what: "checkpoint".to_string(), target_id: Some(cp.checkpoint_id.clone()) }).unwrap();
    assert_eq!(shown.target, format!("checkpoint:{}", cp.checkpoint_id));
    assert_eq!(shown.diffs[0].inserts, 2);
}

#[test]
fn service_merge_and_gc() {
    let (store, svc) = service();
    init_plain(&svc);
    svc.edit(EditRequest { file: "a.txt".to_string(), content: Some("x\n".to_string()) }).unwrap();
    let cp = svc.commit(CommitRequest { message: "c".to_string(), author: None }).unwrap();
    svc.branch_create(BranchCreateRequest { name: "dev".to_string() }).unwrap();
    let merged = svc.merge(MergeRequest { branch: "dev".to_string(), message: None }).unwrap();
    assert_eq!(merged.source_branch, "dev");
    assert_eq!(merged.target_branch, "main");
    let stored = store.get_checkpoint(&ContentId::from_hex(&merged.checkpoint_id).unwrap()).unwrap();
    assert_eq!(stored.metadata.message, "merge");
    assert_eq!(stored.metadata.author, "user");
    assert_eq!(stored.parents.iter().map(|p| p.to_hex()).collect::<Vec<_>>(), vec![cp.checkpoint_id.clone(), cp.checkpoint_id.clone()]);
    assert_eq!(store.get_branch("main").unwrap().head.to_hex(), merged.checkpoint_id);
    let missing = svc.merge(MergeRequest { branch: "nope".to_string(), message: None }).unwrap_err();
    assert_eq!(missing.code, "NOT_FOUND");
    let gc = svc.gc(GcRequest {}).unwrap();
    assert!(!gc.delta_chain_depth_triggered);
    assert_eq!(gc.removed_checkpoints, gc.removed_snapshots);
}

#[test]
fn checkpoint_repo_load_initialises_empty_storage() {
    let store = MemStore::default();
    let repo = CheckpointRepo::load(&store).unwrap();
    assert_eq!(repo.current_branch_name(), "main");
    assert_eq!(repo.checkpoint_count(), 1);
    assert_eq!(store.list_checkpoints().unwrap().len(), 1);
    assert_eq!(store.get_branch("main").unwrap().head, repo.current_branch_head());
    assert_eq!(store.load_metadata("current_branch").unwrap().as_deref(), Some("main"));
    assert_eq!(store.load_dag().unwrap().len(), 1);
    let again = CheckpointRepo::load(&store).unwrap();
    assert_eq!(again.current_branch_head(), repo.current_branch_head());
    assert_eq!(store.list_checkpoints().unwrap().len(), 1);
}

#[test]
fn checkpoint_repo_sync_all_then_load() {
    let store = MemStore::default();
    let mut repo = CheckpointRepo::load(&store).unwrap();
    let snap = ContentId::from_content(b"s");
    let c1 = repo.commit(vec![snap], "one", "me").unwrap();
    repo.create_branch("dev").unwrap();
    repo.switch_branch("dev").unwrap();
    repo.sync_all(&store).unwrap();
    let loaded = CheckpointRepo::load(&store).unwrap();
    assert_eq!(loaded.current_branch_name(), "dev");
    assert_eq!(loaded.current_branch_head(), c1);
    assert_eq!(loaded.checkpoint_count(), 2);
    assert!(loaded.get_checkpoint(&c1).is_ok());
    repo.sync_checkpoint(&store, &c1).unwrap();
    repo.sync_checkpoint(&store, &ContentId::from_content(b"absent")).unwrap();
}

#[test]
fn checkpoint_repo_from_parts_rules() {
    let root = Checkpoint::new(vec![ContentId::from_content(b"a")], vec![], stratum::checkpoint::checkpoint::CheckpointMetadata::new("u", "m"));
    let mut dag = CheckpointDag::new();
    dag.add_node(root.id);
    let err = CheckpointRepo::from_parts(dag.duplicate(), vec![root.clone()], vec![], None);
    match err {
        Err(StratumError::Storage(StorageError::Serialization(m))) => assert_eq!(m, "stored checkpoint history is inconsistent"),
        _ => panic!("an empty branch list is refused"),
    }
    let branches = vec![Branch::new("a", root.id), Branch::new("b", root.id)];
    let repo = CheckpointRepo::from_parts(dag.duplicate(), vec![root.clone(), root.clone()], branches, Some("b".to_string())).unwrap();
    assert_eq!(repo.current_branch_name(), "b");
    assert_eq!(repo.checkpoint_count(), 1);
    let branches = vec![Branch::new("a", root.id)];
    let repo = CheckpointRepo::from_parts(dag, vec![root], branches, Some("zz".to_string())).unwrap();
    assert_eq!(repo.current_branch_name(), "a");
}

#[test]
fn status_rows_show_each_partition() {
    let storage = setup_storage();
    let base = create_initial_snapshot(&storage, "x\n");
    ensure_staged_partition(&storage, base).unwrap();
    let sm = StateMachine::new(Arc::new(storage));
    let out = status_output(&sm);
    assert!(out.error.is_none());
    assert_eq!(out.entries.len(), 1);
    assert_eq!(out.entries[0].layer, "staged");
    assert_eq!(out.entries[0].partition, "staged");
    assert_eq!(out.entries[0].current_snapshot, base.to_hex());
    assert_eq!(out.entries[0].history_len, 1);
}

#[test]
fn test_execute_forward_manual_to_staged() {
    let storage = setup_storage();
    let initial_id = create_initial_snapshot(&storage, "base\n");
    fixed(&storage, state_machine::manual::manual_partition_id(), "manual_edit", initial_id, PartitionType::Manual);
    ensure_staged_partition(&storage, initial_id).unwrap();
    state_machine::manual::apply_manual_edit(&storage, "test.txt", "base\nmodified\n").unwrap();
    let result = execute_forward(&storage, ForwardTransition::ManualToStaged, &[]);
    assert!(result.is_ok());
    let staged = storage.get_partition(&staged_partition_id()).unwrap();
    assert_ne!(staged.current_snapshot, initial_id);
}

#[test]
fn test_execute_forward_agent_to_approval() {
    let storage = setup_storage();
    let initial_id = create_initial_snapshot(&storage, "base\n");
    let agent_id = AgentInstanceId("test-agent".into());
    fixed(&storage, state_machine::agent::agent_partition_id(&agent_id), "agent_edit/test-agent", initial_id, PartitionType::Agent(agent_id.clone()));
    state_machine::agent::apply_agent_edit(&storage, &agent_id, "test.txt", "base\nmodified\n").unwrap();
    let approval_pid = state_machine::approval::approval_agent_partition_id(&agent_id);
    let approval_part = partition(approval_pid, &format!("approval/{}", agent_id.0), initial_id, vec![initial_id], PartitionType::Approval(agent_id.clone()));
    storage.create_partition(&approval_part).unwrap();
    let result = execute_forward(&storage, ForwardTransition::AgentToApproval, &["test-agent"]);
    assert!(result.is_ok());
    let approval = storage.get_partition(&approval_pid).unwrap();
    assert_ne!(approval.current_snapshot, initial_id);
}

#[test]
fn test_execute_forward_approval_to_staged() {
    let storage = setup_storage();
    let initial_id = create_initial_snapshot(&storage, "base\n");
    ensure_staged_partition(&storage, initial_id).unwrap();
    let agent_id = AgentInstanceId("test-agent".into());
    let approval_pid = approval_agent_partition_id(&agent_id);
    let approval_part = partition(approval_pid, &format!("approval/{}", agent_id.0), initial_id, vec![initial_id], PartitionType::Approval(agent_id));
    storage.create_partition(&approval_part).unwrap();
    let file_node = FileNode::new("test.txt".to_string(), b"base\nmodified\n");
    storage.store_file_node(&file_node, b"base\nmodified\n").unwrap();
    let diff = diff_to_line_diff("base\n", "base\nmodified\n");
    let delta = Delta::new(file_node, diff, SourceType::Manual);
    storage.store_delta(&delta).unwrap();
    let snap = storage.get_snapshot(&initial_id).unwrap();
    let new_snap = Snapshot::from_parent(&snap, delta.id, "approval".to_string());
    storage.store_snapshot(&new_snap, b"").unwrap();
    storage.update_pointer(&approval_pid, &new_snap.id).unwrap();
    let result = execute_forward(&storage, ForwardTransition::ApprovalToStaged, &[&approval_pid.to_string()]);
    assert!(result.is_ok());
}

#[test]
fn execute_forward_refuses_missing_parameters() {
    let storage = setup_storage();
    let msg = |r: Result<SnapshotId, StratumError>| match r {
        Err(StratumError::StateMachine(m)) => m,
        _ => panic!("a state-machine error is expected"),
    };
    assert_eq!(msg(execute_forward(&storage, ForwardTransition::AgentToApproval, &[])), "AgentToApproval requires agent_id parameter");
    assert_eq!(msg(execute_forward(&storage, ForwardTransition::ApprovalToIntegrated, &["a"])), "ApprovalToIntegrated requires integrated_name parameter");
    assert_eq!(msg(execute_forward(&storage, ForwardTransition::IntegratedToUnified, &[])), "IntegratedToUnified requires integrated_names parameter");
    assert_eq!(msg(execute_forward(&storage, ForwardTransition::ApprovalToStaged, &["not-a-uuid"])), "invalid partition_id UUID");
    assert_eq!(
        msg(state_machine::transition::execute_forward(&storage, state_machine::transition::ForwardTransition::ApprovalToStaged, &[])),
        "ApprovalToStaged requires approval_partition_id parameter"
    );
}

#[test]
fn execute_forward_moves_named_features_into_unified() {
    let storage = setup_storage();
    let base = create_initial_snapshot(&storage, "base\n");
    ensure_unified_partition(&storage, base).unwrap();
    let feature = create_snapshot_with_content(&storage, &base, "base\nfeature\n", "integrated");
    let pid = integrated_partition_id("feat-a");
    storage.create_partition(&partition(pid, "integrated/feat-a", feature, vec![base, feature], PartitionType::Integrated("feat-a".to_string()))).unwrap();
    let result = execute_forward(&storage, ForwardTransition::IntegratedToUnified, &[" feat-a "]).unwrap_or_else(|e| panic!("{}", e.format_cli()));
    let unified = storage.get_partition(&unified_partition_id()).unwrap();
    assert_eq!(unified.current_snapshot, result);
    let text = reconstruct_text(&storage, &storage.get_snapshot(&result).unwrap()).unwrap();
    assert_eq!(text, "base\nfeature");
}

#[test]
fn rollback_target_is_the_snapshot_before_the_current_one() {
    let a = ContentId::from_content(b"a");
    let b = ContentId::from_content(b"b");
    let p = partition(PartitionId([9; 16]), "p", b, vec![a, b], PartitionType::Staged);
    assert_eq!(stratum::layered::transition::rollback_target(&p).unwrap(), a);
    let single = partition(PartitionId([9; 16]), "p", a, vec![a], PartitionType::Staged);
    match stratum::layered::transition::rollback_target(&single) {
        Err(StratumError::StateMachine(m)) => assert_eq!(m, "cannot rollback: only one snapshot in history"),
        _ => panic!("a state-machine error is expected"),
    }
}

#[test]
fn service_cores_build_rows() {
    let a = ContentId::from_content(b"a");
    let ps = vec![
        partition(PartitionId([1; 16]), "integrated/x", a, vec![a], PartitionType::Integrated("x".to_string())),
        partition(PartitionId([2; 16]), "staged", a, vec![a, a], PartitionType::Staged),
        partition(PartitionId([3; 16]), "integrated/y", a, vec![a], PartitionType::Integrated("y".to_string())),
    ];
    assert_eq!(stratum::api::service::integrated_names(&ps), vec!["x".to_string(), "y".to_string()]);
    let rows = stratum::api::service::partition_infos(&ps);
    assert_eq!(rows.len(), 3);
    assert_eq!(rows[1].layer, "staged");
    assert_eq!(rows[1].history_len, 2);
    assert_eq!(rows[0].layer, "approval");
    assert_eq!(rows[0].current_snapshot, a.to_hex());
    let cp = Checkpoint::new(vec![a], vec![], stratum::checkpoint::checkpoint::CheckpointMetadata::new("u", "m"));
    let log = stratum::api::service::log_infos(&vec![cp.clone(), cp.clone(), cp], 2);
    assert_eq!(log.total, 2);
    assert_eq!(log.checkpoints[0].author, "u");
    let bs = stratum::api::service::branch_infos(&vec![Branch::new("main", a)]);
    assert_eq!(bs[0].name, "main");
    assert_eq!(bs[0].head, a.to_hex());
}

#[test]
fn with_transaction_rolls_back_a_failed_run() {
    let storage = Arc::new(setup_storage());
    let base = create_initial_snapshot(&storage, "x\n");
    ensure_staged_partition(&*storage, base).unwrap();
    let sm = StateMachine::new(storage.clone());
    let other = ContentId::from_content(b"other");
    let r: Result<(), StratumError> = sm.with_transaction(|s| {
        s.update_pointer(&staged_partition_id(), &other).unwrap();
        Err(StratumError::General("stop".to_string()))
    });
    assert!(matches!(r, Err(StratumError::General(_))));
    assert_eq!(storage.get_partition(&staged_partition_id()).unwrap().current_snapshot, base);
    let ok: Result<(), StratumError> = sm.with_transaction(|s| {
        s.update_pointer(&staged_partition_id(), &other).map_err(StratumError::Storage)
    });
    assert!(ok.is_ok());
    assert_eq!(storage.get_partition(&staged_partition_id()).unwrap().current_snapshot, other);
}
