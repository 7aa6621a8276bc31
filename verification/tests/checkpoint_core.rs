use stratum::checkpoint::checkpoint::{Checkpoint, CheckpointBuilder, CheckpointMetadata};
use stratum::checkpoint::dag::CheckpointDag;
use stratum::model::types::{CheckpointId, ContentId, SnapshotId};

fn dummy_snapshot_id() -> SnapshotId {
    ContentId::from_content(b"dummy-snapshot")
}

fn cid(data: &[u8]) -> CheckpointId {
    ContentId::from_content(data)
}

#[test]
fn test_checkpoint_creation() {
    let snap_id = dummy_snapshot_id();
    let metadata = CheckpointMetadata::new("test-user", "initial commit");
    let cp = Checkpoint::new_single(snap_id, vec![], metadata);
    assert_eq!(cp.parents.len(), 0);
    assert_eq!(cp.baseline_snapshots, vec![snap_id]);
    assert_eq!(cp.metadata.author, "test-user");
    assert_eq!(cp.metadata.message, "initial commit");
}

#[test]
fn test_checkpoint_multi_snapshot() {
    let snap1 = dummy_snapshot_id();
    let snap2 = ContentId::from_content(b"second-file");
    let snapshots = vec![snap1, snap2];
    let metadata = CheckpointMetadata::new("user", "multi-file commit");
    let cp = Checkpoint::new(snapshots.clone(), vec![], metadata);
    assert_eq!(cp.baseline_snapshots.len(), 2);
    assert_eq!(cp.baseline_snapshots, snapshots);
}

#[test]
fn test_checkpoint_content_addressing() {
    let snap_id = dummy_snapshot_id();
    let cp1 = Checkpoint::new_single(snap_id, vec![], CheckpointMetadata::new("user", "message"));
    let cp2 = Checkpoint::new_single(snap_id, vec![], CheckpointMetadata::new("user", "message"));
    assert_eq!(cp1.id, cp2.id, "same content = same id");

    let cp3 = Checkpoint::new_single(snap_id, vec![], CheckpointMetadata::new("other", "message"));
    assert_ne!(cp1.id, cp3.id, "different author = different id");
}

#[test]
fn test_checkpoint_builder() {
    let snap_id = dummy_snapshot_id();
    let parent_id = CheckpointId::from_content(b"parent");

    let cp = CheckpointBuilder::new()
        .baseline_snapshot(snap_id)
        .author("builder-user")
        .message("built checkpoint")
        .parent(parent_id)
        .build()
        .unwrap();

    assert_eq!(cp.metadata.author, "builder-user");
    assert_eq!(cp.baseline_snapshots, vec![snap_id]);
    assert_eq!(cp.parents, vec![parent_id]);
}

#[test]
fn test_checkpoint_builder_empty_snapshots_fails() {
    let result = CheckpointBuilder::new().author("user").message("no snapshots").build();
    assert!(result.is_err());
}

#[test]
fn test_checkpoint_builder_multi_snapshots() {
    let snap1 = dummy_snapshot_id();
    let snap2 = ContentId::from_content(b"another-file");
    let parent_id = CheckpointId::from_content(b"parent");

    let cp = CheckpointBuilder::new()
        .baseline_snapshot(snap1)
        .baseline_snapshot(snap2)
        .author("multi")
        .message("multi snapshot commit")
        .parent(parent_id)
        .build()
        .unwrap();

    assert_eq!(cp.baseline_snapshots.len(), 2);
    assert_eq!(cp.baseline_snapshots[0], snap1);
    assert_eq!(cp.baseline_snapshots[1], snap2);
}

#[test]
fn test_dag_add_node_and_edge() {
    let mut dag = CheckpointDag::new();
    let a = cid(b"a");
    let b = cid(b"b");

    dag.add_node(a);
    dag.add_node(b);
    assert_eq!(dag.len(), 2);

    dag.add_edge(a, b);
    assert_eq!(dag.get_children(&a), vec![b]);
}

#[test]
fn test_dag_is_ancestor() {
    let mut dag = CheckpointDag::new();
    let a = cid(b"a");
    let b = cid(b"b");
    let c = cid(b"c");

    dag.add_edge(a, b);
    dag.add_edge(b, c);

    assert!(dag.is_ancestor(&a, &c));
    assert!(dag.is_ancestor(&a, &b));
    assert!(!dag.is_ancestor(&c, &a));
}

#[test]
fn test_dag_ancestors() {
    let mut dag = CheckpointDag::new();
    let a = cid(b"a");
    let b = cid(b"b");
    let c = cid(b"c");

    dag.add_edge(a, b);
    dag.add_edge(b, c);

    let parents = vec![(b, vec![a]), (c, vec![b])];
    let ancestors = dag.ancestors(&c, &parents);
    assert!(ancestors.contains(&a));
    assert!(ancestors.contains(&b));
}

#[test]
fn test_dag_merge_base() {
    let mut dag = CheckpointDag::new();
    let a = cid(b"root");
    let b = cid(b"branch1");
    let c = cid(b"branch2");

    dag.add_edge(a, b);
    dag.add_edge(a, c);

    let parents = vec![(b, vec![a]), (c, vec![a])];
    let base = dag.merge_base(&b, &c, &parents);
    assert_eq!(base, Some(a));
}

#[test]
fn test_generation_number() {
    let mut dag = CheckpointDag::new();
    let a = cid(b"root");
    let b = cid(b"child");
    let c = cid(b"grandchild");

    dag.add_edge(a, b);
    dag.add_edge(b, c);

    assert_eq!(dag.generation(&a), Some(0));
    assert_eq!(dag.generation(&b), Some(1));
    assert_eq!(dag.generation(&c), Some(2));
}

#[test]
fn test_content_id_from_content() {
    let data = b"hello world";
    let id1 = ContentId::from_content(data);
    let id2 = ContentId::from_content(data);
    assert_eq!(id1, id2);

    let data2 = b"hello world!";
    let id3 = ContentId::from_content(data2);
    assert_ne!(id1, id3);
}

#[test]
fn test_content_id_hex_roundtrip() {
    let data = b"test data";
    let id1 = ContentId::from_content(data);
    let hex = id1.to_hex();
    let id2 = ContentId::from_hex(&hex).unwrap();
    assert_eq!(id1, id2);
}

#[test]
fn test_content_id_display() {
    let data = b"hello";
    let id = ContentId::from_content(data);
    assert_eq!(id.to_string(), id.to_hex());
}

// ---------------------------------------------------------------------------
// Further cases
// ---------------------------------------------------------------------------

#[test]
fn content_id_is_blake3_of_content() {
    // Blake3 of the empty input, a published test vector.
    let id = ContentId::from_content(b"");
    assert_eq!(id.to_hex(), "af1349b9f5f9a1a6a0404dea36dcc9499bcb25c9adc112b7cc9a93cae41f3262");
}

#[test]
fn from_hex_rejects_bad_input() {
    assert!(ContentId::from_hex("zz").is_none());
    assert!(ContentId::from_hex("abcd").is_none());
    assert_eq!(ContentId::zero().to_hex(), "0".repeat(64));
}

#[test]
fn builder_changes_with_git_anchor() {
    let snap = dummy_snapshot_id();
    let cp = CheckpointBuilder::new().baseline_snapshot(snap).author("a").message("m").git_anchor("abc123").build().unwrap();
    assert_eq!(cp.metadata.git_anchor, Some("abc123".to_string()));
    let plain = CheckpointBuilder::new().baseline_snapshot(snap).author("a").message("m").build().unwrap();
    assert_eq!(cp.id, plain.id, "the Git anchor is not part of the identifier");
}

#[test]
fn compute_id_ignores_creation_time() {
    let snap = dummy_snapshot_id();
    let mut cp = Checkpoint::new_single(snap, vec![], CheckpointMetadata::new("u", "m"));
    let first = cp.compute_id();
    cp.created_at += 1000;
    assert_eq!(cp.compute_id(), first);
    cp.metadata.message = "other".to_string();
    assert_ne!(cp.compute_id(), first);
}

#[test]
fn dag_descendants_and_removal() {
    let mut dag = CheckpointDag::new();
    let a = cid(b"a");
    let b = cid(b"b");
    let c = cid(b"c");
    dag.add_edge(a, b);
    dag.add_edge(b, c);
    let d = dag.descendants(&a);
    assert!(d.contains(&b) && d.contains(&c));
    assert!(d.contains(&a));
    assert_eq!(d.len(), 3);
    dag.remove_node(&b);
    assert!(!dag.has_node(&b));
    assert_eq!(dag.get_children(&a), vec![b], "edges into a removed node stay");
    assert!(!dag.is_ancestor(&a, &c));
    assert_eq!(dag.len(), 2);
}

#[test]
fn dag_merge_base_of_unrelated_is_none() {
    let dag = CheckpointDag::new();
    let a = cid(b"a");
    let b = cid(b"b");
    let parents: Vec<(CheckpointId, Vec<CheckpointId>)> = vec![];
    assert_eq!(dag.merge_base(&a, &b, &parents), None);
    assert_eq!(dag.merge_base(&a, &a, &parents), Some(a));
}

#[test]
fn dag_is_ancestor_of_itself() {
    let dag = CheckpointDag::new();
    let a = cid(b"a");
    assert!(dag.is_ancestor(&a, &a));
    assert!(dag.is_empty());
    assert_eq!(dag.generation(&a), None);
}

#[test]
fn dag_add_node_twice_is_add_node_once() {
    let mut dag = CheckpointDag::new();
    let a = ContentId::from_content(b"a");
    let b = ContentId::from_content(b"b");
    dag.add_edge(a, b);
    let gen_b = dag.generation(&b);
    dag.add_node(b);
    assert_eq!(dag.len(), 2);
    assert_eq!(dag.generation(&b), gen_b);
    dag.add_node(b);
    assert_eq!(dag.len(), 2);
    assert_eq!(dag.get_children(&a), vec![b]);
    let c = ContentId::from_content(b"c");
    dag.add_node(c);
    dag.add_node(c);
    assert_eq!(dag.len(), 3);
    assert_eq!(dag.generation(&c), Some(0));
    assert!(dag.get_children(&c).is_empty());
}
