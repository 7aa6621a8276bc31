use stratum::text::{split_char, trim_str};
use stratum::api::service::{checkpoint_to_info, diff_stats, map_error, snapshot_id_to_hex, ServiceConfig};
use stratum::api::types::ApiError;
use stratum::checkpoint::branch::Branch;
use stratum::checkpoint::checkpoint::{Checkpoint, CheckpointMetadata};
use stratum::checkpoint::graph::{contains_id, distinct_ids, neighbours, search_order};
use stratum::engine::diff::diff_to_line_diff;
use stratum::error::{StorageError, StratumError};
use stratum::model::delta::{Delta, LineDiff};
use stratum::model::file_node::FileNode;
use stratum::model::partition::Partition;
use stratum::model::snapshot::{Snapshot, SnapshotBuilder};
use stratum::model::types::{hex_decode, hex_encode, AgentInstanceId, ContentId, DiffOp, Hunk, PartitionId, PartitionType, SourceType};
use stratum::text::{contains_str, join_with_newline, split_lines, text_of_bytes};

fn cid(b: &[u8]) -> ContentId {
    ContentId::from_content(b)
}

// ---------------------------------------------------------------------------
// Partitions
// ---------------------------------------------------------------------------

#[test]
fn partition_advance_then_rollback_restores() {
    let a = cid(b"a");
    let b = cid(b"b");
    let mut p = Partition::new("p".to_string(), PartitionType::Manual, a);
    assert_eq!(p.history, vec![a]);
    p.advance(b);
    assert_eq!(p.current_snapshot, b);
    assert_eq!(p.history, vec![a, b]);
    assert_eq!(p.rollback_one(), Some(a));
    assert_eq!(p.current_snapshot, a);
    assert_eq!(p.history, vec![a]);
    assert_eq!(p.rollback_one(), None);
}

#[test]
fn partition_rollback_to_first_occurrence() {
    let (a, b, c) = (cid(b"a"), cid(b"b"), cid(b"c"));
    let mut p = Partition::new("p".to_string(), PartitionType::Staged, a);
    p.advance(b);
    p.advance(c);
    p.advance(b);
    assert!(p.rollback_to(&b));
    assert_eq!(p.history, vec![a, b]);
    assert_eq!(p.current_snapshot, b);
    assert!(!p.rollback_to(&c));
    assert_eq!(p.history, vec![a, b]);
}

#[test]
fn partition_ids_are_fresh_and_v5_is_stable() {
    let a = PartitionId::new_random();
    let b = PartitionId::new_random();
    assert_ne!(a, b);
    let ns = PartitionId::with_first_byte(0x40);
    assert_eq!(PartitionId::new_v5(&ns, b"x"), PartitionId::new_v5(&ns, b"x"));
    assert_ne!(PartitionId::new_v5(&ns, b"x"), PartitionId::new_v5(&ns, b"y"));
    assert_eq!(PartitionId::with_last_byte(1).to_hex(), "00000000000000000000000000000001");
}

#[test]
fn partition_type_names() {
    assert_eq!(PartitionType::Manual.name(), "manual");
    assert_eq!(PartitionType::Agent(AgentInstanceId("x".to_string())).name(), "agent/x");
    assert_eq!(PartitionType::Approval(AgentInstanceId("y".to_string())).name(), "approval/y");
    assert_eq!(PartitionType::Integrated("f".to_string()).name(), "integrated/f");
    assert_eq!(PartitionType::Unified.name(), "unified");
    assert_eq!(PartitionType::Staged.name(), "staged");
}

// ---------------------------------------------------------------------------
// Snapshots and deltas
// ---------------------------------------------------------------------------

#[test]
fn snapshot_ids_are_content_addressed() {
    let f = FileNode::new("a.txt".to_string(), b"x");
    let d = cid(b"d");
    let s1 = Snapshot::new_initial(f.clone(), d);
    let s2 = Snapshot::new_initial(f.clone(), d);
    assert_eq!(s1.id, s2.id, "creation time is not part of the identifier");
    let s3 = s1.apply_delta(cid(b"e"));
    assert_ne!(s3.id, s1.id);
    assert_eq!(s3.parents, vec![s1.id]);
    assert_eq!(s3.deltas, vec![d, cid(b"e")]);
    assert_eq!(s3.compute_id(), s3.id);
}

#[test]
fn snapshot_merge_records_all_parents() {
    let f = FileNode::new("a.txt".to_string(), b"x");
    let a = Snapshot::new_initial(f.clone(), cid(b"1"));
    let b = Snapshot::new_initial(FileNode::new("b.txt".to_string(), b"y"), cid(b"2"));
    let m = Snapshot::merge(vec![&a, &b], cid(b"3"), "staged".to_string(), true);
    assert_eq!(m.parents, vec![a.id, b.id]);
    assert_eq!(m.file.file_path, "a.txt");
    assert_eq!(m.deltas, vec![cid(b"1"), cid(b"3")]);
    assert!(m.has_conflicts);
    assert_eq!(m.partition_type, "staged");
}

#[test]
fn snapshot_builder_requires_a_file() {
    assert_eq!(SnapshotBuilder::new().add_delta(cid(b"d")).build().unwrap_err(), "file is required");
    let f = FileNode::new("a.txt".to_string(), b"x");
    let s = SnapshotBuilder::new()
        .file(f.clone())
        .add_delta(cid(b"d"))
        .with_parent(cid(b"p"))
        .with_partition_type("manual".to_string())
        .with_conflicts(false)
        .build()
        .unwrap();
    assert_eq!(s.deltas, vec![cid(b"d")]);
    assert_eq!(s.parents, vec![cid(b"p")]);
    assert_eq!(s.partition_type, "manual");
    assert_eq!(s.id, s.compute_id());
}

#[test]
fn delta_summary_counts_lines() {
    let hunk = Hunk {
        old_start: 1,
        old_len: 3,
        new_start: 1,
        new_len: 4,
        ops: vec![
            DiffOp::Equal { count: 1 },
            DiffOp::Delete { old_start: 2, count: 2 },
            DiffOp::Insert { new_start: 2, lines: vec!["a".to_string(), "b".to_string()] },
            DiffOp::Replace { old_start: 4, old_count: 1, new_start: 4, lines: vec!["c".to_string()] },
        ],
    };
    let d = Delta::new(FileNode::new("f".to_string(), b""), LineDiff::new(vec![hunk]), SourceType::Manual);
    let s = d.summary();
    assert_eq!((s.inserts, s.deletes, s.replaces, s.total_hunks), (2, 2, 1, 1));
    assert_eq!(diff_stats(&d.diff), (3, 3));
    assert_eq!(d.compute_id() == d.id, false, "the identifier is the digest of the delta with an all-zero identifier");
}

#[test]
fn file_node_hash_is_blake3_of_content() {
    let f = FileNode::new("x".to_string(), b"");
    assert_eq!(hex_encode(&f.base_hash), "af1349b9f5f9a1a6a0404dea36dcc9499bcb25c9adc112b7cc9a93cae41f3262");
    assert_eq!(f.path_str(), "x");
}

// ---------------------------------------------------------------------------
// Errors
// ---------------------------------------------------------------------------

#[test]
fn error_messages_and_cli_rendering() {
    let e = StratumError::Storage(StorageError::NotFound("row".to_string()));
    assert_eq!(e.to_string(), "Storage layer error: Record not found: row");
    assert_eq!(e.format_cli(), "error: storage operation failed\n  detail: Record not found: row\n  hint: check database integrity and permissions");
    assert_eq!(e.exit_code(), 1);
    let u = StratumError::cli("bad flag".to_string(), "see --help".to_string());
    assert_eq!(u.format_cli(), "error: bad flag\n  hint: see --help");
    assert_eq!(u.exit_code(), 2);
    assert_eq!(StratumError::cli_simple("oops".to_string()).format_cli(), "error: oops");
    assert_eq!(StratumError::NotFound("branch x".to_string()).format_cli(), "error: branch x not found\n  hint: check that the name or ID is correct");
    assert_eq!(StratumError::Engine("m".to_string()).to_string(), "Engine error: m");
    let from: StratumError = StorageError::Io("disk".to_string()).into();
    assert!(matches!(from, StratumError::Storage(StorageError::Io(_))));
}

#[test]
fn api_errors_map_library_errors() {
    let a = map_error(StratumError::NotFound("thing".to_string()));
    assert_eq!(a.code, "NOT_FOUND");
    assert_eq!(a.message, "thing not found");
    assert_eq!(a.suggestion.as_deref(), Some("check that the name or ID is correct"));
    let s = map_error(StratumError::Serialization("bad".to_string()));
    assert_eq!(s.code, "INTERNAL_ERROR");
    assert_eq!(s.message, "serialization: bad");
    let g = map_error(StratumError::General("x".to_string()));
    assert_eq!(g.code, "ERROR");
    let p = ApiError::invalid_params("n".to_string());
    assert_eq!(p.code, "INVALID_PARAMS");
    assert!(p.details.is_none());
    assert_eq!(ServiceConfig::default().db_path, ".stratum/stratum.db");
}

#[test]
fn checkpoint_info_uses_hex() {
    let cp = Checkpoint::new(vec![cid(b"s")], vec![cid(b"p")], CheckpointMetadata::new("me", "msg"));
    let info = checkpoint_to_info(&cp);
    assert_eq!(info.id, cp.id.to_hex());
    assert_eq!(info.parents, vec![cid(b"p").to_hex()]);
    assert_eq!(info.snapshots, vec![cid(b"s").to_hex()]);
    assert_eq!(info.author, "me");
    assert_eq!(snapshot_id_to_hex(&cid(b"s")), cid(b"s").to_hex());
}

// ---------------------------------------------------------------------------
// Text, hex and graphs
// ---------------------------------------------------------------------------

#[test]
fn lines_split_and_join() {
    assert_eq!(split_lines("a\r\nb\n\nc"), vec!["a", "b", "", "c"]);
    assert_eq!(split_lines("a\n"), vec!["a"]);
    assert!(split_lines("").is_empty());
    assert_eq!(join_with_newline(&["a".to_string(), "b".to_string()]), "a\nb");
    assert!(contains_str("integrated/feat", "feat"));
    assert!(!contains_str("staged", "agent"));
    assert!(contains_str("x", ""));
    assert_eq!(text_of_bytes("héllo".as_bytes()), "héllo");
}

#[test]
fn hex_round_trip() {
    assert_eq!(hex_encode(&[0x00, 0xab, 0xff]), "00abff");
    assert_eq!(hex_decode("00ABff"), Some(vec![0x00, 0xab, 0xff]));
    assert_eq!(hex_decode("abc"), None);
    assert_eq!(hex_decode("zz"), None);
}

#[test]
fn search_order_is_breadth_first() {
    let (a, b, c, d) = (cid(b"a"), cid(b"b"), cid(b"c"), cid(b"d"));
    let table = vec![(a, vec![b, c]), (b, vec![d]), (c, vec![d, a])];
    assert_eq!(search_order(&table, a), vec![a, b, c, d]);
    assert_eq!(neighbours(&table, &b), vec![d]);
    assert!(neighbours(&table, &d).is_empty());
    assert!(contains_id(&vec![a, b], &b));
    assert!(distinct_ids(&vec![a, b]));
    assert!(!distinct_ids(&vec![a, b, a]));
}

#[test]
fn branch_moves_head() {
    let mut b = Branch::new("main", cid(b"1"));
    b.set_head(cid(b"2"));
    assert_eq!(b.head, cid(b"2"));
    assert_eq!(b.duplicate().name, "main");
}

#[test]
fn diff_of_texts_round_trips_through_apply() {
    let old = "x\ny\nz";
    let new = "x\nY\nz\nw";
    let d = Delta::new(FileNode::new("f".to_string(), b""), diff_to_line_diff(old, new), SourceType::Manual);
    assert_eq!(stratum::engine::merge::apply_deltas(old, &[d]).unwrap(), new);
}

#[test]
fn split_char_keeps_empty_pieces() {
    assert_eq!(split_char("a,,b", ','), vec!["a".to_string(), String::new(), "b".to_string()]);
    assert_eq!(split_char("", ','), vec![String::new()]);
    assert_eq!(split_char("x,", ','), vec!["x".to_string(), String::new()]);
}

#[test]
fn trim_str_drops_unicode_white_space() {
    assert_eq!(trim_str(" \t x y \u{3000}\n"), "x y");
    assert_eq!(trim_str("   "), "");
    assert_eq!(trim_str("a"), "a");
    assert_eq!(trim_str("\u{2003}b\u{A0}"), "b");
}

#[test]
fn random_partition_ids_are_version_four() {
    let p = PartitionId::new_random();
    assert_eq!(p.0[6] >> 4, 4);
    assert_eq!(p.0[8] >> 6, 2);
}

#[test]
fn from_hex_takes_hex_digits_only() {
    assert!(ContentId::from_hex(&"+0".repeat(32)).is_none());
    let upper = "AB".repeat(32);
    let id = ContentId::from_hex(&upper).unwrap();
    assert_eq!(id.to_hex(), upper.to_lowercase());
    assert!(ContentId::from_hex(&"ab".repeat(31)).is_none());
    assert!(hex_decode("+1").is_none());
}
