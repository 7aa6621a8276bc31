use stratum::engine::diff::diff_to_line_diff;
use stratum::engine::inverse::{inverse_delta, inverse_snapshot};
use stratum::engine::merge::apply_deltas;
use stratum::error::StratumError;
use stratum::model::delta::{Delta, LineDiff};
use stratum::model::file_node::FileNode;
use stratum::model::snapshot::Snapshot;
use stratum::model::types::{DiffOp, Hunk, SourceType};

fn file(path: &str, content: &[u8]) -> FileNode {
    FileNode::new(path.to_string(), content)
}

#[test]
fn test_inverse_insert_becomes_delete() {
    let hunk = Hunk {
        old_start: 1,
        old_len: 1,
        new_start: 1,
        new_len: 2,
        ops: vec![
            DiffOp::Equal { count: 1 },
            DiffOp::Insert { new_start: 2, lines: vec!["new_line".to_string()] },
        ],
    };
    let diff = LineDiff::new(vec![hunk]);
    let delta = Delta::new(file("test.txt", b"content"), diff, SourceType::Manual);
    let inv = inverse_delta(&delta, None).unwrap();

    let has_delete = inv.diff.hunks.iter().any(|h| h.ops.iter().any(|op| matches!(op, DiffOp::Delete { .. })));
    assert!(has_delete);
}

#[test]
fn test_inverse_delete_requires_content() {
    let hunk = Hunk {
        old_start: 1,
        old_len: 1,
        new_start: 1,
        new_len: 0,
        ops: vec![DiffOp::Delete { old_start: 1, count: 1 }],
    };
    let diff = LineDiff::new(vec![hunk]);
    let delta = Delta::new(file("test.txt", b"content"), diff, SourceType::Manual);

    let inv = inverse_delta(&delta, None).unwrap();
    let has_insert = inv.diff.hunks.iter().any(|h| h.ops.iter().any(|op| matches!(op, DiffOp::Insert { .. })));
    assert!(has_insert);

    let inv2 = inverse_delta(&delta, Some("deleted_line\n")).unwrap();
    let insert_lines: Vec<&str> = inv2
        .diff
        .hunks
        .iter()
        .flat_map(|h| &h.ops)
        .filter_map(|op| {
            if let DiffOp::Insert { lines, .. } = op {
                Some(lines.iter().map(|s| s.as_str()).collect::<Vec<_>>())
            } else {
                None
            }
        })
        .flatten()
        .collect();
    assert_eq!(insert_lines, vec!["deleted_line"]);
}

#[test]
fn test_inverse_delta_roundtrip() {
    let content = "line1\nline3\n";
    let f = file("test.txt", b"");
    let hunk = Hunk {
        old_start: 2,
        old_len: 0,
        new_start: 2,
        new_len: 1,
        ops: vec![DiffOp::Insert { new_start: 2, lines: vec!["line2".to_string()] }],
    };
    let diff = LineDiff::new(vec![hunk]);
    let delta = Delta::new(f.clone(), diff, SourceType::Manual);

    let new_content = apply_deltas(content, &[delta.clone()]).unwrap();
    assert_eq!(new_content, "line1\nline2\nline3");

    let inv = inverse_delta(&delta, Some(content)).unwrap();
    let restored = apply_deltas(&new_content, &[inv]).unwrap();
    assert_eq!(restored, content.trim_end_matches('\n'));
}

#[test]
fn test_inverse_replace() {
    let hunk = Hunk {
        old_start: 1,
        old_len: 1,
        new_start: 1,
        new_len: 1,
        ops: vec![DiffOp::Replace { old_start: 1, old_count: 1, new_start: 1, lines: vec!["new".to_string()] }],
    };
    let diff = LineDiff::new(vec![hunk]);
    let delta = Delta::new(file("test.txt", b"content"), diff, SourceType::Manual);
    let inv = inverse_delta(&delta, Some("old\n")).unwrap();
    let has_replace = inv.diff.hunks.iter().any(|h| h.ops.iter().any(|op| matches!(op, DiffOp::Replace { .. })));
    assert!(has_replace, "inverse of Replace should be Replace");

    for hunk in &inv.diff.hunks {
        for op in &hunk.ops {
            if let DiffOp::Replace { old_start, new_start, lines, .. } = op {
                assert_eq!(*old_start, 1, "old_start should be original new_start");
                assert_eq!(*new_start, 1, "new_start should be original old_start");
                assert_eq!(lines, &vec!["old".to_string()], "should contain original content");
            }
        }
    }
}

#[test]
fn test_inverse_replace_roundtrip() {
    let content = "old\n";
    let f = file("test.txt", b"");
    let hunk = Hunk {
        old_start: 1,
        old_len: 1,
        new_start: 1,
        new_len: 1,
        ops: vec![DiffOp::Replace { old_start: 1, old_count: 1, new_start: 1, lines: vec!["new".to_string()] }],
    };
    let diff = LineDiff::new(vec![hunk]);
    let delta = Delta::new(f, diff, SourceType::Manual);

    let new_content = apply_deltas(content, &[delta.clone()]).unwrap();
    assert_eq!(new_content, "new");

    let inv = inverse_delta(&delta, Some(content)).unwrap();
    let restored = apply_deltas(&new_content, &[inv]).unwrap();
    assert_eq!(restored, "old");
}

#[test]
fn test_inverse_preserves_equal() {
    let hunk = Hunk { old_start: 1, old_len: 2, new_start: 1, new_len: 2, ops: vec![DiffOp::Equal { count: 2 }] };
    let diff = LineDiff::new(vec![hunk]);
    let delta = Delta::new(file("test.txt", b"content"), diff, SourceType::Manual);
    let inv = inverse_delta(&delta, None).unwrap();
    let has_equal = inv.diff.hunks.iter().any(|h| h.ops.iter().any(|op| matches!(op, DiffOp::Equal { .. })));
    assert!(has_equal, "inverse should preserve Equal ops");
}

#[test]
fn test_inverse_mixed_ops() {
    let hunk = Hunk {
        old_start: 1,
        old_len: 3,
        new_start: 1,
        new_len: 4,
        ops: vec![
            DiffOp::Equal { count: 1 },
            DiffOp::Delete { old_start: 2, count: 1 },
            DiffOp::Insert { new_start: 3, lines: vec!["inserted".to_string()] },
        ],
    };
    let diff = LineDiff::new(vec![hunk]);
    let delta = Delta::new(file("test.txt", b"keep\ndeleted\n"), diff, SourceType::Manual);
    let inv = inverse_delta(&delta, Some("keep\ndeleted\n")).unwrap();

    let has_delete = inv.diff.hunks.iter().any(|h| h.ops.iter().any(|op| matches!(op, DiffOp::Delete { .. })));
    let has_insert = inv.diff.hunks.iter().any(|h| h.ops.iter().any(|op| matches!(op, DiffOp::Insert { .. })));
    let has_equal = inv.diff.hunks.iter().any(|h| h.ops.iter().any(|op| matches!(op, DiffOp::Equal { .. })));

    assert!(has_delete, "original Insert should become Delete");
    assert!(has_insert, "original Delete should become Insert");
    assert!(has_equal, "Equal should stay Equal");
}

#[test]
fn test_inverse_snapshot_empty_chain() {
    let file_node = file("test.txt", b"content");
    let empty_diff = LineDiff::new(vec![]);
    let delta = Delta::new(file_node, empty_diff, SourceType::Manual);
    let snapshot = Snapshot::new_initial(delta.file.clone(), delta.id);
    let result = inverse_snapshot(&snapshot, &[delta], &[""]);
    assert!(result.is_ok(), "inverse_snapshot should succeed");
    let inverses = result.unwrap();
    assert_eq!(inverses.len(), 1, "a single empty delta produces one trivial inverse");
    assert!(inverses[0].diff.is_empty(), "inverse of empty delta should also be empty");
}

#[test]
fn test_inverse_snapshot_mismatched_length() {
    let file_node = file("test.txt", b"content");
    let empty_diff = LineDiff::new(vec![]);
    let delta = Delta::new(file_node, empty_diff, SourceType::Manual);
    let snapshot = Snapshot::new_initial(delta.file.clone(), delta.id);
    let result = inverse_snapshot(&snapshot, &[], &[]);
    assert!(result.is_err(), "mismatched lengths should error");
}

#[test]
fn test_inverse_snapshot_chain() {
    let content0 = "a\nb\nc\n";
    let content1 = "a\nX\nc\n";
    let f = file("test.txt", b"");

    let diff1 = diff_to_line_diff(content0, content1);
    let delta1 = Delta::new(f.clone(), diff1, SourceType::Manual);
    let snapshot = Snapshot::new_initial(f.clone(), delta1.id);

    let result = inverse_snapshot(&snapshot, &[delta1], &[content0]).unwrap();
    assert_eq!(result.len(), 1, "should produce one inverse delta");
}

#[test]
fn test_inverse_delta_empty() {
    let diff = LineDiff::new(vec![]);
    let file_node = file("empty.txt", b"content");
    let delta = Delta::new(file_node, diff, SourceType::Manual);
    let inverse = inverse_delta(&delta, Some("content")).unwrap();
    assert!(inverse.diff.is_empty(), "empty delta inverse should also be empty");
}

#[test]
fn test_inverse_insert_with_content() {
    let diff = diff_to_line_diff("", "a\nb\nc\n");
    let file_node = file("new.txt", b"a\nb\nc\n");
    let delta = Delta::new(file_node, diff, SourceType::Manual);
    let inverse = inverse_delta(&delta, Some("")).unwrap();
    let has_delete = inverse.diff.hunks.iter().any(|h| h.ops.iter().any(|op| matches!(op, DiffOp::Delete { .. })));
    assert!(has_delete, "inverse of insert should contain Delete ops");
}

#[test]
fn test_inverse_delete_with_content() {
    let diff = diff_to_line_diff("a\nb\nc\n", "a\nc\n");
    let file_node = file("del.txt", b"a\nc\n");
    let delta = Delta::new(file_node, diff, SourceType::Manual);
    let inverse = inverse_delta(&delta, Some("a\nb\nc\n")).unwrap();
    let has_insert = inverse.diff.hunks.iter().any(|h| h.ops.iter().any(|op| matches!(op, DiffOp::Insert { .. })));
    assert!(has_insert, "inverse of delete should contain Insert ops");
}

// ---------------------------------------------------------------------------
// Further cases
// ---------------------------------------------------------------------------

#[test]
fn inverse_swaps_hunk_sides() {
    let hunk = Hunk {
        old_start: 3,
        old_len: 2,
        new_start: 5,
        new_len: 4,
        ops: vec![DiffOp::Equal { count: 2 }],
    };
    let delta = Delta::new(file("t.txt", b""), LineDiff::new(vec![hunk]), SourceType::Manual);
    let inv = inverse_delta(&delta, None).unwrap();
    let h = &inv.diff.hunks[0];
    assert_eq!((h.old_start, h.old_len, h.new_start, h.new_len), (5, 4, 3, 2));
    assert_eq!(inv.file.file_path, "t.txt");
}

#[test]
fn inverse_delete_without_content_inserts_blank_lines() {
    let hunk = Hunk {
        old_start: 1,
        old_len: 2,
        new_start: 1,
        new_len: 0,
        ops: vec![DiffOp::Delete { old_start: 1, count: 2 }],
    };
    let delta = Delta::new(file("t.txt", b""), LineDiff::new(vec![hunk]), SourceType::Manual);
    let inv = inverse_delta(&delta, None).unwrap();
    match &inv.diff.hunks[0].ops[0] {
        DiffOp::Insert { new_start, lines } => {
            assert_eq!(*new_start, 1);
            assert_eq!(lines, &vec![String::new(), String::new()]);
        }
        other => panic!("expected an insert, got {:?}", other),
    }
}

#[test]
fn inverse_of_diffed_delta_restores_text() {
    let old = "alpha\nbeta\ngamma";
    let new = "alpha\nBETA\ngamma\ndelta";
    let delta = Delta::new(file("t.txt", b""), diff_to_line_diff(old, new), SourceType::Manual);
    let applied = apply_deltas(old, &[delta.clone()]).unwrap();
    assert_eq!(applied, new);
    let inv = inverse_delta(&delta, Some(old)).unwrap();
    assert_eq!(apply_deltas(&applied, &[inv]).unwrap(), old);
}

#[test]
fn inverse_snapshot_reports_length_mismatch_message() {
    let f = file("t.txt", b"");
    let delta = Delta::new(f.clone(), LineDiff::new(vec![]), SourceType::Manual);
    let snapshot = Snapshot::new_initial(f, delta.id);
    match inverse_snapshot(&snapshot, &[], &[]) {
        Err(StratumError::Engine(m)) => {
            assert_eq!(m, "deltas length (0) does not match snapshot delta chain length (1)");
        }
        other => panic!("unexpected {:?}", other),
    }
    match inverse_snapshot(&snapshot, &[delta], &[]) {
        Err(StratumError::Engine(m)) => {
            assert_eq!(m, "old_contents length (0) does not match deltas length (1)");
        }
        other => panic!("unexpected {:?}", other),
    }
}

#[test]
fn inverse_snapshot_orders_newest_first() {
    let f = file("t.txt", b"");
    let d1 = Delta::new(f.clone(), diff_to_line_diff("a\n", "a\nb\n"), SourceType::Manual);
    let d2 = Delta::new(f.clone(), diff_to_line_diff("a\nb\n", "c\nb\n"), SourceType::Manual);
    let snap = Snapshot::new_initial(f, d1.id).apply_delta(d2.id);
    let inv = inverse_snapshot(&snap, &[d1, d2], &["a\n", "a\nb\n"]).unwrap();
    assert_eq!(inv.len(), 2);
    let restored = apply_deltas("c\nb", &inv).unwrap();
    assert_eq!(restored, "a");
}

#[test]
fn inverse_chain_undoes_two_deltas() {
    let content0 = "a\nb\nc";
    let content1 = "a\nX\nc";
    let content2 = "a\nX\nc\nd";
    let f = file("test.txt", b"");
    let delta1 = Delta::new(f.clone(), diff_to_line_diff(content0, content1), SourceType::Manual);
    let delta2 = Delta::new(f.clone(), diff_to_line_diff(content1, content2), SourceType::Manual);
    let snapshot = Snapshot::new_initial(f.clone(), delta1.id).apply_delta(delta2.id);

    let forward = apply_deltas(content0, &[delta1.duplicate(), delta2.duplicate()]).unwrap();
    assert_eq!(forward, content2);
    let inverses = inverse_snapshot(&snapshot, &[delta1, delta2], &[content0, content1]).unwrap();
    assert_eq!(inverses.len(), 2);
    let back = apply_deltas(&forward, &inverses).unwrap();
    assert_eq!(back, content0);
}
