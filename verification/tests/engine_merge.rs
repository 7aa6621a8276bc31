use stratum::engine::diff::diff_to_line_diff;
use stratum::engine::merge::{apply_deltas, merge_line_diffs, merge_texts, try_merge_texts, MergeConflict};
use stratum::error::StratumError;
use stratum::model::delta::{Delta, LineDiff};
use stratum::model::file_node::FileNode;
use stratum::model::types::{DiffOp, Hunk, SourceType};

fn delta_of(hunks: Vec<Hunk>) -> Delta {
    Delta::new(FileNode::new("test.txt".to_string(), b""), LineDiff::new(hunks), SourceType::Manual)
}

#[test]
fn test_apply_empty_deltas() {
    let content = "hello\nworld\n";
    let result = apply_deltas(content, &[]).unwrap();
    assert_eq!(result, "hello\nworld");
}

#[test]
fn test_apply_single_insert() {
    let content = "line1\nline3\n";
    let hunk = Hunk {
        old_start: 2,
        old_len: 1,
        new_start: 2,
        new_len: 2,
        ops: vec![
            DiffOp::Insert { new_start: 2, lines: vec!["line2".to_string()] },
            DiffOp::Equal { count: 1 },
        ],
    };
    let result = apply_deltas(content, &[delta_of(vec![hunk])]).unwrap();
    assert_eq!(result, "line1\nline2\nline3");
}

#[test]
fn test_apply_delete() {
    let content = "line1\nline2\nline3\n";
    let hunk = Hunk {
        old_start: 2,
        old_len: 1,
        new_start: 2,
        new_len: 0,
        ops: vec![DiffOp::Delete { old_start: 2, count: 1 }],
    };
    let result = apply_deltas(content, &[delta_of(vec![hunk])]).unwrap();
    assert_eq!(result, "line1\nline3");
}

#[test]
fn test_apply_replace() {
    let content = "aaa\nbbb\nccc\n";
    let hunk = Hunk {
        old_start: 2,
        old_len: 1,
        new_start: 2,
        new_len: 1,
        ops: vec![DiffOp::Replace { old_start: 2, old_count: 1, new_start: 2, lines: vec!["xxx".to_string()] }],
    };
    let result = apply_deltas(content, &[delta_of(vec![hunk])]).unwrap();
    assert_eq!(result, "aaa\nxxx\nccc");
}

#[test]
fn test_apply_chain() {
    let content = "a\nb\nc\n";
    let hunk1 = Hunk {
        old_start: 2,
        old_len: 1,
        new_start: 2,
        new_len: 2,
        ops: vec![
            DiffOp::Insert { new_start: 2, lines: vec!["x".to_string()] },
            DiffOp::Equal { count: 1 },
        ],
    };
    let hunk2 = Hunk {
        old_start: 3,
        old_len: 1,
        new_start: 3,
        new_len: 1,
        ops: vec![DiffOp::Replace { old_start: 3, old_count: 1, new_start: 3, lines: vec!["y".to_string()] }],
    };
    let result = apply_deltas(content, &[delta_of(vec![hunk1]), delta_of(vec![hunk2])]).unwrap();
    assert_eq!(result, "a\nx\ny\nc");
}

#[test]
fn test_merge_identical() {
    let base = "a\nb\nc\n";
    let (merged, conflicts) = merge_texts(base, base, base);
    assert_eq!(merged, "a\nb\nc");
    assert!(conflicts.is_empty());
}

#[test]
fn test_merge_non_conflicting() {
    let base = "a\nb\nc\n";
    let ours = "x\nb\nc\n";
    let theirs = "a\nb\ny\n";
    let (merged, conflicts) = merge_texts(base, ours, theirs);
    assert!(conflicts.is_empty());
    assert!(merged.contains('x'));
    assert!(merged.contains('y'));
}

#[test]
fn test_merge_with_conflict() {
    let base = "a\nb\nc\n";
    let ours = "a\nX\nc\n";
    let theirs = "a\nY\nc\n";
    let (_, conflicts) = merge_texts(base, ours, theirs);
    assert!(!conflicts.is_empty());
    assert_eq!(conflicts[0].ours, vec!["X"]);
    assert_eq!(conflicts[0].theirs, vec!["Y"]);
}

#[test]
fn test_merge_same_change() {
    let base = "a\nb\nc\n";
    let ours = "a\nX\nc\n";
    let theirs = "a\nX\nc\n";
    let (merged, conflicts) = merge_texts(base, ours, theirs);
    assert!(conflicts.is_empty());
    assert_eq!(merged, "a\nX\nc");
}

// ---------------------------------------------------------------------------
// Further cases
// ---------------------------------------------------------------------------

#[test]
fn apply_rejects_hunk_past_the_end() {
    let hunk = Hunk {
        old_start: 10,
        old_len: 1,
        new_start: 10,
        new_len: 0,
        ops: vec![DiffOp::Delete { old_start: 10, count: 1 }],
    };
    match apply_deltas("a\nb\n", &[delta_of(vec![hunk])]) {
        Err(StratumError::Engine(_)) => {}
        other => panic!("expected an engine error, got {:?}", other),
    }
}

#[test]
fn apply_of_computed_diff_gives_new_text() {
    let old = "one\ntwo\nthree\nfour";
    let new = "one\n2\nthree\nfour\nfive";
    let d = delta_of(diff_to_line_diff(old, new).hunks);
    assert_eq!(apply_deltas(old, &[d]).unwrap(), new);
}

#[test]
fn merged_conflict_keeps_our_lines_and_base() {
    let (merged, conflicts) = merge_texts("a\nb\nc\n", "a\nX\nc\n", "a\nY\nc\n");
    assert_eq!(merged, "a\nX\nc");
    assert_eq!(conflicts.len(), 1);
    let c: &MergeConflict = &conflicts[0];
    assert_eq!(c.base, vec!["b"]);
    assert_eq!(c.start_line, 1);
}

#[test]
fn conflict_marker_lists_both_sides() {
    let (_, conflicts) = merge_texts("a\nb\nc\n", "a\nX\nc\n", "a\nY\nc\n");
    let marker = conflicts[0].to_conflict_marker();
    assert_eq!(marker, "<<<<<<< ours\nX\n=======\nY\n>>>>>>> theirs\n");
}

#[test]
fn try_merge_agrees_with_merge() {
    let r = try_merge_texts("a\nb\nc\n", "x\nb\nc\n", "a\nb\ny\n").unwrap();
    assert_eq!(r.0, "x\nb\ny");
    assert!(r.1.is_empty());
}

#[test]
fn merge_by_line_diffs_applies_one_sided_changes() {
    let base = "a\nb\nc\n";
    let ours = diff_to_line_diff(base, "a\nb\nc\nd\n");
    let theirs = diff_to_line_diff(base, base);
    let (merged, conflicts) = merge_line_diffs(base, &ours, &theirs).unwrap();
    assert!(conflicts.is_empty());
    assert_eq!(merged, "a\nb\nc\nd");
}

#[test]
fn test_merge_unchanged_side_gives_other_side() {
    let base = "a\nb\nc\n";
    let changed = "a\nB\nc\nd\n";
    let (merged, conflicts) = merge_texts(base, base, changed);
    assert_eq!(merged, "a\nB\nc\nd");
    assert!(conflicts.is_empty());
    let (merged, conflicts) = merge_texts(base, changed, base);
    assert_eq!(merged, "a\nB\nc\nd");
    assert!(conflicts.is_empty());
}

#[test]
fn test_merge_apart_regions_both_applied() {
    let base = "1\n2\n3\n4\n5\n6\n7\n8\n9\n10\n";
    let ours = "one\n2\n3\n4\n5\n6\n7\n8\n9\n10\n";
    let theirs = "1\n2\n3\n4\n5\n6\n7\n8\n9\nten\neleven\n";
    let (merged, conflicts) = merge_texts(base, ours, theirs);
    assert!(conflicts.is_empty());
    assert_eq!(merged, "one\n2\n3\n4\n5\n6\n7\n8\n9\nten\neleven");
    let r = try_merge_texts(base, ours, theirs);
    assert_eq!(r.map(|(t, c)| (t, c.len())), Some(("one\n2\n3\n4\n5\n6\n7\n8\n9\nten\neleven".to_string(), 0)));
}

#[test]
fn crlf_texts_diff_apply_and_merge_by_lines() {
    let base = "a\r\nb\r\nc\r\n";
    let changed = "a\r\nB\r\nc\r\n";
    let delta = delta_of(diff_to_line_diff(base, changed).hunks);
    assert_eq!(apply_deltas(base, &[delta]).unwrap(), "a\nB\nc");
    let (merged, conflicts) = merge_texts(base, base, changed);
    assert_eq!(merged, "a\nB\nc");
    assert!(conflicts.is_empty());
}
