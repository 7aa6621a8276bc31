use stratum::engine::diff::{collect_changes_from_diff, diff_to_line_diff, format_unified_diff, line_diff_from_changes, strip_newline};
use stratum::model::types::{DiffOp, SourceType};

#[test]
fn test_diff_to_line_diff_simple() {
    let old = "hello\nworld\nfoo\n";
    let new = "hello\nrust\nfoo\n";
    let line_diff = diff_to_line_diff(old, new);
    assert_eq!(line_diff.hunks.len(), 1, "should have 1 hunk");

    let hunk = &line_diff.hunks[0];
    assert_eq!(hunk.ops.len(), 3);
    assert!(matches!(hunk.ops[0], DiffOp::Equal { count: 1 }));
}

#[test]
fn test_diff_to_line_diff_no_change() {
    let text = "line1\nline2\nline3\n";
    let line_diff = diff_to_line_diff(text, text);
    assert_eq!(line_diff.hunks.len(), 0, "no changes = no hunks");
}

#[test]
fn test_diff_to_line_diff_insert() {
    let old = "a\nc\n";
    let new = "a\nb\nc\n";
    let line_diff = diff_to_line_diff(old, new);
    assert!(!line_diff.hunks.is_empty());
}

#[test]
fn test_diff_to_line_diff_delete_only() {
    let old = "a\nb\nc\n";
    let new = "a\nc\n";
    let line_diff = diff_to_line_diff(old, new);
    assert!(!line_diff.hunks.is_empty());

    let has_delete = line_diff
        .hunks
        .iter()
        .any(|h| h.ops.iter().any(|op| matches!(op, DiffOp::Delete { .. })));
    assert!(has_delete);
}

#[test]
fn test_diff_to_line_diff_replace() {
    let old = "a\nb\nc\n";
    let new = "a\nx\nc\n";
    let line_diff = diff_to_line_diff(old, new);
    assert!(!line_diff.hunks.is_empty());

    let has_replace = line_diff
        .hunks
        .iter()
        .any(|h| h.ops.iter().any(|op| matches!(op, DiffOp::Replace { .. })));
    assert!(has_replace);
}

#[test]
fn test_diff_to_line_diff_empty_old() {
    let old = "";
    let new = "a\nb\nc\n";
    let line_diff = diff_to_line_diff(old, new);
    assert!(!line_diff.hunks.is_empty());
    assert_eq!(line_diff.hunks[0].old_start, 1);
    assert_eq!(line_diff.hunks[0].new_start, 1);
}

#[test]
fn test_diff_to_line_diff_empty_new() {
    let old = "a\nb\nc\n";
    let new = "";
    let line_diff = diff_to_line_diff(old, new);
    assert!(!line_diff.hunks.is_empty());
    let has_delete = line_diff
        .hunks
        .iter()
        .any(|h| h.ops.iter().any(|op| matches!(op, DiffOp::Delete { .. })));
    assert!(has_delete);
}

#[test]
fn test_diff_to_line_diff_multiple_hunks() {
    let old = "a\nb\nc\nd\ne\nf\ng\nh\ni\nj\nk\nl\nm\nn\n";
    let new = "a\nX\nc\nd\ne\nf\ng\nh\ni\nY\nk\nl\nm\nn\n";
    let line_diff = diff_to_line_diff(old, new);
    assert_eq!(line_diff.hunks.len(), 2, "two separated changes should produce 2 hunks");
}

#[test]
fn test_collect_changes() {
    let old = "keep\nremove\nkeep\n";
    let new = "keep\nadded\nkeep\n";
    let delta = collect_changes_from_diff(old, new, "test.txt".to_string(), old.as_bytes(), SourceType::Manual).unwrap();
    assert!(delta.id.to_hex().len() == 64, "delta should have valid id");
}

#[test]
fn test_collect_changes_empty_diff() {
    let old = "same\n";
    let new = "same\n";
    let delta = collect_changes_from_diff(old, new, "test.txt".to_string(), old.as_bytes(), SourceType::Manual).unwrap();
    assert!(delta.diff.hunks.is_empty() || delta.diff.hunks.iter().all(|h| h.ops.is_empty()));
}

#[test]
fn test_collect_changes_only_insert() {
    let old = "";
    let new = "a\nb\nc\n";
    let delta = collect_changes_from_diff(old, new, "test.txt".to_string(), old.as_bytes(), SourceType::Manual).unwrap();
    assert!(!delta.diff.hunks.is_empty());
    let has_insert = delta
        .diff
        .hunks
        .iter()
        .any(|h| h.ops.iter().any(|op| matches!(op, DiffOp::Insert { .. })));
    assert!(has_insert);
}

#[test]
fn test_format_unified_diff() {
    let old = "a\nb\nc\n";
    let new = "a\nd\nc\n";
    let output = format_unified_diff(old, new, 1);
    assert!(output.contains("-b"));
    assert!(output.contains("+d"));
}

#[test]
fn test_format_unified_diff_no_changes() {
    let text = "a\nb\nc\n";
    let output = format_unified_diff(text, text, 1);
    assert!(!output.contains('-'));
    assert!(!output.contains('+'));
}

#[test]
fn test_diff_to_line_diff_single_char_no_newline() {
    let diff = diff_to_line_diff("x", "y");
    assert!(
        !diff.hunks.is_empty() || diff.hunks.iter().any(|h| !h.ops.is_empty()),
        "single char change should produce diff"
    );
}

#[test]
fn test_diff_to_line_diff_both_empty() {
    let diff = diff_to_line_diff("", "");
    assert!(diff.is_empty(), "both empty should produce no diff");
}

#[test]
fn test_diff_to_line_diff_only_newlines() {
    let diff = diff_to_line_diff("\n\n", "\n\n\n");
    assert!(!diff.is_empty(), "different newline count should produce diff");
}

// ---------------------------------------------------------------------------
// Further cases
// ---------------------------------------------------------------------------

#[test]
fn replace_hunk_has_exact_positions_and_lines() {
    let line_diff = diff_to_line_diff("a\nb\nc\n", "a\nx\nc\n");
    assert_eq!(line_diff.hunks.len(), 1);
    let h = &line_diff.hunks[0];
    assert_eq!((h.old_start, h.old_len, h.new_start, h.new_len), (1, 3, 1, 3));
    assert_eq!(h.ops.len(), 3);
    match &h.ops[1] {
        DiffOp::Replace { old_start, old_count, new_start, lines } => {
            assert_eq!((*old_start, *old_count, *new_start), (2, 1, 2));
            assert_eq!(lines, &vec!["x".to_string()]);
        }
        other => panic!("expected a replace, got {:?}", other),
    }
    assert!(matches!(h.ops[2], DiffOp::Equal { count: 1 }));
}

#[test]
fn insert_into_empty_text_lists_all_lines() {
    let line_diff = diff_to_line_diff("", "a\nb\n");
    assert_eq!(line_diff.hunks.len(), 1);
    match &line_diff.hunks[0].ops[0] {
        DiffOp::Insert { new_start, lines } => {
            assert_eq!(*new_start, 1);
            assert_eq!(lines, &vec!["a".to_string(), "b".to_string()]);
        }
        other => panic!("expected an insert, got {:?}", other),
    }
}

#[test]
fn strip_newline_removes_trailing_line_ends() {
    assert_eq!(strip_newline("abc\n"), "abc");
    assert_eq!(strip_newline("abc"), "abc");
    assert_eq!(strip_newline("a\r\n\n"), "a");
}

#[test]
fn unified_diff_has_hunk_header() {
    let output = format_unified_diff("a\nb\nc\n", "a\nd\nc\n", 1);
    assert!(output.contains("@@ -1,3 +1,3 @@"));
    assert!(output.contains(" a"));
}

#[test]
fn collected_delta_matches_direct_diff() {
    let old = "one\ntwo\n";
    let new = "one\nthree\n";
    let delta = collect_changes_from_diff(old, new, "f.txt".to_string(), old.as_bytes(), SourceType::Manual).unwrap();
    assert_eq!(delta.file.file_path, "f.txt");
    assert_eq!(delta.diff.hunks.len(), 1);
    let ops = &delta.diff.hunks[0].ops;
    assert_eq!(ops.len(), 2);
    assert!(matches!(ops[0], DiffOp::Delete { old_start: 2, count: 1 }));
    assert!(matches!(&ops[1], DiffOp::Insert { new_start: 2, lines } if lines == &vec!["three\n".to_string()]));
}

#[test]
fn changes_list_becomes_one_hunk() {
    let changes = vec![
        (0u8, "a".to_string()),
        (1u8, "b".to_string()),
        (2u8, "c".to_string()),
        (0u8, "d".to_string()),
    ];
    let d = line_diff_from_changes(&changes);
    assert_eq!(d.hunks.len(), 1);
    assert!(!d.is_empty());
}
