use stratum::api::service::new_branch_head;
use stratum::checkpoint::repo::CheckpointRepo;
use stratum::git_sync::gc::{collect_garbage, collect_protected_checkpoints};
use stratum::backup::query::{backup_query, metadata_kept, metadata_passes, BackupFilter, QueryParam};
use stratum::checkpoint::branch::Branch;
use stratum::checkpoint::checkpoint::{Checkpoint, CheckpointMetadata};
use stratum::checkpoint::dag::CheckpointDag;
use stratum::engine::diff::{diff_to_line_diff, groups_to_line_diff};
use stratum::engine::line_ops::RawOp;
use stratum::engine::merge::{apply_deltas, MergeConflict};
use stratum::error::StratumError;
use stratum::layered::staged::{commit_checkpoint, dag_after_commit};
use stratum::layered::unified::{chain_results, three_way_step};
use stratum::layered::{new_baseline, MergeResult};
use stratum::model::delta::{Delta, LineDiff};
use stratum::model::file_node::FileNode;
use stratum::model::snapshot::Snapshot;
use stratum::model::types::{ContentId, DiffOp, SourceType};
use stratum::state_machine::edit_plan;

fn id(b: u8) -> ContentId {
    ContentId([b; 32])
}

fn conflict(line: usize) -> MergeConflict {
    MergeConflict { start_line: line, base: vec!["b".to_string()], ours: vec!["o".to_string()], theirs: vec!["t".to_string()] }
}

#[test]
fn groups_become_hunks_with_one_based_positions() {
    let groups = vec![vec![
        RawOp { tag: 0, old_start: 0, old_end: 1, new_start: 0, new_end: 1 },
        RawOp { tag: 3, old_start: 1, old_end: 2, new_start: 1, new_end: 2 },
    ]];
    let tokens = vec!["a\n".to_string(), "c\n".to_string()];
    let diff = groups_to_line_diff(&groups, &tokens);
    assert_eq!(diff.hunks.len(), 1);
    let h = &diff.hunks[0];
    assert_eq!((h.old_start, h.old_len, h.new_start, h.new_len), (1, 2, 1, 2));
    assert!(matches!(h.ops[0], DiffOp::Equal { count: 1 }));
    match &h.ops[1] {
        DiffOp::Replace { old_start, old_count, new_start, lines } => {
            assert_eq!((*old_start, *old_count, *new_start), (2, 1, 2));
            assert_eq!(lines, &vec!["c".to_string()]);
        },
        other => panic!("unexpected op {:?}", other),
    }
}

#[test]
fn no_groups_give_an_empty_diff() {
    let diff = groups_to_line_diff(&Vec::new(), &vec!["x\n".to_string()]);
    assert!(diff.hunks.is_empty());
}

#[test]
fn applying_the_diff_of_two_texts_rebuilds_the_new_one() {
    let old = "one\ntwo\nthree\nfour\n";
    let new = "one\n2\nthree\nfour\nfive\n";
    let delta = Delta::new(FileNode::new("f.txt".to_string(), old.as_bytes()), diff_to_line_diff(old, new), SourceType::Manual);
    assert_eq!(apply_deltas(old, &[delta]).unwrap(), "one\n2\nthree\nfour\nfive");
}

#[test]
fn equal_texts_have_no_hunks() {
    assert!(diff_to_line_diff("same\ntext\n", "same\ntext\n").hunks.is_empty());
}

#[test]
fn a_taken_branch_name_is_refused() {
    let branches = vec![Branch::new("main", id(1))];
    let cps: Vec<Checkpoint> = Vec::new();
    let e = new_branch_head(&branches, &"main".to_string(), &cps).unwrap_err();
    assert_eq!(e.code, "INVALID_PARAMS");
    assert_eq!(e.message, "branch 'main' already exists");
}

#[test]
fn a_branch_needs_a_checkpoint() {
    let branches = vec![Branch::new("main", id(1))];
    let cps: Vec<Checkpoint> = Vec::new();
    let e = new_branch_head(&branches, &"dev".to_string(), &cps).unwrap_err();
    assert_eq!(e.message, "no checkpoints yet. Make a commit first.");
}

#[test]
fn a_new_branch_starts_at_the_newest_checkpoint() {
    let branches = vec![Branch::new("main", id(1))];
    let newest = Checkpoint::new_single(id(7), vec![id(1)], CheckpointMetadata::new("a", "newest"));
    let older = Checkpoint::new_single(id(6), vec![], CheckpointMetadata::new("a", "older"));
    let newest_id = newest.id;
    let cps = vec![newest, older];
    assert_eq!(new_branch_head(&branches, &"dev".to_string(), &cps).unwrap(), newest_id);
}

#[test]
fn a_commit_checkpoint_has_the_head_as_parent_and_the_staged_snapshot_as_baseline() {
    let cp = commit_checkpoint(id(2), id(9), "msg", "me");
    assert_eq!(cp.parents, vec![id(9)]);
    assert_eq!(cp.baseline_snapshots, vec![id(2)]);
    assert_eq!(cp.metadata.author, "me");
    assert_eq!(cp.metadata.message, "msg");
    let again = commit_checkpoint(id(2), id(9), "msg", "me");
    assert_eq!(cp.id, again.id);
    assert!(cp.id != commit_checkpoint(id(2), id(8), "msg", "me").id);
}

#[test]
fn a_commit_adds_an_edge_from_the_head() {
    let mut dag = CheckpointDag::new();
    dag.add_node(id(1));
    let dag = dag_after_commit(dag, id(1), id(2)).unwrap();
    assert!(dag.has_node(&id(2)));
    assert_eq!(dag.get_children(&id(1)), vec![id(2)]);
    assert_eq!(dag.len(), 2);
}

#[test]
fn chained_merges_keep_the_last_snapshot_and_every_conflict() {
    let results = vec![
        MergeResult { snapshot_id: id(1), conflicts: vec![conflict(0)] },
        MergeResult { snapshot_id: id(2), conflicts: vec![] },
        MergeResult { snapshot_id: id(3), conflicts: vec![conflict(4), conflict(9)] },
    ];
    let r = chain_results(results);
    assert_eq!(r.snapshot_id, id(3));
    let lines: Vec<usize> = r.conflicts.iter().map(|c| c.start_line).collect();
    assert_eq!(lines, vec![0, 4, 9]);
}

#[test]
fn a_baseline_is_an_empty_delta_on_the_file() {
    let (node, delta, snapshot) = new_baseline("a.txt".to_string(), b"hello\n", SourceType::Manual);
    assert_eq!(node.file_path, "a.txt");
    assert_eq!(node.base_hash, FileNode::new("a.txt".to_string(), b"hello\n").base_hash);
    assert!(delta.diff.hunks.is_empty());
    assert_eq!(snapshot.deltas, vec![delta.id]);
    assert!(snapshot.parents.is_empty());
    assert!(!snapshot.has_conflicts);
}

fn base_snapshot() -> Snapshot {
    let (_, _, snapshot) = new_baseline("f.txt".to_string(), b"a\n", SourceType::Manual);
    snapshot
}

#[test]
fn a_three_way_merge_records_the_merged_text() {
    let s = base_snapshot();
    let file = FileNode::new("f.txt".to_string(), b"a\n");
    let (step, conflicts) =
        three_way_step(vec![&s], file, "a\n", "a\nb\n", "a\n", "a\n", SourceType::Manual, "unified".to_string()).unwrap();
    assert!(conflicts.is_empty());
    let (delta, snapshot) = step.unwrap();
    assert_eq!(apply_deltas("a\n", &[delta]).unwrap(), "a\nb");
    assert_eq!(snapshot.parents, vec![s.id]);
    assert!(!snapshot.has_conflicts);
}

#[test]
fn a_three_way_merge_that_changes_nothing_records_nothing() {
    let s = base_snapshot();
    let file = FileNode::new("f.txt".to_string(), b"a\n");
    let (step, conflicts) =
        three_way_step(vec![&s], file, "a\n", "a\nb\n", "a\n", "a\nb", SourceType::Manual, "unified".to_string()).unwrap();
    assert!(conflicts.is_empty());
    assert!(step.is_none());
}

#[test]
fn an_edit_plan_rebuilds_the_current_text() {
    let s = base_snapshot();
    let (text, step) = edit_plan(&s, "x\n", &[], "f.txt", "y\n", SourceType::Manual, "manual".to_string()).unwrap();
    assert_eq!(text, "x");
    assert!(step.is_some());
    let (_, unchanged) = edit_plan(&s, "x\n", &[], "f.txt", "x", SourceType::Manual, "manual".to_string()).unwrap();
    assert!(unchanged.is_none());
}

#[test]
fn an_edit_plan_refuses_a_chain_that_does_not_apply() {
    let s = base_snapshot();
    let bad = Delta::new(
        FileNode::new("f.txt".to_string(), b""),
        LineDiff::new(vec![stratum::model::types::Hunk {
            old_start: 5,
            old_len: 1,
            new_start: 5,
            new_len: 0,
            ops: vec![DiffOp::Delete { old_start: 5, count: 1 }],
        }]),
        SourceType::Manual,
    );
    match edit_plan(&s, "x\n", &[bad], "f.txt", "y\n", SourceType::Manual, "manual".to_string()) {
        Err(StratumError::Engine(_)) => {},
        other => panic!("unexpected {:?}", other.map(|(t, _)| t)),
    }
}

const SELECT_ALL: &str = "SELECT id, source_snapshot, file_path, file_hash, deltas, label, backed_at, metadata, agent_id, source_type
             FROM backup_snapshots WHERE 1=1";

#[test]
fn an_empty_backup_filter_asks_for_every_backup_newest_first() {
    let (sql, params) = backup_query(&BackupFilter::new());
    assert_eq!(sql, format!("{} ORDER BY backed_at DESC", SELECT_ALL));
    assert!(params.is_empty());
}

#[test]
fn a_backup_filter_puts_its_conditions_in_order() {
    let mut filter = BackupFilter::new().with_label("label-a");
    filter.time_range = Some((5, 9));
    filter.source_type = Some("manual".to_string());
    let (sql, params) = backup_query(&filter);
    assert_eq!(
        sql,
        format!(
            "{} AND backed_at >= ? AND backed_at <= ? AND label = ? AND source_type = ? ORDER BY backed_at DESC",
            SELECT_ALL
        )
    );
    assert_eq!(params.len(), 4);
    assert!(matches!(params[0], QueryParam::Int(5)));
    assert!(matches!(params[1], QueryParam::Int(9)));
    assert!(matches!(&params[2], QueryParam::Text(t) if t == "label-a"));
    assert!(matches!(&params[3], QueryParam::Text(t) if t == "manual"));
}

#[test]
fn a_snapshot_condition_passes_the_identifier_bytes() {
    let mut filter = BackupFilter::new();
    filter.source_snapshot = Some(id(4));
    let (sql, params) = backup_query(&filter);
    assert_eq!(sql, format!("{} AND source_snapshot = ? ORDER BY backed_at DESC", SELECT_ALL));
    assert!(matches!(&params[0], QueryParam::Bytes(b) if b == &vec![4u8; 32]));
}

#[test]
fn json_strings_escape_quotes_backslashes_and_control_characters() {
    let mut s = String::new();
    stratum::json::push_json_str(&mut s, "a\"b\\c\nd\u{1}e\u{e9}");
    assert_eq!(s, "\"a\\\"b\\\\c\\nd\\u0001e\u{e9}\"");
}

#[test]
fn ancestors_come_nearest_first() {
    let dag = CheckpointDag::new();
    let parents = vec![(id(4), vec![id(3), id(1)]), (id(3), vec![id(2)]), (id(2), vec![id(1)])];
    assert_eq!(dag.ancestors(&id(4), &parents), vec![id(3), id(1), id(2)]);
}

#[test]
fn the_merge_base_is_the_nearest_common_ancestor() {
    let dag = CheckpointDag::new();
    // 5 and 6 both descend from 2, which descends from 1; 6 also reaches 1
    // through 7, and 2 is one step from 6 where 1 is two.
    let parents = vec![(id(5), vec![id(2)]), (id(6), vec![id(7), id(2)]), (id(7), vec![id(1)]), (id(2), vec![id(1)])];
    assert_eq!(dag.merge_base(&id(5), &id(6), &parents), Some(id(2)));
}

#[test]
fn a_commit_moves_only_the_current_branch() {
    let mut repo = CheckpointRepo::new_single(id(1));
    repo.create_branch("side").unwrap();
    let side_before = (repo.branches[1].created_at, repo.branches[1].updated_at);
    let main_created = repo.branches[0].created_at;
    repo.commit_single(id(2), "second", "me").unwrap();
    assert_eq!((repo.branches[1].created_at, repo.branches[1].updated_at), side_before);
    assert_eq!(repo.branches[0].created_at, main_created);
    assert!(repo.branches[0].updated_at >= main_created);
}

#[test]
fn the_second_parent_of_a_merge_head_is_protected() {
    let mut repo = CheckpointRepo::new_single(id(1));
    let root = repo.current_branch_head();
    repo.create_branch("side").unwrap();
    repo.switch_branch("side").unwrap();
    let side = repo.commit_single(id(2), "side work", "me").unwrap();
    repo.switch_branch("main").unwrap();
    let merge = repo.merge_branches("side", vec![id(3)], "merge", "me").unwrap();
    // The side branch goes back to the root: its work is now reached only as
    // the merge's second parent.
    repo.branches[1].head = root;
    let protected = collect_protected_checkpoints(&repo);
    assert!(protected.contains(&merge));
    assert!(protected.contains(&side));
    assert!(protected.contains(&root));
    let stats = collect_garbage(&mut repo).unwrap();
    assert_eq!(stats.removed_checkpoints, 0);
    assert!(repo.get_checkpoint(&side).is_ok());
}

#[test]
fn absorbing_a_different_text_takes_it_and_makes_a_delta() {
    let file = FileNode::new("f.txt".to_string(), b"a\n");
    let (t, d) = stratum::state_machine::approval::absorb_text("a\nb\n", &file, "a\nc\n").unwrap();
    assert_eq!(t, "a\nc");
    let d = d.unwrap();
    assert!(!d.diff.hunks.is_empty());
    assert!(matches!(d.source, SourceType::Manual));
}

#[test]
fn absorbing_the_same_text_changes_nothing() {
    let file = FileNode::new("f.txt".to_string(), b"a\n");
    let (t, d) = stratum::state_machine::approval::absorb_text("a\nb\n", &file, "a\nb\n").unwrap();
    assert_eq!(t, "a\nb\n");
    assert!(d.is_none());
}

#[test]
fn the_unified_record_is_one_delta_past_unified_with_every_parent() {
    let u = base_snapshot();
    let (_, _, other) = new_baseline("g.txt".to_string(), b"x\n", SourceType::Manual);
    let (delta, snap) = stratum::state_machine::approval::unified_record(vec![&u, &other], "a\n", "a\nb");
    assert_eq!(snap.parents, vec![u.id, other.id]);
    assert_eq!(snap.partition_type, "unified");
    assert_eq!(snap.deltas.len(), u.deltas.len() + 1);
    assert_eq!(snap.deltas[snap.deltas.len() - 1], delta.id);
    assert_eq!(apply_deltas("a\n", &[delta]).unwrap(), "a\nb");
}

#[test]
fn an_unchanged_side_never_conflicts() {
    let (merged, conflicts) = stratum::engine::merge::merge_texts("a\nb\nc\n", "a\nb\nc\n", "a\nX\nc\n");
    assert!(conflicts.is_empty());
    assert_eq!(merged, "a\nX\nc");
    let (merged, conflicts) = stratum::engine::merge::merge_texts("a\nb\n", "a\nb\n", "a\nb\n");
    assert!(conflicts.is_empty());
    assert_eq!(merged, "a\nb");
}

#[test]
fn metadata_condition_keeps_matching_backups() {
    let tagged = vec![("env".to_string(), "prod".to_string()), ("owner".to_string(), "ann".to_string())];
    let other = vec![("env".to_string(), "dev".to_string())];
    let none: Vec<(String, String)> = Vec::new();
    let all = BackupFilter::new();
    assert!(metadata_passes(&all, &none));

    let mut by_key = BackupFilter::new();
    by_key.metadata_key = Some("owner".to_string());
    assert!(metadata_passes(&by_key, &tagged));
    assert!(!metadata_passes(&by_key, &other));

    let mut by_value = BackupFilter::new();
    by_value.metadata_key = Some("env".to_string());
    by_value.metadata_value = Some("dev".to_string());
    let rows = vec![tagged.clone(), other.clone(), none.clone(), other.clone()];
    assert_eq!(metadata_kept(&by_value, &rows), vec![1, 3]);
    assert_eq!(metadata_kept(&by_key, &rows), vec![0]);
    assert_eq!(metadata_kept(&all, &rows), vec![0, 1, 2, 3]);
}
