//! The service API: one entry point per operation, over a storage backend,
//! answering with plain response values or an API error.

use crate::api::types::{
    api_error_view, AgentEditRequest, AgentSubmitRequest, ApiError, ApproveRequest, ApproveResponse, BranchCreateRequest,
    BranchCreateResponse, BranchInfo, BranchListResponse, BranchSwitchRequest, BranchSwitchResponse, CheckpointInfo, CommitRequest,
    CommitResponse, EditRequest, EditResponse, FileDiff, GcRequest, GcResponse, InitRequest, InitResponse, LogRequest, LogResponse,
    MergeRequest, MergeResponse, PartitionInfo, ShowRequest, ShowResponse, StatusResponse, SubmitResponse,
};
use crate::checkpoint::branch::Branch;
use crate::checkpoint::checkpoint::{new_checkpoint_id, Checkpoint};
use crate::cli::output::{layer_name_for_partition, partition_layer_name};
use crate::engine::diff::{diff_to_line_diff, format_unified_diff, spec_line_diff};
use crate::engine::line_ops::{unified_hunks, unified_text};
use crate::error::{storage_text, StratumError};
use crate::layered::staged::{committed, commit_staged_to_checkpoint, ensure_staged_partition, merge_unified_to_staged, staged_partition_id};
use crate::layered::transition::reconstruct_text;
use crate::layered::{ensure_partition, fixed_partition, new_baseline, switched, StateMachine};
use crate::model::snapshot::ids_view;
use crate::model::partition::Partition;
use crate::model::types::{partition_type_name, PartitionTypeV, SourceV, uuid_text, hex_decode_splits_char, is_hex_char, lower_hex_text, spec_hex, AgentInstanceId, CheckpointId, ContentId, DiffOp, DiffOpV, LineDiff, PartitionType, SnapshotId, SourceType};
use crate::state_machine::{agent, approval, manual, edit_recorded};
use crate::layered::two_way_merged;
use crate::checkpoint::repo::{CheckpointRepo, RepoV};
use crate::git_sync::gc::{collect_garbage, max_parents, swept_count};
use crate::checkpoint::dag::node_ids;
use crate::storage::repository::{BranchStore, CheckpointStore, DagStore, DeltaStore, FileNodeStore, LayerStore, MetadataStore, PartitionStore, SnapshotStore};
use crate::text::{append_str, lines_view};
use std::sync::Arc;
use vstd::prelude::*;
use vstd::utf8::encode_utf8;
use vstd::string::StringSliceAdditionalSpecFns;

verus! {

broadcast use vstd::string::group_string_axioms;

/// Service configuration.
#[derive(Debug, Clone)]
pub struct ServiceConfig {
    pub db_path: String,
}

impl Default for ServiceConfig {
    fn default() -> (r: ServiceConfig)
        ensures
            r.db_path@ == ".stratum/stratum.db"@,
    {
        ServiceConfig { db_path: ".stratum/stratum.db".to_string() }
    }
}

/// The API error for a library error: each kind of error gets its code; a
/// storage error carries the storage message, a missing item "<what> not
/// found", a usage error its context and hint.
pub open spec fn api_error_of(e: StratumError) -> (Seq<char>, Seq<char>, Option<Seq<char>>) {
    match e {
        StratumError::Storage(s) => ("STORAGE_ERROR"@, storage_text(s), Some("check database integrity and permissions"@)),
        StratumError::Engine(m) => ("ENGINE_ERROR"@, m@, None),
        StratumError::StateMachine(m) => ("STATE_MACHINE_ERROR"@, m@, None),
        StratumError::Checkpoint(m) => ("CHECKPOINT_ERROR"@, m@, None),
        StratumError::GitSync(m) => ("GIT_SYNC_ERROR"@, m@, None),
        StratumError::Gc(m) => ("GC_ERROR"@, m@, None),
        StratumError::NotFound(m) => ("NOT_FOUND"@, m@ + " not found"@, Some("check that the name or ID is correct"@)),
        StratumError::Cli { context, suggestion } => ("CLI_ERROR"@, context@, match suggestion { Some(s) => Some(s@), None => None }),
        StratumError::Serialization(m) => ("INTERNAL_ERROR"@, "serialization: "@ + m@, None),
        StratumError::General(m) => ("ERROR"@, m@, None),
    }
}

/// Only a Git error is reported with the Git code.
proof fn lemma_not_git_error(e: StratumError)
    requires
        !(e is GitSync),
    ensures
        api_error_of(e).0 != "GIT_SYNC_ERROR"@,
{
    reveal_strlit("GIT_SYNC_ERROR");
    let g = "GIT_SYNC_ERROR"@;
    let c = api_error_of(e).0;
    match e {
        StratumError::Storage(_) => { reveal_strlit("STORAGE_ERROR"); assert(c.len() != g.len()); },
        StratumError::Engine(_) => { reveal_strlit("ENGINE_ERROR"); assert(c.len() != g.len()); },
        StratumError::StateMachine(_) => { reveal_strlit("STATE_MACHINE_ERROR"); assert(c.len() != g.len()); },
        StratumError::Checkpoint(_) => { reveal_strlit("CHECKPOINT_ERROR"); assert(c.len() != g.len()); },
        StratumError::Gc(_) => { reveal_strlit("GC_ERROR"); assert(c.len() != g.len()); },
        StratumError::NotFound(_) => { reveal_strlit("NOT_FOUND"); assert(c.len() != g.len()); },
        StratumError::Cli { .. } => { reveal_strlit("CLI_ERROR"); assert(c.len() != g.len()); },
        StratumError::Serialization(_) => { reveal_strlit("INTERNAL_ERROR"); assert(c[0] != g[0]); },
        StratumError::General(_) => { reveal_strlit("ERROR"); assert(c.len() != g.len()); },
        StratumError::GitSync(_) => {},
    }
}

/// The API error for a library error (see `api_error_of`).
pub fn map_error(e: StratumError) -> (r: ApiError)
    ensures
        api_error_view(r) == api_error_of(e),
        r.details is None,
{
    match e {
        StratumError::Storage(se) => ApiError::storage(se.to_string()),
        StratumError::Engine(s) => ApiError::engine(s),
        StratumError::StateMachine(s) => ApiError::state_machine(s),
        StratumError::Checkpoint(s) => ApiError::checkpoint(s),
        StratumError::GitSync(s) => ApiError::git_sync(s),
        StratumError::Gc(s) => ApiError::gc(s),
        StratumError::NotFound(s) => ApiError::not_found(s),
        StratumError::Cli { context, suggestion } => ApiError {
            code: "CLI_ERROR".to_string(),
            message: context,
            suggestion,
            details: None,
        },
        StratumError::Serialization(s) => {
            let mut m = "serialization: ".to_string();
            crate::text::append_str(&mut m, s.as_str());
            ApiError::internal(m)
        },
        StratumError::General(s) => ApiError::general(s),
    }
}

/// A snapshot identifier in hexadecimal.
pub fn snapshot_id_to_hex(id: &SnapshotId) -> (r: String)
    ensures
        r@ == spec_hex(id.0@),
{
    id.to_hex()
}

/// The identifiers in hexadecimal.
fn hex_all(ids: &Vec<ContentId>) -> (r: Vec<String>)
    ensures
        r@.len() == ids@.len(),
        forall|i: int| 0 <= i < r@.len() ==> (#[trigger] r@[i])@ == spec_hex(ids@[i].0@),
{
    let mut r: Vec<String> = Vec::new();
    let mut i: usize = 0;
    while i < ids.len()
        invariant
            i <= ids@.len(),
            r@.len() == i,
            forall|j: int| 0 <= j < i ==> (#[trigger] r@[j])@ == spec_hex(ids@[j].0@),
        decreases ids@.len() - i,
    {
        r.push(ids[i].to_hex());
        i += 1;
    }
    r
}

/// A checkpoint as the API presents it: identifiers in hexadecimal.
pub fn checkpoint_to_info(cp: &Checkpoint) -> (r: CheckpointInfo)
    ensures
        r.id@ == spec_hex(cp@.id),
        r.author@ == cp@.metadata.author,
        r.message@ == cp@.metadata.message,
        r.parents@.len() == cp@.parents.len(),
        forall|i: int| 0 <= i < r.parents@.len() ==> (#[trigger] r.parents@[i])@ == spec_hex(cp@.parents[i]),
        r.snapshots@.len() == cp@.baselines.len(),
        forall|i: int| 0 <= i < r.snapshots@.len() ==> (#[trigger] r.snapshots@[i])@ == spec_hex(cp@.baselines[i]),
        r.created_at == cp.created_at,
        (match r.git_anchor { Some(a) => Some(a@), None => None }) == cp@.metadata.git_anchor,
{
    CheckpointInfo {
        id: cp.id.to_hex(),
        author: cp.metadata.author.clone(),
        message: cp.metadata.message.clone(),
        parents: hex_all(&cp.parents),
        snapshots: hex_all(&cp.baseline_snapshots),
        created_at: cp.created_at,
        git_anchor: match &cp.metadata.git_anchor { Some(a) => Some(a.clone()), None => None },
    }
}

/// A branch as the API presents it: its head in hexadecimal and the time it
/// last moved in decimal.
pub fn branch_to_info(b: &Branch) -> (r: BranchInfo)
    ensures
        r.name@ == b.name@,
        r.head@ == spec_hex(b.head.0@),
        r.updated_at@ == crate::text::dec_signed(b.updated_at as int),
        !r.is_current,
{
    BranchInfo {
        name: b.name.clone(),
        head: b.head.to_hex(),
        updated_at: {
            let mut t = String::new();
            crate::text::push_dec_signed(&mut t, b.updated_at);
            t
        },
        is_current: false,
    }
}

/// A partition as the status table shows it: its layer, name, current
/// snapshot in hexadecimal and number of snapshots in its history.
pub open spec fn info_shows(i: PartitionInfo, p: Partition) -> bool {
    &&& i.layer@ == partition_layer_name(p.partition_type@)
    &&& i.name@ == p.name@
    &&& i.current_snapshot@ == spec_hex(p.current_snapshot.0@)
    &&& i.history_len == p.history@.len()
}

/// Whether `rows` are the status rows of `ps`, one per partition, in order.
pub open spec fn rows_show(rows: Seq<PartitionInfo>, ps: Seq<Partition>) -> bool {
    &&& rows.len() == ps.len()
    &&& forall|i: int| 0 <= i < rows.len() ==> info_shows(#[trigger] rows[i], ps[i])
}

/// Whether `rows` are the status rows of some list of partitions.
pub open spec fn rows_of_some(rows: Seq<PartitionInfo>) -> bool {
    exists|ps: Seq<Partition>| #[trigger] rows_show(rows, ps)
}

/// The status rows of some partitions, one per partition, in order.
pub fn partition_infos(partitions: &Vec<Partition>) -> (r: Vec<PartitionInfo>)
    ensures
        r@.len() == partitions@.len(),
        forall|i: int| 0 <= i < r@.len() ==> info_shows(#[trigger] r@[i], partitions@[i]),
{
    let mut infos: Vec<PartitionInfo> = Vec::new();
    let mut i: usize = 0;
    while i < partitions.len()
        invariant
            i <= partitions@.len(),
            infos@.len() == i,
            forall|j: int| 0 <= j < i ==> info_shows(#[trigger] infos@[j], partitions@[j]),
        decreases partitions@.len() - i,
    {
        let p = &partitions[i];
        infos.push(PartitionInfo {
            layer: layer_name_for_partition(&p.partition_type),
            name: p.name.clone(),
            current_snapshot: p.current_snapshot.to_hex(),
            history_len: p.history.len(),
        });
        i += 1;
    }
    infos
}

/// Whether a branch entry shows a branch (see `branch_to_info`).
pub open spec fn branch_shows(i: BranchInfo, b: Branch) -> bool {
    &&& i.name@ == b.name@
    &&& i.head@ == spec_hex(b.head.0@)
    &&& i.updated_at@ == crate::text::dec_signed(b.updated_at as int)
    &&& !i.is_current
}

/// Whether `entries` are the entries of `bs`, one per branch, in order.
pub open spec fn entries_show(entries: Seq<BranchInfo>, bs: Seq<Branch>) -> bool {
    &&& entries.len() == bs.len()
    &&& forall|i: int| 0 <= i < entries.len() ==> branch_shows(#[trigger] entries[i], bs[i])
}

/// The entries of some branches, one per branch, in order.
pub fn branch_infos(branches: &Vec<Branch>) -> (r: Vec<BranchInfo>)
    ensures
        r@.len() == branches@.len(),
        forall|i: int| 0 <= i < r@.len() ==> branch_shows(#[trigger] r@[i], branches@[i]),
{
    let mut infos: Vec<BranchInfo> = Vec::new();
    let mut i: usize = 0;
    while i < branches.len()
        invariant
            i <= branches@.len(),
            infos@.len() == i,
            forall|j: int| 0 <= j < i ==> branch_shows(#[trigger] infos@[j], branches@[j]),
        decreases branches@.len() - i,
    {
        infos.push(branch_to_info(&branches[i]));
        i += 1;
    }
    infos
}

/// The names of the integration partitions among some partitions, in order.
pub open spec fn integration_names(ps: Seq<Partition>) -> Seq<Seq<char>>
    decreases ps.len(),
{
    if ps.len() == 0 {
        seq![]
    } else {
        let rest = integration_names(ps.drop_last());
        match ps.last().partition_type {
            PartitionType::Integrated(n) => rest.push(n@),
            _ => rest,
        }
    }
}

/// The names of the integration partitions among some partitions, in order.
pub fn integrated_names(partitions: &Vec<Partition>) -> (r: Vec<String>)
    ensures
        crate::text::lines_view(r@) == integration_names(partitions@),
{
    let mut names: Vec<String> = Vec::new();
    let mut i: usize = 0;
    while i < partitions.len()
        invariant
            i <= partitions@.len(),
            crate::text::lines_view(names@) == integration_names(partitions@.take(i as int)),
        decreases partitions@.len() - i,
    {
        proof {
            assert(partitions@.take(i + 1).drop_last() =~= partitions@.take(i as int));
            assert(partitions@.take(i + 1).last() == partitions@[i as int]);
        }
        let ghost before = names@;
        match &partitions[i].partition_type {
            PartitionType::Integrated(name) => {
                names.push(name.clone());
                proof {
                    assert(crate::text::lines_view(names@) =~= crate::text::lines_view(before).push(name@));
                }
            },
            _ => {},
        }
        i += 1;
    }
    proof {
        assert(partitions@.take(partitions@.len() as int) =~= partitions@);
    }
    names
}

/// Whether `r` is the log of the first `count` of `cps` (all when fewer).
pub open spec fn log_shows(r: LogResponse, cps: Seq<Checkpoint>, count: int) -> bool {
    &&& r.total == r.checkpoints@.len()
    &&& r.total == if count < cps.len() { count } else { cps.len() as int }
    &&& forall|i: int| 0 <= i < r.total ==> (#[trigger] r.checkpoints@[i]).id@ == spec_hex(cps[i]@.id)
        && r.checkpoints@[i].author@ == cps[i]@.metadata.author
        && r.checkpoints@[i].message@ == cps[i]@.metadata.message
        && r.checkpoints@[i].created_at == cps[i].created_at
}

/// Whether a garbage-collection answer reports a collection over the
/// repository `o`: the number of checkpoints swept (as `usize`), as many
/// snapshots, and whether some checkpoint has more than 100 parents.
pub open spec fn gc_reports(resp: GcResponse, o: RepoV) -> bool {
    let ids = node_ids(o.dag);
    &&& resp.removed_checkpoints == swept_count(ids, o, ids.len() as int) as usize
    &&& resp.removed_snapshots == swept_count(ids, o, ids.len() as int) as usize
    &&& resp.delta_chain_depth_triggered == (max_parents(ids, o.checkpoints, ids.len() as int) > 100)
}

/// Whether a garbage-collection answer reports a collection over some repository.
pub open spec fn gc_of_some(resp: GcResponse) -> bool {
    exists|o: RepoV| #[trigger] gc_reports(resp, o)
}

/// Whether `r` is the log of the first `count` of some list of checkpoints.
pub open spec fn log_of_some(r: LogResponse, count: int) -> bool {
    exists|cps: Seq<Checkpoint>| #[trigger] log_shows(r, cps, count)
}

/// How many checkpoints a log asks for: the count given, else 20.
pub open spec fn log_count(count: Option<usize>) -> int {
    match count {
        Some(c) => c as int,
        None => 20,
    }
}

/// The log entries of the first `count` checkpoints (all when fewer).
pub fn log_infos(checkpoints: &Vec<Checkpoint>, count: usize) -> (r: LogResponse)
    ensures
        log_shows(r, checkpoints@, count as int),
{
    let mut infos: Vec<CheckpointInfo> = Vec::new();
    let mut i: usize = 0;
    while i < checkpoints.len() && i < count
        invariant
            i <= checkpoints@.len(),
            i <= count,
            infos@.len() == i,
            forall|j: int| 0 <= j < i ==> (#[trigger] infos@[j]).id@ == spec_hex(checkpoints@[j]@.id)
                && infos@[j].author@ == checkpoints@[j]@.metadata.author
                && infos@[j].message@ == checkpoints@[j]@.metadata.message
                && infos@[j].created_at == checkpoints@[j].created_at,
        decreases checkpoints@.len() - i,
    {
        infos.push(checkpoint_to_info(&checkpoints[i]));
        i += 1;
    }
    let total = infos.len();
    LogResponse { checkpoints: infos, total }
}

/// Lines put in by a list of operations (inserts and the new side of replaces).
pub open spec fn ops_added(ops: Seq<DiffOpV>) -> int
    decreases ops.len(),
{
    if ops.len() == 0 {
        0
    } else {
        ops_added(ops.drop_last()) + match ops.last() {
            DiffOpV::Insert { lines, .. } => lines.len() as int,
            DiffOpV::Replace { lines, .. } => lines.len() as int,
            _ => 0,
        }
    }
}

/// Lines taken out by a list of operations (deletes and the old side of replaces).
pub open spec fn ops_removed(ops: Seq<DiffOpV>) -> int
    decreases ops.len(),
{
    if ops.len() == 0 {
        0
    } else {
        ops_removed(ops.drop_last()) + match ops.last() {
            DiffOpV::Delete { count, .. } => count as int,
            DiffOpV::Replace { old_count, .. } => old_count as int,
            _ => 0,
        }
    }
}

/// Lines put in over a diff.
pub open spec fn diff_added(hs: Seq<crate::model::types::HunkV>) -> int
    decreases hs.len(),
{
    if hs.len() == 0 { 0 } else { diff_added(hs.drop_last()) + ops_added(hs.last().ops) }
}

/// Lines taken out over a diff.
pub open spec fn diff_removed(hs: Seq<crate::model::types::HunkV>) -> int
    decreases hs.len(),
{
    if hs.len() == 0 { 0 } else { diff_removed(hs.drop_last()) + ops_removed(hs.last().ops) }
}

proof fn lemma_ops_counts(ops: Seq<DiffOpV>, i: int)
    requires
        0 <= i <= ops.len(),
    ensures
        0 <= ops_added(ops.take(i)) <= ops_added(ops),
        0 <= ops_removed(ops.take(i)) <= ops_removed(ops),
    decreases ops.len() - i,
{
    lemma_ops_nonneg(ops.take(i));
    if i < ops.len() {
        lemma_ops_counts(ops, i + 1);
        assert(ops.take(i + 1).drop_last() =~= ops.take(i));
    } else {
        assert(ops.take(i) =~= ops);
        lemma_ops_nonneg(ops);
    }
}

proof fn lemma_ops_nonneg(ops: Seq<DiffOpV>)
    ensures
        ops_added(ops) >= 0,
        ops_removed(ops) >= 0,
    decreases ops.len(),
{
    if ops.len() > 0 {
        lemma_ops_nonneg(ops.drop_last());
    }
}

proof fn lemma_diff_counts(hs: Seq<crate::model::types::HunkV>, i: int)
    requires
        0 <= i <= hs.len(),
    ensures
        0 <= diff_added(hs.take(i)) <= diff_added(hs),
        0 <= diff_removed(hs.take(i)) <= diff_removed(hs),
    decreases hs.len() - i,
{
    lemma_diff_nonneg(hs.take(i));
    if i < hs.len() {
        lemma_diff_counts(hs, i + 1);
        assert(hs.take(i + 1).drop_last() =~= hs.take(i));
        lemma_ops_nonneg(hs[i].ops);
    } else {
        assert(hs.take(i) =~= hs);
        lemma_diff_nonneg(hs);
    }
}

proof fn lemma_diff_nonneg(hs: Seq<crate::model::types::HunkV>)
    ensures
        diff_added(hs) >= 0,
        diff_removed(hs) >= 0,
    decreases hs.len(),
{
    if hs.len() > 0 {
        lemma_diff_nonneg(hs.drop_last());
        lemma_ops_nonneg(hs.last().ops);
    }
}

/// The lines a diff puts in and takes out (a replace counts both ways: its
/// new lines in, its old count out).
pub fn diff_stats(diff: &LineDiff) -> (r: (usize, usize))
    requires
        diff_added(diff@) <= usize::MAX,
        diff_removed(diff@) <= usize::MAX,
    ensures
        r.0 == diff_added(diff@),
        r.1 == diff_removed(diff@),
{
    let mut inserts: usize = 0;
    let mut deletes: usize = 0;
    let mut h: usize = 0;
    while h < diff.hunks.len()
        invariant
            h <= diff.hunks@.len(),
            diff@.len() == diff.hunks@.len(),
            diff_added(diff@) <= usize::MAX,
            diff_removed(diff@) <= usize::MAX,
            inserts == diff_added(diff@.take(h as int)),
            deletes == diff_removed(diff@.take(h as int)),
        decreases diff.hunks@.len() - h,
    {
        let hunk = &diff.hunks[h];
        let ghost ops = hunk@.ops;
        proof {
            let t = diff@.take(h + 1);
            assert(t.drop_last() =~= diff@.take(h as int));
            assert(t.last() == hunk@);
            lemma_diff_counts(diff@, h + 1);
        }
        let ghost i0 = inserts as int;
        let ghost d0 = deletes as int;
        let mut k: usize = 0;
        while k < hunk.ops.len()
            invariant
                k <= hunk.ops@.len(),
                ops == hunk@.ops,
                ops.len() == hunk.ops@.len(),
                i0 + ops_added(ops) <= usize::MAX,
                d0 + ops_removed(ops) <= usize::MAX,
                inserts == i0 + ops_added(ops.take(k as int)),
                deletes == d0 + ops_removed(ops.take(k as int)),
            decreases hunk.ops@.len() - k,
        {
            proof {
                let t = ops.take(k + 1);
                assert(t.drop_last() =~= ops.take(k as int));
                assert(t.last() == hunk.ops@[k as int]@);
                lemma_ops_counts(ops, k + 1);
            }
            match &hunk.ops[k] {
                DiffOp::Insert { lines, .. } => {
                    inserts = inserts + lines.len();
                },
                DiffOp::Delete { count, .. } => {
                    deletes = deletes + *count as usize;
                },
                DiffOp::Replace { old_count, lines, .. } => {
                    deletes = deletes + *old_count as usize;
                    inserts = inserts + lines.len();
                },
                DiffOp::Equal { .. } => {},
            }
            k += 1;
        }
        proof {
            assert(ops.take(ops.len() as int) =~= ops);
        }
        h += 1;
    }
    proof {
        assert(diff@.take(diff.hunks@.len() as int) =~= diff@);
    }
    (inserts, deletes)
}


/// The lines a diff puts in and takes out (see `diff_stats`), or `None` when
/// either count does not fit in a `usize`.
pub fn checked_diff_stats(diff: &LineDiff) -> (r: Option<(usize, usize)>)
    ensures
        r is Some <==> diff_added(diff@) <= usize::MAX && diff_removed(diff@) <= usize::MAX,
        r matches Some(p) ==> p.0 == diff_added(diff@) && p.1 == diff_removed(diff@),
{
    let mut inserts: u128 = 0;
    let mut deletes: u128 = 0;
    let mut h: usize = 0;
    while h < diff.hunks.len()
        invariant
            h <= diff.hunks@.len(),
            diff@.len() == diff.hunks@.len(),
            inserts == diff_added(diff@.take(h as int)),
            deletes == diff_removed(diff@.take(h as int)),
            inserts <= usize::MAX,
            deletes <= usize::MAX,
        decreases diff.hunks@.len() - h,
    {
        let hunk = &diff.hunks[h];
        let ghost ops = hunk@.ops;
        proof {
            let t = diff@.take(h + 1);
            assert(t.drop_last() =~= diff@.take(h as int));
            assert(t.last() == hunk@);
            lemma_diff_counts(diff@, h + 1);
            lemma_ops_nonneg(ops);
        }
        let ghost i0 = inserts as int;
        let ghost d0 = deletes as int;
        let mut k: usize = 0;
        while k < hunk.ops.len()
            invariant
                k <= hunk.ops@.len(),
                ops == hunk@.ops,
                ops.len() == hunk.ops@.len(),
                inserts == i0 + ops_added(ops.take(k as int)),
                deletes == d0 + ops_removed(ops.take(k as int)),
                inserts <= usize::MAX,
                deletes <= usize::MAX,
                i0 + ops_added(ops) == diff_added(diff@.take(h + 1)),
                d0 + ops_removed(ops) == diff_removed(diff@.take(h + 1)),
                diff_added(diff@.take(h + 1)) <= diff_added(diff@),
                diff_removed(diff@.take(h + 1)) <= diff_removed(diff@),
            decreases hunk.ops@.len() - k,
        {
            proof {
                let t = ops.take(k + 1);
                assert(t.drop_last() =~= ops.take(k as int));
                assert(t.last() == hunk.ops@[k as int]@);
                lemma_ops_counts(ops, k + 1);
            }
            match &hunk.ops[k] {
                DiffOp::Insert { lines, .. } => {
                    inserts = inserts + lines.len() as u128;
                },
                DiffOp::Delete { count, .. } => {
                    deletes = deletes + *count as u128;
                },
                DiffOp::Replace { old_count, lines, .. } => {
                    deletes = deletes + *old_count as u128;
                    inserts = inserts + lines.len() as u128;
                },
                DiffOp::Equal { .. } => {},
            }
            if inserts > usize::MAX as u128 || deletes > usize::MAX as u128 {
                proof {
                    lemma_ops_counts(ops, k + 1);
                }
                return None;
            }
            k += 1;
        }
        proof {
            assert(ops.take(ops.len() as int) =~= ops);
        }
        h += 1;
    }
    proof {
        assert(diff@.take(diff.hunks@.len() as int) =~= diff@);
    }
    Some((inserts as usize, deletes as usize))
}

// ---------------------------------------------------------------------------
// The service
// ---------------------------------------------------------------------------

/// The author of a commit: the one given, else `user`.
pub open spec fn commit_author(a: Option<String>) -> Seq<char> {
    match a {
        Some(a) => a@,
        None => "user"@,
    }
}

/// The message of a merge: the one given, else `merge`.
pub open spec fn merge_message(m: Option<String>) -> Seq<char> {
    match m {
        Some(m) => m@,
        None => "merge"@,
    }
}

/// The message for an edit request without content.
pub open spec fn missing_content_msg() -> Seq<char> {
    "edit content is required (provide via -c/--content or pipe via stdin)"@
}

/// The error for an edit request without content.
pub open spec fn missing_content_error() -> (Seq<char>, Seq<char>, Option<Seq<char>>) {
    ("INVALID_PARAMS"@, missing_content_msg(), Some("check the provided parameters"@))
}

/// An `INVALID_PARAMS` error with this message.
pub open spec fn invalid_params_error(m: Seq<char>) -> (Seq<char>, Seq<char>, Option<Seq<char>>) {
    ("INVALID_PARAMS"@, m, Some("check the provided parameters"@))
}

fn missing_content() -> (r: ApiError)
    ensures
        api_error_view(r) == missing_content_error(),
{
    ApiError::invalid_params("edit content is required (provide via -c/--content or pipe via stdin)".to_string())
}

fn storage_error(e: crate::error::StorageError) -> (r: ApiError)
    ensures
        r.code@ == "STORAGE_ERROR"@,
{
    map_error(StratumError::Storage(e))
}

/// Whether a branch in `branches` has the name `name`.
pub open spec fn branch_named(branches: Seq<Branch>, name: Seq<char>) -> bool {
    exists|i: int| 0 <= i < branches.len() && (#[trigger] branches[i]).name@ == name
}

/// The message that refuses a branch name that is taken.
pub open spec fn branch_exists_msg(name: Seq<char>) -> Seq<char> {
    "branch '"@ + name + "' already exists"@
}

/// The message that refuses a branch when there is no checkpoint.
pub open spec fn no_checkpoints_msg() -> Seq<char> {
    "no checkpoints yet. Make a commit first."@
}

/// Whether a new branch named `name` is placed at the checkpoint whose
/// identifier is written `h`, for the branches `bs` and checkpoints `cps`
/// (newest first) read: no branch has the name, and `h` is the newest
/// checkpoint (see `new_branch_head`).
pub open spec fn branch_placed_over(bs: Seq<Branch>, cps: Seq<Checkpoint>, name: Seq<char>, h: Seq<char>) -> bool {
    &&& !branch_named(bs, name)
    &&& cps.len() > 0
    &&& h == spec_hex(cps[0].id.0@)
}

/// Whether a new branch named `name` is placed at `h` for some branches and
/// checkpoints read (see `branch_placed_over`).
pub open spec fn branch_placed(name: Seq<char>, h: Seq<char>) -> bool {
    exists|bs: Seq<Branch>, cps: Seq<Checkpoint>| #[trigger] branch_placed_over(bs, cps, name, h)
}

/// Where a new branch named `name` starts, given the stored branches and the
/// stored checkpoints (newest first): refused when a branch has the name,
/// else at the newest checkpoint, refused when there is none.
pub fn new_branch_head(branches: &Vec<Branch>, name: &String, checkpoints: &Vec<Checkpoint>) -> (r: Result<SnapshotId, ApiError>)
    ensures
        branch_named(branches@, name@) ==> (r matches Err(e) && api_error_view(e) == invalid_params_error(branch_exists_msg(name@))),
        !branch_named(branches@, name@) && checkpoints@.len() == 0 ==> (r matches Err(e) && api_error_view(e)
            == invalid_params_error(no_checkpoints_msg())),
        !branch_named(branches@, name@) && checkpoints@.len() > 0 ==> r == Ok::<SnapshotId, ApiError>(checkpoints@[0].id),
{
    let mut i: usize = 0;
    while i < branches.len()
        invariant
            i <= branches@.len(),
            forall|j: int| 0 <= j < i ==> (#[trigger] branches@[j]).name@ != name@,
        decreases branches@.len() - i,
    {
        if branches[i].name == *name {
            let mut m = "branch '".to_string();
            append_str(&mut m, name.as_str());
            append_str(&mut m, "' already exists");
            return Err(ApiError::invalid_params(m));
        }
        i += 1;
    }
    if checkpoints.len() > 0 {
        Ok(checkpoints[0].id)
    } else {
        Err(ApiError::invalid_params("no checkpoints yet. Make a commit first.".to_string()))
    }
}

/// Whether `h` is the hexadecimal form of a snapshot that an edit of the
/// partition `pid` recorded (see `edit_recorded`).
pub open spec fn edit_shown(pid: Seq<u8>, file: Seq<char>, content: Seq<char>, source: SourceV, ptype: Seq<char>, h: Seq<char>) -> bool {
    exists|id: SnapshotId, src: SourceType| src@ == source && #[trigger] edit_recorded(pid, file, content, src, ptype, id) && h == spec_hex(id.0@)
}

/// Whether `h` is the hexadecimal form of a snapshot that a two-way merge of
/// the partition `qid` into `pid` gave (see `two_way_merged`).
pub open spec fn merge_shown(pid: Seq<u8>, qid: Seq<u8>, ptype: Seq<char>, h: Seq<char>) -> bool {
    exists|id: SnapshotId| #[trigger] two_way_merged(pid, qid, ptype, id) && h == spec_hex(id.0@)
}

/// The service over a storage backend: every operation of the pipeline, the
/// checkpoints and the branches, answered with plain response values.
pub struct ApiServiceImpl<S> {
    storage: Arc<S>,
    state_machine: StateMachine<S>,
    db_path: String,
}

impl<S: PartitionStore + SnapshotStore + DeltaStore + FileNodeStore + BranchStore + CheckpointStore + DagStore + LayerStore + MetadataStore> ApiServiceImpl<S> {
    /// The service over `storage`, for the repository at `config.db_path`.
    pub fn new(storage: Arc<S>, config: ServiceConfig) -> (r: Self)
        ensures
            r.db_path()@ == config.db_path@,
    {
        let state_machine = StateMachine::new(storage.clone());
        ApiServiceImpl { storage, state_machine, db_path: config.db_path }
    }

    /// The repository path the service was opened for.
    pub closed spec fn db_path(&self) -> String {
        self.db_path
    }

    /// Initialises a repository: the empty baseline of `.stratum/init` (see
    /// `new_baseline`) is recorded, the manual_edit and staged partitions are
    /// made to point at it (when absent), and the checkpoint repository is
    /// loaded, which records the root checkpoint and branch `main` in an
    /// empty store (see `CheckpointRepo::load`). Importing from a Git
    /// repository needs the Git bridge and is refused with a Git error.
    pub fn init(&self, req: InitRequest) -> (r: Result<InitResponse, ApiError>)
        ensures
            req.git_repo is Some ==> (r matches Err(e) && e.code@ == "GIT_SYNC_ERROR"@),
            (r matches Err(e) && e.code@ == "GIT_SYNC_ERROR"@) ==> req.git_repo is Some,
            r matches Ok(resp) ==> resp.branch@ == "main"@ && resp.db_path@ == (match req.db_path {
                Some(p) => p@,
                None => self.db_path()@,
            }),
            r matches Ok(resp) ==> resp.manual_partition_id@ == uuid_text(Seq::new(15, |i: int| 0u8).push(1u8))
                && resp.staged_partition_id@ == uuid_text(seq![0x60u8] + Seq::new(15, |i: int| 0u8)),
    {
        let db_path = match &req.db_path {
            Some(p) => p.clone(),
            None => self.db_path.clone(),
        };
        if req.git_repo.is_some() {
            return Err(ApiError::git_sync("importing from a Git repository needs the Git bridge".to_string()));
        }
        let storage: &S = &*self.storage;
        let (file_node, empty, initial) = new_baseline(".stratum/init".to_string(), &[], SourceType::Manual);
        if let Err(e) = storage.store_file_node(&file_node, &[]) {
            let ae = storage_error(e);
            proof {
                assert(ae.code@ != "GIT_SYNC_ERROR"@) by {
                    reveal_strlit("STORAGE_ERROR");
                    reveal_strlit("GIT_SYNC_ERROR");
                    assert(ae.code@.len() != "GIT_SYNC_ERROR"@.len());
                }
            }
            return Err(ae);
        }
        if let Err(e) = storage.store_delta(&empty) {
            let ae = storage_error(e);
            proof {
                assert(ae.code@ != "GIT_SYNC_ERROR"@) by {
                    reveal_strlit("STORAGE_ERROR");
                    reveal_strlit("GIT_SYNC_ERROR");
                    assert(ae.code@.len() != "GIT_SYNC_ERROR"@.len());
                }
            }
            return Err(ae);
        }
        if let Err(e) = storage.store_snapshot(&initial, &[]) {
            let ae = storage_error(e);
            proof {
                assert(ae.code@ != "GIT_SYNC_ERROR"@) by {
                    reveal_strlit("STORAGE_ERROR");
                    reveal_strlit("GIT_SYNC_ERROR");
                    assert(ae.code@.len() != "GIT_SYNC_ERROR"@.len());
                }
            }
            return Err(ae);
        }
        let manual_partition = match ensure_partition(
            storage,
            fixed_partition(manual::manual_partition_id(), "manual_edit".to_string(), initial.id, PartitionType::Manual),
        ) {
            Ok(p) => p,
            Err(e) => {
                proof {
                    lemma_not_git_error(e);
                }
                return Err(map_error(e));
            },
        };
        let staged_partition = match ensure_staged_partition(storage, initial.id) {
            Ok(p) => p,
            Err(e) => {
                proof {
                    lemma_not_git_error(e);
                }
                return Err(map_error(e));
            },
        };
        if let Err(e) = CheckpointRepo::load(storage) {
            proof {
                lemma_not_git_error(e);
            }
            return Err(map_error(e));
        }
        Ok(InitResponse {
            db_path,
            manual_partition_id: manual_partition.id.to_string(),
            staged_partition_id: staged_partition.id.to_string(),
            branch: "main".to_string(),
        })
    }

    /// Every partition with its layer, current snapshot and history length.
    pub fn status(&self) -> (r: Result<StatusResponse, ApiError>)
        ensures
            r matches Err(e) ==> e.code@ == "STORAGE_ERROR"@,
            r matches Ok(resp) ==> rows_of_some(resp.partitions@),
    {
        let partitions = match self.storage.list_partitions() {
            Ok(ps) => ps,
            Err(e) => return Err(storage_error(e)),
        };
        let infos = partition_infos(&partitions);
        let resp = StatusResponse { partitions: infos };
        proof {
            assert(rows_show(resp.partitions@, partitions@));
            assert(rows_of_some(resp.partitions@));
        }
        Ok(resp)
    }

    /// Records a human edit and merges manual_edit into staged; the staged
    /// snapshot is absent from the answer when that merge fails.
    pub fn edit(&self, req: EditRequest) -> (r: Result<EditResponse, ApiError>)
        ensures
            req.content is None ==> (r matches Err(e) && api_error_view(e) == missing_content_error()),
            r matches Ok(resp) ==> edit_shown(Seq::new(15, |i: int| 0u8).push(1u8), req.file@, req.content->0@, SourceV::Manual,
                partition_type_name(PartitionTypeV::Manual), resp.snapshot_id@),
            r matches Ok(resp) ==> (resp.staged_snapshot_id matches Some(h) ==> merge_shown(seq![0x60u8] + Seq::new(15, |i: int| 0u8),
                Seq::new(15, |i: int| 0u8).push(1u8), partition_type_name(PartitionTypeV::Staged), h@)),
    {
        let content = match &req.content {
            Some(c) => c,
            None => return Err(missing_content()),
        };
        let storage: &S = &*self.storage;
        let snapshot_id = match manual::apply_manual_edit(storage, req.file.as_str(), content.as_str()) {
            Ok(id) => id,
            Err(e) => return Err(map_error(e)),
        };
        let staged = match manual::merge_manual_to_staged(storage) {
            Ok(id) => {
                let h = id.to_hex();
                proof {
                    assert(merge_shown(seq![0x60u8] + Seq::new(15, |i: int| 0u8), Seq::new(15, |i: int| 0u8).push(1u8),
                        partition_type_name(PartitionTypeV::Staged), h@));
                }
                Some(h)
            },
            Err(_) => None,
        };
        let h = snapshot_id.to_hex();
        proof {
            assert(SourceType::Manual@ == SourceV::Manual);
            assert(edit_shown(Seq::new(15, |i: int| 0u8).push(1u8), req.file@, content@, SourceV::Manual,
                partition_type_name(PartitionTypeV::Manual), h@));
        }
        Ok(EditResponse { snapshot_id: h, staged_snapshot_id: staged })
    }

    /// Records an agent's edit in the agent's partition, which is created at
    /// the staged snapshot (or, without a staged partition, at a new baseline
    /// of the content) when absent.
    pub fn agent_edit(&self, req: AgentEditRequest) -> (r: Result<EditResponse, ApiError>)
        ensures
            req.content is None ==> (r matches Err(e) && api_error_view(e) == missing_content_error()),
            r matches Ok(resp) ==> resp.staged_snapshot_id is None,
            r matches Ok(resp) ==> edit_shown(crate::state_machine::mixed_bytes(0x20, encode_utf8(req.agent_id@)), req.file@,
                req.content->0@, SourceV::Agent(req.agent_id@), partition_type_name(PartitionTypeV::Agent(req.agent_id@)), resp.snapshot_id@),
    {
        let content = match &req.content {
            Some(c) => c,
            None => return Err(missing_content()),
        };
        let agent_instance = AgentInstanceId(req.agent_id.clone());
        let storage: &S = &*self.storage;
        let initial_snapshot = match storage.get_partition(&staged_partition_id()) {
            Ok(p) => p.current_snapshot,
            Err(_) => {
                let (file_node, delta, snapshot) = new_baseline(
                    req.file.clone(),
                    content.as_str().as_bytes(),
                    SourceType::Agent(agent_instance.clone()),
                );
                if let Err(e) = storage.store_file_node(&file_node, content.as_str().as_bytes()) {
                    return Err(storage_error(e));
                }
                if let Err(e) = storage.store_delta(&delta) {
                    return Err(storage_error(e));
                }
                if let Err(e) = storage.store_snapshot(&snapshot, content.as_str().as_bytes()) {
                    return Err(storage_error(e));
                }
                snapshot.id
            },
        };
        let mut name = "agent_edit/".to_string();
        append_str(&mut name, req.agent_id.as_str());
        let agent_partition = fixed_partition(
            agent::agent_partition_id(&agent_instance),
            name,
            initial_snapshot,
            PartitionType::Agent(agent_instance.clone()),
        );
        if let Err(e) = ensure_partition(storage, agent_partition) {
            return Err(map_error(e));
        }
        match agent::apply_agent_edit(storage, &agent_instance, req.file.as_str(), content.as_str()) {
            Ok(id) => {
                let h = id.to_hex();
                proof {
                    assert(agent_instance.0@ == req.agent_id@);
                    assert(edit_shown(crate::state_machine::mixed_bytes(0x20, encode_utf8(req.agent_id@)), req.file@, content@,
                        SourceV::Agent(req.agent_id@), partition_type_name(PartitionTypeV::Agent(req.agent_id@)), h@));
                }
                Ok(EditResponse { snapshot_id: h, staged_snapshot_id: None })
            },
            Err(e) => Err(map_error(e)),
        }
    }

    /// Submits an agent's work for approval; the agent's approval partition
    /// is created at the staged snapshot when absent.
    pub fn agent_submit(&self, req: AgentSubmitRequest) -> (r: Result<SubmitResponse, ApiError>)
        ensures
            r matches Err(e) ==> api_error_view(e) == invalid_params_error("no staged partition found. Make edits first."@)
                || e.code@ == "STORAGE_ERROR"@ || e.code@ == "ENGINE_ERROR"@ || e.code@ == "NOT_FOUND"@,
            r matches Ok(resp) ==> merge_shown(crate::state_machine::mixed_bytes(0x30, encode_utf8(req.agent_id@)),
                crate::state_machine::mixed_bytes(0x20, encode_utf8(req.agent_id@)), partition_type_name(PartitionTypeV::Approval(req.agent_id@)),
                resp.snapshot_id@),
    {
        let agent_instance = AgentInstanceId(req.agent_id.clone());
        let storage: &S = &*self.storage;
        let base_snapshot = match storage.get_partition(&staged_partition_id()) {
            Ok(p) => p.current_snapshot,
            Err(_) => return Err(ApiError::invalid_params("no staged partition found. Make edits first.".to_string())),
        };
        if let Err(e) = approval::ensure_approval_agent_partition(storage, &agent_instance, base_snapshot) {
            return Err(map_error(e));
        }
        match agent::move_agent_to_approval(storage, &agent_instance) {
            Ok(id) => {
                let h = id.to_hex();
                proof {
                    assert(merge_shown(crate::state_machine::mixed_bytes(0x30, encode_utf8(req.agent_id@)),
                        crate::state_machine::mixed_bytes(0x20, encode_utf8(req.agent_id@)),
                        partition_type_name(PartitionTypeV::Approval(req.agent_id@)), h@));
                }
                Ok(SubmitResponse { snapshot_id: h })
            },
            Err(e) => Err(map_error(e)),
        }
    }

    /// Approves an agent's submission: its approval partition moves into the
    /// integration partition named after the agent, every integration
    /// partition moves into unified, and unified is merged into staged.
    pub fn approve(&self, req: ApproveRequest) -> (r: Result<ApproveResponse, ApiError>)
        ensures
            r matches Err(e) ==> e.code@ == "STORAGE_ERROR"@ || e.code@ == "ENGINE_ERROR"@ || e.code@ == "NOT_FOUND"@,
            r matches Ok(resp) ==> merge_shown(seq![0x60u8] + Seq::new(15, |i: int| 0u8), seq![0x50u8] + Seq::new(15, |i: int| 0u8),
                partition_type_name(PartitionTypeV::Staged), resp.staged_snapshot_id@),
            r matches Ok(resp) ==> exists|id: SnapshotId| #[trigger] spec_hex(id.0@) == resp.integrated_snapshot_id@ && (
                approval::already_at(crate::state_machine::mixed_bytes(0x40, encode_utf8(req.agent_id@)),
                    crate::state_machine::mixed_bytes(0x30, encode_utf8(req.agent_id@)), id)
                || two_way_merged(crate::state_machine::mixed_bytes(0x40, encode_utf8(req.agent_id@)),
                    crate::state_machine::mixed_bytes(0x30, encode_utf8(req.agent_id@)),
                    partition_type_name(PartitionTypeV::Integrated(req.agent_id@)), id)),
    {
        let agent_instance = AgentInstanceId(req.agent_id.clone());
        let storage: &S = &*self.storage;
        let integrated_id = match approval::move_approval_to_integrated(storage, &agent_instance, req.agent_id.as_str()) {
            Ok(id) => id,
            Err(e) => return Err(map_error(e)),
        };
        let partitions = match storage.list_partitions() {
            Ok(ps) => ps,
            Err(e) => return Err(storage_error(e)),
        };
        let names = integrated_names(&partitions);
        if names.len() > 0 {
            if let Err(e) = approval::move_integrated_to_unified(storage, names.as_slice()) {
                return Err(map_error(e));
            }
        }
        match merge_unified_to_staged(storage) {
            Ok(staged) => {
                let hi = integrated_id.to_hex();
                let hs = staged.to_hex();
                proof {
                    assert(merge_shown(seq![0x60u8] + Seq::new(15, |i: int| 0u8), seq![0x50u8] + Seq::new(15, |i: int| 0u8),
                        partition_type_name(PartitionTypeV::Staged), hs@));
                    assert(spec_hex(integrated_id.0@) == hi@);
                }
                Ok(ApproveResponse { integrated_snapshot_id: hi, staged_snapshot_id: hs })
            },
            Err(e) => Err(map_error(e)),
        }
    }

    /// Commits staged as a checkpoint (author `user` when none is given).
    pub fn commit(&self, req: CommitRequest) -> (r: Result<CommitResponse, ApiError>)
        ensures
            r matches Ok(resp) ==> resp.message@ == req.message@ && exists|head: Seq<u8>, staged: Seq<u8>| spec_hex(
                #[trigger] new_checkpoint_id(seq![head], seq![staged], commit_author(req.author), req.message@),
            ) == resp.checkpoint_id@,
            r matches Err(e) ==> e.code@ == "STORAGE_ERROR"@ || e.code@ == "NOT_FOUND"@,
            r matches Ok(resp) ==> exists|id: CheckpointId| #[trigger] committed(commit_author(req.author), req.message@, id)
                && resp.checkpoint_id@ == spec_hex(id.0@),
    {
        let author = match &req.author {
            Some(a) => a.as_str(),
            None => "user",
        };
        proof {
            assert(author@ == commit_author(req.author));
        }
        match commit_staged_to_checkpoint(&*self.storage, req.message.as_str(), author) {
            Ok(id) => {
                proof {
                    let (h, st) = choose|h: Seq<u8>, st: Seq<u8>| #[trigger] new_checkpoint_id(seq![h], seq![st], author@, req.message@) == id.0@;
                    assert(spec_hex(new_checkpoint_id(seq![h], seq![st], commit_author(req.author), req.message@)) == spec_hex(id.0@));
                    assert(committed(commit_author(req.author), req.message@, id));
                }
                Ok(CommitResponse { checkpoint_id: id.to_hex(), message: req.message.clone() })
            },
            Err(e) => Err(map_error(e)),
        }
    }

    /// The newest checkpoints, at most `count` (20 when none is given).
    pub fn log(&self, req: LogRequest) -> (r: Result<LogResponse, ApiError>)
        ensures
            r matches Ok(resp) ==> log_of_some(resp, log_count(req.count)),
            r matches Err(e) ==> e.code@ == "STORAGE_ERROR"@,
    {
        let count: usize = match req.count {
            Some(c) => c,
            None => 20,
        };
        let checkpoints = match self.storage.list_checkpoints() {
            Ok(c) => c,
            Err(e) => return Err(storage_error(e)),
        };
        let resp = log_infos(&checkpoints, count);
        proof {
            assert(log_shows(resp, checkpoints@, log_count(req.count)));
            assert(log_of_some(resp, log_count(req.count)));
        }
        Ok(resp)
    }

    /// Creates a branch where `new_branch_head` puts it over the stored
    /// branches and checkpoints (no checkpoints when they cannot be listed).
    pub fn branch_create(&self, req: BranchCreateRequest) -> (r: Result<BranchCreateResponse, ApiError>)
        ensures
            r matches Ok(resp) ==> resp.name@ == req.name@,
            r matches Err(e) ==> e.code@ == "STORAGE_ERROR"@ || api_error_view(e) == invalid_params_error(branch_exists_msg(req.name@))
                || api_error_view(e) == invalid_params_error(no_checkpoints_msg()),
            r matches Ok(resp) ==> branch_placed(req.name@, resp.head@),
    {
        let branches = match self.storage.list_branches() {
            Ok(b) => b,
            Err(e) => return Err(storage_error(e)),
        };
        let checkpoints = match self.storage.list_checkpoints() {
            Ok(cps) => cps,
            Err(_) => Vec::new(),
        };
        let head = match new_branch_head(&branches, &req.name, &checkpoints) {
            Ok(h) => h,
            Err(e) => return Err(e),
        };
        let branch = Branch::new(req.name.as_str(), head);
        if let Err(e) = self.storage.store_branch(&branch) {
            return Err(storage_error(e));
        }
        let h = head.to_hex();
        proof {
            assert(branch_placed_over(branches@, checkpoints@, req.name@, h@));
        }
        Ok(BranchCreateResponse { name: req.name, head: h })
    }

    /// Switches to a branch (see `StateMachine::switch_branch`).
    pub fn branch_switch(&self, req: BranchSwitchRequest) -> (r: Result<BranchSwitchResponse, ApiError>)
        ensures
            r matches Ok(resp) ==> resp.name@ == req.name@,
            r matches Ok(resp) ==> exists|h: CheckpointId| #[trigger] switched(req.name@, h) && resp.checkpoint_id@ == spec_hex(h.0@),
    {
        if let Err(_) = self.storage.get_branch(req.name.as_str()) {
            let mut m = "branch '".to_string();
            append_str(&mut m, req.name.as_str());
            append_str(&mut m, "'");
            return Err(ApiError::not_found(m));
        }
        match self.state_machine.switch_branch(req.name.as_str()) {
            Ok(cp) => Ok(BranchSwitchResponse { name: req.name, checkpoint_id: cp.to_hex() }),
            Err(e) => Err(map_error(e)),
        }
    }

    /// Every stored branch with its head in hexadecimal and the time it last
    /// moved; none is marked current.
    pub fn branch_list(&self) -> (r: Result<BranchListResponse, ApiError>)
        ensures
            r matches Err(e) ==> e.code@ == "STORAGE_ERROR"@,
            r matches Ok(resp) ==> resp.current is None && exists|bs: Seq<Branch>| #[trigger] entries_show(resp.branches@, bs),
    {
        let branches = match self.storage.list_branches() {
            Ok(b) => b,
            Err(e) => return Err(storage_error(e)),
        };
        let infos = branch_infos(&branches);
        let resp = BranchListResponse { branches: infos, current: None };
        proof {
            assert(entries_show(resp.branches@, branches@));
        }
        Ok(resp)
    }

    /// Merges a branch into the current one: the repository is loaded, a
    /// checkpoint of the staged snapshot with the current head and the
    /// branch's head as parents is made (message `"merge"` when none is
    /// given, author `"user"`), and the repository is stored again.
    pub fn merge(&self, req: MergeRequest) -> (r: Result<MergeResponse, ApiError>)
        ensures
            r matches Ok(resp) ==> resp.source_branch@ == req.branch@ && exists|head: Seq<u8>, source: Seq<u8>, staged: Seq<u8>| spec_hex(
                #[trigger] new_checkpoint_id(seq![head].push(source), seq![staged], "user"@, merge_message(req.message)),
            ) == resp.checkpoint_id@,
    {
        let storage: &S = &*self.storage;
        let mut repo = match CheckpointRepo::load(storage) {
            Ok(r) => r,
            Err(e) => return Err(map_error(e)),
        };
        let current_name = repo.current_branch_name().to_string();
        let staged = match storage.get_partition(&staged_partition_id()) {
            Ok(p) => p,
            Err(_) => return Err(ApiError::invalid_params("staged partition not found".to_string())),
        };
        let mut snapshot_ids: Vec<SnapshotId> = Vec::new();
        snapshot_ids.push(staged.current_snapshot);
        let msg = match &req.message {
            Some(m) => m.clone(),
            None => "merge".to_string(),
        };
        let ghost old_repo = repo@;
        let ghost ids = ids_view(snapshot_ids@);
        proof {
            assert(ids =~= seq![staged.current_snapshot.0@]);
            assert(msg@ == merge_message(req.message));
        }
        let cp_id = match repo.merge_branches(req.branch.as_str(), snapshot_ids, msg.as_str(), "user") {
            Ok(id) => id,
            Err(e) => return Err(map_error(e)),
        };
        proof {
            let k = choose|k: int| #[trigger] crate::checkpoint::repo::first_branch(old_repo.branches, req.branch@, k)
                && cp_id.0@ == new_checkpoint_id(seq![old_repo.head(), old_repo.branches[k].1], ids, "user"@, msg@);
            let src = old_repo.branches[k].1;
            assert(seq![old_repo.head()].push(src) =~= seq![old_repo.head(), src]);
            assert(spec_hex(new_checkpoint_id(seq![old_repo.head()].push(src), seq![staged.current_snapshot.0@], "user"@, merge_message(req.message)))
                == spec_hex(cp_id.0@));
        }
        if let Err(e) = repo.sync_all(storage) {
            return Err(map_error(e));
        }
        Ok(MergeResponse { checkpoint_id: cp_id.to_hex(), source_branch: req.branch, target_branch: current_name })
    }

    /// Collects garbage (see `collect_garbage`) over the stored repository;
    /// the checkpoints it removes are deleted from storage and what remains
    /// is stored again.
    pub fn gc(&self, _req: GcRequest) -> (r: Result<GcResponse, ApiError>)
        ensures
            r matches Ok(resp) ==> gc_of_some(resp),
    {
        let storage: &S = &*self.storage;
        let mut repo = match CheckpointRepo::load(storage) {
            Ok(r) => r,
            Err(e) => return Err(map_error(e)),
        };
        let before = repo.parent_table();
        let ghost o = repo@;
        let stats = match collect_garbage(&mut repo) {
            Ok(s) => s,
            Err(e) => return Err(map_error(e)),
        };
        let mut i: usize = 0;
        while i < before.len()
            invariant
                repo.wf(),
                i <= before@.len(),
            decreases before@.len() - i,
        {
            let id = &before[i].0;
            if repo.get_checkpoint(id).is_err() {
                if let Err(e) = storage.delete_checkpoint(id) {
                    return Err(storage_error(e));
                }
            }
            i += 1;
        }
        if let Err(e) = repo.sync_all(storage) {
            return Err(map_error(e));
        }
        let resp = GcResponse {
            removed_checkpoints: stats.removed_checkpoints as usize,
            removed_snapshots: stats.removed_snapshots as usize,
            freed_bytes: stats.freed_bytes,
            delta_chain_depth_triggered: stats.delta_chain_depth_triggered,
        };
        proof {
            assert(gc_reports(resp, o));
        }
        Ok(resp)
    }

    /// The text of a snapshot, by identifier.
    fn text_of(&self, id: &SnapshotId) -> (r: Result<String, ApiError>)
        ensures
            r matches Err(e) ==> e.code@ == "STORAGE_ERROR"@ || e.code@ == "ENGINE_ERROR"@,
    {
        let snapshot = match self.storage.get_snapshot(id) {
            Ok(s) => s,
            Err(e) => return Err(storage_error(e)),
        };
        match reconstruct_text(&*self.storage, &snapshot) {
            Ok(t) => Ok(t),
            Err(e) => Err(map_error(e)),
        }
    }

    /// The text of the newest checkpoint's first snapshot, or the empty text.
    fn last_checkpoint_text(&self) -> (r: String) {
        match self.storage.list_checkpoints() {
            Ok(cps) => {
                if cps.len() > 0 && cps[0].baseline_snapshots.len() > 0 {
                    match self.text_of(&cps[0].baseline_snapshots[0]) {
                        Ok(t) => t,
                        Err(_) => String::new(),
                    }
                } else {
                    String::new()
                }
            },
            Err(_) => String::new(),
        }
    }

    /// Shows what changed: `staged` against the newest checkpoint,
    /// `checkpoint` (by identifier) against its first parent, `partition` (by
    /// name) against the newest checkpoint.
    pub fn show(&self, req: ShowRequest) -> (r: Result<ShowResponse, ApiError>)
        ensures
            req.show_what@ != "staged"@ && req.show_what@ != "checkpoint"@ && req.show_what@ != "partition"@
                ==> (r matches Err(e) && api_error_view(e) == invalid_params_error(
                    "unknown show target '"@ + req.show_what@ + "'. Use 'staged', 'checkpoint', or 'partition'"@)),
            req.show_what@ == "checkpoint"@ && req.target_id is None
                ==> (r matches Err(e) && api_error_view(e) == invalid_params_error("checkpoint ID required for 'checkpoint' target"@)),
            req.show_what@ == "partition"@ && req.target_id is None
                ==> (r matches Err(e) && api_error_view(e) == invalid_params_error("partition name required for 'partition' target"@)),
            r matches Ok(resp) ==> resp.diffs@.len() == 1 && diff_of_some(resp.diffs@[0]),
            r matches Ok(resp) ==> (req.show_what@ == "staged"@ ==> resp.target@ == "staged"@),
            r matches Ok(resp) ==> (req.show_what@ == "checkpoint"@ ==> resp.target@ == "checkpoint:"@ + req.target_id->0@),
            r matches Ok(resp) ==> (req.show_what@ == "partition"@ ==> resp.target@ == "partition:"@ + req.target_id->0@),
    {
        proof {
            reveal_strlit("staged");
            reveal_strlit("checkpoint");
            reveal_strlit("partition");
            assert("staged"@.len() == 6);
            assert("checkpoint"@.len() == 10);
            assert("staged"@ != "checkpoint"@);
            assert("staged"@ != "partition"@);
            assert("checkpoint"@ != "partition"@);
        }
        if req.show_what == "staged".to_string() {
            let staged = match self.storage.get_partition(&staged_partition_id()) {
                Ok(p) => p,
                Err(e) => return Err(storage_error(e)),
            };
            let snapshot = match self.storage.get_snapshot(&staged.current_snapshot) {
                Ok(s) => s,
                Err(e) => return Err(storage_error(e)),
            };
            let new_text = self.text_of(&staged.current_snapshot)?;
            let old_text = self.last_checkpoint_text();
            let d = file_diff(snapshot.file.path_str(), old_text.as_str(), new_text.as_str())?;
            proof {
                assert(diff_of_some(d));
            }
            let mut diffs: Vec<FileDiff> = Vec::new();
            diffs.push(d);
            Ok(ShowResponse { target: "staged".to_string(), diffs })
        } else if req.show_what == "checkpoint".to_string() {
            let id_str = match &req.target_id {
                Some(t) => t,
                None => return Err(ApiError::invalid_params("checkpoint ID required for 'checkpoint' target".to_string())),
            };
            self.show_checkpoint(id_str.as_str())
        } else if req.show_what == "partition".to_string() {
            let name = match &req.target_id {
                Some(t) => t,
                None => return Err(ApiError::invalid_params("partition name required for 'partition' target".to_string())),
            };
            self.show_partition(name.as_str())
        } else {
            let mut m = "unknown show target '".to_string();
            append_str(&mut m, req.show_what.as_str());
            append_str(&mut m, "'. Use 'staged', 'checkpoint', or 'partition'");
            Err(ApiError::invalid_params(m))
        }
    }

    fn show_checkpoint(&self, id_str: &str) -> (r: Result<ShowResponse, ApiError>)
        ensures
            r matches Ok(resp) ==> resp.diffs@.len() == 1 && diff_of_some(resp.diffs@[0]) && resp.target@ == "checkpoint:"@ + id_str@,
    {
        let cp_id = match checkpoint_id_of(id_str) {
            Some(id) => id,
            None => {
                let mut m = "invalid checkpoint ID '".to_string();
                append_str(&mut m, id_str);
                append_str(&mut m, "'");
                return Err(ApiError::invalid_params(m));
            },
        };
        let checkpoint = match self.storage.get_checkpoint(&cp_id) {
            Ok(c) => c,
            Err(e) => return Err(storage_error(e)),
        };
        if checkpoint.baseline_snapshots.len() == 0 {
            return Err(ApiError::internal("checkpoint has no baseline snapshots".to_string()));
        }
        let new_id = checkpoint.baseline_snapshots[0];
        let new_snapshot = match self.storage.get_snapshot(&new_id) {
            Ok(s) => s,
            Err(e) => return Err(storage_error(e)),
        };
        let new_text = self.text_of(&new_id)?;
        let old_text = if checkpoint.parents.len() > 0 {
            match self.storage.get_checkpoint(&checkpoint.parents[0]) {
                Ok(parent) => {
                    if parent.baseline_snapshots.len() > 0 {
                        match self.text_of(&parent.baseline_snapshots[0]) {
                            Ok(t) => t,
                            Err(_) => String::new(),
                        }
                    } else {
                        String::new()
                    }
                },
                Err(_) => String::new(),
            }
        } else {
            String::new()
        };
        let d = file_diff(new_snapshot.file.path_str(), old_text.as_str(), new_text.as_str())?;
        proof {
            assert(diff_of_some(d));
        }
        let mut diffs: Vec<FileDiff> = Vec::new();
        diffs.push(d);
        let mut target = "checkpoint:".to_string();
        append_str(&mut target, id_str);
        Ok(ShowResponse { target, diffs })
    }

    fn show_partition(&self, name: &str) -> (r: Result<ShowResponse, ApiError>)
        ensures
            r matches Ok(resp) ==> resp.diffs@.len() == 1 && diff_of_some(resp.diffs@[0]) && resp.target@ == "partition:"@ + name@,
    {
        let partitions = match self.storage.list_partitions() {
            Ok(ps) => ps,
            Err(e) => return Err(storage_error(e)),
        };
        let mut found: Option<usize> = None;
        let mut i: usize = 0;
        while i < partitions.len()
            invariant
                i <= partitions@.len(),
                found matches Some(k) ==> k < partitions@.len(),
            decreases partitions@.len() - i,
        {
            if found.is_none() && partitions[i].name.as_str() == name {
                found = Some(i);
            }
            i += 1;
        }
        let k = match found {
            Some(k) => k,
            None => {
                let mut m = "partition '".to_string();
                append_str(&mut m, name);
                append_str(&mut m, "'");
                return Err(ApiError::not_found(m));
            },
        };
        let current = partitions[k].current_snapshot;
        let snapshot = match self.storage.get_snapshot(&current) {
            Ok(s) => s,
            Err(e) => return Err(storage_error(e)),
        };
        let new_text = self.text_of(&current)?;
        let old_text = self.last_checkpoint_text();
        let d = file_diff(snapshot.file.path_str(), old_text.as_str(), new_text.as_str())?;
        proof {
            assert(diff_of_some(d));
        }
        let mut diffs: Vec<FileDiff> = Vec::new();
        diffs.push(d);
        let mut target = "partition:".to_string();
        append_str(&mut target, name);
        Ok(ShowResponse { target, diffs })
    }
}

/// The checkpoint identifier written in hexadecimal, when it is one; text
/// whose pairs of bytes would cut through a character is none.
fn checkpoint_id_of(s: &str) -> (r: Option<ContentId>)
    ensures
        hex_decode_splits_char(s.spec_bytes()) ==> r is None,
        !hex_decode_splits_char(s.spec_bytes()) ==> (r is Some <==> s@.len() == 64 && forall|i: int| 0 <= i < 64 ==> is_hex_char(#[trigger] s@[i])),
        r matches Some(id) ==> spec_hex(id.0@) == lower_hex_text(s@),
{
    if crate::model::types::hex_text_splits_char(s) {
        None
    } else {
        ContentId::from_hex(s)
    }
}

/// Whether `d` shows the changes from `old_text` to `new_text` of the file
/// at `file_path`: the unified diff with three lines of context (for `large`
/// texts, the hunks without the file header) and the counts of lines put in
/// and taken out.
pub open spec fn diff_shows(d: FileDiff, file_path: Seq<char>, old_text: Seq<char>, new_text: Seq<char>, large: bool) -> bool {
    &&& d.file_path@ == file_path
    &&& !large ==> d.unified_diff@ == unified_text(old_text, new_text, 3)
    &&& large ==> d.unified_diff@ == crate::text::concat_all(unified_hunks(old_text, new_text, 3))
    &&& d.inserts == diff_added(spec_line_diff(old_text, new_text))
    &&& d.deletes == diff_removed(spec_line_diff(old_text, new_text))
}

/// Whether `d` shows the changes between some two versions of a file.
pub open spec fn diff_of_some(d: FileDiff) -> bool {
    exists|p: Seq<char>, o: Seq<char>, n: Seq<char>, large: bool| #[trigger] diff_shows(d, p, o, n, large)
}

/// The changes between two versions of a file: the unified diff with three
/// lines of context and the counts of lines put in and taken out.
pub fn file_diff(file_path: &str, old_text: &str, new_text: &str) -> (r: Result<FileDiff, ApiError>)
    ensures
        r is Ok <==> diff_added(spec_line_diff(old_text@, new_text@)) <= usize::MAX && diff_removed(spec_line_diff(old_text@, new_text@)) <= usize::MAX,
        r matches Ok(d) ==> diff_shows(d, file_path@, old_text@, new_text@, old_text.len() > 50000 || new_text.len() > 50000),
{
    let unified_diff = format_unified_diff(old_text, new_text, 3);
    let line_diff = diff_to_line_diff(old_text, new_text);
    match checked_diff_stats(&line_diff) {
        Some((inserts, deletes)) => Ok(FileDiff { file_path: file_path.to_string(), unified_diff, inserts, deletes }),
        None => Err(ApiError::internal("diff statistics overflow".to_string())),
    }
}

} // verus!
