//! The unified partition: where the integration (feature) partitions are
//! merged, each by a three-way merge on its own baseline, before staged.

use crate::engine::merge::{conflicts_view, spec_merge_texts, try_merge_texts, ConflictV, MergeConflict};
use crate::model::delta::Delta;
use crate::model::file_node::FileNode;
use crate::model::snapshot::{ids_view, Snapshot};
use crate::engine::diff::spec_line_diff;
use vstd::utf8::encode_utf8;
use crate::error::StratumError;
use crate::layered::transition::{reconstruct_text, snapshot_text};
use crate::layered::{ensure_partition, fixed_partition, merge_records, merge_step, record_merge, MergeResult};
use crate::model::partition::Partition;
use crate::model::types::{uuid_v5, PartitionId, PartitionType, SnapshotId, SourceType};
use crate::storage::repository::{DeltaStore, FileNodeStore, PartitionStore, SnapshotStore};
use crate::text::append_str;
use vstd::prelude::*;

verus! {

broadcast use vstd::string::group_string_axioms;

/// The fixed identifier of the unified partition (`0x50` then zeros).
pub fn unified_partition_id() -> (r: PartitionId)
    ensures
        r.0@ == seq![0x50u8] + Seq::new(15, |i: int| 0u8),
{
    PartitionId::with_first_byte(0x50)
}

/// The unified partition, or a new one named `unified` at
/// `initial_snapshot_id` when the backend has none.
pub fn ensure_unified_partition<S: PartitionStore>(storage: &S, initial_snapshot_id: SnapshotId) -> (r: Result<Partition, StratumError>)
    ensures
        r matches Err(e) ==> e is Storage,
        r matches Ok(p) ==> p.id.0@ == seq![0x50u8] + Seq::new(15, |i: int| 0u8),
{
    let p = fixed_partition(unified_partition_id(), "unified".to_string(), initial_snapshot_id, PartitionType::Unified);
    ensure_partition(storage, p)
}

/// The message for an absent integration partition.
pub open spec fn feature_missing_msg(name: Seq<char>) -> Seq<char> {
    "integrated partition '"@ + name + "' not found"@
}

/// The message for an integration partition with an empty history.
pub open spec fn feature_empty_msg(name: Seq<char>) -> Seq<char> {
    "integrated partition '"@ + name + "' has empty history"@
}

fn quoted_message(prefix: &str, name: &str, suffix: &str) -> (r: String)
    ensures
        r@ == prefix@ + name@ + suffix@,
{
    let mut s = prefix.to_string();
    append_str(&mut s, name);
    append_str(&mut s, suffix);
    s
}

/// The text of merging `ours` and `theirs` over `base` (empty when they
/// cannot be merged).
pub open spec fn merged_text(base: Seq<char>, ours: Seq<char>, theirs: Seq<char>) -> Seq<char> {
    match spec_merge_texts(base, ours, theirs) {
        Some((t, _)) => t,
        None => seq![],
    }
}

/// The conflicts of merging `ours` and `theirs` over `base` (none when they
/// cannot be merged).
pub open spec fn merged_conflicts(base: Seq<char>, ours: Seq<char>, theirs: Seq<char>) -> Seq<ConflictV> {
    match spec_merge_texts(base, ours, theirs) {
        Some((_, cs)) => cs,
        None => seq![],
    }
}

/// Whether `m` is what a three-way merge into a partition pointing at
/// `current` gave for the texts read: merging `ours` and `theirs` over
/// `base` succeeds with the conflicts of `m`; when the merged text does not
/// differ from `from_text` (the partition's text) the partition stays at
/// `current`, otherwise it points at a new merge snapshot with parents
/// `parents`, of type `ptype`, flagged when there were conflicts.
pub open spec fn three_way_outcome(
    current: SnapshotId,
    base: Seq<char>,
    ours: Seq<char>,
    theirs: Seq<char>,
    from_text: Seq<char>,
    parents: Seq<Seq<u8>>,
    ptype: Seq<char>,
    m: MergeResult,
) -> bool {
    &&& spec_merge_texts(base, ours, theirs) is Some
    &&& conflicts_view(m.conflicts@) == merged_conflicts(base, ours, theirs)
    &&& spec_line_diff(from_text, merged_text(base, ours, theirs)).len() == 0 ==> m.snapshot_id == current
    &&& spec_line_diff(from_text, merged_text(base, ours, theirs)).len() > 0 ==> exists|sn: Snapshot| {
        &&& #[trigger] sn.id == m.snapshot_id
        &&& ids_view(sn.parents@) == parents
        &&& sn.partition_type@ == ptype
        &&& sn.has_conflicts == (merged_conflicts(base, ours, theirs).len() > 0)
    }
}

/// Whether `m` is what merging the feature `name` into unified gave, for the
/// feature partition `fp` and unified partition `up` read, and the snapshots
/// (`bs` the feature's first, `us` unified's, `fs` the feature's current)
/// and their texts `b`, `u`, `f`: nothing changes when unified already
/// points at the feature's snapshot; otherwise the three-way merge of `u`
/// and `f` over `b` into unified (see `three_way_outcome`).
pub open spec fn feature_merged_over(
    fp: Partition,
    up: Partition,
    bs: Snapshot,
    us: Snapshot,
    fs: Snapshot,
    b: Seq<char>,
    u: Seq<char>,
    f: Seq<char>,
    name: Seq<char>,
    m: MergeResult,
) -> bool {
    &&& fp.id.0@ == uuid_v5(seq![0x40u8] + Seq::new(15, |i: int| 0u8), encode_utf8(name))
    &&& up.id.0@ == seq![0x50u8] + Seq::new(15, |i: int| 0u8)
    &&& up.current_snapshot.0@ == fp.current_snapshot.0@ ==> m.snapshot_id == up.current_snapshot && m.conflicts@.len() == 0
    &&& up.current_snapshot.0@ != fp.current_snapshot.0@ ==> {
        &&& fp.history@.len() > 0
        &&& bs.id.0@ == fp.history@[0].0@
        &&& us.id.0@ == up.current_snapshot.0@
        &&& fs.id.0@ == fp.current_snapshot.0@
        &&& snapshot_text(bs, b) && snapshot_text(us, u) && snapshot_text(fs, f)
        &&& three_way_outcome(up.current_snapshot, b, u, f, u, seq![us.id.0@, fs.id.0@], "unified"@, m)
    }
}

/// Whether `m` is what merging the feature `name` into unified gave, for
/// some values read (see `feature_merged_over`).
pub open spec fn feature_merged(name: Seq<char>, m: MergeResult) -> bool {
    exists|fp: Partition, up: Partition, bs: Snapshot, us: Snapshot, fs: Snapshot, b: Seq<char>, u: Seq<char>, f: Seq<char>|
        #[trigger] feature_merged_over(fp, up, bs, us, fs, b, u, f, name, m)
}

/// Merges one integration (feature) partition into unified.
///
/// The merge base is the first snapshot of the feature's history; unified
/// (created at that baseline when absent) is ours and the feature's current
/// snapshot theirs. When unified already points at the feature's snapshot
/// nothing changes. Otherwise, when the merged text differs from the unified
/// text, the delta between them (of the file of the feature's last delta, or
/// of the unified snapshot's file when the feature has none) and a merge
/// snapshot of the unified and feature snapshots (type `unified`, flagged
/// when there were conflicts) are recorded and unified points at it. Texts
/// whose diffs name a base region that does not exist give an engine error.
pub fn merge_feature_to_unified<S: SnapshotStore + DeltaStore + FileNodeStore + PartitionStore>(
    storage: &S,
    feature_name: &str,
) -> (r: Result<MergeResult, StratumError>)
    ensures
        r matches Err(e) ==> (e is Storage || e is Engine || (e matches StratumError::NotFound(m) && m@ == feature_missing_msg(
            feature_name@,
        )) || (e matches StratumError::StateMachine(m) && m@ == feature_empty_msg(feature_name@))),
        r matches Ok(m) ==> feature_merged(feature_name@, m),
{
    let unified_pid = unified_partition_id();
    let integrated_pid = crate::layered::integrated::integrated_partition_id(feature_name);
    let feature_part = match storage.get_partition(&integrated_pid) {
        Ok(p) => p,
        Err(_) => return Err(StratumError::NotFound(quoted_message("integrated partition '", feature_name, "' not found"))),
    };
    if feature_part.history.len() == 0 {
        return Err(StratumError::StateMachine(quoted_message("integrated partition '", feature_name, "' has empty history")));
    }
    let baseline_id = feature_part.history[0];
    let baseline_snapshot = match storage.get_snapshot(&baseline_id) {
        Ok(s) => s,
        Err(e) => return Err(StratumError::Storage(e)),
    };
    let feature_snapshot = match storage.get_snapshot(&feature_part.current_snapshot) {
        Ok(s) => s,
        Err(e) => return Err(StratumError::Storage(e)),
    };
    let unified_partition = ensure_unified_partition(storage, baseline_id)?;
    if unified_partition.current_snapshot == feature_part.current_snapshot {
        let m = MergeResult { snapshot_id: unified_partition.current_snapshot, conflicts: Vec::new() };
        proof {
            assert(feature_merged_over(feature_part, unified_partition, baseline_snapshot, feature_snapshot, feature_snapshot,
                seq![], seq![], seq![], feature_name@, m));
            assert(feature_merged(feature_name@, m));
        }
        return Ok(m);
    }
    let unified_snapshot = match storage.get_snapshot(&unified_partition.current_snapshot) {
        Ok(s) => s,
        Err(e) => return Err(StratumError::Storage(e)),
    };
    let baseline_text = reconstruct_text(storage, &baseline_snapshot)?;
    let unified_text = reconstruct_text(storage, &unified_snapshot)?;
    let feature_text = reconstruct_text(storage, &feature_snapshot)?;
    let feature_deltas = match storage.get_deltas(feature_snapshot.deltas.as_slice()) {
        Ok(d) => d,
        Err(e) => return Err(StratumError::Storage(e)),
    };
    let merge_file = if feature_deltas.len() > 0 {
        feature_deltas[feature_deltas.len() - 1].file.clone()
    } else {
        unified_snapshot.file.clone()
    };
    let ghost pids = seq![unified_snapshot.id.0@, feature_snapshot.id.0@];
    let ptype = PartitionType::Unified.name();
    proof {
        reveal_strlit("unified");
        assert(ptype@ == "unified"@);
    }
    let parents = vec![&unified_snapshot, &feature_snapshot];
    proof {
        assert(Seq::new(parents@.len(), |i: int| parents@[i].id.0@) =~= pids);
    }
    let (step, conflicts) = three_way_step(
        parents,
        merge_file,
        baseline_text.as_str(),
        unified_text.as_str(),
        feature_text.as_str(),
        unified_text.as_str(),
        SourceType::Manual,
        ptype,
    )?;
    let m = match step {
        None => MergeResult { snapshot_id: unified_partition.current_snapshot, conflicts },
        Some((delta, snapshot)) => {
            let id = record_merge(storage, &unified_pid, &delta, &snapshot)?;
            proof {
                assert(snapshot.id == id);
            }
            MergeResult { snapshot_id: id, conflicts }
        },
    };
    proof {
        assert(feature_merged_over(feature_part, unified_partition, baseline_snapshot, unified_snapshot, feature_snapshot,
            baseline_text@, unified_text@, feature_text@, feature_name@, m));
        assert(feature_merged(feature_name@, m));
    }
    Ok(m)
}

/// The message for texts whose diffs name a base region that does not exist.
pub open spec fn unmergeable_msg() -> Seq<char> {
    "merge base region out of range"@
}

pub(crate) fn unmergeable() -> (r: String)
    ensures
        r@ == unmergeable_msg(),
{
    "merge base region out of range".to_string()
}

/// What a three-way merge into a partition records, given the texts read:
/// an engine error when the texts' diffs name a base region that does not
/// exist; otherwise the conflicts of merging `ours_text` and `theirs_text`
/// over `base_text`, and what merging the merged text into the partition,
/// whose text is `from_text`, records (see `merge_step`; the snapshot is
/// flagged when there were conflicts).
pub fn three_way_step(
    parents: Vec<&Snapshot>,
    file: FileNode,
    base_text: &str,
    ours_text: &str,
    theirs_text: &str,
    from_text: &str,
    source: SourceType,
    partition_type: String,
) -> (r: Result<(Option<(Delta, Snapshot)>, Vec<MergeConflict>), StratumError>)
    requires
        parents@.len() > 0,
    ensures
        match spec_merge_texts(base_text@, ours_text@, theirs_text@) {
            None => r matches Err(StratumError::Engine(m)) && m@ == unmergeable_msg(),
            Some((t, cs)) => r matches Ok((step, v)) && conflicts_view(v@) == cs && merge_records(
                step,
                *parents@[0],
                Seq::new(parents@.len(), |i: int| parents@[i].id.0@),
                file,
                from_text@,
                t,
                source,
                partition_type@,
                cs.len() > 0,
            ),
        },
{
    let (merged_text, conflicts) = match try_merge_texts(base_text, ours_text, theirs_text) {
        Some(m) => m,
        None => return Err(StratumError::Engine(unmergeable())),
    };
    let has_conflicts = conflicts.len() > 0;
    let step = merge_step(parents, file, from_text, merged_text.as_str(), source, partition_type, has_conflicts);
    Ok((step, conflicts))
}

/// The conflicts of some merge results, in order.
pub open spec fn chained_conflicts(rs: Seq<MergeResult>) -> Seq<ConflictV>
    decreases rs.len(),
{
    if rs.len() == 0 {
        seq![]
    } else {
        chained_conflicts(rs.drop_last()) + conflicts_view(rs.last().conflicts@)
    }
}

/// Merges made one after the other, taken together: the snapshot of the
/// last, with the conflicts of all in order.
pub fn chain_results(results: Vec<MergeResult>) -> (r: MergeResult)
    requires
        results@.len() > 0,
    ensures
        r.snapshot_id == results@.last().snapshot_id,
        conflicts_view(r.conflicts@) == chained_conflicts(results@),
{
    let ghost all = results@;
    let n = results.len();
    let snapshot_id = results[n - 1].snapshot_id;
    let mut rest = results;
    let mut conflicts: Vec<MergeConflict> = Vec::new();
    let mut i: usize = 0;
    proof {
        assert(all.take(0) =~= Seq::<MergeResult>::empty());
        assert(conflicts_view(conflicts@) =~= Seq::<ConflictV>::empty());
        assert(rest@ =~= all.subrange(0, n as int));
    }
    while i < n
        invariant
            n == all.len(),
            i <= n,
            rest@ =~= all.subrange(i as int, n as int),
            conflicts_view(conflicts@) == chained_conflicts(all.take(i as int)),
        decreases n - i,
    {
        let mut one = rest.remove(0);
        assert(one == all[i as int]);
        let ghost before = conflicts@;
        let ghost added = one.conflicts@;
        conflicts.append(&mut one.conflicts);
        proof {
            assert(all.take(i + 1).drop_last() =~= all.take(i as int));
            assert(all.take(i + 1).last() == all[i as int]);
            assert(conflicts_view(conflicts@) =~= conflicts_view(before) + conflicts_view(added));
            assert(rest@ =~= all.subrange(i + 1, n as int));
        }
        i += 1;
    }
    proof {
        assert(all.take(n as int) =~= all);
    }
    MergeResult { snapshot_id, conflicts }
}

/// Whether `m` chains the merges `rs` of the features named `names`, one
/// per name in order (each as `feature_merged`): the last merge's snapshot,
/// with the conflicts of all of them.
pub open spec fn features_merged_by(names: Seq<String>, rs: Seq<MergeResult>, m: MergeResult) -> bool {
    &&& rs.len() == names.len()
    &&& rs.len() > 0
    &&& forall|i: int| 0 <= i < rs.len() ==> feature_merged(names[i]@, #[trigger] rs[i])
    &&& m.snapshot_id == rs.last().snapshot_id
    &&& conflicts_view(m.conflicts@) == chained_conflicts(rs)
}

/// Whether `m` chains some merges of the features named `names` (see
/// `features_merged_by`).
pub open spec fn features_merged(names: Seq<String>, m: MergeResult) -> bool {
    exists|rs: Seq<MergeResult>| #[trigger] features_merged_by(names, rs, m)
}

/// Merges integration partitions into unified one after the other, each on
/// its own baseline (see `merge_feature_to_unified`); the results are taken
/// together by `chain_results`: the last snapshot unified points at, with the
/// conflicts of all merges in order. The first failing merge ends it with its
/// error. A general error when no feature is named.
pub fn merge_features_to_unified<S: SnapshotStore + DeltaStore + FileNodeStore + PartitionStore>(
    storage: &S,
    feature_names: &[String],
) -> (r: Result<MergeResult, StratumError>)
    ensures
        feature_names@.len() == 0 ==> (r matches Err(StratumError::General(m)) && m@ == "at least one feature required"@),
        r matches Err(e) ==> (e is Storage || e is Engine || e is NotFound || e is StateMachine || (e matches StratumError::General(m)
            && feature_names@.len() == 0)),
        feature_names@.len() > 0 ==> !(r matches Err(StratumError::General(_))),
        r matches Ok(m) ==> features_merged(feature_names@, m),
{
    if feature_names.len() == 0 {
        return Err(StratumError::General("at least one feature required".to_string()));
    }
    let mut results: Vec<MergeResult> = Vec::new();
    let mut i: usize = 0;
    while i < feature_names.len()
        invariant
            i <= feature_names@.len(),
            results@.len() == i,
            forall|j: int| 0 <= j < i ==> feature_merged(feature_names@[j]@, #[trigger] results@[j]),
        decreases feature_names@.len() - i,
    {
        let result = merge_feature_to_unified(storage, feature_names[i].as_str())?;
        results.push(result);
        i += 1;
    }
    let ghost rs = results@;
    let m = chain_results(results);
    proof {
        assert(features_merged_by(feature_names@, rs, m));
        assert(features_merged(feature_names@, m));
    }
    Ok(m)
}

/// The snapshot unified points at after merging the named integration
/// partitions (see `merge_features_to_unified`).
pub fn move_integrated_to_unified<S: SnapshotStore + DeltaStore + FileNodeStore + PartitionStore>(
    storage: &S,
    feature_names: &[String],
) -> (r: Result<SnapshotId, StratumError>)
    ensures
        feature_names@.len() == 0 ==> (r matches Err(StratumError::General(m)) && m@ == "at least one feature required"@),
        feature_names@.len() > 0 ==> !(r matches Err(StratumError::General(_))),
        r matches Err(e) ==> (e is Storage || e is Engine || e is NotFound || e is StateMachine || e is General),
        r matches Ok(id) ==> exists|m: MergeResult| #[trigger] features_merged(feature_names@, m) && m.snapshot_id == id,
{
    match merge_features_to_unified(storage, feature_names) {
        Ok(m) => Ok(m.snapshot_id),
        Err(e) => Err(e),
    }
}

} // verus!
