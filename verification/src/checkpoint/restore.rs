//! Restoring checkpoints: the checkpoint, its snapshots and its ancestry.

use crate::checkpoint::checkpoint::{Checkpoint, CheckpointV};
use crate::checkpoint::graph::{contains_id, edge, reaches, search_order, table_view};
use crate::checkpoint::repo::{CheckpointRepo, RepoV, checkpoint_of, distinct_ids, has_checkpoint, nearest_at, none_near, not_found_checkpoint_msg, parent_graph, times_within_range};
use crate::error::StratumError;
use crate::model::snapshot::{ids_view, Snapshot};
use crate::model::types::{spec_hex, CheckpointId, ContentId, SnapshotId};
use crate::text::append_str;
use vstd::prelude::*;

verus! {

broadcast use vstd::string::group_string_axioms;

/// What a restore asks for.
pub struct RestoreRequest {
    /// The checkpoint to restore.
    pub checkpoint_id: CheckpointId,
    /// Source patterns to restrict the snapshots to.
    pub source_filter: Option<Vec<String>>,
    /// A time range (start, end), Unix milliseconds.
    pub time_range: Option<(i64, i64)>,
}

/// What a restore gives back.
pub struct RestoreResponse {
    /// The checkpoint.
    pub checkpoint: Checkpoint,
    /// Each snapshot with its content and source.
    pub snapshots: Vec<(SnapshotId, Vec<u8>, String)>,
    /// The ancestry of the checkpoint, the checkpoint last.
    pub ancestry: Vec<CheckpointId>,
}

/// How two checkpoints differ in their snapshots.
#[derive(Debug)]
pub struct CheckpointDiff {
    pub from_id: CheckpointId,
    pub to_id: CheckpointId,
    /// Snapshots of the second checkpoint only.
    pub added: Vec<SnapshotId>,
    /// Snapshots of the first checkpoint only.
    pub removed: Vec<SnapshotId>,
    /// Snapshots of both whose content differs.
    pub modified: Vec<SnapshotId>,
}

impl CheckpointDiff {
    /// Whether nothing was added, removed or modified.
    pub fn is_empty(&self) -> (r: bool)
        ensures
            r == (self.added@.len() == 0 && self.removed@.len() == 0 && self.modified@.len() == 0),
    {
        self.added.len() == 0 && self.removed.len() == 0 && self.modified.len() == 0
    }
}

/// The message for a snapshot that cannot be looked up.
pub open spec fn snapshot_lookup_msg(id: Seq<u8>) -> Seq<char> {
    "Snapshot "@ + spec_hex(id) + " lookup requires storage backend"@
}

/// The message for a snapshot a checkpoint refers to but that is absent.
pub open spec fn snapshot_missing_msg(id: Seq<u8>) -> Seq<char> {
    "Snapshot "@ + spec_hex(id) + " referenced but not found"@
}

fn snapshot_message(id: &SnapshotId, tail: &str) -> (r: String)
    ensures
        r@ == "Snapshot "@ + spec_hex(id.0@) + tail@,
{
    let mut s = String::new();
    append_str(&mut s, "Snapshot ");
    let h = id.to_hex();
    append_str(&mut s, h.as_str());
    append_str(&mut s, tail);
    s
}

/// The identifiers in `a` that are not in `b`, each once, in order of first occurrence.
fn difference(a: &Vec<ContentId>, b: &Vec<ContentId>) -> (r: Vec<ContentId>)
    ensures
        ids_view(r@).no_duplicates(),
        forall|x: Seq<u8>| ids_view(r@).contains(x) <==> ids_view(a@).contains(x) && !ids_view(b@).contains(x),
{
    let mut r: Vec<ContentId> = Vec::new();
    let mut i: usize = 0;
    while i < a.len()
        invariant
            i <= a@.len(),
            ids_view(r@).no_duplicates(),
            forall|x: Seq<u8>| ids_view(r@).contains(x) <==> ids_view(a@).take(i as int).contains(x) && !ids_view(b@).contains(x),
        decreases a@.len() - i,
    {
        let x = a[i];
        let ghost r0 = ids_view(r@);
        proof {
            assert(ids_view(a@).take(i + 1) =~= ids_view(a@).take(i as int).push(x.0@));
        }
        let in_b = contains_id(b, &x);
        let in_r = contains_id(&r, &x);
        if !in_b && !in_r {
            r.push(x);
            proof {
                assert(ids_view(r@) =~= r0.push(x.0@));
            }
        }
        proof {
            let t1 = ids_view(a@).take(i + 1);
            let t0 = ids_view(a@).take(i as int);
            assert forall|y: Seq<u8>| ids_view(r@).contains(y) <==> t1.contains(y) && !ids_view(b@).contains(y) by {
                if y == x.0@ {
                    assert(t1[i as int] == y);
                    if !in_b && !in_r {
                        assert(ids_view(r@)[r0.len() as int] == y);
                    } else {
                        assert(ids_view(r@) == r0);
                    }
                } else {
                    if in_b || in_r {
                        assert(ids_view(r@) == r0);
                    }
                    if t1.contains(y) {
                        let k = choose|k: int| 0 <= k < t1.len() && t1[k] == y;
                        assert(t0[k] == y);
                    }
                    if t0.contains(y) {
                        let k = choose|k: int| 0 <= k < t0.len() && t0[k] == y;
                        assert(t1[k] == y);
                    }
                    if ids_view(r@).contains(y) && !in_b && !in_r {
                        let k = choose|k: int| 0 <= k < ids_view(r@).len() && ids_view(r@)[k] == y;
                        assert(r0[k] == y);
                    }
                    if r0.contains(y) && !in_b && !in_r {
                        let k = choose|k: int| 0 <= k < r0.len() && r0[k] == y;
                        assert(ids_view(r@)[k] == y);
                    }
                }
            }
        }
        i += 1;
    }
    proof {
        assert(ids_view(a@).take(a@.len() as int) =~= ids_view(a@));
    }
    r
}

impl CheckpointRepo {
    /// Looks up a snapshot; without a storage backend there is none to look
    /// in, so this is always `NotFound`.
    pub fn get_snapshot_by_id(&self, snap_id: &SnapshotId) -> (r: Result<Snapshot, StratumError>)
        ensures
            r matches Err(StratumError::NotFound(m)) && m@ == snapshot_lookup_msg(snap_id.0@),
    {
        Err(StratumError::NotFound(snapshot_message(snap_id, " lookup requires storage backend")))
    }

    /// The ancestry of a checkpoint: every checkpoint reachable from it
    /// through parents (passing over identifiers without a checkpoint), each
    /// once, in reverse breadth-first order, so the checkpoint itself comes last.
    pub fn get_ancestry_chain(&self, cp_id: &CheckpointId) -> (r: Result<Vec<CheckpointId>, StratumError>)
        requires
            self.wf(),
        ensures
            r matches Ok(v) && {
                let pg = parent_graph(self@.checkpoints);
                &&& v@.len() >= 1
                &&& v@.last().0@ == cp_id.0@
                &&& ids_view(v@).no_duplicates()
                &&& forall|x: Seq<u8>| ids_view(v@).contains(x) <==> reaches(pg, cp_id.0@, x)
                &&& forall|i: int| 0 <= i < v@.len() - 1 ==> exists|j: int| i < j < v@.len() && edge(pg, v@[j].0@, #[trigger] v@[i].0@)
            },
    {
        let table = self.parent_table();
        let order = search_order(&table, *cp_id);
        let n = order.len();
        let mut v: Vec<CheckpointId> = Vec::new();
        let mut i: usize = n;
        while i > 0
            invariant
                i <= n,
                n == order@.len(),
                v@.len() == n - i,
                forall|j: int| 0 <= j < v@.len() ==> (#[trigger] v@[j]).0@ == order@[n - 1 - j].0@,
            decreases i,
        {
            i -= 1;
            v.push(order[i]);
        }
        proof {
            let ov = ids_view(order@);
            assert(ids_view(v@) =~= ov.reverse());
            assert(v@.last().0@ == order@[0].0@);
            assert forall|a: int, b: int| 0 <= a < b < v@.len() implies ids_view(v@)[a] != ids_view(v@)[b] by {
                assert(ov[n - 1 - a] != ov[n - 1 - b]);
            }
            assert forall|x: Seq<u8>| ids_view(v@).contains(x) <==> reaches(parent_graph(self@.checkpoints), cp_id.0@, x) by {
                if ids_view(v@).contains(x) {
                    let a = choose|a: int| 0 <= a < v@.len() && ids_view(v@)[a] == x;
                    assert(reaches(table_view(table@), cp_id.0@, order@[n - 1 - a].0@));
                }
                if reaches(parent_graph(self@.checkpoints), cp_id.0@, x) {
                    let k = choose|k: int| 0 <= k < ov.len() && ov[k] == x;
                    assert(ids_view(v@)[n - 1 - k] == x);
                }
            }
            assert forall|a: int| 0 <= a < v@.len() - 1 implies exists|j: int| a < j < v@.len() && edge(parent_graph(self@.checkpoints), v@[j].0@, #[trigger] v@[a].0@) by {
                let k = n - 1 - a;
                let jj = choose|jj: int| 0 <= jj < k && edge(table_view(table@), order@[jj].0@, order@[k].0@);
                assert(v@[n - 1 - jj].0@ == order@[jj].0@);
            }
        }
        Ok(v)
    }

    /// Restores a checkpoint in full: the checkpoint, the content of every
    /// snapshot it holds, and its ancestry. An error when the checkpoint is
    /// absent or one of its snapshots cannot be looked up (always, without a
    /// storage backend, unless it holds none).
    pub fn restore_full(&self, cp_id: &CheckpointId) -> (r: Result<RestoreResponse, StratumError>)
        requires
            self.wf(),
        ensures
            !has_checkpoint(self@.checkpoints, cp_id.0@) ==> (r matches Err(StratumError::NotFound(m)) && m@ == not_found_checkpoint_msg(cp_id.0@)),
            has_checkpoint(self@.checkpoints, cp_id.0@) && checkpoint_of(self@.checkpoints, cp_id.0@).baselines.len() > 0
                ==> (r matches Err(StratumError::NotFound(m)) && m@ == snapshot_lookup_msg(checkpoint_of(self@.checkpoints, cp_id.0@).baselines[0])),
            r is Ok <==> has_checkpoint(self@.checkpoints, cp_id.0@) && checkpoint_of(self@.checkpoints, cp_id.0@).baselines.len() == 0,
            r matches Ok(resp) ==> {
                &&& resp.checkpoint@ == checkpoint_of(self@.checkpoints, cp_id.0@)
                &&& resp.snapshots@.len() == 0
                &&& forall|x: Seq<u8>| ids_view(resp.ancestry@).contains(x) <==> reaches(parent_graph(self@.checkpoints), cp_id.0@, x)
                &&& resp.ancestry@.len() >= 1 && resp.ancestry@.last().0@ == cp_id.0@
            },
    {
        let cp = self.get_checkpoint(cp_id)?;
        let ancestry = self.get_ancestry_chain(cp_id)?;
        if cp.baseline_snapshots.len() > 0 {
            let e = self.get_snapshot_by_id(&cp.baseline_snapshots[0]);
            match e {
                Err(err) => return Err(err),
                Ok(_) => {
                    proof {
                        assert(false);
                    }
                },
            }
        }
        Ok(RestoreResponse { checkpoint: cp.duplicate(), snapshots: Vec::new(), ancestry })
    }

    /// Restores in full (see `restore_full`) the checkpoint created nearest a
    /// target time, Unix milliseconds (see `nearest_checkpoint`); `NotFound`
    /// when no checkpoint lies nearer than `i64::MAX`. Selecting snapshots by
    /// a source pattern is not part of this library: `source_filter` is `None`.
    pub fn restore_by_time(&self, target_time: i64, source_filter: Option<&str>) -> (r: Result<RestoreResponse, StratumError>)
        requires
            self.wf(),
            times_within_range(self@.checkpoints, target_time),
            source_filter is None,
        ensures
            none_near(self@.checkpoints, target_time) ==> (r matches Err(StratumError::NotFound(m)) && m@
                == "No checkpoint near target time"@),
            r matches Ok(resp) ==> exists|i: int| #[trigger] nearest_at(self@.checkpoints, target_time, i)
                && resp.checkpoint@ == self@.checkpoints[i] && self@.checkpoints[i].baselines.len() == 0,
            !none_near(self@.checkpoints, target_time) && r is Err ==> exists|i: int| #[trigger] nearest_at(self@.checkpoints, target_time, i)
                && self@.checkpoints[i].baselines.len() > 0 && (r matches Err(StratumError::NotFound(m)) && m@ == snapshot_lookup_msg(
                self@.checkpoints[i].baselines[0],
            )),
            !none_near(self@.checkpoints, target_time) && (forall|i: int| #[trigger] nearest_at(self@.checkpoints, target_time, i)
                ==> self@.checkpoints[i].baselines.len() == 0) ==> r is Ok,
    {
        match self.nearest_checkpoint(target_time) {
            None => Err(StratumError::NotFound("No checkpoint near target time".to_string())),
            Some(id) => {
                let ghost cs = self@.checkpoints;
                let ghost i = choose|i: int| #[trigger] nearest_at(cs, target_time, i) && cs[i].id == id.0@;
                proof {
                    self.lemma_wf_parts();
                    assert(has_checkpoint(cs, id.0@));
                    let j = choose|j: int| 0 <= j < cs.len() && cs[j].id == id.0@;
                    assert(j == i) by {
                        if j != i {
                            if j < i {
                                assert(cs[j].id != cs[i].id);
                            } else {
                                assert(cs[i].id != cs[j].id);
                            }
                        }
                    }
                    assert(checkpoint_of(cs, id.0@) == cs[i]);
                }
                self.restore_full(&id)
            },
        }
    }

    /// Each snapshot of a checkpoint with its source, content type and size;
    /// without a storage backend these are `""`, `"unknown"` and 0. An error
    /// when the checkpoint is absent.
    pub fn list_snapshots(&self, cp_id: &CheckpointId) -> (r: Result<Vec<(SnapshotId, String, String, usize)>, StratumError>)
        requires
            self.wf(),
        ensures
            !has_checkpoint(self@.checkpoints, cp_id.0@) ==> (r matches Err(StratumError::NotFound(m)) && m@ == not_found_checkpoint_msg(cp_id.0@)),
            r is Ok <==> has_checkpoint(self@.checkpoints, cp_id.0@),
            r matches Ok(v) ==> {
                let bs = checkpoint_of(self@.checkpoints, cp_id.0@).baselines;
                &&& v@.len() == bs.len()
                &&& forall|i: int| 0 <= i < v@.len() ==> (#[trigger] v@[i]).0.0@ == bs[i] && v@[i].1@ == Seq::<char>::empty()
                    && v@[i].2@ == "unknown"@ && v@[i].3 == 0
            },
    {
        let cp = self.get_checkpoint(cp_id)?;
        let mut v: Vec<(SnapshotId, String, String, usize)> = Vec::new();
        let mut i: usize = 0;
        while i < cp.baseline_snapshots.len()
            invariant
                i <= cp.baseline_snapshots@.len(),
                v@.len() == i,
                forall|j: int| 0 <= j < i ==> (#[trigger] v@[j]).0.0@ == cp.baseline_snapshots@[j].0@ && v@[j].1@ == Seq::<char>::empty()
                    && v@[j].2@ == "unknown"@ && v@[j].3 == 0,
            decreases cp.baseline_snapshots@.len() - i,
        {
            v.push((cp.baseline_snapshots[i], String::new(), "unknown".to_string(), 0));
            i += 1;
        }
        Ok(v)
    }

    /// The snapshots added and removed between two checkpoints, each once;
    /// snapshots of both count as modified when their contents differ, and
    /// without a storage backend no content can be looked up, so none does.
    /// An error when either checkpoint is absent.
    pub fn diff_checkpoints(&self, from_id: &CheckpointId, to_id: &CheckpointId) -> (r: Result<CheckpointDiff, StratumError>)
        requires
            self.wf(),
        ensures
            !has_checkpoint(self@.checkpoints, from_id.0@) ==> (r matches Err(StratumError::NotFound(m)) && m@ == not_found_checkpoint_msg(from_id.0@)),
            has_checkpoint(self@.checkpoints, from_id.0@) && !has_checkpoint(self@.checkpoints, to_id.0@) ==> (r matches Err(
                StratumError::NotFound(m),
            ) && m@ == not_found_checkpoint_msg(to_id.0@)),
            r is Ok <==> has_checkpoint(self@.checkpoints, from_id.0@) && has_checkpoint(self@.checkpoints, to_id.0@),
            r matches Ok(d) ==> {
                let f = checkpoint_of(self@.checkpoints, from_id.0@).baselines;
                let t = checkpoint_of(self@.checkpoints, to_id.0@).baselines;
                &&& d.from_id.0@ == from_id.0@
                &&& d.to_id.0@ == to_id.0@
                &&& ids_view(d.added@).no_duplicates()
                &&& ids_view(d.removed@).no_duplicates()
                &&& forall|x: Seq<u8>| ids_view(d.added@).contains(x) <==> t.contains(x) && !f.contains(x)
                &&& forall|x: Seq<u8>| ids_view(d.removed@).contains(x) <==> f.contains(x) && !t.contains(x)
                &&& d.modified@.len() == 0
            },
    {
        let from_cp = self.get_checkpoint(from_id)?;
        let to_cp = self.get_checkpoint(to_id)?;
        let removed = difference(&from_cp.baseline_snapshots, &to_cp.baseline_snapshots);
        let added = difference(&to_cp.baseline_snapshots, &from_cp.baseline_snapshots);
        Ok(CheckpointDiff { from_id: *from_id, to_id: *to_id, added, removed, modified: Vec::new() })
    }

    /// The integrity problems of a checkpoint: for each of its snapshots that
    /// cannot be found (every one, without a storage backend), the message
    /// `"Snapshot <hex> referenced but not found"`. An error when the
    /// checkpoint is absent.
    pub fn validate_integrity(&self, cp_id: &CheckpointId) -> (r: Result<Vec<String>, StratumError>)
        requires
            self.wf(),
        ensures
            !has_checkpoint(self@.checkpoints, cp_id.0@) ==> (r matches Err(StratumError::NotFound(m)) && m@ == not_found_checkpoint_msg(cp_id.0@)),
            r is Ok <==> has_checkpoint(self@.checkpoints, cp_id.0@),
            r matches Ok(v) ==> {
                let bs = checkpoint_of(self@.checkpoints, cp_id.0@).baselines;
                &&& v@.len() == bs.len()
                &&& forall|i: int| 0 <= i < v@.len() ==> (#[trigger] v@[i])@ == snapshot_missing_msg(bs[i])
            },
    {
        let cp = self.get_checkpoint(cp_id)?;
        let mut issues: Vec<String> = Vec::new();
        let mut i: usize = 0;
        while i < cp.baseline_snapshots.len()
            invariant
                i <= cp.baseline_snapshots@.len(),
                issues@.len() == i,
                forall|j: int| 0 <= j < i ==> (#[trigger] issues@[j])@ == snapshot_missing_msg(cp.baseline_snapshots@[j].0@),
            decreases cp.baseline_snapshots@.len() - i,
        {
            match self.get_snapshot_by_id(&cp.baseline_snapshots[i]) {
                Ok(_) => {
                    proof {
                        assert(false);
                    }
                },
                Err(_) => {
                    issues.push(snapshot_message(&cp.baseline_snapshots[i], " referenced but not found"));
                },
            }
            i += 1;
        }
        Ok(issues)
    }
}

} // verus!
