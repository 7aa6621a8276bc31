//! The checkpoint repository: checkpoints, branches and the DAG of their history.

use crate::checkpoint::branch::Branch;
use crate::checkpoint::checkpoint::{Checkpoint, CheckpointMetadata, CheckpointV, MetadataV, new_checkpoint_id};
use crate::checkpoint::dag::{CheckpointDag, DagEntry, ensure_node, has_id, with_edge};
use crate::checkpoint::graph::{edge, reaches, search_order, succ, table_view};
use crate::error::{StorageError, StratumError};
use crate::storage::repository::{BranchStore, CheckpointStore, DagStore, MetadataStore};
use crate::model::snapshot::{copy_ids, ids_view};
use crate::model::types::{spec_hex, CheckpointId, ContentId, SnapshotId};
use crate::text::append_str;
use vstd::prelude::*;

verus! {

broadcast use vstd::string::group_string_axioms;

/// The view of a branch: its name and head.
pub open spec fn branch_view(b: Branch) -> (Seq<char>, Seq<u8>) {
    (b.name@, b.head.0@)
}

/// The views of a list of branches.
pub open spec fn branches_view(bs: Seq<Branch>) -> Seq<(Seq<char>, Seq<u8>)> {
    Seq::new(bs.len(), |i: int| branch_view(bs[i]))
}

/// The times (made, last moved) of some branches.
pub open spec fn branch_times(bs: Seq<Branch>) -> Seq<(i64, i64)> {
    Seq::new(bs.len(), |i: int| (bs[i].created_at, bs[i].updated_at))
}

/// Whether, of the branches' times, at most the time the branch at `k` last
/// moved changed.
pub open spec fn moved_at(before: Seq<(i64, i64)>, after: Seq<(i64, i64)>, k: int) -> bool {
    &&& after.len() == before.len()
    &&& forall|i: int| 0 <= i < before.len() ==> after[i].0 == before[i].0 && (i != k ==> after[i].1 == before[i].1)
}

/// The views of a list of checkpoints.
pub open spec fn checkpoints_view(cs: Seq<Checkpoint>) -> Seq<CheckpointV> {
    Seq::new(cs.len(), |i: int| cs[i]@)
}

/// How far a creation time lies from a target time.
pub open spec fn time_distance(created_at: i64, target: i64) -> int {
    if created_at >= target { created_at - target } else { target - created_at }
}

/// Whether the distance of every checkpoint from the target time fits in an
/// `i64` (the subtraction and its absolute value do not overflow).
pub open spec fn times_within_range(cs: Seq<CheckpointV>, target: i64) -> bool {
    forall|i: int| 0 <= i < cs.len() ==> time_distance((#[trigger] cs[i]).created_at, target) <= i64::MAX
}

/// Whether no checkpoint lies nearer the target time than `i64::MAX`.
pub open spec fn none_near(cs: Seq<CheckpointV>, target: i64) -> bool {
    forall|i: int| 0 <= i < cs.len() ==> time_distance((#[trigger] cs[i]).created_at, target) == i64::MAX
}

/// Whether checkpoint `i` is one nearest the target time: its distance is
/// below `i64::MAX` and no checkpoint lies nearer.
pub open spec fn nearest_at(cs: Seq<CheckpointV>, target: i64, i: int) -> bool {
    &&& 0 <= i < cs.len()
    &&& time_distance(cs[i].created_at, target) < i64::MAX
    &&& forall|j: int| 0 <= j < cs.len() ==> time_distance(cs[i].created_at, target) <= time_distance((#[trigger] cs[j]).created_at, target)
}

/// The stored checkpoints reachable from `start` through parents.
pub open spec fn reachable_stored(cs: Seq<CheckpointV>, start: Seq<u8>) -> Set<Seq<u8>> {
    Set::new(|x: Seq<u8>| reaches(parent_graph(cs), start, x) && has_checkpoint(cs, x))
}

/// Counting the history: identifiers, each once, of stored checkpoints
/// reachable from `start`, at most `count` of them and all of them when fewer,
/// are exactly `count` or all reachable stored checkpoints, whichever is fewer.
pub proof fn lemma_log_length(cs: Seq<CheckpointV>, start: Seq<u8>, ids: Seq<Seq<u8>>, count: int)
    requires
        ids.no_duplicates(),
        ids.len() <= count,
        forall|i: int| 0 <= i < ids.len() ==> reachable_stored(cs, start).contains(#[trigger] ids[i]),
        ids.len() < count ==> forall|x: Seq<u8>| #[trigger] reachable_stored(cs, start).contains(x) ==> ids.contains(x),
    ensures
        reachable_stored(cs, start).finite(),
        ids.len() == if count < reachable_stored(cs, start).len() { count } else { reachable_stored(cs, start).len() as int },
{
    let all = reachable_stored(cs, start);
    let stored = Seq::new(cs.len(), |i: int| cs[i].id).to_set();
    vstd::seq_lib::seq_to_set_is_finite(Seq::new(cs.len(), |i: int| cs[i].id));
    assert(all.subset_of(stored)) by {
        assert forall|x: Seq<u8>| all.contains(x) implies stored.contains(x) by {
            let i = choose|i: int| 0 <= i < cs.len() && cs[i].id == x;
            assert(Seq::new(cs.len(), |j: int| cs[j].id)[i] == x);
        }
    }
    vstd::set_lib::lemma_len_subset(all, stored);
    ids.unique_seq_to_set();
    vstd::seq_lib::seq_to_set_is_finite(ids);
    assert(ids.to_set().subset_of(all)) by {
        assert forall|x: Seq<u8>| ids.to_set().contains(x) implies all.contains(x) by {
            let i = choose|i: int| 0 <= i < ids.len() && ids[i] == x;
        }
    }
    vstd::set_lib::lemma_len_subset(ids.to_set(), all);
    if ids.len() < count {
        assert(all.subset_of(ids.to_set()));
        vstd::set_lib::lemma_len_subset(all, ids.to_set());
    }
}

/// The view of a repository.
pub struct RepoV {
    pub branches: Seq<(Seq<char>, Seq<u8>)>,
    pub current: int,
    pub dag: Seq<DagEntry>,
    pub checkpoints: Seq<CheckpointV>,
}

/// The checkpoint repository.
pub struct CheckpointRepo {
    /// All branches.
    pub branches: Vec<Branch>,
    /// Index of the current branch.
    pub current_branch: usize,
    /// The history DAG.
    pub checkpoint_dag: CheckpointDag,
    /// All checkpoints, each identifier once.
    pub(crate) checkpoints: Vec<Checkpoint>,
}

/// Whether a checkpoint with identifier `k` is present.
pub open spec fn has_checkpoint(cs: Seq<CheckpointV>, k: Seq<u8>) -> bool {
    exists|i: int| 0 <= i < cs.len() && cs[i].id == k
}

/// The checkpoint with identifier `k`.
pub open spec fn checkpoint_of(cs: Seq<CheckpointV>, k: Seq<u8>) -> CheckpointV {
    cs[choose|i: int| 0 <= i < cs.len() && cs[i].id == k]
}

/// Checkpoints with distinct identifiers.
pub open spec fn distinct_ids(cs: Seq<CheckpointV>) -> bool {
    forall|i: int, j: int| 0 <= i < j < cs.len() ==> cs[i].id != cs[j].id
}

/// The checkpoints with `c` stored: in place of the one with its identifier,
/// or added at the end.
pub open spec fn store_checkpoint(cs: Seq<CheckpointV>, c: CheckpointV) -> Seq<CheckpointV> {
    if has_checkpoint(cs, c.id) {
        cs.update(choose|i: int| 0 <= i < cs.len() && cs[i].id == c.id, c)
    } else {
        cs.push(c)
    }
}

/// The parent table of the checkpoints: each checkpoint with its parents.
pub open spec fn parent_graph(cs: Seq<CheckpointV>) -> Seq<(Seq<u8>, Seq<Seq<u8>>)> {
    Seq::new(cs.len(), |i: int| (cs[i].id, cs[i].parents))
}

/// The index of the first branch named `name`.
pub open spec fn branch_index(bs: Seq<(Seq<char>, Seq<u8>)>, name: Seq<char>) -> Option<int> {
    if exists|i: int| 0 <= i < bs.len() && bs[i].0 == name {
        Some(choose|i: int| 0 <= i < bs.len() && bs[i].0 == name && forall|j: int| 0 <= j < i ==> bs[j].0 != name)
    } else {
        None
    }
}

/// Whether `i` is the first branch named `name`.
pub open spec fn first_branch(bs: Seq<(Seq<char>, Seq<u8>)>, name: Seq<char>, i: int) -> bool {
    0 <= i < bs.len() && bs[i].0 == name && forall|j: int| 0 <= j < i ==> bs[j].0 != name
}

pub open spec fn not_found_checkpoint_msg(id: Seq<u8>) -> Seq<char> {
    "checkpoint "@ + spec_hex(id) + " not found"@
}

pub open spec fn branch_exists_msg(name: Seq<char>) -> Seq<char> {
    "branch '"@ + name + "' already exists"@
}

pub open spec fn branch_missing_msg(name: Seq<char>) -> Seq<char> {
    "branch '"@ + name + "' not found"@
}

impl View for CheckpointRepo {
    type V = RepoV;

    closed spec fn view(&self) -> RepoV {
        RepoV {
            branches: branches_view(self.branches@),
            current: self.current_branch as int,
            dag: self.checkpoint_dag@,
            checkpoints: checkpoints_view(self.checkpoints@),
        }
    }
}

impl CheckpointRepo {
    /// The branches, with the times they were made and last moved.
    pub closed spec fn branch_seq(&self) -> Seq<Branch> {
        self.branches@
    }
}

impl RepoV {
    /// The head of the current branch.
    pub open spec fn head(self) -> Seq<u8> {
        self.branches[self.current].1
    }
}

fn not_found_checkpoint(id: &CheckpointId) -> (r: StratumError)
    ensures
        r matches StratumError::NotFound(m) && m@ == not_found_checkpoint_msg(id.0@),
{
    let mut s = String::new();
    append_str(&mut s, "checkpoint ");
    let h = id.to_hex();
    append_str(&mut s, h.as_str());
    append_str(&mut s, " not found");
    StratumError::NotFound(s)
}

fn branch_message(name: &str, tail: &str) -> (r: String)
    ensures
        r@ == "branch '"@ + name@ + tail@,
{
    let mut s = String::new();
    append_str(&mut s, "branch '");
    append_str(&mut s, name);
    append_str(&mut s, tail);
    s
}

impl CheckpointRepo {
    /// The repository's consistency: a valid current branch, a consistent DAG
    /// and distinct checkpoint identifiers.
    pub closed spec fn wf(&self) -> bool {
        &&& self.current_branch < self.branches@.len()
        &&& self.checkpoint_dag.wf()
        &&& distinct_ids(checkpoints_view(self.checkpoints@))
    }

    /// A consistent repository has a consistent DAG and distinct checkpoints.
    pub(crate) proof fn lemma_wf_parts(&self)
        requires
            self.wf(),
        ensures
            self.checkpoint_dag.wf(),
            self.checkpoint_dag@ == self@.dag,
            crate::checkpoint::dag::entries_wf(self@.dag),
            distinct_ids(self@.checkpoints),
            0 <= self@.current < self@.branches.len(),
    {
        self.checkpoint_dag.lemma_entries();
    }

    /// A repository whose root checkpoint (author `"system"`, message
    /// `"root checkpoint"`, no parents) holds the given snapshots, with one
    /// branch `"main"` at the root.
    pub fn new(initial_snapshots: Vec<SnapshotId>) -> (r: CheckpointRepo)
        ensures
            r.wf(),
            r@.checkpoints.len() == 1,
            r@.checkpoints[0].parents.len() == 0,
            r@.checkpoints[0].baselines == ids_view(initial_snapshots@),
            r@.checkpoints[0].metadata == (MetadataV { author: "system"@, message: "root checkpoint"@, git_anchor: None }),
            r@.checkpoints[0].id == new_checkpoint_id(seq![], ids_view(initial_snapshots@), "system"@, "root checkpoint"@),
            r@.branches == seq![("main"@, r@.checkpoints[0].id)],
            r@.current == 0,
            r@.dag == seq![DagEntry { id: r@.checkpoints[0].id, children: seq![], generation: 0 }],
    {
        let metadata = CheckpointMetadata::new("system", "root checkpoint");
        let no_parents: Vec<CheckpointId> = Vec::new();
        proof {
            assert(ids_view(no_parents@) =~= Seq::<Seq<u8>>::empty());
        }
        let root = Checkpoint::new(initial_snapshots, no_parents, metadata);
        let root_id = root.id;
        let mut dag = CheckpointDag::new();
        dag.add_node(root_id);
        let mut checkpoints: Vec<Checkpoint> = Vec::new();
        checkpoints.push(root);
        let mut branches: Vec<Branch> = Vec::new();
        branches.push(Branch::new("main", root_id));
        let r = CheckpointRepo { branches, current_branch: 0, checkpoint_dag: dag, checkpoints };
        proof {
            assert(r@.branches =~= seq![("main"@, r@.checkpoints[0].id)]);
            assert(r@.dag =~= seq![DagEntry { id: r@.checkpoints[0].id, children: seq![], generation: 0 }]);
        }
        r
    }

    /// A repository whose root checkpoint holds one snapshot.
    pub fn new_single(initial_snapshot: SnapshotId) -> (r: CheckpointRepo)
        ensures
            r.wf(),
            r@.checkpoints.len() == 1,
            r@.checkpoints[0].baselines == seq![initial_snapshot.0@],
            r@.checkpoints[0].parents.len() == 0,
            r@.checkpoints[0].metadata == (MetadataV { author: "system"@, message: "root checkpoint"@, git_anchor: None }),
            r@.checkpoints[0].id == new_checkpoint_id(seq![], seq![initial_snapshot.0@], "system"@, "root checkpoint"@),
            r@.branches == seq![("main"@, r@.checkpoints[0].id)],
            r@.current == 0,
            r@.dag == seq![DagEntry { id: r@.checkpoints[0].id, children: seq![], generation: 0 }],
    {
        let mut v: Vec<SnapshotId> = Vec::new();
        v.push(initial_snapshot);
        proof {
            assert(ids_view(v@) =~= seq![initial_snapshot.0@]);
        }
        CheckpointRepo::new(v)
    }

    /// Index of the checkpoint `id`, if present.
    fn position(&self, id: &CheckpointId) -> (r: Option<usize>)
        requires
            self.wf(),
        ensures
            r matches Some(i) ==> i < self@.checkpoints.len() && self@.checkpoints[i as int].id == id.0@
                && (choose|j: int| 0 <= j < self@.checkpoints.len() && self@.checkpoints[j].id == id.0@) == i,
            r is None ==> !has_checkpoint(self@.checkpoints, id.0@),
    {
        let ghost cs = self@.checkpoints;
        let mut i: usize = 0;
        while i < self.checkpoints.len()
            invariant
                cs == checkpoints_view(self.checkpoints@),
                distinct_ids(cs),
                i <= self.checkpoints@.len(),
                forall|j: int| 0 <= j < i ==> cs[j].id != id.0@,
            decreases self.checkpoints@.len() - i,
        {
            if self.checkpoints[i].id == *id {
                proof {
                    assert(cs[i as int].id == id.0@);
                    let j = choose|j: int| 0 <= j < cs.len() && cs[j].id == id.0@;
                    if j != i {
                        if j < i {
                            assert(cs[j].id != cs[i as int].id);
                        } else {
                            assert(cs[i as int].id != cs[j].id);
                        }
                    }
                }
                return Some(i);
            }
            i += 1;
        }
        None
    }

    /// The checkpoint `id`; `NotFound("checkpoint <hex> not found")` when absent.
    pub fn get_checkpoint(&self, id: &CheckpointId) -> (r: Result<&Checkpoint, StratumError>)
        requires
            self.wf(),
        ensures
            has_checkpoint(self@.checkpoints, id.0@) <==> r is Ok,
            r matches Ok(c) ==> c@ == checkpoint_of(self@.checkpoints, id.0@),
            r matches Err(e) ==> e matches StratumError::NotFound(m) && m@ == not_found_checkpoint_msg(id.0@),
    {
        match self.position(id) {
            Some(i) => Ok(&self.checkpoints[i]),
            None => Err(not_found_checkpoint(id)),
        }
    }

    /// The checkpoint created nearest a target time (Unix milliseconds), among
    /// those whose distance from it is below `i64::MAX`; `None` when there is
    /// none. Where several lie equally near, the first stored is taken.
    pub fn nearest_checkpoint(&self, target_time: i64) -> (r: Option<CheckpointId>)
        requires
            times_within_range(self@.checkpoints, target_time),
        ensures
            r is None <==> none_near(self@.checkpoints, target_time),
            r matches Some(id) ==> exists|i: int| #[trigger] nearest_at(self@.checkpoints, target_time, i) && self@.checkpoints[i].id == id.0@,
    {
        let ghost cs = self@.checkpoints;
        let mut best: Option<usize> = None;
        let mut min_diff: i64 = i64::MAX;
        let mut k: usize = 0;
        while k < self.checkpoints.len()
            invariant
                cs == checkpoints_view(self.checkpoints@),
                times_within_range(cs, target_time),
                k <= cs.len(),
                match best {
                    None => min_diff == i64::MAX && forall|j: int| 0 <= j < k ==> time_distance((#[trigger] cs[j]).created_at, target_time) == i64::MAX,
                    Some(b) => b < k && min_diff == time_distance(cs[b as int].created_at, target_time) && min_diff < i64::MAX
                        && forall|j: int| 0 <= j < k ==> min_diff <= time_distance((#[trigger] cs[j]).created_at, target_time),
                },
            decreases cs.len() - k,
        {
            let created = self.checkpoints[k].created_at;
            proof {
                assert(cs[k as int].created_at == created);
                assert(time_distance(cs[k as int].created_at, target_time) <= i64::MAX);
            }
            let diff: i64 = if created >= target_time { created - target_time } else { target_time - created };
            if diff < min_diff {
                min_diff = diff;
                best = Some(k);
            }
            k += 1;
        }
        match best {
            None => None,
            Some(b) => {
                proof {
                    assert(nearest_at(cs, target_time, b as int));
                }
                Some(self.checkpoints[b].id)
            },
        }
    }

    /// The checkpoint `id` for modification; `NotFound` when absent. Whatever
    /// is done through the reference becomes that checkpoint.
    pub fn get_checkpoint_mut(&mut self, id: &CheckpointId) -> (r: Result<&mut Checkpoint, StratumError>)
        requires
            old(self).wf(),
        ensures
            has_checkpoint(old(self)@.checkpoints, id.0@) <==> r is Ok,
            r matches Err(e) ==> e matches StratumError::NotFound(m) && m@ == not_found_checkpoint_msg(id.0@),
            r is Err ==> final(self)@ == old(self)@,
            r matches Ok(c) ==> {
                let i = choose|j: int| 0 <= j < old(self)@.checkpoints.len() && old(self)@.checkpoints[j].id == id.0@;
                &&& c@ == old(self)@.checkpoints[i]
                &&& final(self)@.checkpoints == old(self)@.checkpoints.update(i, final(c)@)
                &&& final(self)@.branches == old(self)@.branches
                &&& final(self)@.current == old(self)@.current
                &&& final(self)@.dag == old(self)@.dag
            },
    {
        match self.position(id) {
            Some(i) => {
                Ok(&mut self.checkpoints[i])
            },
            None => Err(not_found_checkpoint(id)),
        }
    }

    /// Stores a checkpoint, in place of the one with the same identifier.
    fn store(&mut self, cp: Checkpoint)
        requires
            old(self).wf(),
        ensures
            final(self).wf(),
            final(self)@ == (RepoV { checkpoints: store_checkpoint(old(self)@.checkpoints, cp@), ..old(self)@ }),
            final(self).branch_seq() == old(self).branch_seq(),
    {
        let ghost cv = cp@;
        let ghost cs = self@.checkpoints;
        match self.position(&cp.id) {
            Some(i) => {
                self.checkpoints.set(i, cp);
                proof {
                    assert(checkpoints_view(self.checkpoints@) =~= cs.update(i as int, cv));
                    assert forall|a: int, b: int| 0 <= a < b < cs.len() implies cs.update(i as int, cv)[a].id != cs.update(i as int, cv)[b].id by {
                        assert(cs[a].id != cs[b].id);
                    }
                }
            },
            None => {
                self.checkpoints.push(cp);
                proof {
                    assert(checkpoints_view(self.checkpoints@) =~= cs.push(cv));
                    assert forall|a: int, b: int| 0 <= a < b < cs.len() + 1 implies cs.push(cv)[a].id != cs.push(cv)[b].id by {
                        if b == cs.len() {
                            assert(cs[a].id != cv.id);
                        } else {
                            assert(cs[a].id != cs[b].id);
                        }
                    }
                }
            },
        }
    }

    /// The head of the current branch.
    pub fn current_branch_head(&self) -> (r: CheckpointId)
        requires
            self.wf(),
        ensures
            r.0@ == self@.head(),
    {
        self.branches[self.current_branch].head
    }

    /// The current branch, for modification; whatever is done through the
    /// reference becomes the current branch.
    pub fn current_branch_mut(&mut self) -> (r: &mut Branch)
        requires
            old(self).wf(),
        ensures
            final(self).wf(),
            branch_view(*r) == old(self)@.branches[old(self)@.current],
            final(self)@.branches == old(self)@.branches.update(old(self)@.current, branch_view(*final(r))),
            final(self)@.current == old(self)@.current,
            final(self)@.dag == old(self)@.dag,
            final(self)@.checkpoints == old(self)@.checkpoints,
            *r == old(self).branch_seq()[old(self)@.current],
            final(self).branch_seq() == old(self).branch_seq().update(old(self)@.current, *final(r)),
    {
        let i = self.current_branch;
        &mut self.branches[i]
    }

    /// The name of the current branch.
    pub fn current_branch_name(&self) -> (r: &str)
        requires
            self.wf(),
        ensures
            r@ == self@.branches[self@.current].0,
    {
        self.branches[self.current_branch].name.as_str()
    }

    /// Index of the first branch named `name`.
    fn branch_position(&self, name: &str) -> (r: Option<usize>)
        ensures
            r matches Some(i) ==> first_branch(self@.branches, name@, i as int),
            r is None ==> forall|j: int| 0 <= j < self@.branches.len() ==> self@.branches[j].0 != name@,
    {
        let n = name.to_string();
        let mut i: usize = 0;
        while i < self.branches.len()
            invariant
                n@ == name@,
                i <= self.branches@.len(),
                forall|j: int| 0 <= j < i ==> self@.branches[j].0 != name@,
            decreases self.branches@.len() - i,
        {
            if self.branches[i].name == n {
                return Some(i);
            }
            i += 1;
        }
        None
    }

    /// Commits the given snapshots as a new checkpoint on the current branch:
    /// its parent is the branch head, it joins the DAG as a child of the head,
    /// and the branch moves to it. An error when no snapshot is given.
    pub fn commit(&mut self, snapshot_ids: Vec<SnapshotId>, message: &str, author: &str) -> (r: Result<CheckpointId, StratumError>)
        requires
            old(self).wf(),
        ensures
            final(self).wf(),
            snapshot_ids@.len() == 0 <==> r is Err,
            r is Err ==> final(self)@ == old(self)@,
            r matches Err(e) ==> e matches StratumError::Checkpoint(m) && m@ == "cannot commit with empty snapshot list"@,
            moved_at(branch_times(old(self).branch_seq()), branch_times(final(self).branch_seq()), old(self)@.current),
            r matches Ok(id) ==> {
                let c = checkpoint_of(final(self)@.checkpoints, id.0@);
                &&& id.0@ == new_checkpoint_id(seq![old(self)@.head()], ids_view(snapshot_ids@), author@, message@)
                &&& has_checkpoint(final(self)@.checkpoints, id.0@)
                &&& c.parents == seq![old(self)@.head()]
                &&& c.baselines == ids_view(snapshot_ids@)
                &&& c.metadata == (MetadataV { author: author@, message: message@, git_anchor: None })
                &&& final(self)@.checkpoints == store_checkpoint(old(self)@.checkpoints, c)
                &&& final(self)@.dag == with_edge(ensure_node(old(self)@.dag, id.0@), old(self)@.head(), id.0@)
                &&& final(self)@.branches == old(self)@.branches.update(old(self)@.current, (old(self)@.branches[old(self)@.current].0, id.0@))
                &&& final(self)@.current == old(self)@.current
            },
    {
        if snapshot_ids.len() == 0 {
            return Err(StratumError::Checkpoint("cannot commit with empty snapshot list".to_string()));
        }
        let current_head = self.current_branch_head();
        let metadata = CheckpointMetadata::new(author, message);
        let mut parents: Vec<CheckpointId> = Vec::new();
        parents.push(current_head);
        proof {
            assert(ids_view(parents@) =~= seq![current_head.0@]);
        }
        let cp = Checkpoint::new(snapshot_ids, parents, metadata);
        let cp_id = cp.id;
        let ghost cv = cp@;
        self.store(cp);
        self.checkpoint_dag.add_node(cp_id);
        self.checkpoint_dag.add_edge(current_head, cp_id);
        self.current_branch_mut().set_head(cp_id);
        proof {
            let cs = self@.checkpoints;
            assert(has_checkpoint(cs, cv.id)) by {
                if has_checkpoint(old(self)@.checkpoints, cv.id) {
                    let i = choose|i: int| 0 <= i < old(self)@.checkpoints.len() && old(self)@.checkpoints[i].id == cv.id;
                    assert(cs[i] == cv);
                } else {
                    assert(cs[cs.len() - 1] == cv);
                }
            }
            let k = choose|i: int| 0 <= i < cs.len() && cs[i].id == cv.id;
            assert(cs[k] == cv) by {
                if has_checkpoint(old(self)@.checkpoints, cv.id) {
                    let i = choose|i: int| 0 <= i < old(self)@.checkpoints.len() && old(self)@.checkpoints[i].id == cv.id;
                    if k != i {
                        assert(cs[i].id == cs[k].id);
                    }
                } else {
                    if k != cs.len() - 1 {
                        assert(cs[k].id == cs[cs.len() - 1].id);
                        assert(cs[k] == old(self)@.checkpoints[k]);
                    }
                }
            }
        }
        Ok(cp_id)
    }

    /// Commits a single snapshot (see `commit`).
    pub fn commit_single(&mut self, snapshot_id: SnapshotId, message: &str, author: &str) -> (r: Result<CheckpointId, StratumError>)
        requires
            old(self).wf(),
        ensures
            final(self).wf(),
            r matches Ok(id) ==> {
                let c = checkpoint_of(final(self)@.checkpoints, id.0@);
                &&& id.0@ == new_checkpoint_id(seq![old(self)@.head()], seq![snapshot_id.0@], author@, message@)
                &&& has_checkpoint(final(self)@.checkpoints, id.0@)
                &&& c.parents == seq![old(self)@.head()]
                &&& c.baselines == seq![snapshot_id.0@]
                &&& final(self)@.checkpoints == store_checkpoint(old(self)@.checkpoints, c)
                &&& final(self)@.dag == with_edge(ensure_node(old(self)@.dag, id.0@), old(self)@.head(), id.0@)
                &&& final(self)@.branches == old(self)@.branches.update(old(self)@.current, (old(self)@.branches[old(self)@.current].0, id.0@))
                &&& final(self)@.current == old(self)@.current
            },
            r is Ok,
            moved_at(branch_times(old(self).branch_seq()), branch_times(final(self).branch_seq()), old(self)@.current),
    {
        let mut v: Vec<SnapshotId> = Vec::new();
        v.push(snapshot_id);
        proof {
            assert(ids_view(v@) =~= seq![snapshot_id.0@]);
        }
        self.commit(v, message, author)
    }

    /// Creates a branch named `name` at the current head; an error when a
    /// branch of that name exists.
    pub fn create_branch(&mut self, name: &str) -> (r: Result<(), StratumError>)
        requires
            old(self).wf(),
        ensures
            final(self).wf(),
            r is Err <==> exists|j: int| 0 <= j < old(self)@.branches.len() && old(self)@.branches[j].0 == name@,
            r matches Err(e) ==> e matches StratumError::Checkpoint(m) && m@ == branch_exists_msg(name@),
            r is Err ==> final(self)@ == old(self)@,
            r is Ok ==> final(self)@ == (RepoV { branches: old(self)@.branches.push((name@, old(self)@.head())), ..old(self)@ }),
            r is Ok ==> branch_times(final(self).branch_seq()).drop_last() == branch_times(old(self).branch_seq())
                && final(self).branch_seq().last().created_at == final(self).branch_seq().last().updated_at,
    {
        if self.branch_position(name).is_some() {
            return Err(StratumError::Checkpoint(branch_message(name, "' already exists")));
        }
        let head = self.current_branch_head();
        let ghost b0 = self@.branches;
        self.branches.push(Branch::new(name, head));
        proof {
            assert(self@.branches =~= b0.push((name@, head.0@)));
        }
        Ok(())
    }

    /// Creates a branch named `name` at checkpoint `from_checkpoint`; an error
    /// when the checkpoint is absent or a branch of that name exists.
    pub fn create_branch_from(&mut self, name: &str, from_checkpoint: CheckpointId) -> (r: Result<(), StratumError>)
        requires
            old(self).wf(),
        ensures
            final(self).wf(),
            !has_checkpoint(old(self)@.checkpoints, from_checkpoint.0@) ==> (r matches Err(StratumError::NotFound(m)) && m@ == not_found_checkpoint_msg(from_checkpoint.0@)),
            has_checkpoint(old(self)@.checkpoints, from_checkpoint.0@) && (exists|j: int| 0 <= j < old(self)@.branches.len() && old(self)@.branches[j].0 == name@)
                ==> (r matches Err(StratumError::Checkpoint(m)) && m@ == branch_exists_msg(name@)),
            r is Err ==> final(self)@ == old(self)@,
            r is Ok ==> final(self)@ == (RepoV { branches: old(self)@.branches.push((name@, from_checkpoint.0@)), ..old(self)@ }),
            r is Ok <==> has_checkpoint(old(self)@.checkpoints, from_checkpoint.0@) && !exists|j: int| 0 <= j < old(self)@.branches.len() && old(self)@.branches[j].0 == name@,
            r is Ok ==> branch_times(final(self).branch_seq()).drop_last() == branch_times(old(self).branch_seq())
                && final(self).branch_seq().last().created_at == final(self).branch_seq().last().updated_at,
    {
        if self.position(&from_checkpoint).is_none() {
            return Err(not_found_checkpoint(&from_checkpoint));
        }
        if self.branch_position(name).is_some() {
            return Err(StratumError::Checkpoint(branch_message(name, "' already exists")));
        }
        let ghost b0 = self@.branches;
        self.branches.push(Branch::new(name, from_checkpoint));
        proof {
            assert(self@.branches =~= b0.push((name@, from_checkpoint.0@)));
        }
        Ok(())
    }

    /// Makes the first branch named `name` current and returns its index; an
    /// error when there is none.
    pub fn switch_branch(&mut self, name: &str) -> (r: Result<usize, StratumError>)
        requires
            old(self).wf(),
        ensures
            final(self).wf(),
            r is Err <==> !exists|j: int| 0 <= j < old(self)@.branches.len() && old(self)@.branches[j].0 == name@,
            r matches Err(e) ==> e matches StratumError::NotFound(m) && m@ == branch_missing_msg(name@),
            r is Err ==> final(self)@ == old(self)@,
            r matches Ok(i) ==> first_branch(old(self)@.branches, name@, i as int) && final(self)@ == (RepoV { current: i as int, ..old(self)@ }),
            branch_times(final(self).branch_seq()) == branch_times(old(self).branch_seq()),
    {
        match self.branch_position(name) {
            Some(i) => {
                self.current_branch = i;
                Ok(i)
            },
            None => Err(StratumError::NotFound(branch_message(name, "' not found"))),
        }
    }

    /// All branches.
    pub fn list_branches(&self) -> (r: &[Branch])
        ensures
            branches_view(r@) == self@.branches,
    {
        self.branches.as_slice()
    }

    /// The index of the first branch named `name`; an error when there is none.
    pub fn find_branch(&self, name: &str) -> (r: Result<usize, StratumError>)
        ensures
            r is Err <==> !exists|j: int| 0 <= j < self@.branches.len() && self@.branches[j].0 == name@,
            r matches Err(e) ==> e matches StratumError::NotFound(m) && m@ == branch_missing_msg(name@),
            r matches Ok(i) ==> first_branch(self@.branches, name@, i as int),
    {
        match self.branch_position(name) {
            Some(i) => Ok(i),
            None => Err(StratumError::NotFound(branch_message(name, "' not found"))),
        }
    }

    /// The head of the first branch named `name`; an error when there is none.
    pub fn get_branch_head(&self, name: &str) -> (r: Result<CheckpointId, StratumError>)
        ensures
            r is Err <==> !exists|j: int| 0 <= j < self@.branches.len() && self@.branches[j].0 == name@,
            r matches Err(e) ==> e matches StratumError::NotFound(m) && m@ == branch_missing_msg(name@),
            r matches Ok(h) ==> exists|i: int| first_branch(self@.branches, name@, i) && h.0@ == self@.branches[i].1,
    {
        let i = self.find_branch(name)?;
        Ok(self.branches[i].head)
    }

    /// Merges the branch `source_branch` into the current branch: a new
    /// checkpoint of the given snapshots whose parents are the current head
    /// and the source head, a child of both in the DAG; the current branch
    /// moves to it. An error when no snapshot is given or the source branch
    /// does not exist.
    pub fn merge_branches(&mut self, source_branch: &str, snapshot_ids: Vec<SnapshotId>, message: &str, author: &str) -> (r: Result<CheckpointId, StratumError>)
        requires
            old(self).wf(),
        ensures
            final(self).wf(),
            snapshot_ids@.len() == 0 ==> (r matches Err(StratumError::Checkpoint(m)) && m@ == "cannot merge with empty snapshot list"@),
            snapshot_ids@.len() > 0 && !(exists|j: int| 0 <= j < old(self)@.branches.len() && old(self)@.branches[j].0 == source_branch@)
                ==> (r matches Err(StratumError::NotFound(m)) && m@ == branch_missing_msg(source_branch@)),
            r is Ok <==> snapshot_ids@.len() > 0 && exists|j: int| 0 <= j < old(self)@.branches.len() && old(self)@.branches[j].0 == source_branch@,
            r is Err ==> final(self)@ == old(self)@,
            moved_at(branch_times(old(self).branch_seq()), branch_times(final(self).branch_seq()), old(self)@.current),
            r matches Ok(id) ==> exists|s: int| #[trigger] first_branch(old(self)@.branches, source_branch@, s) && {
                let src = old(self)@.branches[s].1;
                let c = checkpoint_of(final(self)@.checkpoints, id.0@);
                &&& id.0@ == new_checkpoint_id(seq![old(self)@.head(), src], ids_view(snapshot_ids@), author@, message@)
                &&& has_checkpoint(final(self)@.checkpoints, id.0@)
                &&& c.parents == seq![old(self)@.head(), src]
                &&& c.baselines == ids_view(snapshot_ids@)
                &&& c.metadata == (MetadataV { author: author@, message: message@, git_anchor: None })
                &&& final(self)@.checkpoints == store_checkpoint(old(self)@.checkpoints, c)
                &&& final(self)@.dag == with_edge(with_edge(ensure_node(old(self)@.dag, id.0@), old(self)@.head(), id.0@), src, id.0@)
                &&& final(self)@.branches == old(self)@.branches.update(old(self)@.current, (old(self)@.branches[old(self)@.current].0, id.0@))
                &&& final(self)@.current == old(self)@.current
            },
    {
        if snapshot_ids.len() == 0 {
            return Err(StratumError::Checkpoint("cannot merge with empty snapshot list".to_string()));
        }
        let si = match self.branch_position(source_branch) {
            Some(i) => i,
            None => return Err(StratumError::NotFound(branch_message(source_branch, "' not found"))),
        };
        let source_head = self.branches[si].head;
        let current_head = self.current_branch_head();
        let metadata = CheckpointMetadata::new(author, message);
        let mut parents: Vec<CheckpointId> = Vec::new();
        parents.push(current_head);
        parents.push(source_head);
        proof {
            assert(ids_view(parents@) =~= seq![current_head.0@, source_head.0@]);
        }
        let cp = Checkpoint::new(snapshot_ids, parents, metadata);
        let cp_id = cp.id;
        let ghost cv = cp@;
        self.store(cp);
        self.checkpoint_dag.add_node(cp_id);
        self.checkpoint_dag.add_edge(current_head, cp_id);
        self.checkpoint_dag.add_edge(source_head, cp_id);
        self.current_branch_mut().set_head(cp_id);
        proof {
            let cs = self@.checkpoints;
            assert(has_checkpoint(cs, cv.id)) by {
                if has_checkpoint(old(self)@.checkpoints, cv.id) {
                    let i = choose|i: int| 0 <= i < old(self)@.checkpoints.len() && old(self)@.checkpoints[i].id == cv.id;
                    assert(cs[i] == cv);
                } else {
                    assert(cs[cs.len() - 1] == cv);
                }
            }
            let k = choose|i: int| 0 <= i < cs.len() && cs[i].id == cv.id;
            assert(cs[k] == cv) by {
                if has_checkpoint(old(self)@.checkpoints, cv.id) {
                    let i = choose|i: int| 0 <= i < old(self)@.checkpoints.len() && old(self)@.checkpoints[i].id == cv.id;
                    if k != i {
                        assert(cs[i].id == cs[k].id);
                    }
                } else {
                    if k != cs.len() - 1 {
                        assert(cs[k].id == cs[cs.len() - 1].id);
                        assert(cs[k] == old(self)@.checkpoints[k]);
                    }
                }
            }
            assert(first_branch(old(self)@.branches, source_branch@, si as int));
        }
        Ok(cp_id)
    }

    /// A repository from stored parts: the DAG as given, the checkpoints
    /// keyed by identifier (a later one with an identifier in place of an
    /// earlier one), the branches as given, and as current branch the first
    /// one named `current_name` (`"main"` when none is given), or the first
    /// branch when none has that name. A malformed DAG or an empty list of
    /// branches is refused as a serialization error of the storage.
    pub fn from_parts(dag: CheckpointDag, checkpoints: Vec<Checkpoint>, branches: Vec<Branch>, current_name: Option<String>) -> (r: Result<CheckpointRepo, StratumError>)
        ensures
            r is Ok <==> dag.wf() && branches@.len() > 0,
            r matches Err(e) ==> e == StratumError::Storage(StorageError::Serialization(e->Storage_0->Serialization_0))
                && e->Storage_0->Serialization_0@ == inconsistent_store_msg(),
            r matches Ok(repo) ==> {
                &&& repo.wf()
                &&& repo@.dag == dag@
                &&& repo@.checkpoints == stored_all(checkpoints_view(checkpoints@))
                &&& repo@.branches == branches_view(branches@)
                &&& repo@.current == current_index(branches_view(branches@), match current_name {
                    Some(n) => n@,
                    None => "main"@,
                })
            },
    {
        if !dag.is_well_formed() || branches.len() == 0 {
            return Err(StratumError::Storage(StorageError::Serialization("stored checkpoint history is inconsistent".to_string())));
        }
        let name = match current_name {
            Some(n) => n,
            None => "main".to_string(),
        };
        let ghost orig = checkpoints_view(checkpoints@);
        let mut rest = checkpoints;
        let mut repo = CheckpointRepo { branches, current_branch: 0, checkpoint_dag: dag, checkpoints: Vec::new() };
        proof {
            assert(checkpoints_view(repo.checkpoints@) =~= Seq::<CheckpointV>::empty());
            assert(orig.take(0) =~= Seq::<CheckpointV>::empty());
            assert(checkpoints_view(rest@) =~= orig.skip(0));
        }
        let ghost k: int = 0;
        while rest.len() > 0
            invariant
                repo.wf(),
                0 <= k <= orig.len(),
                checkpoints_view(rest@) == orig.skip(k),
                repo@.checkpoints == stored_all(orig.take(k)),
                repo@.dag == dag@,
                repo@.branches == branches_view(branches@),
                repo@.current == 0,
            decreases rest@.len(),
        {
            let ghost before = rest@;
            let cp = rest.remove(0);
            proof {
                assert(checkpoints_view(before).len() == before.len());
                assert(k < orig.len());
                assert(checkpoints_view(before)[0] == cp@);
                assert(orig.skip(k)[0] == orig[k]);
                assert(orig.take(k + 1).drop_last() =~= orig.take(k));
                assert(orig.take(k + 1).last() == orig[k]);
                assert forall|i: int| 0 <= i < rest@.len() implies checkpoints_view(rest@)[i] == orig.skip(k + 1)[i] by {
                    assert(rest@[i] == before[i + 1]);
                    assert(checkpoints_view(before)[i + 1] == orig.skip(k)[i + 1]);
                }
                assert(checkpoints_view(rest@) =~= orig.skip(k + 1));
                k = k + 1;
            }
            repo.store(cp);
        }
        proof {
            assert(orig.take(k) =~= orig);
        }
        match repo.branch_position(name.as_str()) {
            Some(i) => {
                repo.current_branch = i;
            },
            None => {},
        }
        Ok(repo)
    }

    /// Loads the repository from storage: the stored DAG, checkpoints and
    /// branches, and the current branch named by the `current_branch`
    /// setting (see `from_parts`). With no checkpoint stored, a root
    /// checkpoint (author `"system"`, message `"root checkpoint"`, the
    /// digest of the empty content as its snapshot) is made and stored, the
    /// DAG is reset to it, a branch `"main"` at it is added and stored, and
    /// `"main"` is recorded as the current branch. Each storage failure is
    /// passed on.
    pub fn load<S: CheckpointStore + DagStore + BranchStore + MetadataStore>(storage: &S) -> (r: Result<CheckpointRepo, StratumError>)
        ensures
            r matches Ok(repo) ==> repo.wf() && repo@.branches.len() > 0 && repo@.checkpoints.len() > 0,
            r matches Err(e) ==> !(e is GitSync),
    {
        let mut dag = match storage.load_dag() {
            Ok(d) => d,
            Err(e) => return Err(StratumError::Storage(e)),
        };
        let mut checkpoints = match storage.list_checkpoints() {
            Ok(c) => c,
            Err(e) => return Err(StratumError::Storage(e)),
        };
        let mut branches = match storage.list_branches() {
            Ok(b) => b,
            Err(e) => return Err(StratumError::Storage(e)),
        };
        if checkpoints.len() == 0 {
            let metadata = CheckpointMetadata::new("system", "root checkpoint");
            let mut baselines: Vec<SnapshotId> = Vec::new();
            baselines.push(ContentId::from_content(&[]));
            let root = Checkpoint::new(baselines, Vec::new(), metadata);
            let root_id = root.id;
            if let Err(e) = storage.store_checkpoint(&root) {
                return Err(StratumError::Storage(e));
            }
            checkpoints.push(root);
            dag = CheckpointDag::new();
            dag.add_node(root_id);
            if let Err(e) = storage.store_dag(&dag) {
                return Err(StratumError::Storage(e));
            }
            let main = Branch::new("main", root_id);
            if let Err(e) = storage.store_branch(&main) {
                return Err(StratumError::Storage(e));
            }
            branches.push(main);
            if let Err(e) = storage.store_metadata("current_branch", "main") {
                return Err(StratumError::Storage(e));
            }
        }
        let current_name = match storage.load_metadata("current_branch") {
            Ok(n) => n,
            Err(e) => return Err(StratumError::Storage(e)),
        };
        let ghost cs = checkpoints_view(checkpoints@);
        let r = CheckpointRepo::from_parts(dag, checkpoints, branches, current_name);
        proof {
            if r is Ok {
                lemma_stored_all_nonempty(cs);
            }
        }
        r
    }

    /// Stores the checkpoint `id`, when present.
    pub fn sync_checkpoint<S: CheckpointStore>(&self, storage: &S, id: &CheckpointId) -> (r: Result<(), StratumError>)
        requires
            self.wf(),
        ensures
            !has_checkpoint(self@.checkpoints, id.0@) ==> r is Ok,
            r matches Err(e) ==> e is Storage,
    {
        match self.position(id) {
            Some(i) => match storage.store_checkpoint(&self.checkpoints[i]) {
                Ok(()) => Ok(()),
                Err(e) => Err(StratumError::Storage(e)),
            },
            None => Ok(()),
        }
    }

    /// Stores the whole repository: every checkpoint, the DAG, every branch,
    /// and the name of the current branch as the `current_branch` setting.
    /// Stops at the first storage failure and passes it on.
    pub fn sync_all<S: CheckpointStore + DagStore + BranchStore + MetadataStore>(&self, storage: &S) -> (r: Result<(), StratumError>)
        requires
            self.wf(),
        ensures
            r matches Err(e) ==> e is Storage,
    {
        let mut i: usize = 0;
        while i < self.checkpoints.len()
            invariant
                i <= self.checkpoints@.len(),
            decreases self.checkpoints@.len() - i,
        {
            if let Err(e) = storage.store_checkpoint(&self.checkpoints[i]) {
                return Err(StratumError::Storage(e));
            }
            i += 1;
        }
        if let Err(e) = storage.store_dag(&self.checkpoint_dag) {
            return Err(StratumError::Storage(e));
        }
        let mut j: usize = 0;
        while j < self.branches.len()
            invariant
                j <= self.branches@.len(),
            decreases self.branches@.len() - j,
        {
            if let Err(e) = storage.store_branch(&self.branches[j]) {
                return Err(StratumError::Storage(e));
            }
            j += 1;
        }
        match storage.store_metadata("current_branch", self.branches[self.current_branch].name.as_str()) {
            Ok(()) => Ok(()),
            Err(e) => Err(StratumError::Storage(e)),
        }
    }

    /// The number of checkpoints.
    pub fn checkpoint_count(&self) -> (r: usize)
        ensures
            r == self@.checkpoints.len(),
    {
        self.checkpoints.len()
    }

    /// The history DAG.
    pub fn dag(&self) -> (r: &CheckpointDag)
        ensures
            r@ == self@.dag,
            self.wf() ==> r.wf(),
    {
        &self.checkpoint_dag
    }

    /// Removes the checkpoint `id` and its DAG node; an error when absent.
    pub fn remove_checkpoint(&mut self, id: &CheckpointId) -> (r: Result<(), StratumError>)
        requires
            old(self).wf(),
        ensures
            final(self).wf(),
            r is Ok <==> has_checkpoint(old(self)@.checkpoints, id.0@),
            r matches Err(e) ==> e matches StratumError::NotFound(m) && m@ == not_found_checkpoint_msg(id.0@),
            r is Err ==> final(self)@ == old(self)@,
            r is Ok ==> {
                let i = choose|j: int| 0 <= j < old(self)@.checkpoints.len() && old(self)@.checkpoints[j].id == id.0@;
                &&& final(self)@.checkpoints == old(self)@.checkpoints.remove(i)
                &&& !has_checkpoint(final(self)@.checkpoints, id.0@)
                &&& final(self)@.dag == (if has_id(old(self)@.dag, id.0@) { old(self)@.dag.remove(crate::checkpoint::dag::index_of_id(old(self)@.dag, id.0@)) } else { old(self)@.dag })
                &&& !has_id(final(self)@.dag, id.0@)
                &&& final(self)@.branches == old(self)@.branches
                &&& final(self)@.current == old(self)@.current
            },
            branch_times(final(self).branch_seq()) == branch_times(old(self).branch_seq()),
    {
        match self.position(id) {
            None => Err(not_found_checkpoint(id)),
            Some(i) => {
                let ghost cs = self@.checkpoints;
                self.checkpoints.remove(i);
                self.checkpoint_dag.remove_node(id);
                proof {
                    assert(self@.checkpoints =~= cs.remove(i as int));
                    assert forall|a: int, b: int| 0 <= a < b < cs.len() - 1 implies cs.remove(i as int)[a].id != cs.remove(i as int)[b].id by {
                        let a2 = if a < i { a } else { a + 1 };
                        let b2 = if b < i { b } else { b + 1 };
                        assert(cs.remove(i as int)[a] == cs[a2] && cs.remove(i as int)[b] == cs[b2]);
                        assert(cs[a2].id != cs[b2].id);
                    }
                    assert(!has_checkpoint(self@.checkpoints, id.0@)) by {
                        if has_checkpoint(self@.checkpoints, id.0@) {
                            let a = choose|a: int| 0 <= a < self@.checkpoints.len() && self@.checkpoints[a].id == id.0@;
                            let a2 = if a < i { a } else { a + 1 };
                            assert(cs[a2].id == cs[i as int].id);
                        }
                    }
                    old(self).checkpoint_dag.lemma_entries();
                    crate::checkpoint::dag::lemma_removed_absent(old(self)@.dag, id.0@);
                }
                Ok(())
            },
        }
    }

    /// Each checkpoint with its parents.
    pub fn parent_table(&self) -> (r: Vec<(CheckpointId, Vec<CheckpointId>)>)
        ensures
            table_view(r@) == parent_graph(self@.checkpoints),
    {
        let mut r: Vec<(CheckpointId, Vec<CheckpointId>)> = Vec::new();
        let mut i: usize = 0;
        while i < self.checkpoints.len()
            invariant
                i <= self.checkpoints@.len(),
                r@.len() == i,
                forall|j: int| 0 <= j < i ==> (#[trigger] r@[j]).0.0@ == self.checkpoints@[j].id.0@ && ids_view(r@[j].1@) == ids_view(self.checkpoints@[j].parents@),
            decreases self.checkpoints@.len() - i,
        {
            r.push((self.checkpoints[i].id, copy_ids(&self.checkpoints[i].parents)));
            i += 1;
        }
        proof {
            assert(table_view(r@) =~= parent_graph(self@.checkpoints));
        }
        r
    }

    /// The history from `start`, at most `count` checkpoints, in breadth-first
    /// order over parents (all parents of a merge are followed): `start` first
    /// when present, each later checkpoint a parent of an earlier one, each
    /// once; identifiers without a checkpoint are passed over. When fewer than
    /// `count` come back, every checkpoint reachable from `start` is there.
    pub fn log_from(&self, start: &CheckpointId, count: usize) -> (r: Vec<&Checkpoint>)
        requires
            self.wf(),
        ensures
            ({
                let cs = self@.checkpoints;
                let pg = parent_graph(cs);
                &&& r@.len() <= count
                &&& Seq::new(r@.len(), |i: int| r@[i]@.id).no_duplicates()
                &&& forall|i: int| 0 <= i < r@.len() ==> has_checkpoint(cs, (#[trigger] r@[i])@.id) && r@[i]@ == checkpoint_of(cs, r@[i]@.id)
                    && reaches(pg, start.0@, r@[i]@.id)
                &&& count > 0 && has_checkpoint(cs, start.0@) ==> r@.len() > 0 && r@[0]@.id == start.0@
                &&& forall|i: int| 0 < i < r@.len() ==> exists|j: int| 0 <= j < i && r@[j]@.parents.contains((#[trigger] r@[i])@.id)
                &&& r@.len() < count ==> forall|x: Seq<u8>| reaches(pg, start.0@, x) && has_checkpoint(cs, x) ==> exists|i: int| 0 <= i < r@.len() && (#[trigger] r@[i])@.id == x
                &&& r@.len() == if count < reachable_stored(cs, start.0@).len() { count as int } else { reachable_stored(cs, start.0@).len() as int }
            }),
    {
        let ghost cs = self@.checkpoints;
        let ghost pg = parent_graph(cs);
        let table = self.parent_table();
        let order = search_order(&table, *start);
        let ghost ov = ids_view(order@);
        proof {
            assert forall|i: int| 0 < i < ov.len() implies exists|j: int| 0 <= j < i && edge(pg, ov[j], #[trigger] ov[i]) by {
                let j = choose|j: int| 0 <= j < i && edge(table_view(table@), order@[j].0@, order@[i].0@);
                assert(ov[j] == order@[j].0@ && ov[i] == order@[i].0@);
            }
            assert forall|i: int| 0 <= i < ov.len() implies reaches(pg, start.0@, #[trigger] ov[i]) by {
                assert(ov[i] == order@[i].0@);
            }
        }
        let mut r: Vec<&Checkpoint> = Vec::new();
        let ghost mut idx: Seq<int> = seq![];
        let mut k: usize = 0;
        while k < order.len() && r.len() < count
            invariant
                self.wf(),
                cs == self@.checkpoints,
                pg == parent_graph(cs),
                table_view(table@) == pg,
                ov == ids_view(order@),
                ov.len() >= 1,
                ov[0] == start.0@,
                ov.no_duplicates(),
                forall|i: int| 0 <= i < ov.len() ==> reaches(pg, start.0@, #[trigger] ov[i]),
                forall|b: Seq<u8>| #[trigger] reaches(pg, start.0@, b) ==> ov.contains(b),
                forall|i: int| 0 < i < ov.len() ==> exists|j: int| 0 <= j < i && edge(pg, ov[j], #[trigger] ov[i]),
                k <= ov.len(),
                r@.len() <= count,
                idx.len() == r@.len(),
                forall|i: int| 0 <= i < r@.len() ==> 0 <= #[trigger] idx[i] < k && ov[idx[i]] == r@[i]@.id,
                forall|i: int, j: int| 0 <= i < j < r@.len() ==> #[trigger] idx[i] < #[trigger] idx[j],
                forall|i: int| 0 <= i < r@.len() ==> has_checkpoint(cs, (#[trigger] r@[i])@.id) && r@[i]@ == checkpoint_of(cs, r@[i]@.id),
                forall|m: int| 0 <= m < k && has_checkpoint(cs, #[trigger] ov[m]) ==> exists|i: int| 0 <= i < r@.len() && idx[i] == m,
            decreases ov.len() - k,
        {
            match self.position(&order[k]) {
                Some(p) => {
                    proof {
                        assert(ov[k as int] == order@[k as int].0@);
                    }
                    let ghost r0 = r@;
                    r.push(&self.checkpoints[p]);
                    let ghost idx0 = idx;
                    proof {
                        idx = idx.push(k as int);
                        assert forall|m: int| 0 <= m < k + 1 && has_checkpoint(cs, #[trigger] ov[m]) implies exists|i: int| 0 <= i < r@.len() && idx[i] == m by {
                            if m == k {
                                assert(idx[r@.len() - 1] == m);
                            } else {
                                let i = choose|i: int| 0 <= i < r0.len() && idx0[i] == m;
                                assert(idx[i] == m);
                            }
                        }
                        assert forall|i: int| 0 <= i < r@.len() implies has_checkpoint(cs, (#[trigger] r@[i])@.id) && r@[i]@ == checkpoint_of(cs, r@[i]@.id) by {
                            if i < r0.len() {
                                assert(r@[i] == r0[i]);
                            } else {
                                assert(cs[p as int] == r@[i]@);
                            }
                        }
                    }
                },
                None => {
                    proof {
                        assert(ov[k as int] == order@[k as int].0@);
                    }
                },
            }
            k += 1;
        }
        proof {
            assert forall|i: int| 0 <= i < r@.len() implies reaches(pg, start.0@, (#[trigger] r@[i])@.id) by {
                assert(reaches(pg, start.0@, ov[idx[i]]));
            }
            let rv = Seq::new(r@.len(), |i: int| r@[i]@.id);
            assert forall|a: int, b: int| 0 <= a < b < rv.len() implies rv[a] != rv[b] by {
                assert(idx[a] < idx[b]);
                assert(ov[idx[a]] != ov[idx[b]]);
            }
            assert(rv.no_duplicates());
            if count > 0 && has_checkpoint(cs, start.0@) {
                assert(k > 0 || r@.len() >= count);
                if k > 0 {
                    let i = choose|i: int| 0 <= i < r@.len() && idx[i] == 0;
                    if i != 0 {
                        assert(idx[0] < idx[i]);
                    }
                }
            }
            // Absent checkpoints have no parents in the table, so every edge
            // starts at a present checkpoint.
            assert forall|x: Seq<u8>, b: Seq<u8>| #[trigger] edge(pg, x, b) implies has_checkpoint(cs, x) by {
                if !has_checkpoint(cs, x) {
                    lemma_absent_no_parents(cs, x, 0);
                }
            }
            assert forall|i: int| 0 < i < r@.len() implies exists|j: int| 0 <= j < i && r@[j]@.parents.contains((#[trigger] r@[i])@.id) by {
                let m = idx[i];
                if m == 0 {
                    assert(idx[0] < idx[i]);
                } else {
                    let jm = choose|jm: int| 0 <= jm < m && edge(pg, ov[jm], ov[m]);
                    assert(edge(pg, ov[jm], ov[m]));
                    assert(has_checkpoint(cs, ov[jm]));
                    let j = choose|j: int| 0 <= j < r@.len() && idx[j] == jm;
                    if j >= i {
                        if j > i {
                            assert(idx[i] < idx[j]);
                        }
                    }
                    lemma_parent_edge(cs, r@[j]@);
                    assert(r@[j]@.parents.contains(ov[m]));
                }
            }
            if r@.len() < count {
                assert forall|x: Seq<u8>| reaches(pg, start.0@, x) && has_checkpoint(cs, x) implies exists|i: int| 0 <= i < r@.len() && (#[trigger] r@[i])@.id == x by {
                    let m = choose|m: int| 0 <= m < ov.len() && ov[m] == x;
                    let i = choose|i: int| 0 <= i < r@.len() && idx[i] == m;
                    assert(r@[i]@.id == x);
                }
            }
            assert forall|i: int| 0 <= i < rv.len() implies reachable_stored(cs, start.0@).contains(#[trigger] rv[i]) by {
                assert(rv[i] == r@[i]@.id);
                assert(has_checkpoint(cs, r@[i]@.id));
            }
            if r@.len() < count {
                assert forall|x: Seq<u8>| #[trigger] reachable_stored(cs, start.0@).contains(x) implies rv.contains(x) by {
                    let i = choose|i: int| 0 <= i < r@.len() && (#[trigger] r@[i])@.id == x;
                    assert(rv[i] == x);
                }
            }
            lemma_log_length(cs, start.0@, rv, count as int);
        }
        r
    }

    /// The history from the current head (see `log_from`).
    pub fn log(&self, count: usize) -> (r: Vec<&Checkpoint>)
        requires
            self.wf(),
        ensures
            r@.len() <= count,
            Seq::new(r@.len(), |i: int| r@[i]@.id).no_duplicates(),
            count > 0 && has_checkpoint(self@.checkpoints, self@.head()) ==> r@.len() > 0 && r@[0]@.id == self@.head(),
            forall|i: int| 0 <= i < r@.len() ==> has_checkpoint(self@.checkpoints, (#[trigger] r@[i])@.id)
                && r@[i]@ == checkpoint_of(self@.checkpoints, r@[i]@.id)
                && reaches(parent_graph(self@.checkpoints), self@.head(), r@[i]@.id),
            forall|i: int| 0 < i < r@.len() ==> exists|j: int| 0 <= j < i && r@[j]@.parents.contains((#[trigger] r@[i])@.id),
            r@.len() < count ==> forall|x: Seq<u8>| reaches(parent_graph(self@.checkpoints), self@.head(), x) && has_checkpoint(self@.checkpoints, x)
                ==> exists|i: int| 0 <= i < r@.len() && (#[trigger] r@[i])@.id == x,
            r@.len() == if count < reachable_stored(self@.checkpoints, self@.head()).len() {
                count as int
            } else {
                reachable_stored(self@.checkpoints, self@.head()).len() as int
            },
    {
        let head = self.current_branch_head();
        self.log_from(&head, count)
    }
}

/// The checkpoints stored in order, each in place of an earlier one with its
/// identifier or added at the end.
pub open spec fn stored_all(cs: Seq<CheckpointV>) -> Seq<CheckpointV>
    decreases cs.len(),
{
    if cs.len() == 0 {
        seq![]
    } else {
        store_checkpoint(stored_all(cs.drop_last()), cs.last())
    }
}

/// The index of the first branch named `name`, or 0 when none is.
pub open spec fn current_index(bs: Seq<(Seq<char>, Seq<u8>)>, name: Seq<char>) -> int {
    match branch_index(bs, name) {
        Some(i) => i,
        None => 0,
    }
}

/// The message of a refused load.
pub open spec fn inconsistent_store_msg() -> Seq<char> {
    "stored checkpoint history is inconsistent"@
}

proof fn lemma_stored_all_nonempty(cs: Seq<CheckpointV>)
    requires
        cs.len() > 0,
    ensures
        stored_all(cs).len() > 0,
{
    let p = stored_all(cs.drop_last());
    if has_checkpoint(p, cs.last().id) {
        let i = choose|i: int| 0 <= i < p.len() && p[i].id == cs.last().id;
        assert(p.update(i, cs.last()).len() == p.len());
    }
}

/// A checkpoint that is absent lists no parents in the parent table.
proof fn lemma_absent_no_parents(cs: Seq<CheckpointV>, x: Seq<u8>, j: int)
    requires
        0 <= j,
        !has_checkpoint(cs, x),
    ensures
        crate::checkpoint::graph::succ_from(parent_graph(cs), x, j) == Seq::<Seq<u8>>::empty(),
    decreases cs.len() - j,
{
    if j < cs.len() {
        assert(parent_graph(cs)[j].0 != x);
        lemma_absent_no_parents(cs, x, j + 1);
    }
}

/// The parents the table lists for a stored checkpoint are its own.
proof fn lemma_parent_edge(cs: Seq<CheckpointV>, c: CheckpointV)
    requires
        distinct_ids(cs),
        has_checkpoint(cs, c.id),
        c == checkpoint_of(cs, c.id),
    ensures
        succ(parent_graph(cs), c.id) == c.parents,
{
    let i = choose|i: int| 0 <= i < cs.len() && cs[i].id == c.id;
    lemma_parent_succ(cs, c.id, i, 0);
}

proof fn lemma_parent_succ(cs: Seq<CheckpointV>, x: Seq<u8>, i: int, j: int)
    requires
        distinct_ids(cs),
        0 <= j <= i < cs.len(),
        cs[i].id == x,
    ensures
        crate::checkpoint::graph::succ_from(parent_graph(cs), x, j) == cs[i].parents,
    decreases i - j,
{
    if j < i {
        assert(cs[j].id != cs[i].id);
        lemma_parent_succ(cs, x, i, j + 1);
    }
}

} // verus!
