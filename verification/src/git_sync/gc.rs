//! Garbage collection of checkpoints: mark what branches and Git anchors
//! protect, and everything that descends from it; sweep the rest.

use crate::checkpoint::checkpoint::{Checkpoint, CheckpointV};
use crate::checkpoint::dag::{graph_of, has_id, node_ids, CheckpointDag};
use crate::checkpoint::graph::{contains_id, flat_ids, lemma_distinct_within, reaches, search_order, table_view};
use crate::checkpoint::repo::{branch_times, CheckpointRepo, RepoV, checkpoint_of, has_checkpoint, parent_graph};
use crate::error::StratumError;
use crate::model::snapshot::ids_view;
use crate::model::types::CheckpointId;
use vstd::prelude::*;

verus! {

/// What a garbage collection did.
#[derive(Debug, Clone, PartialEq, Eq)]
pub struct GCStats {
    pub removed_checkpoints: u64,
    pub removed_snapshots: u64,
    pub freed_bytes: u64,
    pub delta_chain_depth_triggered: bool,
    pub max_chain_depth: usize,
}

impl GCStats {
    /// Statistics of a collection that did nothing.
    pub fn new() -> (r: GCStats)
        ensures
            r == (GCStats { removed_checkpoints: 0, removed_snapshots: 0, freed_bytes: 0, delta_chain_depth_triggered: false, max_chain_depth: 0 }),
    {
        GCStats { removed_checkpoints: 0, removed_snapshots: 0, freed_bytes: 0, delta_chain_depth_triggered: false, max_chain_depth: 0 }
    }
}

impl Default for GCStats {
    fn default() -> (r: GCStats)
        ensures
            r == (GCStats { removed_checkpoints: 0, removed_snapshots: 0, freed_bytes: 0, delta_chain_depth_triggered: false, max_chain_depth: 0 }),
    {
        GCStats::new()
    }
}

/// Whether `y` is a branch head or an ancestor of one: reachable from a
/// head through the parents of stored checkpoints (an identifier without a
/// checkpoint has no parents but is itself reached).
pub open spec fn ancestor_protected(repo: RepoV, y: Seq<u8>) -> bool {
    exists|b: int| 0 <= b < repo.branches.len() && #[trigger] reaches(parent_graph(repo.checkpoints), repo.branches[b].1, y)
}

/// Whether a DAG node is a stored checkpoint bound to a Git commit.
pub open spec fn anchored(repo: RepoV, y: Seq<u8>) -> bool {
    has_id(repo.dag, y) && has_checkpoint(repo.checkpoints, y) && checkpoint_of(repo.checkpoints, y).metadata.git_anchor is Some
}

/// Whether a checkpoint is protected from collection: it is a branch head
/// or an ancestor of one (through all parents), or it is bound to a Git
/// commit.
pub open spec fn is_protected(repo: RepoV, y: Seq<u8>) -> bool {
    ancestor_protected(repo, y) || anchored(repo, y)
}

/// The protected checkpoints of a repository: every branch head with all its
/// ancestors (through every parent; an identifier without a checkpoint ends
/// a line and is included) and every DAG node whose checkpoint is bound to a
/// Git commit.
pub fn collect_protected_checkpoints(repo: &CheckpointRepo) -> (r: Vec<CheckpointId>)
    requires
        repo.wf(),
    ensures
        ids_view(r@).no_duplicates(),
        forall|y: Seq<u8>| ids_view(r@).contains(y) <==> is_protected(repo@, y),
{
    let ghost rv = repo@;
    let ghost cs = rv.checkpoints;
    let ghost pg = parent_graph(cs);
    let table = repo.parent_table();
    let branches = repo.list_branches();
    let mut prot: Vec<CheckpointId> = Vec::new();
    let mut b: usize = 0;
    while b < branches.len()
        invariant
            repo.wf(),
            rv == repo@,
            cs == rv.checkpoints,
            pg == parent_graph(cs),
            table_view(table@) == pg,
            crate::checkpoint::repo::branches_view(branches@) == rv.branches,
            b <= branches@.len(),
            ids_view(prot@).no_duplicates(),
            forall|y: Seq<u8>| #[trigger] ids_view(prot@).contains(y) <==> exists|bb: int| 0 <= bb < b
                && #[trigger] reaches(pg, rv.branches[bb].1, y),
        decreases branches@.len() - b,
    {
        let head = branches[b].head;
        proof {
            assert(crate::checkpoint::repo::branches_view(branches@)[b as int] == rv.branches[b as int]);
            assert(head.0@ == rv.branches[b as int].1);
        }
        let order = search_order(&table, head);
        let mut k: usize = 0;
        while k < order.len()
            invariant
                pg == parent_graph(cs),
                table_view(table@) == pg,
                0 <= b < rv.branches.len(),
                head.0@ == rv.branches[b as int].1,
                k <= order@.len(),
                forall|i: int| 0 <= i < order@.len() ==> reaches(pg, head.0@, #[trigger] order@[i].0@),
                forall|y: Seq<u8>| #[trigger] reaches(pg, head.0@, y) ==> ids_view(order@).contains(y),
                ids_view(prot@).no_duplicates(),
                forall|y: Seq<u8>| #[trigger] ids_view(prot@).contains(y) <==> (exists|bb: int| 0 <= bb < b
                    && #[trigger] reaches(pg, rv.branches[bb].1, y)) || exists|j: int| 0 <= j < k && order@[j].0@ == y,
            decreases order@.len() - k,
        {
            let x = order[k];
            let ghost p0 = ids_view(prot@);
            if !contains_id(&prot, &x) {
                prot.push(x);
                proof {
                    assert(ids_view(prot@) =~= p0.push(x.0@));
                }
            }
            proof {
                let p1 = ids_view(prot@);
                assert forall|y: Seq<u8>| #[trigger] p1.contains(y) <==> (exists|bb: int| 0 <= bb < b
                    && #[trigger] reaches(pg, rv.branches[bb].1, y)) || exists|j: int| 0 <= j < k + 1 && order@[j].0@ == y by {
                    if p1.contains(y) && !p0.contains(y) {
                        assert(y == x.0@);
                        assert(order@[k as int].0@ == y);
                    }
                    if exists|j: int| 0 <= j < k + 1 && order@[j].0@ == y {
                        let j = choose|j: int| 0 <= j < k + 1 && order@[j].0@ == y;
                        if j == k {
                            if !p0.contains(y) {
                                assert(p1[p0.len() as int] == y);
                            }
                        }
                    }
                    if p0.contains(y) {
                        let i = choose|i: int| 0 <= i < p0.len() && p0[i] == y;
                        assert(p1[i] == y);
                    }
                }
            }
            k += 1;
        }
        proof {
            assert forall|y: Seq<u8>| #[trigger] ids_view(prot@).contains(y) <==> exists|bb: int| 0 <= bb < b + 1
                && #[trigger] reaches(pg, rv.branches[bb].1, y) by {
                if ids_view(prot@).contains(y) {
                    if exists|j: int| 0 <= j < order@.len() && order@[j].0@ == y {
                        let j = choose|j: int| 0 <= j < order@.len() && order@[j].0@ == y;
                        assert(reaches(pg, rv.branches[b as int].1, y));
                    }
                }
                if exists|bb: int| 0 <= bb < b + 1 && #[trigger] reaches(pg, rv.branches[bb].1, y) {
                    let bb = choose|bb: int| 0 <= bb < b + 1 && #[trigger] reaches(pg, rv.branches[bb].1, y);
                    if bb == b {
                        assert(ids_view(order@).contains(y));
                        let j = choose|j: int| 0 <= j < ids_view(order@).len() && ids_view(order@)[j] == y;
                        assert(order@[j].0@ == y);
                    }
                }
            }
        }
        b += 1;
    }
    let nodes = repo.dag().all_nodes();
    let mut i: usize = 0;
    while i < nodes.len()
        invariant
            repo.wf(),
            rv == repo@,
            cs == rv.checkpoints,
            ids_view(nodes@) == node_ids(rv.dag),
            i <= nodes@.len(),
            ids_view(prot@).no_duplicates(),
            forall|y: Seq<u8>| #[trigger] ids_view(prot@).contains(y) <==> ancestor_protected(rv, y) || exists|j: int| 0 <= j < i && #[trigger] nodes@[j].0@ == y
                && has_checkpoint(cs, y) && checkpoint_of(cs, y).metadata.git_anchor is Some,
        decreases nodes@.len() - i,
    {
        let id = nodes[i];
        let ghost p0 = ids_view(prot@);
        let ghost ga = has_checkpoint(cs, id.0@) && checkpoint_of(cs, id.0@).metadata.git_anchor is Some;
        let anchored_here = match repo.get_checkpoint(&id) {
            Ok(cp) => {
                let a = cp.metadata.git_anchor.is_some();
                proof {
                    assert(a == ga);
                }
                a
            },
            Err(_) => false,
        };
        if anchored_here && !contains_id(&prot, &id) {
            prot.push(id);
            proof {
                assert(ids_view(prot@) =~= p0.push(id.0@));
            }
        }
        proof {
            let p1 = ids_view(prot@);
            assert(nodes@[i as int].0@ == id.0@);
            assert forall|y: Seq<u8>| p1.contains(y) <==> ancestor_protected(rv, y) || exists|j: int| 0 <= j < i + 1 && #[trigger] nodes@[j].0@ == y
                && has_checkpoint(cs, y) && checkpoint_of(cs, y).metadata.git_anchor is Some by {
                let old_side = exists|j: int| 0 <= j < i && #[trigger] nodes@[j].0@ == y && has_checkpoint(cs, y) && checkpoint_of(cs, y).metadata.git_anchor is Some;
                let new_side = exists|j: int| 0 <= j < i + 1 && #[trigger] nodes@[j].0@ == y && has_checkpoint(cs, y) && checkpoint_of(cs, y).metadata.git_anchor is Some;
                assert(p0.contains(y) <==> ancestor_protected(rv, y) || old_side);
                if old_side {
                    let j = choose|j: int| 0 <= j < i && #[trigger] nodes@[j].0@ == y && has_checkpoint(cs, y) && checkpoint_of(cs, y).metadata.git_anchor is Some;
                    assert(0 <= j < i + 1 && nodes@[j].0@ == y);
                }
                if y == id.0@ {
                    if ga {
                        assert(0 <= i < i + 1 && nodes@[i as int].0@ == y);
                        assert(new_side);
                    }
                    if anchored_here && !p0.contains(id.0@) {
                        assert(p1[p0.len() as int] == y);
                    } else {
                        assert(p1 == p0);
                    }
                } else {
                    if new_side {
                        let j = choose|j: int| 0 <= j < i + 1 && #[trigger] nodes@[j].0@ == y && has_checkpoint(cs, y) && checkpoint_of(cs, y).metadata.git_anchor is Some;
                        assert(j != i);
                        assert(old_side);
                    }
                    if p1 != p0 {
                        assert(p1 == p0.push(id.0@));
                        if p1.contains(y) {
                            let k = choose|k: int| 0 <= k < p1.len() && p1[k] == y;
                            assert(p0[k] == y);
                        }
                        if p0.contains(y) {
                            let k = choose|k: int| 0 <= k < p0.len() && p0[k] == y;
                            assert(p1[k] == y);
                        }
                    }
                }
            }
        }
        i += 1;
    }
    proof {
        assert forall|y: Seq<u8>| ids_view(prot@).contains(y) <==> is_protected(rv, y) by {
            if anchored(rv, y) {
                let k = choose|k: int| 0 <= k < rv.dag.len() && rv.dag[k].id == y;
                assert(node_ids(rv.dag)[k] == y);
                assert(nodes@.len() == ids_view(nodes@).len() && node_ids(rv.dag).len() == rv.dag.len());
                assert(ids_view(nodes@)[k] == node_ids(rv.dag)[k]);
                assert(nodes@[k].0@ == y);
            }
            if exists|j: int| 0 <= j < nodes@.len() && #[trigger] nodes@[j].0@ == y && has_checkpoint(cs, y) && checkpoint_of(cs, y).metadata.git_anchor is Some {
                let j = choose|j: int| 0 <= j < nodes@.len() && #[trigger] nodes@[j].0@ == y && has_checkpoint(cs, y) && checkpoint_of(cs, y).metadata.git_anchor is Some;
                assert(ids_view(nodes@)[j] == y);
                assert(nodes@.len() == ids_view(nodes@).len() && node_ids(rv.dag).len() == rv.dag.len());
                assert(node_ids(rv.dag)[j] == y);
                assert(rv.dag[j].id == y);
            }
        }
    }
    prot
}


/// Whether a checkpoint is kept by a collection: it descends (through
/// children in the DAG, itself included) from a protected checkpoint.
pub open spec fn kept(repo: RepoV, y: Seq<u8>) -> bool {
    exists|p: Seq<u8>| is_protected(repo, p) && #[trigger] reaches(graph_of(repo.dag), p, y)
}

/// Whether a collection removes a checkpoint: a DAG node with a checkpoint
/// that is not kept.
pub open spec fn swept(repo: RepoV, y: Seq<u8>) -> bool {
    has_id(repo.dag, y) && has_checkpoint(repo.checkpoints, y) && !kept(repo, y)
}

/// How many of the identifiers `ids[..k]` a collection removes.
pub open spec fn swept_count(ids: Seq<Seq<u8>>, repo: RepoV, k: int) -> nat
    decreases k,
{
    if k <= 0 {
        0
    } else {
        swept_count(ids, repo, k - 1) + if has_checkpoint(repo.checkpoints, ids[k - 1]) && !kept(repo, ids[k - 1]) { 1nat } else { 0nat }
    }
}

/// The largest number of parents among the stored checkpoints of `ids[..k]`.
pub open spec fn max_parents(ids: Seq<Seq<u8>>, cs: Seq<CheckpointV>, k: int) -> nat
    decreases k,
{
    if k <= 0 {
        0
    } else {
        let m = max_parents(ids, cs, k - 1);
        if has_checkpoint(cs, ids[k - 1]) && checkpoint_of(cs, ids[k - 1]).parents.len() > m {
            checkpoint_of(cs, ids[k - 1]).parents.len()
        } else {
            m
        }
    }
}

/// Every checkpoint that descends, through children in the DAG, from one of
/// the given checkpoints (each of them included), each once.
fn mark_reachable(repo: &CheckpointRepo, protected: &Vec<CheckpointId>) -> (r: Vec<CheckpointId>)
    requires
        repo.wf(),
    ensures
        ids_view(r@).no_duplicates(),
        forall|y: Seq<u8>| #[trigger] ids_view(r@).contains(y) <==> exists|i: int| 0 <= i < protected@.len() && reaches(graph_of(repo@.dag), #[trigger] protected@[i].0@, y),
{
    let ghost g = graph_of(repo@.dag);
    let dag = repo.dag();
    let mut r: Vec<CheckpointId> = Vec::new();
    let mut i: usize = 0;
    while i < protected.len()
        invariant
            dag.wf(),
            dag@ == repo@.dag,
            g == graph_of(repo@.dag),
            i <= protected@.len(),
            ids_view(r@).no_duplicates(),
            forall|y: Seq<u8>| #[trigger] ids_view(r@).contains(y) <==> exists|j: int| 0 <= j < i && reaches(g, #[trigger] protected@[j].0@, y),
        decreases protected@.len() - i,
    {
        let desc = dag.descendants(&protected[i]);
        let ghost r_before = ids_view(r@);
        let mut k: usize = 0;
        while k < desc.len()
            invariant
                g == graph_of(repo@.dag),
                0 <= i < protected@.len(),
                k <= desc@.len(),
                ids_view(r@).no_duplicates(),
                forall|y: Seq<u8>| ids_view(desc@).contains(y) <==> reaches(g, protected@[i as int].0@, y),
                forall|y: Seq<u8>| #[trigger] ids_view(r@).contains(y) <==> r_before.contains(y) || exists|m: int| 0 <= m < k && #[trigger] desc@[m].0@ == y,
            decreases desc@.len() - k,
        {
            let x = desc[k];
            let ghost r0 = ids_view(r@);
            if !contains_id(&r, &x) {
                r.push(x);
                proof {
                    assert(ids_view(r@) =~= r0.push(x.0@));
                }
            }
            proof {
                let r1 = ids_view(r@);
                assert(desc@[k as int].0@ == x.0@);
                assert forall|y: Seq<u8>| #[trigger] r1.contains(y) <==> r_before.contains(y) || exists|m: int| 0 <= m < k + 1 && #[trigger] desc@[m].0@ == y by {
                    assert(r0.contains(y) <==> r_before.contains(y) || exists|m: int| 0 <= m < k && #[trigger] desc@[m].0@ == y);
                    if exists|m: int| 0 <= m < k && #[trigger] desc@[m].0@ == y {
                        let m = choose|m: int| 0 <= m < k && #[trigger] desc@[m].0@ == y;
                        assert(0 <= m < k + 1 && desc@[m].0@ == y);
                    }
                    if y == x.0@ {
                        assert(0 <= k < k + 1 && desc@[k as int].0@ == y);
                        if r1 != r0 {
                            assert(r1[r0.len() as int] == y);
                        }
                    } else {
                        if exists|m: int| 0 <= m < k + 1 && #[trigger] desc@[m].0@ == y {
                            let m = choose|m: int| 0 <= m < k + 1 && #[trigger] desc@[m].0@ == y;
                            assert(m != k);
                        }
                        if r1 != r0 {
                            if r1.contains(y) {
                                let q = choose|q: int| 0 <= q < r1.len() && r1[q] == y;
                                assert(r0[q] == y);
                            }
                            if r0.contains(y) {
                                let q = choose|q: int| 0 <= q < r0.len() && r0[q] == y;
                                assert(r1[q] == y);
                            }
                        }
                    }
                }
            }
            k += 1;
        }
        proof {
            assert forall|y: Seq<u8>| #[trigger] ids_view(r@).contains(y) <==> exists|j: int| 0 <= j < i + 1 && reaches(g, #[trigger] protected@[j].0@, y) by {
                assert(r_before.contains(y) <==> exists|j: int| 0 <= j < i && reaches(g, #[trigger] protected@[j].0@, y));
                if exists|m: int| 0 <= m < desc@.len() && #[trigger] desc@[m].0@ == y {
                    let m = choose|m: int| 0 <= m < desc@.len() && #[trigger] desc@[m].0@ == y;
                    assert(ids_view(desc@)[m] == y);
                    assert(ids_view(desc@).contains(y));
                    assert(reaches(g, protected@[i as int].0@, y));
                }
                if reaches(g, protected@[i as int].0@, y) {
                    assert(ids_view(desc@).contains(y));
                    let m = choose|m: int| 0 <= m < ids_view(desc@).len() && ids_view(desc@)[m] == y;
                    assert(desc@[m].0@ == y);
                }
                if exists|j: int| 0 <= j < i + 1 && reaches(g, #[trigger] protected@[j].0@, y) {
                    let j = choose|j: int| 0 <= j < i + 1 && reaches(g, #[trigger] protected@[j].0@, y);
                    if j < i {
                        assert(exists|j2: int| 0 <= j2 < i && reaches(g, #[trigger] protected@[j2].0@, y));
                    }
                }
            }
        }
        i += 1;
    }
    r
}

/// `std::mem::size_of_val` of a checkpoint, in bytes; it depends on the machine.
#[verifier::external_body]
fn checkpoint_size(cp: &Checkpoint) -> u64 {
    std::mem::size_of_val(cp) as u64
}

proof fn lemma_removed_checkpoint(before: Seq<CheckpointV>, after: Seq<CheckpointV>, i: int, id: Seq<u8>)
    requires
        crate::checkpoint::repo::distinct_ids(before),
        0 <= i < before.len(),
        before[i].id == id,
        after == before.remove(i),
    ensures
        forall|x: Seq<u8>| has_checkpoint(after, x) <==> has_checkpoint(before, x) && x != id,
        forall|x: Seq<u8>| has_checkpoint(after, x) ==> checkpoint_of(after, x) == checkpoint_of(before, x),
{
    assert forall|x: Seq<u8>| has_checkpoint(after, x) <==> has_checkpoint(before, x) && x != id by {
        if has_checkpoint(after, x) {
            let a = choose|a: int| 0 <= a < after.len() && after[a].id == x;
            let a2 = if a < i { a } else { a + 1 };
            assert(after[a] == before[a2]);
            if x == id {
                assert(before[a2].id == before[i].id);
            }
        }
        if has_checkpoint(before, x) && x != id {
            let a = choose|a: int| 0 <= a < before.len() && before[a].id == x;
            let a2 = if a < i { a } else { a - 1 };
            assert(after[a2] == before[a]);
        }
    }
    assert forall|x: Seq<u8>| has_checkpoint(after, x) implies checkpoint_of(after, x) == checkpoint_of(before, x) by {
        let a = choose|a: int| 0 <= a < after.len() && after[a].id == x;
        let a2 = if a < i { a } else { a + 1 };
        assert(after[a] == before[a2]);
        let b = choose|b: int| 0 <= b < before.len() && before[b].id == x;
        if b != a2 {
            if b < a2 {
                assert(before[b].id != before[a2].id);
            } else {
                assert(before[a2].id != before[b].id);
            }
        }
    }
}

/// Collects garbage: every DAG node with a checkpoint that does not descend
/// from a protected checkpoint (see `collect_protected_checkpoints`) is
/// removed with its checkpoint; the statistics count the removals and the
/// largest number of parents of a checkpoint (a repack is due above 100).
pub fn collect_garbage(repo: &mut CheckpointRepo) -> (r: Result<GCStats, StratumError>)
    requires
        old(repo).wf(),
    ensures
        final(repo).wf(),
        r matches Ok(stats) && {
            let o = old(repo)@;
            let ids = node_ids(o.dag);
            &&& stats.removed_checkpoints == swept_count(ids, o, ids.len() as int)
            &&& stats.removed_snapshots == swept_count(ids, o, ids.len() as int)
            &&& stats.max_chain_depth == max_parents(ids, o.checkpoints, ids.len() as int)
            &&& stats.delta_chain_depth_triggered == (stats.max_chain_depth > 100)
        },
        forall|y: Seq<u8>| has_checkpoint(final(repo)@.checkpoints, y) <==> has_checkpoint(old(repo)@.checkpoints, y) && !swept(old(repo)@, y),
        forall|y: Seq<u8>| has_checkpoint(final(repo)@.checkpoints, y) ==> checkpoint_of(final(repo)@.checkpoints, y) == checkpoint_of(old(repo)@.checkpoints, y),
        forall|y: Seq<u8>| has_id(final(repo)@.dag, y) <==> has_id(old(repo)@.dag, y) && !swept(old(repo)@, y),
        final(repo)@.branches == old(repo)@.branches,
        final(repo)@.current == old(repo)@.current,
        branch_times(final(repo).branch_seq()) == branch_times(old(repo).branch_seq()),
{
    let ghost o = repo@;
    let ghost times0 = branch_times(repo.branch_seq());
    let protected = collect_protected_checkpoints(repo);
    let to_keep = mark_reachable(repo, &protected);
    proof {
        assert forall|y: Seq<u8>| ids_view(to_keep@).contains(y) <==> kept(o, y) by {
            if ids_view(to_keep@).contains(y) {
                let i = choose|i: int| 0 <= i < protected@.len() && reaches(graph_of(o.dag), #[trigger] protected@[i].0@, y);
                assert(ids_view(protected@)[i] == protected@[i].0@);
                assert(is_protected(o, protected@[i].0@));
            }
            if kept(o, y) {
                let p = choose|p: Seq<u8>| is_protected(o, p) && #[trigger] reaches(graph_of(o.dag), p, y);
                assert(ids_view(protected@).contains(p));
                let i = choose|i: int| 0 <= i < ids_view(protected@).len() && ids_view(protected@)[i] == p;
                assert(protected@[i].0@ == p);
            }
        }
    }
    let all = repo.dag().all_nodes();
    let ghost ids = node_ids(o.dag);
    proof {
        repo.lemma_wf_parts();
    }
    let mut stats = GCStats::new();
    let mut k: usize = 0;
    while k < all.len()
        invariant
            repo.wf(),
            repo@ == o,
            ids_view(all@) == ids,
            k <= all@.len(),
            stats.max_chain_depth == max_parents(ids, o.checkpoints, k as int),
            stats.removed_checkpoints == 0,
            stats.removed_snapshots == 0,
            !stats.delta_chain_depth_triggered,
        decreases all@.len() - k,
    {
        proof {
            assert(ids[k as int] == all@[k as int].0@);
        }
        match repo.get_checkpoint(&all[k]) {
            Ok(cp) => {
                if cp.parents.len() > stats.max_chain_depth {
                    stats.max_chain_depth = cp.parents.len();
                }
            },
            Err(_) => {},
        }
        k += 1;
    }
    if stats.max_chain_depth > 100 {
        stats.delta_chain_depth_triggered = true;
    }
    let mut k: usize = 0;
    while k < all.len()
        invariant
            repo.wf(),
            ids_view(all@) == ids,
            ids == node_ids(o.dag),
            ids.no_duplicates(),
            forall|y: Seq<u8>| ids_view(to_keep@).contains(y) <==> kept(o, y),
            k <= all@.len(),
            stats.removed_checkpoints == swept_count(ids, o, k as int),
            stats.removed_snapshots == swept_count(ids, o, k as int),
            stats.removed_checkpoints <= k,
            stats.max_chain_depth == max_parents(ids, o.checkpoints, ids.len() as int),
            stats.delta_chain_depth_triggered == (stats.max_chain_depth > 100),
            forall|y: Seq<u8>| #[trigger] has_checkpoint(repo@.checkpoints, y) <==> has_checkpoint(o.checkpoints, y)
                && !(exists|m: int| 0 <= m < k && ids[m] == y && !kept(o, y)),
            forall|y: Seq<u8>| has_checkpoint(repo@.checkpoints, y) ==> checkpoint_of(repo@.checkpoints, y) == checkpoint_of(o.checkpoints, y),
            forall|y: Seq<u8>| #[trigger] has_id(repo@.dag, y) <==> has_id(o.dag, y)
                && !(exists|m: int| 0 <= m < k && ids[m] == y && !kept(o, y) && has_checkpoint(o.checkpoints, y)),
            repo@.branches == o.branches,
            repo@.current == o.current,
            branch_times(repo.branch_seq()) == times0,
        decreases all@.len() - k,
    {
        let id = all[k];
        let ghost y = id.0@;
        let ghost k0 = k as int;
        proof {
            assert(ids[k as int] == y);
            assert forall|m: int| 0 <= m < k implies ids[m] != y by {
                assert(ids[m] != ids[k as int]);
            }
        }
        let ghost before = repo@;
        proof {
            repo.lemma_wf_parts();
            assert(has_checkpoint(before.checkpoints, y) == has_checkpoint(o.checkpoints, y));
        }
        let keep_it = contains_id(&to_keep, &id);
        if keep_it {
            proof {
                assert(kept(o, y));
            }
        } else {
            proof {
                assert(!kept(o, y));
            }
            match repo.get_checkpoint(&id) {
                Ok(cp) => {
                    let sz = checkpoint_size(cp);
                    stats.freed_bytes = stats.freed_bytes.wrapping_add(sz);
                    stats.removed_snapshots = stats.removed_snapshots + 1;
                },
                Err(_) => {},
            }
            let removed = repo.remove_checkpoint(&id);
            if removed.is_ok() {
                stats.removed_checkpoints = stats.removed_checkpoints + 1;
                proof {
                    let i = choose|j: int| 0 <= j < before.checkpoints.len() && before.checkpoints[j].id == y;
                    lemma_removed_checkpoint(before.checkpoints, repo@.checkpoints, i, y);
                    crate::checkpoint::dag::lemma_removed_absent(before.dag, y);
                }
            }
        }
        proof {
            assert forall|x: Seq<u8>| has_checkpoint(repo@.checkpoints, x) <==> has_checkpoint(before.checkpoints, x) && !(x == y && !kept(o, y)) by {
            }
            assert forall|x: Seq<u8>| has_checkpoint(repo@.checkpoints, x) ==> checkpoint_of(repo@.checkpoints, x) == checkpoint_of(before.checkpoints, x) by {
            }
            assert forall|x: Seq<u8>| has_id(repo@.dag, x) <==> has_id(before.dag, x) && !(x == y && !kept(o, y) && has_checkpoint(o.checkpoints, y)) by {
                if x == y && !kept(o, y) && has_checkpoint(o.checkpoints, y) {
                    if has_id(before.dag, y) {
                        assert(!has_id(repo@.dag, y));
                    }
                }
            }
        }
        proof {
            assert(swept_count(ids, o, k + 1) == swept_count(ids, o, k as int) + if has_checkpoint(o.checkpoints, ids[k as int]) && !kept(o, ids[k as int]) { 1nat } else { 0nat });
        }
        k += 1;
        proof {
            assert(ids[k0] == y);
            assert forall|x: Seq<u8>| #[trigger] has_checkpoint(repo@.checkpoints, x) <==> has_checkpoint(o.checkpoints, x)
                && !(exists|m: int| 0 <= m < k && ids[m] == x && !kept(o, x)) by {
                assert(has_checkpoint(before.checkpoints, x) <==> has_checkpoint(o.checkpoints, x)
                    && !(exists|m: int| 0 <= m < k0 && ids[m] == x && !kept(o, x)));
                assert(has_checkpoint(repo@.checkpoints, x) <==> has_checkpoint(before.checkpoints, x) && !(x == y && !kept(o, y)));
                if exists|m: int| 0 <= m < k && ids[m] == x && !kept(o, x) {
                    let m = choose|m: int| 0 <= m < k && ids[m] == x && !kept(o, x);
                    if m < k0 {
                        assert(exists|m2: int| 0 <= m2 < k0 && ids[m2] == x && !kept(o, x));
                    }
                }
                if exists|m: int| 0 <= m < k0 && ids[m] == x && !kept(o, x) {
                    let m = choose|m: int| 0 <= m < k0 && ids[m] == x && !kept(o, x);
                    assert(0 <= m < k && ids[m] == x && !kept(o, x));
                }
                if x == y && !kept(o, y) {
                    assert(0 <= k0 < k && ids[k0] == x && !kept(o, x));
                }
            }
            assert forall|x: Seq<u8>| #[trigger] has_id(repo@.dag, x) <==> has_id(o.dag, x)
                && !(exists|m: int| 0 <= m < k && ids[m] == x && !kept(o, x) && has_checkpoint(o.checkpoints, x)) by {
                assert(has_id(before.dag, x) <==> has_id(o.dag, x)
                    && !(exists|m: int| 0 <= m < k0 && ids[m] == x && !kept(o, x) && has_checkpoint(o.checkpoints, x)));
                assert(has_id(repo@.dag, x) <==> has_id(before.dag, x) && !(x == y && !kept(o, y) && has_checkpoint(o.checkpoints, y)));
                if exists|m: int| 0 <= m < k && ids[m] == x && !kept(o, x) && has_checkpoint(o.checkpoints, x) {
                    let m = choose|m: int| 0 <= m < k && ids[m] == x && !kept(o, x) && has_checkpoint(o.checkpoints, x);
                    if m < k0 {
                        assert(exists|m2: int| 0 <= m2 < k0 && ids[m2] == x && !kept(o, x) && has_checkpoint(o.checkpoints, x));
                    }
                }
                if exists|m: int| 0 <= m < k0 && ids[m] == x && !kept(o, x) && has_checkpoint(o.checkpoints, x) {
                    let m = choose|m: int| 0 <= m < k0 && ids[m] == x && !kept(o, x) && has_checkpoint(o.checkpoints, x);
                    assert(0 <= m < k && ids[m] == x && !kept(o, x) && has_checkpoint(o.checkpoints, x));
                }
                if x == y && !kept(o, y) && has_checkpoint(o.checkpoints, y) {
                    assert(0 <= k0 < k && ids[k0] == x && !kept(o, x) && has_checkpoint(o.checkpoints, x));
                }
            }
        }
    }
    proof {
        assert forall|y: Seq<u8>| has_id(o.dag, y) <==> exists|m: int| 0 <= m < ids.len() && ids[m] == y by {
            if has_id(o.dag, y) {
                let a = choose|a: int| 0 <= a < o.dag.len() && o.dag[a].id == y;
                assert(ids[a] == y);
            }
            if exists|m: int| 0 <= m < ids.len() && ids[m] == y {
                let m = choose|m: int| 0 <= m < ids.len() && ids[m] == y;
                assert(o.dag[m].id == y);
            }
        }
    }
    Ok(stats)
}

/// The largest number of parents of a checkpoint in the DAG, and whether it
/// exceeds 100 (a repack is due).
pub fn check_delta_chain_depth(repo: &CheckpointRepo) -> (r: Result<(usize, bool), StratumError>)
    requires
        repo.wf(),
    ensures
        r matches Ok((d, t)) && d == max_parents(node_ids(repo@.dag), repo@.checkpoints, repo@.dag.len() as int) && t == (d > 100),
{
    let all = repo.dag().all_nodes();
    let ghost ids = node_ids(repo@.dag);
    let mut max_depth: usize = 0;
    let mut k: usize = 0;
    while k < all.len()
        invariant
            repo.wf(),
            ids_view(all@) == ids,
            k <= all@.len(),
            max_depth == max_parents(ids, repo@.checkpoints, k as int),
        decreases all@.len() - k,
    {
        proof {
            assert(ids[k as int] == all@[k as int].0@);
        }
        match repo.get_checkpoint(&all[k]) {
            Ok(cp) => {
                if cp.parents.len() > max_depth {
                    max_depth = cp.parents.len();
                }
            },
            Err(_) => {},
        }
        k += 1;
    }
    proof {
        assert(all@.len() == ids.len());
    }
    Ok((max_depth, max_depth > 100))
}

} // verus!
