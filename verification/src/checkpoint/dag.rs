//! The checkpoint DAG: for each checkpoint its children and its generation
//! number, with ancestry and reachability queries.

use crate::checkpoint::graph::{contains_id, distinct_ids, edge, is_path, nearest_order, neighbours, reaches, search_order, succ, succ_from, table_view, within};
use crate::model::snapshot::{copy_ids, ids_view};
use crate::model::types::{CheckpointId, ContentId};
use vstd::prelude::*;

verus! {

/// One node of the DAG: its identifier, children and generation number (the
/// longest distance from a root).
pub struct DagEntry {
    pub id: Seq<u8>,
    pub children: Seq<Seq<u8>>,
    pub generation: u64,
}

/// A directed acyclic graph of checkpoints, kept as the children of each
/// node (parents are kept by the checkpoints themselves). Each node appears
/// once, and each child once per node.
#[derive(Debug)]
pub struct CheckpointDag {
    nodes: Vec<(CheckpointId, Vec<CheckpointId>)>,
    generations: Vec<u64>,
}

/// The child table of a DAG's nodes.
pub open spec fn graph_of(es: Seq<DagEntry>) -> Seq<(Seq<u8>, Seq<Seq<u8>>)> {
    Seq::new(es.len(), |i: int| (es[i].id, es[i].children))
}

/// Whether a node with identifier `k` is present.
pub open spec fn has_id(es: Seq<DagEntry>, k: Seq<u8>) -> bool {
    exists|i: int| 0 <= i < es.len() && es[i].id == k
}

/// The identifiers of the nodes, in order.
pub open spec fn node_ids(es: Seq<DagEntry>) -> Seq<Seq<u8>> {
    Seq::new(es.len(), |i: int| es[i].id)
}

/// Nodes with distinct identifiers, each with distinct children.
pub open spec fn entries_wf(es: Seq<DagEntry>) -> bool {
    &&& node_ids(es).no_duplicates()
    &&& forall|i: int| 0 <= i < es.len() ==> (#[trigger] es[i]).children.no_duplicates()
}

impl View for CheckpointDag {
    type V = Seq<DagEntry>;

    closed spec fn view(&self) -> Seq<DagEntry> {
        Seq::new(self.nodes@.len(), |i: int| DagEntry {
            id: self.nodes@[i].0.0@,
            children: ids_view(self.nodes@[i].1@),
            generation: self.generations@[i],
        })
    }
}

/// The neighbours listed by the only entry of a key in a table with distinct keys.
proof fn lemma_succ_distinct(tv: Seq<(Seq<u8>, Seq<Seq<u8>>)>, k: Seq<u8>, i: int, j: int)
    requires
        0 <= j <= i < tv.len(),
        tv[i].0 == k,
        forall|a: int, b: int| 0 <= a < b < tv.len() ==> tv[a].0 != tv[b].0,
    ensures
        succ_from(tv, k, j) == tv[i].1,
    decreases i - j,
{
    if j < i {
        assert(tv[j].0 != tv[i].0);
        lemma_succ_distinct(tv, k, i, j + 1);
    }
}

proof fn lemma_succ_absent(tv: Seq<(Seq<u8>, Seq<Seq<u8>>)>, k: Seq<u8>, j: int)
    requires
        0 <= j,
        forall|a: int| 0 <= a < tv.len() ==> tv[a].0 != k,
    ensures
        succ_from(tv, k, j) == Seq::<Seq<u8>>::empty(),
    decreases tv.len() - j,
{
    if j < tv.len() {
        lemma_succ_absent(tv, k, j + 1);
    }
}

/// In a DAG, the children a search follows are the node's own children, and
/// a node that is absent has none.
pub proof fn lemma_graph_children(es: Seq<DagEntry>, k: Seq<u8>)
    requires
        entries_wf(es),
    ensures
        forall|i: int| 0 <= i < es.len() && es[i].id == k ==> succ(graph_of(es), k) == es[i].children,
        !has_id(es, k) ==> succ(graph_of(es), k) == Seq::<Seq<u8>>::empty(),
{
    let tv = graph_of(es);
    assert forall|a: int, b: int| 0 <= a < b < tv.len() implies tv[a].0 != tv[b].0 by {
        assert(node_ids(es)[a] != node_ids(es)[b]);
    }
    assert forall|i: int| 0 <= i < es.len() && es[i].id == k implies succ(tv, k) == es[i].children by {
        lemma_succ_distinct(tv, k, i, 0);
    }
    if !has_id(es, k) {
        lemma_succ_absent(tv, k, 0);
    }
}

/// The entries with a node `k` added (no children, generation 0) unless present.
pub open spec fn ensure_node(es: Seq<DagEntry>, k: Seq<u8>) -> Seq<DagEntry> {
    if has_id(es, k) { es } else { es.push(DagEntry { id: k, children: seq![], generation: 0 }) }
}

/// Adding a node: afterwards the node is present; the entries are unchanged
/// when it was present already, and otherwise grow by one entry for it with
/// no children and generation 0; adding it a second time changes nothing.
pub proof fn lemma_ensure_node(es: Seq<DagEntry>, k: Seq<u8>)
    ensures
        has_id(ensure_node(es, k), k),
        has_id(es, k) ==> ensure_node(es, k) == es,
        !has_id(es, k) ==> ensure_node(es, k).len() == es.len() + 1 && ensure_node(es, k).last() == (DagEntry {
            id: k,
            children: seq![],
            generation: 0,
        }),
        ensure_node(ensure_node(es, k), k) == ensure_node(es, k),
{
    if !has_id(es, k) {
        let e2 = es.push(DagEntry { id: k, children: seq![], generation: 0 });
        assert(e2[es.len() as int].id == k);
    }
}

/// The position of node `k`.
pub open spec fn index_of_id(es: Seq<DagEntry>, k: Seq<u8>) -> int {
    choose|i: int| 0 <= i < es.len() && es[i].id == k
}

/// The entries with the edge `p → c` added: both nodes present, `c` among
/// `p`'s children once, and `c`'s generation at least `p`'s plus one
/// (wrapping at `u64::MAX`).
pub open spec fn with_edge(es: Seq<DagEntry>, p: Seq<u8>, c: Seq<u8>) -> Seq<DagEntry> {
    let e2 = ensure_node(ensure_node(es, p), c);
    let pi = index_of_id(e2, p);
    let ci = index_of_id(e2, c);
    let kids = e2[pi].children;
    let e3 = e2.update(pi, DagEntry { children: if kids.contains(c) { kids } else { kids.push(c) }, ..e2[pi] });
    let ng = e3[pi].generation.wrapping_add(1);
    e3.update(ci, DagEntry { generation: if e3[ci].generation >= ng { e3[ci].generation } else { ng }, ..e3[ci] })
}

proof fn lemma_index_unique(es: Seq<DagEntry>, k: Seq<u8>, i: int)
    requires
        entries_wf(es),
        0 <= i < es.len(),
        es[i].id == k,
    ensures
        index_of_id(es, k) == i,
{
    let j = index_of_id(es, k);
    if j != i {
        assert(node_ids(es)[i] == node_ids(es)[j]);
    }
}

proof fn lemma_ensure_node_wf(es: Seq<DagEntry>, k: Seq<u8>)
    requires
        entries_wf(es),
    ensures
        entries_wf(ensure_node(es, k)),
        has_id(ensure_node(es, k), k),
        forall|x: Seq<u8>| has_id(es, x) ==> has_id(ensure_node(es, k), x),
{
    if !has_id(es, k) {
        let e = ensure_node(es, k);
        assert(node_ids(e) =~= node_ids(es).push(k));
        assert(e[es.len() as int].id == k);
        assert forall|x: Seq<u8>| has_id(es, x) implies has_id(e, x) by {
            let i = choose|i: int| 0 <= i < es.len() && es[i].id == x;
            assert(e[i] == es[i]);
        }
    }
}

proof fn lemma_ensure_node_succ(es: Seq<DagEntry>, k: Seq<u8>)
    requires
        entries_wf(es),
    ensures
        forall|y: Seq<u8>| #[trigger] succ(graph_of(ensure_node(es, k)), y) == succ(graph_of(es), y),
        forall|y: Seq<u8>| #[trigger] has_id(ensure_node(es, k), y) <==> has_id(es, y) || y == k,
{
    lemma_ensure_node_wf(es, k);
    let e = ensure_node(es, k);
    assert forall|y: Seq<u8>| #[trigger] succ(graph_of(e), y) == succ(graph_of(es), y) by {
        lemma_graph_children(es, y);
        lemma_graph_children(e, y);
        if has_id(es, y) {
            let i = choose|i: int| 0 <= i < es.len() && es[i].id == y;
            assert(e[i] == es[i]);
        } else if has_id(e, y) {
            let i = choose|i: int| 0 <= i < e.len() && e[i].id == y;
            if i < es.len() {
                assert(e[i] == es[i]);
            }
            assert(e[i].children == Seq::<Seq<u8>>::empty());
        }
    }
    assert forall|y: Seq<u8>| #[trigger] has_id(e, y) <==> has_id(es, y) || y == k by {
        if has_id(e, y) && !has_id(es, y) {
            let i = choose|i: int| 0 <= i < e.len() && e[i].id == y;
            if i < es.len() {
                assert(e[i] == es[i]);
            }
        }
    }
}

/// Adding an edge: afterwards the nodes are the old ones with both ends, and
/// each node's children are its old children, with the child added to the
/// parent's: `x` is a child of `y` exactly when it was one before or `y → x`
/// is the added edge. No other node gains or loses a child.
pub proof fn lemma_add_edge_children(es: Seq<DagEntry>, p: Seq<u8>, c: Seq<u8>)
    requires
        entries_wf(es),
    ensures
        entries_wf(with_edge(es, p, c)),
        forall|x: Seq<u8>| #[trigger] has_id(with_edge(es, p, c), x) <==> has_id(es, x) || x == p || x == c,
        forall|y: Seq<u8>, x: Seq<u8>| #[trigger] edge(graph_of(with_edge(es, p, c)), y, x) <==> edge(graph_of(es), y, x) || (y == p
            && x == c),
{
    let e1 = ensure_node(es, p);
    lemma_ensure_node_wf(es, p);
    lemma_ensure_node_wf(e1, c);
    lemma_ensure_node_succ(es, p);
    lemma_ensure_node_succ(e1, c);
    let e2 = ensure_node(e1, c);
    let pi = index_of_id(e2, p);
    let ci = index_of_id(e2, c);
    assert(has_id(e2, p));
    assert(0 <= pi < e2.len() && e2[pi].id == p);
    assert(0 <= ci < e2.len() && e2[ci].id == c);
    let kids = e2[pi].children;
    let nk = if kids.contains(c) { kids } else { kids.push(c) };
    let f = with_edge(es, p, c);
    assert(f.len() == e2.len());
    assert forall|j: int| 0 <= j < f.len() implies (#[trigger] f[j]).id == e2[j].id && f[j].children == (if j == pi { nk } else {
        e2[j].children
    }) by {
    }
    assert(node_ids(f) =~= node_ids(e2));
    assert forall|j: int| 0 <= j < f.len() implies (#[trigger] f[j]).children.no_duplicates() by {
        assert(e2[j].children.no_duplicates());
        if j == pi && !kids.contains(c) {
            assert(f[j].children == kids.push(c));
        }
    }
    assert(entries_wf(f));
    assert forall|x: Seq<u8>| #[trigger] has_id(f, x) <==> has_id(es, x) || x == p || x == c by {
        if has_id(f, x) {
            let i = choose|i: int| 0 <= i < f.len() && f[i].id == x;
            assert(e2[i].id == x);
        }
        if has_id(e2, x) {
            let i = choose|i: int| 0 <= i < e2.len() && e2[i].id == x;
            assert(f[i].id == x);
        }
    }
    assert forall|y: Seq<u8>, x: Seq<u8>| #[trigger] edge(graph_of(f), y, x) <==> edge(graph_of(es), y, x) || (y == p && x == c) by {
        lemma_graph_children(f, y);
        lemma_graph_children(e2, y);
        assert(succ(graph_of(e2), y) == succ(graph_of(e1), y));
        assert(succ(graph_of(e1), y) == succ(graph_of(es), y));
        if has_id(e2, y) {
            let j = choose|j: int| 0 <= j < e2.len() && e2[j].id == y;
            assert(f[j].id == y);
            assert(succ(graph_of(f), y) == f[j].children);
            assert(succ(graph_of(e2), y) == e2[j].children);
            if j == pi {
                assert(y == p);
                assert(f[j].children == nk);
                assert(nk.contains(x) <==> kids.contains(x) || x == c) by {
                    if !kids.contains(c) {
                        assert(nk == kids.push(c));
                        assert(nk[kids.len() as int] == c);
                        if nk.contains(x) {
                            let k = choose|k: int| 0 <= k < nk.len() && nk[k] == x;
                            if k < kids.len() {
                                assert(kids[k] == x);
                            }
                        }
                        if kids.contains(x) {
                            let k = choose|k: int| 0 <= k < kids.len() && kids[k] == x;
                            assert(nk[k] == x);
                        }
                    }
                }
            } else {
                assert(node_ids(e2)[j] != node_ids(e2)[pi]);
                assert(y != p);
                assert(f[j].children == e2[j].children);
            }
        } else {
            assert(!has_id(f, y)) by {
                if has_id(f, y) {
                    let i = choose|i: int| 0 <= i < f.len() && f[i].id == y;
                    assert(e2[i].id == y);
                }
            }
            assert(y != p);
        }
    }
}

/// The generation number of node `k`, 0 for an absent node.
pub open spec fn generation_in(es: Seq<DagEntry>, k: Seq<u8>) -> u64 {
    if has_id(es, k) { es[index_of_id(es, k)].generation } else { 0 }
}

proof fn lemma_ensure_node_generation(es: Seq<DagEntry>, k: Seq<u8>)
    requires
        entries_wf(es),
    ensures
        forall|y: Seq<u8>| #[trigger] generation_in(ensure_node(es, k), y) == generation_in(es, y),
{
    lemma_ensure_node_wf(es, k);
    lemma_ensure_node_succ(es, k);
    let e = ensure_node(es, k);
    assert forall|y: Seq<u8>| #[trigger] generation_in(e, y) == generation_in(es, y) by {
        if has_id(es, y) {
            let i = index_of_id(es, y);
            assert(e[i] == es[i]);
            lemma_index_unique(e, y, i);
        } else if has_id(e, y) {
            let i = index_of_id(e, y);
            if i < es.len() {
                assert(e[i] == es[i]);
            }
        }
    }
}

/// Adding an edge raises the child's generation to at least the parent's
/// plus one (wrapping at `u64::MAX`) and leaves every other node's
/// generation as it was.
pub proof fn lemma_add_edge_generation(es: Seq<DagEntry>, p: Seq<u8>, c: Seq<u8>)
    requires
        entries_wf(es),
    ensures
        ({
            let ng = generation_in(es, p).wrapping_add(1);
            generation_in(with_edge(es, p, c), c) == if generation_in(es, c) >= ng { generation_in(es, c) } else { ng }
        }),
        forall|k: Seq<u8>| k != c ==> #[trigger] generation_in(with_edge(es, p, c), k) == generation_in(es, k),
{
    let e1 = ensure_node(es, p);
    lemma_ensure_node_wf(es, p);
    lemma_ensure_node_wf(e1, c);
    lemma_ensure_node_generation(es, p);
    lemma_ensure_node_generation(e1, c);
    lemma_add_edge_children(es, p, c);
    let e2 = ensure_node(e1, c);
    let pi = index_of_id(e2, p);
    let ci = index_of_id(e2, c);
    assert(has_id(e2, p) && has_id(e2, c));
    let f = with_edge(es, p, c);
    assert(f.len() == e2.len());
    assert forall|j: int| 0 <= j < f.len() implies (#[trigger] f[j]).id == e2[j].id by {}
    assert(generation_in(e2, p) == e2[pi].generation);
    assert(generation_in(e2, c) == e2[ci].generation);
    lemma_index_unique(f, c, ci);
    assert forall|k: Seq<u8>| k != c implies #[trigger] generation_in(f, k) == generation_in(es, k) by {
        assert(generation_in(e2, k) == generation_in(es, k));
        if has_id(e2, k) {
            let j = index_of_id(e2, k);
            lemma_index_unique(f, k, j);
            assert(j != ci);
        } else {
            assert(!has_id(f, k));
        }
    }
}

/// A node removed from a DAG is absent from it.
pub proof fn lemma_removed_absent(es: Seq<DagEntry>, k: Seq<u8>)
    requires
        entries_wf(es),
    ensures
        has_id(es, k) ==> !has_id(es.remove(index_of_id(es, k)), k),
        has_id(es, k) ==> entries_wf(es.remove(index_of_id(es, k))),
        has_id(es, k) ==> forall|x: Seq<u8>| x != k ==> (has_id(es.remove(index_of_id(es, k)), x) <==> has_id(es, x)),
{
    if has_id(es, k) {
        let i = index_of_id(es, k);
        let r = es.remove(i);
        assert forall|x: Seq<u8>| x != k implies (has_id(r, x) <==> has_id(es, x)) by {
            if has_id(r, x) {
                let a = choose|a: int| 0 <= a < r.len() && r[a].id == x;
                let a2 = if a < i { a } else { a + 1 };
                assert(r[a] == es[a2]);
            }
            if has_id(es, x) {
                let a = choose|a: int| 0 <= a < es.len() && es[a].id == x;
                assert(a != i);
                let a2 = if a < i { a } else { a - 1 };
                assert(r[a2] == es[a]);
            }
        }
        if has_id(r, k) {
            let a = choose|a: int| 0 <= a < r.len() && r[a].id == k;
            let a2 = if a < i { a } else { a + 1 };
            assert(r[a] == es[a2]);
            assert(node_ids(es)[a2] == node_ids(es)[i]);
        }
        assert(node_ids(r) =~= node_ids(es).remove(i));
        assert forall|j: int| 0 <= j < r.len() implies (#[trigger] r[j]).children.no_duplicates() by {
            if j < i {
                assert(r[j] == es[j]);
            } else {
                assert(r[j] == es[j + 1]);
            }
        }
    }
}

impl CheckpointDag {
    /// The DAG's own consistency: one generation per node, distinct nodes,
    /// distinct children.
    pub closed spec fn wf(&self) -> bool {
        &&& self.nodes@.len() == self.generations@.len()
        &&& entries_wf(self@)
    }

    /// Whether the DAG is consistent: one generation per node, distinct
    /// nodes, distinct children of each node.
    pub fn is_well_formed(&self) -> (r: bool)
        ensures
            r == self.wf(),
    {
        if self.nodes.len() != self.generations.len() {
            return false;
        }
        let mut ids: Vec<CheckpointId> = Vec::new();
        let mut i: usize = 0;
        while i < self.nodes.len()
            invariant
                i <= self.nodes@.len(),
                self.nodes@.len() == self.generations@.len(),
                ids_view(ids@) == node_ids(self@).take(i as int),
                forall|j: int| 0 <= j < i ==> (#[trigger] self@[j]).children.no_duplicates(),
            decreases self.nodes@.len() - i,
        {
            proof {
                assert(self@[i as int].children == ids_view(self.nodes@[i as int].1@));
                assert(self@[i as int].id == self.nodes@[i as int].0.0@);
            }
            if !distinct_ids(&self.nodes[i].1) {
                proof {
                    assert(!self@[i as int].children.no_duplicates());
                }
                return false;
            }
            let ghost i0 = ids@;
            ids.push(self.nodes[i].0);
            proof {
                assert(ids_view(ids@) =~= ids_view(i0).push(self.nodes@[i as int].0.0@));
                assert(node_ids(self@).take(i + 1) =~= node_ids(self@).take(i as int).push(self@[i as int].id));
                assert(ids_view(ids@) =~= node_ids(self@).take(i + 1));
            }
            i += 1;
        }
        proof {
            assert(node_ids(self@).take(self.nodes@.len() as int) =~= node_ids(self@));
        }
        distinct_ids(&ids)
    }

    /// A consistent DAG has distinct nodes with distinct children.
    pub proof fn lemma_entries(&self)
        requires
            self.wf(),
        ensures
            entries_wf(self@),
    {
    }

    proof fn lemma_table(&self)
        ensures
            table_view(self.nodes@) == graph_of(self@),
    {
        assert(table_view(self.nodes@) =~= graph_of(self@));
    }

    /// An empty DAG.
    pub fn new() -> (r: CheckpointDag)
        ensures
            r.wf(),
            r@ == Seq::<DagEntry>::empty(),
    {
        let r = CheckpointDag { nodes: Vec::new(), generations: Vec::new() };
        proof {
            assert(r@ =~= Seq::<DagEntry>::empty());
            assert(node_ids(r@) =~= Seq::<Seq<u8>>::empty());
        }
        r
    }

    /// Index of the node `id`, if present.
    fn find(&self, id: &CheckpointId) -> (r: Option<usize>)
        requires
            self.wf(),
        ensures
            self.nodes@.len() == self.generations@.len(),
            entries_wf(self@),
            r matches Some(i) ==> i < self@.len() && self@[i as int].id == id.0@ && index_of_id(self@, id.0@) == i,
            r is None ==> !has_id(self@, id.0@),
    {
        let mut i: usize = 0;
        while i < self.nodes.len()
            invariant
                self.wf(),
                i <= self.nodes@.len(),
                self.nodes@.len() == self.generations@.len(),
                forall|j: int| 0 <= j < i ==> self@[j].id != id.0@,
            decreases self.nodes@.len() - i,
        {
            if self.nodes[i].0 == *id {
                proof {
                    lemma_index_unique(self@, id.0@, i as int);
                }
                return Some(i);
            }
            i += 1;
        }
        None
    }

    /// Adds a node without children and with generation 0, unless it is
    /// already present.
    pub fn add_node(&mut self, id: CheckpointId)
        requires
            old(self).wf(),
        ensures
            final(self).wf(),
            final(self)@ == ensure_node(old(self)@, id.0@),
    {
        if self.find(&id).is_none() {
            let ghost e0 = self@;
            let kids: Vec<CheckpointId> = Vec::new();
            proof {
                assert(ids_view(kids@) =~= Seq::<Seq<u8>>::empty());
            }
            self.generations.push(0);
            self.nodes.push((id, kids));
            proof {
                assert(self@ =~= e0.push(DagEntry { id: id.0@, children: seq![], generation: 0 }));
                lemma_ensure_node_wf(e0, id.0@);
            }
        }
    }

    /// Adds the edge `parent → child` (see `with_edge`), adding either node
    /// where absent.
    pub fn add_edge(&mut self, parent: CheckpointId, child: CheckpointId)
        requires
            old(self).wf(),
        ensures
            final(self).wf(),
            final(self)@ == with_edge(old(self)@, parent.0@, child.0@),
            forall|y: Seq<u8>, x: Seq<u8>| #[trigger] edge(graph_of(final(self)@), y, x) <==> edge(graph_of(old(self)@), y, x) || (y
                == parent.0@ && x == child.0@),
            generation_in(final(self)@, child.0@) == if generation_in(old(self)@, child.0@) >= generation_in(old(self)@, parent.0@).wrapping_add(1) {
                generation_in(old(self)@, child.0@)
            } else {
                generation_in(old(self)@, parent.0@).wrapping_add(1)
            },
            forall|k: Seq<u8>| k != child.0@ ==> #[trigger] generation_in(final(self)@, k) == generation_in(old(self)@, k),
    {
        proof {
            old(self).lemma_entries();
            lemma_add_edge_children(old(self)@, parent.0@, child.0@);
            lemma_add_edge_generation(old(self)@, parent.0@, child.0@);
        }
        self.add_node(parent);
        self.add_node(child);
        let ghost e2 = self@;
        proof {
            lemma_ensure_node_wf(old(self)@, parent.0@);
            lemma_ensure_node_wf(ensure_node(old(self)@, parent.0@), child.0@);
        }
        let pi = match self.find(&parent) {
            Some(i) => i,
            None => {
                proof {
                    assert(false);
                }
                0
            },
        };
        let ci = match self.find(&child) {
            Some(i) => i,
            None => {
                proof {
                    assert(false);
                }
                0
            },
        };
        let ghost kids = e2[pi as int].children;
        if !contains_id(&self.nodes[pi].1, &child) {
            let mut kv = copy_ids(&self.nodes[pi].1);
            kv.push(child);
            proof {
                assert(ids_view(kv@) =~= kids.push(child.0@));
            }
            self.nodes.set(pi, (parent, kv));
        }
        let ghost e3 = self@;
        proof {
            assert(e3 =~= e2.update(pi as int, DagEntry { children: if kids.contains(child.0@) { kids } else { kids.push(child.0@) }, ..e2[pi as int] }));
        }
        let pg = self.generations[pi];
        let cg = self.generations[ci];
        let ng = pg.wrapping_add(1);
        if ng > cg {
            self.generations.set(ci, ng);
        }
        proof {
            assert(self@ =~= with_edge(old(self)@, parent.0@, child.0@));
            assert(node_ids(self@) =~= node_ids(e2));
            assert forall|j: int| 0 <= j < self@.len() implies (#[trigger] self@[j]).children.no_duplicates() by {
                if j != pi {
                    assert(self@[j].children == e2[j].children);
                } else if !kids.contains(child.0@) {
                    assert(e2[j].children.no_duplicates());
                    assert(self@[j].children == kids.push(child.0@));
                }
            }
        }
    }

    /// Whether the node is present.
    pub fn has_node(&self, id: &CheckpointId) -> (r: bool)
        requires
            self.wf(),
        ensures
            r == has_id(self@, id.0@),
    {
        self.find(id).is_some()
    }

    /// The ancestors of `id`: every checkpoint reachable from it through the
    /// parent table, each once, nearest first, `id` itself left out.
    pub fn ancestors(&self, id: &CheckpointId, parents: &Vec<(CheckpointId, Vec<CheckpointId>)>) -> (r: Vec<CheckpointId>)
        requires
            self.wf(),
        ensures
            ids_view(r@).no_duplicates(),
            forall|x: Seq<u8>| ids_view(r@).contains(x) <==> (x != id.0@ && reaches(table_view(parents@), id.0@, x)),
            forall|i: int, j: int, n: int| 0 <= i < j < r@.len() && #[trigger] within(table_view(parents@), id.0@, r@[j].0@, n)
                ==> within(table_view(parents@), id.0@, #[trigger] r@[i].0@, n),
    {
        let order = nearest_order(parents, *id);
        let mut r: Vec<CheckpointId> = Vec::new();
        let mut i: usize = 1;
        while i < order.len()
            invariant
                1 <= i <= order@.len(),
                r@.len() == i - 1,
                forall|j: int| 0 <= j < r@.len() ==> (#[trigger] r@[j]).0@ == order@[j + 1].0@,
            decreases order@.len() - i,
        {
            r.push(order[i]);
            i += 1;
        }
        proof {
            let ov = ids_view(order@);
            assert(ids_view(r@) =~= ov.subrange(1, ov.len() as int));
            assert forall|x: Seq<u8>| ids_view(r@).contains(x) <==> (x != id.0@ && reaches(table_view(parents@), id.0@, x)) by {
                if ids_view(r@).contains(x) {
                    let j = choose|j: int| 0 <= j < r@.len() && ids_view(r@)[j] == x;
                    assert(ov[j + 1] == x);
                    assert(reaches(table_view(parents@), id.0@, order@[j + 1].0@));
                    assert(ov[0] != ov[j + 1]);
                }
                if x != id.0@ && reaches(table_view(parents@), id.0@, x) {
                    let k = choose|k: int| 0 <= k < ov.len() && ov[k] == x;
                    assert(k != 0);
                    assert(ids_view(r@)[k - 1] == x);
                }
            }
            assert forall|i: int, j: int, n: int| 0 <= i < j < r@.len() && #[trigger] within(table_view(parents@), id.0@, r@[j].0@, n)
                implies within(table_view(parents@), id.0@, #[trigger] r@[i].0@, n) by {
                assert(r@[j].0@ == order@[j + 1].0@);
                assert(r@[i].0@ == order@[i + 1].0@);
                assert(within(table_view(parents@), id.0@, order@[j + 1].0@, n));
            }
        }
        r
    }

    /// Whether `descendant` can be reached from `ancestor` through children
    /// (a node counts as its own ancestor).
    pub fn is_ancestor(&self, ancestor: &CheckpointId, descendant: &CheckpointId) -> (r: bool)
        requires
            self.wf(),
        ensures
            r == reaches(graph_of(self@), ancestor.0@, descendant.0@),
    {
        proof {
            self.lemma_table();
        }
        if *ancestor == *descendant {
            proof {
                let p = seq![ancestor.0@];
                assert(crate::checkpoint::graph::is_path(graph_of(self@), p) && p[0] == ancestor.0@ && p.last() == descendant.0@);
            }
            return true;
        }
        let order = search_order(&self.nodes, *ancestor);
        contains_id(&order, descendant)
    }

    /// A common ancestor of `id1` and `id2` through the parent table (a node
    /// counting as its own ancestor): the first ancestor of `id2`, nearest
    /// first, that is also one of `id1`, so that no common ancestor is fewer
    /// steps from `id2`; `None` when they have none in common.
    pub fn merge_base(&self, id1: &CheckpointId, id2: &CheckpointId, parents: &Vec<(CheckpointId, Vec<CheckpointId>)>) -> (r: Option<CheckpointId>)
        requires
            self.wf(),
        ensures
            r is None <==> !exists|x: Seq<u8>| reaches(table_view(parents@), id1.0@, x) && reaches(table_view(parents@), id2.0@, x),
            r matches Some(c) ==> reaches(table_view(parents@), id1.0@, c.0@) && reaches(table_view(parents@), id2.0@, c.0@),
            r matches Some(c) ==> forall|x: Seq<u8>, n: int| reaches(table_view(parents@), id1.0@, x)
                && #[trigger] within(table_view(parents@), id2.0@, x, n) ==> within(table_view(parents@), id2.0@, c.0@, n),
    {
        let ghost tv = table_view(parents@);
        let a1 = search_order(parents, *id1);
        let r2 = nearest_order(parents, *id2);
        let mut i: usize = 0;
        while i < r2.len()
            invariant
                tv == table_view(parents@),
                i <= r2@.len(),
                forall|k: int| 0 <= k < a1@.len() ==> reaches(tv, id1.0@, #[trigger] a1@[k].0@),
                forall|k: int| 0 <= k < r2@.len() ==> reaches(tv, id2.0@, #[trigger] r2@[k].0@),
                forall|b: Seq<u8>| #[trigger] reaches(tv, id2.0@, b) ==> ids_view(r2@).contains(b),
                forall|b: Seq<u8>| #[trigger] reaches(tv, id1.0@, b) ==> ids_view(a1@).contains(b),
                forall|a: int, b: int, n: int| 0 <= a < b < r2@.len() && #[trigger] within(tv, id2.0@, r2@[b].0@, n)
                    ==> within(tv, id2.0@, #[trigger] r2@[a].0@, n),
                forall|j: int| 0 <= j < i ==> !ids_view(a1@).contains(#[trigger] r2@[j].0@),
            decreases r2@.len() - i,
        {
            if contains_id(&a1, &r2[i]) {
                proof {
                    let x = r2@[i as int].0@;
                    let k = choose|k: int| 0 <= k < a1@.len() && ids_view(a1@)[k] == x;
                    assert(reaches(tv, id1.0@, a1@[k].0@));
                    assert(reaches(tv, id1.0@, x) && reaches(tv, id2.0@, x));
                    assert forall|y: Seq<u8>, n: int| reaches(tv, id1.0@, y) && #[trigger] within(tv, id2.0@, y, n)
                        implies within(tv, id2.0@, x, n) by {
                        let p = choose|p: Seq<Seq<u8>>| #[trigger] is_path(tv, p) && p[0] == id2.0@ && p.last() == y && p.len() <= n + 1;
                        assert(reaches(tv, id2.0@, y));
                        assert(ids_view(r2@).contains(y));
                        let k2 = choose|k2: int| 0 <= k2 < r2@.len() && ids_view(r2@)[k2] == y;
                        assert(ids_view(a1@).contains(y));
                        assert(r2@[k2].0@ == y);
                        if k2 < i {
                            assert(!ids_view(a1@).contains(r2@[k2].0@));
                        } else if k2 > i {
                            assert(within(tv, id2.0@, r2@[k2].0@, n));
                        }
                    }
                }
                return Some(r2[i]);
            }
            i += 1;
        }
        proof {
            assert forall|x: Seq<u8>| !(reaches(tv, id1.0@, x) && reaches(tv, id2.0@, x)) by {
                if reaches(tv, id1.0@, x) && reaches(tv, id2.0@, x) {
                    let k = choose|k: int| 0 <= k < r2@.len() && ids_view(r2@)[k] == x;
                    assert(!ids_view(a1@).contains(r2@[k].0@));
                }
            }
        }
        None
    }

    /// The node and every node reachable from it through children, each once,
    /// in breadth-first order.
    pub fn descendants(&self, id: &CheckpointId) -> (r: Vec<CheckpointId>)
        requires
            self.wf(),
        ensures
            ids_view(r@).no_duplicates(),
            forall|x: Seq<u8>| ids_view(r@).contains(x) <==> reaches(graph_of(self@), id.0@, x),
    {
        proof {
            self.lemma_table();
        }
        let r = search_order(&self.nodes, *id);
        proof {
            assert forall|x: Seq<u8>| ids_view(r@).contains(x) <==> reaches(graph_of(self@), id.0@, x) by {
                if ids_view(r@).contains(x) {
                    let k = choose|k: int| 0 <= k < r@.len() && ids_view(r@)[k] == x;
                    assert(reaches(table_view(self.nodes@), id.0@, r@[k].0@));
                }
            }
        }
        r
    }

    /// The children of a node (none when it is absent).
    pub fn get_children(&self, id: &CheckpointId) -> (r: Vec<CheckpointId>)
        requires
            self.wf(),
        ensures
            ids_view(r@) == succ(graph_of(self@), id.0@),
            forall|i: int| 0 <= i < self@.len() && self@[i].id == id.0@ ==> ids_view(r@) == self@[i].children,
            !has_id(self@, id.0@) ==> r@.len() == 0,
    {
        proof {
            self.lemma_table();
            lemma_graph_children(self@, id.0@);
        }
        let r = neighbours(&self.nodes, id);
        proof {
            assert(r@.len() == ids_view(r@).len());
        }
        r
    }

    /// The generation number of a node, if present.
    pub fn generation(&self, id: &CheckpointId) -> (r: Option<u64>)
        requires
            self.wf(),
        ensures
            r is None <==> !has_id(self@, id.0@),
            r matches Some(g) ==> g == self@[index_of_id(self@, id.0@)].generation,
    {
        match self.find(id) {
            Some(i) => Some(self.generations[i]),
            None => None,
        }
    }

    /// Every node, in the order they were added.
    pub fn all_nodes(&self) -> (r: Vec<CheckpointId>)
        requires
            self.wf(),
        ensures
            ids_view(r@) == node_ids(self@),
    {
        let mut r: Vec<CheckpointId> = Vec::new();
        let mut i: usize = 0;
        while i < self.nodes.len()
            invariant
                i <= self.nodes@.len(),
                r@.len() == i,
                forall|j: int| 0 <= j < i ==> (#[trigger] r@[j]).0@ == self.nodes@[j].0.0@,
            decreases self.nodes@.len() - i,
        {
            r.push(self.nodes[i].0);
            i += 1;
        }
        proof {
            assert(ids_view(r@) =~= node_ids(self@));
        }
        r
    }

    /// The number of nodes.
    pub fn len(&self) -> (r: usize)
        requires
            self.wf(),
        ensures
            r == self@.len(),
    {
        self.nodes.len()
    }

    /// Whether there is no node.
    pub fn is_empty(&self) -> (r: bool)
        requires
            self.wf(),
        ensures
            r == (self@.len() == 0),
    {
        self.nodes.len() == 0
    }

    /// Removes a node and its generation number (edges into it from other
    /// nodes stay); nothing happens when it is absent.
    pub fn remove_node(&mut self, id: &CheckpointId)
        requires
            old(self).wf(),
        ensures
            final(self).wf(),
            !has_id(old(self)@, id.0@) ==> final(self)@ == old(self)@,
            has_id(old(self)@, id.0@) ==> final(self)@ == old(self)@.remove(index_of_id(old(self)@, id.0@)),
    {
        match self.find(id) {
            Some(i) => {
                let ghost e0 = self@;
                proof {
                    assert(node_ids(e0.remove(i as int)) =~= node_ids(e0).remove(i as int));
                    assert forall|j: int| 0 <= j < e0.remove(i as int).len() implies (#[trigger] e0.remove(i as int)[j]).children.no_duplicates() by {
                        if j < i {
                            assert(e0.remove(i as int)[j] == e0[j]);
                        } else {
                            assert(e0.remove(i as int)[j] == e0[j + 1]);
                        }
                    }
                }
                self.generations.remove(i);
                self.nodes.remove(i);
                proof {
                    assert(self@ =~= e0.remove(i as int));
                }
            },
            None => {},
        }
    }

    /// A copy of the DAG.
    pub fn duplicate(&self) -> (r: CheckpointDag)
        requires
            self.wf(),
        ensures
            r.wf(),
            r@ == self@,
    {
        let mut nodes: Vec<(CheckpointId, Vec<CheckpointId>)> = Vec::new();
        let mut i: usize = 0;
        while i < self.nodes.len()
            invariant
                i <= self.nodes@.len(),
                nodes@.len() == i,
                forall|j: int| 0 <= j < i ==> (#[trigger] nodes@[j]).0.0@ == self.nodes@[j].0.0@ && ids_view(nodes@[j].1@) == ids_view(self.nodes@[j].1@),
            decreases self.nodes@.len() - i,
        {
            nodes.push((self.nodes[i].0, copy_ids(&self.nodes[i].1)));
            i += 1;
        }
        let r = CheckpointDag { nodes, generations: self.generations.clone() };
        proof {
            assert(r.generations@ =~= self.generations@);
            assert(r@ =~= self@);
        }
        r
    }
}

impl Default for CheckpointDag {
    fn default() -> (r: CheckpointDag)
        ensures
            r.wf(),
            r@ == Seq::<DagEntry>::empty(),
    {
        CheckpointDag::new()
    }
}

} // verus!
