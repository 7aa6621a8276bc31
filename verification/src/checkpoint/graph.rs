//! Graph search over tables that list, for each checkpoint, its neighbours
//! (its parents or its children).

use crate::model::snapshot::{copy_ids, ids_view};
use crate::model::types::ContentId;
use vstd::prelude::*;

verus! {

/// The view of a neighbour table.
pub open spec fn table_view(t: Seq<(ContentId, Vec<ContentId>)>) -> Seq<(Seq<u8>, Seq<Seq<u8>>)> {
    Seq::new(t.len(), |i: int| (t[i].0.0@, ids_view(t[i].1@)))
}

/// The neighbours listed by the first entry for `x` from entry `i` on.
pub open spec fn succ_from(tv: Seq<(Seq<u8>, Seq<Seq<u8>>)>, x: Seq<u8>, i: int) -> Seq<Seq<u8>>
    decreases tv.len() - i,
{
    if i < 0 || i >= tv.len() {
        seq![]
    } else if tv[i].0 == x {
        tv[i].1
    } else {
        succ_from(tv, x, i + 1)
    }
}

/// The neighbours of `x`: those listed by its first entry, none without one.
pub open spec fn succ(tv: Seq<(Seq<u8>, Seq<Seq<u8>>)>, x: Seq<u8>) -> Seq<Seq<u8>> {
    succ_from(tv, x, 0)
}

/// Whether `b` is a neighbour of `a`.
pub open spec fn edge(tv: Seq<(Seq<u8>, Seq<Seq<u8>>)>, a: Seq<u8>, b: Seq<u8>) -> bool {
    succ(tv, a).contains(b)
}

/// Whether `p` is a path: at least one node, each the next's neighbour... each
/// followed by one of its neighbours.
pub open spec fn is_path(tv: Seq<(Seq<u8>, Seq<Seq<u8>>)>, p: Seq<Seq<u8>>) -> bool {
    p.len() >= 1 && forall|i: int| 0 <= i < p.len() - 1 ==> edge(tv, #[trigger] p[i], p[i + 1])
}

/// Whether `b` can be reached from `a` by following neighbours (zero or more steps).
pub open spec fn reaches(tv: Seq<(Seq<u8>, Seq<Seq<u8>>)>, a: Seq<u8>, b: Seq<u8>) -> bool {
    exists|p: Seq<Seq<u8>>| is_path(tv, p) && p[0] == a && p.last() == b
}

/// Every identifier the table names, keys and neighbours.
pub open spec fn flat_ids(tv: Seq<(Seq<u8>, Seq<Seq<u8>>)>) -> Seq<Seq<u8>>
    decreases tv.len(),
{
    if tv.len() == 0 {
        seq![]
    } else {
        flat_ids(tv.drop_last()) + seq![tv.last().0] + tv.last().1
    }
}

pub proof fn lemma_entry_in_flat(tv: Seq<(Seq<u8>, Seq<Seq<u8>>)>, i: int, b: Seq<u8>)
    requires
        0 <= i < tv.len(),
        tv[i].1.contains(b),
    ensures
        flat_ids(tv).contains(b),
    decreases tv.len(),
{
    let f = flat_ids(tv);
    let p = flat_ids(tv.drop_last());
    if i == tv.len() - 1 {
        let k = choose|k: int| 0 <= k < tv[i].1.len() && tv[i].1[k] == b;
        assert(f[p.len() + 1 + k] == b);
    } else {
        assert(tv.drop_last()[i] == tv[i]);
        lemma_entry_in_flat(tv.drop_last(), i, b);
        let k = choose|k: int| 0 <= k < p.len() && p[k] == b;
        assert(f[k] == b);
    }
}

proof fn lemma_succ_in_flat(tv: Seq<(Seq<u8>, Seq<Seq<u8>>)>, x: Seq<u8>, i: int, b: Seq<u8>)
    requires
        0 <= i,
        succ_from(tv, x, i).contains(b),
    ensures
        flat_ids(tv).contains(b),
    decreases tv.len() - i,
{
    if i < tv.len() {
        if tv[i].0 == x {
            lemma_entry_in_flat(tv, i, b);
        } else {
            lemma_succ_in_flat(tv, x, i + 1, b);
        }
    }
}

proof fn lemma_reach_refl(tv: Seq<(Seq<u8>, Seq<Seq<u8>>)>, a: Seq<u8>)
    ensures
        reaches(tv, a, a),
{
    let p = seq![a];
    assert(is_path(tv, p) && p[0] == a && p.last() == a);
}

proof fn lemma_reach_step(tv: Seq<(Seq<u8>, Seq<Seq<u8>>)>, a: Seq<u8>, x: Seq<u8>, b: Seq<u8>)
    requires
        reaches(tv, a, x),
        edge(tv, x, b),
    ensures
        reaches(tv, a, b),
{
    let p = choose|p: Seq<Seq<u8>>| is_path(tv, p) && p[0] == a && p.last() == x;
    let q = p.push(b);
    assert forall|i: int| 0 <= i < q.len() - 1 implies edge(tv, #[trigger] q[i], q[i + 1]) by {
        if i < p.len() - 1 {
            assert(q[i] == p[i] && q[i + 1] == p[i + 1]);
        } else {
            assert(q[i] == x);
        }
    }
    assert(is_path(tv, q) && q[0] == a && q.last() == b);
}

proof fn lemma_closed_has_path_end(tv: Seq<(Seq<u8>, Seq<Seq<u8>>)>, vs: Seq<Seq<u8>>, p: Seq<Seq<u8>>)
    requires
        is_path(tv, p),
        vs.contains(p[0]),
        forall|x: Seq<u8>, b: Seq<u8>| vs.contains(x) && #[trigger] succ(tv, x).contains(b) ==> vs.contains(b),
    ensures
        vs.contains(p.last()),
    decreases p.len(),
{
    if p.len() > 1 {
        let q = p.drop_last();
        assert forall|i: int| 0 <= i < q.len() - 1 implies edge(tv, #[trigger] q[i], q[i + 1]) by {
            assert(q[i] == p[i] && q[i + 1] == p[i + 1]);
            assert(edge(tv, p[i], p[i + 1]));
        }
        lemma_closed_has_path_end(tv, vs, q);
        assert(edge(tv, p[p.len() - 2], p[p.len() - 1]));
    }
}

pub proof fn lemma_distinct_within(s: Seq<Seq<u8>>, w: Seq<Seq<u8>>)
    requires
        s.no_duplicates(),
        forall|i: int| 0 <= i < s.len() ==> w.contains(#[trigger] s[i]),
    ensures
        s.len() <= w.len(),
{
    s.unique_seq_to_set();
    w.lemma_cardinality_of_set();
    assert(s.to_set().subset_of(w.to_set())) by {
        assert forall|x: Seq<u8>| s.to_set().contains(x) implies w.to_set().contains(x) by {
            let i = choose|i: int| 0 <= i < s.len() && s[i] == x;
            assert(w.contains(s[i]));
        }
    }
    vstd::set_lib::lemma_len_subset(s.to_set(), w.to_set());
}

/// The neighbours of `x` listed in the table.
pub fn neighbours(t: &Vec<(ContentId, Vec<ContentId>)>, x: &ContentId) -> (r: Vec<ContentId>)
    ensures
        ids_view(r@) == succ(table_view(t@), x.0@),
{
    let ghost tv = table_view(t@);
    let mut i: usize = 0;
    while i < t.len()
        invariant
            tv == table_view(t@),
            i <= t@.len(),
            succ(tv, x.0@) == succ_from(tv, x.0@, i as int),
        decreases t@.len() - i,
    {
        if t[i].0 == *x {
            return copy_ids(&t[i].1);
        }
        i += 1;
    }
    let r: Vec<ContentId> = Vec::new();
    proof {
        assert(ids_view(r@) =~= Seq::<Seq<u8>>::empty());
    }
    r
}

/// Whether `x` occurs in the list.
pub fn contains_id(v: &Vec<ContentId>, x: &ContentId) -> (r: bool)
    ensures
        r == ids_view(v@).contains(x.0@),
{
    let mut i: usize = 0;
    while i < v.len()
        invariant
            i <= v@.len(),
            forall|j: int| 0 <= j < i ==> ids_view(v@)[j] != x.0@,
        decreases v@.len() - i,
    {
        if v[i] == *x {
            proof {
                assert(ids_view(v@)[i as int] == x.0@);
            }
            return true;
        }
        i += 1;
    }
    false
}

/// Whether no identifier occurs twice in the list.
pub fn distinct_ids(v: &Vec<ContentId>) -> (r: bool)
    ensures
        r == ids_view(v@).no_duplicates(),
{
    let mut i: usize = 0;
    while i < v.len()
        invariant
            i <= v@.len(),
            forall|a: int, b: int| 0 <= a < b < i ==> ids_view(v@)[a] != ids_view(v@)[b],
        decreases v@.len() - i,
    {
        let mut j: usize = 0;
        while j < i
            invariant
                i < v@.len(),
                j <= i,
                forall|a: int| 0 <= a < j ==> ids_view(v@)[a] != ids_view(v@)[i as int],
            decreases i - j,
        {
            if v[j] == v[i] {
                proof {
                    assert(ids_view(v@)[j as int] == ids_view(v@)[i as int]);
                }
                return false;
            }
            j += 1;
        }
        i += 1;
    }
    true
}

/// Whether `b` can be reached from `a` in at most `n` steps.
pub open spec fn within(tv: Seq<(Seq<u8>, Seq<Seq<u8>>)>, a: Seq<u8>, b: Seq<u8>, n: int) -> bool {
    exists|p: Seq<Seq<u8>>| #[trigger] is_path(tv, p) && p[0] == a && p.last() == b && p.len() <= n + 1
}

proof fn lemma_within_step(tv: Seq<(Seq<u8>, Seq<Seq<u8>>)>, a: Seq<u8>, x: Seq<u8>, b: Seq<u8>, n: int)
    requires
        within(tv, a, x, n),
        edge(tv, x, b),
    ensures
        within(tv, a, b, n + 1),
{
    let p = choose|p: Seq<Seq<u8>>| #[trigger] is_path(tv, p) && p[0] == a && p.last() == x && p.len() <= n + 1;
    let q = p.push(b);
    assert forall|i: int| 0 <= i < q.len() - 1 implies edge(tv, #[trigger] q[i], q[i + 1]) by {
        if i < p.len() - 1 {
            assert(q[i] == p[i] && q[i + 1] == p[i + 1]);
        } else {
            assert(q[i] == x);
        }
    }
    assert(is_path(tv, q) && q[0] == a && q.last() == b && q.len() <= n + 2);
}

proof fn lemma_within_back(tv: Seq<(Seq<u8>, Seq<Seq<u8>>)>, a: Seq<u8>, b: Seq<u8>, n: int) -> (x: Seq<u8>)
    requires
        within(tv, a, b, n),
        b != a,
    ensures
        n >= 1,
        within(tv, a, x, n - 1),
        edge(tv, x, b),
{
    let p = choose|p: Seq<Seq<u8>>| #[trigger] is_path(tv, p) && p[0] == a && p.last() == b && p.len() <= n + 1;
    assert(p.len() >= 2);
    let q = p.drop_last();
    assert forall|i: int| 0 <= i < q.len() - 1 implies edge(tv, #[trigger] q[i], q[i + 1]) by {
        assert(q[i] == p[i] && q[i + 1] == p[i + 1]);
        assert(edge(tv, p[i], p[i + 1]));
    }
    assert(is_path(tv, q) && q[0] == a && q.len() <= n);
    assert(edge(tv, p[p.len() - 2], p[p.len() - 1]));
    q.last()
}

proof fn lemma_levels_complete(
    tv: Seq<(Seq<u8>, Seq<Seq<u8>>)>,
    order: Seq<Seq<u8>>,
    lvl: Seq<int>,
    s: Seq<u8>,
    x: Seq<u8>,
    n: int,
)
    requires
        order.len() == lvl.len(),
        order.len() >= 1,
        order[0] == s,
        lvl[0] == 0,
        forall|i: int, b: Seq<u8>| 0 <= i < order.len() && #[trigger] succ(tv, order[i]).contains(b)
            ==> exists|m: int| 0 <= m < order.len() && order[m] == b && lvl[m] <= lvl[i] + 1,
        within(tv, s, x, n),
    ensures
        exists|m: int| 0 <= m < order.len() && order[m] == x && lvl[m] <= n,
    decreases n,
{
    let p = choose|p: Seq<Seq<u8>>| #[trigger] is_path(tv, p) && p[0] == s && p.last() == x && p.len() <= n + 1;
    if x == s {
        assert(order[0] == x && lvl[0] <= n);
    } else {
        let y = lemma_within_back(tv, s, x, n);
        lemma_levels_complete(tv, order, lvl, s, y, n - 1);
        let m1 = choose|m: int| 0 <= m < order.len() && order[m] == y && lvl[m] <= n - 1;
        assert(succ(tv, order[m1]).contains(x));
    }
}

/// Every node reachable from `start`, each once, nearest first: `start`
/// first, and a node that can be reached in some number of steps comes after
/// none that cannot.
pub fn nearest_order(t: &Vec<(ContentId, Vec<ContentId>)>, start: ContentId) -> (r: Vec<ContentId>)
    ensures
        r@.len() >= 1,
        r@[0].0@ == start.0@,
        ids_view(r@).no_duplicates(),
        forall|i: int| 0 <= i < r@.len() ==> reaches(table_view(t@), start.0@, #[trigger] r@[i].0@),
        forall|b: Seq<u8>| #[trigger] reaches(table_view(t@), start.0@, b) ==> ids_view(r@).contains(b),
        forall|i: int, j: int, n: int| 0 <= i < j < r@.len() && #[trigger] within(table_view(t@), start.0@, r@[j].0@, n)
            ==> within(table_view(t@), start.0@, #[trigger] r@[i].0@, n),
{
    let ghost tv = table_view(t@);
    let ghost s = start.0@;
    let ghost w = seq![s] + flat_ids(tv);
    let mut order: Vec<ContentId> = Vec::new();
    order.push(start);
    let ghost mut lvl: Seq<int> = seq![0int];
    let mut done: usize = 0;
    proof {
        assert(w[0] == s);
        assert(is_path(tv, seq![s]) && seq![s][0] == s && seq![s].last() == s);
        assert(within(tv, s, order@[0].0@, lvl[0]));
    }
    while done < order.len()
        invariant
            tv == table_view(t@),
            s == start.0@,
            w == seq![s] + flat_ids(tv),
            done <= order@.len(),
            order@.len() >= 1,
            order@[0].0@ == s,
            lvl.len() == order@.len(),
            lvl[0] == 0,
            ids_view(order@).no_duplicates(),
            forall|k: int| 0 <= k < order@.len() ==> w.contains(#[trigger] order@[k].0@),
            forall|i: int, j: int| 0 <= i <= j < lvl.len() ==> lvl[i] <= lvl[j],
            done < order@.len() ==> forall|k: int| 0 <= k < lvl.len() ==> lvl[k] <= lvl[done as int] + 1,
            forall|k: int| 0 <= k < order@.len() ==> within(tv, s, #[trigger] order@[k].0@, lvl[k]),
            forall|i: int, b: Seq<u8>| 0 <= i < done && #[trigger] succ(tv, order@[i].0@).contains(b)
                ==> exists|m: int| 0 <= m < order@.len() && order@[m].0@ == b && lvl[m] <= lvl[i] + 1,
        decreases w.len() - done,
    {
        let cur = order[done];
        let ghost c = cur.0@;
        let ghost lc = lvl[done as int];
        let succs = neighbours(t, &cur);
        let ghost sv = ids_view(succs@);
        let mut j: usize = 0;
        while j < succs.len()
            invariant
                tv == table_view(t@),
                s == start.0@,
                w == seq![s] + flat_ids(tv),
                sv == ids_view(succs@),
                sv == succ(tv, c),
                done < order@.len(),
                order@[done as int].0@ == c,
                lvl[done as int] == lc,
                j <= succs@.len(),
                order@.len() >= 1,
                order@[0].0@ == s,
                lvl.len() == order@.len(),
                lvl[0] == 0,
                ids_view(order@).no_duplicates(),
                forall|k: int| 0 <= k < order@.len() ==> w.contains(#[trigger] order@[k].0@),
                forall|i: int, j2: int| 0 <= i <= j2 < lvl.len() ==> lvl[i] <= lvl[j2],
                forall|k: int| 0 <= k < lvl.len() ==> lvl[k] <= lc + 1,
                forall|k: int| 0 <= k < order@.len() ==> within(tv, s, #[trigger] order@[k].0@, lvl[k]),
                forall|i: int, b: Seq<u8>| 0 <= i < done && #[trigger] succ(tv, order@[i].0@).contains(b)
                    ==> exists|m: int| 0 <= m < order@.len() && order@[m].0@ == b && lvl[m] <= lvl[i] + 1,
                forall|m2: int| 0 <= m2 < j ==> exists|m: int| 0 <= m < order@.len() && order@[m].0@ == #[trigger] sv[m2] && lvl[m] <= lc + 1,
            decreases succs@.len() - j,
        {
            let nb = succs[j];
            let ghost b = nb.0@;
            let ghost o0 = order@;
            let ghost l0 = lvl;
            proof {
                assert(sv[j as int] == b);
            }
            if !contains_id(&order, &nb) {
                order.push(nb);
                proof {
                    lvl = lvl.push(lc + 1);
                    let last = o0.len() as int;
                    assert(order@[last].0@ == b);
                    assert(ids_view(order@) =~= ids_view(o0).push(b));
                    assert(succ(tv, c).contains(b));
                    lemma_succ_in_flat(tv, c, 0, b);
                    assert(w[w.len() - flat_ids(tv).len() + flat_ids(tv).index_of(b)] == b);
                    assert forall|k: int| 0 <= k < order@.len() implies w.contains(#[trigger] order@[k].0@) by {
                        if k < last {
                            assert(order@[k] == o0[k]);
                        }
                    }
                    assert(within(tv, s, o0[done as int].0@, l0[done as int]));
                    lemma_within_step(tv, s, c, b, lc);
                    assert forall|k: int| 0 <= k < order@.len() implies within(tv, s, #[trigger] order@[k].0@, lvl[k]) by {
                        if k < last {
                            assert(order@[k] == o0[k]);
                            assert(within(tv, s, o0[k].0@, l0[k]));
                        }
                    }
                    assert forall|i: int, j2: int| 0 <= i <= j2 < lvl.len() implies lvl[i] <= lvl[j2] by {
                        if j2 < last {
                            assert(l0[i] <= l0[j2]);
                        } else if i < last {
                            assert(l0[i] <= lc + 1);
                        }
                    }
                    assert forall|i: int, b2: Seq<u8>| 0 <= i < done && #[trigger] succ(tv, order@[i].0@).contains(b2)
                        implies exists|m: int| 0 <= m < order@.len() && order@[m].0@ == b2 && lvl[m] <= lvl[i] + 1 by {
                        assert(order@[i] == o0[i]);
                        let m = choose|m: int| 0 <= m < o0.len() && o0[m].0@ == b2 && l0[m] <= l0[i] + 1;
                        assert(order@[m] == o0[m]);
                    }
                    assert forall|m2: int| 0 <= m2 < j + 1 implies exists|m: int| 0 <= m < order@.len() && order@[m].0@ == #[trigger] sv[m2] && lvl[m] <= lc + 1 by {
                        if m2 < j {
                            let m = choose|m: int| 0 <= m < o0.len() && o0[m].0@ == sv[m2] && l0[m] <= lc + 1;
                            assert(order@[m] == o0[m]);
                        } else {
                            assert(order@[last].0@ == sv[m2]);
                        }
                    }
                }
            } else {
                proof {
                    let m = choose|m: int| 0 <= m < ids_view(order@).len() && ids_view(order@)[m] == b;
                    assert(order@[m].0@ == sv[j as int]);
                    assert(lvl[m] <= lc + 1);
                }
            }
            j += 1;
        }
        proof {
            assert forall|i: int, b: Seq<u8>| 0 <= i < done + 1 && #[trigger] succ(tv, order@[i].0@).contains(b)
                implies exists|m: int| 0 <= m < order@.len() && order@[m].0@ == b && lvl[m] <= lvl[i] + 1 by {
                if i == done {
                    let m2 = choose|m2: int| 0 <= m2 < sv.len() && sv[m2] == b;
                    assert(exists|m: int| 0 <= m < order@.len() && order@[m].0@ == #[trigger] sv[m2] && lvl[m] <= lc + 1);
                }
            }
            if done + 1 < order@.len() {
                assert(lvl[done as int] <= lvl[done + 1]);
            }
            lemma_distinct_within(ids_view(order@), w);
        }
        done += 1;
    }
    proof {
        let ov = ids_view(order@);
        assert forall|i: int, b: Seq<u8>| 0 <= i < ov.len() && #[trigger] succ(tv, ov[i]).contains(b)
            implies exists|m: int| 0 <= m < ov.len() && ov[m] == b && lvl[m] <= lvl[i] + 1 by {
            assert(ov[i] == order@[i].0@);
            assert(succ(tv, order@[i].0@).contains(b));
            let m = choose|m: int| 0 <= m < order@.len() && order@[m].0@ == b && lvl[m] <= lvl[i] + 1;
            assert(ov[m] == b);
        }
        assert forall|i: int| 0 <= i < order@.len() implies reaches(tv, s, #[trigger] order@[i].0@) by {
            assert(within(tv, s, order@[i].0@, lvl[i]));
        }
        assert forall|b: Seq<u8>| #[trigger] reaches(tv, s, b) implies ids_view(order@).contains(b) by {
            let p = choose|p: Seq<Seq<u8>>| is_path(tv, p) && p[0] == s && p.last() == b;
            assert(within(tv, s, b, p.len() - 1));
            lemma_levels_complete(tv, ov, lvl, s, b, p.len() - 1);
            let m = choose|m: int| 0 <= m < ov.len() && ov[m] == b && lvl[m] <= p.len() - 1;
        }
        assert forall|i: int, j: int, n: int| 0 <= i < j < order@.len() && #[trigger] within(tv, s, order@[j].0@, n)
            implies within(tv, s, #[trigger] order@[i].0@, n) by {
            lemma_levels_complete(tv, ov, lvl, s, order@[j].0@, n);
            let m = choose|m: int| 0 <= m < ov.len() && ov[m] == order@[j].0@ && lvl[m] <= n;
            assert(ov[j] == order@[j].0@);
            assert(m == j);
            assert(lvl[i] <= lvl[j]);
            assert(within(tv, s, order@[i].0@, lvl[i]));
            let p = choose|p: Seq<Seq<u8>>| #[trigger] is_path(tv, p) && p[0] == s && p.last() == order@[i].0@ && p.len() <= lvl[i] + 1;
            assert(is_path(tv, p) && p.len() <= n + 1);
        }
    }
    order
}

/// Whether `b` is waiting in the queue at or after `head`.
pub open spec fn pending(q: Seq<Seq<u8>>, head: int, b: Seq<u8>) -> bool {
    exists|k: int| head <= k < q.len() && q[k] == b
}

/// Every node reachable from `start`, each once, in breadth-first order:
/// `start` first, every later node a neighbour of an earlier one.
pub fn search_order(t: &Vec<(ContentId, Vec<ContentId>)>, start: ContentId) -> (r: Vec<ContentId>)
    ensures
        r@.len() >= 1,
        r@[0].0@ == start.0@,
        ids_view(r@).no_duplicates(),
        forall|i: int| 0 <= i < r@.len() ==> reaches(table_view(t@), start.0@, #[trigger] r@[i].0@),
        forall|b: Seq<u8>| #[trigger] reaches(table_view(t@), start.0@, b) ==> ids_view(r@).contains(b),
        forall|i: int| 0 < i < r@.len() ==> exists|j: int| 0 <= j < i && edge(table_view(t@), r@[j].0@, #[trigger] r@[i].0@),
{
    let ghost tv = table_view(t@);
    let ghost s = start.0@;
    let ghost w = seq![s] + flat_ids(tv);
    let mut visited: Vec<ContentId> = Vec::new();
    let mut queue: Vec<ContentId> = Vec::new();
    queue.push(start);
    let mut head: usize = 0;
    proof {
        lemma_reach_refl(tv, s);
        assert(w[0] == s);
    }
    while head < queue.len()
        invariant
            tv == table_view(t@),
            s == start.0@,
            w == seq![s] + flat_ids(tv),
            head <= queue@.len(),
            queue@.len() >= 1,
            queue@[0].0@ == s,
            head == 0 ==> visited@.len() == 0,
            visited@.len() > 0 ==> visited@[0].0@ == s,
            ids_view(visited@).no_duplicates(),
            visited@.len() <= w.len(),
            forall|i: int| 0 <= i < visited@.len() ==> w.contains(#[trigger] visited@[i].0@),
            forall|k: int| 0 <= k < queue@.len() ==> w.contains(#[trigger] queue@[k].0@),
            forall|i: int| 0 <= i < visited@.len() ==> reaches(tv, s, #[trigger] visited@[i].0@),
            forall|k: int| 0 <= k < queue@.len() ==> reaches(tv, s, #[trigger] queue@[k].0@),
            forall|x: Seq<u8>, b: Seq<u8>| ids_view(visited@).contains(x) && #[trigger] succ(tv, x).contains(b)
                ==> ids_view(visited@).contains(b) || pending(ids_view(queue@), head as int, b),
            forall|k: int| 0 <= k < head ==> ids_view(visited@).contains(#[trigger] queue@[k].0@),
            forall|i: int| 0 < i < visited@.len() ==> exists|j: int| 0 <= j < i && edge(tv, visited@[j].0@, #[trigger] visited@[i].0@),
            forall|k: int| 0 < k < queue@.len() ==> exists|j: int| 0 <= j < visited@.len() && edge(tv, visited@[j].0@, #[trigger] queue@[k].0@),
        decreases w.len() - visited@.len(), queue@.len() - head,
    {
        let cur = queue[head];
        let ghost c = cur.0@;
        let ghost h0 = head as int;
        head += 1;
        if contains_id(&visited, &cur) {
            proof {
                assert forall|x: Seq<u8>, b: Seq<u8>| ids_view(visited@).contains(x) && #[trigger] succ(tv, x).contains(b)
                    implies ids_view(visited@).contains(b) || pending(ids_view(queue@), head as int, b) by {
                    if !ids_view(visited@).contains(b) {
                        let k = choose|k: int| h0 <= k < queue@.len() && ids_view(queue@)[k] == b;
                        if k == h0 {
                            assert(ids_view(queue@)[k] == c);
                        } else {
                            assert(head <= k);
                        }
                    }
                }
            }
            continue;
        }
        let ghost v0 = visited@;
        let ghost q0 = queue@;
        visited.push(cur);
        proof {
            assert(ids_view(visited@) == ids_view(v0).push(c));
            assert(ids_view(visited@).no_duplicates());
            assert(w.contains(q0[h0].0@));
            assert forall|i: int| 0 <= i < visited@.len() implies w.contains(#[trigger] visited@[i].0@) by {
                if i < v0.len() {
                    assert(visited@[i] == v0[i]);
                }
            }
            lemma_distinct_within(ids_view(visited@), w);
            if h0 > 0 {
                assert(exists|j: int| 0 <= j < v0.len() && edge(tv, v0[j].0@, q0[h0].0@));
            } else {
                assert(v0.len() == 0);
            }
            assert forall|x: Seq<u8>, b: Seq<u8>| ids_view(visited@).contains(x) && x != c && #[trigger] succ(tv, x).contains(b)
                implies ids_view(visited@).contains(b) || pending(ids_view(queue@), head as int, b) by {
                let i = choose|i: int| 0 <= i < visited@.len() && ids_view(visited@)[i] == x;
                assert(i < v0.len());
                assert(ids_view(v0)[i] == x);
                assert(ids_view(v0).contains(x));
                if !ids_view(v0).contains(b) {
                    let k = choose|k: int| h0 <= k < q0.len() && ids_view(q0)[k] == b;
                    if k == h0 {
                        assert(ids_view(visited@)[v0.len() as int] == b);
                    } else {
                        assert(head <= k);
                    }
                } else {
                    let i2 = choose|i2: int| 0 <= i2 < v0.len() && ids_view(v0)[i2] == b;
                    assert(ids_view(visited@)[i2] == b);
                }
            }
            assert forall|k: int| 0 <= k < head implies ids_view(visited@).contains(#[trigger] queue@[k].0@) by {
                if k < h0 {
                    assert(ids_view(v0).contains(queue@[k].0@));
                    let i2 = choose|i2: int| 0 <= i2 < v0.len() && ids_view(v0)[i2] == queue@[k].0@;
                    assert(ids_view(visited@)[i2] == queue@[k].0@);
                } else {
                    assert(ids_view(visited@)[v0.len() as int] == queue@[k].0@);
                }
            }
            assert forall|i: int| 0 < i < visited@.len() implies exists|j: int| 0 <= j < i && edge(tv, visited@[j].0@, #[trigger] visited@[i].0@) by {
                if i < v0.len() {
                    let j = choose|j: int| 0 <= j < i && edge(tv, v0[j].0@, v0[i].0@);
                    assert(visited@[j] == v0[j] && visited@[i] == v0[i]);
                } else {
                    let j = choose|j: int| 0 <= j < v0.len() && edge(tv, v0[j].0@, q0[h0].0@);
                    assert(visited@[j] == v0[j]);
                }
            }
            assert forall|k: int| 0 < k < queue@.len() implies exists|j: int| 0 <= j < visited@.len() && edge(tv, visited@[j].0@, #[trigger] queue@[k].0@) by {
                let j = choose|j: int| 0 <= j < v0.len() && edge(tv, v0[j].0@, q0[k].0@);
                assert(visited@[j] == v0[j]);
            }
            assert forall|i: int| 0 <= i < visited@.len() implies reaches(tv, s, #[trigger] visited@[i].0@) by {
                if i < v0.len() {
                    assert(visited@[i] == v0[i]);
                } else {
                    assert(reaches(tv, s, q0[h0].0@));
                }
            }
        }
        let succs = neighbours(t, &cur);
        let ghost sv = ids_view(succs@);
        let mut j: usize = 0;
        while j < succs.len()
            invariant
                tv == table_view(t@),
                s == start.0@,
                w == seq![s] + flat_ids(tv),
                sv == ids_view(succs@),
                sv == succ(tv, c),
                j <= succs@.len(),
                head <= queue@.len(),
                head >= 1,
                queue@.len() >= 1,
                queue@[0].0@ == s,
                visited@.len() > 0,
                visited@[0].0@ == s,
                visited@.last().0@ == c,
                ids_view(visited@).no_duplicates(),
                visited@.len() <= w.len(),
                forall|i: int| 0 <= i < visited@.len() ==> w.contains(#[trigger] visited@[i].0@),
                forall|k: int| 0 <= k < queue@.len() ==> w.contains(#[trigger] queue@[k].0@),
                forall|i: int| 0 <= i < visited@.len() ==> reaches(tv, s, #[trigger] visited@[i].0@),
                forall|k: int| 0 <= k < queue@.len() ==> reaches(tv, s, #[trigger] queue@[k].0@),
                forall|x: Seq<u8>, b: Seq<u8>| ids_view(visited@).contains(x) && x != c && #[trigger] succ(tv, x).contains(b)
                    ==> ids_view(visited@).contains(b) || pending(ids_view(queue@), head as int, b),
                forall|m: int| 0 <= m < j ==> ids_view(visited@).contains(#[trigger] sv[m]) || pending(ids_view(queue@), head as int, sv[m]),
                forall|k: int| 0 <= k < head ==> ids_view(visited@).contains(#[trigger] queue@[k].0@),
                forall|i: int| 0 < i < visited@.len() ==> exists|j: int| 0 <= j < i && edge(tv, visited@[j].0@, #[trigger] visited@[i].0@),
                forall|k: int| 0 < k < queue@.len() ==> exists|j: int| 0 <= j < visited@.len() && edge(tv, visited@[j].0@, #[trigger] queue@[k].0@),
            decreases succs@.len() - j,
        {
            let nb = succs[j];
            if !contains_id(&visited, &nb) {
                let ghost q1 = queue@;
                queue.push(nb);
                proof {
                    let b = nb.0@;
                    assert(sv[j as int] == b);
                    assert(succ(tv, c).contains(b));
                    lemma_succ_in_flat(tv, c, 0, b);
                    assert(w[w.len() - flat_ids(tv).len() + flat_ids(tv).index_of(b)] == b);
                    let ci = visited@.len() - 1;
                    assert(reaches(tv, s, visited@[ci].0@));
                    lemma_reach_step(tv, s, c, b);
                    assert(ids_view(queue@)[queue@.len() - 1] == b);
                    assert forall|k: int| 0 <= k < queue@.len() implies w.contains(#[trigger] queue@[k].0@) by {
                        if k < q1.len() {
                            assert(queue@[k] == q1[k]);
                        }
                    }
                    assert forall|k: int| 0 <= k < queue@.len() implies reaches(tv, s, #[trigger] queue@[k].0@) by {
                        if k < q1.len() {
                            assert(queue@[k] == q1[k]);
                        }
                    }
                    assert forall|k: int| 0 < k < queue@.len() implies exists|j: int| 0 <= j < visited@.len() && edge(tv, visited@[j].0@, #[trigger] queue@[k].0@) by {
                        if k < q1.len() {
                            assert(queue@[k] == q1[k]);
                        } else {
                            assert(edge(tv, visited@[ci].0@, queue@[k].0@));
                        }
                    }
                    assert forall|x: Seq<u8>, b2: Seq<u8>| ids_view(visited@).contains(x) && x != c && #[trigger] succ(tv, x).contains(b2)
                        implies ids_view(visited@).contains(b2) || pending(ids_view(queue@), head as int, b2) by {
                        if !ids_view(visited@).contains(b2) {
                            let k = choose|k: int| head <= k < q1.len() && ids_view(q1)[k] == b2;
                            assert(ids_view(queue@)[k] == b2);
                        }
                    }
                    assert forall|m: int| 0 <= m < j + 1 implies ids_view(visited@).contains(#[trigger] sv[m]) || pending(ids_view(queue@), head as int, sv[m]) by {
                        if m < j {
                            if !ids_view(visited@).contains(sv[m]) {
                                let k = choose|k: int| head <= k < q1.len() && ids_view(q1)[k] == sv[m];
                                assert(ids_view(queue@)[k] == sv[m]);
                            }
                        } else {
                            assert(ids_view(queue@)[queue@.len() - 1] == sv[m]);
                        }
                    }
                    assert forall|k: int| 0 <= k < head implies ids_view(visited@).contains(#[trigger] queue@[k].0@) by {
                        assert(queue@[k] == q1[k]);
                    }
                }
            } else {
                proof {
                    assert(sv[j as int] == nb.0@);
                }
            }
            j += 1;
        }
        proof {
            assert forall|x: Seq<u8>, b: Seq<u8>| ids_view(visited@).contains(x) && #[trigger] succ(tv, x).contains(b)
                implies ids_view(visited@).contains(b) || pending(ids_view(queue@), head as int, b) by {
                if x == c {
                    let m = choose|m: int| 0 <= m < sv.len() && sv[m] == b;
                }
            }
        }
    }
    proof {
        assert(ids_view(visited@).contains(queue@[0].0@));
        assert forall|x: Seq<u8>, b: Seq<u8>| ids_view(visited@).contains(x) && #[trigger] succ(tv, x).contains(b)
            implies ids_view(visited@).contains(b) by {
            assert(!pending(ids_view(queue@), head as int, b));
        }
        assert forall|b: Seq<u8>| reaches(tv, s, b) implies ids_view(visited@).contains(b) by {
            let p = choose|p: Seq<Seq<u8>>| is_path(tv, p) && p[0] == s && p.last() == b;
            lemma_closed_has_path_end(tv, ids_view(visited@), p);
        }
        let k0 = choose|k: int| 0 <= k < visited@.len() && ids_view(visited@)[k] == s;
        assert(visited@.len() >= 1);
    }
    visited
}

} // verus!
