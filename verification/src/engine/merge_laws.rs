//! What a three-way merge achieves: the change regions of a diff applied to
//! the base give what the diff gives, and two sides whose regions lie apart
//! merge without conflict into the base with both sides' regions applied.

use crate::engine::inverse::{describes, hunks_out, hunks_track, ops_out, ops_track};
use crate::engine::merge::{collect_changes, collect_from, flush, has_change, hunk_start, merge_from, scan_ops, spec_merge, unchanged_span, ChangeV, ConflictV};
use crate::model::types::{DiffOpV, HunkV};
use crate::text::{join_lines, spec_lines};
use vstd::prelude::*;

verus! {

/// The end (exclusive base line) of the last of the changes `cs` taken from
/// base line `pos` on, or `pos` when there is none.
pub open spec fn changes_end(cs: Seq<ChangeV>, pos: int) -> int
    decreases cs.len(),
{
    if cs.len() == 0 {
        pos
    } else {
        changes_end(cs.drop_first(), cs[0].base_start + cs[0].base_len)
    }
}

/// The lines that the changes `cs` give from base line `pos` up to the end of
/// the last of them: before each change the base lines it leaves alone, then
/// its new lines.
pub open spec fn changes_out(base: Seq<Seq<char>>, cs: Seq<ChangeV>, pos: int) -> Seq<Seq<char>>
    decreases cs.len(),
{
    if cs.len() == 0 {
        seq![]
    } else {
        let c = cs[0];
        base.subrange(pos, c.base_start) + c.new_lines + changes_out(base, cs.drop_first(), c.base_start + c.base_len)
    }
}

/// Whether the changes `cs`, from base line `pos` on, each start at or after
/// the end of the one before and end within a base of `base_len` lines.
pub open spec fn changes_fit(base_len: int, cs: Seq<ChangeV>, pos: int) -> bool
    decreases cs.len(),
{
    cs.len() == 0 || {
        let c = cs[0];
        &&& pos <= c.base_start
        &&& 0 <= c.base_len
        &&& c.base_start + c.base_len <= base_len
        &&& changes_fit(base_len, cs.drop_first(), c.base_start + c.base_len)
    }
}

/// The base lines from `pos` to the end.
pub open spec fn base_rest(base: Seq<Seq<char>>, pos: int) -> Seq<Seq<char>> {
    if 0 <= pos < base.len() {
        base.subrange(pos, base.len() as int)
    } else {
        seq![]
    }
}

/// The base lines with the changes `cs` applied.
pub open spec fn apply_changes(base: Seq<Seq<char>>, cs: Seq<ChangeV>) -> Seq<Seq<char>> {
    changes_out(base, cs, 0) + base_rest(base, changes_end(cs, 0))
}

/// Two change lists merged in order of their start, ours first where both
/// start at the same line.
pub open spec fn interleave(os: Seq<ChangeV>, ts: Seq<ChangeV>) -> Seq<ChangeV>
    decreases os.len() + ts.len(),
{
    if os.len() == 0 {
        ts
    } else if ts.len() == 0 {
        os
    } else if ts[0].base_start < os[0].base_start {
        seq![ts[0]] + interleave(os, ts.drop_first())
    } else {
        seq![os[0]] + interleave(os.drop_first(), ts)
    }
}

/// Whether no change of `os` starts where a change of `ts` starts, and none
/// overlaps one of `ts`.
pub open spec fn changes_apart(os: Seq<ChangeV>, ts: Seq<ChangeV>) -> bool {
    forall|i: int, j: int|
        0 <= i < os.len() && 0 <= j < ts.len() ==> {
            &&& (#[trigger] os[i]).base_start != (#[trigger] ts[j]).base_start
            &&& (os[i].base_start + os[i].base_len <= ts[j].base_start || ts[j].base_start + ts[j].base_len
                <= os[i].base_start)
        }
}

proof fn lemma_changes_push(base: Seq<Seq<char>>, cs: Seq<ChangeV>, c: ChangeV, pos: int)
    ensures
        changes_end(cs.push(c), pos) == c.base_start + c.base_len,
        changes_out(base, cs.push(c), pos) == changes_out(base, cs, pos) + base.subrange(changes_end(cs, pos), c.base_start)
            + c.new_lines,
        changes_fit(base.len() as int, cs.push(c), pos) == (changes_fit(base.len() as int, cs, pos) && changes_end(cs, pos)
            <= c.base_start && 0 <= c.base_len && c.base_start + c.base_len <= base.len()),
    decreases cs.len(),
{
    let p = cs.push(c);
    if cs.len() == 0 {
        assert(p.drop_first() =~= Seq::<ChangeV>::empty());
        assert(p[0] == c);
        let e = c.base_start + c.base_len;
        assert(changes_end(p.drop_first(), e) == e);
        assert(changes_out(base, p.drop_first(), e) == Seq::<Seq<char>>::empty());
        assert(changes_fit(base.len() as int, p.drop_first(), e));
        assert(changes_out(base, p, pos) =~= changes_out(base, cs, pos) + base.subrange(changes_end(cs, pos), c.base_start) + c.new_lines);
    } else {
        let d = cs[0];
        let e = d.base_start + d.base_len;
        assert(p.drop_first() =~= cs.drop_first().push(c));
        assert(p[0] == d);
        lemma_changes_push(base, cs.drop_first(), c, e);
        assert(changes_out(base, p, pos) =~= base.subrange(pos, d.base_start) + d.new_lines + (changes_out(
            base,
            cs.drop_first(),
            e,
        ) + base.subrange(changes_end(cs.drop_first(), e), c.base_start) + c.new_lines));
        assert(changes_out(base, cs, pos) + base.subrange(changes_end(cs, pos), c.base_start) + c.new_lines
            =~= base.subrange(pos, d.base_start) + d.new_lines + (changes_out(base, cs.drop_first(), e) + base.subrange(
            changes_end(cs.drop_first(), e),
            c.base_start,
        ) + c.new_lines));
    }
}

proof fn lemma_changes_end_bounds(base_len: int, cs: Seq<ChangeV>, pos: int)
    requires
        changes_fit(base_len, cs, pos),
    ensures
        pos <= changes_end(cs, pos),
        cs.len() > 0 ==> changes_end(cs, pos) <= base_len,
    decreases cs.len(),
{
    if cs.len() > 0 {
        lemma_changes_end_bounds(base_len, cs.drop_first(), cs[0].base_start + cs[0].base_len);
    }
}

proof fn lemma_track_mono(ops: Seq<DiffOpV>, j: int, o: int, n: int)
    requires
        ops_track(ops, j, o, n) is Some,
    ensures
        o <= ops_track(ops, j, o, n).unwrap().0,
    decreases ops.len() - j,
{
    if 0 <= j < ops.len() {
        match ops[j] {
            DiffOpV::Equal { count } => lemma_track_mono(ops, j + 1, o + count, n + count),
            DiffOpV::Delete { count, .. } => lemma_track_mono(ops, j + 1, o + count, n),
            DiffOpV::Insert { lines, .. } => lemma_track_mono(ops, j + 1, o, n + lines.len()),
            DiffOpV::Replace { old_count, lines, .. } => lemma_track_mono(ops, j + 1, o + old_count, n + lines.len()),
        }
    }
}

proof fn lemma_equal_ops_out(base: Seq<Seq<char>>, ops: Seq<DiffOpV>, j: int, o: int, n: int)
    requires
        0 <= j <= ops.len(),
        0 <= o,
        !has_change(ops),
        ops_track(ops, j, o, n) matches Some((oe, _)) && oe <= base.len(),
    ensures
        ops_out(base, ops, j, o) == base.subrange(o, ops_track(ops, j, o, n).unwrap().0),
    decreases ops.len() - j,
{
    let oe = ops_track(ops, j, o, n).unwrap().0;
    if j < ops.len() {
        assert(ops[j] is Equal);
        if let DiffOpV::Equal { count } = ops[j] {
            lemma_track_mono(ops, j + 1, o + count, n + count);
            lemma_equal_ops_out(base, ops, j + 1, o + count, n + count);
            assert(base.subrange(o, o + count) + base.subrange(o + count, oe) =~= base.subrange(o, oe));
        }
    } else {
        assert(base.subrange(o, o) =~= Seq::<Seq<char>>::empty());
    }
}

/// The changes that `scan_ops` collects from the operations `ops[j..]`, applied
/// after those of `out`, give what the operations give from old line
/// `offset + cursor` on, following what lies before (an open change when
/// `start` is set).
proof fn lemma_scan_apply(
    base: Seq<Seq<char>>,
    ops: Seq<DiffOpV>,
    j: int,
    offset: int,
    cursor: int,
    start: Option<int>,
    len: int,
    lines: Seq<Seq<char>>,
    out: Seq<ChangeV>,
    n: int,
)
    requires
        0 <= j <= ops.len(),
        0 <= offset + cursor,
        changes_fit(base.len() as int, out, 0),
        ops_track(ops, j, offset + cursor, n) matches Some((oe, _)) && oe <= base.len(),
        match start {
            Some(st) => changes_end(out, 0) <= st && st + len == offset + cursor && 0 <= len,
            None => changes_end(out, 0) <= offset + cursor && len == 0 && lines.len() == 0,
        },
    ensures
        ({
            let r = scan_ops(ops, j, offset, cursor, start, len, lines, out);
            let oe = ops_track(ops, j, offset + cursor, n).unwrap().0;
            let before = match start {
                Some(st) => changes_out(base, out, 0) + base.subrange(changes_end(out, 0), st) + lines,
                None => changes_out(base, out, 0) + base.subrange(changes_end(out, 0), offset + cursor),
            };
            &&& changes_fit(base.len() as int, r, 0)
            &&& changes_end(r, 0) <= oe
            &&& changes_out(base, r, 0) + base.subrange(changes_end(r, 0), oe) == before + ops_out(base, ops, j, offset + cursor)
        }),
    decreases ops.len() - j,
{
    let o = offset + cursor;
    let q = changes_end(out, 0);
    let a = changes_out(base, out, 0);
    let oe = ops_track(ops, j, o, n).unwrap().0;
    lemma_track_mono(ops, j, o, n);
    lemma_changes_end_bounds(base.len() as int, out, 0);
    let st = match start {
        Some(x) => x,
        None => o,
    };
    let before = match start {
        Some(s0) => a + base.subrange(q, s0) + lines,
        None => a + base.subrange(q, o),
    };
    assert(before =~= a + base.subrange(q, st) + lines) by {
        if start is None {
            assert(lines =~= Seq::<Seq<char>>::empty());
        }
    }
    if j < ops.len() {
        match ops[j] {
            DiffOpV::Equal { count } => {
                let out2 = flush(out, start, len, lines);
                let lines2: Seq<Seq<char>> = if start is Some {
                    seq![]
                } else {
                    lines
                };
                lemma_track_mono(ops, j + 1, o + count, n + count);
                let c = ChangeV { base_start: st, base_len: len, new_lines: lines };
                if start is Some {
                    lemma_changes_push(base, out, c, 0);
                    assert(out2 == out.push(c));
                } else {
                    assert(out2 == out);
                }
                assert(changes_fit(base.len() as int, out2, 0));
                assert(changes_end(out2, 0) <= o);
                lemma_scan_apply(base, ops, j + 1, offset, cursor + count, None, 0, lines2, out2, n + count);
                assert(offset + (cursor + count) == o + count);
                let a2 = changes_out(base, out2, 0);
                let q2 = changes_end(out2, 0);
                assert(a2 + base.subrange(q2, o) == before) by {
                    if start is Some {
                        assert(base.subrange(o, o) =~= Seq::<Seq<char>>::empty());
                        assert(a2 =~= a + base.subrange(q, st) + lines);
                    }
                }
                assert(a2 + base.subrange(q2, o + count) =~= a2 + base.subrange(q2, o) + base.subrange(o, o + count));
                assert(ops_out(base, ops, j, o) == base.subrange(o, o + count) + ops_out(base, ops, j + 1, o + count));
                assert(a2 + base.subrange(q2, o) + base.subrange(o, o + count) + ops_out(base, ops, j + 1, o + count)
                    =~= before + ops_out(base, ops, j, o));
            },
            DiffOpV::Insert { lines: nl, .. } => {
                lemma_scan_apply(base, ops, j + 1, offset, cursor, Some(st), len, lines + nl, out, n + nl.len());
                assert(a + base.subrange(q, st) + (lines + nl) + ops_out(base, ops, j + 1, o) =~= before + ops_out(
                    base,
                    ops,
                    j,
                    o,
                ));
            },
            DiffOpV::Delete { count, .. } => {
                lemma_scan_apply(base, ops, j + 1, offset, cursor + count, Some(st), len + count, lines, out, n);
                assert(offset + (cursor + count) == o + count);
            },
            DiffOpV::Replace { old_count, lines: nl, .. } => {
                lemma_scan_apply(
                    base,
                    ops,
                    j + 1,
                    offset,
                    cursor + old_count,
                    Some(st),
                    len + old_count,
                    lines + nl,
                    out,
                    n + nl.len(),
                );
                assert(offset + (cursor + old_count) == o + old_count);
                assert(a + base.subrange(q, st) + (lines + nl) + ops_out(base, ops, j + 1, o + old_count) =~= before
                    + ops_out(base, ops, j, o));
            },
        }
    } else {
        let r = scan_ops(ops, j, offset, cursor, start, len, lines, out);
        assert(oe == o);
        assert(ops_out(base, ops, j, o) =~= Seq::<Seq<char>>::empty());
        if let Some(s0) = start {
            let c = ChangeV { base_start: s0, base_len: len, new_lines: lines };
            lemma_changes_push(base, out, c, 0);
            assert(r == out.push(c));
            assert(base.subrange(o, o) =~= Seq::<Seq<char>>::empty());
            assert(changes_out(base, r, 0) + base.subrange(o, o) =~= before + Seq::<Seq<char>>::empty());
        } else {
            assert(r == out);
            assert(before + Seq::<Seq<char>>::empty() =~= before);
        }
    }
}

/// The changes collected from the hunks `hs[k..]`, applied after those of
/// `out`, give what the hunks give from old line `o` on.
proof fn lemma_collect_apply(base: Seq<Seq<char>>, hs: Seq<HunkV>, k: int, out: Seq<ChangeV>, o: int, n: int)
    requires
        0 <= k <= hs.len(),
        0 <= o <= base.len(),
        0 <= n,
        hunks_track(base, hs, k, o, n),
        changes_fit(base.len() as int, out, 0),
        changes_end(out, 0) <= o,
    ensures
        changes_fit(base.len() as int, collect_from(hs, k, out), 0),
        apply_changes(base, collect_from(hs, k, out)) == changes_out(base, out, 0) + base.subrange(changes_end(out, 0), o)
            + hunks_out(base, hs, k, o),
    decreases hs.len() - k,
{
    let q = changes_end(out, 0);
    let a = changes_out(base, out, 0);
    lemma_changes_end_bounds(base.len() as int, out, 0);
    if k < hs.len() {
        let h = hs[k];
        let s = h.old_start - 1;
        let t = h.new_start - 1;
        let (oe, ne) = ops_track(h.ops, 0, s, t).unwrap();
        assert(hunk_start(h) == s);
        lemma_track_mono(h.ops, 0, s, t);
        let rest = hunks_out(base, hs, k + 1, oe);
        assert(hunks_out(base, hs, k, o) == base.subrange(o, s) + ops_out(base, h.ops, 0, s) + rest);
        if has_change(h.ops) {
            let r1 = scan_ops(h.ops, 0, s, 0, None, 0, seq![], out);
            lemma_scan_apply(base, h.ops, 0, s, 0, None, 0, seq![], out, t);
            assert(collect_from(hs, k, out) == collect_from(hs, k + 1, r1));
            lemma_collect_apply(base, hs, k + 1, r1, oe, ne);
            assert(a + base.subrange(q, s) =~= a + base.subrange(q, o) + base.subrange(o, s));
            assert(a + base.subrange(q, s) + ops_out(base, h.ops, 0, s) + rest =~= a + base.subrange(q, o) + (base.subrange(
                o,
                s,
            ) + ops_out(base, h.ops, 0, s) + rest));
        } else {
            lemma_equal_ops_out(base, h.ops, 0, s, t);
            assert(collect_from(hs, k, out) == collect_from(hs, k + 1, out));
            lemma_collect_apply(base, hs, k + 1, out, oe, ne);
            assert(a + base.subrange(q, oe) + rest =~= a + base.subrange(q, o) + (base.subrange(o, s) + base.subrange(s, oe)
                + rest));
        }
    } else {
        assert(collect_from(hs, k, out) == out);
        if o < base.len() {
            assert(base.subrange(q, base.len() as int) =~= base.subrange(q, o) + base.subrange(o, base.len() as int));
        } else {
            assert(base.subrange(q, o) + Seq::<Seq<char>>::empty() =~= base_rest(base, q));
        }
    }
}

/// The change regions of a diff that describes a change of the base lines
/// follow each other within the base, and applied to the base they give what
/// the diff gives.
pub proof fn lemma_changes_apply(base: Seq<Seq<char>>, hs: Seq<HunkV>)
    requires
        describes(base, hs),
    ensures
        changes_fit(base.len() as int, collect_changes(hs), 0),
        apply_changes(base, collect_changes(hs)) == hunks_out(base, hs, 0, 0),
{
    lemma_collect_apply(base, hs, 0, seq![], 0, 0);
    assert(Seq::<Seq<char>>::empty() + base.subrange(0, 0) + hunks_out(base, hs, 0, 0) =~= hunks_out(base, hs, 0, 0));
}

proof fn lemma_merge_interleaved(
    base: Seq<Seq<char>>,
    os: Seq<ChangeV>,
    ts: Seq<ChangeV>,
    oi: int,
    ti: int,
    pos: int,
    out: Seq<Seq<char>>,
    cs: Seq<ConflictV>,
)
    requires
        0 <= oi <= os.len(),
        0 <= ti <= ts.len(),
        0 <= pos <= base.len(),
        changes_fit(base.len() as int, os.subrange(oi, os.len() as int), pos),
        changes_fit(base.len() as int, ts.subrange(ti, ts.len() as int), pos),
        changes_apart(os, ts),
    ensures
        ({
            let m = interleave(os.subrange(oi, os.len() as int), ts.subrange(ti, ts.len() as int));
            merge_from(base, os, ts, oi, ti, pos, out, cs) == Some(
                (out + changes_out(base, m, pos) + base_rest(base, changes_end(m, pos)), cs),
            )
        }),
    decreases os.len() - oi + ts.len() - ti,
{
    let ov = os.subrange(oi, os.len() as int);
    let tv = ts.subrange(ti, ts.len() as int);
    let m = interleave(ov, tv);
    if oi == os.len() && ti == ts.len() {
        assert(ov.len() == 0);
        assert(m.len() == 0);
        assert(out + Seq::<Seq<char>>::empty() + base_rest(base, pos) =~= out + base_rest(base, pos));
    } else {
        let take_theirs = oi == os.len() || (ti < ts.len() && ts[ti].base_start < os[oi].base_start);
        let take_ours = !take_theirs && (ti == ts.len() || os[oi].base_start < ts[ti].base_start);
        if take_theirs {
            let c = ts[ti];
            assert(tv[0] == c);
            assert(tv.drop_first() =~= ts.subrange(ti + 1, ts.len() as int));
            let e = c.base_start + c.base_len;
            if oi < os.len() {
                let d = os[oi];
                assert(ov[0] == d);
                assert(d.base_start != c.base_start && (d.base_start + d.base_len <= c.base_start || e <= d.base_start));
                assert(changes_fit(base.len() as int, ov, e));
                assert(m == seq![c] + interleave(ov, tv.drop_first()));
            } else {
                assert(ov.len() == 0);
                assert(m == tv);
            }
            let u = base.subrange(pos, c.base_start);
            assert(unchanged_span(base, pos, c.base_start) == Some(u)) by {
                if c.base_start <= pos {
                    assert(u =~= Seq::<Seq<char>>::empty());
                }
            }
            lemma_merge_interleaved(base, os, ts, oi, ti + 1, e, out + u + c.new_lines, cs);
            let m2 = interleave(ov, ts.subrange(ti + 1, ts.len() as int));
            assert(m[0] == c);
            assert(m.drop_first() =~= m2);
            assert(out + u + c.new_lines + changes_out(base, m2, e) =~= out + changes_out(base, m, pos));
        } else if take_ours {
            let c = os[oi];
            assert(ov[0] == c);
            assert(ov.drop_first() =~= os.subrange(oi + 1, os.len() as int));
            let e = c.base_start + c.base_len;
            if ti < ts.len() {
                let d = ts[ti];
                assert(tv[0] == d);
                assert(c.base_start != d.base_start && (e <= d.base_start || d.base_start + d.base_len <= c.base_start));
                assert(changes_fit(base.len() as int, tv, e));
                assert(m == seq![c] + interleave(ov.drop_first(), tv));
            } else {
                assert(tv.len() == 0);
                assert(m == ov);
            }
            let u = base.subrange(pos, c.base_start);
            assert(unchanged_span(base, pos, c.base_start) == Some(u)) by {
                if c.base_start <= pos {
                    assert(u =~= Seq::<Seq<char>>::empty());
                }
            }
            lemma_merge_interleaved(base, os, ts, oi + 1, ti, e, out + u + c.new_lines, cs);
            let m2 = interleave(os.subrange(oi + 1, os.len() as int), tv);
            assert(m[0] == c);
            assert(m.drop_first() =~= m2);
            assert(out + u + c.new_lines + changes_out(base, m2, e) =~= out + changes_out(base, m, pos));
        } else {
            assert(os[oi].base_start != ts[ti].base_start);
        }
    }
}

/// Merging by two diffs that describe changes of the base lines, whose change
/// regions lie apart (no two start at the same line or overlap), gives no
/// conflict and the base lines with both sides' regions applied in order of
/// position; each side's regions applied alone give what its diff gives.
pub proof fn lemma_merge_apart(base: Seq<char>, ours: Seq<HunkV>, theirs: Seq<HunkV>)
    requires
        describes(spec_lines(base), ours),
        describes(spec_lines(base), theirs),
        changes_apart(collect_changes(ours), collect_changes(theirs)),
    ensures
        spec_merge(base, ours, theirs) == Some(
            (
                join_lines(apply_changes(spec_lines(base), interleave(collect_changes(ours), collect_changes(theirs)))),
                Seq::<ConflictV>::empty(),
            ),
        ),
        apply_changes(spec_lines(base), collect_changes(ours)) == hunks_out(spec_lines(base), ours, 0, 0),
        apply_changes(spec_lines(base), collect_changes(theirs)) == hunks_out(spec_lines(base), theirs, 0, 0),
{
    let b = spec_lines(base);
    let os = collect_changes(ours);
    let ts = collect_changes(theirs);
    lemma_changes_apply(b, ours);
    lemma_changes_apply(b, theirs);
    assert(os.subrange(0, os.len() as int) =~= os);
    assert(ts.subrange(0, ts.len() as int) =~= ts);
    lemma_merge_interleaved(b, os, ts, 0, 0, 0, seq![], seq![]);
    let m = interleave(os, ts);
    assert(Seq::<Seq<char>>::empty() + changes_out(b, m, 0) + base_rest(b, changes_end(m, 0)) =~= apply_changes(b, m));
}

/// A side without change: when the diff to the other side describes a change
/// of the base lines, the merge has no conflict and is what that diff gives.
pub proof fn lemma_merge_one_side(base: Seq<char>, changed: Seq<HunkV>)
    requires
        describes(spec_lines(base), changed),
    ensures
        spec_merge(base, seq![], changed) == Some(
            (join_lines(hunks_out(spec_lines(base), changed, 0, 0)), Seq::<ConflictV>::empty()),
        ),
        spec_merge(base, changed, seq![]) == Some(
            (join_lines(hunks_out(spec_lines(base), changed, 0, 0)), Seq::<ConflictV>::empty()),
        ),
{
    let b = spec_lines(base);
    let none: Seq<HunkV> = seq![];
    assert(describes(b, none));
    assert(collect_changes(none) == Seq::<ChangeV>::empty());
    lemma_merge_apart(base, none, changed);
    lemma_merge_apart(base, changed, none);
    assert(interleave(Seq::<ChangeV>::empty(), collect_changes(changed)) == collect_changes(changed));
    if collect_changes(changed).len() > 0 {
        assert(interleave(collect_changes(changed), Seq::<ChangeV>::empty()) == collect_changes(changed));
    }
}

/// Whether each conflict sits where it says in the merged lines: from its
/// `start_line` on, the merged lines are its `ours` lines.
pub open spec fn conflicts_placed(lines: Seq<Seq<char>>, cs: Seq<ConflictV>) -> bool {
    forall|j: int|
        0 <= j < cs.len() ==> {
            &&& 0 <= (#[trigger] cs[j]).start_line
            &&& cs[j].start_line + cs[j].ours.len() <= lines.len()
            &&& lines.subrange(cs[j].start_line, cs[j].start_line + cs[j].ours.len()) == cs[j].ours
        }
}

proof fn lemma_placed_extend(out: Seq<Seq<char>>, ext: Seq<Seq<char>>, cs: Seq<ConflictV>)
    requires
        conflicts_placed(out, cs),
    ensures
        conflicts_placed(out + ext, cs),
{
    assert forall|j: int| 0 <= j < cs.len() implies {
        &&& 0 <= (#[trigger] cs[j]).start_line
        &&& cs[j].start_line + cs[j].ours.len() <= (out + ext).len()
        &&& (out + ext).subrange(cs[j].start_line, cs[j].start_line + cs[j].ours.len()) == cs[j].ours
    } by {
        let a = cs[j].start_line;
        let b = a + cs[j].ours.len();
        assert((out + ext).subrange(a, b) =~= out.subrange(a, b));
    }
}

proof fn lemma_merge_from_placed(
    base: Seq<Seq<char>>,
    os: Seq<ChangeV>,
    ts: Seq<ChangeV>,
    oi: int,
    ti: int,
    pos: int,
    out: Seq<Seq<char>>,
    cs: Seq<ConflictV>,
)
    requires
        conflicts_placed(out, cs),
    ensures
        merge_from(base, os, ts, oi, ti, pos, out, cs) matches Some((ls, cs2)) ==> out.len() <= ls.len() && ls.subrange(
            0,
            out.len() as int,
        ) == out && conflicts_placed(ls, cs2),
    decreases os.len() - oi + ts.len() - ti,
{
    if oi < 0 || ti < 0 || oi > os.len() || ti > ts.len() {
    } else if oi == os.len() && ti == ts.len() {
        let rest = if 0 <= pos < base.len() { base.subrange(pos, base.len() as int) } else { seq![] };
        lemma_placed_extend(out, rest, cs);
        assert((out + rest).subrange(0, out.len() as int) =~= out);
    } else if oi == os.len() || (ti < ts.len() && ts[ti].base_start < os[oi].base_start) {
        let c = ts[ti];
        match unchanged_span(base, pos, c.base_start) {
            None => {},
            Some(u) => {
                let out2 = out + u + c.new_lines;
                lemma_placed_extend(out, u + c.new_lines, cs);
                assert(out + (u + c.new_lines) =~= out2);
                lemma_merge_from_placed(base, os, ts, oi, ti + 1, c.base_start + c.base_len, out2, cs);
                if let Some((ls, cs2)) = merge_from(base, os, ts, oi, ti + 1, c.base_start + c.base_len, out2, cs) {
                    assert(ls.subrange(0, out.len() as int) =~= ls.subrange(0, out2.len() as int).subrange(0, out.len() as int));
                    assert(out2.subrange(0, out.len() as int) =~= out);
                }
            },
        }
    } else if ti == ts.len() || os[oi].base_start < ts[ti].base_start {
        let c = os[oi];
        match unchanged_span(base, pos, c.base_start) {
            None => {},
            Some(u) => {
                let out2 = out + u + c.new_lines;
                lemma_placed_extend(out, u + c.new_lines, cs);
                assert(out + (u + c.new_lines) =~= out2);
                lemma_merge_from_placed(base, os, ts, oi + 1, ti, c.base_start + c.base_len, out2, cs);
                if let Some((ls, cs2)) = merge_from(base, os, ts, oi + 1, ti, c.base_start + c.base_len, out2, cs) {
                    assert(ls.subrange(0, out.len() as int) =~= ls.subrange(0, out2.len() as int).subrange(0, out.len() as int));
                    assert(out2.subrange(0, out.len() as int) =~= out);
                }
            },
        }
    } else {
        let oc = os[oi];
        let tc = ts[ti];
        let oc_end = oc.base_start + oc.base_len;
        let tc_end = tc.base_start + tc.base_len;
        match unchanged_span(base, pos, oc.base_start) {
            None => {},
            Some(u) => {
                let out2 = out + u + oc.new_lines;
                lemma_placed_extend(out, u + oc.new_lines, cs);
                assert(out + (u + oc.new_lines) =~= out2);
                if oc.base_len == tc.base_len && oc.new_lines == tc.new_lines {
                    lemma_merge_from_placed(base, os, ts, oi + 1, ti + 1, oc_end, out2, cs);
                    if let Some((ls, cs2)) = merge_from(base, os, ts, oi + 1, ti + 1, oc_end, out2, cs) {
                        assert(ls.subrange(0, out.len() as int) =~= ls.subrange(0, out2.len() as int).subrange(0, out.len() as int));
                        assert(out2.subrange(0, out.len() as int) =~= out);
                    }
                } else if oc.base_start < 0 || oc_end > base.len() {
                } else {
                    let conflict = ConflictV {
                        start_line: (out + u).len() as int,
                        base: base.subrange(oc.base_start, oc_end),
                        ours: oc.new_lines,
                        theirs: tc.new_lines,
                    };
                    let cs3 = cs.push(conflict);
                    let next = if oc_end >= tc_end { oc_end } else { tc_end };
                    assert(conflicts_placed(out2, cs3)) by {
                        assert forall|j: int| 0 <= j < cs3.len() implies {
                            &&& 0 <= (#[trigger] cs3[j]).start_line
                            &&& cs3[j].start_line + cs3[j].ours.len() <= out2.len()
                            &&& out2.subrange(cs3[j].start_line, cs3[j].start_line + cs3[j].ours.len()) == cs3[j].ours
                        } by {
                            if j < cs.len() {
                                assert(cs3[j] == cs[j]);
                            } else {
                                assert(cs3[j] == conflict);
                                assert(out2.subrange((out + u).len() as int, out2.len() as int) =~= oc.new_lines);
                            }
                        }
                    }
                    lemma_merge_from_placed(base, os, ts, oi + 1, ti + 1, next, out2, cs3);
                    if let Some((ls, cs2)) = merge_from(base, os, ts, oi + 1, ti + 1, next, out2, cs3) {
                        assert(ls.subrange(0, out.len() as int) =~= ls.subrange(0, out2.len() as int).subrange(0, out.len() as int));
                        assert(out2.subrange(0, out.len() as int) =~= out);
                    }
                }
            },
        }
    }
}

/// Where a merge's conflicts sit: the merged text is the merged lines joined,
/// and each conflict's `start_line` is a position in those merged lines (not
/// in the base), from which on they are its `ours` lines.
pub proof fn lemma_merge_conflicts_placed(base: Seq<char>, ours: Seq<HunkV>, theirs: Seq<HunkV>)
    ensures
        spec_merge(base, ours, theirs) matches Some((text, cs)) ==> exists|ls: Seq<Seq<char>>|
            #[trigger] join_lines(ls) == text && conflicts_placed(ls, cs),
{
    let e: Seq<Seq<char>> = seq![];
    lemma_merge_from_placed(spec_lines(base), collect_changes(ours), collect_changes(theirs), 0, 0, 0, e, seq![]);
    if let Some((ls, cs)) = merge_from(spec_lines(base), collect_changes(ours), collect_changes(theirs), 0, 0, 0, e, seq![]) {
        assert(join_lines(ls) == join_lines(ls));
    }
}

} // verus!
