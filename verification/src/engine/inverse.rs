//! Inverse deltas: the delta that undoes a delta.

use crate::error::StratumError;
use crate::engine::merge::{copy_range, Applied, apply_chain, apply_diff, diffs_of, rebuild, run_hunks, run_ops, hunk_start, sort_hunks, insert_by_start};
use crate::model::delta::{delta_digest, zero_id, Delta, DeltaV, LineDiff};
use crate::model::types::{clone_source, DiffOp, DiffOpV, Hunk, HunkV, hunks_view, ops_view};
use crate::model::snapshot::Snapshot;
use crate::text::{append_str, dec, push_dec, join_lines, lines_view, spec_lines, split_lines};
use vstd::prelude::*;

verus! {

broadcast use vstd::string::group_string_axioms;

// ---------------------------------------------------------------------------
// The inverse of a diff
// ---------------------------------------------------------------------------

/// The lines of the old content an inverse is built against: those of the
/// text when there is one, none otherwise.
pub open spec fn old_lines_of(old_content: Option<Seq<char>>) -> Seq<Seq<char>> {
    match old_content {
        Some(c) => spec_lines(c),
        None => seq![],
    }
}

/// The old lines `count` lines from the 1-based `start` on, cut at the end of
/// the old lines.
pub open spec fn taken(old: Seq<Seq<char>>, start: u32, count: u32) -> Seq<Seq<char>> {
    let s = if start > 0 { start - 1 } else { 0 };
    let e = if s + count < old.len() { s + count } else { old.len() as int };
    old.subrange(s as int, e)
}

/// `n` empty lines.
pub open spec fn blanks(n: nat) -> Seq<Seq<char>> {
    Seq::new(n, |i: int| Seq::<char>::empty())
}

/// The inverse of one operation: an insert becomes a delete and a delete an
/// insert of the old lines it removed; a replace swaps its sides. Without old
/// lines, the lines put back are empty ones.
pub open spec fn inverse_op(op: DiffOpV, old: Seq<Seq<char>>) -> DiffOpV {
    match op {
        DiffOpV::Equal { count } => DiffOpV::Equal { count },
        DiffOpV::Insert { new_start, lines } => DiffOpV::Delete { old_start: new_start, count: lines.len() as u32 },
        DiffOpV::Delete { old_start, count } => DiffOpV::Insert {
            new_start: old_start,
            lines: if old.len() > 0 { taken(old, old_start, count) } else { blanks(count as nat) },
        },
        DiffOpV::Replace { old_start, old_count, new_start, lines } => DiffOpV::Replace {
            old_start: new_start,
            old_count: lines.len() as u32,
            new_start: old_start,
            lines: if old.len() > 0 { taken(old, old_start, old_count) } else { blanks(lines.len()) },
        },
    }
}

/// The inverse of a hunk: its two sides swapped, each operation inverted.
pub open spec fn inverse_hunk(h: HunkV, old: Seq<Seq<char>>) -> HunkV {
    HunkV {
        old_start: h.new_start,
        old_len: h.new_len,
        new_start: h.old_start,
        new_len: h.old_len,
        ops: Seq::new(h.ops.len(), |i: int| inverse_op(h.ops[i], old)),
    }
}

/// The inverse of a diff, hunk by hunk.
pub open spec fn inverse_diff(hs: Seq<HunkV>, old: Seq<Seq<char>>) -> Seq<HunkV> {
    Seq::new(hs.len(), |i: int| inverse_hunk(hs[i], old))
}

/// Whether an operation's old lines can be read back: they start within the
/// old lines (or there are none).
pub open spec fn op_readable(op: DiffOpV, old: Seq<Seq<char>>) -> bool {
    match op {
        DiffOpV::Delete { old_start, .. } => old.len() == 0 || (if old_start > 0 { old_start - 1 } else { 0 }) <= old.len(),
        DiffOpV::Replace { old_start, .. } => old.len() == 0 || (if old_start > 0 { old_start - 1 } else { 0 }) <= old.len(),
        _ => true,
    }
}

/// Whether every removed range of the diff starts within the old lines.
pub open spec fn inverse_defined(hs: Seq<HunkV>, old: Seq<Seq<char>>) -> bool {
    forall|i: int, j: int| 0 <= i < hs.len() && 0 <= j < hs[i].ops.len() ==> op_readable(#[trigger] hs[i].ops[j], old)
}

fn blank_lines(n: usize) -> (r: Vec<String>)
    ensures
        lines_view(r@) == blanks(n as nat),
{
    let mut r: Vec<String> = Vec::new();
    let mut i: usize = 0;
    while i < n
        invariant
            i <= n,
            r@.len() == i,
            lines_view(r@) == blanks(i as nat),
        decreases n - i,
    {
        let ghost r0 = r@;
        let e = String::new();
        r.push(e);
        proof {
            assert(r@ == r0.push(e));
            assert forall|j: int| 0 <= j < i + 1 implies #[trigger] lines_view(r@)[j] == blanks((i + 1) as nat)[j] by {
                if j < i {
                    assert(lines_view(r0)[j] == blanks(i as nat)[j]);
                    assert(r@[j] == r0[j]);
                } else {
                    assert(e@ == Seq::<char>::empty());
                    assert(r@[j] == e);
                }
            }
            assert(lines_view(r@) =~= blanks((i + 1) as nat));
        }
        i += 1;
    }
    r
}

fn taken_lines(old: &Vec<String>, start: u32, count: u32) -> (r: Vec<String>)
    requires
        (if start > 0 { start - 1 } else { 0 }) <= old@.len(),
    ensures
        lines_view(r@) == taken(lines_view(old@), start, count),
{
    let s: usize = if start > 0 { (start - 1) as usize } else { 0 };
    let e64: u64 = s as u64 + count as u64;
    let e: usize = if e64 < old.len() as u64 { e64 as usize } else { old.len() };
    copy_range(old, s, e)
}

fn inverse_op_exec(op: &DiffOp, old: &Vec<String>) -> (r: DiffOp)
    requires
        op_readable(op@, lines_view(old@)),
    ensures
        r@ == inverse_op(op@, lines_view(old@)),
{
    match op {
        DiffOp::Equal { count } => DiffOp::Equal { count: *count },
        DiffOp::Insert { new_start, lines } => DiffOp::Delete { old_start: *new_start, count: lines.len() as u32 },
        DiffOp::Delete { old_start, count } => {
            let lines = if old.len() > 0 { taken_lines(old, *old_start, *count) } else { blank_lines(*count as usize) };
            DiffOp::Insert { new_start: *old_start, lines }
        },
        DiffOp::Replace { old_start, old_count, new_start, lines } => {
            let back = if old.len() > 0 { taken_lines(old, *old_start, *old_count) } else { blank_lines(lines.len()) };
            DiffOp::Replace { old_start: *new_start, old_count: lines.len() as u32, new_start: *old_start, lines: back }
        },
    }
}

/// The delta that undoes `delta`.
///
/// Each hunk has its old and new sides swapped; an insert becomes a delete of
/// as many lines, a delete becomes an insert of the lines it removed from
/// `old_content` (the text the delta was made against), a replace becomes the
/// replace of its new lines by those old lines. Without `old_content` the
/// lines put back are empty ones. The inverse is a new delta (current time) of
/// the same file and source.
pub fn inverse_delta(delta: &Delta, old_content: Option<&str>) -> (r: Result<Delta, StratumError>)
    requires
        inverse_defined(delta.diff@, old_lines_of(match old_content { Some(c) => Some(c@), None => None })),
    ensures
        r matches Ok(d) && {
            &&& d.diff@ == inverse_diff(delta.diff@, old_lines_of(match old_content { Some(c) => Some(c@), None => None }))
            &&& d.file@ == delta.file@
            &&& d.source@ == delta.source@
            &&& d.id.0@ == delta_digest(DeltaV { id: zero_id(), file: delta.file@, diff: d.diff@, source: delta.source@, timestamp: d.timestamp })
        },
{
    let ghost ov = old_lines_of(match old_content { Some(c) => Some(c@), None => None });
    let old_lines: Vec<String> = match old_content {
        Some(c) => split_lines(c),
        None => Vec::new(),
    };
    proof {
        assert(lines_view(old_lines@) =~= ov);
    }
    let ghost hs = delta.diff@;
    let mut inv_hunks: Vec<Hunk> = Vec::new();
    let mut k: usize = 0;
    while k < delta.diff.hunks.len()
        invariant
            hs == delta.diff@,
            hs.len() == delta.diff.hunks@.len(),
            ov == lines_view(old_lines@),
            inverse_defined(hs, ov),
            k <= hs.len(),
            inv_hunks@.len() == k,
            forall|i: int| 0 <= i < k ==> (#[trigger] inv_hunks@[i])@ == inverse_hunk(hs[i], ov),
        decreases hs.len() - k,
    {
        let h = &delta.diff.hunks[k];
        proof {
            assert(hs[k as int] == h@);
        }
        let mut ops: Vec<DiffOp> = Vec::new();
        let mut j: usize = 0;
        while j < h.ops.len()
            invariant
                hs == delta.diff@,
                h@ == hs[k as int],
                ov == lines_view(old_lines@),
                inverse_defined(hs, ov),
                0 <= k < hs.len(),
                j <= h.ops@.len(),
                ops@.len() == j,
                forall|i: int| 0 <= i < j ==> (#[trigger] ops@[i])@ == inverse_op(h@.ops[i], ov),
            decreases h.ops@.len() - j,
        {
            proof {
                assert(h@.ops[j as int] == h.ops@[j as int]@);
                assert(op_readable(hs[k as int].ops[j as int], ov));
            }
            let op = inverse_op_exec(&h.ops[j], &old_lines);
            ops.push(op);
            j += 1;
        }
        let inv = Hunk { old_start: h.new_start, old_len: h.new_len, new_start: h.old_start, new_len: h.old_len, ops };
        proof {
            assert(ops_view(inv.ops@) =~= Seq::new(h@.ops.len(), |i: int| inverse_op(h@.ops[i], ov)));
        }
        inv_hunks.push(inv);
        k += 1;
    }
    proof {
        assert(hunks_view(inv_hunks@) =~= inverse_diff(hs, ov));
    }
    Ok(Delta::new(delta.file.duplicate(), LineDiff::new(inv_hunks), clone_source(&delta.source)))
}


/// The message for a delta list whose length differs from the snapshot's chain.
pub open spec fn chain_length_msg(got: int, chain: int) -> Seq<char> {
    "deltas length ("@ + dec(got as nat) + ") does not match snapshot delta chain length ("@ + dec(chain as nat) + ")"@
}

/// The message for a list of old contents whose length differs from the deltas'.
pub open spec fn contents_length_msg(got: int, deltas: int) -> Seq<char> {
    "old_contents length ("@ + dec(got as nat) + ") does not match deltas length ("@ + dec(deltas as nat) + ")"@
}

fn length_message(first: &str, got: usize, second: &str, expected: usize) -> (r: String)
    ensures
        r@ == first@ + dec(got as nat) + second@ + dec(expected as nat) + ")"@,
{
    let mut s = String::new();
    append_str(&mut s, first);
    push_dec(&mut s, got as u64);
    append_str(&mut s, second);
    push_dec(&mut s, expected as u64);
    append_str(&mut s, ")");
    s
}

/// The inverse deltas of a snapshot's chain, newest first, so that applying
/// them in order undoes the whole chain.
///
/// `deltas` are the snapshot's deltas, oldest first, and `old_contents[i]` the
/// text before `deltas[i]` was applied. An error when `deltas` is not as long
/// as the snapshot's chain, or `old_contents` not as long as `deltas`.
pub fn inverse_snapshot(snapshot: &Snapshot, deltas: &[Delta], old_contents: &[&str]) -> (r: Result<Vec<Delta>, StratumError>)
    requires
        deltas@.len() == snapshot.deltas@.len() && old_contents@.len() == deltas@.len() ==> forall|i: int|
            0 <= i < deltas@.len() ==> inverse_defined(#[trigger] deltas@[i].diff@, spec_lines(old_contents@[i]@)),
    ensures
        deltas@.len() != snapshot.deltas@.len() ==> (r matches Err(StratumError::Engine(m))
            && m@ == chain_length_msg(deltas@.len() as int, snapshot.deltas@.len() as int)),
        deltas@.len() == snapshot.deltas@.len() && old_contents@.len() != deltas@.len() ==> (r matches Err(
            StratumError::Engine(m),
        ) && m@ == contents_length_msg(old_contents@.len() as int, deltas@.len() as int)),
        deltas@.len() == snapshot.deltas@.len() && old_contents@.len() == deltas@.len() ==> (r matches Ok(v) && v@.len()
            == deltas@.len() && forall|i: int| 0 <= i < v@.len() ==> {
                let k = deltas@.len() - 1 - i;
                &&& (#[trigger] v@[i]).diff@ == inverse_diff(deltas@[k].diff@, spec_lines(old_contents@[k]@))
                &&& v@[i].file@ == deltas@[k].file@
                &&& v@[i].source@ == deltas@[k].source@
            }),
{
    let n = deltas.len();
    if n != snapshot.deltas.len() {
        return Err(StratumError::Engine(length_message("deltas length (", n, ") does not match snapshot delta chain length (", snapshot.deltas.len())));
    }
    if old_contents.len() != n {
        return Err(StratumError::Engine(length_message("old_contents length (", old_contents.len(), ") does not match deltas length (", n)));
    }
    let mut out: Vec<Delta> = Vec::new();
    let mut i: usize = n;
    while i > 0
        invariant
            n == deltas@.len(),
            n == old_contents@.len(),
            forall|j: int| 0 <= j < n ==> inverse_defined(#[trigger] deltas@[j].diff@, spec_lines(old_contents@[j]@)),
            i <= n,
            out@.len() == n - i,
            forall|j: int| 0 <= j < out@.len() ==> {
                let k = n - 1 - j;
                &&& (#[trigger] out@[j]).diff@ == inverse_diff(deltas@[k].diff@, spec_lines(old_contents@[k]@))
                &&& out@[j].file@ == deltas@[k].file@
                &&& out@[j].source@ == deltas@[k].source@
            },
        decreases i,
    {
        i -= 1;
        proof {
            assert(inverse_defined(deltas@[i as int].diff@, spec_lines(old_contents@[i as int]@)));
        }
        let inv = inverse_delta(&deltas[i], Some(old_contents[i]));
        match inv {
            Ok(d) => out.push(d),
            Err(e) => return Err(e),
        }
    }
    Ok(out)
}

// ---------------------------------------------------------------------------
// A diff that describes a change, and its inverse undoing it
// ---------------------------------------------------------------------------

/// The old and new positions (0-based) reached after the operations
/// `ops[j..]` started at old line `o` and new line `n`, when every operation's
/// own 1-based positions agree with them and inserted lines fit a `u32` count;
/// `None` otherwise.
pub open spec fn ops_track(ops: Seq<DiffOpV>, j: int, o: int, n: int) -> Option<(int, int)>
    decreases ops.len() - j,
{
    if j < 0 || j >= ops.len() {
        Some((o, n))
    } else {
        match ops[j] {
            DiffOpV::Equal { count } => ops_track(ops, j + 1, o + count, n + count),
            DiffOpV::Delete { old_start, count } => if old_start == o + 1 {
                ops_track(ops, j + 1, o + count, n)
            } else {
                None
            },
            DiffOpV::Insert { new_start, lines } => if new_start == n + 1 && lines.len() <= u32::MAX {
                ops_track(ops, j + 1, o, n + lines.len())
            } else {
                None
            },
            DiffOpV::Replace { old_start, old_count, new_start, lines } => if old_start == o + 1 && new_start == n + 1
                && lines.len() <= u32::MAX {
                ops_track(ops, j + 1, o + old_count, n + lines.len())
            } else {
                None
            },
        }
    }
}

/// Whether the hunks `hs[k..]` describe a change of the old lines `old`, the
/// hunks before them having ended at old line `o` and new line `n`: each hunk
/// starts (1-based) at or after that end, as far from it on both sides, the
/// positions of its operations agree with their place in it, its lengths are
/// what its operations cover, and it ends within the old lines.
pub open spec fn hunks_track(old: Seq<Seq<char>>, hs: Seq<HunkV>, k: int, o: int, n: int) -> bool
    decreases hs.len() - k,
{
    if k < 0 || k >= hs.len() {
        true
    } else {
        let h = hs[k];
        let s = h.old_start - 1;
        let t = h.new_start - 1;
        &&& h.old_start >= 1
        &&& h.new_start >= 1
        &&& s >= o
        &&& t - n == s - o
        &&& match ops_track(h.ops, 0, s, t) {
            Some((oe, ne)) => oe == s + h.old_len && ne == t + h.new_len && oe <= old.len() && hunks_track(
                old, hs, k + 1, oe, ne,
            ),
            None => false,
        }
    }
}

/// Whether a diff describes a change of the old lines `old`.
pub open spec fn describes(old: Seq<Seq<char>>, hs: Seq<HunkV>) -> bool {
    hunks_track(old, hs, 0, 0, 0)
}

/// Whether an operation is a replace that puts in lines.
pub open spec fn replace_fills(op: DiffOpV) -> bool {
    op matches DiffOpV::Replace { lines, .. } && lines.len() > 0
}

/// Whether some replace operation of the diff puts in lines.
pub open spec fn fills_by_replace(hs: Seq<HunkV>) -> bool {
    exists|i: int, j: int| 0 <= i < hs.len() && 0 <= j < hs[i].ops.len() && replace_fills(#[trigger] hs[i].ops[j])
}

/// The lines the operations `ops[j..]` produce from old line `o` on.
pub open spec fn ops_out(old: Seq<Seq<char>>, ops: Seq<DiffOpV>, j: int, o: int) -> Seq<Seq<char>>
    decreases ops.len() - j,
{
    if j < 0 || j >= ops.len() {
        seq![]
    } else {
        match ops[j] {
            DiffOpV::Equal { count } => old.subrange(o, o + count) + ops_out(old, ops, j + 1, o + count),
            DiffOpV::Delete { count, .. } => ops_out(old, ops, j + 1, o + count),
            DiffOpV::Insert { lines, .. } => lines + ops_out(old, ops, j + 1, o),
            DiffOpV::Replace { old_count, lines, .. } => lines + ops_out(old, ops, j + 1, o + old_count),
        }
    }
}

/// The lines the hunks `hs[k..]` produce from old line `o` on, with the
/// unchanged lines between them.
pub open spec fn hunks_out(old: Seq<Seq<char>>, hs: Seq<HunkV>, k: int, o: int) -> Seq<Seq<char>>
    decreases hs.len() - k,
{
    if k < 0 || k >= hs.len() {
        if 0 <= o < old.len() { old.subrange(o, old.len() as int) } else { seq![] }
    } else {
        let h = hs[k];
        let s = hunk_start(h);
        old.subrange(o, s) + ops_out(old, h.ops, 0, s) + hunks_out(old, hs, k + 1, s + h.old_len)
    }
}

proof fn lemma_ops_forward(old: Seq<Seq<char>>, ops: Seq<DiffOpV>, j: int, o: int, n: int, acc: Seq<Seq<char>>)
    requires
        0 <= j <= ops.len(),
        0 <= o,
        0 <= n,
        ops_track(ops, j, o, n) matches Some((oe, ne)) && oe <= old.len(),
    ensures
        ops_track(ops, j, o, n) matches Some((oe, ne)) && o <= oe && n <= ne && ops_out(old, ops, j, o).len() == ne - n,
        run_ops(old, o, ops, j, acc) == Some(acc + ops_out(old, ops, j, o)),
    decreases ops.len() - j,
{
    if j < ops.len() {
        match ops[j] {
            DiffOpV::Equal { count } => {
                lemma_ops_forward(old, ops, j + 1, o + count, n + count, acc + old.subrange(o, o + count));
                assert(acc + old.subrange(o, o + count) + ops_out(old, ops, j + 1, o + count) =~= acc + ops_out(old, ops, j, o));
            },
            DiffOpV::Delete { count, .. } => {
                lemma_ops_forward(old, ops, j + 1, o + count, n, acc);
            },
            DiffOpV::Insert { lines, .. } => {
                lemma_ops_forward(old, ops, j + 1, o, n + lines.len(), acc + lines);
                assert(acc + lines + ops_out(old, ops, j + 1, o) =~= acc + ops_out(old, ops, j, o));
            },
            DiffOpV::Replace { old_count, lines, .. } => {
                lemma_ops_forward(old, ops, j + 1, o + old_count, n + lines.len(), acc + lines);
                assert(acc + lines + ops_out(old, ops, j + 1, o + old_count) =~= acc + ops_out(old, ops, j, o));
            },
        }
    } else {
        assert(acc + seq![] =~= acc);
    }
}

proof fn lemma_ops_inverse(
    old: Seq<Seq<char>>,
    new: Seq<Seq<char>>,
    ops: Seq<DiffOpV>,
    j: int,
    o: int,
    n: int,
    acc: Seq<Seq<char>>,
)
    requires
        0 <= j <= ops.len(),
        0 <= o,
        0 <= n,
        ops_track(ops, j, o, n) matches Some((oe, ne)) && oe <= old.len() && ne <= new.len()
            && new.subrange(n, ne) == ops_out(old, ops, j, o),
        old.len() > 0 || forall|i: int| 0 <= i < ops.len() ==> !replace_fills(#[trigger] ops[i]),
    ensures
        ops_track(ops, j, o, n) matches Some((oe, ne)) && run_ops(
            new, n, Seq::new(ops.len(), |i: int| inverse_op(ops[i], old)), j, acc,
        ) == Some(acc + old.subrange(o, oe)),
    decreases ops.len() - j,
{
    let inv = Seq::new(ops.len(), |i: int| inverse_op(ops[i], old));
    let (oe, ne) = ops_track(ops, j, o, n).unwrap();
    lemma_ops_forward(old, ops, j, o, n, seq![]);
    if j < ops.len() {
        assert(inv[j] == inverse_op(ops[j], old));
        match ops[j] {
            DiffOpV::Equal { count } => {
                lemma_ops_forward(old, ops, j + 1, o + count, n + count, seq![]);
                let rest = ops_out(old, ops, j + 1, o + count);
                assert(new.subrange(n, ne) == old.subrange(o, o + count) + rest);
                assert(new.subrange(n, n + count) =~= old.subrange(o, o + count)) by {
                    assert forall|i: int| 0 <= i < count implies #[trigger] new.subrange(n, n + count)[i] == old.subrange(o, o + count)[i] by {
                        assert(new.subrange(n, n + count)[i] == new.subrange(n, ne)[i]);
                    }
                }
                assert(new.subrange(n + count, ne) =~= rest) by {
                    assert forall|i: int| 0 <= i < rest.len() implies #[trigger] new.subrange(n + count, ne)[i] == rest[i] by {
                        assert(new.subrange(n + count, ne)[i] == new.subrange(n, ne)[i + count]);
                    }
                }
                lemma_ops_inverse(old, new, ops, j + 1, o + count, n + count, acc + new.subrange(n, n + count));
                assert(acc + old.subrange(o, o + count) + old.subrange(o + count, oe) =~= acc + old.subrange(o, oe));
            },
            DiffOpV::Delete { old_start, count } => {
                lemma_ops_forward(old, ops, j + 1, o + count, n, seq![]);
                let back = if old.len() > 0 { taken(old, old_start, count) } else { blanks(count as nat) };
                assert(back =~= old.subrange(o, o + count));
                lemma_ops_inverse(old, new, ops, j + 1, o + count, n, acc + back);
                assert(acc + back + old.subrange(o + count, oe) =~= acc + old.subrange(o, oe));
            },
            DiffOpV::Insert { new_start, lines } => {
                lemma_ops_forward(old, ops, j + 1, o, n + lines.len(), seq![]);
                let rest = ops_out(old, ops, j + 1, o);
                assert(new.subrange(n, ne) == lines + rest);
                assert(new.subrange(n + lines.len(), ne) =~= rest) by {
                    assert forall|i: int| 0 <= i < rest.len() implies #[trigger] new.subrange(n + lines.len(), ne)[i] == rest[i] by {
                        assert(new.subrange(n + lines.len(), ne)[i] == new.subrange(n, ne)[i + lines.len()]);
                    }
                }
                lemma_ops_inverse(old, new, ops, j + 1, o, n + lines.len(), acc);
            },
            DiffOpV::Replace { old_start, old_count, new_start, lines } => {
                lemma_ops_forward(old, ops, j + 1, o + old_count, n + lines.len(), seq![]);
                let rest = ops_out(old, ops, j + 1, o + old_count);
                assert(new.subrange(n, ne) == lines + rest);
                assert(new.subrange(n + lines.len(), ne) =~= rest) by {
                    assert forall|i: int| 0 <= i < rest.len() implies #[trigger] new.subrange(n + lines.len(), ne)[i] == rest[i] by {
                        assert(new.subrange(n + lines.len(), ne)[i] == new.subrange(n, ne)[i + lines.len()]);
                    }
                }
                if old.len() == 0 {
                    assert(!replace_fills(ops[j]));
                }
                let back = if old.len() > 0 { taken(old, old_start, old_count) } else { blanks(lines.len()) };
                assert(back =~= old.subrange(o, o + old_count));
                lemma_ops_inverse(old, new, ops, j + 1, o + old_count, n + lines.len(), acc + back);
                assert(acc + back + old.subrange(o + old_count, oe) =~= acc + old.subrange(o, oe));
            },
        }
    } else {
        assert(acc + old.subrange(o, oe) =~= acc);
    }
}

proof fn lemma_hunks_forward(old: Seq<Seq<char>>, hs: Seq<HunkV>, k: int, o: int, n: int, acc: Seq<Seq<char>>)
    requires
        0 <= k <= hs.len(),
        0 <= o <= old.len(),
        0 <= n,
        hunks_track(old, hs, k, o, n),
    ensures
        run_hunks(old, o, hs, k, acc) == Applied::Done(acc + hunks_out(old, hs, k, o)),
    decreases hs.len() - k,
{
    if k < hs.len() {
        let h = hs[k];
        let s = h.old_start - 1;
        let t = h.new_start - 1;
        let (oe, ne) = ops_track(h.ops, 0, s, t).unwrap();
        assert(hunk_start(h) == s);
        let acc1 = acc + old.subrange(o, s);
        lemma_ops_forward(old, h.ops, 0, s, t, acc1);
        lemma_hunks_forward(old, hs, k + 1, oe, ne, acc1 + ops_out(old, h.ops, 0, s));
        assert(acc1 + ops_out(old, h.ops, 0, s) + hunks_out(old, hs, k + 1, oe) =~= acc + hunks_out(old, hs, k, o));
    } else {
        if o < old.len() {
        } else {
            assert(acc + hunks_out(old, hs, k, o) =~= acc);
        }
    }
}

proof fn lemma_hunks_inverse(
    old: Seq<Seq<char>>,
    new: Seq<Seq<char>>,
    hs: Seq<HunkV>,
    k: int,
    o: int,
    n: int,
    acc: Seq<Seq<char>>,
)
    requires
        0 <= k <= hs.len(),
        0 <= o <= old.len(),
        0 <= n <= new.len(),
        hunks_track(old, hs, k, o, n),
        new.subrange(n, new.len() as int) == hunks_out(old, hs, k, o),
        old.len() > 0 || !fills_by_replace(hs),
    ensures
        run_hunks(new, n, inverse_diff(hs, old), k, acc) == Applied::Done(acc + old.subrange(o, old.len() as int)),
    decreases hs.len() - k,
{
    let inv = inverse_diff(hs, old);
    if k < hs.len() {
        let h = hs[k];
        let s = h.old_start - 1;
        let t = h.new_start - 1;
        let (oe, ne) = ops_track(h.ops, 0, s, t).unwrap();
        let hi = inv[k];
        assert(hi == inverse_hunk(h, old));
        assert(hunk_start(hi) == t);
        lemma_ops_forward(old, h.ops, 0, s, t, seq![]);
        let mid = ops_out(old, h.ops, 0, s);
        let rest = hunks_out(old, hs, k + 1, oe);
        let whole = new.subrange(n, new.len() as int);
        assert(hunk_start(h) == s && s + h.old_len == oe);
        assert(whole == old.subrange(o, s) + mid + rest);
        assert(new.subrange(n, t) =~= old.subrange(o, s)) by {
            assert forall|i: int| 0 <= i < t - n implies #[trigger] new.subrange(n, t)[i] == old.subrange(o, s)[i] by {
                assert(new.subrange(n, t)[i] == whole[i]);
            }
        }
        assert(new.subrange(t, ne) =~= mid) by {
            assert forall|i: int| 0 <= i < mid.len() implies #[trigger] new.subrange(t, ne)[i] == mid[i] by {
                assert(new.subrange(t, ne)[i] == whole[i + (s - o)]);
            }
        }
        assert(new.subrange(ne, new.len() as int) =~= rest) by {
            assert forall|i: int| 0 <= i < rest.len() implies #[trigger] new.subrange(ne, new.len() as int)[i] == rest[i] by {
                assert(new.subrange(ne, new.len() as int)[i] == whole[i + (s - o) + mid.len()]);
            }
        }
        assert forall|i: int| 0 <= i < h.ops.len() implies old.len() > 0 || !replace_fills(#[trigger] h.ops[i]) by {
            if old.len() == 0 && replace_fills(h.ops[i]) {
                assert(replace_fills(hs[k].ops[i]));
                assert(fills_by_replace(hs));
            }
        }
        let acc1 = acc + new.subrange(n, t);
        lemma_ops_inverse(old, new, h.ops, 0, s, t, acc1);
        assert(hi.ops == Seq::new(h.ops.len(), |i: int| inverse_op(h.ops[i], old)));
        lemma_hunks_inverse(old, new, hs, k + 1, oe, ne, acc1 + old.subrange(s, oe));
        assert(acc1 + old.subrange(s, oe) + old.subrange(oe, old.len() as int) =~= acc + old.subrange(o, old.len() as int));
    } else {
        if n < new.len() {
        } else {
            assert(acc + old.subrange(o, old.len() as int) =~= acc);
        }
    }
}

proof fn lemma_track_ordered(old: Seq<Seq<char>>, hs: Seq<HunkV>, k: int, o: int, n: int)
    requires
        0 <= k <= hs.len(),
        0 <= o <= old.len(),
        0 <= n,
        hunks_track(old, hs, k, o, n),
    ensures
        forall|i: int| k < i < hs.len() ==> (#[trigger] hs[i - 1]).old_start <= hs[i].old_start && hs[i - 1].new_start <= hs[i].new_start,
        forall|i: int| k <= i < hs.len() ==> (#[trigger] hs[i]).old_start - 1 >= o && hs[i].new_start - 1 >= n,
    decreases hs.len() - k,
{
    if k < hs.len() {
        let h = hs[k];
        let s = h.old_start - 1;
        let t = h.new_start - 1;
        let (oe, ne) = ops_track(h.ops, 0, s, t).unwrap();
        lemma_ops_forward(old, h.ops, 0, s, t, seq![]);
        lemma_track_ordered(old, hs, k + 1, oe, ne);
        if k + 1 < hs.len() {
            assert(hs[k + 1].old_start - 1 >= oe);
        }
    }
}

proof fn lemma_sorted_identity(hs: Seq<HunkV>)
    requires
        forall|i: int| 0 < i < hs.len() ==> (#[trigger] hs[i - 1]).old_start <= hs[i].old_start,
    ensures
        sort_hunks(hs) == hs,
    decreases hs.len(),
{
    if hs.len() > 0 {
        let p = hs.drop_last();
        assert forall|i: int| 0 < i < p.len() implies (#[trigger] p[i - 1]).old_start <= p[i].old_start by {
            assert(hs[i - 1].old_start <= hs[i].old_start);
        }
        lemma_sorted_identity(p);
        if p.len() == 0 {
            assert(seq![hs.last()] =~= hs);
        } else {
            assert(hs[hs.len() - 2].old_start <= hs[hs.len() - 1].old_start);
            assert(p.push(hs.last()) =~= hs);
        }
    }
}

proof fn lemma_ops_readable(old: Seq<Seq<char>>, ops: Seq<DiffOpV>, j: int, o: int, n: int)
    requires
        0 <= j <= ops.len(),
        0 <= o,
        0 <= n,
        ops_track(ops, j, o, n) matches Some((oe, ne)) && oe <= old.len(),
    ensures
        forall|i: int| j <= i < ops.len() ==> op_readable(#[trigger] ops[i], old),
    decreases ops.len() - j,
{
    if j < ops.len() {
        lemma_ops_forward(old, ops, j, o, n, seq![]);
        match ops[j] {
            DiffOpV::Equal { count } => lemma_ops_readable(old, ops, j + 1, o + count, n + count),
            DiffOpV::Delete { count, .. } => {
                lemma_ops_forward(old, ops, j + 1, o + count, n, seq![]);
                lemma_ops_readable(old, ops, j + 1, o + count, n);
            },
            DiffOpV::Insert { lines, .. } => lemma_ops_readable(old, ops, j + 1, o, n + lines.len()),
            DiffOpV::Replace { old_count, lines, .. } => {
                lemma_ops_forward(old, ops, j + 1, o + old_count, n + lines.len(), seq![]);
                lemma_ops_readable(old, ops, j + 1, o + old_count, n + lines.len());
            },
        }
    }
}

proof fn lemma_hunks_readable(old: Seq<Seq<char>>, hs: Seq<HunkV>, k: int, o: int, n: int)
    requires
        0 <= k <= hs.len(),
        0 <= o <= old.len(),
        0 <= n,
        hunks_track(old, hs, k, o, n),
    ensures
        forall|i: int, j: int| k <= i < hs.len() && 0 <= j < hs[i].ops.len() ==> op_readable(#[trigger] hs[i].ops[j], old),
    decreases hs.len() - k,
{
    if k < hs.len() {
        let h = hs[k];
        let s = h.old_start - 1;
        let t = h.new_start - 1;
        let (oe, ne) = ops_track(h.ops, 0, s, t).unwrap();
        lemma_ops_forward(old, h.ops, 0, s, t, seq![]);
        lemma_ops_readable(old, h.ops, 0, s, t);
        lemma_hunks_readable(old, hs, k + 1, oe, ne);
    }
}

/// A diff that describes a change of some old lines applies to them, giving
/// the unchanged lines around its hunks and what each hunk produces.
pub proof fn lemma_described_applies(old: Seq<Seq<char>>, hs: Seq<HunkV>)
    requires
        describes(old, hs),
    ensures
        apply_diff(old, hs) == Applied::Done(hunks_out(old, hs, 0, 0)),
{
    lemma_track_ordered(old, hs, 0, 0, 0);
    lemma_sorted_identity(hs);
    lemma_hunks_forward(old, hs, 0, 0, 0, seq![]);
    assert(Seq::<Seq<char>>::empty() + hunks_out(old, hs, 0, 0) =~= hunks_out(old, hs, 0, 0));
}

/// A diff that describes a change of some old lines can be inverted against
/// them: every range it removes starts within them.
pub proof fn lemma_described_invertible(old: Seq<Seq<char>>, hs: Seq<HunkV>)
    requires
        describes(old, hs),
    ensures
        inverse_defined(hs, old),
{
    lemma_hunks_readable(old, hs, 0, 0, 0);
}

/// Undoing: a diff that describes a change of some old lines applies to them,
/// and its inverse against them, applied to the result, gives the old lines
/// back. (Without old lines, a replace that puts in lines is undone with
/// empty lines, so that case is left out.)
pub proof fn lemma_inverse_undoes(old: Seq<Seq<char>>, hs: Seq<HunkV>)
    requires
        describes(old, hs),
        old.len() > 0 || !fills_by_replace(hs),
    ensures
        apply_diff(old, hs) matches Applied::Done(new) && apply_diff(new, inverse_diff(hs, old)) == Applied::Done(old),
{
    lemma_track_ordered(old, hs, 0, 0, 0);
    lemma_sorted_identity(hs);
    let inv = inverse_diff(hs, old);
    assert forall|i: int| 0 < i < inv.len() implies (#[trigger] inv[i - 1]).old_start <= inv[i].old_start by {
        assert(hs[i - 1].new_start <= hs[i].new_start);
    }
    lemma_sorted_identity(inv);
    lemma_hunks_forward(old, hs, 0, 0, 0, seq![]);
    let new = hunks_out(old, hs, 0, 0);
    assert(Seq::<Seq<char>>::empty() + new =~= new);
    assert(new.subrange(0, new.len() as int) =~= new);
    lemma_hunks_inverse(old, new, hs, 0, 0, 0, seq![]);
    assert(Seq::<Seq<char>>::empty() + old.subrange(0, old.len() as int) =~= old);
}


/// Undoing, on texts: rebuilding a text with a delta whose diff describes a
/// change of its lines gives the changed lines; where splitting them joined by
/// `'\n'` gives them back, rebuilding that text with the inverse delta (made
/// against the first text) gives the first text's lines again.
pub proof fn lemma_inverse_delta_restores(content: Seq<char>, delta: Delta, inverse: Delta)
    requires
        describes(spec_lines(content), delta.diff@),
        spec_lines(content).len() > 0 || !fills_by_replace(delta.diff@),
        inverse.diff@ == inverse_diff(delta.diff@, spec_lines(content)),
    ensures
        rebuild(content, seq![delta]) matches Applied::Done(new_lines) && (spec_lines(join_lines(new_lines))
            == new_lines ==> rebuild(join_lines(new_lines), seq![inverse]) == Applied::Done(spec_lines(content))),
{
    let old = spec_lines(content);
    lemma_inverse_undoes(old, delta.diff@);
    let ds = diffs_of(seq![delta]);
    assert(ds[0] == delta.diff@);
    let new_lines = match apply_diff(old, delta.diff@) {
        Applied::Done(l) => l,
        _ => seq![],
    };
    assert(apply_chain(new_lines, ds, 1) == Applied::Done(new_lines));
    assert(rebuild(content, seq![delta]) == Applied::Done(new_lines));
    let is = diffs_of(seq![inverse]);
    assert(is[0] == inverse.diff@);
    if spec_lines(join_lines(new_lines)) == new_lines {
        assert(apply_chain(old, is, 1) == Applied::Done(old));
    }
}

proof fn lemma_chain_forward(lines: Seq<Seq<Seq<char>>>, deltas: Seq<Delta>, k: int)
    requires
        lines.len() == deltas.len() + 1,
        0 <= k <= deltas.len(),
        forall|i: int| 0 <= i < deltas.len() ==> apply_diff(lines[i], (#[trigger] deltas[i]).diff@) == Applied::Done(lines[i + 1]),
    ensures
        apply_chain(lines[k], diffs_of(deltas), k) == Applied::Done(lines.last()),
    decreases deltas.len() - k,
{
    if k < deltas.len() {
        assert(diffs_of(deltas)[k] == deltas[k].diff@);
        lemma_chain_forward(lines, deltas, k + 1);
    }
}

proof fn lemma_chain_backward(lines: Seq<Seq<Seq<char>>>, deltas: Seq<Delta>, inverses: Seq<Delta>, j: int)
    requires
        lines.len() == deltas.len() + 1,
        inverses.len() == deltas.len(),
        0 <= j <= deltas.len(),
        forall|i: int| 0 <= i < deltas.len() ==> describes(lines[i], (#[trigger] deltas[i]).diff@) && (lines[i].len() > 0
            || !fills_by_replace(deltas[i].diff@)) && apply_diff(lines[i], deltas[i].diff@) == Applied::Done(lines[i + 1]),
        forall|i: int| 0 <= i < inverses.len() ==> (#[trigger] inverses[i]).diff@ == inverse_diff(
            deltas[deltas.len() - 1 - i].diff@,
            lines[deltas.len() - 1 - i],
        ),
    ensures
        apply_chain(lines[deltas.len() - j], diffs_of(inverses), j) == Applied::Done(lines[0]),
    decreases deltas.len() - j,
{
    let m = deltas.len();
    if j < m {
        let k = m - 1 - j;
        assert(describes(lines[k], deltas[k].diff@));
        lemma_inverse_undoes(lines[k], deltas[k].diff@);
        assert(diffs_of(inverses)[j] == inverses[j].diff@);
        assert(apply_diff(lines[m - j], diffs_of(inverses)[j]) == Applied::Done(lines[k]));
        lemma_chain_backward(lines, deltas, inverses, j + 1);
        assert(m - (j + 1) == k);
    }
}

/// Undoing a whole chain: when each delta's diff describes a change of the
/// lines before it (`lines[i]`) and gives the lines after it, and the
/// inverses are those of the deltas made against the lines before each,
/// newest first (as `inverse_snapshot` returns them), applying the deltas in
/// turn leads from the first lines to the last, and applying the inverses in
/// turn leads from the last lines back to the first.
pub proof fn lemma_inverse_chain_undoes(lines: Seq<Seq<Seq<char>>>, deltas: Seq<Delta>, inverses: Seq<Delta>)
    requires
        lines.len() == deltas.len() + 1,
        inverses.len() == deltas.len(),
        forall|i: int| 0 <= i < deltas.len() ==> describes(lines[i], (#[trigger] deltas[i]).diff@) && (lines[i].len() > 0
            || !fills_by_replace(deltas[i].diff@)) && apply_diff(lines[i], deltas[i].diff@) == Applied::Done(lines[i + 1]),
        forall|i: int| 0 <= i < inverses.len() ==> (#[trigger] inverses[i]).diff@ == inverse_diff(
            deltas[deltas.len() - 1 - i].diff@,
            lines[deltas.len() - 1 - i],
        ),
    ensures
        apply_chain(lines[0], diffs_of(deltas), 0) == Applied::Done(lines.last()),
        apply_chain(lines.last(), diffs_of(inverses), 0) == Applied::Done(lines[0]),
{
    lemma_chain_forward(lines, deltas, 0);
    lemma_chain_backward(lines, deltas, inverses, 0);
}

} // verus!
