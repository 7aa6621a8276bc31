//! Merge engine: rebuilding content from a base and a chain of deltas, and
//! three-way merging of texts.

use crate::error::StratumError;
use crate::model::delta::{Delta, DeltaV, LineDiff};
use crate::model::types::{clone_hunk, DiffOp, DiffOpV, Hunk, HunkV, hunks_view};
use crate::engine::diff::{diff_to_line_diff, spec_line_diff};
use crate::engine::line_ops::no_lone_cr;
use crate::engine::merge_laws::{apply_changes, changes_apart, conflicts_placed, interleave, lemma_merge_apart, lemma_merge_conflicts_placed, lemma_merge_one_side};
use crate::text::{dec, join_lines, join_with_newline, lines_view, push_dec, spec_lines, split_lines, append_str};
use vstd::prelude::*;

verus! {

broadcast use vstd::string::group_string_axioms;

// ---------------------------------------------------------------------------
// Ordering hunks (stable, by `old_start`)
// ---------------------------------------------------------------------------

/// Inserts `h` after every hunk whose `old_start` is at most its own.
pub open spec fn insert_by_start(sorted: Seq<HunkV>, h: HunkV) -> Seq<HunkV>
    decreases sorted.len(),
{
    if sorted.len() == 0 {
        seq![h]
    } else if sorted.last().old_start <= h.old_start {
        sorted.push(h)
    } else {
        insert_by_start(sorted.drop_last(), h).push(sorted.last())
    }
}

/// The hunks in stable order of `old_start`.
pub open spec fn sort_hunks(hs: Seq<HunkV>) -> Seq<HunkV>
    decreases hs.len(),
{
    if hs.len() == 0 {
        seq![]
    } else {
        insert_by_start(sort_hunks(hs.drop_last()), hs.last())
    }
}

proof fn lemma_insert_at(s: Seq<HunkV>, h: HunkV, j: int)
    requires
        0 <= j <= s.len(),
        forall|t: int| j <= t < s.len() ==> s[t].old_start > h.old_start,
        j > 0 ==> s[j - 1].old_start <= h.old_start,
    ensures
        insert_by_start(s, h) == s.insert(j, h),
    decreases s.len(),
{
    if s.len() == 0 {
        assert(s.insert(j, h) =~= seq![h]);
    } else if s.last().old_start <= h.old_start {
        assert(j == s.len());
        assert(s.insert(j, h) =~= s.push(h));
    } else {
        let p = s.drop_last();
        lemma_insert_at(p, h, j);
        assert(s.insert(j, h) =~= p.insert(j, h).push(s.last()));
    }
}

/// The hunks of a diff sorted stably by `old_start`.
fn sorted_hunks(hunks: &Vec<Hunk>) -> (r: Vec<Hunk>)
    ensures
        hunks_view(r@) == sort_hunks(hunks_view(hunks@)),
{
    let mut out: Vec<Hunk> = Vec::new();
    let mut i: usize = 0;
    while i < hunks.len()
        invariant
            i <= hunks@.len(),
            hunks_view(out@) == sort_hunks(hunks_view(hunks@).take(i as int)),
        decreases hunks@.len() - i,
    {
        let h = clone_hunk(&hunks[i]);
        let mut j = out.len();
        while j > 0 && out[j - 1].old_start > h.old_start
            invariant
                j <= out@.len(),
                forall|t: int| j <= t < out@.len() ==> out@[t].old_start > h.old_start,
            decreases j,
        {
            j -= 1;
        }
        let ghost before = hunks_view(out@);
        proof {
            lemma_insert_at(before, h@, j as int);
            let t = hunks_view(hunks@).take(i + 1);
            assert(t.drop_last() =~= hunks_view(hunks@).take(i as int));
            assert(t.last() == h@);
        }
        out.insert(j, h);
        proof {
            assert(hunks_view(out@) =~= before.insert(j as int, hunks_view(hunks@)[i as int]));
        }
        i += 1;
    }
    proof {
        assert(hunks_view(hunks@).take(hunks@.len() as int) =~= hunks_view(hunks@));
    }
    out
}

// ---------------------------------------------------------------------------
// Applying a diff to lines
// ---------------------------------------------------------------------------

/// 0-based index of the first old line a hunk covers.
pub open spec fn hunk_start(h: HunkV) -> int {
    if h.old_start > 0 { h.old_start - 1 } else { 0 }
}

/// The output of the operations `ops[k..]` started at old line `pos`, after
/// `acc`; `None` when a kept range runs past the end of `lines`.
pub open spec fn run_ops(lines: Seq<Seq<char>>, pos: int, ops: Seq<DiffOpV>, k: int, acc: Seq<Seq<char>>) -> Option<Seq<Seq<char>>>
    decreases ops.len() - k,
{
    if k < 0 || k >= ops.len() {
        Some(acc)
    } else {
        match ops[k] {
            DiffOpV::Equal { count } => if pos < 0 || pos + count > lines.len() {
                None
            } else {
                run_ops(lines, pos + count, ops, k + 1, acc + lines.subrange(pos, pos + count))
            },
            DiffOpV::Delete { count, .. } => run_ops(lines, pos + count, ops, k + 1, acc),
            DiffOpV::Insert { lines: nl, .. } => run_ops(lines, pos, ops, k + 1, acc + nl),
            DiffOpV::Replace { old_count, lines: nl, .. } => run_ops(lines, pos + old_count, ops, k + 1, acc + nl),
        }
    }
}

/// The outcome of applying a diff: the new lines, a refusal with its message,
/// or an out-of-range slice.
pub enum Applied {
    Done(Seq<Seq<char>>),
    Rejected(Seq<char>),
    Crash,
}

pub open spec fn overlap_msg(old_start: u32, pos: int) -> Seq<char> {
    "重叠的 hunk: old_start="@ + dec(old_start as nat) + ", 已处理到位置 "@ + dec(pos as nat)
}

pub open spec fn range_msg(old_start: u32, old_len: u32, total: int) -> Seq<char> {
    "Hunk 超出范围: old_start="@ + dec(old_start as nat) + ", old_len="@ + dec(old_len as nat) + ", 总行数="@
        + dec(total as nat)
}

/// Applies the hunks `hs[k..]` (already ordered) with old lines consumed up to `old_pos`.
pub open spec fn run_hunks(lines: Seq<Seq<char>>, old_pos: int, hs: Seq<HunkV>, k: int, acc: Seq<Seq<char>>) -> Applied
    decreases hs.len() - k,
{
    if k < 0 || k >= hs.len() {
        if 0 <= old_pos < lines.len() {
            Applied::Done(acc + lines.subrange(old_pos, lines.len() as int))
        } else {
            Applied::Done(acc)
        }
    } else {
        let h = hs[k];
        let s = hunk_start(h);
        let e = s + h.old_len;
        if s < old_pos {
            Applied::Rejected(overlap_msg(h.old_start, old_pos))
        } else if e > lines.len() {
            Applied::Rejected(range_msg(h.old_start, h.old_len, lines.len() as int))
        } else if old_pos < 0 {
            Applied::Crash
        } else {
            match run_ops(lines, s, h.ops, 0, acc + lines.subrange(old_pos, s)) {
                None => Applied::Crash,
                Some(a) => run_hunks(lines, e, hs, k + 1, a),
            }
        }
    }
}

/// The lines obtained by applying a diff: hunks in order of `old_start`, each
/// replacing its range of old lines.
pub open spec fn apply_diff(lines: Seq<Seq<char>>, hs: Seq<HunkV>) -> Applied {
    run_hunks(lines, 0, sort_hunks(hs), 0, seq![])
}

fn extend_range(out: &mut Vec<String>, lines: &Vec<String>, from: usize, to: usize)
    requires
        from <= to <= lines@.len(),
    ensures
        lines_view(final(out)@) == lines_view(old(out)@) + lines_view(lines@).subrange(from as int, to as int),
{
    let ghost o0 = lines_view(out@);
    let mut i = from;
    while i < to
        invariant
            from <= i <= to,
            to <= lines@.len(),
            lines_view(out@) == o0 + lines_view(lines@).subrange(from as int, i as int),
        decreases to - i,
    {
        let c = lines[i].clone();
        let ghost before = out@;
        out.push(c);
        proof {
            assert(c@ == lines@[i as int]@);
            assert(out@ == before.push(c));
            assert(lines_view(out@) =~= lines_view(before).push(c@));
            assert(lines_view(out@) =~= o0 + lines_view(lines@).subrange(from as int, i + 1));
        }
        i += 1;
    }
}

fn extend_all(out: &mut Vec<String>, lines: &Vec<String>)
    ensures
        lines_view(final(out)@) == lines_view(old(out)@) + lines_view(lines@),
{
    extend_range(out, lines, 0, lines.len());
    proof {
        assert(lines_view(lines@).subrange(0, lines@.len() as int) =~= lines_view(lines@));
    }
}

fn overlap_message(old_start: u32, pos: u64) -> (r: String)
    ensures
        r@ == overlap_msg(old_start, pos as int),
{
    let mut s = String::new();
    append_str(&mut s, "重叠的 hunk: old_start=");
    push_dec(&mut s, old_start as u64);
    append_str(&mut s, ", 已处理到位置 ");
    push_dec(&mut s, pos);
    proof {
        assert(s@ =~= overlap_msg(old_start, pos as int));
    }
    s
}

fn range_message(old_start: u32, old_len: u32, total: u64) -> (r: String)
    ensures
        r@ == range_msg(old_start, old_len, total as int),
{
    let mut s = String::new();
    append_str(&mut s, "Hunk 超出范围: old_start=");
    push_dec(&mut s, old_start as u64);
    append_str(&mut s, ", old_len=");
    push_dec(&mut s, old_len as u64);
    append_str(&mut s, ", 总行数=");
    push_dec(&mut s, total);
    proof {
        assert(s@ =~= range_msg(old_start, old_len, total as int));
    }
    s
}

/// Applies one diff to a list of lines; `None` where a kept range runs past
/// the end of the lines.
fn apply_line_diff(lines: &Vec<String>, diff: &LineDiff) -> (r: Option<Result<Vec<String>, StratumError>>)
    ensures
        match apply_diff(lines_view(lines@), diff@) {
            Applied::Done(o) => r matches Some(Ok(v)) && lines_view(v@) == o,
            Applied::Rejected(m) => r matches Some(Err(StratumError::Engine(e))) && e@ == m,
            Applied::Crash => r is None,
        },
{
    let ghost lv = lines_view(lines@);
    let hunks = sorted_hunks(&diff.hunks);
    let ghost hs = hunks_view(hunks@);
    let n = lines.len();
    let mut out: Vec<String> = Vec::new();
    let mut old_pos: usize = 0;
    let mut k: usize = 0;
    proof {
        assert(lines_view(out@) =~= Seq::<Seq<char>>::empty());
    }
    while k < hunks.len()
        invariant
            lv == lines_view(lines@),
            hs == hunks_view(hunks@),
            hs == sort_hunks(diff@),
            n == lines@.len(),
            k <= hunks@.len(),
            old_pos <= n,
            apply_diff(lv, diff@) == run_hunks(lv, old_pos as int, hs, k as int, lines_view(out@)),
        decreases hunks@.len() - k,
    {
        let hunk = &hunks[k];
        let ghost hv = hs[k as int];
        proof {
            assert(hv == hunk@);
        }
        let start64: u64 = if hunk.old_start > 0 { (hunk.old_start - 1) as u64 } else { 0 };
        let end64: u64 = start64 + hunk.old_len as u64;
        if start64 < old_pos as u64 {
            return Some(Err(StratumError::Engine(overlap_message(hunk.old_start, old_pos as u64))));
        }
        if end64 > n as u64 {
            return Some(Err(StratumError::Engine(range_message(hunk.old_start, hunk.old_len, n as u64))));
        }
        let start = start64 as usize;
        let end = end64 as usize;
        let ghost acc0_pre = lines_view(out@);
        extend_range(&mut out, lines, old_pos, start);
        let ghost acc0 = lines_view(out@);
        // Operations of the hunk; `pos` saturates once it has passed the end.
        let mut pos: u128 = start64 as u128;
        let mut j: usize = 0;
        let ghost ops = hv.ops;
        while j < hunk.ops.len()
            invariant
                lv == lines_view(lines@),
                n == lines@.len(),
                ops == hunk@.ops,
                ops.len() == hunk.ops@.len(),
                j <= hunk.ops@.len(),
                start <= pos <= start + j * 0xFFFF_FFFFu128,
                hv == hunk@,
                hs == hunks_view(hunks@),
                0 <= k < hs.len(),
                hv == hs[k as int],
                start == hunk_start(hv),
                start as int + hv.old_len <= n,
                old_pos <= start,
                apply_diff(lv, diff@) == run_hunks(lv, old_pos as int, hs, k as int, acc0_pre),
                acc0 == acc0_pre + lv.subrange(old_pos as int, start as int),
                run_ops(lv, start as int, ops, 0, acc0) == run_ops(lv, pos as int, ops, j as int, lines_view(out@)),
            decreases hunk.ops@.len() - j,
        {
            match &hunk.ops[j] {
                DiffOp::Equal { count } => {
                    let c = *count as u128;
                    if pos + c > n as u128 {
                        proof {
                            assert(run_ops(lv, pos as int, ops, j as int, lines_view(out@)) is None);
                        }
                        return None;
                    }
                    extend_range(&mut out, lines, pos as usize, (pos + c) as usize);
                    pos = pos + c;
                },
                DiffOp::Delete { count, .. } => {
                    pos = pos + *count as u128;
                },
                DiffOp::Insert { lines: nl, .. } => {
                    extend_all(&mut out, nl);
                },
                DiffOp::Replace { old_count, lines: nl, .. } => {
                    pos = pos + *old_count as u128;
                    extend_all(&mut out, nl);
                },
            }
            j += 1;
        }
        proof {
            assert(run_ops(lv, pos as int, ops, j as int, lines_view(out@)) == Some(lines_view(out@)));
        }
        old_pos = end;
        k += 1;
    }
    if old_pos < n {
        extend_range(&mut out, lines, old_pos, n);
    }
    Some(Ok(out))
}


// ---------------------------------------------------------------------------
// Applying a chain of deltas
// ---------------------------------------------------------------------------

/// The diffs of a list of deltas.
pub open spec fn diffs_of(ds: Seq<Delta>) -> Seq<Seq<HunkV>> {
    Seq::new(ds.len(), |i: int| ds[i].diff@)
}

/// Applies the diffs `diffs[k..]` in turn, stopping at the first that does not apply.
pub open spec fn apply_chain(lines: Seq<Seq<char>>, diffs: Seq<Seq<HunkV>>, k: int) -> Applied
    decreases diffs.len() - k,
{
    if k < 0 || k >= diffs.len() {
        Applied::Done(lines)
    } else {
        match apply_diff(lines, diffs[k]) {
            Applied::Done(l2) => apply_chain(l2, diffs, k + 1),
            other => other,
        }
    }
}

/// The content rebuilt from `content` by applying `deltas` in order, as lines
/// joined with `'\n'`.
pub open spec fn rebuild(content: Seq<char>, deltas: Seq<Delta>) -> Applied {
    apply_chain(spec_lines(content), diffs_of(deltas), 0)
}

/// Rebuilding through a chain of one delta is applying that delta's diff to
/// the lines of the base text; with the diff of two texts made by
/// `diff_to_line_diff`, this gives back the lines of the second text.
pub proof fn lemma_one_delta_chain(content: Seq<char>, d: Delta)
    ensures
        rebuild(content, seq![d]) == apply_diff(spec_lines(content), d.diff@),
{
    let diffs = diffs_of(seq![d]);
    assert(diffs[0] == d.diff@);
    match apply_diff(spec_lines(content), d.diff@) {
        Applied::Done(l2) => {
            assert(apply_chain(l2, diffs, 1) == Applied::Done(l2));
        },
        _ => {},
    }
}

proof fn lemma_chain_push(lines: Seq<Seq<char>>, diffs: Seq<Seq<HunkV>>, x: Seq<HunkV>, k: int)
    requires
        0 <= k <= diffs.len(),
    ensures
        apply_chain(lines, diffs.push(x), k) == match apply_chain(lines, diffs, k) {
            Applied::Done(l2) => apply_diff(l2, x),
            other => other,
        },
    decreases diffs.len() - k,
{
    let dx = diffs.push(x);
    if k == diffs.len() {
        assert(dx[k] == x);
        match apply_diff(lines, x) {
            Applied::Done(l2) => {
                assert(apply_chain(l2, dx, k + 1) == Applied::Done(l2));
            },
            _ => {},
        }
    } else {
        assert(dx[k] == diffs[k]);
        match apply_diff(lines, diffs[k]) {
            Applied::Done(l2) => {
                lemma_chain_push(l2, diffs, x, k + 1);
            },
            _ => {},
        }
    }
}

/// One delta more on a chain: a snapshot one delta past another rebuilds to
/// what that delta's diff makes of the other's lines.
pub proof fn lemma_rebuild_one_more(content: Seq<char>, ds: Seq<Delta>, d: Delta)
    ensures
        rebuild(content, ds.push(d)) == match rebuild(content, ds) {
            Applied::Done(ls) => apply_diff(ls, d.diff@),
            other => other,
        },
{
    assert(diffs_of(ds.push(d)) =~= diffs_of(ds).push(d.diff@));
    lemma_chain_push(spec_lines(content), diffs_of(ds), d.diff@, 0);
}

/// The pipeline round trip: when a snapshot's chain rebuilds to the lines of
/// `old_text` and an edit or merge step records a delta that turns those
/// lines into the lines of `new_text` (as `edit_step` and `merge_step`
/// promise for texts without a lone carriage return), the snapshot one delta
/// further rebuilds to the lines of `new_text`.
pub proof fn lemma_step_rebuilds(content: Seq<char>, ds: Seq<Delta>, d: Delta, old_text: Seq<char>, new_text: Seq<char>)
    requires
        rebuild(content, ds) == Applied::Done(spec_lines(old_text)),
        apply_diff(spec_lines(old_text), d.diff@) == Applied::Done(spec_lines(new_text)),
    ensures
        rebuild(content, ds.push(d)) == Applied::Done(spec_lines(new_text)),
{
    lemma_rebuild_one_more(content, ds, d);
}

/// Rebuilds file content from a base text and a chain of deltas.
///
/// The base text is split into lines; each delta's hunks are applied in order
/// of `old_start`; the resulting lines are joined with `'\n'` (so a final line
/// ending is not kept).
pub fn apply_deltas(content: &str, deltas: &[Delta]) -> (r: Result<String, StratumError>)
    requires
        !(rebuild(content@, deltas@) is Crash),
    ensures
        match rebuild(content@, deltas@) {
            Applied::Done(ls) => r matches Ok(t) && t@ == join_lines(ls),
            Applied::Rejected(m) => r matches Err(StratumError::Engine(e)) && e@ == m,
            Applied::Crash => false,
        },
{
    let ghost diffs = diffs_of(deltas@);
    let mut lines = split_lines(content);
    let mut k: usize = 0;
    while k < deltas.len()
        invariant
            k <= deltas@.len(),
            diffs == diffs_of(deltas@),
            rebuild(content@, deltas@) == apply_chain(lines_view(lines@), diffs, k as int),
            !(rebuild(content@, deltas@) is Crash),
        decreases deltas@.len() - k,
    {
        proof {
            assert(diffs[k as int] == deltas@[k as int].diff@);
        }
        let next = apply_line_diff(&lines, &deltas[k].diff);
        match next {
            Some(Ok(l2)) => {
                lines = l2;
            },
            Some(Err(e)) => {
                return Err(e);
            },
            None => {
                proof {
                    assert(false);
                }
                return Err(StratumError::Engine(String::new()));
            },
        }
        k += 1;
    }
    Ok(join_with_newline(&lines))
}

/// Rebuilds file content like `apply_deltas`, or `None` where a delta keeps a
/// range of lines that runs past the end of the text it is applied to.
pub fn try_apply_deltas(content: &str, deltas: &[Delta]) -> (r: Option<Result<String, StratumError>>)
    ensures
        match rebuild(content@, deltas@) {
            Applied::Done(ls) => r matches Some(Ok(t)) && t@ == join_lines(ls),
            Applied::Rejected(m) => r matches Some(Err(StratumError::Engine(e))) && e@ == m,
            Applied::Crash => r is None,
        },
{
    let ghost diffs = diffs_of(deltas@);
    let mut lines = split_lines(content);
    let mut k: usize = 0;
    while k < deltas.len()
        invariant
            k <= deltas@.len(),
            diffs == diffs_of(deltas@),
            rebuild(content@, deltas@) == apply_chain(lines_view(lines@), diffs, k as int),
        decreases deltas@.len() - k,
    {
        proof {
            assert(diffs[k as int] == deltas@[k as int].diff@);
        }
        match apply_line_diff(&lines, &deltas[k].diff) {
            Some(Ok(l2)) => {
                lines = l2;
            },
            Some(Err(e)) => {
                return Some(Err(e));
            },
            None => {
                return None;
            },
        }
        k += 1;
    }
    Some(Ok(join_with_newline(&lines)))
}

// ---------------------------------------------------------------------------
// Three-way merge
// ---------------------------------------------------------------------------

/// A merge conflict.
#[derive(Debug)]
pub struct MergeConflict {
    /// Line (0-based) in the merged output where the conflict starts.
    pub start_line: usize,
    /// The base version of the region.
    pub base: Vec<String>,
    /// Our version of the region.
    pub ours: Vec<String>,
    /// Their version of the region.
    pub theirs: Vec<String>,
}

/// The view of a merge conflict.
pub struct ConflictV {
    pub start_line: int,
    pub base: Seq<Seq<char>>,
    pub ours: Seq<Seq<char>>,
    pub theirs: Seq<Seq<char>>,
}

impl View for MergeConflict {
    type V = ConflictV;

    open spec fn view(&self) -> ConflictV {
        ConflictV {
            start_line: self.start_line as int,
            base: lines_view(self.base@),
            ours: lines_view(self.ours@),
            theirs: lines_view(self.theirs@),
        }
    }
}

pub open spec fn conflicts_view(cs: Seq<MergeConflict>) -> Seq<ConflictV> {
    Seq::new(cs.len(), |i: int| cs[i]@)
}

/// Lines each followed by `'\n'`.
pub open spec fn terminated(ls: Seq<Seq<char>>) -> Seq<char>
    decreases ls.len(),
{
    if ls.len() == 0 {
        seq![]
    } else {
        terminated(ls.drop_last()) + ls.last() + seq!['\n']
    }
}

/// Git-style conflict markers around our and their versions.
pub open spec fn conflict_marker(c: ConflictV) -> Seq<char> {
    "<<<<<<< ours\n"@ + terminated(c.ours) + "=======\n"@ + terminated(c.theirs) + ">>>>>>> theirs\n"@
}

fn push_terminated(s: &mut String, ls: &Vec<String>)
    ensures
        final(s)@ == old(s)@ + terminated(lines_view(ls@)),
{
    let ghost s0 = s@;
    let mut i: usize = 0;
    while i < ls.len()
        invariant
            i <= ls@.len(),
            s@ == s0 + terminated(lines_view(ls@).take(i as int)),
        decreases ls@.len() - i,
    {
        append_str(s, ls[i].as_str());
        crate::text::push_char(s, '\n');
        proof {
            let t = lines_view(ls@).take(i + 1);
            assert(t.drop_last() =~= lines_view(ls@).take(i as int));
            assert(s@ =~= s0 + terminated(t));
        }
        i += 1;
    }
    proof {
        assert(lines_view(ls@).take(ls@.len() as int) =~= lines_view(ls@));
    }
}

impl MergeConflict {
    /// The conflict in Git's marker format.
    pub fn to_conflict_marker(&self) -> (r: String)
        ensures
            r@ == conflict_marker(self@),
    {
        let mut buf = String::new();
        append_str(&mut buf, "<<<<<<< ours\n");
        push_terminated(&mut buf, &self.ours);
        append_str(&mut buf, "=======\n");
        push_terminated(&mut buf, &self.theirs);
        append_str(&mut buf, ">>>>>>> theirs\n");
        proof {
            assert(buf@ =~= conflict_marker(self@));
        }
        buf
    }
}

/// A change range: `base_len` lines of the base from `base_start` replaced by `new_lines`.
struct ChangeRange {
    base_start: u128,
    base_len: u128,
    new_lines: Vec<String>,
}

/// The view of a change range.
pub struct ChangeV {
    pub base_start: int,
    pub base_len: int,
    pub new_lines: Seq<Seq<char>>,
}

impl View for ChangeRange {
    type V = ChangeV;

    closed spec fn view(&self) -> ChangeV {
        ChangeV { base_start: self.base_start as int, base_len: self.base_len as int, new_lines: lines_view(self.new_lines@) }
    }
}

spec fn changes_view(cs: Seq<ChangeRange>) -> Seq<ChangeV> {
    Seq::new(cs.len(), |i: int| cs[i]@)
}

/// Change ranges whose positions stay far below the width of their fields.
spec fn bounded_changes(cs: Seq<ChangeRange>) -> bool {
    forall|i: int| 0 <= i < cs.len() ==> (#[trigger] cs[i]).base_start < 0x1_0000_0000_0000_0000_0000_0000_0 && cs[i].base_len < 0x1_0000_0000_0000_0000_0000_0000_0
}

/// Closes the open change, if any.
pub open spec fn flush(out: Seq<ChangeV>, start: Option<int>, len: int, lines: Seq<Seq<char>>) -> Seq<ChangeV> {
    match start {
        Some(st) => out.push(ChangeV { base_start: st, base_len: len, new_lines: lines }),
        None => out,
    }
}

/// Scans the operations `ops[k..]` of a hunk whose first old line is `offset`,
/// `cursor` old lines into it, with a change possibly open.
pub open spec fn scan_ops(
    ops: Seq<DiffOpV>,
    k: int,
    offset: int,
    cursor: int,
    start: Option<int>,
    len: int,
    lines: Seq<Seq<char>>,
    out: Seq<ChangeV>,
) -> Seq<ChangeV>
    decreases ops.len() - k,
{
    if k < 0 || k >= ops.len() {
        flush(out, start, len, lines)
    } else {
        let st = match start { Some(x) => x, None => offset + cursor };
        match ops[k] {
            DiffOpV::Equal { count } => scan_ops(
                ops, k + 1, offset, cursor + count, None, 0,
                if start is Some { seq![] } else { lines },
                flush(out, start, len, lines),
            ),
            DiffOpV::Insert { lines: nl, .. } => scan_ops(ops, k + 1, offset, cursor, Some(st), len, lines + nl, out),
            DiffOpV::Delete { count, .. } => scan_ops(ops, k + 1, offset, cursor + count, Some(st), len + count, lines, out),
            DiffOpV::Replace { old_count, lines: nl, .. } => scan_ops(
                ops, k + 1, offset, cursor + old_count, Some(st), len + old_count, lines + nl, out,
            ),
        }
    }
}

/// Whether some operation is not `Equal`.
pub open spec fn has_change(ops: Seq<DiffOpV>) -> bool {
    exists|i: int| 0 <= i < ops.len() && !(ops[i] is Equal)
}

/// The change ranges of the hunks `hs[k..]`, after `out`: the regions between
/// `Equal` operations, with their replacement lines.
pub open spec fn collect_from(hs: Seq<HunkV>, k: int, out: Seq<ChangeV>) -> Seq<ChangeV>
    decreases hs.len() - k,
{
    if k < 0 || k >= hs.len() {
        out
    } else if !has_change(hs[k].ops) {
        collect_from(hs, k + 1, out)
    } else {
        collect_from(hs, k + 1, scan_ops(hs[k].ops, 0, hunk_start(hs[k]), 0, None, 0, seq![], out))
    }
}

pub open spec fn collect_changes(hs: Seq<HunkV>) -> Seq<ChangeV> {
    collect_from(hs, 0, seq![])
}

fn clone_strings(v: &Vec<String>) -> (r: Vec<String>)
    ensures
        lines_view(r@) == lines_view(v@),
{
    let r = v.clone();
    proof {
        assert(r@ =~= v@);
    }
    r
}

fn append_lines(dst: &mut Vec<String>, src: &Vec<String>)
    ensures
        lines_view(final(dst)@) == lines_view(old(dst)@) + lines_view(src@),
{
    extend_all(dst, src);
}

/// Collects the change ranges of a diff (skipping `Equal` context).
fn collect_changes_from_diff(diff: &LineDiff, changes: &mut Vec<ChangeRange>)
    requires
        bounded_changes(old(changes)@),
    ensures
        changes_view(final(changes)@) == collect_from(diff@, 0, changes_view(old(changes)@)),
        bounded_changes(final(changes)@),
{
    let ghost hs = diff@;
    let ghost out0 = changes_view(changes@);
    let mut h: usize = 0;
    while h < diff.hunks.len()
        invariant
            hs == diff@,
            hs.len() == diff.hunks@.len(),
            h <= diff.hunks@.len(),
            collect_from(hs, 0, out0) == collect_from(hs, h as int, changes_view(changes@)),
            bounded_changes(changes@),
        decreases diff.hunks@.len() - h,
    {
        let hunk = &diff.hunks[h];
        let ghost ops = hunk@.ops;
        proof {
            assert(hs[h as int] == hunk@);
        }
        // Whether the hunk holds a change at all.
        let mut any = false;
        let mut q: usize = 0;
        while q < hunk.ops.len()
            invariant
                q <= hunk.ops@.len(),
                ops == hunk@.ops,
                ops.len() == hunk.ops@.len(),
                any == exists|i: int| 0 <= i < q && !(ops[i] is Equal),
            decreases hunk.ops@.len() - q,
        {
            let is_eq = match &hunk.ops[q] {
                DiffOp::Equal { .. } => true,
                _ => false,
            };
            proof {
                assert(ops[q as int] == hunk.ops@[q as int]@);
                assert(is_eq == (ops[q as int] is Equal));
            }
            let ghost any0 = any;
            if !is_eq {
                any = true;
            }
            proof {
                if !is_eq {
                    assert(0 <= q < q + 1 && !(ops[q as int] is Equal));
                } else if !any0 {
                    assert forall|i: int| 0 <= i < q + 1 implies ops[i] is Equal by {
                        if i < q {
                            assert(!(0 <= i < q && !(ops[i] is Equal)));
                        }
                    }
                }
            }
            q += 1;
        }
        if any {
            let offset: u128 = if hunk.old_start > 0 { (hunk.old_start - 1) as u128 } else { 0 };
            let mut cursor: u128 = 0;
            let mut cur_start: Option<u128> = None;
            let mut cur_len: u128 = 0;
            let mut cur_lines: Vec<String> = Vec::new();
            let ghost before = changes_view(changes@);
            let mut k: usize = 0;
            proof {
                assert(lines_view(cur_lines@) =~= Seq::<Seq<char>>::empty());
            }
            while k < hunk.ops.len()
                invariant
                    k <= hunk.ops@.len(),
                    ops == hunk@.ops,
                    ops.len() == hunk.ops@.len(),
                    offset == hunk_start(hunk@),
                    offset < 0x1_0000_0000,
                    cursor <= k * 0x1_0000_0000,
                    cur_len <= k * 0x1_0000_0000,
                    cur_start matches Some(x) ==> x <= offset + cursor,
                    k <= usize::MAX,
                    k * 0x1_0000_0000 < 0x1_0000_0000_0000_0000_0000_0000,
                    bounded_changes(changes@),
                    scan_ops(ops, 0, offset as int, 0, None, 0, seq![], before) == scan_ops(
                        ops, k as int, offset as int, cursor as int,
                        match cur_start { Some(x) => Some(x as int), None => None },
                        cur_len as int, lines_view(cur_lines@), changes_view(changes@),
                    ),
                decreases hunk.ops@.len() - k,
            {
                let st: u128 = match cur_start { Some(x) => x, None => offset + cursor };
                match &hunk.ops[k] {
                    DiffOp::Equal { count } => {
                        if let Some(x) = cur_start {
                            let mut taken: Vec<String> = Vec::new();
                            std::mem::swap(&mut taken, &mut cur_lines);
                            let ghost c0 = changes_view(changes@);
                            changes.push(ChangeRange { base_start: x, base_len: cur_len, new_lines: taken });
                            proof {
                                assert(changes_view(changes@) =~= c0.push(ChangeV { base_start: x as int, base_len: cur_len as int, new_lines: lines_view(taken@) }));
                                assert(lines_view(cur_lines@) =~= Seq::<Seq<char>>::empty());
                            }
                        }
                        cur_start = None;
                        cur_len = 0;
                        cursor = cursor + *count as u128;
                    },
                    DiffOp::Insert { lines, .. } => {
                        cur_start = Some(st);
                        append_lines(&mut cur_lines, lines);
                    },
                    DiffOp::Delete { count, .. } => {
                        cur_start = Some(st);
                        cur_len = cur_len + *count as u128;
                        cursor = cursor + *count as u128;
                    },
                    DiffOp::Replace { old_count, lines, .. } => {
                        cur_start = Some(st);
                        cur_len = cur_len + *old_count as u128;
                        cursor = cursor + *old_count as u128;
                        append_lines(&mut cur_lines, lines);
                    },
                }
                proof {
                    assert((k + 1) * 0x1_0000_0000 == k * 0x1_0000_0000 + 0x1_0000_0000) by (nonlinear_arith);
                    assert((k + 1) * 0x1_0000_0000 < 0x1_0000_0000_0000_0000_0000_0000) by (nonlinear_arith)
                        requires k + 1 < 0x1_0000_0000_0000_0000int;
                }
                k += 1;
            }
            if let Some(x) = cur_start {
                let ghost c0 = changes_view(changes@);
                changes.push(ChangeRange { base_start: x, base_len: cur_len, new_lines: cur_lines });
                proof {
                    assert(changes_view(changes@) =~= c0.push(ChangeV { base_start: x as int, base_len: cur_len as int, new_lines: lines_view(cur_lines@) }));
                }
            }
            proof {
                assert(has_change(ops));
            }
        } else {
            proof {
                assert(!has_change(ops));
            }
        }
        h += 1;
    }
}


// ---------------------------------------------------------------------------
// Merging two sets of changes over a base
// ---------------------------------------------------------------------------

/// The base lines `from..to` that the merge copies unchanged: none when
/// `to <= from`, the lines up to the end of the base when `to` lies past it,
/// and `None` (an out-of-range slice) when `from` lies past the end.
pub open spec fn unchanged_span(base: Seq<Seq<char>>, from: int, to: int) -> Option<Seq<Seq<char>>> {
    if to <= from {
        Some(seq![])
    } else if from > base.len() {
        None
    } else {
        Some(base.subrange(from, if to < base.len() { to } else { base.len() as int }))
    }
}

/// The merge of our changes `os[oi..]` and their changes `ts[ti..]` over the
/// base lines, at base line `pos`, after the output lines `out` and the
/// conflicts `cs`. Changes are taken in order of their start; two changes with
/// the same start are applied once when equal and otherwise give a conflict
/// that keeps our lines. `None` where a slice of the base would be out of range.
pub open spec fn merge_from(
    base: Seq<Seq<char>>,
    os: Seq<ChangeV>,
    ts: Seq<ChangeV>,
    oi: int,
    ti: int,
    pos: int,
    out: Seq<Seq<char>>,
    cs: Seq<ConflictV>,
) -> Option<(Seq<Seq<char>>, Seq<ConflictV>)>
    decreases os.len() - oi + ts.len() - ti,
{
    if oi < 0 || ti < 0 || oi > os.len() || ti > ts.len() {
        None
    } else if oi == os.len() && ti == ts.len() {
        Some((out + (if 0 <= pos < base.len() { base.subrange(pos, base.len() as int) } else { seq![] }), cs))
    } else if oi == os.len() || (ti < ts.len() && ts[ti].base_start < os[oi].base_start) {
        let c = ts[ti];
        match unchanged_span(base, pos, c.base_start) {
            None => None,
            Some(u) => merge_from(base, os, ts, oi, ti + 1, c.base_start + c.base_len, out + u + c.new_lines, cs),
        }
    } else if ti == ts.len() || os[oi].base_start < ts[ti].base_start {
        let c = os[oi];
        match unchanged_span(base, pos, c.base_start) {
            None => None,
            Some(u) => merge_from(base, os, ts, oi + 1, ti, c.base_start + c.base_len, out + u + c.new_lines, cs),
        }
    } else {
        let oc = os[oi];
        let tc = ts[ti];
        let oc_end = oc.base_start + oc.base_len;
        let tc_end = tc.base_start + tc.base_len;
        match unchanged_span(base, pos, oc.base_start) {
            None => None,
            Some(u) => if oc.base_len == tc.base_len && oc.new_lines == tc.new_lines {
                merge_from(base, os, ts, oi + 1, ti + 1, oc_end, out + u + oc.new_lines, cs)
            } else if oc.base_start < 0 || oc_end > base.len() {
                None
            } else {
                merge_from(
                    base, os, ts, oi + 1, ti + 1,
                    if oc_end >= tc_end { oc_end } else { tc_end },
                    out + u + oc.new_lines,
                    cs.push(ConflictV {
                        start_line: (out + u).len() as int,
                        base: base.subrange(oc.base_start, oc_end),
                        ours: oc.new_lines,
                        theirs: tc.new_lines,
                    }),
                )
            },
        }
    }
}

/// Copies the base lines `from..to` (see `unchanged_span`); `false` where the
/// slice would be out of range.
fn append_unchanged(out: &mut Vec<String>, base: &Vec<String>, from: u128, to: u128) -> (ok: bool)
    ensures
        ok == (unchanged_span(lines_view(base@), from as int, to as int) is Some),
        ok ==> lines_view(final(out)@) == lines_view(old(out)@) + unchanged_span(
            lines_view(base@), from as int, to as int,
        ).unwrap(),
{
    if to > from {
        let n = base.len();
        if from > n as u128 {
            return false;
        }
        let end: usize = if to < n as u128 { to as usize } else { n };
        extend_range(out, base, from as usize, end);
    } else {
        proof {
            assert(lines_view(out@) + seq![] =~= lines_view(out@));
        }
    }
    true
}

/// Whether two lists of lines are equal.
fn same_lines(a: &Vec<String>, b: &Vec<String>) -> (r: bool)
    ensures
        r == (lines_view(a@) == lines_view(b@)),
{
    if a.len() != b.len() {
        proof {
            assert(lines_view(a@).len() != lines_view(b@).len());
        }
        return false;
    }
    let mut i: usize = 0;
    while i < a.len()
        invariant
            i <= a@.len(),
            a@.len() == b@.len(),
            forall|j: int| 0 <= j < i ==> a@[j]@ == b@[j]@,
        decreases a@.len() - i,
    {
        if a[i] != b[i] {
            proof {
                assert(lines_view(a@)[i as int] != lines_view(b@)[i as int]);
            }
            return false;
        }
        i += 1;
    }
    proof {
        assert(lines_view(a@) =~= lines_view(b@));
    }
    true
}

/// Copies the base lines `from..to`, each as an owned string.
pub(crate) fn copy_range(base: &Vec<String>, from: usize, to: usize) -> (r: Vec<String>)
    requires
        from <= to <= base@.len(),
    ensures
        lines_view(r@) == lines_view(base@).subrange(from as int, to as int),
{
    let mut r: Vec<String> = Vec::new();
    extend_range(&mut r, base, from, to);
    proof {
        assert(lines_view(r@) =~= Seq::<Seq<char>>::empty() + lines_view(base@).subrange(from as int, to as int));
    }
    r
}

/// Merges our changes and their changes over the base lines; `None` where a
/// slice of the base would be out of range.
fn merge_changes(base: &Vec<String>, os: &Vec<ChangeRange>, ts: &Vec<ChangeRange>) -> (r: Option<(Vec<String>, Vec<MergeConflict>)>)
    requires
        bounded_changes(os@),
        bounded_changes(ts@),
    ensures
        match r {
            None => merge_from(lines_view(base@), changes_view(os@), changes_view(ts@), 0, 0, 0, seq![], seq![]) is None,
            Some((ls, cs)) => merge_from(lines_view(base@), changes_view(os@), changes_view(ts@), 0, 0, 0, seq![], seq![])
                == Some((lines_view(ls@), conflicts_view(cs@))),
        },
{
    let ghost bv = lines_view(base@);
    let ghost ov = changes_view(os@);
    let ghost tv = changes_view(ts@);
    let ghost goal = merge_from(bv, ov, tv, 0, 0, 0, seq![], seq![]);
    let mut out: Vec<String> = Vec::new();
    let mut cs: Vec<MergeConflict> = Vec::new();
    let mut pos: u128 = 0;
    let mut oi: usize = 0;
    let mut ti: usize = 0;
    proof {
        assert(lines_view(out@) =~= Seq::<Seq<char>>::empty());
        assert(conflicts_view(cs@) =~= Seq::<ConflictV>::empty());
    }
    while oi < os.len() || ti < ts.len()
        invariant
            bv == lines_view(base@),
            ov == changes_view(os@),
            tv == changes_view(ts@),
            bounded_changes(os@),
            bounded_changes(ts@),
            oi <= os@.len(),
            ti <= ts@.len(),
            pos < 0x1_0000_0000_0000_0000_0000_0000_00,
            goal == merge_from(bv, ov, tv, 0, 0, 0, seq![], seq![]),
            goal == merge_from(bv, ov, tv, oi as int, ti as int, pos as int, lines_view(out@), conflicts_view(cs@)),
        decreases os@.len() - oi + ts@.len() - ti,
    {
        let take_theirs = oi == os.len() || (ti < ts.len() && ts[ti].base_start < os[oi].base_start);
        let take_ours = !take_theirs && (ti == ts.len() || os[oi].base_start < ts[ti].base_start);
        if take_theirs {
            let c = &ts[ti];
            proof {
                assert(tv[ti as int] == c@);
                assert(c.base_start < 0x1_0000_0000_0000_0000_0000_0000_0);
            }
            let ghost out0 = lines_view(out@);
            if !append_unchanged(&mut out, base, pos, c.base_start) {
                proof {
                    assert(unchanged_span(bv, pos as int, tv[ti as int].base_start) is None);
                    assert(merge_from(bv, ov, tv, oi as int, ti as int, pos as int, out0, conflicts_view(cs@)) is None);
                }
                return None;
            }
            append_lines(&mut out, &c.new_lines);
            pos = c.base_start + c.base_len;
            ti += 1;
        } else if take_ours {
            let c = &os[oi];
            proof {
                assert(ov[oi as int] == c@);
                assert(c.base_start < 0x1_0000_0000_0000_0000_0000_0000_0);
            }
            let ghost out0 = lines_view(out@);
            if !append_unchanged(&mut out, base, pos, c.base_start) {
                proof {
                    assert(unchanged_span(bv, pos as int, ov[oi as int].base_start) is None);
                    assert(merge_from(bv, ov, tv, oi as int, ti as int, pos as int, out0, conflicts_view(cs@)) is None);
                }
                return None;
            }
            append_lines(&mut out, &c.new_lines);
            pos = c.base_start + c.base_len;
            oi += 1;
        } else {
            let oc = &os[oi];
            let tc = &ts[ti];
            proof {
                assert(ov[oi as int] == oc@);
                assert(tv[ti as int] == tc@);
                assert(oc.base_start < 0x1_0000_0000_0000_0000_0000_0000_0);
                assert(tc.base_start < 0x1_0000_0000_0000_0000_0000_0000_0);
            }
            if !append_unchanged(&mut out, base, pos, oc.base_start) {
                return None;
            }
            let oc_end = oc.base_start + oc.base_len;
            let tc_end = tc.base_start + tc.base_len;
            if oc.base_len == tc.base_len && same_lines(&oc.new_lines, &tc.new_lines) {
                append_lines(&mut out, &oc.new_lines);
                pos = oc_end;
            } else {
                if oc_end > base.len() as u128 {
                    return None;
                }
                let start_line = out.len();
                let ghost before = lines_view(out@);
                append_lines(&mut out, &oc.new_lines);
                pos = if oc_end >= tc_end { oc_end } else { tc_end };
                let conflict = MergeConflict {
                    start_line,
                    base: copy_range(base, oc.base_start as usize, oc_end as usize),
                    ours: clone_strings(&oc.new_lines),
                    theirs: clone_strings(&tc.new_lines),
                };
                let ghost c0 = conflicts_view(cs@);
                cs.push(conflict);
                proof {
                    assert(conflicts_view(cs@) =~= c0.push(conflict@));
                    assert(before.len() == start_line);
                }
            }
            oi += 1;
            ti += 1;
        }
    }
    let n = base.len();
    if pos < n as u128 {
        extend_range(&mut out, base, pos as usize, n);
    } else {
        proof {
            assert(lines_view(out@) + seq![] =~= lines_view(out@));
        }
    }
    Some((out, cs))
}


/// The three-way merge of `base` by the line diffs from it to our and to
/// their version: the merged lines joined with `'\n'` and the conflicts;
/// `None` where a slice of the base would be out of range.
pub open spec fn spec_merge(base: Seq<char>, ours: Seq<HunkV>, theirs: Seq<HunkV>) -> Option<(Seq<char>, Seq<ConflictV>)> {
    match merge_from(spec_lines(base), collect_changes(ours), collect_changes(theirs), 0, 0, 0, seq![], seq![]) {
        None => None,
        Some((ls, cs)) => Some((join_lines(ls), cs)),
    }
}

proof fn lemma_merge_theirs_only(
    base: Seq<Seq<char>>,
    os: Seq<ChangeV>,
    ts: Seq<ChangeV>,
    ti: int,
    pos: int,
    out: Seq<Seq<char>>,
    cs: Seq<ConflictV>,
)
    requires
        os.len() == 0,
        0 <= ti <= ts.len(),
    ensures
        merge_from(base, os, ts, 0, ti, pos, out, cs) matches Some((_, cs2)) ==> cs2 == cs,
    decreases ts.len() - ti,
{
    if ti < ts.len() {
        let c = ts[ti];
        match unchanged_span(base, pos, c.base_start) {
            None => {},
            Some(u) => lemma_merge_theirs_only(base, os, ts, ti + 1, c.base_start + c.base_len, out + u + c.new_lines, cs),
        }
    }
}

proof fn lemma_merge_ours_only(
    base: Seq<Seq<char>>,
    os: Seq<ChangeV>,
    ts: Seq<ChangeV>,
    oi: int,
    pos: int,
    out: Seq<Seq<char>>,
    cs: Seq<ConflictV>,
)
    requires
        ts.len() == 0,
        0 <= oi <= os.len(),
    ensures
        merge_from(base, os, ts, oi, 0, pos, out, cs) matches Some((_, cs2)) ==> cs2 == cs,
    decreases os.len() - oi,
{
    if oi < os.len() {
        let c = os[oi];
        match unchanged_span(base, pos, c.base_start) {
            None => {},
            Some(u) => lemma_merge_ours_only(base, os, ts, oi + 1, c.base_start + c.base_len, out + u + c.new_lines, cs),
        }
    }
}

/// A side without change never conflicts: merging by diffs one of which has
/// no hunk gives no conflict; when neither has a hunk, the merge is the base
/// text's lines, joined.
pub proof fn lemma_unchanged_side_no_conflict(base: Seq<char>, ours: Seq<HunkV>, theirs: Seq<HunkV>)
    requires
        ours.len() == 0 || theirs.len() == 0,
    ensures
        spec_merge(base, ours, theirs) matches Some((_, cs)) ==> cs.len() == 0,
        ours.len() == 0 && theirs.len() == 0 ==> spec_merge(base, ours, theirs) == Some((join_lines(spec_lines(base)), Seq::<ConflictV>::empty())),
{
    let os = collect_changes(ours);
    let ts = collect_changes(theirs);
    if ours.len() == 0 {
        assert(os == Seq::<ChangeV>::empty());
        lemma_merge_theirs_only(spec_lines(base), os, ts, 0, 0, seq![], seq![]);
    } else {
        assert(ts == Seq::<ChangeV>::empty());
        lemma_merge_ours_only(spec_lines(base), os, ts, 0, 0, seq![], seq![]);
    }
    if ours.len() == 0 && theirs.len() == 0 {
        let b = spec_lines(base);
        if b.len() > 0 {
            assert(Seq::<Seq<char>>::empty() + b.subrange(0, b.len() as int) =~= b);
        } else {
            assert(Seq::<Seq<char>>::empty() + Seq::<Seq<char>>::empty() =~= b);
        }
    }
}

/// Three texts without a lone carriage return (line endings `"\n"` or
/// `"\r\n"`), each of fewer than `u32::MAX` lines.
pub open spec fn plain_texts(base: Seq<char>, ours: Seq<char>, theirs: Seq<char>) -> bool {
    &&& no_lone_cr(base) && no_lone_cr(ours) && no_lone_cr(theirs)
    &&& spec_lines(base).len() < u32::MAX && spec_lines(ours).len() < u32::MAX && spec_lines(theirs).len() < u32::MAX
}

/// Whether the change regions of the two sides' line diffs lie apart.
pub open spec fn regions_apart(base: Seq<char>, ours: Seq<char>, theirs: Seq<char>) -> bool {
    changes_apart(collect_changes(spec_line_diff(base, ours)), collect_changes(spec_line_diff(base, theirs)))
}

/// For plain texts whose line diffs from the base describe the change to each
/// side: a side equal to the base leaves the other side's lines; regions that
/// lie apart merge without conflict; each side's regions give its lines.
proof fn lemma_plain_merge(base: Seq<char>, ours: Seq<char>, theirs: Seq<char>, d_ours: Seq<HunkV>, d_theirs: Seq<HunkV>)
    requires
        d_ours == spec_line_diff(base, ours),
        d_theirs == spec_line_diff(base, theirs),
        base == ours ==> d_ours.len() == 0,
        base == theirs ==> d_theirs.len() == 0,
        plain_texts(base, ours, theirs) ==> crate::engine::inverse::describes(spec_lines(base), d_ours)
            && crate::engine::inverse::hunks_out(spec_lines(base), d_ours, 0, 0) == spec_lines(ours),
        plain_texts(base, ours, theirs) ==> crate::engine::inverse::describes(spec_lines(base), d_theirs)
            && crate::engine::inverse::hunks_out(spec_lines(base), d_theirs, 0, 0) == spec_lines(theirs),
    ensures
        plain_texts(base, ours, theirs) && base == ours ==> spec_merge_texts(base, ours, theirs) == Some(
            (join_lines(spec_lines(theirs)), Seq::<ConflictV>::empty()),
        ),
        plain_texts(base, ours, theirs) && base == theirs ==> spec_merge_texts(base, ours, theirs) == Some(
            (join_lines(spec_lines(ours)), Seq::<ConflictV>::empty()),
        ),
        plain_texts(base, ours, theirs) ==> apply_changes(spec_lines(base), collect_changes(d_ours)) == spec_lines(ours)
            && apply_changes(spec_lines(base), collect_changes(d_theirs)) == spec_lines(theirs),
        plain_texts(base, ours, theirs) && regions_apart(base, ours, theirs) ==> spec_merge_texts(base, ours, theirs) == Some(
            (
                join_lines(apply_changes(spec_lines(base), interleave(collect_changes(d_ours), collect_changes(d_theirs)))),
                Seq::<ConflictV>::empty(),
            ),
        ),
{
    if plain_texts(base, ours, theirs) {
        if base == ours {
            assert(d_ours =~= Seq::<HunkV>::empty());
            lemma_merge_one_side(base, d_theirs);
        }
        if base == theirs {
            assert(d_theirs =~= Seq::<HunkV>::empty());
            lemma_merge_one_side(base, d_ours);
        }
        if changes_apart(collect_changes(d_ours), collect_changes(d_theirs)) {
            lemma_merge_apart(base, d_ours, d_theirs);
        } else {
            crate::engine::merge_laws::lemma_changes_apply(spec_lines(base), d_ours);
            crate::engine::merge_laws::lemma_changes_apply(spec_lines(base), d_theirs);
        }
    }
}

/// The three-way merge of three texts, by `diff_to_line_diff` of the base
/// against each side.
pub open spec fn spec_merge_texts(base: Seq<char>, ours: Seq<char>, theirs: Seq<char>) -> Option<(Seq<char>, Seq<ConflictV>)> {
    spec_merge(base, spec_line_diff(base, ours), spec_line_diff(base, theirs))
}

/// Merges `base` by the diffs from it to our and to their version.
///
/// The change regions of each diff (what lies between `Equal` operations) are
/// taken in order of their base position; regions changed on one side only are
/// applied, regions that both sides change from the same line are applied once
/// when both made the same change, and otherwise give a conflict that keeps
/// our lines. `None` where a base slice would be out of range.
pub fn merge_line_diffs(base: &str, ours: &LineDiff, theirs: &LineDiff) -> (r: Option<(String, Vec<MergeConflict>)>)
    ensures
        match spec_merge(base@, ours@, theirs@) {
            None => r is None,
            Some((t, cs)) => r matches Some((s, v)) && s@ == t && conflicts_view(v@) == cs,
        },
        r matches Some((s, v)) ==> exists|ls: Seq<Seq<char>>| #[trigger] join_lines(ls) == s@ && conflicts_placed(ls, conflicts_view(v@)),
{
    proof {
        lemma_merge_conflicts_placed(base@, ours@, theirs@);
    }
    let base_lines = split_lines(base);
    let mut our_changes: Vec<ChangeRange> = Vec::new();
    let mut their_changes: Vec<ChangeRange> = Vec::new();
    proof {
        assert(changes_view(our_changes@) =~= Seq::<ChangeV>::empty());
        assert(changes_view(their_changes@) =~= Seq::<ChangeV>::empty());
    }
    collect_changes_from_diff(ours, &mut our_changes);
    collect_changes_from_diff(theirs, &mut their_changes);
    match merge_changes(&base_lines, &our_changes, &their_changes) {
        None => None,
        Some((ls, cs)) => Some((join_with_newline(&ls), cs)),
    }
}

/// Three-way text merge.
///
/// Diffs the base against each side with `diff_to_line_diff` and merges by
/// both diffs (see `merge_line_diffs`). Returns the merged text and the
/// conflicts, each of which keeps our lines in the text.
pub fn merge_texts(base: &str, ours: &str, theirs: &str) -> (r: (String, Vec<MergeConflict>))
    requires
        spec_merge_texts(base@, ours@, theirs@) is Some,
    ensures
        spec_merge_texts(base@, ours@, theirs@) == Some((r.0@, conflicts_view(r.1@))),
        exists|ls: Seq<Seq<char>>| #[trigger] join_lines(ls) == r.0@ && conflicts_placed(ls, conflicts_view(r.1@)),
        base@ == ours@ || base@ == theirs@ ==> r.1@.len() == 0,
        base@ == ours@ && base@ == theirs@ ==> r.0@ == join_lines(spec_lines(base@)),
        plain_texts(base@, ours@, theirs@) && base@ == ours@ ==> r.0@ == join_lines(spec_lines(theirs@)),
        plain_texts(base@, ours@, theirs@) && base@ == theirs@ ==> r.0@ == join_lines(spec_lines(ours@)),
        plain_texts(base@, ours@, theirs@) ==> apply_changes(spec_lines(base@), collect_changes(spec_line_diff(base@, ours@)))
            == spec_lines(ours@) && apply_changes(spec_lines(base@), collect_changes(spec_line_diff(base@, theirs@)))
            == spec_lines(theirs@),
        plain_texts(base@, ours@, theirs@) && regions_apart(base@, ours@, theirs@) ==> r.1@.len() == 0 && r.0@ == join_lines(
            apply_changes(
                spec_lines(base@),
                interleave(collect_changes(spec_line_diff(base@, ours@)), collect_changes(spec_line_diff(base@, theirs@))),
            ),
        ),
{
    let diff_ours = diff_to_line_diff(base, ours);
    let diff_theirs = diff_to_line_diff(base, theirs);
    proof {
        if base@ == ours@ || base@ == theirs@ {
            lemma_unchanged_side_no_conflict(base@, diff_ours@, diff_theirs@);
        }
        lemma_plain_merge(base@, ours@, theirs@, diff_ours@, diff_theirs@);
    }
    match merge_line_diffs(base, &diff_ours, &diff_theirs) {
        Some(r) => {
            proof {
                assert(conflicts_view(r.1@).len() == r.1@.len());
            }
            r
        },
        None => {
            proof {
                assert(false);
            }
            (String::new(), Vec::new())
        },
    }
}

/// Three-way text merge, or `None` where the diffs name a base region that
/// does not exist.
pub fn try_merge_texts(base: &str, ours: &str, theirs: &str) -> (r: Option<(String, Vec<MergeConflict>)>)
    ensures
        match spec_merge_texts(base@, ours@, theirs@) {
            None => r is None,
            Some((t, cs)) => r matches Some((s, v)) && s@ == t && conflicts_view(v@) == cs,
        },
        base@ == ours@ || base@ == theirs@ ==> (r matches Some((_, v)) ==> v@.len() == 0),
        base@ == ours@ && base@ == theirs@ ==> (r matches Some((t, v)) && t@ == join_lines(spec_lines(base@)) && v@.len() == 0),
        plain_texts(base@, ours@, theirs@) && base@ == ours@ ==> (r matches Some((t, v)) && t@ == join_lines(spec_lines(theirs@))
            && v@.len() == 0),
        plain_texts(base@, ours@, theirs@) && base@ == theirs@ ==> (r matches Some((t, v)) && t@ == join_lines(spec_lines(ours@))
            && v@.len() == 0),
        plain_texts(base@, ours@, theirs@) && regions_apart(base@, ours@, theirs@) ==> (r matches Some((t, v)) && v@.len() == 0
            && t@ == join_lines(
            apply_changes(
                spec_lines(base@),
                interleave(collect_changes(spec_line_diff(base@, ours@)), collect_changes(spec_line_diff(base@, theirs@))),
            ),
        )),
{
    let diff_ours = diff_to_line_diff(base, ours);
    let diff_theirs = diff_to_line_diff(base, theirs);
    proof {
        if base@ == ours@ || base@ == theirs@ {
            lemma_unchanged_side_no_conflict(base@, diff_ours@, diff_theirs@);
        }
        lemma_plain_merge(base@, ours@, theirs@, diff_ours@, diff_theirs@);
    }
    if merge_line_diffs(base, &diff_ours, &diff_theirs).is_some() {
        Some(merge_texts(base, ours, theirs))
    } else {
        None
    }
}

} // verus!
