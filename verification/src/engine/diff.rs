//! Diff engine: line-level diffs computed by `similar` and converted into the
//! library's hunk representation.

use crate::model::delta::{Delta, LineDiff};
use crate::model::file_node::FileNode;
use crate::model::types::{DiffOp, DiffOpV, Hunk, HunkV, SourceType, hunks_view, ops_view};
use crate::engine::line_ops::{line_changes, tagged_view, all_line_changes, RawOp, line_ops_grouped, line_tokens, unified_text, unified_hunks, raw_op_ordered, raw_ops_contiguous, grouped_line_ops, op_fits, groups_fit, tokenize_lines, lemma_line_tokens_are_lines, no_lone_cr, unified_diff_whole, unified_diff_hunks};
use crate::engine::inverse::{describes, hunks_out, hunks_track, ops_out, ops_track};
use crate::engine::merge::{apply_diff, hunk_start, Applied};
use crate::text::{lines_view, spec_lines, string_of_chars, chars_of};
use vstd::prelude::*;
use vstd::string::StringSliceAdditionalSpecFns;

verus! {

broadcast use vstd::string::group_string_axioms;

// ---------------------------------------------------------------------------
// Conversion to hunks
// ---------------------------------------------------------------------------

/// A text with all trailing `'\n'` and `'\r'` removed.
pub open spec fn trim_line_end(s: Seq<char>) -> Seq<char>
    decreases s.len(),
{
    if s.len() > 0 && (s.last() == '\n' || s.last() == '\r') {
        trim_line_end(s.drop_last())
    } else {
        s
    }
}

/// Removes trailing line terminators.
pub fn strip_newline(s: &str) -> (r: String)
    ensures
        r@ == trim_line_end(s@),
{
    let cs = chars_of(s);
    let mut end = cs.len();
    proof {
        assert(s@.take(end as int) =~= s@);
    }
    while end > 0 && (cs[end - 1] == '\n' || cs[end - 1] == '\r')
        invariant
            end <= cs@.len(),
            cs@ == s@,
            trim_line_end(s@) == trim_line_end(s@.take(end as int)),
        decreases end,
    {
        proof {
            assert(s@.take(end as int).drop_last() =~= s@.take(end - 1));
        }
        end -= 1;
    }
    proof {
        let t = s@.take(end as int);
        if end > 0 {
            assert(t.last() == s@[end - 1]);
        }
        assert(trim_line_end(t) == t);
    }
    string_of_chars(vstd::slice::slice_subrange(&cs, 0, end))
}

/// The lines `tokens[from..to]` with their terminators removed.
pub open spec fn stripped_range(tokens: Seq<Seq<char>>, from: int, to: int) -> Seq<Seq<char>> {
    Seq::new((to - from) as nat, |i: int| trim_line_end(tokens[from + i]))
}

/// A 0-based index as a 1-based `u32` position (wrapping like `as u32 + 1` in
/// an optimised build).
pub open spec fn one_based(x: usize) -> u32 {
    if (x as u32) < u32::MAX { ((x as u32) + 1) as u32 } else { 0 }
}

fn to_one_based(x: usize) -> (r: u32)
    ensures
        r == one_based(x),
{
    let y = x as u32;
    if y < u32::MAX { y + 1 } else { 0 }
}

/// The diff operation for one `similar` operation; `new_tokens` are the line
/// tokens of the new text.
pub open spec fn raw_to_op(o: RawOp, new_tokens: Seq<Seq<char>>) -> DiffOpV {
    if o.tag == 0 {
        DiffOpV::Equal { count: (o.old_end - o.old_start) as u32 }
    } else if o.tag == 1 {
        DiffOpV::Delete { old_start: one_based(o.old_start), count: (o.old_end - o.old_start) as u32 }
    } else if o.tag == 2 {
        DiffOpV::Insert {
            new_start: one_based(o.new_start),
            lines: stripped_range(new_tokens, o.new_start as int, o.new_end as int),
        }
    } else {
        DiffOpV::Replace {
            old_start: one_based(o.old_start),
            old_count: (o.old_end - o.old_start) as u32,
            new_start: one_based(o.new_start),
            lines: stripped_range(new_tokens, o.new_start as int, o.new_end as int),
        }
    }
}

/// The hunk for one group of `similar` operations.
pub open spec fn group_to_hunk(g: Seq<RawOp>, new_tokens: Seq<Seq<char>>) -> HunkV {
    HunkV {
        old_start: one_based(g[0].old_start),
        old_len: (g.last().old_end - g[0].old_start) as u32,
        new_start: one_based(g[0].new_start),
        new_len: (g.last().new_end - g[0].new_start) as u32,
        ops: Seq::new(g.len(), |i: int| raw_to_op(g[i], new_tokens)),
    }
}

/// The line diff of two texts: `similar`'s grouped operations (three lines of
/// context) as hunks with 1-based positions.
pub open spec fn spec_line_diff(old: Seq<char>, new: Seq<char>) -> Seq<HunkV> {
    let gs = line_ops_grouped(old, new, 3);
    let toks = line_tokens(new);
    Seq::new(gs.len(), |i: int| group_to_hunk(gs[i], toks))
}

fn stripped_lines(tokens: &Vec<String>, from: usize, to: usize) -> (r: Vec<String>)
    requires
        from <= to <= tokens@.len(),
    ensures
        lines_view(r@) == stripped_range(lines_view(tokens@), from as int, to as int),
{
    let mut r: Vec<String> = Vec::new();
    let mut i = from;
    while i < to
        invariant
            from <= i <= to <= tokens@.len(),
            r@.len() == i - from,
            forall|j: int| 0 <= j < r@.len() ==> #[trigger] r@[j]@ == trim_line_end(tokens@[from + j]@),
        decreases to - i,
    {
        let t = strip_newline(tokens[i].as_str());
        r.push(t);
        i += 1;
    }
    proof {
        assert(lines_view(r@) =~= stripped_range(lines_view(tokens@), from as int, to as int));
    }
    r
}

fn convert_op(o: &RawOp, new_tokens: &Vec<String>) -> (r: DiffOp)
    requires
        raw_op_ordered(*o),
        o.new_end <= new_tokens@.len(),
    ensures
        r@ == raw_to_op(*o, lines_view(new_tokens@)),
{
    let count = (o.old_end - o.old_start) as u32;
    if o.tag == 0 {
        DiffOp::Equal { count }
    } else if o.tag == 1 {
        DiffOp::Delete { old_start: to_one_based(o.old_start), count }
    } else if o.tag == 2 {
        DiffOp::Insert {
            new_start: to_one_based(o.new_start),
            lines: stripped_lines(new_tokens, o.new_start, o.new_end),
        }
    } else {
        DiffOp::Replace {
            old_start: to_one_based(o.old_start),
            old_count: count,
            new_start: to_one_based(o.new_start),
            lines: stripped_lines(new_tokens, o.new_start, o.new_end),
        }
    }
}

/// The line-level diff of two texts.
///
/// `similar::TextDiff::from_lines` diffs the texts line by line; its operations
/// are grouped with three lines of context, each group becoming a hunk.
/// Positions are 1-based; inserted lines carry no terminator.
pub fn diff_to_line_diff(old: &str, new: &str) -> (r: LineDiff)
    ensures
        r@ == spec_line_diff(old@, new@),
        old@ == new@ ==> r@.len() == 0,
        no_lone_cr(old@) && no_lone_cr(new@) && spec_lines(old@).len() < u32::MAX && spec_lines(new@).len() < u32::MAX
            ==> apply_diff(spec_lines(old@), r@) == Applied::Done(spec_lines(new@)) && describes(spec_lines(old@), r@)
            && hunks_out(spec_lines(old@), r@, 0, 0) == spec_lines(new@),
{
    let groups = grouped_line_ops(old, new, 3);
    let toks = tokenize_lines(new);
    let r = groups_to_line_diff(&groups, &toks);
    proof {
        assert(Seq::new(groups@.len(), |i: int| group_to_hunk(groups@[i]@, lines_view(toks@))) =~= spec_line_diff(old@, new@));
        if no_lone_cr(old@) && no_lone_cr(new@) && spec_lines(old@).len() < u32::MAX && spec_lines(new@).len() < u32::MAX {
            lemma_line_tokens_are_lines(old@);
            lemma_line_tokens_are_lines(new@);
            assert(token_lines(line_tokens(old@)).len() == line_tokens(old@).len());
            assert(token_lines(line_tokens(new@)).len() == line_tokens(new@).len());
            lemma_diff_then_apply(old@, new@);
        }
    }
    r
}

/// The line diff for groups of `similar` operations: each group becomes a
/// hunk (see `group_to_hunk`), `new_tokens` being the new text's line tokens.
pub fn groups_to_line_diff(groups: &Vec<Vec<RawOp>>, new_tokens: &Vec<String>) -> (r: LineDiff)
    requires
        forall|i: int| 0 <= i < groups@.len() ==> (#[trigger] groups@[i])@.len() > 0,
        forall|i: int| 0 <= i < groups@.len() ==> raw_ops_contiguous((#[trigger] groups@[i])@),
        forall|i: int, j: int| 0 <= i < groups@.len() && 0 <= j < groups@[i]@.len() ==> raw_op_ordered(#[trigger] groups@[i]@[j])
            && groups@[i]@[j].new_end <= new_tokens@.len(),
    ensures
        r@ == Seq::new(groups@.len(), |i: int| group_to_hunk(groups@[i]@, lines_view(new_tokens@))),
{
    let toks = new_tokens;
    let ghost tv = lines_view(toks@);
    let mut hunks: Vec<Hunk> = Vec::new();
    let mut gi: usize = 0;
    while gi < groups.len()
        invariant
            gi <= groups@.len(),
            tv == lines_view(toks@),
            forall|i: int| 0 <= i < groups@.len() ==> (#[trigger] groups@[i])@.len() > 0,
            forall|i: int| 0 <= i < groups@.len() ==> raw_ops_contiguous((#[trigger] groups@[i])@),
            forall|i: int, j: int| 0 <= i < groups@.len() && 0 <= j < groups@[i]@.len() ==> raw_op_ordered(#[trigger] groups@[i]@[j])
                && groups@[i]@[j].new_end <= tv.len(),
            hunks@.len() == gi,
            forall|i: int| 0 <= i < gi ==> (#[trigger] hunks@[i])@ == group_to_hunk(groups@[i]@, tv),
        decreases groups@.len() - gi,
    {
        let g = &groups[gi];
        let ghost gv = g@;
        proof {
            assert(gv == groups@[gi as int]@);
            assert(gv.len() > 0);
            assert(raw_ops_contiguous(gv));
        }
        let first = g[0];
        let last = g[g.len() - 1];
        proof {
            lemma_contiguous_span(gv);
        }
        let mut ops: Vec<DiffOp> = Vec::new();
        let mut k: usize = 0;
        while k < g.len()
            invariant
                k <= g@.len(),
                gv == g@,
                tv == lines_view(toks@),
                forall|j: int| 0 <= j < gv.len() ==> raw_op_ordered(#[trigger] gv[j]) && gv[j].new_end <= tv.len(),
                ops@.len() == k,
                forall|j: int| 0 <= j < k ==> (#[trigger] ops@[j])@ == raw_to_op(gv[j], tv),
            decreases g@.len() - k,
        {
            proof {
                assert(raw_op_ordered(gv[k as int]));
            }
            let op = convert_op(&g[k], &toks);
            ops.push(op);
            k += 1;
        }
        let hunk = Hunk {
            old_start: to_one_based(first.old_start),
            old_len: (last.old_end - first.old_start) as u32,
            new_start: to_one_based(first.new_start),
            new_len: (last.new_end - first.new_start) as u32,
            ops,
        };
        proof {
            assert(ops_view(hunk.ops@) =~= Seq::new(gv.len(), |i: int| raw_to_op(gv[i], tv)));
            assert(hunk@ == group_to_hunk(gv, tv));
        }
        hunks.push(hunk);
        gi += 1;
    }
    let r = LineDiff { hunks };
    proof {
        assert(r@ =~= Seq::new(groups@.len(), |i: int| group_to_hunk(groups@[i]@, tv)));
    }
    r
}


proof fn lemma_contiguous_span(g: Seq<RawOp>)
    requires
        g.len() > 0,
        raw_ops_contiguous(g),
        forall|j: int| 0 <= j < g.len() ==> raw_op_ordered(#[trigger] g[j]),
    ensures
        g[0].old_start <= g.last().old_end,
        g[0].new_start <= g.last().new_end,
    decreases g.len(),
{
    if g.len() > 1 {
        let p = g.drop_last();
        assert(raw_ops_contiguous(p)) by {
            assert forall|i: int| 0 < i < p.len() implies p[i - 1].old_end == #[trigger] p[i].old_start
                && p[i - 1].new_end == p[i].new_start by {
                assert(g[i - 1].old_end == g[i].old_start);
            }
        }
        lemma_contiguous_span(p);
        let i = g.len() - 1;
        assert(g[i - 1].old_end == g[i].old_start);
        assert(raw_op_ordered(g[g.len() - 1]));
        assert(raw_op_ordered(g[g.len() - 2]));
    } else {
        assert(raw_op_ordered(g[0]));
    }
}

/// The unified diff text of two texts with `context` lines of context.
///
/// Texts of more than 50 000 bytes on either side are rendered hunk by hunk and
/// the hunks concatenated; smaller ones are rendered in one piece. The
/// context is at most half of `usize::MAX` (`similar` doubles it).
pub fn format_unified_diff(old: &str, new: &str, context: usize) -> (r: String)
    requires
        context <= usize::MAX / 2,
    ensures
        (old.len() > 50000 || new.len() > 50000) ==> r@ == crate::text::concat_all(
            unified_hunks(old@, new@, context),
        ),
        !(old.len() > 50000 || new.len() > 50000) ==> r@ == unified_text(old@, new@, context),
{
    if old.len() > 50000 || new.len() > 50000 {
        let hunks = unified_diff_hunks(old, new, context);
        crate::text::concat_strings(&hunks)
    } else {
        unified_diff_whole(old, new, context)
    }
}

// ---------------------------------------------------------------------------
// A delta from the full list of line changes
// ---------------------------------------------------------------------------

/// Old lines covered by a list of operations (`u32` arithmetic, wrapping).
pub open spec fn ops_old_len(ops: Seq<DiffOpV>) -> u32
    decreases ops.len(),
{
    if ops.len() == 0 {
        0
    } else {
        let p = ops_old_len(ops.drop_last());
        match ops.last() {
            DiffOpV::Equal { count } => p.wrapping_add(count),
            DiffOpV::Delete { count, .. } => p.wrapping_add(count),
            DiffOpV::Insert { .. } => p,
            DiffOpV::Replace { old_count, .. } => p.wrapping_add(old_count),
        }
    }
}

/// New lines produced by a list of operations (`u32` arithmetic, wrapping).
pub open spec fn ops_new_len(ops: Seq<DiffOpV>) -> u32
    decreases ops.len(),
{
    if ops.len() == 0 {
        0
    } else {
        let p = ops_new_len(ops.drop_last());
        match ops.last() {
            DiffOpV::Equal { count } => p.wrapping_add(count),
            DiffOpV::Delete { .. } => p,
            DiffOpV::Insert { lines, .. } => p.wrapping_add(lines.len() as u32),
            DiffOpV::Replace { lines, .. } => p.wrapping_add(lines.len() as u32),
        }
    }
}

/// The hunk that closes a run of changes once `old_pos` old lines and
/// `new_pos` new lines have been passed: its positions are the last line
/// passed on each side.
pub open spec fn run_hunk(old_pos: int, new_pos: int, ops: Seq<DiffOpV>) -> HunkV {
    HunkV {
        old_start: (if old_pos > 0 { old_pos - 1 } else { 0 }) as u32,
        old_len: ops_old_len(ops),
        new_start: (if new_pos > 0 { new_pos - 1 } else { 0 }) as u32,
        new_len: ops_new_len(ops),
        ops,
    }
}

/// Closes the current run of changes, if it holds any.
pub open spec fn close_run(hs: Seq<HunkV>, old_pos: int, new_pos: int, cur: Seq<DiffOpV>) -> Seq<HunkV> {
    if cur.len() > 0 { hs.push(run_hunk(old_pos, new_pos, cur)) } else { hs }
}

/// The hunks built from the line changes `cs[i..]`: each maximal run of
/// deleted and inserted lines becomes a hunk of one-line operations.
pub open spec fn scan_changes(
    cs: Seq<(u8, Seq<char>)>,
    i: int,
    old_pos: int,
    new_pos: int,
    cur: Seq<DiffOpV>,
    hs: Seq<HunkV>,
) -> Seq<HunkV>
    decreases cs.len() - i,
{
    if i < 0 || i >= cs.len() {
        close_run(hs, old_pos, new_pos, cur)
    } else if cs[i].0 == 0 {
        scan_changes(cs, i + 1, old_pos + 1, new_pos + 1, seq![], close_run(hs, old_pos, new_pos, cur))
    } else if cs[i].0 == 1 {
        scan_changes(cs, i + 1, old_pos + 1, new_pos, cur.push(DiffOpV::Delete { old_start: one_based(old_pos as usize), count: 1 }), hs)
    } else {
        scan_changes(cs, i + 1, old_pos, new_pos + 1, cur.push(DiffOpV::Insert { new_start: one_based(new_pos as usize), lines: seq![cs[i].1] }), hs)
    }
}

fn old_len_of(ops: &Vec<DiffOp>) -> (r: u32)
    ensures
        r == ops_old_len(ops_view(ops@)),
{
    let mut n: u32 = 0;
    let mut i: usize = 0;
    while i < ops.len()
        invariant
            i <= ops@.len(),
            n == ops_old_len(ops_view(ops@).take(i as int)),
        decreases ops@.len() - i,
    {
        proof {
            let t = ops_view(ops@).take(i + 1);
            assert(t.drop_last() =~= ops_view(ops@).take(i as int));
            assert(t.last() == ops@[i as int]@);
        }
        match &ops[i] {
            DiffOp::Equal { count } => n = n.wrapping_add(*count),
            DiffOp::Delete { count, .. } => n = n.wrapping_add(*count),
            DiffOp::Insert { .. } => {},
            DiffOp::Replace { old_count, .. } => n = n.wrapping_add(*old_count),
        }
        i += 1;
    }
    proof {
        assert(ops_view(ops@).take(ops@.len() as int) =~= ops_view(ops@));
    }
    n
}

fn new_len_of(ops: &Vec<DiffOp>) -> (r: u32)
    ensures
        r == ops_new_len(ops_view(ops@)),
{
    let mut n: u32 = 0;
    let mut i: usize = 0;
    while i < ops.len()
        invariant
            i <= ops@.len(),
            n == ops_new_len(ops_view(ops@).take(i as int)),
        decreases ops@.len() - i,
    {
        proof {
            let t = ops_view(ops@).take(i + 1);
            assert(t.drop_last() =~= ops_view(ops@).take(i as int));
            assert(t.last() == ops@[i as int]@);
        }
        match &ops[i] {
            DiffOp::Equal { count } => n = n.wrapping_add(*count),
            DiffOp::Delete { .. } => {},
            DiffOp::Insert { lines, .. } => n = n.wrapping_add(lines.len() as u32),
            DiffOp::Replace { lines, .. } => n = n.wrapping_add(lines.len() as u32),
        }
        i += 1;
    }
    proof {
        assert(ops_view(ops@).take(ops@.len() as int) =~= ops_view(ops@));
    }
    n
}

/// Closes the current run into a hunk, if it holds any operation.
fn close_current(hunks: &mut Vec<Hunk>, old_pos: usize, new_pos: usize, cur: &mut Vec<DiffOp>)
    ensures
        hunks_view(final(hunks)@) == close_run(hunks_view(old(hunks)@), old_pos as int, new_pos as int, ops_view(old(cur)@)),
        final(cur)@.len() == 0,
{
    if cur.len() > 0 {
        let mut ops: Vec<DiffOp> = Vec::new();
        std::mem::swap(&mut ops, cur);
        let old_len = old_len_of(&ops);
        let new_len = new_len_of(&ops);
        let old_start = (if old_pos > 0 { old_pos - 1 } else { 0 }) as u32;
        let new_start = (if new_pos > 0 { new_pos - 1 } else { 0 }) as u32;
        let ghost h0 = hunks_view(hunks@);
        let h = Hunk { old_start, old_len, new_start, new_len, ops };
        hunks.push(h);
        proof {
            assert(hunks_view(hunks@) =~= h0.push(h@));
        }
    }
}

/// The line diff built from a full list of line changes (kind 0 equal,
/// 1 delete, otherwise insert; each with its line): every maximal run of
/// deleted and inserted lines becomes a hunk of one-line operations, placed at
/// the last old and new line passed when the run ends.
pub fn line_diff_from_changes(changes: &Vec<(u8, String)>) -> (r: LineDiff)
    requires
        changes@.len() < usize::MAX,
    ensures
        r@ == scan_changes(tagged_view(changes@), 0, 0, 0, seq![], seq![]),
{
    let ghost cs = tagged_view(changes@);
    let mut hunks: Vec<Hunk> = Vec::new();
    let mut cur: Vec<DiffOp> = Vec::new();
    let mut old_pos: usize = 0;
    let mut new_pos: usize = 0;
    let mut i: usize = 0;
    proof {
        assert(hunks_view(hunks@) =~= Seq::<HunkV>::empty());
        assert(ops_view(cur@) =~= Seq::<DiffOpV>::empty());
    }
    while i < changes.len()
        invariant
            cs == tagged_view(changes@),
            changes@.len() < usize::MAX,
            i <= changes@.len(),
            old_pos <= i,
            new_pos <= i,
            scan_changes(cs, 0, 0, 0, seq![], seq![]) == scan_changes(
                cs, i as int, old_pos as int, new_pos as int, ops_view(cur@), hunks_view(hunks@),
            ),
        decreases changes@.len() - i,
    {
        let tag = changes[i].0;
        proof {
            assert(cs[i as int].0 == tag);
        }
        if tag == 0 {
            close_current(&mut hunks, old_pos, new_pos, &mut cur);
            proof {
                assert(ops_view(cur@) =~= Seq::<DiffOpV>::empty());
            }
            old_pos += 1;
            new_pos += 1;
        } else if tag == 1 {
            let ghost c0 = ops_view(cur@);
            let op = DiffOp::Delete { old_start: to_one_based(old_pos), count: 1 };
            cur.push(op);
            proof {
                assert(ops_view(cur@) =~= c0.push(op@));
            }
            old_pos += 1;
        } else {
            let ghost c0 = ops_view(cur@);
            let line = changes[i].1.clone();
            let mut lines: Vec<String> = Vec::new();
            lines.push(line);
            let op = DiffOp::Insert { new_start: to_one_based(new_pos), lines };
            proof {
                assert(lines_view(lines@) =~= seq![cs[i as int].1]);
            }
            cur.push(op);
            proof {
                assert(ops_view(cur@) =~= c0.push(op@));
            }
            new_pos += 1;
        }
        i += 1;
    }
    close_current(&mut hunks, old_pos, new_pos, &mut cur);
    LineDiff { hunks }
}

/// A delta of the file at `path` (with `old_content`) built from `similar`'s
/// full list of line changes between `old` and `new` (see
/// `line_diff_from_changes`).
pub fn collect_changes_from_diff(old: &str, new: &str, path: String, old_content: &[u8], source_type: SourceType) -> (r: Option<Delta>)
    ensures
        r is Some <==> line_changes(old@, new@).len() < usize::MAX,
        r matches Some(d) ==> {
            &&& d.diff@ == scan_changes(line_changes(old@, new@), 0, 0, 0, seq![], seq![])
            &&& d.file.file_path@ == path@
            &&& d.file.base_hash@ == crate::model::types::blake3_digest(old_content@)
            &&& d.source@ == source_type@
        },
{
    let changes = all_line_changes(old, new);
    if changes.len() == usize::MAX {
        return None;
    }
    let diff = line_diff_from_changes(&changes);
    let file = FileNode::new(path, old_content);
    Some(Delta::new(file, diff, source_type))
}


// ---------------------------------------------------------------------------
// Diffing then applying
// ---------------------------------------------------------------------------

/// Each token with its line terminators removed.
pub open spec fn token_lines(ts: Seq<Seq<char>>) -> Seq<Seq<char>> {
    Seq::new(ts.len(), |i: int| trim_line_end(ts[i]))
}

proof fn lemma_token_lines_range(ot: Seq<Seq<char>>, nt: Seq<Seq<char>>, a: int, b: int, c: int, d: int)
    requires
        0 <= a <= b <= ot.len(),
        0 <= c <= d <= nt.len(),
        ot.subrange(a, b) == nt.subrange(c, d),
    ensures
        token_lines(ot).subrange(a, b) == token_lines(nt).subrange(c, d),
{
    assert(ot.subrange(a, b).len() == b - a);
    assert forall|i: int| 0 <= i < b - a implies token_lines(ot).subrange(a, b)[i] == token_lines(nt).subrange(c, d)[i] by {
        assert(ot.subrange(a, b)[i] == nt.subrange(c, d)[i]);
    }
    assert(token_lines(ot).subrange(a, b) =~= token_lines(nt).subrange(c, d));
}

proof fn lemma_group_ops(g: Seq<RawOp>, ot: Seq<Seq<char>>, nt: Seq<Seq<char>>, ops: Seq<DiffOpV>, j: int)
    requires
        g.len() > 0,
        0 <= j <= g.len(),
        raw_ops_contiguous(g),
        forall|i: int| 0 <= i < g.len() ==> op_fits(#[trigger] g[i], ot, nt),
        ot.len() < u32::MAX,
        nt.len() < u32::MAX,
        ops == Seq::new(g.len(), |i: int| raw_to_op(g[i], nt)),
    ensures
        ({
            let o = if j < g.len() { g[j].old_start as int } else { g.last().old_end as int };
            let n = if j < g.len() { g[j].new_start as int } else { g.last().new_end as int };
            &&& ops_track(ops, j, o, n) == Some((g.last().old_end as int, g.last().new_end as int))
            &&& ops_out(token_lines(ot), ops, j, o) == token_lines(nt).subrange(n, g.last().new_end as int)
        }),
    decreases g.len() - j,
{
    let ol = token_lines(ot);
    let nl = token_lines(nt);
    let e = g.last().new_end as int;
    if j < g.len() {
        lemma_group_ops(g, ot, nt, ops, j + 1);
        let op = g[j];
        assert(op_fits(op, ot, nt));
        let o = op.old_start as int;
        let n = op.new_start as int;
        let o2 = if j + 1 < g.len() { g[j + 1].old_start as int } else { g.last().old_end as int };
        let n2 = if j + 1 < g.len() { g[j + 1].new_start as int } else { g.last().new_end as int };
        if j + 1 < g.len() {
            assert(g[j].old_end == g[j + 1].old_start);
            assert(g[j].new_end == g[j + 1].new_start);
        }
        assert(o2 == op.old_end && n2 == op.new_end);
        assert forall|x: int| 0 <= x < g.len() implies raw_op_ordered(#[trigger] g[x]) by {
            assert(op_fits(g[x], ot, nt));
        }
        if j + 1 < g.len() {
            lemma_contiguous_mono(g, j + 1, g.len() - 1);
        }
        assert(n2 <= e);
        assert(ops[j] == raw_to_op(op, nt));
        assert(one_based(op.old_start) == op.old_start + 1);
        assert(one_based(op.new_start) == op.new_start + 1);
        let rest = ops_out(ol, ops, j + 1, o2);
        assert(rest == nl.subrange(n2, e));
        if op.tag == 0 {
            lemma_token_lines_range(ot, nt, o, o2, n, n2);
            assert(nl.subrange(n, n2) + nl.subrange(n2, e) =~= nl.subrange(n, e));
        } else if op.tag == 1 {
            assert(n == n2);
        } else {
            let lines = stripped_range(nt, n, n2);
            assert(lines =~= nl.subrange(n, n2));
            assert(nl.subrange(n, n2) + nl.subrange(n2, e) =~= nl.subrange(n, e));
        }
    } else {
        assert(nl.subrange(e, e) =~= Seq::<Seq<char>>::empty());
    }
}

proof fn lemma_groups_out(gs: Seq<Seq<RawOp>>, ot: Seq<Seq<char>>, nt: Seq<Seq<char>>, hs: Seq<HunkV>, k: int, o: int, n: int)
    requires
        0 <= k <= gs.len(),
        groups_fit(gs, ot, nt, k, o, n),
        ot.len() < u32::MAX,
        nt.len() < u32::MAX,
        hs == Seq::new(gs.len(), |i: int| group_to_hunk(gs[i], nt)),
    ensures
        0 <= o <= ot.len(),
        0 <= n <= nt.len(),
        hunks_track(token_lines(ot), hs, k, o, n),
        hunks_out(token_lines(ot), hs, k, o) == token_lines(nt).subrange(n, nt.len() as int),
    decreases gs.len() - k,
{
    let ol = token_lines(ot);
    let nl = token_lines(nt);
    if k < gs.len() {
        let g = gs[k];
        let h = hs[k];
        assert(h == group_to_hunk(g, nt));
        let oe = g.last().old_end as int;
        let ne = g.last().new_end as int;
        lemma_groups_out(gs, ot, nt, hs, k + 1, oe, ne);
        assert(op_fits(g[0], ot, nt));
        assert(op_fits(g.last(), ot, nt));
        let s = g[0].old_start as int;
        let t = g[0].new_start as int;
        lemma_group_ops(g, ot, nt, h.ops, 0);
        assert(h.old_start == s + 1);
        assert(h.new_start == t + 1);
        assert(hunk_start(h) == s);
        assert(h.old_len == oe - s) by {
            assert(g[0].old_start <= oe) by {
                lemma_contiguous_mono(g, 0, g.len() - 1);
            }
        }
        assert(h.new_len == ne - t) by {
            lemma_contiguous_mono(g, 0, g.len() - 1);
        }
        lemma_token_lines_range(ot, nt, o, s, n, t);
        assert(nl.subrange(n, t) + nl.subrange(t, ne) + nl.subrange(ne, nt.len() as int) =~= nl.subrange(n, nt.len() as int));
    } else {
        lemma_token_lines_range(ot, nt, o, ot.len() as int, n, nt.len() as int);
        if o < ol.len() {
        } else {
            assert(nl.subrange(n, nt.len() as int) =~= Seq::<Seq<char>>::empty());
        }
    }
}

proof fn lemma_contiguous_mono(g: Seq<RawOp>, i: int, j: int)
    requires
        0 <= i <= j < g.len(),
        raw_ops_contiguous(g),
        forall|x: int| 0 <= x < g.len() ==> raw_op_ordered(#[trigger] g[x]),
    ensures
        g[i].old_start <= g[j].old_end,
        g[i].new_start <= g[j].new_end,
    decreases j - i,
{
    assert(raw_op_ordered(g[j]));
    if i < j {
        lemma_contiguous_mono(g, i, j - 1);
        assert(g[j - 1].old_end == g[j].old_start);
    }
}

/// Diffing then applying: when `similar`'s grouped operations are an edit
/// script over its line tokens (`groups_fit`), each token without its line
/// terminators is the line `str::lines` gives for it (true of texts with no
/// lone carriage return), and both texts have fewer than `u32::MAX` lines,
/// the line diff of two texts applied to the lines of the first gives the
/// lines of the second.
pub proof fn lemma_diff_then_apply(old: Seq<char>, new: Seq<char>)
    requires
        groups_fit(line_ops_grouped(old, new, 3), line_tokens(old), line_tokens(new), 0, 0, 0),
        token_lines(line_tokens(old)) == spec_lines(old),
        token_lines(line_tokens(new)) == spec_lines(new),
        line_tokens(old).len() < u32::MAX,
        line_tokens(new).len() < u32::MAX,
    ensures
        apply_diff(spec_lines(old), spec_line_diff(old, new)) == Applied::Done(spec_lines(new)),
        describes(spec_lines(old), spec_line_diff(old, new)),
        hunks_out(spec_lines(old), spec_line_diff(old, new), 0, 0) == spec_lines(new),
{
    let gs = line_ops_grouped(old, new, 3);
    let ot = line_tokens(old);
    let nt = line_tokens(new);
    let hs = spec_line_diff(old, new);
    lemma_groups_out(gs, ot, nt, hs, 0, 0, 0);
    crate::engine::inverse::lemma_described_applies(spec_lines(old), hs);
    assert(token_lines(nt).subrange(0, nt.len() as int) =~= token_lines(nt));
}

} // verus!
