//! The calls into `similar` that the diff engine makes, with their results
//! as plain values.

use crate::engine::diff::trim_line_end;
use crate::text::{find_nl, lines_from, lines_view, spec_lines, strip_cr};
use vstd::prelude::*;

verus! {

broadcast use vstd::string::group_string_axioms;

/// One diff operation as `similar` reports it: its kind (0 equal, 1 delete,
/// 2 insert, 3 replace) and its 0-based, half-open line ranges.
#[derive(Debug, Clone, Copy)]
pub struct RawOp {
    pub tag: u8,
    pub old_start: usize,
    pub old_end: usize,
    pub new_start: usize,
    pub new_end: usize,
}

/// The name under which the contracts speak of `similar`'s grouped line diff
/// with a context radius.
pub uninterp spec fn line_ops_grouped(old: Seq<char>, new: Seq<char>, radius: usize) -> Seq<Seq<RawOp>>;

/// Index just past the first line terminator at or after `i` (`"\n"`,
/// `"\r\n"` or a lone `"\r"`), or `s.len()` when there is none.
pub open spec fn token_end(s: Seq<char>, i: int) -> int
    decreases s.len() - i,
{
    if i < 0 || i >= s.len() {
        s.len() as int
    } else if s[i] == '\n' {
        i + 1
    } else if s[i] == '\r' {
        if i + 1 < s.len() && s[i + 1] == '\n' {
            i + 2
        } else {
            i + 1
        }
    } else {
        token_end(s, i + 1)
    }
}

/// The line tokens of `s` from character `start` on.
pub open spec fn tokens_from(s: Seq<char>, start: int) -> Seq<Seq<char>>
    decreases s.len() - start,
{
    if start < 0 || start >= s.len() {
        seq![]
    } else {
        let e = token_end(s, start);
        if e <= start || e > s.len() {
            seq![]
        } else {
            seq![s.subrange(start, e)] + tokens_from(s, e)
        }
    }
}

/// `similar`'s line tokens (`tokenize_lines`): the text cut after each line
/// terminator, each token keeping its terminator; what follows the last
/// terminator is a token when it is not empty.
pub open spec fn line_tokens(s: Seq<char>) -> Seq<Seq<char>> {
    tokens_from(s, 0)
}

/// Whether every carriage return of a text ends a line: it stands right
/// before a `'\n'` (no lone `'\r'`).
pub open spec fn no_lone_cr(s: Seq<char>) -> bool {
    forall|k: int| 0 <= k < s.len() && #[trigger] s[k] == '\r' ==> k + 1 < s.len() && s[k + 1] == '\n'
}

proof fn lemma_token_end_plain(s: Seq<char>, i: int)
    requires
        0 <= i <= s.len(),
        no_lone_cr(s),
    ensures
        find_nl(s, i) < s.len() ==> token_end(s, i) == find_nl(s, i) + 1,
        find_nl(s, i) >= s.len() ==> token_end(s, i) == s.len(),
        i <= find_nl(s, i) <= s.len(),
        forall|k: int| i <= k < find_nl(s, i) ==> s[k] != '\n',
        find_nl(s, i) < s.len() ==> s[find_nl(s, i)] == '\n',
    decreases s.len() - i,
{
    if i < s.len() && s[i] != '\n' {
        if s[i] == '\r' {
            assert(s[i + 1] == '\n');
            assert(find_nl(s, i + 1) == i + 1);
        } else {
            lemma_token_end_plain(s, i + 1);
        }
    }
}

proof fn lemma_tokens_from_plain(s: Seq<char>, start: int)
    requires
        0 <= start,
        no_lone_cr(s),
    ensures
        Seq::new(tokens_from(s, start).len(), |i: int| trim_line_end(tokens_from(s, start)[i])) == lines_from(s, start),
    decreases s.len() - start,
{
    let ts = tokens_from(s, start);
    if start >= s.len() {
        assert(Seq::new(ts.len(), |i: int| trim_line_end(ts[i])) =~= lines_from(s, start));
    } else {
        lemma_token_end_plain(s, start);
        let e = find_nl(s, start);
        let piece = s.subrange(start, e);
        let line = strip_cr(piece);
        // Only the last character of a piece can be a carriage return, and
        // only when a line feed follows it.
        assert forall|k: int| start <= k < e && s[k] == '\r' implies k == e - 1 && e < s.len() by {
            assert(k + 1 < s.len() && s[k + 1] == '\n');
        }
        assert(trim_line_end(piece) == line) by {
            if piece.len() > 0 {
                assert(piece.last() == s[e - 1]);
                if s[e - 1] == '\r' {
                    let p2 = piece.drop_last();
                    if p2.len() > 0 {
                        assert(p2.last() == s[e - 2]);
                    }
                    assert(trim_line_end(p2) == p2);
                }
            }
        }
        if e < s.len() {
            let tok = s.subrange(start, e + 1);
            assert(tok.drop_last() =~= piece);
            assert(tok.last() == s[e]);
            assert(trim_line_end(tok) == line);
            lemma_tokens_from_plain(s, e + 1);
            let rest = tokens_from(s, e + 1);
            assert(ts == seq![tok] + rest);
            assert(lines_from(s, start) == seq![line] + lines_from(s, e + 1));
            assert(Seq::new(ts.len(), |i: int| trim_line_end(ts[i])) =~= seq![line] + Seq::new(rest.len(), |i: int| trim_line_end(rest[i])));
        } else {
            assert(line == piece) by {
                if piece.len() > 0 {
                    assert(piece.last() == s[e - 1]);
                }
            }
            assert(tokens_from(s, s.len() as int) =~= Seq::<Seq<char>>::empty());
            assert(ts =~= seq![piece]);
            assert(lines_from(s, start) == seq![line]);
            assert(Seq::new(ts.len(), |i: int| trim_line_end(ts[i])) =~= seq![line]);
        }
    }
}

proof fn lemma_tokens_from_len(s: Seq<char>, start: int)
    requires
        0 <= start,
    ensures
        tokens_from(s, start).len() <= if start < s.len() { s.len() - start } else { 0 },
    decreases s.len() - start,
{
    if start < s.len() {
        let e = token_end(s, start);
        if e > start && e <= s.len() {
            lemma_tokens_from_len(s, e);
        }
    }
}

/// A text has no more line tokens than characters.
pub proof fn lemma_line_tokens_len(s: Seq<char>)
    ensures
        line_tokens(s).len() <= s.len(),
{
    lemma_tokens_from_len(s, 0);
}

/// Without a lone carriage return (so with `"\n"` or `"\r\n"` line endings),
/// the line tokens with their terminators trimmed are the lines of the text
/// (as `str::lines` gives them).
pub proof fn lemma_line_tokens_are_lines(s: Seq<char>)
    requires
        no_lone_cr(s),
    ensures
        Seq::new(line_tokens(s).len(), |i: int| trim_line_end(line_tokens(s)[i])) == spec_lines(s),
{
    lemma_tokens_from_plain(s, 0);
}

/// The name under which the contracts speak of `similar`'s unified diff text.
pub uninterp spec fn unified_text(old: Seq<char>, new: Seq<char>, context: usize) -> Seq<char>;

/// The name under which the contracts speak of the hunks of `similar`'s unified diff.
pub uninterp spec fn unified_hunks(old: Seq<char>, new: Seq<char>, context: usize) -> Seq<Seq<char>>;

/// Ranges of an operation are ordered.
pub open spec fn raw_op_ordered(o: RawOp) -> bool {
    o.old_start <= o.old_end && o.new_start <= o.new_end
}

/// Operations that follow one another without gap.
pub open spec fn raw_ops_contiguous(g: Seq<RawOp>) -> bool {
    forall|i: int| 0 < i < g.len() ==> g[i - 1].old_end == #[trigger] g[i].old_start
        && g[i - 1].new_end == g[i].new_start
}

/// Whether one of `similar`'s operations fits the tokens of the two sides:
/// its ranges are ordered and lie within them, an equal operation covers
/// equal tokens on both sides, a delete covers no new token and an insert no
/// old one.
pub open spec fn op_fits(op: RawOp, ot: Seq<Seq<char>>, nt: Seq<Seq<char>>) -> bool {
    &&& raw_op_ordered(op)
    &&& op.old_end <= ot.len()
    &&& op.new_end <= nt.len()
    &&& op.tag <= 3
    &&& op.tag == 0 ==> op.old_end - op.old_start == op.new_end - op.new_start
        && ot.subrange(op.old_start as int, op.old_end as int) == nt.subrange(op.new_start as int, op.new_end as int)
    &&& op.tag == 1 ==> op.new_start == op.new_end
    &&& op.tag == 2 ==> op.old_start == op.old_end
}

/// Whether the groups `gs[k..]` are an edit script from the old tokens `ot`
/// to the new tokens `nt`, the groups before them having ended at old token
/// `o` and new token `n`: each group is non-empty and contiguous, its
/// operations fit, and it starts as far past that end on both sides, the
/// tokens passed over being equal; after the last group the rest of both
/// sides is equal.
pub open spec fn groups_fit(gs: Seq<Seq<RawOp>>, ot: Seq<Seq<char>>, nt: Seq<Seq<char>>, k: int, o: int, n: int) -> bool
    decreases gs.len() - k,
{
    if k < 0 || k >= gs.len() {
        0 <= o <= ot.len() && 0 <= n <= nt.len() && ot.subrange(o, ot.len() as int) == nt.subrange(n, nt.len() as int)
    } else {
        let g = gs[k];
        &&& g.len() > 0
        &&& raw_ops_contiguous(g)
        &&& forall|i: int| 0 <= i < g.len() ==> op_fits(#[trigger] g[i], ot, nt)
        &&& 0 <= o <= g[0].old_start
        &&& 0 <= n <= g[0].new_start
        &&& g[0].old_start - o == g[0].new_start - n
        &&& ot.subrange(o, g[0].old_start as int) == nt.subrange(n, g[0].new_start as int)
        &&& groups_fit(gs, ot, nt, k + 1, g.last().old_end as int, g.last().new_end as int)
    }
}

/// `similar::TextDiff::from_lines(old, new).grouped_ops(radius)`: the
/// operations grouped into hunks with `radius` lines of context. The
/// operations of `similar`'s diff tile both sides' line tokens in order
/// (equal operations covering equal tokens, deletes no new token, inserts no
/// old one), and grouping only trims or drops unchanged ranges (see
/// `group_diff_ops`), so the groups form an edit script (`groups_fit`). Texts
/// with no change give no group. `similar` doubles the radius while
/// grouping, so a radius above half of `usize::MAX` is not admitted.
#[verifier::external_body]
pub(crate) fn grouped_line_ops(old: &str, new: &str, radius: usize) -> (r: Vec<Vec<RawOp>>)
    requires
        radius <= usize::MAX / 2,
    ensures
        Seq::new(r@.len(), |i: int| r@[i]@) == line_ops_grouped(old@, new@, radius),
        forall|i: int| 0 <= i < r@.len() ==> (#[trigger] r@[i])@.len() > 0,
        forall|i: int| 0 <= i < r@.len() ==> raw_ops_contiguous((#[trigger] r@[i])@),
        forall|i: int, j: int| 0 <= i < r@.len() && 0 <= j < r@[i]@.len() ==> raw_op_ordered(#[trigger] r@[i]@[j])
            && r@[i]@[j].old_end <= line_tokens(old@).len() && r@[i]@[j].new_end <= line_tokens(new@).len(),
        groups_fit(Seq::new(r@.len(), |i: int| r@[i]@), line_tokens(old@), line_tokens(new@), 0, 0, 0),
        old@ == new@ ==> r@.len() == 0,
{
    let diff = similar::TextDiff::from_lines(old, new);
    let raw = |op: &similar::DiffOp| {
        let (t, o, n) = op.as_tag_tuple();
        RawOp { tag: tag_code(t), old_start: o.start, old_end: o.end, new_start: n.start, new_end: n.end }
    };
    diff.grouped_ops(radius).iter().map(|g| g.iter().map(raw).collect()).collect()
}

/// `similar`'s kind of diff operation.
#[verifier::external_type_specification]
#[verifier::external_body]
pub struct ExSimilarDiffTag(similar::DiffTag);

/// The code of a `similar::DiffTag`: 0 equal, 1 delete, 2 insert, 3 replace.
#[verifier::external_body]
fn tag_code(t: similar::DiffTag) -> u8 {
    match t {
        similar::DiffTag::Equal => 0u8,
        similar::DiffTag::Delete => 1u8,
        similar::DiffTag::Insert => 2u8,
        similar::DiffTag::Replace => 3u8,
    }
}

/// `similar::DiffableStr::tokenize_lines`: the lines `TextDiff::from_lines`
/// compares, each keeping its terminator. Claimed: they are `line_tokens`
/// of the text (cuts after `"\n"`, `"\r\n"` and a lone `"\r"`, and a last
/// piece when one is left).
#[verifier::external_body]
pub(crate) fn tokenize_lines(s: &str) -> (r: Vec<String>)
    ensures
        lines_view(r@) == line_tokens(s@),
{
    similar::DiffableStr::tokenize_lines(s).iter().map(|t| t.to_string()).collect()
}


/// `similar`'s unified diff of two texts with `context` lines of context,
/// rendered in one piece (`unified_diff().context_radius(..).to_string()`).
#[verifier::external_body]
pub(crate) fn unified_diff_whole(old: &str, new: &str, context: usize) -> (r: String)
    requires
        context <= usize::MAX / 2,
    ensures
        r@ == unified_text(old@, new@, context),
{
    similar::TextDiff::from_lines(old, new).unified_diff().context_radius(context).to_string()
}

/// The hunks of `similar`'s unified diff, each rendered on its own
/// (`unified_diff().context_radius(..).iter_hunks()`).
#[verifier::external_body]
pub(crate) fn unified_diff_hunks(old: &str, new: &str, context: usize) -> (r: Vec<String>)
    requires
        context <= usize::MAX / 2,
    ensures
        lines_view(r@) == unified_hunks(old@, new@, context),
{
    let diff = similar::TextDiff::from_lines(old, new);
    let mut u = diff.unified_diff();
    u.context_radius(context).iter_hunks().map(|h| h.to_string()).collect()
}



/// The name under which the contracts speak of `similar`'s full list of line
/// changes: for each line its kind (0 equal, 1 delete, 2 insert) and the line
/// with its terminator.
pub uninterp spec fn line_changes(old: Seq<char>, new: Seq<char>) -> Seq<(u8, Seq<char>)>;

/// The view of a list of tagged lines.
pub open spec fn tagged_view(v: Seq<(u8, String)>) -> Seq<(u8, Seq<char>)> {
    Seq::new(v.len(), |i: int| (v[i].0, v[i].1@))
}

/// `similar`'s kind of line change.
#[verifier::external_type_specification]
#[verifier::external_body]
pub struct ExSimilarChangeTag(similar::ChangeTag);

/// The code of a `similar::ChangeTag`: 0 equal, 1 delete, 2 insert.
#[verifier::external_body]
fn change_code(t: similar::ChangeTag) -> u8 {
    match t {
        similar::ChangeTag::Equal => 0u8,
        similar::ChangeTag::Delete => 1u8,
        similar::ChangeTag::Insert => 2u8,
    }
}

/// `similar::TextDiff::from_lines(old, new).iter_all_changes()`: every line of
/// both texts in diff order, with its kind and its text.
#[verifier::external_body]
pub(crate) fn all_line_changes(old: &str, new: &str) -> (r: Vec<(u8, String)>)
    ensures
        tagged_view(r@) == line_changes(old@, new@),
{
    let diff = similar::TextDiff::from_lines(old, new);
    diff.iter_all_changes().map(|c| (change_code(c.tag()), c.value().to_string())).collect()
}

} // verus!
