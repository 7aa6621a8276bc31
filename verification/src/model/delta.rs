//! Delta: the smallest immutable increment, a line-level diff against a file baseline.

use crate::json::{comma_join, json_bytes, json_list, json_quote, json_str_list, lemma_comma_join_step, push_json_bytes, push_json_i64, push_json_str, push_json_str_list, push_json_u64, push_lit};
use crate::model::file_node::{FileNode, FileNodeV, json_file};
use crate::model::types::{blake3_digest, ContentId, DeltaId, DiffOp, DiffOpV, Hunk, HunkV, SourceType, SourceV};
use crate::text::{dec, dec_signed, push_char};
use vstd::prelude::*;
use vstd::string::StringSliceAdditionalSpecFns;
use vstd::utf8::encode_utf8;

pub use crate::model::types::LineDiff;

verus! {

broadcast use vstd::string::group_string_axioms;

/// A delta: a content-addressed line-level diff of one file.
#[derive(Debug)]
pub struct Delta {
    /// Content address.
    pub id: DeltaId,
    /// The file baseline the diff applies to.
    pub file: FileNode,
    /// The line-level difference.
    pub diff: LineDiff,
    /// Where the change came from.
    pub source: SourceType,
    /// Creation time, Unix milliseconds.
    pub timestamp: i64,
}

/// The view of a delta.
pub struct DeltaV {
    pub id: Seq<u8>,
    pub file: FileNodeV,
    pub diff: Seq<HunkV>,
    pub source: SourceV,
    pub timestamp: i64,
}

impl View for Delta {
    type V = DeltaV;

    open spec fn view(&self) -> DeltaV {
        DeltaV {
            id: self.id.0@,
            file: self.file@,
            diff: self.diff@,
            source: self.source@,
            timestamp: self.timestamp,
        }
    }
}

impl Clone for Delta {
    fn clone(&self) -> (r: Self)
        ensures
            r@ == self@,
    {
        self.duplicate()
    }
}

/// The thirty-two zero bytes of an identifier not yet computed.
pub open spec fn zero_id() -> Seq<u8> {
    Seq::new(32, |i: int| 0u8)
}

// ---------------------------------------------------------------------------
// JSON text
// ---------------------------------------------------------------------------

pub open spec fn json_op(op: DiffOpV) -> Seq<char> {
    match op {
        DiffOpV::Equal { count } => "{\"Equal\":{\"count\":"@ + dec(count as nat) + "}}"@,
        DiffOpV::Delete { old_start, count } => "{\"Delete\":{\"old_start\":"@ + dec(old_start as nat)
            + ",\"count\":"@ + dec(count as nat) + "}}"@,
        DiffOpV::Insert { new_start, lines } => "{\"Insert\":{\"new_start\":"@ + dec(new_start as nat)
            + ",\"lines\":"@ + json_str_list(lines) + "}}"@,
        DiffOpV::Replace { old_start, old_count, new_start, lines } => "{\"Replace\":{\"old_start\":"@
            + dec(old_start as nat) + ",\"old_count\":"@ + dec(old_count as nat) + ",\"new_start\":"@
            + dec(new_start as nat) + ",\"lines\":"@ + json_str_list(lines) + "}}"@,
    }
}

pub open spec fn json_hunk(h: HunkV) -> Seq<char> {
    "{\"old_start\":"@ + dec(h.old_start as nat) + ",\"old_len\":"@ + dec(h.old_len as nat)
        + ",\"new_start\":"@ + dec(h.new_start as nat) + ",\"new_len\":"@ + dec(h.new_len as nat)
        + ",\"ops\":"@ + json_list(Seq::new(h.ops.len(), |i: int| json_op(h.ops[i]))) + "}"@
}

pub open spec fn json_diff(hs: Seq<HunkV>) -> Seq<char> {
    "{\"hunks\":"@ + json_list(Seq::new(hs.len(), |i: int| json_hunk(hs[i]))) + "}"@
}

pub open spec fn json_source(s: SourceV) -> Seq<char> {
    match s {
        SourceV::Manual => "\"Manual\""@,
        SourceV::Agent(a) => "{\"Agent\":"@ + json_quote(a) + "}"@,
        SourceV::Backup => "\"Backup\""@,
    }
}

/// The JSON text of a delta.
pub open spec fn json_delta(d: DeltaV) -> Seq<char> {
    "{\"id\":"@ + json_bytes(d.id) + ",\"file\":"@ + json_file(d.file) + ",\"diff\":"@ + json_diff(d.diff)
        + ",\"source\":"@ + json_source(d.source) + ",\"timestamp\":"@ + dec_signed(d.timestamp as int) + "}"@
}

/// The content address of a delta: the digest of its JSON text.
pub open spec fn delta_digest(d: DeltaV) -> Seq<u8> {
    blake3_digest(encode_utf8(json_delta(d)))
}

fn push_json_op(s: &mut String, op: &DiffOp)
    ensures
        final(s)@ == old(s)@ + json_op(op@),
{
    match op {
        DiffOp::Equal { count } => {
            push_lit(s, "{\"Equal\":{\"count\":");
            push_json_u64(s, *count as u64);
            push_lit(s, "}}");
        },
        DiffOp::Delete { old_start, count } => {
            push_lit(s, "{\"Delete\":{\"old_start\":");
            push_json_u64(s, *old_start as u64);
            push_lit(s, ",\"count\":");
            push_json_u64(s, *count as u64);
            push_lit(s, "}}");
        },
        DiffOp::Insert { new_start, lines } => {
            push_lit(s, "{\"Insert\":{\"new_start\":");
            push_json_u64(s, *new_start as u64);
            push_lit(s, ",\"lines\":");
            push_json_str_list(s, lines);
            push_lit(s, "}}");
        },
        DiffOp::Replace { old_start, old_count, new_start, lines } => {
            push_lit(s, "{\"Replace\":{\"old_start\":");
            push_json_u64(s, *old_start as u64);
            push_lit(s, ",\"old_count\":");
            push_json_u64(s, *old_count as u64);
            push_lit(s, ",\"new_start\":");
            push_json_u64(s, *new_start as u64);
            push_lit(s, ",\"lines\":");
            push_json_str_list(s, lines);
            push_lit(s, "}}");
        },
    }
    proof {
        assert(final(s)@ =~= old(s)@ + json_op(op@));
    }
}

#[verifier::spinoff_prover]
#[verifier::rlimit(40)]
fn push_json_hunk(s: &mut String, h: &Hunk)
    ensures
        final(s)@ == old(s)@ + json_hunk(h@),
{
    let ghost s0 = s@;
    push_lit(s, "{\"old_start\":");
    push_json_u64(s, h.old_start as u64);
    push_lit(s, ",\"old_len\":");
    push_json_u64(s, h.old_len as u64);
    push_lit(s, ",\"new_start\":");
    push_json_u64(s, h.new_start as u64);
    push_lit(s, ",\"new_len\":");
    push_json_u64(s, h.new_len as u64);
    push_lit(s, ",\"ops\":");
    let ghost s1 = s@;
    let ghost hv = h@;
    let ghost items = Seq::new(hv.ops.len(), |i: int| json_op(hv.ops[i]));
    push_char(s, '[');
    let mut i: usize = 0;
    while i < h.ops.len()
        invariant
            i <= h.ops@.len(),
            hv == h@,
            hv.ops.len() == h.ops@.len(),
            items == Seq::new(hv.ops.len(), |i: int| json_op(hv.ops[i])),
            s@ == s1 + seq!['['] + comma_join(items.take(i as int)),
        decreases h.ops@.len() - i,
    {
        proof {
            lemma_comma_join_step(items, i as int);
        }
        if i > 0 {
            push_char(s, ',');
        }
        push_json_op(s, &h.ops[i]);
        proof {
            assert(s@ =~= s1 + seq!['['] + comma_join(items.take(i + 1)));
        }
        i += 1;
    }
    push_char(s, ']');
    push_lit(s, "}");
    proof {
        assert(items.take(h.ops@.len() as int) =~= items);
        assert(s@ =~= s0 + json_hunk(h@));
    }
}

/// Appends the JSON text of a diff.
pub fn push_json_diff(s: &mut String, d: &LineDiff)
    ensures
        final(s)@ == old(s)@ + json_diff(d@),
{
    let ghost s0 = s@;
    push_lit(s, "{\"hunks\":");
    let ghost s1 = s@;
    let ghost dv = d@;
    let ghost items = Seq::new(dv.len(), |i: int| json_hunk(dv[i]));
    push_char(s, '[');
    let mut i: usize = 0;
    while i < d.hunks.len()
        invariant
            i <= d.hunks@.len(),
            dv == d@,
            dv.len() == d.hunks@.len(),
            items == Seq::new(dv.len(), |i: int| json_hunk(dv[i])),
            s@ == s1 + seq!['['] + comma_join(items.take(i as int)),
        decreases d.hunks@.len() - i,
    {
        proof {
            lemma_comma_join_step(items, i as int);
        }
        if i > 0 {
            push_char(s, ',');
        }
        push_json_hunk(s, &d.hunks[i]);
        proof {
            assert(s@ =~= s1 + seq!['['] + comma_join(items.take(i + 1)));
        }
        i += 1;
    }
    push_char(s, ']');
    push_lit(s, "}");
    proof {
        assert(items.take(d.hunks@.len() as int) =~= items);
        assert(s@ =~= s0 + json_diff(d@));
    }
}

fn push_json_source(s: &mut String, src: &SourceType)
    ensures
        final(s)@ == old(s)@ + json_source(src@),
{
    match src {
        SourceType::Manual => push_lit(s, "\"Manual\""),
        SourceType::Agent(a) => {
            push_lit(s, "{\"Agent\":");
            push_json_str(s, a.0.as_str());
            push_lit(s, "}");
        },
        SourceType::Backup => push_lit(s, "\"Backup\""),
    }
    proof {
        assert(final(s)@ =~= old(s)@ + json_source(src@));
    }
}

/// The current time in Unix milliseconds (`chrono::Utc::now`).
#[verifier::external_body]
pub fn now_millis() -> (r: i64) {
    chrono::Utc::now().timestamp_millis()
}

impl Delta {
    /// A new delta stamped with the current time; its identifier is the digest
    /// of its JSON text with an all-zero identifier in place.
    pub fn new(file: FileNode, diff: LineDiff, source: SourceType) -> (r: Delta)
        ensures
            r.file@ == file@,
            r.diff@ == diff@,
            r.source@ == source@,
            r.id.0@ == delta_digest(DeltaV {
                id: zero_id(),
                file: file@,
                diff: diff@,
                source: source@,
                timestamp: r.timestamp,
            }),
    {
        let timestamp = now_millis();
        let mut delta = Delta { id: ContentId::zero(), file, diff, source, timestamp };
        delta.id = delta.compute_id();
        delta
    }

    /// The digest of this delta's JSON text.
    pub fn compute_id(&self) -> (r: DeltaId)
        ensures
            r.0@ == delta_digest(self@),
    {
        let mut s = String::new();
        push_lit(&mut s, "{\"id\":");
        push_json_bytes(&mut s, &self.id.0);
        push_lit(&mut s, ",\"file\":");
        self.file.push_json(&mut s);
        push_lit(&mut s, ",\"diff\":");
        push_json_diff(&mut s, &self.diff);
        push_lit(&mut s, ",\"source\":");
        push_json_source(&mut s, &self.source);
        push_lit(&mut s, ",\"timestamp\":");
        push_json_i64(&mut s, self.timestamp);
        push_lit(&mut s, "}");
        proof {
            assert(s@ =~= json_delta(self@));
        }
        let bytes = s.as_str().as_bytes();
        ContentId::from_content(bytes)
    }

    /// A copy of this delta.
    pub fn duplicate(&self) -> (r: Delta)
        ensures
            r@ == self@,
    {
        Delta {
            id: self.id,
            file: self.file.duplicate(),
            diff: LineDiff { hunks: crate::model::types::clone_hunks(&self.diff.hunks) },
            source: crate::model::types::clone_source(&self.source),
            timestamp: self.timestamp,
        }
    }
}

// ---------------------------------------------------------------------------
// Summary
// ---------------------------------------------------------------------------

/// How many lines a delta changes.
#[derive(Debug)]
pub struct DeltaSummary {
    pub inserts: usize,
    pub deletes: usize,
    pub replaces: usize,
    pub total_hunks: usize,
}

/// Lines inserted by a list of operations.
pub open spec fn ops_inserts(ops: Seq<DiffOpV>) -> int
    decreases ops.len(),
{
    if ops.len() == 0 {
        0
    } else {
        ops_inserts(ops.drop_last()) + match ops.last() {
            DiffOpV::Insert { lines, .. } => lines.len() as int,
            _ => 0,
        }
    }
}

/// Lines deleted by a list of operations (`Delete` counts only).
pub open spec fn ops_deletes(ops: Seq<DiffOpV>) -> int
    decreases ops.len(),
{
    if ops.len() == 0 {
        0
    } else {
        ops_deletes(ops.drop_last()) + match ops.last() {
            DiffOpV::Delete { count, .. } => count as int,
            _ => 0,
        }
    }
}

/// Replacement lines of a list of operations.
pub open spec fn ops_replaces(ops: Seq<DiffOpV>) -> int
    decreases ops.len(),
{
    if ops.len() == 0 {
        0
    } else {
        ops_replaces(ops.drop_last()) + match ops.last() {
            DiffOpV::Replace { lines, .. } => lines.len() as int,
            _ => 0,
        }
    }
}

/// Inserted lines over a diff.
pub open spec fn diff_inserts(hs: Seq<HunkV>) -> int
    decreases hs.len(),
{
    if hs.len() == 0 { 0 } else { diff_inserts(hs.drop_last()) + ops_inserts(hs.last().ops) }
}

/// Deleted lines over a diff.
pub open spec fn diff_deletes(hs: Seq<HunkV>) -> int
    decreases hs.len(),
{
    if hs.len() == 0 { 0 } else { diff_deletes(hs.drop_last()) + ops_deletes(hs.last().ops) }
}

/// Replacement lines over a diff.
pub open spec fn diff_replaces(hs: Seq<HunkV>) -> int
    decreases hs.len(),
{
    if hs.len() == 0 { 0 } else { diff_replaces(hs.drop_last()) + ops_replaces(hs.last().ops) }
}

impl Delta {
    /// Counts inserted, deleted and replacement lines and hunks.
    pub fn summary(&self) -> (r: DeltaSummary)
        requires
            diff_inserts(self.diff@) <= usize::MAX,
            diff_deletes(self.diff@) <= usize::MAX,
            diff_replaces(self.diff@) <= usize::MAX,
        ensures
            r.inserts == diff_inserts(self.diff@),
            r.deletes == diff_deletes(self.diff@),
            r.replaces == diff_replaces(self.diff@),
            r.total_hunks == self.diff@.len(),
    {
        let (inserts, deletes, replaces) = count_changes(&self.diff);
        DeltaSummary { inserts, deletes, replaces, total_hunks: self.diff.hunks.len() }
    }
}

proof fn lemma_ops_nonneg(ops: Seq<DiffOpV>)
    ensures
        ops_inserts(ops) >= 0,
        ops_deletes(ops) >= 0,
        ops_replaces(ops) >= 0,
    decreases ops.len(),
{
    if ops.len() > 0 {
        lemma_ops_nonneg(ops.drop_last());
    }
}

proof fn lemma_ops_prefix_le(ops: Seq<DiffOpV>, i: int)
    requires
        0 <= i <= ops.len(),
    ensures
        0 <= ops_inserts(ops.take(i)) <= ops_inserts(ops),
        0 <= ops_deletes(ops.take(i)) <= ops_deletes(ops),
        0 <= ops_replaces(ops.take(i)) <= ops_replaces(ops),
    decreases ops.len() - i,
{
    lemma_ops_nonneg(ops.take(i));
    if i < ops.len() {
        lemma_ops_prefix_le(ops, i + 1);
        assert(ops.take(i + 1).drop_last() =~= ops.take(i));
    } else {
        assert(ops.take(i) =~= ops);
    }
}

proof fn lemma_diff_nonneg(hs: Seq<HunkV>)
    ensures
        diff_inserts(hs) >= 0,
        diff_deletes(hs) >= 0,
        diff_replaces(hs) >= 0,
    decreases hs.len(),
{
    if hs.len() > 0 {
        lemma_diff_nonneg(hs.drop_last());
        lemma_ops_nonneg(hs.last().ops);
    }
}

proof fn lemma_diff_prefix_le(hs: Seq<HunkV>, i: int)
    requires
        0 <= i <= hs.len(),
    ensures
        0 <= diff_inserts(hs.take(i)) <= diff_inserts(hs),
        0 <= diff_deletes(hs.take(i)) <= diff_deletes(hs),
        0 <= diff_replaces(hs.take(i)) <= diff_replaces(hs),
    decreases hs.len() - i,
{
    lemma_diff_nonneg(hs.take(i));
    if i < hs.len() {
        lemma_diff_prefix_le(hs, i + 1);
        assert(hs.take(i + 1).drop_last() =~= hs.take(i));
        lemma_ops_nonneg(hs[i].ops);
    } else {
        assert(hs.take(i) =~= hs);
    }
}

fn count_changes(d: &LineDiff) -> (r: (usize, usize, usize))
    requires
        diff_inserts(d@) <= usize::MAX,
        diff_deletes(d@) <= usize::MAX,
        diff_replaces(d@) <= usize::MAX,
    ensures
        r.0 == diff_inserts(d@),
        r.1 == diff_deletes(d@),
        r.2 == diff_replaces(d@),
{
    let mut inserts: usize = 0;
    let mut deletes: usize = 0;
    let mut replaces: usize = 0;
    let mut h: usize = 0;
    while h < d.hunks.len()
        invariant
            h <= d.hunks@.len(),
            d@.len() == d.hunks@.len(),
            diff_inserts(d@) <= usize::MAX,
            diff_deletes(d@) <= usize::MAX,
            diff_replaces(d@) <= usize::MAX,
            inserts == diff_inserts(d@.take(h as int)),
            deletes == diff_deletes(d@.take(h as int)),
            replaces == diff_replaces(d@.take(h as int)),
        decreases d.hunks@.len() - h,
    {
        let hunk = &d.hunks[h];
        let ghost ops = hunk@.ops;
        proof {
            let t = d@.take(h + 1);
            assert(t.drop_last() =~= d@.take(h as int));
            assert(t.last() == hunk@);
            lemma_diff_prefix_le(d@, h + 1);
        }
        let ghost i0 = inserts as int;
        let ghost d0 = deletes as int;
        let ghost r0 = replaces as int;
        let mut k: usize = 0;
        while k < hunk.ops.len()
            invariant
                k <= hunk.ops@.len(),
                ops == hunk@.ops,
                ops.len() == hunk.ops@.len(),
                i0 + ops_inserts(ops) <= usize::MAX,
                d0 + ops_deletes(ops) <= usize::MAX,
                r0 + ops_replaces(ops) <= usize::MAX,
                inserts == i0 + ops_inserts(ops.take(k as int)),
                deletes == d0 + ops_deletes(ops.take(k as int)),
                replaces == r0 + ops_replaces(ops.take(k as int)),
            decreases hunk.ops@.len() - k,
        {
            proof {
                let t = ops.take(k + 1);
                assert(t.drop_last() =~= ops.take(k as int));
                lemma_ops_prefix_le(ops, k + 1);
            }
            match &hunk.ops[k] {
                DiffOp::Insert { lines, .. } => {
                    inserts = inserts + lines.len();
                },
                DiffOp::Delete { count, .. } => {
                    deletes = deletes + *count as usize;
                },
                DiffOp::Replace { lines, .. } => {
                    replaces = replaces + lines.len();
                },
                DiffOp::Equal { .. } => {},
            }
            k += 1;
        }
        proof {
            assert(ops.take(ops.len() as int) =~= ops);
        }
        h += 1;
    }
    proof {
        assert(d@.take(d.hunks@.len() as int) =~= d@);
    }
    (inserts, deletes, replaces)
}

} // verus!
