//! The first form of the state machine: per-layer operations on a storage
//! backend, with agent and integration partitions identified by mixing the
//! name's bytes into a fixed namespace.

pub mod agent;
pub mod approval;
pub mod manual;
pub mod staged;
pub mod transition;

use crate::engine::diff::{diff_to_line_diff, spec_line_diff};
use crate::engine::line_ops::no_lone_cr;
use crate::model::delta::{delta_digest, zero_id, Delta, DeltaV};
use crate::model::file_node::FileNode;
use crate::model::partition::Partition;
use crate::model::snapshot::{ids_view, snapshot_digest, Snapshot};
use crate::error::StratumError;
use crate::engine::merge::{apply_diff, rebuild, Applied};
use crate::layered::transition::{chain_out_of_range_msg, rebuild_text, rebuilt_from, snapshot_text};
use crate::text::{join_lines, spec_lines};
use vstd::utf8::encode_utf8;
use crate::model::types::{blake3_digest, PartitionId, SnapshotId, SourceType};
use crate::storage::repository::{DeltaStore, FileNodeStore, PartitionStore, SnapshotStore};
use crate::text::text_of_bytes;
use vstd::prelude::*;
use vstd::string::StringSliceAdditionalSpecFns;

pub use crate::layered::StateMachine;

verus! {

broadcast use vstd::string::group_string_axioms;

/// The bytes of an identifier made by adding (wrapping) the first 16 bytes of
/// `name` to those of the namespace `first` then zeros.
pub open spec fn mixed_bytes(first: u8, name: Seq<u8>) -> Seq<u8> {
    Seq::new(16, |i: int| {
        let base: u8 = if i == 0 { first } else { 0u8 };
        if i < name.len() { ((base + name[i]) % 256) as u8 } else { base }
    })
}

/// The identifier made by adding (wrapping) the first 16 bytes of `name` to
/// the namespace whose first byte is `first` and the rest zeros.
pub fn mixed_id(first: u8, name: &[u8]) -> (r: PartitionId)
    ensures
        r.0@ == mixed_bytes(first, name@),
{
    let mut bytes = [0u8; 16];
    bytes[0] = first;
    let mut i: usize = 0;
    while i < 16 && i < name.len()
        invariant
            i <= 16,
            bytes@.len() == 16,
            forall|j: int| 0 <= j < i ==> bytes@[j] == mixed_bytes(first, name@)[j],
            forall|j: int| i <= j < 16 ==> bytes@[j] == (if j == 0 { first } else { 0u8 }),
        decreases 16 - i,
    {
        bytes[i] = bytes[i].wrapping_add(name[i]);
        i += 1;
    }
    proof {
        assert(bytes@ =~= mixed_bytes(first, name@));
    }
    PartitionId(bytes)
}

/// What an edit of a partition's text records.
///
/// `None` when the new text does not differ from the current text. Otherwise
/// the baseline of the current text at `file_path`, the delta from the current
/// text to the new text on that baseline (from `source`), and the snapshot
/// one delta past `current` (in partition type `partition_type`).
pub fn edit_step(
    current: &Snapshot,
    file_path: &str,
    current_text: &str,
    new_text: &str,
    source: SourceType,
    partition_type: String,
) -> (r: Option<(FileNode, Delta, Snapshot)>)
    ensures
        r is None <==> spec_line_diff(current_text@, new_text@).len() == 0,
        r matches Some((f, d, s)) ==> {
            &&& f.file_path@ == file_path@
            &&& f.base_hash@ == blake3_digest(current_text.spec_bytes())
            &&& d.file@ == f@
            &&& d.diff@ == spec_line_diff(current_text@, new_text@)
            &&& d.source@ == source@
            &&& d.id.0@ == delta_digest(DeltaV { id: zero_id(), file: f@, diff: d.diff@, source: source@, timestamp: d.timestamp })
            &&& s.file@ == current.file@
            &&& ids_view(s.deltas@) == ids_view(current.deltas@).push(d.id.0@)
            &&& ids_view(s.parents@) == seq![current.id.0@]
            &&& s.partition_type@ == partition_type@
            &&& !s.has_conflicts
            &&& s.id.0@ == snapshot_digest(s@)
        },
        r matches Some((f, d, s)) ==> (no_lone_cr(current_text@) && no_lone_cr(new_text@) && spec_lines(current_text@).len() < u32::MAX
            && spec_lines(new_text@).len() < u32::MAX ==> apply_diff(spec_lines(current_text@), d.diff@) == Applied::Done(spec_lines(new_text@))),
{
    let diff = diff_to_line_diff(current_text, new_text);
    if diff.is_empty() {
        return None;
    }
    let file_node = FileNode::new(file_path.to_string(), current_text.as_bytes());
    let delta = Delta::new(file_node.clone(), diff, source);
    let snapshot = Snapshot::from_parent(current, delta.id, partition_type);
    Some((file_node, delta, snapshot))
}


/// Whether `step` is what an edit records (see `edit_step`).
pub open spec fn edit_records(
    step: Option<(FileNode, Delta, Snapshot)>,
    current: Snapshot,
    file_path: Seq<char>,
    current_text: Seq<char>,
    new_text: Seq<char>,
    source: SourceType,
    partition_type: Seq<char>,
) -> bool {
    &&& (step is None <==> spec_line_diff(current_text, new_text).len() == 0)
    &&& step matches Some((f, d, s)) ==> {
        &&& f.file_path@ == file_path
        &&& f.base_hash@ == blake3_digest(encode_utf8(current_text))
        &&& d.file@ == f@
        &&& d.diff@ == spec_line_diff(current_text, new_text)
        &&& d.source@ == source@
        &&& d.id.0@ == delta_digest(DeltaV { id: zero_id(), file: f@, diff: d.diff@, source: source@, timestamp: d.timestamp })
        &&& s.file@ == current.file@
        &&& ids_view(s.deltas@) == ids_view(current.deltas@).push(d.id.0@)
        &&& ids_view(s.parents@) == seq![current.id.0@]
        &&& s.partition_type@ == partition_type
        &&& !s.has_conflicts
        &&& s.id.0@ == snapshot_digest(s@)
    }
}

/// What an edit of a partition records, given what was read: the partition's
/// snapshot, the content of its file baseline and its deltas. The current
/// text is the content with the deltas applied (see `rebuild_text`, whose
/// errors are passed on); it is returned with what editing it into
/// `new_content` records (see `edit_step`).
pub fn edit_plan(
    current: &Snapshot,
    content: &str,
    deltas: &[Delta],
    file_path: &str,
    new_content: &str,
    source: SourceType,
    partition_type: String,
) -> (r: Result<(String, Option<(FileNode, Delta, Snapshot)>), StratumError>)
    ensures
        match rebuild(content@, deltas@) {
            Applied::Done(ls) => r matches Ok((t, step)) && t@ == join_lines(ls)
                && edit_records(step, *current, file_path@, t@, new_content@, source, partition_type@),
            Applied::Rejected(m) => r matches Err(StratumError::Engine(e)) && e@ == "Engine error: "@ + m,
            Applied::Crash => r matches Err(StratumError::Engine(e)) && e@ == chain_out_of_range_msg(),
        },
{
    let old_content = rebuild_text(content, deltas)?;
    let step = edit_step(current, file_path, old_content.as_str(), new_content, source, partition_type);
    Ok((old_content, step))
}

/// Whether `id` is what an edit of the partition `pid` recorded, for the
/// partition `p` and its current snapshot `cs` read, whose text is `t`: the
/// partition stays at its snapshot when the new content does not differ from
/// `t`, and otherwise points at the snapshot of `step` (see `edit_records`).
pub open spec fn edit_recorded_over(
    p: Partition,
    cs: Snapshot,
    t: Seq<char>,
    step: Option<(FileNode, Delta, Snapshot)>,
    pid: Seq<u8>,
    file_path: Seq<char>,
    new_content: Seq<char>,
    source: SourceType,
    partition_type: Seq<char>,
    id: SnapshotId,
) -> bool {
    &&& p.id.0@ == pid
    &&& cs.id.0@ == p.current_snapshot.0@
    &&& snapshot_text(cs, t)
    &&& edit_records(step, cs, file_path, t, new_content, source, partition_type)
    &&& step is None ==> id == p.current_snapshot
    &&& step matches Some((_, _, sn)) ==> id == sn.id
}

/// Whether `id` is what an edit of the partition `pid` recorded, for some
/// values read (see `edit_recorded_over`).
pub open spec fn edit_recorded(
    pid: Seq<u8>,
    file_path: Seq<char>,
    new_content: Seq<char>,
    source: SourceType,
    partition_type: Seq<char>,
    id: SnapshotId,
) -> bool {
    exists|p: Partition, cs: Snapshot, t: Seq<char>, step: Option<(FileNode, Delta, Snapshot)>|
        #[trigger] edit_recorded_over(p, cs, t, step, pid, file_path, new_content, source, partition_type, id)
}

/// Applies an edit to the partition `pid` (whose absence gives `NotFound`
/// with `missing`): its current text is rebuilt from its snapshot's deltas
/// and file content; when the new content differs, the baseline of the
/// current text is stored (with the current text, then with the new
/// content), with the delta, and the snapshot one delta further is stored and
/// pointed at. Returns the snapshot the partition points at.
pub fn record_edit<S: SnapshotStore + DeltaStore + FileNodeStore + PartitionStore>(
    storage: &S,
    pid: &PartitionId,
    missing: String,
    file_path: &str,
    new_content: &str,
    source: SourceType,
    partition_type: String,
) -> (r: Result<SnapshotId, StratumError>)
    ensures
        r matches Err(e) ==> (e is Storage || e is Engine || (e matches StratumError::NotFound(m) && m@ == missing@)),
        r matches Ok(id) ==> edit_recorded(pid.0@, file_path@, new_content@, source, partition_type@, id),
{
    let ghost src = source;
    let ghost ptype = partition_type@;
    let partition = match storage.get_partition(pid) {
        Ok(p) => p,
        Err(_) => return Err(StratumError::NotFound(missing)),
    };
    let current_snapshot = match storage.get_snapshot(&partition.current_snapshot) {
        Ok(s) => s,
        Err(e) => return Err(StratumError::Storage(e)),
    };
    let deltas = match storage.get_deltas(current_snapshot.deltas.as_slice()) {
        Ok(d) => d,
        Err(e) => return Err(StratumError::Storage(e)),
    };
    let bytes = match storage.get_file_content(current_snapshot.file.path_str(), &current_snapshot.file.base_hash) {
        Ok(b) => b,
        Err(e) => return Err(StratumError::Storage(e)),
    };
    let content_str = text_of_bytes(bytes.as_slice());
    let (old_content, step) = edit_plan(&current_snapshot, content_str.as_str(), deltas.as_slice(), file_path, new_content, source, partition_type)?;
    let ghost gstep = step;
    proof {
        assert(rebuilt_from(current_snapshot, bytes@, deltas@, old_content@));
        assert(snapshot_text(current_snapshot, old_content@));
        match gstep {
            None => {
                assert(edit_recorded_over(partition, current_snapshot, old_content@, gstep, pid.0@, file_path@, new_content@, src, ptype,
                    partition.current_snapshot));
            },
            Some((f, d, sn)) => {
                assert(edit_recorded_over(partition, current_snapshot, old_content@, gstep, pid.0@, file_path@, new_content@, src, ptype,
                    sn.id));
            },
        }
    }
    match step {
        None => Ok(partition.current_snapshot),
        Some((file_node, delta, snapshot)) => {
            if let Err(e) = storage.store_file_node(&file_node, old_content.as_str().as_bytes()) {
                return Err(StratumError::Storage(e));
            }
            if let Err(e) = storage.store_delta(&delta) {
                return Err(StratumError::Storage(e));
            }
            if let Err(e) = storage.store_file_node(&file_node, new_content.as_bytes()) {
                return Err(StratumError::Storage(e));
            }
            if let Err(e) = storage.store_snapshot(&snapshot, &[]) {
                return Err(StratumError::Storage(e));
            }
            match storage.update_pointer(pid, &snapshot.id) {
                Ok(()) => Ok(snapshot.id),
                Err(e) => Err(StratumError::Storage(e)),
            }
        },
    }
}

} // verus!
