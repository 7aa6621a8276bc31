//! Snapshots: immutable, content-addressed states of one file, each the base
//! file plus the chain of deltas that leads to it.

use crate::json::{comma_join, json_bool, json_bytes, json_list, json_quote, lemma_comma_join_step, push_json_bool, push_json_bytes, push_json_str, push_lit};
use crate::model::delta::now_millis;
use crate::model::file_node::{FileNode, FileNodeV, json_file};
use crate::model::types::{blake3_digest, ContentId, DeltaId, SnapshotId};
use crate::text::push_char;
use vstd::prelude::*;
use vstd::string::StringSliceAdditionalSpecFns;
use vstd::utf8::encode_utf8;

verus! {

broadcast use vstd::string::group_string_axioms;

/// A snapshot of a file.
#[derive(Debug)]
pub struct Snapshot {
    /// Content address (see `compute_id`).
    pub id: SnapshotId,
    /// The file baseline.
    pub file: FileNode,
    /// The delta chain, oldest first.
    pub deltas: Vec<DeltaId>,
    /// The snapshots this one was made from.
    pub parents: Vec<SnapshotId>,
    /// The name of the partition type the snapshot was made in.
    pub partition_type: String,
    /// Creation time, Unix milliseconds.
    pub created_at: i64,
    /// Whether the snapshot was made by a merge with conflicts.
    pub has_conflicts: bool,
}

/// The byte sequences of a list of identifiers.
pub open spec fn ids_view(ids: Seq<ContentId>) -> Seq<Seq<u8>> {
    Seq::new(ids.len(), |i: int| ids[i].0@)
}

/// The view of a snapshot.
pub struct SnapshotV {
    pub id: Seq<u8>,
    pub file: FileNodeV,
    pub deltas: Seq<Seq<u8>>,
    pub parents: Seq<Seq<u8>>,
    pub partition_type: Seq<char>,
    pub created_at: i64,
    pub has_conflicts: bool,
}

impl View for Snapshot {
    type V = SnapshotV;

    open spec fn view(&self) -> SnapshotV {
        SnapshotV {
            id: self.id.0@,
            file: self.file@,
            deltas: ids_view(self.deltas@),
            parents: ids_view(self.parents@),
            partition_type: self.partition_type@,
            created_at: self.created_at,
            has_conflicts: self.has_conflicts,
        }
    }
}

/// A list of identifiers as JSON.
pub open spec fn json_ids(ids: Seq<Seq<u8>>) -> Seq<char> {
    json_list(Seq::new(ids.len(), |i: int| json_bytes(ids[i])))
}

/// The JSON text a snapshot's identifier is the digest of: every field but
/// the identifier and the creation time.
pub open spec fn snapshot_id_json(file: FileNodeV, deltas: Seq<Seq<u8>>, parents: Seq<Seq<u8>>, partition_type: Seq<char>, has_conflicts: bool) -> Seq<char> {
    "{\"file\":"@ + json_file(file) + ",\"deltas\":"@ + json_ids(deltas) + ",\"parents\":"@ + json_ids(parents)
        + ",\"partition_type\":"@ + json_quote(partition_type) + ",\"has_conflicts\":"@ + json_bool(has_conflicts) + "}"@
}

/// The identifier of a snapshot with these contents.
pub open spec fn snapshot_digest(s: SnapshotV) -> Seq<u8> {
    blake3_digest(encode_utf8(snapshot_id_json(s.file, s.deltas, s.parents, s.partition_type, s.has_conflicts)))
}

/// Appends a JSON list of identifiers.
pub fn push_json_ids(s: &mut String, ids: &Vec<ContentId>)
    ensures
        final(s)@ == old(s)@ + json_ids(ids_view(ids@)),
{
    let ghost iv = ids_view(ids@);
    let ghost items = Seq::new(iv.len(), |i: int| json_bytes(iv[i]));
    let ghost s0 = s@;
    push_char(s, '[');
    let mut i: usize = 0;
    while i < ids.len()
        invariant
            i <= ids@.len(),
            iv == ids_view(ids@),
            items == Seq::new(iv.len(), |i: int| json_bytes(iv[i])),
            s@ == s0 + seq!['['] + comma_join(items.take(i as int)),
        decreases ids@.len() - i,
    {
        proof {
            lemma_comma_join_step(items, i as int);
        }
        if i > 0 {
            push_char(s, ',');
        }
        push_json_bytes(s, &ids[i].0);
        proof {
            assert(s@ =~= s0 + seq!['['] + comma_join(items.take(i + 1)));
        }
        i += 1;
    }
    push_char(s, ']');
    proof {
        assert(items.take(ids@.len() as int) =~= items);
        assert(s@ =~= s0 + json_ids(iv));
    }
}

/// A copy of a list of identifiers.
pub fn copy_ids(v: &Vec<ContentId>) -> (r: Vec<ContentId>)
    ensures
        ids_view(r@) == ids_view(v@),
{
    let mut r: Vec<ContentId> = Vec::new();
    let mut i: usize = 0;
    while i < v.len()
        invariant
            i <= v@.len(),
            r@.len() == i,
            forall|j: int| 0 <= j < i ==> (#[trigger] r@[j]).0@ == v@[j].0@,
        decreases v@.len() - i,
    {
        r.push(v[i]);
        i += 1;
    }
    proof {
        assert(ids_view(r@) =~= ids_view(v@));
    }
    r
}

/// The digest of the identifying fields of a snapshot.
fn digest_of(file: &FileNode, deltas: &Vec<ContentId>, parents: &Vec<ContentId>, partition_type: &str, has_conflicts: bool) -> (r: SnapshotId)
    ensures
        r.0@ == blake3_digest(encode_utf8(snapshot_id_json(file@, ids_view(deltas@), ids_view(parents@), partition_type@, has_conflicts))),
{
    let mut s = String::new();
    push_lit(&mut s, "{\"file\":");
    file.push_json(&mut s);
    push_lit(&mut s, ",\"deltas\":");
    push_json_ids(&mut s, deltas);
    push_lit(&mut s, ",\"parents\":");
    push_json_ids(&mut s, parents);
    push_lit(&mut s, ",\"partition_type\":");
    push_json_str(&mut s, partition_type);
    push_lit(&mut s, ",\"has_conflicts\":");
    push_json_bool(&mut s, has_conflicts);
    push_lit(&mut s, "}");
    proof {
        assert(s@ =~= snapshot_id_json(file@, ids_view(deltas@), ids_view(parents@), partition_type@, has_conflicts));
    }
    ContentId::from_content(s.as_str().as_bytes())
}

impl Snapshot {
    /// A first snapshot: the file and one delta, no parents, no partition type.
    pub fn new_initial(file: FileNode, delta_id: DeltaId) -> (r: Snapshot)
        ensures
            r.file@ == file@,
            ids_view(r.deltas@) == seq![delta_id.0@],
            r.parents@.len() == 0,
            r.partition_type@ == Seq::<char>::empty(),
            !r.has_conflicts,
            r.id.0@ == snapshot_digest(r@),
    {
        let mut deltas: Vec<ContentId> = Vec::new();
        deltas.push(delta_id);
        let mut s = Snapshot {
            id: ContentId::zero(),
            file,
            deltas,
            parents: Vec::new(),
            partition_type: String::new(),
            created_at: now_millis(),
            has_conflicts: false,
        };
        s.id = s.compute_id();
        proof {
            assert(ids_view(s.deltas@) =~= seq![delta_id.0@]);
        }
        s
    }

    /// The snapshot one delta past `parent`: the parent's chain with `delta_id`
    /// appended, the parent as its only parent.
    pub fn from_parent(parent: &Snapshot, delta_id: DeltaId, partition_type: String) -> (r: Snapshot)
        ensures
            r.file@ == parent.file@,
            ids_view(r.deltas@) == ids_view(parent.deltas@).push(delta_id.0@),
            ids_view(r.parents@) == seq![parent.id.0@],
            r.partition_type@ == partition_type@,
            !r.has_conflicts,
            r.id.0@ == snapshot_digest(r@),
    {
        let mut deltas = copy_ids(&parent.deltas);
        let ghost d0 = deltas@;
        deltas.push(delta_id);
        let mut parents: Vec<ContentId> = Vec::new();
        parents.push(parent.id);
        let mut s = Snapshot {
            id: ContentId::zero(),
            file: parent.file.duplicate(),
            deltas,
            parents,
            partition_type,
            created_at: now_millis(),
            has_conflicts: false,
        };
        s.id = s.compute_id();
        proof {
            assert(ids_view(s.deltas@) =~= ids_view(d0).push(delta_id.0@));
            assert(ids_view(s.parents@) =~= seq![parent.id.0@]);
        }
        s
    }

    /// This snapshot advanced by one delta, in the same partition type.
    pub fn apply_delta(&self, delta_id: DeltaId) -> (r: Snapshot)
        ensures
            r.file@ == self.file@,
            ids_view(r.deltas@) == ids_view(self.deltas@).push(delta_id.0@),
            ids_view(r.parents@) == seq![self.id.0@],
            r.partition_type@ == self.partition_type@,
            !r.has_conflicts,
            r.id.0@ == snapshot_digest(r@),
    {
        Snapshot::from_parent(self, delta_id, self.partition_type.clone())
    }

    /// A merge snapshot: the first parent's file and chain with `delta_id`
    /// appended, all parents recorded in order.
    pub fn merge(parents: Vec<&Snapshot>, delta_id: DeltaId, partition_type: String, has_conflicts: bool) -> (r: Snapshot)
        requires
            parents@.len() > 0,
        ensures
            r.file@ == parents@[0].file@,
            ids_view(r.deltas@) == ids_view(parents@[0].deltas@).push(delta_id.0@),
            ids_view(r.parents@) == Seq::new(parents@.len(), |i: int| parents@[i].id.0@),
            r.partition_type@ == partition_type@,
            r.has_conflicts == has_conflicts,
            r.id.0@ == snapshot_digest(r@),
    {
        let first = parents[0];
        let mut deltas = copy_ids(&first.deltas);
        let ghost d0 = deltas@;
        deltas.push(delta_id);
        let mut ids: Vec<ContentId> = Vec::new();
        let mut i: usize = 0;
        while i < parents.len()
            invariant
                i <= parents@.len(),
                ids@.len() == i,
                forall|j: int| 0 <= j < i ==> (#[trigger] ids@[j]).0@ == parents@[j].id.0@,
            decreases parents@.len() - i,
        {
            ids.push(parents[i].id);
            i += 1;
        }
        let mut s = Snapshot {
            id: ContentId::zero(),
            file: first.file.duplicate(),
            deltas,
            parents: ids,
            partition_type,
            created_at: now_millis(),
            has_conflicts,
        };
        s.id = s.compute_id();
        proof {
            assert(ids_view(s.deltas@) =~= ids_view(d0).push(delta_id.0@));
            assert(ids_view(s.parents@) =~= Seq::new(parents@.len(), |i: int| parents@[i].id.0@));
        }
        s
    }

    /// The content address: the Blake3 digest of the JSON text of the file,
    /// the delta chain, the parents, the partition type and the conflict flag.
    pub fn compute_id(&self) -> (r: SnapshotId)
        ensures
            r.0@ == snapshot_digest(self@),
    {
        digest_of(&self.file, &self.deltas, &self.parents, self.partition_type.as_str(), self.has_conflicts)
    }

    /// A copy of this snapshot.
    pub fn duplicate(&self) -> (r: Snapshot)
        ensures
            r@ == self@,
    {
        Snapshot {
            id: self.id,
            file: self.file.duplicate(),
            deltas: copy_ids(&self.deltas),
            parents: copy_ids(&self.parents),
            partition_type: self.partition_type.clone(),
            created_at: self.created_at,
            has_conflicts: self.has_conflicts,
        }
    }
}

impl Clone for Snapshot {
    fn clone(&self) -> (r: Self)
        ensures
            r@ == self@,
    {
        self.duplicate()
    }
}

/// Builds a snapshot field by field.
#[derive(Debug)]
pub struct SnapshotBuilder {
    file: Option<FileNode>,
    deltas: Vec<DeltaId>,
    parents: Vec<SnapshotId>,
    partition_type: String,
    has_conflicts: bool,
}

/// The view of a snapshot builder.
pub struct SnapshotBuilderV {
    pub file: Option<FileNodeV>,
    pub deltas: Seq<Seq<u8>>,
    pub parents: Seq<Seq<u8>>,
    pub partition_type: Seq<char>,
    pub has_conflicts: bool,
}

impl View for SnapshotBuilder {
    type V = SnapshotBuilderV;

    closed spec fn view(&self) -> SnapshotBuilderV {
        SnapshotBuilderV {
            file: match self.file { Some(f) => Some(f@), None => None },
            deltas: ids_view(self.deltas@),
            parents: ids_view(self.parents@),
            partition_type: self.partition_type@,
            has_conflicts: self.has_conflicts,
        }
    }
}

impl SnapshotBuilder {
    /// An empty builder: no file, no deltas, no parents, no partition type.
    pub fn new() -> (r: SnapshotBuilder)
        ensures
            r@.file is None,
            r@.deltas.len() == 0,
            r@.parents.len() == 0,
            r@.partition_type.len() == 0,
            !r@.has_conflicts,
    {
        let r = SnapshotBuilder {
            file: None,
            deltas: Vec::new(),
            parents: Vec::new(),
            partition_type: String::new(),
            has_conflicts: false,
        };
        proof {
            assert(ids_view(r.deltas@).len() == 0);
        }
        r
    }

    /// Sets the file.
    pub fn file(self, file: FileNode) -> (r: SnapshotBuilder)
        ensures
            r@ == (SnapshotBuilderV { file: Some(file@), ..self@ }),
    {
        let mut b = self;
        b.file = Some(file);
        b
    }

    /// Appends a delta to the chain.
    pub fn add_delta(self, delta_id: DeltaId) -> (r: SnapshotBuilder)
        ensures
            r@ == (SnapshotBuilderV { deltas: self@.deltas.push(delta_id.0@), ..self@ }),
    {
        let mut b = self;
        let ghost d0 = b.deltas@;
        b.deltas.push(delta_id);
        proof {
            assert(ids_view(b.deltas@) =~= ids_view(d0).push(delta_id.0@));
        }
        b
    }

    /// Adds a parent.
    pub fn with_parent(self, parent: SnapshotId) -> (r: SnapshotBuilder)
        ensures
            r@ == (SnapshotBuilderV { parents: self@.parents.push(parent.0@), ..self@ }),
    {
        let mut b = self;
        let ghost p0 = b.parents@;
        b.parents.push(parent);
        proof {
            assert(ids_view(b.parents@) =~= ids_view(p0).push(parent.0@));
        }
        b
    }

    /// Sets the partition type.
    pub fn with_partition_type(self, partition_type: String) -> (r: SnapshotBuilder)
        ensures
            r@ == (SnapshotBuilderV { partition_type: partition_type@, ..self@ }),
    {
        let mut b = self;
        b.partition_type = partition_type;
        b
    }

    /// Sets the conflict flag.
    pub fn with_conflicts(self, has_conflicts: bool) -> (r: SnapshotBuilder)
        ensures
            r@ == (SnapshotBuilderV { has_conflicts, ..self@ }),
    {
        let mut b = self;
        b.has_conflicts = has_conflicts;
        b
    }

    /// The snapshot built from the fields set, stamped with the current time;
    /// `Err("file is required")` when no file was set.
    pub fn build(self) -> (r: Result<Snapshot, &'static str>)
        ensures
            self@.file is None <==> r is Err,
            r matches Err(e) ==> e@ == "file is required"@,
            r matches Ok(s) ==> {
                &&& Some(s.file@) == self@.file
                &&& ids_view(s.deltas@) == self@.deltas
                &&& ids_view(s.parents@) == self@.parents
                &&& s.partition_type@ == self@.partition_type
                &&& s.has_conflicts == self@.has_conflicts
                &&& s.id.0@ == snapshot_digest(s@)
            },
    {
        let b = self;
        match b.file {
            None => Err("file is required"),
            Some(file) => {
                let mut s = Snapshot {
                    id: ContentId::zero(),
                    file,
                    deltas: b.deltas,
                    parents: b.parents,
                    partition_type: b.partition_type,
                    created_at: now_millis(),
                    has_conflicts: b.has_conflicts,
                };
                s.id = s.compute_id();
                Ok(s)
            },
        }
    }
}

impl Default for SnapshotBuilder {
    fn default() -> (r: SnapshotBuilder)
        ensures
            r@.file is None,
            r@.deltas.len() == 0,
            r@.parents.len() == 0,
            r@.partition_type.len() == 0,
            !r@.has_conflicts,
    {
        SnapshotBuilder::new()
    }
}

} // verus!
