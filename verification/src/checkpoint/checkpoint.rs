//! Checkpoints: immutable, content-addressed commit units over file snapshots.

use crate::json::{json_quote, push_json_bytes, push_json_str, push_lit};
use crate::json::json_bytes;
use crate::model::delta::now_millis;
use crate::model::snapshot::{copy_ids, ids_view, json_ids, push_json_ids};
use crate::model::types::{blake3_digest, CheckpointId, ContentId, SnapshotId};
use vstd::prelude::*;
use vstd::string::StringSliceAdditionalSpecFns;
use vstd::utf8::encode_utf8;

verus! {

broadcast use vstd::string::group_string_axioms;

/// Who made a checkpoint and why, and the Git commit it was pushed as.
#[derive(Debug)]
pub struct CheckpointMetadata {
    /// Author or agent identifier.
    pub author: String,
    /// Commit message.
    pub message: String,
    /// Hash of the Git commit the checkpoint was synchronised to, if any.
    pub git_anchor: Option<String>,
}

/// The view of checkpoint metadata.
pub struct MetadataV {
    pub author: Seq<char>,
    pub message: Seq<char>,
    pub git_anchor: Option<Seq<char>>,
}

impl View for CheckpointMetadata {
    type V = MetadataV;

    open spec fn view(&self) -> MetadataV {
        MetadataV {
            author: self.author@,
            message: self.message@,
            git_anchor: match self.git_anchor { Some(a) => Some(a@), None => None },
        }
    }
}

impl CheckpointMetadata {
    /// Metadata with an author and a message, not yet anchored to Git.
    pub fn new(author: &str, message: &str) -> (r: CheckpointMetadata)
        ensures
            r@ == (MetadataV { author: author@, message: message@, git_anchor: None }),
    {
        CheckpointMetadata { author: author.to_string(), message: message.to_string(), git_anchor: None }
    }

    /// A copy of the metadata.
    pub fn duplicate(&self) -> (r: CheckpointMetadata)
        ensures
            r@ == self@,
    {
        CheckpointMetadata {
            author: self.author.clone(),
            message: self.message.clone(),
            git_anchor: match &self.git_anchor { Some(a) => Some(a.clone()), None => None },
        }
    }
}

/// A checkpoint: the snapshots of every file of a commit and its parent
/// checkpoints (one for a linear commit, several for a merge).
#[derive(Debug)]
pub struct Checkpoint {
    /// Content address (see `compute_id`).
    pub id: CheckpointId,
    /// Parent checkpoints.
    pub parents: Vec<CheckpointId>,
    /// The snapshots of the files of the commit.
    pub baseline_snapshots: Vec<SnapshotId>,
    /// Author, message and Git anchor.
    pub metadata: CheckpointMetadata,
    /// Creation time, Unix milliseconds.
    pub created_at: i64,
}

/// The view of a checkpoint.
pub struct CheckpointV {
    pub id: Seq<u8>,
    pub parents: Seq<Seq<u8>>,
    pub baselines: Seq<Seq<u8>>,
    pub metadata: MetadataV,
    pub created_at: i64,
}

impl View for Checkpoint {
    type V = CheckpointV;

    open spec fn view(&self) -> CheckpointV {
        CheckpointV {
            id: self.id.0@,
            parents: ids_view(self.parents@),
            baselines: ids_view(self.baseline_snapshots@),
            metadata: self.metadata@,
            created_at: self.created_at,
        }
    }
}

/// The JSON text a checkpoint's identifier is the digest of: the checkpoint
/// with its creation time set to 0 and no Git anchor.
pub open spec fn checkpoint_id_json(id: Seq<u8>, parents: Seq<Seq<u8>>, baselines: Seq<Seq<u8>>, author: Seq<char>, message: Seq<char>) -> Seq<char> {
    "{\"id\":"@ + json_bytes(id) + ",\"parents\":"@ + json_ids(parents) + ",\"baseline_snapshots\":"@ + json_ids(baselines)
        + ",\"metadata\":{\"author\":"@ + json_quote(author) + ",\"message\":"@ + json_quote(message)
        + ",\"git_anchor\":null},\"created_at\":0}"@
}

/// The identifier of a checkpoint: the digest of its JSON text without
/// creation time and Git anchor.
pub open spec fn checkpoint_digest(c: CheckpointV) -> Seq<u8> {
    blake3_digest(encode_utf8(checkpoint_id_json(c.id, c.parents, c.baselines, c.metadata.author, c.metadata.message)))
}

/// The all-zero identifier a checkpoint carries while its identifier is computed.
pub open spec fn zero_digest() -> Seq<u8> {
    Seq::new(32, |i: int| 0u8)
}

/// The identifier a new checkpoint with these contents gets.
pub open spec fn new_checkpoint_id(parents: Seq<Seq<u8>>, baselines: Seq<Seq<u8>>, author: Seq<char>, message: Seq<char>) -> Seq<u8> {
    blake3_digest(encode_utf8(checkpoint_id_json(zero_digest(), parents, baselines, author, message)))
}

impl Checkpoint {
    /// A new checkpoint stamped with the current time; its identifier is
    /// computed from its contents with an all-zero identifier in place.
    pub fn new(baseline_snapshots: Vec<SnapshotId>, parents: Vec<CheckpointId>, metadata: CheckpointMetadata) -> (r: Checkpoint)
        ensures
            r@.parents == ids_view(parents@),
            r@.baselines == ids_view(baseline_snapshots@),
            r@.metadata == metadata@,
            r@.id == new_checkpoint_id(r@.parents, r@.baselines, metadata@.author, metadata@.message),
    {
        let mut cp = Checkpoint { id: ContentId::zero(), parents, baseline_snapshots, metadata, created_at: now_millis() };
        cp.id = cp.compute_id();
        cp
    }

    /// A new checkpoint of a single snapshot.
    pub fn new_single(baseline_snapshot: SnapshotId, parents: Vec<CheckpointId>, metadata: CheckpointMetadata) -> (r: Checkpoint)
        ensures
            r@.parents == ids_view(parents@),
            r@.baselines == seq![baseline_snapshot.0@],
            r@.metadata == metadata@,
            r@.id == new_checkpoint_id(r@.parents, r@.baselines, metadata@.author, metadata@.message),
    {
        let mut v: Vec<SnapshotId> = Vec::new();
        v.push(baseline_snapshot);
        proof {
            assert(ids_view(v@) =~= seq![baseline_snapshot.0@]);
        }
        Checkpoint::new(v, parents, metadata)
    }

    /// The content address: the digest of the checkpoint's JSON text with the
    /// creation time set to 0 and no Git anchor, so neither affects it.
    pub fn compute_id(&self) -> (r: CheckpointId)
        ensures
            r.0@ == checkpoint_digest(self@),
    {
        let mut s = String::new();
        push_lit(&mut s, "{\"id\":");
        push_json_bytes(&mut s, &self.id.0);
        push_lit(&mut s, ",\"parents\":");
        push_json_ids(&mut s, &self.parents);
        push_lit(&mut s, ",\"baseline_snapshots\":");
        push_json_ids(&mut s, &self.baseline_snapshots);
        push_lit(&mut s, ",\"metadata\":{\"author\":");
        push_json_str(&mut s, self.metadata.author.as_str());
        push_lit(&mut s, ",\"message\":");
        push_json_str(&mut s, self.metadata.message.as_str());
        push_lit(&mut s, ",\"git_anchor\":null},\"created_at\":0}");
        proof {
            assert(s@ =~= checkpoint_id_json(self@.id, self@.parents, self@.baselines, self@.metadata.author, self@.metadata.message));
        }
        ContentId::from_content(s.as_str().as_bytes())
    }

    /// A copy of the checkpoint.
    pub fn duplicate(&self) -> (r: Checkpoint)
        ensures
            r@ == self@,
    {
        Checkpoint {
            id: self.id,
            parents: copy_ids(&self.parents),
            baseline_snapshots: copy_ids(&self.baseline_snapshots),
            metadata: self.metadata.duplicate(),
            created_at: self.created_at,
        }
    }
}

impl Clone for Checkpoint {
    fn clone(&self) -> (r: Self)
        ensures
            r@ == self@,
    {
        self.duplicate()
    }
}

/// Content addressing: two new checkpoints with the same parents, snapshots,
/// author and message get the same identifier, whatever their creation times
/// and Git anchors.
pub proof fn lemma_same_content_same_id(a: CheckpointV, b: CheckpointV)
    requires
        a.id == new_checkpoint_id(a.parents, a.baselines, a.metadata.author, a.metadata.message),
        b.id == new_checkpoint_id(b.parents, b.baselines, b.metadata.author, b.metadata.message),
        a.parents == b.parents,
        a.baselines == b.baselines,
        a.metadata.author == b.metadata.author,
        a.metadata.message == b.metadata.message,
    ensures
        a.id == b.id,
{
}

/// Builds a checkpoint field by field.
#[derive(Debug)]
pub struct CheckpointBuilder {
    parents: Vec<CheckpointId>,
    baseline_snapshots: Vec<SnapshotId>,
    author: String,
    message: String,
    git_anchor: Option<String>,
}

/// The view of a checkpoint builder.
pub struct CheckpointBuilderV {
    pub parents: Seq<Seq<u8>>,
    pub baselines: Seq<Seq<u8>>,
    pub author: Seq<char>,
    pub message: Seq<char>,
    pub git_anchor: Option<Seq<char>>,
}

impl View for CheckpointBuilder {
    type V = CheckpointBuilderV;

    closed spec fn view(&self) -> CheckpointBuilderV {
        CheckpointBuilderV {
            parents: ids_view(self.parents@),
            baselines: ids_view(self.baseline_snapshots@),
            author: self.author@,
            message: self.message@,
            git_anchor: match self.git_anchor { Some(a) => Some(a@), None => None },
        }
    }
}

impl CheckpointBuilder {
    /// An empty builder: no parents, no snapshots, author `"unknown"`, empty message.
    pub fn new() -> (r: CheckpointBuilder)
        ensures
            r@ == (CheckpointBuilderV { parents: seq![], baselines: seq![], author: "unknown"@, message: seq![], git_anchor: None }),
    {
        let r = CheckpointBuilder {
            parents: Vec::new(),
            baseline_snapshots: Vec::new(),
            author: "unknown".to_string(),
            message: String::new(),
            git_anchor: None,
        };
        proof {
            assert(ids_view(r.parents@) =~= Seq::<Seq<u8>>::empty());
            assert(ids_view(r.baseline_snapshots@) =~= Seq::<Seq<u8>>::empty());
        }
        r
    }

    /// Adds a parent.
    pub fn parent(self, parent_id: CheckpointId) -> (r: CheckpointBuilder)
        ensures
            r@ == (CheckpointBuilderV { parents: self@.parents.push(parent_id.0@), ..self@ }),
    {
        let mut b = self;
        let ghost p0 = b.parents@;
        b.parents.push(parent_id);
        proof {
            assert(ids_view(b.parents@) =~= ids_view(p0).push(parent_id.0@));
        }
        b
    }

    /// Sets all parents.
    pub fn parents(self, parents: Vec<CheckpointId>) -> (r: CheckpointBuilder)
        ensures
            r@ == (CheckpointBuilderV { parents: ids_view(parents@), ..self@ }),
    {
        let mut b = self;
        b.parents = parents;
        b
    }

    /// Adds a snapshot.
    pub fn baseline_snapshot(self, snapshot_id: SnapshotId) -> (r: CheckpointBuilder)
        ensures
            r@ == (CheckpointBuilderV { baselines: self@.baselines.push(snapshot_id.0@), ..self@ }),
    {
        let mut b = self;
        let ghost s0 = b.baseline_snapshots@;
        b.baseline_snapshots.push(snapshot_id);
        proof {
            assert(ids_view(b.baseline_snapshots@) =~= ids_view(s0).push(snapshot_id.0@));
        }
        b
    }

    /// Sets all snapshots.
    pub fn baseline_snapshots(self, snapshots: Vec<SnapshotId>) -> (r: CheckpointBuilder)
        ensures
            r@ == (CheckpointBuilderV { baselines: ids_view(snapshots@), ..self@ }),
    {
        let mut b = self;
        b.baseline_snapshots = snapshots;
        b
    }

    /// Sets the author.
    pub fn author(self, author: &str) -> (r: CheckpointBuilder)
        ensures
            r@ == (CheckpointBuilderV { author: author@, ..self@ }),
    {
        let mut b = self;
        b.author = author.to_string();
        b
    }

    /// Sets the message.
    pub fn message(self, message: &str) -> (r: CheckpointBuilder)
        ensures
            r@ == (CheckpointBuilderV { message: message@, ..self@ }),
    {
        let mut b = self;
        b.message = message.to_string();
        b
    }

    /// Sets the Git anchor.
    pub fn git_anchor(self, anchor: &str) -> (r: CheckpointBuilder)
        ensures
            r@ == (CheckpointBuilderV { git_anchor: Some(anchor@), ..self@ }),
    {
        let mut b = self;
        b.git_anchor = Some(anchor.to_string());
        b
    }

    /// The checkpoint built from the fields set; an error when no snapshot was added.
    pub fn build(self) -> (r: Result<Checkpoint, &'static str>)
        ensures
            self@.baselines.len() == 0 <==> r is Err,
            r matches Err(e) ==> e@ == "at least one baseline_snapshot is required"@,
            r matches Ok(c) ==> {
                &&& c@.parents == self@.parents
                &&& c@.baselines == self@.baselines
                &&& c@.metadata == (MetadataV { author: self@.author, message: self@.message, git_anchor: self@.git_anchor })
                &&& c@.id == new_checkpoint_id(self@.parents, self@.baselines, self@.author, self@.message)
            },
    {
        let b = self;
        if b.baseline_snapshots.len() == 0 {
            return Err("at least one baseline_snapshot is required");
        }
        let metadata = CheckpointMetadata { author: b.author, message: b.message, git_anchor: b.git_anchor };
        Ok(Checkpoint::new(b.baseline_snapshots, b.parents, metadata))
    }
}

impl Default for CheckpointBuilder {
    fn default() -> (r: CheckpointBuilder)
        ensures
            r@ == (CheckpointBuilderV { parents: seq![], baselines: seq![], author: "unknown"@, message: seq![], git_anchor: None }),
    {
        CheckpointBuilder::new()
    }
}

} // verus!
