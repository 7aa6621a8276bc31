//! The file a chain of changes is based on.

use crate::json::{json_bytes, json_quote, push_json_bytes, push_json_str, push_lit};
use crate::model::types::{blake3_digest, blake3_hash};
use vstd::prelude::*;

verus! {

broadcast use vstd::string::group_string_axioms;

/// A file baseline: the file's path (relative to the repository root) and the
/// Blake3 digest of its content.
#[derive(Debug)]
pub struct FileNode {
    pub file_path: String,
    pub base_hash: [u8; 32],
}

/// The view of a file baseline.
pub struct FileNodeV {
    pub path: Seq<char>,
    pub hash: Seq<u8>,
}

impl View for FileNode {
    type V = FileNodeV;

    open spec fn view(&self) -> FileNodeV {
        FileNodeV { path: self.file_path@, hash: self.base_hash@ }
    }
}

impl Clone for FileNode {
    fn clone(&self) -> (r: Self)
        ensures
            r@ == self@,
    {
        self.duplicate()
    }
}

/// The JSON text of a file baseline.
pub open spec fn json_file(f: FileNodeV) -> Seq<char> {
    "{\"file_path\":"@ + json_quote(f.path) + ",\"base_hash\":"@ + json_bytes(f.hash) + "}"@
}

impl FileNode {
    /// The baseline of `content` at `file_path`.
    pub fn new(file_path: String, content: &[u8]) -> (r: FileNode)
        ensures
            r.file_path@ == file_path@,
            r.base_hash@ == blake3_digest(content@),
    {
        FileNode { file_path, base_hash: blake3_hash(content) }
    }

    /// The path as text.
    pub fn path_str(&self) -> (r: &str)
        ensures
            r@ == self.file_path@,
    {
        self.file_path.as_str()
    }

    /// A copy of this baseline.
    pub fn duplicate(&self) -> (r: FileNode)
        ensures
            r@ == self@,
    {
        FileNode { file_path: self.file_path.clone(), base_hash: self.base_hash }
    }

    /// Appends the JSON text of this baseline.
    pub fn push_json(&self, s: &mut String)
        ensures
            final(s)@ == old(s)@ + json_file(self@),
    {
        push_lit(s, "{\"file_path\":");
        push_json_str(s, self.file_path.as_str());
        push_lit(s, ",\"base_hash\":");
        push_json_bytes(s, &self.base_hash);
        push_lit(s, "}");
        proof {
            assert(final(s)@ =~= old(s)@ + json_file(self@));
        }
    }
}

} // verus!
