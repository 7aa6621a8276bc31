//! The request and response types of the service API, and its errors.

use crate::text::append_str;
use vstd::prelude::*;

verus! {

broadcast use vstd::string::group_string_axioms;

/// A JSON value of `serde_json`.
#[verifier::external_type_specification]
#[verifier::external_body]
pub struct ExJsonValue(serde_json::Value);

/// An error of the service API: a code, a message, a hint and details.
#[derive(Debug)]
pub struct ApiError {
    pub code: String,
    pub message: String,
    pub suggestion: Option<String>,
    pub details: Option<serde_json::Value>,
}

/// The view of an API error's code, message and hint.
pub open spec fn api_error_view(e: ApiError) -> (Seq<char>, Seq<char>, Option<Seq<char>>) {
    (e.code@, e.message@, match e.suggestion { Some(s) => Some(s@), None => None })
}

fn api_error(code: &str, message: String, suggestion: Option<&str>) -> (r: ApiError)
    ensures
        api_error_view(r) == (code@, message@, match suggestion { Some(s) => Some(s@), None => None }),
        r.details is None,
{
    ApiError {
        code: code.to_string(),
        message,
        suggestion: match suggestion { Some(s) => Some(s.to_string()), None => None },
        details: None,
    }
}

impl ApiError {
    /// `NOT_FOUND`: "<entity> not found", with a hint to check the name or identifier.
    pub fn not_found(entity: String) -> (r: ApiError)
        ensures
            api_error_view(r) == ("NOT_FOUND"@, entity@ + " not found"@, Some("check that the name or ID is correct"@)),
            r.details is None,
    {
        let mut m = entity;
        append_str(&mut m, " not found");
        api_error("NOT_FOUND", m, Some("check that the name or ID is correct"))
    }

    /// `INVALID_PARAMS`, with a hint to check the parameters.
    pub fn invalid_params(msg: String) -> (r: ApiError)
        ensures
            api_error_view(r) == ("INVALID_PARAMS"@, msg@, Some("check the provided parameters"@)),
            r.details is None,
    {
        api_error("INVALID_PARAMS", msg, Some("check the provided parameters"))
    }

    /// `STORAGE_ERROR`, with a hint to check the database.
    pub fn storage(msg: String) -> (r: ApiError)
        ensures
            api_error_view(r) == ("STORAGE_ERROR"@, msg@, Some("check database integrity and permissions"@)),
            r.details is None,
    {
        api_error("STORAGE_ERROR", msg, Some("check database integrity and permissions"))
    }

    /// `ENGINE_ERROR`.
    pub fn engine(msg: String) -> (r: ApiError)
        ensures
            api_error_view(r) == ("ENGINE_ERROR"@, msg@, None::<Seq<char>>),
            r.details is None,
    {
        api_error("ENGINE_ERROR", msg, None)
    }

    /// `STATE_MACHINE_ERROR`.
    pub fn state_machine(msg: String) -> (r: ApiError)
        ensures
            api_error_view(r) == ("STATE_MACHINE_ERROR"@, msg@, None::<Seq<char>>),
            r.details is None,
    {
        api_error("STATE_MACHINE_ERROR", msg, None)
    }

    /// `CHECKPOINT_ERROR`.
    pub fn checkpoint(msg: String) -> (r: ApiError)
        ensures
            api_error_view(r) == ("CHECKPOINT_ERROR"@, msg@, None::<Seq<char>>),
            r.details is None,
    {
        api_error("CHECKPOINT_ERROR", msg, None)
    }

    /// `GIT_SYNC_ERROR`.
    pub fn git_sync(msg: String) -> (r: ApiError)
        ensures
            api_error_view(r) == ("GIT_SYNC_ERROR"@, msg@, None::<Seq<char>>),
            r.details is None,
    {
        api_error("GIT_SYNC_ERROR", msg, None)
    }

    /// `GC_ERROR`.
    pub fn gc(msg: String) -> (r: ApiError)
        ensures
            api_error_view(r) == ("GC_ERROR"@, msg@, None::<Seq<char>>),
            r.details is None,
    {
        api_error("GC_ERROR", msg, None)
    }

    /// `INTERNAL_ERROR`.
    pub fn internal(msg: String) -> (r: ApiError)
        ensures
            api_error_view(r) == ("INTERNAL_ERROR"@, msg@, None::<Seq<char>>),
            r.details is None,
    {
        api_error("INTERNAL_ERROR", msg, None)
    }

    /// `ERROR`.
    pub fn general(msg: String) -> (r: ApiError)
        ensures
            api_error_view(r) == ("ERROR"@, msg@, None::<Seq<char>>),
            r.details is None,
    {
        api_error("ERROR", msg, None)
    }

    /// What `Display` prints: `[<code>] <message>`.
    pub fn to_string(&self) -> (r: String)
        ensures
            r@ == "["@ + self.code@ + "] "@ + self.message@,
    {
        let mut s = String::new();
        append_str(&mut s, "[");
        append_str(&mut s, self.code.as_str());
        append_str(&mut s, "] ");
        append_str(&mut s, self.message.as_str());
        s
    }
}

/// Initialising a repository: where its database goes and the Git state to start from.
#[derive(Debug)]
pub struct InitRequest {
    pub db_path: Option<String>,
    pub git_repo: Option<String>,
    pub git_ref: Option<String>,
}

/// A manual edit of a file (new content, or none to read it elsewhere).
#[derive(Debug)]
pub struct EditRequest {
    pub file: String,
    pub content: Option<String>,
}

/// An agent's edit of a file.
#[derive(Debug)]
pub struct AgentEditRequest {
    pub agent_id: String,
    pub file: String,
    pub content: Option<String>,
}

/// Submitting an agent's edits for approval.
#[derive(Debug)]
pub struct AgentSubmitRequest {
    pub agent_id: String,
}

/// Approving an agent's submitted edits.
#[derive(Debug)]
pub struct ApproveRequest {
    pub agent_id: String,
}

/// Committing the staged state as a checkpoint.
#[derive(Debug)]
pub struct CommitRequest {
    pub message: String,
    pub author: Option<String>,
}

/// Listing checkpoint history.
#[derive(Debug)]
pub struct LogRequest {
    pub count: Option<usize>,
}

/// Creating a branch.
#[derive(Debug)]
pub struct BranchCreateRequest {
    pub name: String,
}

/// Switching to a branch.
#[derive(Debug)]
pub struct BranchSwitchRequest {
    pub name: String,
}

/// Merging a branch into the current one.
#[derive(Debug)]
pub struct MergeRequest {
    pub branch: String,
    pub message: Option<String>,
}

/// Backing up a snapshot.
#[derive(Debug)]
pub struct BackupRequest {
    pub snapshot_id: String,
    pub label: Option<String>,
}

/// Restoring a backup.
#[derive(Debug)]
pub struct RestoreRequest {
    pub backup_id: String,
}

/// Pushing to Git.
#[derive(Debug)]
pub struct PushRequest {
    pub remote: Option<String>,
    pub git_repo: String,
    pub message: Option<String>,
}

/// Pulling from Git.
#[derive(Debug)]
pub struct PullRequest {
    pub remote: Option<String>,
    pub git_repo: String,
    pub git_ref: Option<String>,
}

/// Collecting garbage.
#[derive(Debug)]
pub struct GcRequest {
}

/// Showing the changes of a target (staged, a checkpoint, a partition).
#[derive(Debug)]
pub struct ShowRequest {
    pub show_what: String,
    pub target_id: Option<String>,
}

/// The changes of a target, file by file.
#[derive(Debug)]
pub struct ShowResponse {
    pub target: String,
    pub diffs: Vec<FileDiff>,
}

/// The changes of one file.
#[derive(Debug)]
pub struct FileDiff {
    pub file_path: String,
    pub unified_diff: String,
    pub inserts: usize,
    pub deletes: usize,
}

/// What initialisation created.
#[derive(Debug)]
pub struct InitResponse {
    pub db_path: String,
    pub manual_partition_id: String,
    pub staged_partition_id: String,
    pub branch: String,
}

/// The state of every partition.
#[derive(Debug)]
pub struct StatusResponse {
    pub partitions: Vec<PartitionInfo>,
}

/// The state of one partition.
#[derive(Debug)]
pub struct PartitionInfo {
    pub layer: String,
    pub name: String,
    pub current_snapshot: String,
    pub history_len: usize,
}

/// The snapshots an edit produced.
#[derive(Debug)]
pub struct EditResponse {
    pub snapshot_id: String,
    pub staged_snapshot_id: Option<String>,
}

/// The snapshot a submission produced.
#[derive(Debug)]
pub struct SubmitResponse {
    pub snapshot_id: String,
}

/// The snapshots an approval produced.
#[derive(Debug)]
pub struct ApproveResponse {
    pub integrated_snapshot_id: String,
    pub staged_snapshot_id: String,
}

/// The checkpoint a commit produced.
#[derive(Debug)]
pub struct CommitResponse {
    pub checkpoint_id: String,
    pub message: String,
}

/// Checkpoint history.
#[derive(Debug)]
pub struct LogResponse {
    pub checkpoints: Vec<CheckpointInfo>,
    pub total: usize,
}

/// One checkpoint, with identifiers in hexadecimal.
#[derive(Debug)]
pub struct CheckpointInfo {
    pub id: String,
    pub author: String,
    pub message: String,
    pub parents: Vec<String>,
    pub snapshots: Vec<String>,
    pub created_at: i64,
    pub git_anchor: Option<String>,
}

/// The branch created.
#[derive(Debug)]
pub struct BranchCreateResponse {
    pub name: String,
    pub head: String,
}

/// The branch switched to.
#[derive(Debug)]
pub struct BranchSwitchResponse {
    pub name: String,
    pub checkpoint_id: String,
}

/// Every branch and the current one.
#[derive(Debug)]
pub struct BranchListResponse {
    pub branches: Vec<BranchInfo>,
    pub current: Option<String>,
}

/// One branch.
#[derive(Debug)]
pub struct BranchInfo {
    pub name: String,
    pub head: String,
    pub updated_at: String,
    pub is_current: bool,
}

/// The checkpoint a merge produced.
#[derive(Debug)]
pub struct MergeResponse {
    pub checkpoint_id: String,
    pub source_branch: String,
    pub target_branch: String,
}

/// The backup made.
#[derive(Debug)]
pub struct BackupResponse {
    pub backup_id: String,
    pub source_snapshot_id: String,
    pub label: Option<String>,
}

/// The backup restored.
#[derive(Debug)]
pub struct RestoreResponse {
    pub backup_id: String,
    pub file: String,
    pub deltas_restored: usize,
}

/// What a garbage collection removed.
#[derive(Debug)]
pub struct GcResponse {
    pub removed_checkpoints: usize,
    pub removed_snapshots: usize,
    pub freed_bytes: u64,
    pub delta_chain_depth_triggered: bool,
}

/// The Git commit a push produced.
#[derive(Debug)]
pub struct PushResponse {
    pub remote: String,
    pub git_commit_hash: String,
}

/// What a pull fetched.
#[derive(Debug)]
pub struct PullResponse {
    pub remote: String,
    pub git_ref: String,
}

impl Default for InitRequest {
    fn default() -> (r: InitRequest)
        ensures
            r.db_path matches Some(p) && p@ == ".stratum/stratum.db"@,
            r.git_repo is None,
            r.git_ref is None,
    {
        InitRequest { db_path: Some(".stratum/stratum.db".to_string()), git_repo: None, git_ref: None }
    }
}

} // verus!
