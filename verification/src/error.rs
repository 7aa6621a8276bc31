//! Error types.

use crate::text::append_str;
use vstd::prelude::*;

verus! {

broadcast use vstd::string::group_string_axioms;

/// Exit status for success.
pub const EXIT_SUCCESS: i32 = 0;
/// Exit status for a general error.
pub const EXIT_GENERAL_ERROR: i32 = 1;
/// Exit status for a usage error.
pub const EXIT_USAGE_ERROR: i32 = 2;

/// Errors of the storage tier.
#[derive(Debug)]
pub enum StorageError {
    NotFound(String),
    ConstraintViolation(String),
    Serialization(String),
    /// A database failure, with the database's message.
    Database(String),
    Migration(String),
    /// An I/O failure, with the system's message.
    Io(String),
}

/// The library's error type.
#[derive(Debug)]
pub enum StratumError {
    Storage(StorageError),
    Engine(String),
    StateMachine(String),
    Checkpoint(String),
    GitSync(String),
    Gc(String),
    Cli { context: String, suggestion: Option<String> },
    General(String),
    Serialization(String),
    NotFound(String),
}

/// The message of a storage error.
pub open spec fn storage_text(e: StorageError) -> Seq<char> {
    match e {
        StorageError::NotFound(m) => "Record not found: "@ + m@,
        StorageError::ConstraintViolation(m) => "Binding violation: "@ + m@,
        StorageError::Serialization(m) => "Serialization error: "@ + m@,
        StorageError::Database(m) => "Database error: "@ + m@,
        StorageError::Migration(m) => "Migration error: "@ + m@,
        StorageError::Io(m) => "IO error: "@ + m@,
    }
}

/// The message of an error.
pub open spec fn error_text(e: StratumError) -> Seq<char> {
    match e {
        StratumError::Storage(s) => "Storage layer error: "@ + storage_text(s),
        StratumError::Engine(m) => "Engine error: "@ + m@,
        StratumError::StateMachine(m) => "State machine error: "@ + m@,
        StratumError::Checkpoint(m) => "Checkpoint error: "@ + m@,
        StratumError::GitSync(m) => "Git synchronization error: "@ + m@,
        StratumError::Gc(m) => "GC error: "@ + m@,
        StratumError::Cli { context, .. } => context@,
        StratumError::General(m) => m@,
        StratumError::Serialization(m) => "Serialization error: "@ + m@,
        StratumError::NotFound(m) => "Not found: "@ + m@,
    }
}

/// The command-line rendering of an error: what failed, the detail, and a
/// hint where there is one.
pub open spec fn cli_text(e: StratumError) -> Seq<char> {
    match e {
        StratumError::Cli { context, suggestion } => match suggestion {
            Some(s) => "error: "@ + context@ + "\n  hint: "@ + s@,
            None => "error: "@ + context@,
        },
        StratumError::NotFound(m) => "error: "@ + m@ + " not found\n  hint: check that the name or ID is correct"@,
        StratumError::Storage(s) => "error: storage operation failed\n  detail: "@ + storage_text(s)
            + "\n  hint: check database integrity and permissions"@,
        StratumError::Engine(m) => "error: engine operation failed\n  detail: "@ + m@,
        StratumError::StateMachine(m) => "error: state transition rejected\n  detail: "@ + m@,
        StratumError::Checkpoint(m) => "error: checkpoint operation failed\n  detail: "@ + m@,
        StratumError::GitSync(m) => "error: git sync failed\n  detail: "@ + m@,
        StratumError::Gc(m) => "error: garbage collection failed\n  detail: "@ + m@,
        StratumError::General(m) => "error: "@ + m@,
        StratumError::Serialization(m) => "error: serialization failed\n  detail: "@ + m@,
    }
}

fn prefixed(prefix: &str, m: &str) -> (r: String)
    ensures
        r@ == prefix@ + m@,
{
    let mut s = String::new();
    append_str(&mut s, prefix);
    append_str(&mut s, m);
    s
}

impl StorageError {
    /// The error's message (what `Display` prints).
    pub fn to_string(&self) -> (r: String)
        ensures
            r@ == storage_text(*self),
    {
        match self {
            StorageError::NotFound(m) => prefixed("Record not found: ", m.as_str()),
            StorageError::ConstraintViolation(m) => prefixed("Binding violation: ", m.as_str()),
            StorageError::Serialization(m) => prefixed("Serialization error: ", m.as_str()),
            StorageError::Database(m) => prefixed("Database error: ", m.as_str()),
            StorageError::Migration(m) => prefixed("Migration error: ", m.as_str()),
            StorageError::Io(m) => prefixed("IO error: ", m.as_str()),
        }
    }
}

impl StratumError {
    /// The error's message (what `Display` prints).
    pub fn to_string(&self) -> (r: String)
        ensures
            r@ == error_text(*self),
    {
        match self {
            StratumError::Storage(e) => {
                let t = e.to_string();
                prefixed("Storage layer error: ", t.as_str())
            },
            StratumError::Engine(m) => prefixed("Engine error: ", m.as_str()),
            StratumError::StateMachine(m) => prefixed("State machine error: ", m.as_str()),
            StratumError::Checkpoint(m) => prefixed("Checkpoint error: ", m.as_str()),
            StratumError::GitSync(m) => prefixed("Git synchronization error: ", m.as_str()),
            StratumError::Gc(m) => prefixed("GC error: ", m.as_str()),
            StratumError::Cli { context, .. } => context.clone(),
            StratumError::General(m) => m.clone(),
            StratumError::Serialization(m) => prefixed("Serialization error: ", m.as_str()),
            StratumError::NotFound(m) => prefixed("Not found: ", m.as_str()),
        }
    }

    /// The process exit status for the error: usage errors (`Cli`) exit with
    /// 2, every other error with 1.
    pub fn exit_code(&self) -> (r: i32)
        ensures
            r == if self is Cli { EXIT_USAGE_ERROR } else { EXIT_GENERAL_ERROR },
    {
        match self {
            StratumError::Cli { .. } => EXIT_USAGE_ERROR,
            StratumError::NotFound(_) => EXIT_GENERAL_ERROR,
            _ => EXIT_GENERAL_ERROR,
        }
    }

    /// The error formatted for the command line, with its detail and a hint
    /// where there is one.
    pub fn format_cli(&self) -> (r: String)
        ensures
            r@ == cli_text(*self),
    {
        let mut s = String::new();
        match self {
            StratumError::Cli { context, suggestion } => {
                append_str(&mut s, "error: ");
                append_str(&mut s, context.as_str());
                match suggestion {
                    Some(h) => {
                        append_str(&mut s, "\n  hint: ");
                        append_str(&mut s, h.as_str());
                    },
                    None => {},
                }
            },
            StratumError::NotFound(m) => {
                append_str(&mut s, "error: ");
                append_str(&mut s, m.as_str());
                append_str(&mut s, " not found\n  hint: check that the name or ID is correct");
            },
            StratumError::Storage(e) => {
                let t = e.to_string();
                append_str(&mut s, "error: storage operation failed\n  detail: ");
                append_str(&mut s, t.as_str());
                append_str(&mut s, "\n  hint: check database integrity and permissions");
            },
            StratumError::Engine(m) => {
                append_str(&mut s, "error: engine operation failed\n  detail: ");
                append_str(&mut s, m.as_str());
            },
            StratumError::StateMachine(m) => {
                append_str(&mut s, "error: state transition rejected\n  detail: ");
                append_str(&mut s, m.as_str());
            },
            StratumError::Checkpoint(m) => {
                append_str(&mut s, "error: checkpoint operation failed\n  detail: ");
                append_str(&mut s, m.as_str());
            },
            StratumError::GitSync(m) => {
                append_str(&mut s, "error: git sync failed\n  detail: ");
                append_str(&mut s, m.as_str());
            },
            StratumError::Gc(m) => {
                append_str(&mut s, "error: garbage collection failed\n  detail: ");
                append_str(&mut s, m.as_str());
            },
            StratumError::General(m) => {
                append_str(&mut s, "error: ");
                append_str(&mut s, m.as_str());
            },
            StratumError::Serialization(m) => {
                append_str(&mut s, "error: serialization failed\n  detail: ");
                append_str(&mut s, m.as_str());
            },
        }
        s
    }

    /// A usage error with a hint.
    pub fn cli(context: String, suggestion: String) -> (r: StratumError)
        ensures
            r matches StratumError::Cli { context: c, suggestion: Some(h) } && c@ == context@ && h@ == suggestion@,
    {
        StratumError::Cli { context, suggestion: Some(suggestion) }
    }

    /// A usage error without a hint.
    pub fn cli_simple(context: String) -> (r: StratumError)
        ensures
            r matches StratumError::Cli { context: c, suggestion: None } && c@ == context@,
    {
        StratumError::Cli { context, suggestion: None }
    }
}

impl From<StorageError> for StratumError {
    fn from(e: StorageError) -> (r: StratumError)
        ensures
            r == StratumError::Storage(e),
    {
        StratumError::Storage(e)
    }
}

impl vstd::std_specs::convert::FromSpecImpl<StorageError> for StratumError {
    open spec fn obeys_from_spec() -> bool {
        true
    }

    open spec fn from_spec(v: StorageError) -> StratumError {
        StratumError::Storage(v)
    }
}

} // verus!
