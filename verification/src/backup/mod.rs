//! Backups of snapshots: the filter a query of the backup table takes, and the
//! query it turns into (the statement and its parameters, in order).

pub mod query;
