# stratum

A file-edit history store for human and agent collaboration, written in Verus.
Edits go through layers (manual_edit, agent_edit, approval, staged), each a
set of partitions that point at immutable snapshots; a snapshot is a chain of
line-level deltas over a baseline file. Checkpoints commit staged snapshots
into a DAG of history with branches, and a garbage collector prunes what no
branch protects.

## Layout

- `src/model/` — identifiers, file nodes, deltas, snapshots, partitions, layers.
- `src/engine/` — line diffs (computed by `similar`), applying delta chains,
  three-way merge, inverse deltas; `merge_laws.rs` proves what a merge gives
  (a side equal to the base leaves the other side; change regions that lie
  apart are both applied, without conflict).
- `src/layered/`, `src/state_machine/` — the flows between layers and their
  rules, over the storage interfaces of `src/storage/`.
- `src/checkpoint/` — checkpoints, branches, the history DAG and its searches,
  the checkpoint repository.
- `src/git_sync/gc.rs` — garbage collection.
- `src/backup/` — the query of the backup table for a filter, and the check
  of backup metadata that follows it.
- `src/api/` — the service API: requests, responses, errors, and the service
  over a storage backend.
- `app/` — the command line and a JSON-file storage backend.
- `tests/` — tests of the library, with an in-memory backend.

The calls into outside crates (`blake3`, `similar`, `uuid`, `chrono`,
`serde_json`) and a few parts of `std` sit behind small wrappers whose
contracts say what those crates document; every other function in `src/` is
verified against its contract.
