pub mod api;
pub mod backup;
pub mod checkpoint;
pub mod cli;
pub mod engine;
pub mod error;
pub mod git_sync;
pub mod json;
pub mod layered;
pub mod model;
pub mod state_machine;
pub mod storage;
pub mod text;
