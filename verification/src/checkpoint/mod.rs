pub mod branch;
pub mod checkpoint;
pub mod dag;
pub mod graph;
pub mod repo;
pub mod restore;
