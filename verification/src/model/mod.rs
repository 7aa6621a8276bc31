pub mod delta;
pub mod file_node;
pub mod partition;
pub mod snapshot;
pub mod types;
pub mod layer;
