pub mod diff;
pub mod inverse;
pub mod line_ops;
pub mod merge;
pub mod merge_laws;
