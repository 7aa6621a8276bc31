pub mod cli;
pub mod service;
pub mod types;
