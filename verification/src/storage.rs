//! Naming, scheduling and buffering of logged market sessions.

pub mod manager;
pub mod parquet;
pub mod session;
