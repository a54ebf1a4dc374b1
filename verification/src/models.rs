//! The records the logger writes and the market descriptions it reads.

pub mod activity;
pub mod events;
pub mod market;
