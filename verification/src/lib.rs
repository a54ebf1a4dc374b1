//! Verified core of a Polymarket order-book logger and its back-testing replayer.

pub mod api;
pub mod backtest;
pub mod error;
pub mod models;
pub mod numeric;
pub mod storage;
pub mod text;
