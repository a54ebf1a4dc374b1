//! Order-book reconstruction from logged book levels.

pub mod book_replay;
pub mod orderbook;
pub mod stats_accumulator;
pub mod traits;
