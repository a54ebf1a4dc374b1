//! The market data feeds: the Gamma REST API and the CLOB websocket.

pub mod gamma;
pub mod websocket;
