//! Verified core of a trading engine for binary-option order books: order
//! and token sides, strategy signal encoding, log-line and timestamp
//! formatting, the dashboard event ring and Chainlink round-data decoding.

pub mod analytics;
pub mod calendar;
pub mod error;
pub mod event_buffer;
pub mod gate;
pub mod logger;
pub mod oracle;
pub mod signals;
pub mod text;
pub mod types;
