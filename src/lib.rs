//! Privacy-respecting counter of inbound TCP connection attempts.
//!
//! The library holds the logic of the counter: decoding captured frames into
//! connection records, aggregating them by source address and destination
//! port, rendering the grouped report, anonymizing addresses, the capture
//! filter, and the decisions of the capture loop.

pub mod address;
pub mod text;
pub mod protect;
pub mod collector;
pub mod report;
pub mod capture;
pub mod context;
