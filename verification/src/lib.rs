//! Relay between a cryptocurrency full node and a pool of local miners.
//!
//! The library holds the relay's logic: decoding puzzle seeds, rescaling
//! difficulty targets, caching the expensive seed-derived hashing context,
//! installing fresh puzzles into the shared mining context, and deciding
//! how each miner request is answered. All I/O (the HTTP server, the
//! upstream node calls, logging) lives outside the library and hands it
//! plain values.

pub mod context;
pub mod difficulty;
pub mod dispatch;
pub mod jsonfmt;
pub mod hexdec;
pub mod puzzle;
