//! Request-analytics middleware core: path classification, geographic
//! origin resolution with a deterministic fallback policy, recording
//! orchestration, and content-negotiated rendering of analytics snapshots.

pub mod classifier;
pub mod codec;
pub mod geo;
pub mod snapshot;
pub mod middleware;
pub mod numeral;
pub mod reader;
pub mod span;
pub mod text;
