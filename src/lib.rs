//! Per-stream reordering relay for RTP-like datagrams: header parsing,
//! wraparound-aware stream buffers, the drain scheduler's state machine,
//! the stream registry and latency telemetry.
pub mod buffer;
pub mod drain;
pub mod header;
pub mod registry;
pub mod sequence;
pub mod stats;
