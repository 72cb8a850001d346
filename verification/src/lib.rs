//! A recursive DNS proxy core: per-datagram query pipeline combining a
//! threat-membership index, a feature-scoring classifier, a TTL-bounded
//! response cache with single-flight fill, upstream selection with failover,
//! and a non-blocking telemetry tap.
//!
//! Everything here is pure logic over plain values; sockets, clocks and
//! persistence live in the surrounding application, which hands in the
//! current time and the raw datagram bytes.

pub mod analysis;
pub mod cache;
pub mod classify;
pub mod codec;
pub mod config;
pub mod entropy;
pub mod errors;
pub mod features;
pub mod name;
pub mod pipeline;
pub mod stats;
pub mod telemetry;
pub mod threat;
pub mod typo;
pub mod upstream;
