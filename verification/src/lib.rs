//! Engine for accelerated retrieval of one large HTTP resource: the resource
//! is partitioned into fixed-size byte-range chunks, a bounded set of chunk
//! fetches is kept in flight, and the finished buffers are reassembled into a
//! single ordered, gap-free byte stream.
//!
//! The crate holds the engine's logic only: partitioning, the per-fetch burst
//! loop decisions, bounded scheduling, in-order reassembly and cooperative
//! cancellation. Network transport, threads and file output are the caller's.

pub mod chunks;
pub mod engine;
pub mod fetcher;
