//! A local-disk transport: path resolution, URL housekeeping, segment
//! parameters and the per-item decisions of batched reads, with their
//! contracts proved by Verus.
pub mod error;
pub mod text;
pub mod segment;
pub mod escape;
pub mod transport;
pub mod readv;
