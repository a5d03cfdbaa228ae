//! Storage and retrieval of periodic temperature measurements.
//!
//! The library owns the logic of a small time-series store backed by a
//! document-oriented search engine: the mapping from a (device, timestamp)
//! pair to a stable document identity, the day-bucketed index scheme, the
//! request bodies and response handling for writes and recency-ordered
//! reads, and the device-resolution and calibration-adjustment rules that
//! are applied on read. The network transport around it is ordinary,
//! unverified code that only carries the requests this library builds.

pub mod temperature;
pub mod text;
pub mod time;
pub mod store;
pub mod jsonval;
pub mod read;
pub mod device;
