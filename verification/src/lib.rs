//! An in-process metrics aggregation engine: producers submit measurement
//! samples through batching sinks, a single aggregator maintains counter,
//! gauge and windowed-histogram views, and controllers obtain immutable
//! point-in-time snapshots.

pub mod channel;
pub mod configuration;
pub mod control;
pub mod counter;
pub mod data;
pub mod errors;
pub mod gauge;
pub mod hdr;
pub mod histogram;
pub mod kv;
pub mod receiver;
pub mod sink;

pub use configuration::Configuration;
pub use control::Controller;
pub use data::Facet;
pub use data::Percentile;
pub use data::Sample;
pub use data::Snapshot;
pub use data::default_percentiles;
pub use errors::Error;
pub use receiver::Receiver;
pub use sink::Sink;
