//! Exchange dataflow engine for a distributed query executor.
//!
//! When one fragment of a distributed plan must hand its result blocks to
//! fragments running on other nodes, this library decides the wiring and
//! carries the data-moving guarantees: blocks are serialized into wire
//! units, optionally stamped with per-lane sequence numbers, merged back
//! into one global order at a coordination point, or partitioned across
//! many destinations, and finally handed to per-destination transports in
//! arrival order.

pub mod block;
pub mod coordinator;
pub mod error;
pub mod exchange_sink;
pub mod params;
pub mod pipeline;
pub mod serializer;
pub mod shuffle;
pub mod sorting;
pub mod transport;
