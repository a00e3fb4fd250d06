//! Metrics collection over a framed binary protocol.
//!
//! Agents turn periodic samples into checksummed frames, keep them in an
//! ordered delivery queue and hand them to a collector, which decodes the
//! byte stream of each connection back into records for a storage sink.
//! The library opens no socket and touches no store: the caller drives
//! them and feeds what they did to the state machines of [`queue`] and
//! [`server`]. The one thing it reads from the machine is the clock that
//! stamps a frame.

pub mod authentication;
pub mod buffer;
pub mod checksum;
pub mod client;
pub mod clock;
pub mod codec;
pub mod command;
pub mod endian;
pub mod errors;
pub mod queue;
pub mod response;
pub mod server;
