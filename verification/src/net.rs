//! Rollback-session glue: the wire input, the datagram codec, the packet queues and the
//! session runners' decisions.

pub mod codec;
pub mod input;
pub mod session;
pub mod socket;
