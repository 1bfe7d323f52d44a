//! One participant of a value-broadcast protocol: the node's state, the
//! envelopes it reads and writes, and the verified handler that turns each
//! inbound envelope into a new state and the envelopes to send.

pub mod message;
pub mod node;
pub mod laws;
