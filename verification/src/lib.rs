//! Gateway library for bridging JSON-envelope throttle clients to a
//! line-oriented upstream control server: message model, bidirectional
//! line codec, session registry with address-based fan-out, and the
//! dispatch rules of the gateway's read and write paths.
pub mod channel;
pub mod codec;
pub mod envelope;
pub mod gateway;
pub mod message;
pub mod numfmt;
pub mod registry;

pub use message::{Address, Direction, Function, Velocity, WiMessage, WiMessageType};
