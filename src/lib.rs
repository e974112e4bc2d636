//! A text broadcast relay: the fixed-size frame protocol, the message value,
//! the connection registry and the relay loop's decisions.

pub mod frame;
pub mod message;
pub mod registry;
pub mod relay;

pub use crate::message::{Message, PeerAddr};
pub use crate::registry::Registry;
