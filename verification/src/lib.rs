//! A stateless STUN binding responder: the wire codec for messages and
//! attributes, the XOR masking of a peer's transport address, and the
//! dispatch from a decoded request to its response.
//!
//! Every function here is pure. Sockets, signals and logging belong to the
//! program that drives this library.

pub mod address;
pub mod error;
pub mod handler;
pub mod message;
pub mod wire;

pub use address::PeerAddress;
pub use error::StunMessageError;
pub use handler::handle_stun_request;
pub use message::{StunAttribute, StunMessage};
