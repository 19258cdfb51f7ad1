//! Peer discovery and liveness protocol for locally running service
//! instances.
//!
//! Instances announce themselves and report lifecycle changes over UDP.
//! This crate holds the verified core of that protocol: the wire codec for
//! the JSON message shapes, the classifier that turns a decoded datagram
//! into a normalized discovery event, and the per-datagram handler the
//! listener loop drives.  Socket setup and the blocking receive loop live
//! in the surrounding application.

use vstd::prelude::*;

pub mod classify;
pub mod codec;
pub mod event;
pub mod json;

verus! {

/// The largest UDP payload the transport can receive in one datagram; a
/// longer datagram is truncated at this boundary.
pub const MAX_DATAGRAM_LEN: usize = 65507;

/// Why one datagram was rejected.  Rejection is per datagram: the listener
/// logs it, discards the datagram and keeps listening.
#[derive(Debug, Clone, Copy, PartialEq, Eq, Structural)]
pub enum DiscoverError {
    /// The datagram's bytes are not valid UTF-8 text.
    Encoding,
    /// The text is not well-formed JSON, or a required field (`event`,
    /// `data.uuid`, or the whole command shape) is missing or has the wrong
    /// type.
    Format,
    /// The instance identifier is missing from an advertisement or is
    /// empty.
    Validation,
}

} // verus!
