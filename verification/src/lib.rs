//! A reliability layer over an unreliable, datagram-style transport.
//!
//! Each endpoint holds a [`connector::Connector`] bound to a single remote
//! peer address. The connector exchanges typed wire packets and guarantees
//! that messages marked *confirmed* either eventually arrive at the peer or
//! the connection is declared dead; messages marked *unconfirmed* are
//! best-effort. Liveness is tracked by a ping/pong heartbeat, from which a
//! tri-state connection status is derived.

pub mod packet;
pub mod codec;
pub mod param;
pub mod send_half;
pub mod receive_half;
pub mod connector;
pub mod laws;

use vstd::prelude::*;

verus! {

/// Errors surfaced by connector operations.
#[derive(Debug, Clone, Copy, PartialEq, Eq, Structural)]
pub enum ConnectorError {
    /// The socket reported a failure while a packet was being emitted.
    SendFailed,
    /// A zero-length read arrived from the peer before any datagram was
    /// processed in the current drain.
    BrokenTransport,
    /// The socket reported a failure other than "would block" on receive.
    ReceiveFailed,
    /// An incoming datagram was not a valid packet encoding; it is dropped.
    DecodeFailed,
}

} // verus!
