//! Construction-time configuration of a connector.
//!
//! All durations are in milliseconds of a monotonic clock. Instants are
//! supplied by the embedder as milliseconds read from one monotonic clock;
//! every operation of the connector takes the current instant as an
//! argument, and instants handed to one connector must never decrease.

use vstd::prelude::*;

verus! {

/// The largest number of bytes of one datagram that `receive_from` accepts.
pub const MAX_DATAGRAM_SIZE: usize = 1024;

/// The tunables of a connector, all in milliseconds.
#[derive(Debug, Clone, Copy, PartialEq, Eq, Structural)]
pub struct ConnectorParam {
    /// Emit a `Ping` when this long has passed since the last emitted ping.
    pub ping_interval: u64,
    /// Re-request a missing id after this gap.
    pub request_missing_interval: u64,
    /// Resend a cached confirmed message after this gap.
    pub emit_unconfirmed_interval: u64,
    /// Beyond this since the last inbound packet, the state is no longer
    /// `Connected`.
    pub receive_ping_timeout: u64,
    /// Beyond this since the last emitted ping, the state is no longer
    /// `Connecting`.
    pub send_ping_timeout: u64,
}

impl ConnectorParam {
    /// All durations are positive and the receive timeout exceeds the ping
    /// interval, so that a live peer answers before the timeout fires.
    pub open spec fn wf(self) -> bool {
        &&& self.ping_interval >= 1
        &&& self.request_missing_interval >= 1
        &&& self.emit_unconfirmed_interval >= 1
        &&& self.receive_ping_timeout > self.ping_interval
        &&& self.send_ping_timeout >= 1
    }
}

impl Default for ConnectorParam {
    /// A ping every half second; timeouts of three ping intervals.
    fn default() -> (r: Self)
        ensures
            r.wf(),
            r.ping_interval == 500,
            r.request_missing_interval == 1000,
            r.emit_unconfirmed_interval == 1000,
            r.receive_ping_timeout == 1500,
            r.send_ping_timeout == 1500,
    {
        ConnectorParam {
            ping_interval: 500,
            request_missing_interval: 1000,
            emit_unconfirmed_interval: 1000,
            receive_ping_timeout: 1500,
            send_ping_timeout: 1500,
        }
    }
}

} // verus!
