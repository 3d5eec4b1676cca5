//! The wire packets exchanged between two connectors.
//!
//! A message identifier is a strictly positive 64-bit integer; zero is
//! reserved as the "absent" sentinel of the wire encoding and never names a
//! message. An optional identifier is therefore `Option<u64>` whose `Some`
//! value is at least 1.

use vstd::prelude::*;

verus! {

/// One datagram's worth of protocol, as a tagged union.
///
/// The payload of `Data` is an opaque byte string: the application's codec
/// for its own message types is outside this layer.
#[derive(Debug, PartialEq, Eq)]
pub enum Packet {
    /// Heartbeat; announces the highest confirmed-send id so far, if any.
    Ping { last_send_message_id: Option<u64> },
    /// Reply to `Ping`; the same announcement from the replier.
    Pong { last_send_message_id: Option<u64> },
    /// The sender informs the peer that `id` will never arrive.
    PacketNotFound { id: u64 },
    /// The sender requests retransmission of confirmed message `id`.
    RequestPacket { id: u64 },
    /// The sender acknowledges receipt of confirmed message `id`.
    ConfirmPacket { id: u64 },
    /// An application message; confirmed iff `message_id` is present.
    Data { message_id: Option<u64>, data: Vec<u8> },
}

/// The mathematical shape of a packet: `Data` carries a byte sequence.
pub ghost enum PacketV {
    Ping { last_send_message_id: Option<u64> },
    Pong { last_send_message_id: Option<u64> },
    PacketNotFound { id: u64 },
    RequestPacket { id: u64 },
    ConfirmPacket { id: u64 },
    Data { message_id: Option<u64>, data: Seq<u8> },
}

impl View for Packet {
    type V = PacketV;

    open spec fn view(&self) -> PacketV {
        match self {
            Packet::Ping { last_send_message_id } => PacketV::Ping {
                last_send_message_id: *last_send_message_id,
            },
            Packet::Pong { last_send_message_id } => PacketV::Pong {
                last_send_message_id: *last_send_message_id,
            },
            Packet::PacketNotFound { id } => PacketV::PacketNotFound { id: *id },
            Packet::RequestPacket { id } => PacketV::RequestPacket { id: *id },
            Packet::ConfirmPacket { id } => PacketV::ConfirmPacket { id: *id },
            Packet::Data { message_id, data } => PacketV::Data {
                message_id: *message_id,
                data: data@,
            },
        }
    }
}

/// An optional id is well formed when a present id is strictly positive.
pub open spec fn opt_id_wf(id: Option<u64>) -> bool {
    id is Some ==> id->0 >= 1
}

/// A packet is well formed when every id it carries is strictly positive.
pub open spec fn packet_wf(p: PacketV) -> bool {
    match p {
        PacketV::Ping { last_send_message_id } => opt_id_wf(last_send_message_id),
        PacketV::Pong { last_send_message_id } => opt_id_wf(last_send_message_id),
        PacketV::PacketNotFound { id } => id >= 1,
        PacketV::RequestPacket { id } => id >= 1,
        PacketV::ConfirmPacket { id } => id >= 1,
        PacketV::Data { message_id, data } => opt_id_wf(message_id),
    }
}

} // verus!
