//! The wire encoding of packets.
//!
//! Each packet becomes one self-delimited datagram: a one-byte tag, an
//! eight-byte little-endian identifier field, and, for `Data`, the payload
//! bytes to the end of the datagram. An absent optional id is written as the
//! reserved value 0, which never names a message, so "absent" and every
//! valid id have distinct encodings. The encoding is a bijection between
//! well-formed packets and the byte strings that decode successfully; see
//! [`lemma_encode_decode`] and [`lemma_decode_encode`].

use vstd::prelude::*;

use crate::packet::{opt_id_wf, packet_wf, Packet, PacketV};

verus! {

/// Wire tag of `Ping`.
pub const TAG_PING: u8 = 0;
/// Wire tag of `Pong`.
pub const TAG_PONG: u8 = 1;
/// Wire tag of `PacketNotFound`.
pub const TAG_NOT_FOUND: u8 = 2;
/// Wire tag of `RequestPacket`.
pub const TAG_REQUEST: u8 = 3;
/// Wire tag of `ConfirmPacket`.
pub const TAG_CONFIRM: u8 = 4;
/// Wire tag of `Data`.
pub const TAG_DATA: u8 = 5;

/// The eight little-endian bytes of a 64-bit value.
pub open spec fn le64(x: u64) -> Seq<u8> {
    seq![
        (x & 0xff) as u8,
        ((x >> 8) & 0xff) as u8,
        ((x >> 16) & 0xff) as u8,
        ((x >> 24) & 0xff) as u8,
        ((x >> 32) & 0xff) as u8,
        ((x >> 40) & 0xff) as u8,
        ((x >> 48) & 0xff) as u8,
        ((x >> 56) & 0xff) as u8,
    ]
}

/// The 64-bit value read from eight little-endian bytes.
pub open spec fn le64_val(s: Seq<u8>) -> u64
    recommends
        s.len() == 8,
{
    (s[0] as u64) | ((s[1] as u64) << 8) | ((s[2] as u64) << 16) | ((s[3] as u64) << 24)
        | ((s[4] as u64) << 32) | ((s[5] as u64) << 40) | ((s[6] as u64) << 48) | ((
    s[7] as u64) << 56)
}

/// Reading back the little-endian bytes of `x` yields `x`.
pub proof fn lemma_le64_roundtrip(x: u64)
    ensures
        le64_val(le64(x)) == x,
{
    assert(((x & 0xff) as u8 as u64) | ((((x >> 8) & 0xff) as u8 as u64) << 8) | ((((x >> 16)
        & 0xff) as u8 as u64) << 16) | ((((x >> 24) & 0xff) as u8 as u64) << 24) | ((((x >> 32)
        & 0xff) as u8 as u64) << 32) | ((((x >> 40) & 0xff) as u8 as u64) << 40) | ((((x >> 48)
        & 0xff) as u8 as u64) << 48) | ((((x >> 56) & 0xff) as u8 as u64) << 56) == x)
        by (bit_vector);
}

/// Any eight bytes are the little-endian bytes of the value read from them.
pub proof fn lemma_le64_inverse(s: Seq<u8>)
    requires
        s.len() == 8,
    ensures
        le64(le64_val(s)) == s,
{
    let b0 = s[0];
    let b1 = s[1];
    let b2 = s[2];
    let b3 = s[3];
    let b4 = s[4];
    let b5 = s[5];
    let b6 = s[6];
    let b7 = s[7];
    let x = le64_val(s);
    assert(x == (b0 as u64) | ((b1 as u64) << 8) | ((b2 as u64) << 16) | ((b3 as u64) << 24) | ((
    b4 as u64) << 32) | ((b5 as u64) << 40) | ((b6 as u64) << 48) | ((b7 as u64) << 56));
    assert({
        let x = (b0 as u64) | ((b1 as u64) << 8) | ((b2 as u64) << 16) | ((b3 as u64) << 24) | ((
        b4 as u64) << 32) | ((b5 as u64) << 40) | ((b6 as u64) << 48) | ((b7 as u64) << 56);
        (x & 0xff) as u8 == b0 && ((x >> 8) & 0xff) as u8 == b1 && ((x >> 16) & 0xff) as u8 == b2
            && ((x >> 24) & 0xff) as u8 == b3 && ((x >> 32) & 0xff) as u8 == b4 && ((x >> 40)
            & 0xff) as u8 == b5 && ((x >> 48) & 0xff) as u8 == b6 && ((x >> 56) & 0xff) as u8 == b7
    }) by (bit_vector);
    assert(le64(x) =~= s);
}

/// The wire form of an optional id: 0 stands for "absent".
pub open spec fn opt_to_wire(id: Option<u64>) -> u64 {
    match id {
        None => 0,
        Some(k) => k,
    }
}

/// The optional id read from its wire form.
pub open spec fn wire_to_opt(x: u64) -> Option<u64> {
    if x == 0 {
        None
    } else {
        Some(x)
    }
}

/// The byte string that encodes a packet.
pub open spec fn spec_encode(p: PacketV) -> Seq<u8> {
    match p {
        PacketV::Ping { last_send_message_id } => seq![TAG_PING] + le64(
            opt_to_wire(last_send_message_id),
        ),
        PacketV::Pong { last_send_message_id } => seq![TAG_PONG] + le64(
            opt_to_wire(last_send_message_id),
        ),
        PacketV::PacketNotFound { id } => seq![TAG_NOT_FOUND] + le64(id),
        PacketV::RequestPacket { id } => seq![TAG_REQUEST] + le64(id),
        PacketV::ConfirmPacket { id } => seq![TAG_CONFIRM] + le64(id),
        PacketV::Data { message_id, data } => seq![TAG_DATA] + le64(opt_to_wire(message_id))
            + data,
    }
}

/// The packet read from a byte string, or `None` where no well-formed packet
/// encodes to it.
pub open spec fn spec_decode(d: Seq<u8>) -> Option<PacketV> {
    if d.len() < 9 {
        None
    } else {
        let x = le64_val(d.subrange(1, 9));
        if d[0] == TAG_PING && d.len() == 9 {
            Some(PacketV::Ping { last_send_message_id: wire_to_opt(x) })
        } else if d[0] == TAG_PONG && d.len() == 9 {
            Some(PacketV::Pong { last_send_message_id: wire_to_opt(x) })
        } else if d[0] == TAG_NOT_FOUND && d.len() == 9 && x >= 1 {
            Some(PacketV::PacketNotFound { id: x })
        } else if d[0] == TAG_REQUEST && d.len() == 9 && x >= 1 {
            Some(PacketV::RequestPacket { id: x })
        } else if d[0] == TAG_CONFIRM && d.len() == 9 && x >= 1 {
            Some(PacketV::ConfirmPacket { id: x })
        } else if d[0] == TAG_DATA {
            Some(
                PacketV::Data {
                    message_id: wire_to_opt(x),
                    data: d.subrange(9, d.len() as int),
                },
            )
        } else {
            None
        }
    }
}

/// Encoding then decoding a well-formed packet yields the packet again.
pub proof fn lemma_encode_decode(p: PacketV)
    requires
        packet_wf(p),
    ensures
        spec_decode(spec_encode(p)) == Some(p),
{
    let d = spec_encode(p);
    match p {
        PacketV::Ping { last_send_message_id } => {
            lemma_opt_header(TAG_PING, last_send_message_id);
        },
        PacketV::Pong { last_send_message_id } => {
            lemma_opt_header(TAG_PONG, last_send_message_id);
        },
        PacketV::PacketNotFound { id } => {
            lemma_id_header(TAG_NOT_FOUND, id);
        },
        PacketV::RequestPacket { id } => {
            lemma_id_header(TAG_REQUEST, id);
        },
        PacketV::ConfirmPacket { id } => {
            lemma_id_header(TAG_CONFIRM, id);
        },
        PacketV::Data { message_id, data } => {
            let head = seq![TAG_DATA] + le64(opt_to_wire(message_id));
            assert(d.subrange(1, 9) =~= le64(opt_to_wire(message_id)));
            lemma_le64_roundtrip(opt_to_wire(message_id));
            assert(d.subrange(9, d.len() as int) =~= data);
        },
    }
}

/// The header of a packet with an optional id decodes to that id.
proof fn lemma_opt_header(tag: u8, id: Option<u64>)
    requires
        opt_id_wf(id),
    ensures
        (seq![tag] + le64(opt_to_wire(id))).subrange(1, 9) =~= le64(opt_to_wire(id)),
        le64_val(le64(opt_to_wire(id))) == opt_to_wire(id),
        wire_to_opt(opt_to_wire(id)) == id,
{
    lemma_le64_roundtrip(opt_to_wire(id));
}

/// The header of a packet with a mandatory id decodes to that id.
proof fn lemma_id_header(tag: u8, id: u64)
    requires
        id >= 1,
    ensures
        (seq![tag] + le64(id)).subrange(1, 9) =~= le64(id),
        le64_val(le64(id)) == id,
{
    lemma_le64_roundtrip(id);
}

/// Every byte string that decodes does so to a well-formed packet whose
/// encoding is that byte string: together with [`lemma_encode_decode`] the
/// encoding is a bijection between well-formed packets and decodable byte
/// strings.
pub proof fn lemma_decode_encode(d: Seq<u8>)
    requires
        spec_decode(d) is Some,
    ensures
        packet_wf(spec_decode(d)->0),
        spec_encode(spec_decode(d)->0) == d,
{
    let p = spec_decode(d)->0;
    let x = le64_val(d.subrange(1, 9));
    lemma_le64_inverse(d.subrange(1, 9));
    if d[0] == TAG_DATA {
        assert(spec_encode(p) =~= d);
    } else {
        assert(opt_to_wire(wire_to_opt(x)) == x);
        assert(spec_encode(p) =~= d);
    }
}

/// Append the eight little-endian bytes of `x`.
fn push_le64(out: &mut Vec<u8>, x: u64)
    ensures
        final(out)@ == old(out)@ + le64(x),
{
    assert((x & 0xff) <= 0xff && ((x >> 8) & 0xff) <= 0xff && ((x >> 16) & 0xff) <= 0xff && ((x
        >> 24) & 0xff) <= 0xff && ((x >> 32) & 0xff) <= 0xff && ((x >> 40) & 0xff) <= 0xff && ((x
        >> 48) & 0xff) <= 0xff && ((x >> 56) & 0xff) <= 0xff) by (bit_vector);
    out.push((x & 0xff) as u8);
    out.push(((x >> 8) & 0xff) as u8);
    out.push(((x >> 16) & 0xff) as u8);
    out.push(((x >> 24) & 0xff) as u8);
    out.push(((x >> 32) & 0xff) as u8);
    out.push(((x >> 40) & 0xff) as u8);
    out.push(((x >> 48) & 0xff) as u8);
    out.push(((x >> 56) & 0xff) as u8);
    assert(out@ =~= old(out)@ + le64(x));
}

/// Read the 64-bit value whose little-endian bytes sit at `off`.
fn read_le64(d: &[u8], off: usize) -> (r: u64)
    requires
        off + 8 <= d@.len(),
    ensures
        r == le64_val(d@.subrange(off as int, off as int + 8)),
{
    let r = (d[off] as u64) | ((d[off + 1] as u64) << 8) | ((d[off + 2] as u64) << 16) | ((d[off
        + 3] as u64) << 24) | ((d[off + 4] as u64) << 32) | ((d[off + 5] as u64) << 40) | ((d[off
        + 6] as u64) << 48) | ((d[off + 7] as u64) << 56);
    proof {
        let s = d@.subrange(off as int, off as int + 8);
        assert(s[0] == d@[off as int]);
        assert(s[1] == d@[off as int + 1]);
        assert(s[2] == d@[off as int + 2]);
        assert(s[3] == d@[off as int + 3]);
        assert(s[4] == d@[off as int + 4]);
        assert(s[5] == d@[off as int + 5]);
        assert(s[6] == d@[off as int + 6]);
        assert(s[7] == d@[off as int + 7]);
    }
    r
}

/// The wire form of an optional id.
fn opt_to_wire_exec(id: &Option<u64>) -> (r: u64)
    ensures
        r == opt_to_wire(*id),
{
    match id {
        None => 0,
        Some(k) => *k,
    }
}

/// Encode a well-formed packet as one datagram.
pub fn encode_packet(p: &Packet) -> (r: Vec<u8>)
    requires
        packet_wf(p@),
    ensures
        r@ == spec_encode(p@),
{
    let mut out: Vec<u8> = Vec::new();
    match p {
        Packet::Ping { last_send_message_id } => {
            out.push(TAG_PING);
            push_le64(&mut out, opt_to_wire_exec(last_send_message_id));
        },
        Packet::Pong { last_send_message_id } => {
            out.push(TAG_PONG);
            push_le64(&mut out, opt_to_wire_exec(last_send_message_id));
        },
        Packet::PacketNotFound { id } => {
            out.push(TAG_NOT_FOUND);
            push_le64(&mut out, *id);
        },
        Packet::RequestPacket { id } => {
            out.push(TAG_REQUEST);
            push_le64(&mut out, *id);
        },
        Packet::ConfirmPacket { id } => {
            out.push(TAG_CONFIRM);
            push_le64(&mut out, *id);
        },
        Packet::Data { message_id, data } => {
            out.push(TAG_DATA);
            push_le64(&mut out, opt_to_wire_exec(message_id));
            let mut i: usize = 0;
            while i < data.len()
                invariant
                    i <= data@.len(),
                    out@ == seq![TAG_DATA] + le64(opt_to_wire(p@->Data_message_id))
                        + data@.subrange(0, i as int),
                    p@ matches PacketV::Data { message_id: m, data: dd } && m
                        == *message_id && dd == data@,
                decreases data@.len() - i,
            {
                out.push(data[i]);
                assert(out@ =~= seq![TAG_DATA] + le64(opt_to_wire(p@->Data_message_id))
                    + data@.subrange(0, i as int + 1));
                i = i + 1;
            }
            assert(data@.subrange(0, data@.len() as int) =~= data@);
        },
    }
    assert(out@ =~= spec_encode(p@));
    out
}

/// Decode one datagram into a packet; `Err(())` where the bytes encode no
/// well-formed packet.
pub fn decode_packet(d: &[u8]) -> (r: Result<Packet, ()>)
    ensures
        match r {
            Ok(p) => spec_decode(d@) == Some(p@),
            Err(_) => spec_decode(d@) is None,
        },
{
    if d.len() < 9 {
        return Err(());
    }
    let tag = d[0];
    let x = read_le64(d, 1);
    if tag == TAG_PING && d.len() == 9 {
        Ok(Packet::Ping { last_send_message_id: if x == 0 { None } else { Some(x) } })
    } else if tag == TAG_PONG && d.len() == 9 {
        Ok(Packet::Pong { last_send_message_id: if x == 0 { None } else { Some(x) } })
    } else if tag == TAG_NOT_FOUND && d.len() == 9 && x >= 1 {
        Ok(Packet::PacketNotFound { id: x })
    } else if tag == TAG_REQUEST && d.len() == 9 && x >= 1 {
        Ok(Packet::RequestPacket { id: x })
    } else if tag == TAG_CONFIRM && d.len() == 9 && x >= 1 {
        Ok(Packet::ConfirmPacket { id: x })
    } else if tag == TAG_DATA {
        let mut payload: Vec<u8> = Vec::new();
        let mut i: usize = 9;
        while i < d.len()
            invariant
                9 <= i <= d@.len(),
                payload@ == d@.subrange(9, i as int),
            decreases d@.len() - i,
        {
            payload.push(d[i]);
            assert(payload@ =~= d@.subrange(9, i as int + 1));
            i = i + 1;
        }
        assert(payload@ =~= d@.subrange(9, d@.len() as int));
        Ok(Packet::Data { message_id: if x == 0 { None } else { Some(x) }, data: payload })
    } else {
        Err(())
    }
}

} // verus!
