//! The connector: one reliability endpoint bound to a single remote peer.
//!
//! The embedder supplies the transport through the [`Socket`] trait and the
//! current instant of one monotonic clock, in milliseconds, to every
//! operation; instants handed to one connector must never decrease. Peer
//! addresses are opaque tokens compared only for equality.

use vstd::prelude::*;

use crate::codec::{decode_packet, encode_packet, spec_decode};
use crate::packet::{packet_wf, Packet, PacketV};
use crate::param::{ConnectorParam, MAX_DATAGRAM_SIZE};
use crate::receive_half::{
    last_or_0, missing_contains, record_data_v, remove_missing_id, resolve_announcement_v,
    ConnectorReceive, MissingIdV, RecvV,
};
use crate::send_half::{
    cache_contains, next_or_1, remove_cache_id, touch_cache_id, CachedPacketV, ConnectorSend,
    SendV,
};
use crate::ConnectorError;

verus! {

/// How many datagrams one `receive_from` call drains at most, so that a
/// flooding peer cannot hold the caller inside the drain loop.
pub const MAX_DATAGRAMS_PER_RECEIVE: usize = 4096;

/// The connection status derived from the two heartbeat instants.
#[derive(Debug, Clone, Copy, PartialEq, Eq, Structural)]
pub enum NetworkState {
    /// An inbound packet arrived no longer than the receive timeout ago.
    Connected,
    /// No recent inbound packet, and the last emitted ping is older than the
    /// send timeout — or none was ever emitted.
    Disconnected,
    /// No recent inbound packet, but a ping left no longer than the send
    /// timeout ago: the handshake is in flight.
    Connecting,
}

/// What one receive attempt on a socket yielded.
pub enum RecvOutcome {
    /// One whole datagram and the address token it came from.
    Datagram { bytes: Vec<u8>, from: u64 },
    /// Nothing is pending; a later attempt may yield more.
    WouldBlock,
    /// The transport failed in some other way.
    Failed,
}

/// The transport capability a connector drives. The embedder implements it;
/// datagram boundaries must be preserved, one packet per datagram, and
/// `recv_from` must report "would block" distinctly from failure. Nothing is
/// assumed of a transport: every guarantee of the connector is stated over
/// its own state, whatever the socket does.
pub trait Socket {
    /// Receive one datagram from any remote, without blocking.
    fn recv_from(&mut self) -> RecvOutcome;

    /// The local address token this socket listens on.
    fn local_addr(&self) -> u64;

    /// Send one datagram to the given address token.
    fn send_to(&mut self, bytes: &Vec<u8>, target: u64) -> Result<(), ()>;
}

/// The mathematical shape of a connector.
#[verifier::ext_equal]
pub ghost struct ConnV {
    /// The sending half.
    pub send: SendV,
    /// The receiving half.
    pub receive: RecvV,
    /// The peer this connector is bound to.
    pub peer_addr: u64,
    /// The tunables fixed at construction.
    pub param: ConnectorParam,
}

impl ConnV {
    /// Both halves are well formed and the tunables are valid.
    pub open spec fn wf(self) -> bool {
        &&& self.send.wf()
        &&& self.receive.wf()
        &&& self.param.wf()
    }

    /// All instants held by the connector are at most `t`.
    pub open spec fn instants_le(self, t: u64) -> bool {
        &&& self.send.instants_le(t)
        &&& self.receive.instants_le(t)
    }
}

/// The status read off a connector at instant `now`.
pub open spec fn state_spec(c: ConnV, now: u64) -> NetworkState {
    if c.receive.last_ping is Some && now - c.receive.last_ping->0
        <= c.param.receive_ping_timeout {
        NetworkState::Connected
    } else if c.send.last_ping is Some && now - c.send.last_ping->0 <= c.param.send_ping_timeout {
        NetworkState::Connecting
    } else {
        NetworkState::Disconnected
    }
}

/// How one inbound packet transforms the connector state at instant `now`.
/// Every inbound packet refreshes the inbound heartbeat instant.
pub open spec fn apply_packet(c: ConnV, p: PacketV, now: u64) -> ConnV {
    match p {
        PacketV::Ping { last_send_message_id } => ConnV {
            receive: resolve_announcement_v(c.receive, last_send_message_id, now),
            ..c
        },
        PacketV::Pong { last_send_message_id } => ConnV {
            receive: resolve_announcement_v(c.receive, last_send_message_id, now),
            ..c
        },
        PacketV::Data { message_id, data } => match message_id {
            Some(m) => ConnV { receive: record_data_v(c.receive, m, now), ..c },
            None => ConnV { receive: RecvV { last_ping: Some(now), ..c.receive }, ..c },
        },
        PacketV::RequestPacket { id } => ConnV {
            send: SendV { cache: touch_cache_id(c.send.cache, id, now), ..c.send },
            receive: RecvV { last_ping: Some(now), ..c.receive },
            ..c
        },
        PacketV::ConfirmPacket { id } => ConnV {
            send: SendV { cache: remove_cache_id(c.send.cache, id), ..c.send },
            receive: RecvV { last_ping: Some(now), ..c.receive },
            ..c
        },
        PacketV::PacketNotFound { id } => ConnV {
            receive: RecvV {
                missing: remove_missing_id(c.receive.missing, id),
                last_ping: Some(now),
                ..c.receive
            },
            ..c
        },
    }
}

/// The sending half only moves forward: the id allocator never goes back,
/// and an id enters the cache only when freshly allocated. `connect` resets
/// the allocator and is the one operation that does not evolve this way.
pub open spec fn send_evolution_ok(pre: SendV, post: SendV) -> bool {
    &&& next_or_1(post.next_message_id) >= next_or_1(pre.next_message_id)
    &&& forall|i: int|
        0 <= i < post.cache.len() ==> cache_contains(pre.cache, (#[trigger] post.cache[i]).id)
            || post.cache[i].id >= next_or_1(pre.next_message_id)
}

/// The receiving half only moves forward: the high-water mark never goes
/// back, and an id enters the missing list only from above the old mark.
/// `connect` resets the mark and is the one operation that does not evolve
/// this way.
pub open spec fn recv_evolution_ok(pre: RecvV, post: RecvV) -> bool {
    &&& last_or_0(post.last_message_id) >= last_or_0(pre.last_message_id)
    &&& forall|i: int|
        0 <= i < post.missing.len() ==> missing_contains(
            pre.missing,
            (#[trigger] post.missing[i]).id,
        ) || post.missing[i].id > last_or_0(pre.last_message_id)
}

/// Both halves evolved forward and the binding and tunables are untouched.
pub open spec fn evolution_ok(pre: ConnV, post: ConnV) -> bool {
    &&& send_evolution_ok(pre.send, post.send)
    &&& recv_evolution_ok(pre.receive, post.receive)
    &&& post.peer_addr == pre.peer_addr
    &&& post.param == pre.param
}

/// No inbound packet moves the outbound heartbeat or the id allocator.
pub proof fn lemma_apply_packet_send_frame(c: ConnV, p: PacketV, now: u64)
    ensures
        apply_packet(c, p, now).send.last_ping == c.send.last_ping,
        apply_packet(c, p, now).send.next_message_id == c.send.next_message_id,
{
}

/// One inbound packet evolves both halves forward.
pub proof fn lemma_apply_packet_evolution(c: ConnV, p: PacketV, now: u64)
    requires
        c.wf(),
        packet_wf(p),
    ensures
        evolution_ok(c, apply_packet(c, p, now)),
{
    let post = apply_packet(c, p, now);
    match p {
        PacketV::Ping { last_send_message_id: a } | PacketV::Pong { last_send_message_id: a } => {
            lemma_resolve_evolution(c.receive, a, now);
        },
        PacketV::Data { message_id, .. } => {
            if let Some(m) = message_id {
                lemma_record_evolution(c.receive, m, now);
            }
        },
        PacketV::RequestPacket { id } => {
            lemma_touch_evolution(c.send, id, now);
        },
        PacketV::ConfirmPacket { id } => {
            lemma_remove_cache_evolution(c.send, id);
        },
        PacketV::PacketNotFound { id } => {
            lemma_remove_missing_evolution(c.receive, id);
        },
    }
}

/// Resolving an announcement evolves the receiving half forward.
pub proof fn lemma_resolve_evolution(r: RecvV, a: Option<u64>, now: u64)
    ensures
        recv_evolution_ok(r, resolve_announcement_v(r, a, now)),
{
    if let Some(k) = a {
        crate::receive_half::lemma_gap_fill_entries(r.missing, last_or_0(r.last_message_id), k, now);
        let post = resolve_announcement_v(r, a, now);
        assert forall|i: int| 0 <= i < post.missing.len() implies missing_contains(
            r.missing,
            (#[trigger] post.missing[i]).id,
        ) || post.missing[i].id > last_or_0(r.last_message_id) by {
            if i < r.missing.len() {
                assert(post.missing[i] == r.missing[i]);
                assert(missing_contains(r.missing, r.missing[i].id));
            }
        }
    }
}

/// Recording a confirmed id evolves the receiving half forward.
pub proof fn lemma_record_evolution(r: RecvV, m: u64, now: u64)
    requires
        m >= 1,
    ensures
        recv_evolution_ok(r, record_data_v(r, m, now)),
{
    let lo = last_or_0(r.last_message_id);
    let filled = gap_fill_of(r, m, now);
    crate::receive_half::lemma_gap_fill_entries(r.missing, lo, (m - 1) as u64, now);
    let post = record_data_v(r, m, now);
    assert forall|i: int| 0 <= i < post.missing.len() implies missing_contains(
        r.missing,
        (#[trigger] post.missing[i]).id,
    ) || post.missing[i].id > lo by {
        assert(missing_contains(filled, post.missing[i].id)) by {
            lemma_remove_keeps(filled, m, i);
        }
        let k = choose|k: int| 0 <= k < filled.len() && filled[k].id == post.missing[i].id;
        if k < r.missing.len() {
            assert(missing_contains(r.missing, r.missing[k].id));
        }
    }
}

/// The gap-fill a confirmed id `m` performs on the missing list.
pub open spec fn gap_fill_of(r: RecvV, m: u64, now: u64) -> Seq<MissingIdV> {
    crate::receive_half::gap_fill(r.missing, last_or_0(r.last_message_id), (m - 1) as u64, now)
}

/// An entry of a missing list with one id removed was an entry before.
proof fn lemma_remove_keeps(s: Seq<MissingIdV>, id: u64, i: int)
    requires
        0 <= i < remove_missing_id(s, id).len(),
    ensures
        missing_contains(s, remove_missing_id(s, id)[i].id),
{
    let post = remove_missing_id(s, id);
    if missing_contains(s, id) {
        let k = choose|k: int| 0 <= k < s.len() && s[k].id == id;
        if i < k {
            assert(post[i] == s[i]);
        } else {
            assert(post[i] == s[i + 1]);
        }
    } else {
        assert(post[i] == s[i]);
    }
}

/// Dropping a missing id evolves the receiving half forward.
pub proof fn lemma_remove_missing_evolution(r: RecvV, id: u64)
    ensures
        recv_evolution_ok(
            r,
            RecvV { missing: remove_missing_id(r.missing, id), ..r },
        ),
{
    let post = RecvV { missing: remove_missing_id(r.missing, id), ..r };
    assert forall|i: int| 0 <= i < post.missing.len() implies missing_contains(
        r.missing,
        (#[trigger] post.missing[i]).id,
    ) || post.missing[i].id > last_or_0(r.last_message_id) by {
        lemma_remove_keeps(r.missing, id, i);
    }
}

/// Stamping a cache entry evolves the sending half forward.
pub proof fn lemma_touch_evolution(s: SendV, id: u64, now: u64)
    ensures
        send_evolution_ok(s, SendV { cache: touch_cache_id(s.cache, id, now), ..s }),
{
    let post = touch_cache_id(s.cache, id, now);
    assert forall|i: int| 0 <= i < post.len() implies cache_contains(
        s.cache,
        (#[trigger] post[i]).id,
    ) || post[i].id >= next_or_1(s.next_message_id) by {
        if cache_contains(s.cache, id) {
            let k = choose|k: int| 0 <= k < s.cache.len() && s.cache[k].id == id;
            if i == k {
                assert(post[i].id == s.cache[k].id);
                assert(cache_contains(s.cache, s.cache[k].id));
            } else {
                assert(post[i] == s.cache[i]);
                assert(cache_contains(s.cache, s.cache[i].id));
            }
        } else {
            assert(post[i] == s.cache[i]);
            assert(cache_contains(s.cache, s.cache[i].id));
        }
    }
}

/// Removing a cache entry evolves the sending half forward.
pub proof fn lemma_remove_cache_evolution(s: SendV, id: u64)
    ensures
        send_evolution_ok(s, SendV { cache: remove_cache_id(s.cache, id), ..s }),
{
    let post = remove_cache_id(s.cache, id);
    assert forall|i: int| 0 <= i < post.len() implies cache_contains(
        s.cache,
        (#[trigger] post[i]).id,
    ) || post[i].id >= next_or_1(s.next_message_id) by {
        if cache_contains(s.cache, id) {
            let k = choose|k: int| 0 <= k < s.cache.len() && s.cache[k].id == id;
            if i < k {
                assert(post[i] == s.cache[i]);
                assert(cache_contains(s.cache, s.cache[i].id));
            } else {
                assert(post[i] == s.cache[i + 1]);
                assert(cache_contains(s.cache, s.cache[i + 1].id));
            }
        } else {
            assert(post[i] == s.cache[i]);
            assert(cache_contains(s.cache, s.cache[i].id));
        }
    }
}

/// A connector evolves forward by standing still.
pub proof fn lemma_evolution_refl(c: ConnV)
    ensures
        evolution_ok(c, c),
{
    assert forall|i: int| 0 <= i < c.send.cache.len() implies cache_contains(
        c.send.cache,
        (#[trigger] c.send.cache[i]).id,
    ) by {}
    assert forall|i: int| 0 <= i < c.receive.missing.len() implies missing_contains(
        c.receive.missing,
        (#[trigger] c.receive.missing[i]).id,
    ) by {}
}

/// Forward evolution composes.
pub proof fn lemma_evolution_trans(a: ConnV, b: ConnV, c: ConnV)
    requires
        evolution_ok(a, b),
        evolution_ok(b, c),
    ensures
        evolution_ok(a, c),
{
    assert forall|i: int| 0 <= i < c.send.cache.len() implies cache_contains(
        a.send.cache,
        (#[trigger] c.send.cache[i]).id,
    ) || c.send.cache[i].id >= next_or_1(a.send.next_message_id) by {
        if cache_contains(b.send.cache, c.send.cache[i].id) {
            let j = choose|j: int|
                0 <= j < b.send.cache.len() && b.send.cache[j].id == c.send.cache[i].id;
            assert(cache_contains(a.send.cache, b.send.cache[j].id) || b.send.cache[j].id
                >= next_or_1(a.send.next_message_id));
        }
    }
    assert forall|i: int| 0 <= i < c.receive.missing.len() implies missing_contains(
        a.receive.missing,
        (#[trigger] c.receive.missing[i]).id,
    ) || c.receive.missing[i].id > last_or_0(a.receive.last_message_id) by {
        if missing_contains(b.receive.missing, c.receive.missing[i].id) {
            let j = choose|j: int|
                0 <= j < b.receive.missing.len() && b.receive.missing[j].id
                    == c.receive.missing[i].id;
            assert(missing_contains(a.receive.missing, b.receive.missing[j].id)
                || b.receive.missing[j].id > last_or_0(a.receive.last_message_id));
        }
    }
}

/// Whether a ping is due at `now`: none was ever emitted, or the last one
/// is older than the ping interval.
pub open spec fn ping_due(last_ping: Option<u64>, now: u64, interval: u64) -> bool {
    match last_ping {
        None => true,
        Some(t) => now - t > interval,
    }
}

/// The missing list with every entry older than `interval` stamped `now`.
pub open spec fn refresh_missing(s: Seq<MissingIdV>, now: u64, interval: u64) -> Seq<MissingIdV> {
    Seq::new(
        s.len(),
        |i: int|
            if now - s[i].last_request > interval {
                MissingIdV { id: s[i].id, last_request: now }
            } else {
                s[i]
            },
    )
}

/// The cache with every entry older than `interval` stamped `now`.
pub open spec fn refresh_cache(s: Seq<CachedPacketV>, now: u64, interval: u64) -> Seq<
    CachedPacketV,
> {
    Seq::new(
        s.len(),
        |i: int|
            if now - s[i].last_emit > interval {
                CachedPacketV { id: s[i].id, payload: s[i].payload, last_emit: now }
            } else {
                s[i]
            },
    )
}

/// How one maintenance sweep at `now` transforms the connector: nothing
/// when `Disconnected`; otherwise the outbound heartbeat is stamped when a
/// ping is due, and every missing entry due for re-request and every cache
/// entry due for resend is stamped `now` as its packet is emitted.
pub open spec fn update_v(c: ConnV, now: u64) -> ConnV {
    if state_spec(c, now) == NetworkState::Disconnected {
        c
    } else {
        ConnV {
            send: SendV {
                cache: refresh_cache(c.send.cache, now, c.param.emit_unconfirmed_interval),
                next_message_id: c.send.next_message_id,
                last_ping: if ping_due(c.send.last_ping, now, c.param.ping_interval) {
                    Some(now)
                } else {
                    c.send.last_ping
                },
            },
            receive: RecvV {
                missing: refresh_missing(
                    c.receive.missing,
                    now,
                    c.param.request_missing_interval,
                ),
                ..c.receive
            },
            ..c
        }
    }
}

/// Nothing is due at `now`: no ping, no missing id to re-request, no cached
/// message to resend. A sweep then makes no socket call and changes nothing.
pub open spec fn sweep_quiet(c: ConnV, now: u64) -> bool {
    &&& !ping_due(c.send.last_ping, now, c.param.ping_interval)
    &&& forall|i: int|
        0 <= i < c.receive.missing.len() ==> now - (#[trigger] c.receive.missing[i]).last_request
            <= c.param.request_missing_interval
    &&& forall|i: int|
        0 <= i < c.send.cache.len() ==> now - (#[trigger] c.send.cache[i]).last_emit
            <= c.param.emit_unconfirmed_interval
}

/// What holds of the connector when a maintenance sweep was cut short by a
/// send failure: ids, payloads, the allocator, the high-water mark and the
/// inbound heartbeat are untouched; every instant is either kept or stamped
/// `now`.
pub open spec fn partial_update_ok(pre: ConnV, post: ConnV, now: u64) -> bool {
    &&& post.send.next_message_id == pre.send.next_message_id
    &&& post.receive.last_message_id == pre.receive.last_message_id
    &&& post.receive.last_ping == pre.receive.last_ping
    &&& (post.send.last_ping == pre.send.last_ping || post.send.last_ping == Some(now))
    &&& post.send.cache.len() == pre.send.cache.len()
    &&& forall|i: int|
        0 <= i < pre.send.cache.len() ==> {
            &&& (#[trigger] post.send.cache[i]).id == pre.send.cache[i].id
            &&& post.send.cache[i].payload == pre.send.cache[i].payload
            &&& (post.send.cache[i].last_emit == pre.send.cache[i].last_emit
                || post.send.cache[i].last_emit == now)
        }
    &&& post.receive.missing.len() == pre.receive.missing.len()
    &&& forall|i: int|
        0 <= i < pre.receive.missing.len() ==> {
            &&& (#[trigger] post.receive.missing[i]).id == pre.receive.missing[i].id
            &&& (post.receive.missing[i].last_request == pre.receive.missing[i].last_request
                || post.receive.missing[i].last_request == now)
        }
}

/// One reliability endpoint bound to a remote peer.
///
/// Drive it by calling [`Connector::update_and_receive`] at a steady rate,
/// or feed inbound datagrams to [`Connector::handle_incoming_data`] when the
/// embedder owns the receive loop.
pub struct Connector {
    send: ConnectorSend,
    receive: ConnectorReceive,
    peer_addr: u64,
    param: ConnectorParam,
}

impl View for Connector {
    type V = ConnV;

    closed spec fn view(&self) -> ConnV {
        ConnV {
            send: self.send@,
            receive: self.receive@,
            peer_addr: self.peer_addr,
            param: self.param,
        }
    }
}

/// Encode `packet` and hand it to the socket, aimed at `peer_addr`.
fn send_packet_to<S: Socket>(peer_addr: u64, socket: &mut S, packet: &Packet) -> (r: Result<
    (),
    ConnectorError,
>)
    requires
        packet_wf(packet@),
    ensures
        r is Err ==> r->Err_0 == ConnectorError::SendFailed,
{
    let bytes = encode_packet(packet);
    match socket.send_to(&bytes, peer_addr) {
        Ok(_) => Ok(()),
        Err(_) => Err(ConnectorError::SendFailed),
    }
}

impl Connector {
    /// A connector bound to `peer_addr` with the given tunables: empty
    /// state, `Disconnected` until `connect` is called.
    pub fn bound_to(peer_addr: u64, param: ConnectorParam) -> (r: Connector)
        requires
            param.wf(),
        ensures
            r@ == (ConnV { send: SendV::init(), receive: RecvV::init(), peer_addr, param }),
            r@.wf(),
    {
        let r = Connector {
            send: ConnectorSend::new(),
            receive: ConnectorReceive::new(),
            peer_addr,
            param,
        };
        proof {
            assert(r@ =~= (ConnV { send: SendV::init(), receive: RecvV::init(), peer_addr, param }));
        }
        r
    }

    /// The address token this connector is bound to.
    pub fn bound_addr(&self) -> (r: u64)
        ensures
            r == self@.peer_addr,
    {
        self.peer_addr
    }

    /// The tunables this connector was built with.
    pub fn param(&self) -> (r: ConnectorParam)
        ensures
            r == self@.param,
    {
        self.param
    }

    /// The connection status at instant `now`.
    pub fn state(&self, now: u64) -> (r: NetworkState)
        requires
            self@.instants_le(now),
        ensures
            r == state_spec(self@, now),
    {
        let connected = match self.receive.last_ping() {
            Some(t) => now - t <= self.param.receive_ping_timeout,
            None => false,
        };
        if connected {
            NetworkState::Connected
        } else {
            let connecting = match self.send.last_ping() {
                Some(t) => now - t <= self.param.send_ping_timeout,
                None => false,
            };
            if connecting {
                NetworkState::Connecting
            } else {
                NetworkState::Disconnected
            }
        }
    }

    /// Emit a `Ping` announcing the highest assigned id and stamp the
    /// outbound heartbeat instant; the stamp stays even when the send fails.
    fn send_ping<S: Socket>(&mut self, socket: &mut S, now: u64) -> (r: Result<
        (),
        ConnectorError,
    >)
        requires
            old(self)@.wf(),
        ensures
            final(self)@ == (ConnV {
                send: SendV { last_ping: Some(now), ..old(self)@.send },
                ..old(self)@
            }),
            final(self)@.wf(),
            r is Err ==> r->Err_0 == ConnectorError::SendFailed,
    {
        self.send.set_last_ping(now);
        let announce = self.send.announced_id();
        let pkt = Packet::Ping { last_send_message_id: announce };
        let r = send_packet_to(self.peer_addr, socket, &pkt);
        proof {
            assert(self@ =~= (ConnV {
                send: SendV { last_ping: Some(now), ..old(self)@.send },
                ..old(self)@
            }));
            assert(self@.send.cache == old(self)@.send.cache);
            assert(self@.send.wf());
        }
        r
    }

    /// Reset both halves to their initial state, keep the peer binding, and
    /// open the handshake with a fresh `Ping`: the state becomes
    /// `Connecting` until the peer answers. This is the one operation that
    /// restarts the id spaces.
    pub fn connect<S: Socket>(&mut self, socket: &mut S, now: u64) -> (r: Result<
        (),
        ConnectorError,
    >)
        requires
            old(self)@.param.wf(),
        ensures
            final(self)@ == (ConnV {
                send: SendV {
                    cache: Seq::empty(),
                    next_message_id: None,
                    last_ping: Some(now),
                },
                receive: RecvV::init(),
                peer_addr: old(self)@.peer_addr,
                param: old(self)@.param,
            }),
            final(self)@.wf(),
            final(self)@.instants_le(now),
            r is Err ==> r->Err_0 == ConnectorError::SendFailed,
    {
        self.send = ConnectorSend::new();
        self.receive = ConnectorReceive::new();
        proof {
            assert(self@.wf());
        }
        let r = self.send_ping(socket, now);
        proof {
            assert(self@ =~= (ConnV {
                send: SendV {
                    cache: Seq::empty(),
                    next_message_id: None,
                    last_ping: Some(now),
                },
                receive: RecvV::init(),
                peer_addr: old(self)@.peer_addr,
                param: old(self)@.param,
            }));
        }
        r
    }

    /// Emit a best-effort `Data` without an id: sent once, never cached,
    /// never retried, and no connector state changes.
    pub fn send_unconfirmed<S: Socket>(&mut self, socket: &mut S, msg: Vec<u8>) -> (r: Result<
        (),
        ConnectorError,
    >)
        ensures
            *final(self) == *old(self),
            r is Err ==> r->Err_0 == ConnectorError::SendFailed,
    {
        let pkt = Packet::Data { message_id: None, data: msg };
        send_packet_to(self.peer_addr, socket, &pkt)
    }

    /// Whether a confirmed send may be issued: the 64-bit id space is not
    /// exhausted. Exhausting it is a fatal error, so `send_confirmed`
    /// requires this.
    pub fn can_send_confirmed(&self) -> (r: bool)
        ensures
            r == (next_or_1(self@.send.next_message_id) < u64::MAX),
    {
        self.send.next_id_to_assign() < u64::MAX
    }

    /// Allocate the next id, emit `Data` carrying it, and on success cache
    /// the payload under that id and advance the allocator; when the send
    /// fails the connector is unchanged. The id space is 64-bit and
    /// exhausting it is a fatal error, left out by precondition.
    pub fn send_confirmed<S: Socket>(&mut self, socket: &mut S, msg: Vec<u8>, now: u64) -> (r:
        Result<(), ConnectorError>)
        requires
            old(self)@.wf(),
            old(self)@.instants_le(now),
            next_or_1(old(self)@.send.next_message_id) < u64::MAX,
        ensures
            final(self)@.wf(),
            final(self)@.instants_le(now),
            evolution_ok(old(self)@, final(self)@),
            match r {
                Ok(_) => final(self)@ == (ConnV {
                    send: SendV {
                        cache: old(self)@.send.cache.push(
                            CachedPacketV {
                                id: next_or_1(old(self)@.send.next_message_id),
                                payload: msg@,
                                last_emit: now,
                            },
                        ),
                        next_message_id: Some(
                            (next_or_1(old(self)@.send.next_message_id) + 1) as u64,
                        ),
                        last_ping: old(self)@.send.last_ping,
                    },
                    ..old(self)@
                }),
                Err(e) => e == ConnectorError::SendFailed && *final(self) == *old(self),
            },
    {
        let id = self.send.next_id_to_assign();
        let payload = msg.clone();
        proof {
            assert(payload@ =~= msg@);
        }
        let pkt = Packet::Data { message_id: Some(id), data: msg };
        match send_packet_to(self.peer_addr, socket, &pkt) {
            Err(e) => Err(e),
            Ok(_) => {
                let got = self.send.insert(payload, now);
                proof {
                    assert(self@ =~= (ConnV {
                        send: SendV {
                            cache: old(self)@.send.cache.push(
                                CachedPacketV {
                                    id: next_or_1(old(self)@.send.next_message_id),
                                    payload: msg@,
                                    last_emit: now,
                                },
                            ),
                            next_message_id: Some(
                                (next_or_1(old(self)@.send.next_message_id) + 1) as u64,
                            ),
                            last_ping: old(self)@.send.last_ping,
                        },
                        ..old(self)@
                    }));
                    assert forall|i: int| 0 <= i < self@.send.cache.len() implies cache_contains(
                        old(self)@.send.cache,
                        (#[trigger] self@.send.cache[i]).id,
                    ) || self@.send.cache[i].id >= next_or_1(old(self)@.send.next_message_id) by {
                        if i < old(self)@.send.cache.len() {
                            assert(cache_contains(
                                old(self)@.send.cache,
                                old(self)@.send.cache[i].id,
                            ));
                        }
                    }
                }
                Ok(())
            },
        }
    }

    /// Decode one inbound datagram and dispatch it; the connector state
    /// moves exactly as [`apply_packet`] says. A `Ping` is answered with a
    /// `Pong`, a confirmed `Data` with a `ConfirmPacket`, a `RequestPacket`
    /// with the cached `Data` or with `PacketNotFound`; a delivered
    /// application payload is returned. A datagram that decodes to no packet
    /// is dropped with `DecodeFailed` and no state change; a failing reply
    /// emission surfaces as `SendFailed` after the state has moved.
    pub fn handle_incoming_data<S: Socket>(&mut self, socket: &mut S, data: &[u8], now: u64) -> (r:
        Result<Option<Vec<u8>>, ConnectorError>)
        requires
            old(self)@.wf(),
            old(self)@.instants_le(now),
        ensures
            final(self)@.wf(),
            final(self)@.instants_le(now),
            evolution_ok(old(self)@, final(self)@),
            final(self)@.send.last_ping == old(self)@.send.last_ping,
            final(self)@.send.next_message_id == old(self)@.send.next_message_id,
            match spec_decode(data@) {
                Option::None => r == Err::<Option<Vec<u8>>, ConnectorError>(
                    ConnectorError::DecodeFailed,
                ) && *final(self) == *old(self),
                Option::Some(p) => {
                    &&& final(self)@ == apply_packet(old(self)@, p, now)
                    &&& match r {
                        Ok(Some(v)) => p matches PacketV::Data { data: d, .. } && v@ == d,
                        Ok(None) => !(p matches PacketV::Data { .. }),
                        Err(e) => e == ConnectorError::SendFailed && (p matches PacketV::Ping {
                            ..
                        } || p matches PacketV::RequestPacket { .. } || (p
                            matches PacketV::Data { message_id, .. } && message_id is Some)),
                    }
                },
            },
    {
        let packet = match decode_packet(data) {
            Ok(p) => p,
            Err(_) => {
                proof {
                    lemma_evolution_refl(self@);
                }
                return Err(ConnectorError::DecodeFailed);
            },
        };
        proof {
            crate::codec::lemma_decode_encode(data@);
        }
        let ghost pre = self@;
        let ghost pv = packet@;
        let r: Result<Option<Vec<u8>>, ConnectorError> = match packet {
            Packet::Ping { last_send_message_id } => {
                self.receive.resolve_announcement(last_send_message_id, now);
                let announce = self.send.announced_id();
                let pong = Packet::Pong { last_send_message_id: announce };
                let sent = send_packet_to(self.peer_addr, socket, &pong);
                proof {
                    assert(self@ =~= apply_packet(pre, pv, now));
                }
                match sent {
                    Ok(_) => Ok(None),
                    Err(e) => Err(e),
                }
            },
            Packet::Pong { last_send_message_id } => {
                self.receive.resolve_announcement(last_send_message_id, now);
                proof {
                    assert(self@ =~= apply_packet(pre, pv, now));
                }
                Ok(None)
            },
            Packet::Data { message_id, data: payload } => match message_id {
                Some(m) => {
                    self.receive.record_data(m, now);
                    let confirm = Packet::ConfirmPacket { id: m };
                    let sent = send_packet_to(self.peer_addr, socket, &confirm);
                    proof {
                        assert(self@ =~= apply_packet(pre, pv, now));
                    }
                    match sent {
                        Ok(_) => Ok(Some(payload)),
                        Err(e) => Err(e),
                    }
                },
                None => {
                    self.receive.set_last_ping(now);
                    proof {
                        assert(self@ =~= apply_packet(pre, pv, now));
                    }
                    Ok(Some(payload))
                },
            },
            Packet::RequestPacket { id } => {
                self.receive.set_last_ping(now);
                let fetched = self.send.touch_and_fetch(id, now);
                proof {
                    assert(self@ =~= apply_packet(pre, pv, now));
                    crate::send_half::lemma_touch_cache_wf(
                        pre.send.cache,
                        pre.send.next_message_id,
                        id,
                        now,
                    );
                }
                match fetched {
                    Some(payload) => {
                        let resend = Packet::Data { message_id: Some(id), data: payload };
                        match send_packet_to(self.peer_addr, socket, &resend) {
                            Ok(_) => Ok(None),
                            Err(e) => Err(e),
                        }
                    },
                    None => {
                        let nf = Packet::PacketNotFound { id };
                        match send_packet_to(self.peer_addr, socket, &nf) {
                            Ok(_) => Ok(None),
                            Err(e) => Err(e),
                        }
                    },
                }
            },
            Packet::ConfirmPacket { id } => {
                self.send.remove(id);
                self.receive.set_last_ping(now);
                proof {
                    assert(self@ =~= apply_packet(pre, pv, now));
                    crate::send_half::lemma_remove_cache_wf(
                        pre.send.cache,
                        pre.send.next_message_id,
                        id,
                        now,
                    );
                }
                Ok(None)
            },
            Packet::PacketNotFound { id } => {
                self.receive.drop_missing(id);
                self.receive.set_last_ping(now);
                proof {
                    assert(self@ =~= apply_packet(pre, pv, now));
                    crate::receive_half::lemma_drop_missing_wf(
                        pre.receive.missing,
                        pre.receive.last_message_id,
                        id,
                        now,
                    );
                }
                Ok(None)
            },
        };
        proof {
            lemma_apply_packet_evolution(pre, pv, now);
            lemma_apply_packet_send_frame(pre, pv, now);
        }
        r
    }

    /// One maintenance sweep at instant `now`. When the connector is
    /// `Disconnected` it succeeds and does nothing — the embedder must call
    /// `connect` to resume — and likewise when nothing is due. Otherwise, in
    /// order: a `Ping` when one is due, then a `RequestPacket` for every
    /// missing id due for re-request, then the cached `Data` of every
    /// confirmed message due for resend; each emission stamps its entry with
    /// `now`, and a failing emission aborts the sweep with `SendFailed`,
    /// leaving the entries already swept stamped.
    pub fn update<S: Socket>(&mut self, socket: &mut S, now: u64) -> (r: Result<
        (),
        ConnectorError,
    >)
        requires
            old(self)@.wf(),
            old(self)@.instants_le(now),
        ensures
            final(self)@.wf(),
            final(self)@.instants_le(now),
            evolution_ok(old(self)@, final(self)@),
            partial_update_ok(old(self)@, final(self)@, now),
            r is Ok ==> final(self)@ == update_v(old(self)@, now),
            r is Err ==> r->Err_0 == ConnectorError::SendFailed,
            state_spec(old(self)@, now) == NetworkState::Disconnected ==> r is Ok && final(self)@
                == old(self)@,
            sweep_quiet(old(self)@, now) ==> r is Ok && final(self)@ == old(self)@,
    {
        proof {
            lemma_evolution_refl(self@);
        }
        let st = self.state(now);
        if st == NetworkState::Disconnected {
            return Ok(());
        }
        let due = match self.send.last_ping() {
            None => true,
            Some(t) => now - t > self.param.ping_interval,
        };
        if due {
            proof {
                assert(!sweep_quiet(old(self)@, now));
            }
            match self.send_ping(socket, now) {
                Ok(_) => {},
                Err(e) => {
                    proof {
                        assert(self@.send.cache == old(self)@.send.cache);
                        assert(self@.receive == old(self)@.receive);
                    }
                    return Err(e);
                },
            }
        }
        let ghost mid = self@;
        proof {
            assert(mid.send.cache == old(self)@.send.cache);
            assert(mid.receive == old(self)@.receive);
        }
        let n = self.receive.missing_len();
        let interval = self.param.request_missing_interval;
        let mut i: usize = 0;
        while i < n
            invariant
                old(self)@.wf(),
                old(self)@.instants_le(now),
                mid.wf(),
                mid.instants_le(now),
                mid.send.cache == old(self)@.send.cache,
                mid.receive == old(self)@.receive,
                state_spec(old(self)@, now) != NetworkState::Disconnected,
                interval == mid.param.request_missing_interval,
                n == self@.receive.missing.len(),
                n == mid.receive.missing.len(),
                i <= n,
                self@.send == mid.send,
                self@.peer_addr == mid.peer_addr,
                self@.param == mid.param,
                self@.receive.last_message_id == mid.receive.last_message_id,
                self@.receive.last_ping == mid.receive.last_ping,
                partial_update_ok(old(self)@, self@, now),
                forall|j: int|
                    0 <= j < i ==> #[trigger] self@.receive.missing[j] == refresh_missing(
                        mid.receive.missing,
                        now,
                        mid.param.request_missing_interval,
                    )[j],
                forall|j: int|
                    i <= j < n ==> #[trigger] self@.receive.missing[j] == mid.receive.missing[j],
                self@.wf(),
                self@.instants_le(now),
                evolution_ok(old(self)@, self@),
            decreases n - i,
        {
            let entry = self.receive.missing_at(i);
            if now - entry.1 > interval {
                proof {
                    assert(old(self)@.receive.missing[i as int].last_request == entry.1);
                    assert(!sweep_quiet(old(self)@, now));
                }
                self.receive.touch_missing_at(i, now);
                proof {
                    crate::receive_half::lemma_missing_same_ids_wf(
                        mid.receive.missing,
                        self@.receive.missing,
                        mid.receive.last_message_id,
                        now,
                    );
                }
                let pkt = Packet::RequestPacket { id: entry.0 };
                match send_packet_to(self.peer_addr, socket, &pkt) {
                    Ok(_) => {},
                    Err(e) => {
                        return Err(e);
                    },
                }
            }
            i = i + 1;
        }
        proof {
            assert(self@.receive.missing =~= refresh_missing(
                mid.receive.missing,
                now,
                mid.param.request_missing_interval,
            ));
        }
        let ghost mid2 = self@;
        let m = self.send.cache_len();
        let emit_interval = self.param.emit_unconfirmed_interval;
        let mut k: usize = 0;
        while k < m
            invariant
                old(self)@.wf(),
                old(self)@.instants_le(now),
                mid2.wf(),
                mid2.instants_le(now),
                mid2.send.cache == old(self)@.send.cache,
                state_spec(old(self)@, now) != NetworkState::Disconnected,
                emit_interval == mid2.param.emit_unconfirmed_interval,
                m == self@.send.cache.len(),
                m == mid2.send.cache.len(),
                k <= m,
                self@.receive == mid2.receive,
                self@.peer_addr == mid2.peer_addr,
                self@.param == mid2.param,
                self@.send.next_message_id == mid2.send.next_message_id,
                self@.send.last_ping == mid2.send.last_ping,
                partial_update_ok(old(self)@, self@, now),
                forall|j: int|
                    0 <= j < k ==> #[trigger] self@.send.cache[j] == refresh_cache(
                        mid2.send.cache,
                        now,
                        mid2.param.emit_unconfirmed_interval,
                    )[j],
                forall|j: int| k <= j < m ==> #[trigger] self@.send.cache[j] == mid2.send.cache[j],
                self@.wf(),
                self@.instants_le(now),
                evolution_ok(old(self)@, self@),
            decreases m - k,
        {
            let entry = self.send.entry_at(k);
            if now - entry.1 > emit_interval {
                proof {
                    assert(old(self)@.send.cache[k as int].last_emit == entry.1);
                    assert(!sweep_quiet(old(self)@, now));
                }
                self.send.touch_at(k, now);
                proof {
                    crate::send_half::lemma_cache_same_ids_wf(
                        mid2.send.cache,
                        self@.send.cache,
                        mid2.send.next_message_id,
                        now,
                    );
                }
                let payload = self.send.payload_at(k);
                let pkt = Packet::Data { message_id: Some(entry.0), data: payload };
                match send_packet_to(self.peer_addr, socket, &pkt) {
                    Ok(_) => {},
                    Err(e) => {
                        return Err(e);
                    },
                }
            }
            k = k + 1;
        }
        proof {
            assert(self@.send.cache =~= refresh_cache(
                mid2.send.cache,
                now,
                mid2.param.emit_unconfirmed_interval,
            ));
            assert(self@ =~= update_v(old(self)@, now));
            if sweep_quiet(old(self)@, now) {
                assert(mid =~= old(self)@);
                assert(refresh_missing(
                    mid.receive.missing,
                    now,
                    mid.param.request_missing_interval,
                ) =~= mid.receive.missing);
                assert(mid2 =~= old(self)@);
                assert(refresh_cache(
                    mid2.send.cache,
                    now,
                    mid2.param.emit_unconfirmed_interval,
                ) =~= mid2.send.cache);
                assert(self@ =~= old(self)@);
            }
        }
        Ok(())
    }

    /// Drain the socket at instant `now`: handle every pending datagram
    /// from the bound peer, ignoring other senders, and collect the
    /// delivered application payloads in arrival order. A zero-length read
    /// from the peer before any datagram was handled this call fails with
    /// `BrokenTransport`; one after that ends the drain, as does "would
    /// block". Datagrams are cut to `MAX_DATAGRAM_SIZE` bytes, and at most
    /// `MAX_DATAGRAMS_PER_RECEIVE` of them are handled per call. The drain
    /// never moves the outbound heartbeat or the id allocator.
    pub fn receive_from<S: Socket>(&mut self, socket: &mut S, now: u64) -> (r: Result<
        Vec<Vec<u8>>,
        ConnectorError,
    >)
        requires
            old(self)@.wf(),
            old(self)@.instants_le(now),
        ensures
            final(self)@.wf(),
            final(self)@.instants_le(now),
            evolution_ok(old(self)@, final(self)@),
            final(self)@.send.last_ping == old(self)@.send.last_ping,
            final(self)@.send.next_message_id == old(self)@.send.next_message_id,
    {
        proof {
            lemma_evolution_refl(self@);
        }
        let mut result: Vec<Vec<u8>> = Vec::new();
        let mut had_message = false;
        let mut budget: usize = MAX_DATAGRAMS_PER_RECEIVE;
        loop
            invariant
                self@.wf(),
                self@.instants_le(now),
                evolution_ok(old(self)@, self@),
                self@.send.last_ping == old(self)@.send.last_ping,
                self@.send.next_message_id == old(self)@.send.next_message_id,
            decreases budget,
        {
            if budget == 0 {
                return Ok(result);
            }
            budget = budget - 1;
            match socket.recv_from() {
                RecvOutcome::Datagram { bytes, from } => {
                    if from == self.peer_addr {
                        if bytes.len() == 0 {
                            if had_message {
                                return Ok(result);
                            } else {
                                return Err(ConnectorError::BrokenTransport);
                            }
                        }
                        had_message = true;
                        let mut datagram = bytes;
                        datagram.truncate(MAX_DATAGRAM_SIZE);
                        let ghost before = self@;
                        let outcome = self.handle_incoming_data(
                            socket,
                            datagram.as_slice(),
                            now,
                        );
                        proof {
                            lemma_evolution_trans(old(self)@, before, self@);
                        }
                        match outcome {
                            Ok(Some(msg)) => {
                                result.push(msg);
                            },
                            Ok(None) => {},
                            Err(e) => {
                                return Err(e);
                            },
                        }
                    }
                },
                RecvOutcome::WouldBlock => {
                    return Ok(result);
                },
                RecvOutcome::Failed => {
                    return Err(ConnectorError::ReceiveFailed);
                },
            }
        }
    }

    /// One maintenance sweep followed by a drain of the socket; a failure
    /// of the sweep aborts before the drain, so on success the final state
    /// extends the sweep's post-state: the drain only evolves it forward and
    /// leaves the outbound heartbeat and the id allocator where the sweep
    /// put them.
    pub fn update_and_receive<S: Socket>(&mut self, socket: &mut S, now: u64) -> (r: Result<
        Vec<Vec<u8>>,
        ConnectorError,
    >)
        requires
            old(self)@.wf(),
            old(self)@.instants_le(now),
        ensures
            final(self)@.wf(),
            final(self)@.instants_le(now),
            evolution_ok(old(self)@, final(self)@),
            final(self)@.send.next_message_id == old(self)@.send.next_message_id,
            r is Ok ==> evolution_ok(update_v(old(self)@, now), final(self)@),
            r is Ok ==> final(self)@.send.last_ping == update_v(old(self)@, now).send.last_ping,
    {
        let ghost pre = self@;
        match self.update(socket, now) {
            Ok(_) => {},
            Err(e) => {
                return Err(e);
            },
        }
        let ghost mid = self@;
        let r = self.receive_from(socket, now);
        proof {
            lemma_evolution_trans(pre, mid, self@);
        }
        r
    }
}

} // verus!
