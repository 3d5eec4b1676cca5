//! The protocol's guarantees, stated and proved over the connector model.
//!
//! The per-operation contracts in [`crate::connector`] say how each call
//! moves the state; the lemmas here chain them into guarantees about whole
//! runs: an id below the allocator that is out of the cache stays out, a
//! delivered id never re-enters the missing list, silence flips the status
//! to `Disconnected`, and handling the same packet twice equals handling it
//! once. `connect` resets both id spaces and is the one operation whose
//! steps these run-level lemmas exclude.

use vstd::prelude::*;

use crate::connector::{
    apply_packet, recv_evolution_ok, send_evolution_ok, state_spec, ConnV, NetworkState,
};
use crate::packet::{packet_wf, PacketV};
use crate::receive_half::{
    gap_fill, last_or_0, max_u64, missing_contains, missing_unique, record_data_v,
    remove_missing_id, resolve_announcement_v, MissingIdV, RecvV,
};
use crate::send_half::{cache_contains, next_or_1, touch_cache_id, CachedPacketV, SendV};

verus! {

/// Every id in the unconfirmed cache is strictly below the next id to
/// assign.
pub proof fn lemma_cache_ids_below_next(s: SendV, id: u64)
    requires
        s.wf(),
        cache_contains(s.cache, id),
    ensures
        s.next_message_id is Some,
        id < next_or_1(s.next_message_id),
{
    let i = choose|i: int| 0 <= i < s.cache.len() && s.cache[i].id == id;
    assert(s.cache[i].id < next_or_1(s.next_message_id));
}

/// Once an id below the allocator is out of the cache, no run of forward
/// steps brings it back: an acknowledged id is never cached again. (After
/// `connect` the allocator restarts, so a run crossing it reuses ids.)
pub proof fn lemma_confirmed_id_stays_out_of_cache(trace: Seq<SendV>, k: u64)
    requires
        trace.len() >= 1,
        forall|i: int|
            0 <= i < trace.len() - 1 ==> send_evolution_ok(#[trigger] trace[i], trace[i + 1]),
        !cache_contains(trace[0].cache, k),
        k < next_or_1(trace[0].next_message_id),
    ensures
        forall|i: int| 0 <= i < trace.len() ==> !cache_contains((#[trigger] trace[i]).cache, k),
{
    assert forall|i: int| 0 <= i < trace.len() implies !cache_contains(
        (#[trigger] trace[i]).cache,
        k,
    ) by {
        lemma_cache_absent_at(trace, k, i);
    }
}

/// The absence invariant at one position of the run, by induction on it.
proof fn lemma_cache_absent_at(trace: Seq<SendV>, k: u64, i: int)
    requires
        forall|i: int|
            0 <= i < trace.len() - 1 ==> send_evolution_ok(#[trigger] trace[i], trace[i + 1]),
        !cache_contains(trace[0].cache, k),
        k < next_or_1(trace[0].next_message_id),
        0 <= i < trace.len(),
    ensures
        !cache_contains(trace[i].cache, k),
        k < next_or_1(trace[i].next_message_id),
    decreases i,
{
    if i > 0 {
        lemma_cache_absent_at(trace, k, i - 1);
        assert(send_evolution_ok(trace[i - 1], trace[i]));
        if cache_contains(trace[i].cache, k) {
            let j = choose|j: int| 0 <= j < trace[i].cache.len() && trace[i].cache[j].id == k;
            assert(cache_contains(trace[i - 1].cache, trace[i].cache[j].id)
                || trace[i].cache[j].id >= next_or_1(trace[i - 1].next_message_id));
            assert(false);
        }
    }
}

/// Once an id at or below the high-water mark is out of the missing list,
/// no run of forward steps brings it back: after `Data { id: k }` is
/// recorded, `k` is never inferred missing again.
pub proof fn lemma_resolved_id_stays_out_of_missing(trace: Seq<RecvV>, k: u64)
    requires
        trace.len() >= 1,
        forall|i: int|
            0 <= i < trace.len() - 1 ==> recv_evolution_ok(#[trigger] trace[i], trace[i + 1]),
        !missing_contains(trace[0].missing, k),
        k <= last_or_0(trace[0].last_message_id),
    ensures
        forall|i: int| 0 <= i < trace.len() ==> !missing_contains((#[trigger] trace[i]).missing, k),
{
    assert forall|i: int| 0 <= i < trace.len() implies !missing_contains(
        (#[trigger] trace[i]).missing,
        k,
    ) by {
        lemma_missing_absent_at(trace, k, i);
    }
}

/// The absence invariant at one position of the run, by induction on it.
proof fn lemma_missing_absent_at(trace: Seq<RecvV>, k: u64, i: int)
    requires
        forall|i: int|
            0 <= i < trace.len() - 1 ==> recv_evolution_ok(#[trigger] trace[i], trace[i + 1]),
        !missing_contains(trace[0].missing, k),
        k <= last_or_0(trace[0].last_message_id),
        0 <= i < trace.len(),
    ensures
        !missing_contains(trace[i].missing, k),
        k <= last_or_0(trace[i].last_message_id),
    decreases i,
{
    if i > 0 {
        lemma_missing_absent_at(trace, k, i - 1);
        assert(recv_evolution_ok(trace[i - 1], trace[i]));
        if missing_contains(trace[i].missing, k) {
            let j = choose|j: int| 0 <= j < trace[i].missing.len() && trace[i].missing[j].id == k;
            assert(missing_contains(trace[i - 1].missing, trace[i].missing[j].id)
                || trace[i].missing[j].id > last_or_0(trace[i - 1].last_message_id));
            assert(false);
        }
    }
}

/// Recording confirmed id `m` enters every id strictly between the old
/// high-water mark and `m` into the missing list, drops `m` itself, and
/// leaves the rest of the list alone.
pub proof fn lemma_record_data_gap(r: RecvV, m: u64, now: u64, j: u64)
    requires
        r.wf(),
        m >= 1,
    ensures
        last_or_0(r.last_message_id) < j < m ==> missing_contains(
            record_data_v(r, m, now).missing,
            j,
        ),
        !missing_contains(record_data_v(r, m, now).missing, m),
        j != m && !(last_or_0(r.last_message_id) < j < m) ==> (missing_contains(
            record_data_v(r, m, now).missing,
            j,
        ) <==> missing_contains(r.missing, j)),
{
    let lo = last_or_0(r.last_message_id);
    let filled = gap_fill(r.missing, lo, (m - 1) as u64, now);
    crate::receive_half::lemma_gap_fill_contains(r.missing, lo, (m - 1) as u64, now, j);
    crate::receive_half::lemma_gap_fill_contains(r.missing, lo, (m - 1) as u64, now, m);
    crate::receive_half::lemma_gap_fill_entries(r.missing, lo, (m - 1) as u64, now);
    lemma_filled_unique_here(r, m, now);
    lemma_remove_gone(filled, m);
    if j != m {
        lemma_remove_other(filled, m, j);
    }
    if missing_contains(r.missing, m) {
        assert(m <= lo);
    }
}

/// Gap-fill of a well-formed list keeps ids unique.
proof fn lemma_filled_unique_here(r: RecvV, m: u64, now: u64)
    requires
        r.wf(),
        m >= 1,
    ensures
        missing_unique(
            gap_fill(r.missing, last_or_0(r.last_message_id), (m - 1) as u64, now),
        ),
{
    let lo = last_or_0(r.last_message_id);
    let filled = gap_fill(r.missing, lo, (m - 1) as u64, now);
    crate::receive_half::lemma_gap_fill_entries(r.missing, lo, (m - 1) as u64, now);
    assert forall|i: int, j: int|
        0 <= i < filled.len() && 0 <= j < filled.len() && i != j implies (#[trigger] filled[i]).id
        != (#[trigger] filled[j]).id by {
        if i < r.missing.len() && j < r.missing.len() {
            assert(r.missing[i].id != r.missing[j].id);
        } else if i < r.missing.len() && j >= r.missing.len() {
            assert(filled[i] == r.missing[i]);
            assert(missing_contains(r.missing, r.missing[i].id));
        } else if i >= r.missing.len() && j < r.missing.len() {
            assert(filled[j] == r.missing[j]);
            assert(missing_contains(r.missing, r.missing[j].id));
        }
    }
}

/// After removal from a duplicate-free list, the id is gone entirely.
proof fn lemma_remove_gone(s: Seq<MissingIdV>, id: u64)
    requires
        missing_unique(s),
    ensures
        !missing_contains(remove_missing_id(s, id), id),
{
    if missing_contains(s, id) {
        let k = choose|i: int| 0 <= i < s.len() && s[i].id == id;
        let post = s.remove(k);
        if missing_contains(post, id) {
            let j = choose|i: int| 0 <= i < post.len() && post[i].id == id;
            if j < k {
                assert(post[j] == s[j]);
                assert(s[j].id != s[k].id);
            } else {
                assert(post[j] == s[j + 1]);
                assert(s[j + 1].id != s[k].id);
            }
            assert(false);
        }
    }
}

/// Removing one id leaves every other id's membership unchanged.
proof fn lemma_remove_other(s: Seq<MissingIdV>, id: u64, j: u64)
    requires
        j != id,
    ensures
        missing_contains(remove_missing_id(s, id), j) <==> missing_contains(s, j),
{
    if missing_contains(s, id) {
        let k = choose|i: int| 0 <= i < s.len() && s[i].id == id;
        let post = s.remove(k);
        if missing_contains(s, j) {
            let i = choose|i: int| 0 <= i < s.len() && s[i].id == j;
            if i < k {
                assert(post[i] == s[i]);
            } else {
                assert(i > k);
                assert(post[i - 1] == s[i]);
            }
            assert(missing_contains(post, j));
        }
        if missing_contains(post, j) {
            let i = choose|i: int| 0 <= i < post.len() && post[i].id == j;
            if i < k {
                assert(post[i] == s[i]);
            } else {
                assert(post[i] == s[i + 1]);
            }
            assert(missing_contains(s, j));
        }
    }
}

/// An id leaves the missing list only when the peer resolves it: by the
/// arrival of `Data` carrying it or of `PacketNotFound` naming it.
pub proof fn lemma_missing_leaves_only_by_resolution(c: ConnV, p: PacketV, now: u64, j: u64)
    requires
        c.wf(),
        packet_wf(p),
        missing_contains(c.receive.missing, j),
        !missing_contains(apply_packet(c, p, now).receive.missing, j),
    ensures
        p == (PacketV::Data { message_id: Some(j), data: p->Data_data }) || p == (
        PacketV::PacketNotFound { id: j }),
{
    match p {
        PacketV::Ping { last_send_message_id: a } | PacketV::Pong { last_send_message_id: a } => {
            if let Some(k) = a {
                crate::receive_half::lemma_gap_fill_contains(
                    c.receive.missing,
                    last_or_0(c.receive.last_message_id),
                    k,
                    now,
                    j,
                );
            }
            assert(false);
        },
        PacketV::Data { message_id, .. } => {
            match message_id {
                Some(m) => {
                    crate::receive_half::lemma_gap_fill_contains(
                        c.receive.missing,
                        last_or_0(c.receive.last_message_id),
                        (m - 1) as u64,
                        now,
                        j,
                    );
                    if j != m {
                        lemma_remove_other(
                            gap_fill(
                                c.receive.missing,
                                last_or_0(c.receive.last_message_id),
                                (m - 1) as u64,
                                now,
                            ),
                            m,
                            j,
                        );
                        assert(false);
                    }
                },
                None => {
                    assert(false);
                },
            }
        },
        PacketV::RequestPacket { .. } => {
            assert(false);
        },
        PacketV::ConfirmPacket { .. } => {
            assert(false);
        },
        PacketV::PacketNotFound { id } => {
            if j != id {
                lemma_remove_other(c.receive.missing, id, j);
                assert(false);
            }
        },
    }
}

/// When no packet has arrived within the receive timeout and no ping has
/// left within the send timeout, the status is `Disconnected`. (While the
/// embedder keeps calling `update` and the sends succeed, fresh pings keep
/// the status at `Connecting` instead: silence on both directions is what
/// disconnects.)
pub proof fn lemma_silence_disconnects(c: ConnV, now: u64)
    requires
        c.instants_le(now),
        c.receive.last_ping is Some ==> now - c.receive.last_ping->0
            > c.param.receive_ping_timeout,
        c.send.last_ping is Some ==> now - c.send.last_ping->0 > c.param.send_ping_timeout,
    ensures
        state_spec(c, now) == NetworkState::Disconnected,
{
}

/// Handling the same inbound packet twice at one instant leaves exactly the
/// state that handling it once leaves.
pub proof fn lemma_apply_packet_idempotent(c: ConnV, p: PacketV, now: u64)
    requires
        c.wf(),
        packet_wf(p),
    ensures
        apply_packet(apply_packet(c, p, now), p, now) == apply_packet(c, p, now),
{
    let once = apply_packet(c, p, now);
    let twice = apply_packet(once, p, now);
    match p {
        PacketV::Ping { last_send_message_id: a } | PacketV::Pong { last_send_message_id: a } => {
            match a {
                None => {
                    assert(twice =~= once);
                },
                Some(k) => {
                    let r1 = resolve_announcement_v(c.receive, a, now);
                    assert(last_or_0(r1.last_message_id) >= k);
                    assert(gap_fill(r1.missing, last_or_0(r1.last_message_id), k, now)
                        == r1.missing);
                    assert(max_u64(last_or_0(r1.last_message_id), k) == last_or_0(
                        r1.last_message_id,
                    ));
                    assert(resolve_announcement_v(r1, a, now) =~= r1);
                    assert(twice =~= once);
                },
            }
        },
        PacketV::Data { message_id, .. } => {
            match message_id {
                None => {
                    assert(twice =~= once);
                },
                Some(m) => {
                    let r1 = record_data_v(c.receive, m, now);
                    assert(last_or_0(r1.last_message_id) >= m);
                    assert(gap_fill(r1.missing, last_or_0(r1.last_message_id), (m - 1) as u64, now)
                        == r1.missing);
                    lemma_filled_unique_here(c.receive, m, now);
                    lemma_remove_gone(
                        gap_fill(
                            c.receive.missing,
                            last_or_0(c.receive.last_message_id),
                            (m - 1) as u64,
                            now,
                        ),
                        m,
                    );
                    assert(!missing_contains(r1.missing, m));
                    assert(remove_missing_id(r1.missing, m) == r1.missing);
                    assert(record_data_v(r1, m, now) =~= r1);
                    assert(twice =~= once);
                },
            }
        },
        PacketV::RequestPacket { id } => {
            let s1 = touch_cache_id(c.send.cache, id, now);
            if cache_contains(c.send.cache, id) {
                let k = choose|i: int|
                    0 <= i < c.send.cache.len() && c.send.cache[i].id == id;
                assert(s1 == c.send.cache.update(
                    k,
                    CachedPacketV {
                        id: c.send.cache[k].id,
                        payload: c.send.cache[k].payload,
                        last_emit: now,
                    },
                ));
                assert(s1[k].id == id);
                assert(cache_contains(s1, id));
                let k2 = choose|i: int| 0 <= i < s1.len() && s1[i].id == id;
                assert(forall|i: int| 0 <= i < s1.len() && i != k ==> s1[i] == c.send.cache[i]);
                assert(k2 == k) by {
                    if k2 != k {
                        assert(c.send.cache[k2].id == id);
                        assert(c.send.cache[k2].id != c.send.cache[k].id);
                    }
                }
                assert(touch_cache_id(s1, id, now) =~= s1);
            } else {
                assert(!cache_contains(s1, id));
            }
            assert(twice =~= once);
        },
        PacketV::ConfirmPacket { id } => {
            lemma_remove_cache_gone(c.send.cache, id);
            assert(twice =~= once);
        },
        PacketV::PacketNotFound { id } => {
            lemma_remove_gone(c.receive.missing, id);
            assert(twice =~= once);
        },
    }
}

/// After removal from a duplicate-free cache, the id is gone entirely.
proof fn lemma_remove_cache_gone(s: Seq<CachedPacketV>, id: u64)
    requires
        forall|i: int, j: int|
            0 <= i < s.len() && 0 <= j < s.len() && i != j ==> (#[trigger] s[i]).id != (
            #[trigger] s[j]).id,
    ensures
        !cache_contains(crate::send_half::remove_cache_id(s, id), id),
{
    if cache_contains(s, id) {
        let k = choose|i: int| 0 <= i < s.len() && s[i].id == id;
        let post = s.remove(k);
        if cache_contains(post, id) {
            let j = choose|i: int| 0 <= i < post.len() && post[i].id == id;
            if j < k {
                assert(post[j] == s[j]);
                assert(s[j].id != s[k].id);
            } else {
                assert(post[j] == s[j + 1]);
                assert(s[j + 1].id != s[k].id);
            }
            assert(false);
        }
    }
}

} // verus!
