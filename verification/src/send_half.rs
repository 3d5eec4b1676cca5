//! The sending half of a connector: the outgoing-message id allocator and
//! the cache of confirmed messages that the peer has not yet acknowledged.
//!
//! Ids are allocated from 1 upward; `next_message_id` is absent until the
//! first confirmed send. Every cached id is strictly below the next id to
//! assign, and an id that leaves the cache by acknowledgement is never
//! reused while the allocator is not reset.

use vstd::prelude::*;

verus! {

/// One confirmed message awaiting acknowledgement: its id, its payload, and
/// the instant of its last emission.
pub struct CachedPacket {
    id: u64,
    payload: Vec<u8>,
    last_emit: u64,
}

/// The mathematical shape of a cache entry.
#[verifier::ext_equal]
pub ghost struct CachedPacketV {
    pub id: u64,
    pub payload: Seq<u8>,
    pub last_emit: u64,
}

impl View for CachedPacket {
    type V = CachedPacketV;

    closed spec fn view(&self) -> CachedPacketV {
        CachedPacketV { id: self.id, payload: self.payload@, last_emit: self.last_emit }
    }
}

/// The mathematical shape of the sending half.
#[verifier::ext_equal]
pub ghost struct SendV {
    /// The unacknowledged confirmed messages, in insertion order.
    pub cache: Seq<CachedPacketV>,
    /// The next id to assign; absent while no confirmed message was ever
    /// sent, and at least 2 once present.
    pub next_message_id: Option<u64>,
    /// The instant of the last emitted ping, if one was emitted.
    pub last_ping: Option<u64>,
}

/// The next id that a confirmed send will carry.
pub open spec fn next_or_1(next: Option<u64>) -> u64 {
    match next {
        None => 1,
        Some(k) => k,
    }
}

/// The id announced in pings: the highest assigned id, absent before the
/// first confirmed send.
pub open spec fn announce_of(next: Option<u64>) -> Option<u64> {
    match next {
        None => None,
        Some(k) => Some((k - 1) as u64),
    }
}

/// Whether some cache entry carries `id`.
pub open spec fn cache_contains(s: Seq<CachedPacketV>, id: u64) -> bool {
    exists|i: int| 0 <= i < s.len() && s[i].id == id
}

/// The cache with the entry carrying `id` removed; unchanged when no entry
/// carries it.
pub open spec fn remove_cache_id(s: Seq<CachedPacketV>, id: u64) -> Seq<CachedPacketV> {
    if cache_contains(s, id) {
        s.remove(choose|i: int| 0 <= i < s.len() && s[i].id == id)
    } else {
        s
    }
}

/// The cache with the entry carrying `id` stamped as emitted at `now`;
/// unchanged when no entry carries it.
pub open spec fn touch_cache_id(s: Seq<CachedPacketV>, id: u64, now: u64) -> Seq<CachedPacketV> {
    if cache_contains(s, id) {
        let i = choose|i: int| 0 <= i < s.len() && s[i].id == id;
        s.update(i, CachedPacketV { id: s[i].id, payload: s[i].payload, last_emit: now })
    } else {
        s
    }
}

impl SendV {
    /// The half as construction and `connect` leave it.
    pub open spec fn init() -> SendV {
        SendV { cache: Seq::empty(), next_message_id: None, last_ping: None }
    }

    /// Well-formedness: cached ids are strictly positive, pairwise distinct
    /// and strictly below the next id to assign, which is at least 2 once
    /// present.
    pub open spec fn wf(self) -> bool {
        cache_wf(self.cache, self.next_message_id)
    }

    /// All instants held by the half are at most `t`.
    pub open spec fn instants_le(self, t: u64) -> bool {
        &&& (self.last_ping is Some ==> self.last_ping->0 <= t)
        &&& cache_instants_le(self.cache, t)
    }
}

/// Well-formedness of a cache against the allocator: ids strictly positive,
/// pairwise distinct, strictly below the next id to assign, which is at
/// least 2 once present.
pub open spec fn cache_wf(cache: Seq<CachedPacketV>, next: Option<u64>) -> bool {
    &&& (cache.len() > 0 ==> next is Some)
    &&& forall|i: int|
        0 <= i < cache.len() ==> 1 <= (#[trigger] cache[i]).id && cache[i].id < next_or_1(next)
    &&& forall|i: int, j: int|
        0 <= i < cache.len() && 0 <= j < cache.len() && i != j ==> (#[trigger] cache[i]).id != (
        #[trigger] cache[j]).id
    &&& (next is Some ==> next->0 >= 2)
}

/// All emission instants of a cache are at most `t`.
pub open spec fn cache_instants_le(cache: Seq<CachedPacketV>, t: u64) -> bool {
    forall|i: int| 0 <= i < cache.len() ==> (#[trigger] cache[i]).last_emit <= t
}

/// Stamping one cache entry keeps the cache well formed, and keeps every
/// emission instant at most `now` when they all were before.
pub proof fn lemma_touch_cache_wf(cache: Seq<CachedPacketV>, next: Option<u64>, id: u64, now: u64)
    requires
        cache_wf(cache, next),
    ensures
        cache_wf(touch_cache_id(cache, id, now), next),
        cache_instants_le(cache, now) ==> cache_instants_le(touch_cache_id(cache, id, now), now),
{
    let post = touch_cache_id(cache, id, now);
    if cache_contains(cache, id) {
        let k = choose|i: int| 0 <= i < cache.len() && cache[i].id == id;
        assert(forall|i: int|
            0 <= i < post.len() ==> (#[trigger] post[i]).id == cache[i].id);
    }
}

/// Removing one cache entry keeps the cache well formed, and keeps every
/// emission instant at most `t` when they all were before.
pub proof fn lemma_remove_cache_wf(cache: Seq<CachedPacketV>, next: Option<u64>, id: u64, t: u64)
    requires
        cache_wf(cache, next),
    ensures
        cache_wf(remove_cache_id(cache, id), next),
        cache_instants_le(cache, t) ==> cache_instants_le(remove_cache_id(cache, id), t),
{
    let post = remove_cache_id(cache, id);
    if cache_contains(cache, id) {
        let k = choose|i: int| 0 <= i < cache.len() && cache[i].id == id;
        assert(forall|i: int|
            0 <= i < post.len() ==> #[trigger] post[i] == if i < k {
                cache[i]
            } else {
                cache[i + 1]
            });
    }
}

/// A cache whose entries keep their ids and payloads, each instant kept or
/// stamped `now`, stays well formed with instants at most `now`.
#[verifier::spinoff_prover]
#[verifier::rlimit(30)]
pub proof fn lemma_cache_same_ids_wf(
    pre: Seq<CachedPacketV>,
    post: Seq<CachedPacketV>,
    next: Option<u64>,
    now: u64,
)
    requires
        cache_wf(pre, next),
        cache_instants_le(pre, now),
        post.len() == pre.len(),
        forall|i: int|
            0 <= i < pre.len() ==> (#[trigger] post[i]).id == pre[i].id && (post[i].last_emit
                == pre[i].last_emit || post[i].last_emit == now),
    ensures
        cache_wf(post, next),
        cache_instants_le(post, now),
{
    assert forall|i: int|
        0 <= i < post.len() implies 1 <= (#[trigger] post[i]).id && post[i].id < next_or_1(next) by {
        assert(post[i].id == pre[i].id);
        assert(1 <= pre[i].id && pre[i].id < next_or_1(next));
    }
    assert forall|i: int, j: int|
        0 <= i < post.len() && 0 <= j < post.len() && i != j implies (#[trigger] post[i]).id != (
    #[trigger] post[j]).id by {
        assert(post[i].id == pre[i].id);
        assert(post[j].id == pre[j].id);
        assert(pre[i].id != pre[j].id);
    }
    assert forall|i: int| 0 <= i < post.len() implies (#[trigger] post[i]).last_emit <= now by {
        assert(pre[i].last_emit <= now);
    }
}

/// The sending half: exec state whose view is a [`SendV`].
pub struct ConnectorSend {
    unconfirmed_message_cache: Vec<CachedPacket>,
    next_message_id: Option<u64>,
    last_ping: Option<u64>,
}

impl View for ConnectorSend {
    type V = SendV;

    closed spec fn view(&self) -> SendV {
        SendV {
            cache: Seq::new(
                self.unconfirmed_message_cache@.len(),
                |i: int| self.unconfirmed_message_cache@[i]@,
            ),
            next_message_id: self.next_message_id,
            last_ping: self.last_ping,
        }
    }
}

impl ConnectorSend {
    /// An empty half: no cache, no allocated id, no ping emitted yet.
    pub fn new() -> (r: ConnectorSend)
        ensures
            r@ == SendV::init(),
    {
        let r = ConnectorSend {
            unconfirmed_message_cache: Vec::new(),
            next_message_id: None,
            last_ping: None,
        };
        proof {
            assert(r@ =~= SendV::init());
        }
        r
    }

    /// Record that a ping left at `now`.
    pub fn set_last_ping(&mut self, now: u64)
        ensures
            final(self)@ == (SendV { last_ping: Some(now), ..old(self)@ }),
    {
        self.last_ping = Some(now);
        proof {
            assert(self@ =~= (SendV { last_ping: Some(now), ..old(self)@ }));
        }
    }

    /// When the last ping left, if one did.
    pub fn last_ping(&self) -> (r: Option<u64>)
        ensures
            r == self@.last_ping,
    {
        self.last_ping
    }

    /// The id that the next confirmed send will carry.
    pub fn next_id_to_assign(&self) -> (r: u64)
        ensures
            r == next_or_1(self@.next_message_id),
    {
        match self.next_message_id {
            None => 1,
            Some(k) => k,
        }
    }

    /// The id to announce in pings: the highest assigned id, if any.
    pub fn announced_id(&self) -> (r: Option<u64>)
        requires
            self@.wf(),
        ensures
            r == announce_of(self@.next_message_id),
    {
        match self.next_message_id {
            None => None,
            Some(k) => Some(k - 1),
        }
    }

    /// Bind the next id to `payload` at `now` and advance the allocator,
    /// returning the bound id.
    pub fn insert(&mut self, payload: Vec<u8>, now: u64) -> (id: u64)
        requires
            old(self)@.wf(),
            next_or_1(old(self)@.next_message_id) < u64::MAX,
        ensures
            id == next_or_1(old(self)@.next_message_id),
            final(self)@ == (SendV {
                cache: old(self)@.cache.push(
                    CachedPacketV { id, payload: payload@, last_emit: now },
                ),
                next_message_id: Some((id + 1) as u64),
                last_ping: old(self)@.last_ping,
            }),
            final(self)@.wf(),
    {
        let id = self.next_id_to_assign();
        self.unconfirmed_message_cache.push(CachedPacket { id, payload, last_emit: now });
        self.next_message_id = Some(id + 1);
        proof {
            assert(self@.cache =~= old(self)@.cache.push(
                CachedPacketV { id, payload: payload@, last_emit: now },
            ));
            assert(self@ =~= (SendV {
                cache: old(self)@.cache.push(
                    CachedPacketV { id, payload: payload@, last_emit: now },
                ),
                next_message_id: Some((id + 1) as u64),
                last_ping: old(self)@.last_ping,
            }));
        }
        id
    }

    /// Drop the entry carrying `id`, silently when none does.
    pub fn remove(&mut self, id: u64)
        requires
            old(self)@.wf(),
        ensures
            final(self)@ == (SendV {
                cache: remove_cache_id(old(self)@.cache, id),
                ..old(self)@
            }),
    {
        let n = self.unconfirmed_message_cache.len();
        let mut i: usize = 0;
        while i < n
            invariant
                old(self)@.wf(),
                n == self.unconfirmed_message_cache@.len(),
                i <= n,
                *self == *old(self),
                forall|j: int| 0 <= j < i ==> self@.cache[j].id != id,
            decreases n - i,
        {
            if self.unconfirmed_message_cache[i].id == id {
                proof {
                    assert(old(self)@.cache[i as int].id == id);
                    assert(cache_contains(old(self)@.cache, id));
                    let k = choose|k: int|
                        0 <= k < old(self)@.cache.len() && old(self)@.cache[k].id == id;
                    assert(old(self)@.cache[k].id == id);
                    assert(k == i as int);
                }
                self.unconfirmed_message_cache.remove(i);
                proof {
                    assert(self@.cache =~= remove_cache_id(old(self)@.cache, id));
                    assert(self@ =~= (SendV {
                        cache: remove_cache_id(old(self)@.cache, id),
                        ..old(self)@
                    }));
                }
                return ;
            }
            i = i + 1;
        }
        proof {
            assert(!cache_contains(self@.cache, id));
            assert(self@ =~= (SendV { cache: remove_cache_id(old(self)@.cache, id), ..old(self)@ }));
        }
    }

    /// Stamp the entry carrying `id` as emitted at `now` and hand back a copy
    /// of its payload; `None` when no entry carries `id`.
    pub fn touch_and_fetch(&mut self, id: u64, now: u64) -> (r: Option<Vec<u8>>)
        requires
            old(self)@.wf(),
        ensures
            final(self)@ == (SendV {
                cache: touch_cache_id(old(self)@.cache, id, now),
                ..old(self)@
            }),
            match r {
                Some(v) => cache_contains(old(self)@.cache, id) && exists|i: int|
                    0 <= i < old(self)@.cache.len() && old(self)@.cache[i].id == id && v@
                        == old(self)@.cache[i].payload,
                None => !cache_contains(old(self)@.cache, id),
            },
            final(self)@.wf(),
    {
        let n = self.unconfirmed_message_cache.len();
        let mut i: usize = 0;
        while i < n
            invariant
                old(self)@.wf(),
                n == self.unconfirmed_message_cache@.len(),
                i <= n,
                *self == *old(self),
                forall|j: int| 0 <= j < i ==> self@.cache[j].id != id,
            decreases n - i,
        {
            if self.unconfirmed_message_cache[i].id == id {
                proof {
                    assert(old(self)@.cache[i as int].id == id);
                    assert(cache_contains(old(self)@.cache, id));
                    let k = choose|k: int|
                        0 <= k < old(self)@.cache.len() && old(self)@.cache[k].id == id;
                    assert(old(self)@.cache[k].id == id);
                    assert(k == i as int);
                }
                let payload = self.unconfirmed_message_cache[i].payload.clone();
                proof {
                    assert(payload@ =~= old(self)@.cache[i as int].payload);
                }
                let entry = CachedPacket {
                    id,
                    payload: self.unconfirmed_message_cache[i].payload.clone(),
                    last_emit: now,
                };
                proof {
                    assert(entry@.payload =~= old(self)@.cache[i as int].payload);
                }
                self.unconfirmed_message_cache[i] = entry;
                proof {
                    assert(self@.cache =~= touch_cache_id(old(self)@.cache, id, now));
                    assert(self@ =~= (SendV {
                        cache: touch_cache_id(old(self)@.cache, id, now),
                        ..old(self)@
                    }));
                }
                return Some(payload);
            }
            i = i + 1;
        }
        proof {
            assert(!cache_contains(self@.cache, id));
            assert(self@ =~= (SendV {
                cache: touch_cache_id(old(self)@.cache, id, now),
                ..old(self)@
            }));
        }
        None
    }

    /// How many confirmed messages await acknowledgement.
    pub fn cache_len(&self) -> (r: usize)
        ensures
            r == self@.cache.len(),
    {
        self.unconfirmed_message_cache.len()
    }

    /// The id and last-emission instant of the cache entry at `i`.
    pub fn entry_at(&self, i: usize) -> (r: (u64, u64))
        requires
            i < self@.cache.len(),
        ensures
            r.0 == self@.cache[i as int].id,
            r.1 == self@.cache[i as int].last_emit,
    {
        (self.unconfirmed_message_cache[i].id, self.unconfirmed_message_cache[i].last_emit)
    }

    /// A copy of the payload of the cache entry at `i`.
    pub fn payload_at(&self, i: usize) -> (r: Vec<u8>)
        requires
            i < self@.cache.len(),
        ensures
            r@ == self@.cache[i as int].payload,
    {
        let r = self.unconfirmed_message_cache[i].payload.clone();
        proof {
            assert(r@ =~= self@.cache[i as int].payload);
        }
        r
    }

    /// Stamp the cache entry at `i` as emitted at `now`.
    pub fn touch_at(&mut self, i: usize, now: u64)
        requires
            i < old(self)@.cache.len(),
        ensures
            final(self)@ == (SendV {
                cache: old(self)@.cache.update(
                    i as int,
                    CachedPacketV {
                        id: old(self)@.cache[i as int].id,
                        payload: old(self)@.cache[i as int].payload,
                        last_emit: now,
                    },
                ),
                ..old(self)@
            }),
    {
        let entry = CachedPacket {
            id: self.unconfirmed_message_cache[i].id,
            payload: self.unconfirmed_message_cache[i].payload.clone(),
            last_emit: now,
        };
        proof {
            assert(entry@.payload =~= self@.cache[i as int].payload);
        }
        self.unconfirmed_message_cache[i] = entry;
        proof {
            assert(self@.cache =~= old(self)@.cache.update(
                i as int,
                CachedPacketV {
                    id: old(self)@.cache[i as int].id,
                    payload: old(self)@.cache[i as int].payload,
                    last_emit: now,
                },
            ));
            assert(self@ =~= (SendV {
                cache: old(self)@.cache.update(
                    i as int,
                    CachedPacketV {
                        id: old(self)@.cache[i as int].id,
                        payload: old(self)@.cache[i as int].payload,
                        last_emit: now,
                    },
                ),
                ..old(self)@
            }));
        }
    }
}

} // verus!
