//! The receiving half of a connector: the high-water mark of confirmed ids
//! seen or requested, and the list of ids inferred missing by gap detection.
//!
//! When a confirmed id or a ping announcement raises the high-water mark,
//! every id between the old mark and the new one that was never observed is
//! entered into the missing list (gap-fill); entries leave the list only
//! when their id is delivered or declared not found by the peer.

use vstd::prelude::*;

verus! {

/// A confirmed id the receiver expects but has not seen, with the instant of
/// the last retransmission request for it.
pub struct MissingId {
    /// The expected id.
    pub id: u64,
    /// When a `RequestPacket` for this id last left, or when the entry was
    /// created.
    pub last_request: u64,
}

/// The mathematical shape of a missing-list entry.
#[verifier::ext_equal]
pub ghost struct MissingIdV {
    pub id: u64,
    pub last_request: u64,
}

impl View for MissingId {
    type V = MissingIdV;

    closed spec fn view(&self) -> MissingIdV {
        MissingIdV { id: self.id, last_request: self.last_request }
    }
}

impl MissingId {
    /// A fresh entry for `id`, stamped with the current instant.
    pub fn new(id: u64, now: u64) -> (r: MissingId)
        ensures
            r@ == (MissingIdV { id, last_request: now }),
    {
        MissingId { id, last_request: now }
    }
}

/// The larger of two instants or ids.
pub open spec fn max_u64(a: u64, b: u64) -> u64 {
    if a >= b {
        a
    } else {
        b
    }
}

/// Whether some entry of the missing list carries `id`.
pub open spec fn missing_contains(s: Seq<MissingIdV>, id: u64) -> bool {
    exists|i: int| 0 <= i < s.len() && s[i].id == id
}

/// No two entries of the missing list carry the same id.
pub open spec fn missing_unique(s: Seq<MissingIdV>) -> bool {
    forall|i: int, j: int|
        0 <= i < s.len() && 0 <= j < s.len() && i != j ==> (#[trigger] s[i]).id != (
        #[trigger] s[j]).id
}

/// The missing list with the entry carrying `id` removed; unchanged when no
/// entry carries it.
pub open spec fn remove_missing_id(s: Seq<MissingIdV>, id: u64) -> Seq<MissingIdV> {
    if missing_contains(s, id) {
        s.remove(choose|i: int| 0 <= i < s.len() && s[i].id == id)
    } else {
        s
    }
}

/// The missing list after gap-fill: every id in `(lo, hi]` that carries no
/// entry is appended, in increasing order, stamped with `now`.
pub open spec fn gap_fill(s: Seq<MissingIdV>, lo: u64, hi: u64, now: u64) -> Seq<MissingIdV>
    decreases hi,
{
    if hi <= lo {
        s
    } else {
        let pre = gap_fill(s, lo, (hi - 1) as u64, now);
        if missing_contains(s, hi) {
            pre
        } else {
            pre.push(MissingIdV { id: hi, last_request: now })
        }
    }
}

/// Gap-fill carries exactly the old ids plus the ids of `(lo, hi]`.
pub proof fn lemma_gap_fill_contains(s: Seq<MissingIdV>, lo: u64, hi: u64, now: u64, id: u64)
    ensures
        missing_contains(gap_fill(s, lo, hi, now), id) <==> (missing_contains(s, id) || (lo < id
            <= hi)),
    decreases hi,
{
    if hi <= lo {
    } else {
        lemma_gap_fill_contains(s, lo, (hi - 1) as u64, now, id);
        let pre = gap_fill(s, lo, (hi - 1) as u64, now);
        let r = gap_fill(s, lo, hi, now);
        if missing_contains(s, hi) {
        } else {
            assert(r == pre.push(MissingIdV { id: hi, last_request: now }));
            assert(r[r.len() - 1].id == hi);
            assert(forall|i: int| 0 <= i < pre.len() ==> r[i] == pre[i]);
            if missing_contains(r, id) {
                let i = choose|i: int| 0 <= i < r.len() && r[i].id == id;
                if i < pre.len() {
                    assert(missing_contains(pre, id));
                } else {
                    assert(id == hi);
                }
            }
            if missing_contains(pre, id) {
                let i = choose|i: int| 0 <= i < pre.len() && pre[i].id == id;
                assert(r[i].id == id);
                assert(missing_contains(r, id));
            }
            if id == hi {
                assert(missing_contains(r, id));
            }
        }
    }
}

/// Gap-fill extends the list: old entries keep their places, and every
/// appended entry carries a fresh id of `(lo, hi]`, stamped `now`, the ids
/// in increasing order.
pub proof fn lemma_gap_fill_entries(s: Seq<MissingIdV>, lo: u64, hi: u64, now: u64)
    ensures
        gap_fill(s, lo, hi, now).len() >= s.len(),
        forall|k: int| 0 <= k < s.len() ==> #[trigger] gap_fill(s, lo, hi, now)[k] == s[k],
        forall|k: int|
            s.len() <= k < gap_fill(s, lo, hi, now).len() ==> {
                &&& lo < (#[trigger] gap_fill(s, lo, hi, now)[k]).id <= hi
                &&& gap_fill(s, lo, hi, now)[k].last_request == now
                &&& !missing_contains(s, gap_fill(s, lo, hi, now)[k].id)
            },
        forall|k1: int, k2: int|
            s.len() <= k1 < k2 < gap_fill(s, lo, hi, now).len() ==> (#[trigger] gap_fill(
                s,
                lo,
                hi,
                now,
            )[k1]).id < (#[trigger] gap_fill(s, lo, hi, now)[k2]).id,
    decreases hi,
{
    if hi <= lo {
    } else {
        lemma_gap_fill_entries(s, lo, (hi - 1) as u64, now);
        let pre = gap_fill(s, lo, (hi - 1) as u64, now);
        let r = gap_fill(s, lo, hi, now);
        if !missing_contains(s, hi) {
            assert(r == pre.push(MissingIdV { id: hi, last_request: now }));
            assert(forall|k: int| 0 <= k < pre.len() ==> r[k] == pre[k]);
        }
    }
}

/// The mathematical shape of the receiving half.
#[verifier::ext_equal]
pub ghost struct RecvV {
    /// The highest confirmed id known to have been seen or requested; absent
    /// while none was.
    pub last_message_id: Option<u64>,
    /// The ids inferred missing, in insertion order.
    pub missing: Seq<MissingIdV>,
    /// The instant of the last inbound packet, if one arrived.
    pub last_ping: Option<u64>,
}

/// The high-water mark, with 0 for "none yet".
pub open spec fn last_or_0(last_message_id: Option<u64>) -> u64 {
    match last_message_id {
        None => 0,
        Some(k) => k,
    }
}

impl RecvV {
    /// The half as construction and `connect` leave it.
    pub open spec fn init() -> RecvV {
        RecvV { last_message_id: None, missing: Seq::empty(), last_ping: None }
    }

    /// Well-formedness: missing ids are strictly positive, pairwise distinct
    /// and at most the high-water mark, which is present as soon as any id
    /// is missing.
    pub open spec fn wf(self) -> bool {
        missing_wf(self.missing, self.last_message_id)
    }

    /// All instants held by the half are at most `t`.
    pub open spec fn instants_le(self, t: u64) -> bool {
        &&& (self.last_ping is Some ==> self.last_ping->0 <= t)
        &&& missing_instants_le(self.missing, t)
    }
}

/// Well-formedness of a missing list against the high-water mark: ids
/// strictly positive, pairwise distinct, and at most the mark.
pub open spec fn missing_wf(missing: Seq<MissingIdV>, last_message_id: Option<u64>) -> bool {
    &&& forall|i: int|
        0 <= i < missing.len() ==> 1 <= (#[trigger] missing[i]).id && missing[i].id <= last_or_0(
            last_message_id,
        )
    &&& missing_unique(missing)
}

/// All request instants of a missing list are at most `t`.
pub open spec fn missing_instants_le(missing: Seq<MissingIdV>, t: u64) -> bool {
    forall|i: int| 0 <= i < missing.len() ==> (#[trigger] missing[i]).last_request <= t
}

/// The half after a ping announcement `a` is resolved at `now`: gap-fill
/// over `(last, a]`, the high-water mark raised to `a` where that is a
/// raise, and the inbound instant refreshed. An absent announcement only
/// refreshes the inbound instant.
pub open spec fn resolve_announcement_v(r: RecvV, a: Option<u64>, now: u64) -> RecvV {
    match a {
        None => RecvV { last_ping: Some(now), ..r },
        Some(k) => RecvV {
            last_message_id: Some(max_u64(last_or_0(r.last_message_id), k)),
            missing: gap_fill(r.missing, last_or_0(r.last_message_id), k, now),
            last_ping: Some(now),
        },
    }
}

/// The half after confirmed id `m` arrives at `now`: gap-fill over
/// `(last, m)` — both ends exclusive — the entry for `m` dropped, the
/// high-water mark raised to `m` where that is a raise, and the inbound
/// instant refreshed.
pub open spec fn record_data_v(r: RecvV, m: u64, now: u64) -> RecvV
    recommends
        m >= 1,
{
    RecvV {
        last_message_id: Some(max_u64(last_or_0(r.last_message_id), m)),
        missing: remove_missing_id(
            gap_fill(r.missing, last_or_0(r.last_message_id), (m - 1) as u64, now),
            m,
        ),
        last_ping: Some(now),
    }
}

/// Dropping one missing entry keeps the list well formed, and keeps every
/// request instant at most `t` when they all were before.
pub proof fn lemma_drop_missing_wf(
    missing: Seq<MissingIdV>,
    last_message_id: Option<u64>,
    id: u64,
    t: u64,
)
    requires
        missing_wf(missing, last_message_id),
    ensures
        missing_wf(remove_missing_id(missing, id), last_message_id),
        missing_instants_le(missing, t) ==> missing_instants_le(remove_missing_id(missing, id), t),
{
    let post = remove_missing_id(missing, id);
    if missing_contains(missing, id) {
        let k = choose|i: int| 0 <= i < missing.len() && missing[i].id == id;
        assert(forall|i: int|
            0 <= i < post.len() ==> #[trigger] post[i] == if i < k {
                missing[i]
            } else {
                missing[i + 1]
            });
    }
}

/// A missing list whose entries keep their ids, each instant kept or
/// stamped `now`, stays well formed with instants at most `now`.
pub proof fn lemma_missing_same_ids_wf(
    pre: Seq<MissingIdV>,
    post: Seq<MissingIdV>,
    last_message_id: Option<u64>,
    now: u64,
)
    requires
        missing_wf(pre, last_message_id),
        missing_instants_le(pre, now),
        post.len() == pre.len(),
        forall|i: int|
            0 <= i < pre.len() ==> (#[trigger] post[i]).id == pre[i].id && (post[i].last_request
                == pre[i].last_request || post[i].last_request == now),
    ensures
        missing_wf(post, last_message_id),
        missing_instants_le(post, now),
{
    assert forall|i: int|
        0 <= i < post.len() implies 1 <= (#[trigger] post[i]).id && post[i].id <= last_or_0(
        last_message_id,
    ) by {
        assert(post[i].id == pre[i].id);
        assert(1 <= pre[i].id);
    }
    assert forall|i: int, j: int|
        0 <= i < post.len() && 0 <= j < post.len() && i != j implies (#[trigger] post[i]).id != (
    #[trigger] post[j]).id by {
        assert(post[i].id == pre[i].id);
        assert(post[j].id == pre[j].id);
        assert(pre[i].id != pre[j].id);
    }
    assert forall|i: int| 0 <= i < post.len() implies (#[trigger] post[i]).last_request <= now by {
        assert(pre[i].last_request <= now);
    }
}

/// The receiving half: exec state whose view is a [`RecvV`].
pub struct ConnectorReceive {
    last_message_id: Option<u64>,
    missing_message_id_list: Vec<MissingId>,
    last_ping: Option<u64>,
}

impl View for ConnectorReceive {
    type V = RecvV;

    closed spec fn view(&self) -> RecvV {
        RecvV {
            last_message_id: self.last_message_id,
            missing: Seq::new(
                self.missing_message_id_list@.len(),
                |i: int| self.missing_message_id_list@[i]@,
            ),
            last_ping: self.last_ping,
        }
    }
}

impl ConnectorReceive {
    /// An empty half: no id seen, nothing missing, no packet received yet.
    pub fn new() -> (r: ConnectorReceive)
        ensures
            r@ == RecvV::init(),
    {
        let r = ConnectorReceive {
            last_message_id: None,
            missing_message_id_list: Vec::new(),
            last_ping: None,
        };
        proof {
            assert(r@ =~= RecvV::init());
        }
        r
    }

    /// Record that a packet arrived at `now`.
    pub fn set_last_ping(&mut self, now: u64)
        ensures
            final(self)@ == (RecvV { last_ping: Some(now), ..old(self)@ }),
    {
        self.last_ping = Some(now);
        proof {
            assert(self@ =~= (RecvV { last_ping: Some(now), ..old(self)@ }));
        }
    }

    /// When the last inbound packet arrived, if one did.
    pub fn last_ping(&self) -> (r: Option<u64>)
        ensures
            r == self@.last_ping,
    {
        self.last_ping
    }

    /// The high-water mark of confirmed ids, if any was seen or requested.
    pub fn last_message_id(&self) -> (r: Option<u64>)
        ensures
            r == self@.last_message_id,
    {
        self.last_message_id
    }

    /// Whether `id` is currently missing.
    fn contains_missing(&self, id: u64) -> (r: bool)
        ensures
            r == missing_contains(self@.missing, id),
    {
        let n = self.missing_message_id_list.len();
        let mut i: usize = 0;
        while i < n
            invariant
                n == self.missing_message_id_list@.len(),
                i <= n,
                forall|j: int| 0 <= j < i ==> self@.missing[j].id != id,
            decreases n - i,
        {
            if self.missing_message_id_list[i].id == id {
                proof {
                    assert(self@.missing[i as int].id == id);
                }
                return true;
            }
            i = i + 1;
        }
        false
    }

    /// Append every id of `(last, hi]` that is not yet missing, stamped with
    /// `now`.
    fn fill_up_to(&mut self, hi: u64, now: u64)
        ensures
            final(self)@ == (RecvV {
                missing: gap_fill(
                    old(self)@.missing,
                    last_or_0(old(self)@.last_message_id),
                    hi,
                    now,
                ),
                ..old(self)@
            }),
    {
        let lo = match self.last_message_id {
            None => 0,
            Some(k) => k,
        };
        let mut j = lo;
        while j < hi
            invariant
                lo == last_or_0(old(self)@.last_message_id),
                lo <= j,
                j <= hi || j == lo,
                self@ == (RecvV {
                    missing: gap_fill(old(self)@.missing, lo, j, now),
                    ..old(self)@
                }),
            decreases hi - j,
        {
            j = j + 1;
            proof {
                lemma_gap_fill_contains(old(self)@.missing, lo, (j - 1) as u64, now, j);
            }
            if !self.contains_missing(j) {
                self.missing_message_id_list.push(MissingId { id: j, last_request: now });
                proof {
                    assert(self@.missing =~= gap_fill(old(self)@.missing, lo, (j - 1) as u64, now)
                        .push(MissingIdV { id: j, last_request: now }));
                    assert(self@.missing =~= gap_fill(old(self)@.missing, lo, j, now));
                    assert(self@ =~= (RecvV {
                        missing: gap_fill(old(self)@.missing, lo, j, now),
                        ..old(self)@
                    }));
                }
            } else {
                proof {
                    assert(self@.missing =~= gap_fill(old(self)@.missing, lo, j, now));
                    assert(self@ =~= (RecvV {
                        missing: gap_fill(old(self)@.missing, lo, j, now),
                        ..old(self)@
                    }));
                }
            }
        }
        proof {
            if hi <= lo {
                assert(gap_fill(old(self)@.missing, lo, hi, now) == old(self)@.missing);
                assert(self@ =~= (RecvV {
                    missing: gap_fill(old(self)@.missing, lo, hi, now),
                    ..old(self)@
                }));
            }
        }
    }

    /// Raise the high-water mark to `m` where that is a raise.
    fn raise_last_id(&mut self, m: u64)
        requires
            m >= 1,
        ensures
            final(self)@ == (RecvV {
                last_message_id: Some(max_u64(last_or_0(old(self)@.last_message_id), m)),
                ..old(self)@
            }),
    {
        let raised = match self.last_message_id {
            None => m,
            Some(k) => if k >= m {
                k
            } else {
                m
            },
        };
        self.last_message_id = Some(raised);
        proof {
            assert(self@ =~= (RecvV {
                last_message_id: Some(max_u64(last_or_0(old(self)@.last_message_id), m)),
                ..old(self)@
            }));
        }
    }

    /// Drop the entry carrying `id`, silently when none does.
    pub fn drop_missing(&mut self, id: u64)
        requires
            missing_unique(old(self)@.missing),
        ensures
            final(self)@ == (RecvV {
                missing: remove_missing_id(old(self)@.missing, id),
                ..old(self)@
            }),
    {
        let n = self.missing_message_id_list.len();
        let mut i: usize = 0;
        while i < n
            invariant
                missing_unique(old(self)@.missing),
                n == self.missing_message_id_list@.len(),
                i <= n,
                *self == *old(self),
                forall|j: int| 0 <= j < i ==> self@.missing[j].id != id,
            decreases n - i,
        {
            if self.missing_message_id_list[i].id == id {
                proof {
                    assert(old(self)@.missing[i as int].id == id);
                    assert(missing_contains(old(self)@.missing, id));
                    let k = choose|k: int|
                        0 <= k < old(self)@.missing.len() && old(self)@.missing[k].id == id;
                    assert(old(self)@.missing[k].id == id);
                    assert(k == i as int);
                }
                self.missing_message_id_list.remove(i);
                proof {
                    assert(self@.missing =~= remove_missing_id(old(self)@.missing, id));
                    assert(self@ =~= (RecvV {
                        missing: remove_missing_id(old(self)@.missing, id),
                        ..old(self)@
                    }));
                }
                return ;
            }
            i = i + 1;
        }
        proof {
            assert(!missing_contains(self@.missing, id));
            assert(self@ =~= (RecvV {
                missing: remove_missing_id(old(self)@.missing, id),
                ..old(self)@
            }));
        }
    }

    /// Resolve a ping announcement at `now`: gap-fill up to and including
    /// the announced id, raise the high-water mark, refresh the inbound
    /// instant.
    pub fn resolve_announcement(&mut self, announced: Option<u64>, now: u64)
        requires
            old(self)@.wf(),
            old(self)@.instants_le(now),
            announced is Some ==> announced->0 >= 1,
        ensures
            final(self)@ == resolve_announcement_v(old(self)@, announced, now),
            final(self)@.wf(),
            final(self)@.instants_le(now),
    {
        match announced {
            None => {
                self.set_last_ping(now);
                proof {
                    assert(self@ =~= resolve_announcement_v(old(self)@, announced, now));
                }
            },
            Some(k) => {
                let ghost lo = last_or_0(old(self)@.last_message_id);
                self.fill_up_to(k, now);
                self.raise_last_id(k);
                self.set_last_ping(now);
                proof {
                    assert(self@ =~= resolve_announcement_v(old(self)@, announced, now));
                    lemma_gap_fill_entries(old(self)@.missing, lo, k, now);
                    lemma_filled_wf(old(self)@, lo, k, now, self@);
                }
            },
        }
    }

    /// Record the arrival of confirmed id `m` at `now`: gap-fill strictly
    /// below `m`, drop `m` from the missing list, raise the high-water mark,
    /// refresh the inbound instant.
    pub fn record_data(&mut self, m: u64, now: u64)
        requires
            old(self)@.wf(),
            old(self)@.instants_le(now),
            m >= 1,
        ensures
            final(self)@ == record_data_v(old(self)@, m, now),
            final(self)@.wf(),
            final(self)@.instants_le(now),
    {
        let ghost lo = last_or_0(old(self)@.last_message_id);
        self.fill_up_to(m - 1, now);
        proof {
            lemma_gap_fill_entries(old(self)@.missing, lo, (m - 1) as u64, now);
            assert(missing_unique(self@.missing)) by {
                lemma_filled_unique(old(self)@.missing, lo, (m - 1) as u64, now);
            }
        }
        self.drop_missing(m);
        self.raise_last_id(m);
        self.set_last_ping(now);
        proof {
            assert(self@ =~= record_data_v(old(self)@, m, now));
            lemma_record_data_wf(old(self)@, m, now, self@);
        }
    }

    /// How many ids are missing.
    pub fn missing_len(&self) -> (r: usize)
        ensures
            r == self@.missing.len(),
    {
        self.missing_message_id_list.len()
    }

    /// The id and last-request instant of the missing entry at `i`.
    pub fn missing_at(&self, i: usize) -> (r: (u64, u64))
        requires
            i < self@.missing.len(),
        ensures
            r.0 == self@.missing[i as int].id,
            r.1 == self@.missing[i as int].last_request,
    {
        (self.missing_message_id_list[i].id, self.missing_message_id_list[i].last_request)
    }

    /// Stamp the missing entry at `i` as requested at `now`.
    pub fn touch_missing_at(&mut self, i: usize, now: u64)
        requires
            i < old(self)@.missing.len(),
        ensures
            final(self)@ == (RecvV {
                missing: old(self)@.missing.update(
                    i as int,
                    MissingIdV { id: old(self)@.missing[i as int].id, last_request: now },
                ),
                ..old(self)@
            }),
    {
        let entry = MissingId { id: self.missing_message_id_list[i].id, last_request: now };
        self.missing_message_id_list[i] = entry;
        proof {
            assert(self@ =~= (RecvV {
                missing: old(self)@.missing.update(
                    i as int,
                    MissingIdV { id: old(self)@.missing[i as int].id, last_request: now },
                ),
                ..old(self)@
            }));
        }
    }
}

/// Gap-fill keeps the missing list free of duplicate ids.
proof fn lemma_filled_unique(s: Seq<MissingIdV>, lo: u64, hi: u64, now: u64)
    requires
        missing_unique(s),
    ensures
        missing_unique(gap_fill(s, lo, hi, now)),
{
    lemma_gap_fill_entries(s, lo, hi, now);
    let r = gap_fill(s, lo, hi, now);
    assert forall|i: int, j: int|
        0 <= i < r.len() && 0 <= j < r.len() && i != j implies (#[trigger] r[i].id) != (
    #[trigger] r[j].id) by {
        if i < s.len() && j < s.len() {
        } else if i < s.len() && j >= s.len() {
            assert(r[i] == s[i]);
            assert(missing_contains(s, s[i].id));
        } else if i >= s.len() && j < s.len() {
            assert(r[j] == s[j]);
            assert(missing_contains(s, s[j].id));
        } else {
        }
    }
}

/// After a gap-fill to `hi` and a raise of the high-water mark to at least
/// `hi`, the half is well formed again.
proof fn lemma_filled_wf(pre: RecvV, lo: u64, hi: u64, now: u64, post: RecvV)
    requires
        pre.wf(),
        pre.instants_le(now),
        lo == last_or_0(pre.last_message_id),
        post.missing == gap_fill(pre.missing, lo, hi, now),
        post.last_message_id == Some(max_u64(lo, hi)),
        post.last_ping == Some(now),
        hi >= 1,
    ensures
        post.wf(),
        post.instants_le(now),
{
    lemma_gap_fill_entries(pre.missing, lo, hi, now);
    lemma_filled_unique(pre.missing, lo, hi, now);
}

/// After confirmed id `m` is recorded, the half is well formed again.
proof fn lemma_record_data_wf(pre: RecvV, m: u64, now: u64, post: RecvV)
    requires
        pre.wf(),
        pre.instants_le(now),
        m >= 1,
        post == record_data_v(pre, m, now),
    ensures
        post.wf(),
        post.instants_le(now),
{
    let lo = last_or_0(pre.last_message_id);
    let filled = gap_fill(pre.missing, lo, (m - 1) as u64, now);
    lemma_gap_fill_entries(pre.missing, lo, (m - 1) as u64, now);
    lemma_filled_unique(pre.missing, lo, (m - 1) as u64, now);
    let removed = remove_missing_id(filled, m);
    if missing_contains(filled, m) {
        let k = choose|i: int| 0 <= i < filled.len() && filled[i].id == m;
        assert(removed == filled.remove(k));
        assert(forall|i: int|
            0 <= i < removed.len() ==> #[trigger] removed[i] == if i < k {
                filled[i]
            } else {
                filled[i + 1]
            });
    }
}

} // verus!
