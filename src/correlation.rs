//! Per-tenant store of pending replies: each entry is consumed at most once
//! and lapses after a fixed lifetime.
use vstd::prelude::*;

verus! {

/// Lifetime of a pending reply, in milliseconds.
pub const REPLY_TTL_MS: u64 = 30000;

/// True when an entry created at `created_at` has lapsed at time `now`.
pub open spec fn is_expired(created_at: u64, now: u64) -> bool {
    now >= created_at + REPLY_TTL_MS
}

/// What is needed to answer an inbound message: the channel it came from and
/// the session it came through.
pub struct ReplyContext {
    pub channel_id: String,
    pub session: u64,
}

/// One pending reply.
pub struct PendingReply {
    pub key: String,
    pub context: ReplyContext,
    pub created_at: u64,
}

/// The pending replies of one tenant, keyed by inbound message identity.
pub struct CorrelationStore {
    entries: Vec<PendingReply>,
    pending: Ghost<Map<Seq<char>, (ReplyContext, u64)>>,
}

impl CorrelationStore {
    /// The pending replies: key, then context and creation time.
    pub closed spec fn view(&self) -> Map<Seq<char>, (ReplyContext, u64)> {
        self.pending@
    }

    pub closed spec fn wf(&self) -> bool {
        &&& forall|i: int, j: int|
            0 <= i < j < self.entries@.len() ==> self.entries@[i].key@ != self.entries@[j].key@
        &&& forall|i: int|
            0 <= i < self.entries@.len() ==> {
                &&& #[trigger] self.pending@.contains_key(self.entries@[i].key@)
                &&& self.pending@[self.entries@[i].key@] == (
                    self.entries@[i].context,
                    self.entries@[i].created_at,
                )
            }
        &&& forall|k: Seq<char>|
            #[trigger] self.pending@.contains_key(k) ==> exists|i: int|
                0 <= i < self.entries@.len() && self.entries@[i].key@ == k
    }

    pub fn new() -> (r: CorrelationStore)
        ensures
            r.wf(),
            r@ == Map::<Seq<char>, (ReplyContext, u64)>::empty(),
    {
        CorrelationStore { entries: Vec::new(), pending: Ghost(Map::empty()) }
    }

    /// Number of pending replies.
    pub fn len(&self) -> (r: usize)
        requires
            self.wf(),
        ensures
            r == self@.len(),
    {
        proof {
            self.lemma_len();
        }
        self.entries.len()
    }

    proof fn lemma_len(&self)
        requires
            self.wf(),
        ensures
            self@.dom().finite(),
            self@.len() == self.entries@.len(),
    {
        let keys = self.entries@.map_values(|e: PendingReply| e.key@);
        assert(self@.dom() =~= keys.to_set()) by {
            assert forall|k: Seq<char>| self@.contains_key(k) implies keys.to_set().contains(k) by {
                let i = choose|i: int| 0 <= i < self.entries@.len() && self.entries@[i].key@ == k;
                assert(keys[i] == k);
            }
            assert forall|k: Seq<char>| keys.to_set().contains(k) implies self@.contains_key(k) by {
                let i = choose|i: int| 0 <= i < keys.len() && keys[i] == k;
                assert(self.pending@.contains_key(self.entries@[i].key@));
            }
        }
        assert(keys.no_duplicates());
        keys.unique_seq_to_set();
    }

    fn find(&self, key: &String) -> (r: Option<usize>)
        requires
            self.wf(),
        ensures
            match r {
                Some(i) => i < self.entries@.len() && self.entries@[i as int].key@ == key@,
                None => !self@.contains_key(key@),
            },
    {
        let mut i: usize = 0;
        while i < self.entries.len()
            invariant
                self.wf(),
                i <= self.entries@.len(),
                forall|j: int| 0 <= j < i ==> self.entries@[j].key@ != key@,
            decreases self.entries@.len() - i,
        {
            if self.entries[i].key == *key {
                return Some(i);
            }
            i = i + 1;
        }
        None
    }

    fn take_at(&mut self, i: usize) -> (r: PendingReply)
        requires
            old(self).wf(),
            i < old(self).entries@.len(),
        ensures
            final(self).wf(),
            r == old(self).entries@[i as int],
            final(self).entries@ == old(self).entries@.remove(i as int),
            old(self)@.contains_key(r.key@),
            old(self)@[r.key@] == (r.context, r.created_at),
            final(self)@ == old(self)@.remove(r.key@),
    {
        let ghost before = self.entries@;
        let r = self.entries.remove(i);
        self.pending = Ghost(self.pending@.remove(r.key@));
        assert forall|k: Seq<char>| #[trigger] self.pending@.contains_key(k) implies exists|j: int|
            0 <= j < self.entries@.len() && self.entries@[j].key@ == k by {
            let j = choose|j: int| 0 <= j < before.len() && before[j].key@ == k;
            if j < i {
                assert(self.entries@[j] == before[j]);
            } else {
                assert(j != i);
                assert(self.entries@[j - 1] == before[j]);
            }
        }
        assert forall|a: int| 0 <= a < self.entries@.len() implies {
            &&& #[trigger] self.pending@.contains_key(self.entries@[a].key@)
            &&& self.pending@[self.entries@[a].key@] == (
                self.entries@[a].context,
                self.entries@[a].created_at,
            )
        } by {
            if a < i {
                assert(self.entries@[a] == before[a]);
            } else {
                assert(self.entries@[a] == before[a + 1]);
            }
        }
        r
    }

    /// Registers a pending reply under `key`, replacing any entry that has the
    /// same key.
    pub fn begin(&mut self, key: String, context: ReplyContext, now: u64)
        requires
            old(self).wf(),
        ensures
            final(self).wf(),
            final(self)@ == old(self)@.insert(key@, (context, now)),
    {
        match self.find(&key) {
            Some(i) => {
                let ghost before = self.entries@;
                let ghost k = key@;
                self.entries.set(i, PendingReply { key, context, created_at: now });
                self.pending = Ghost(self.pending@.insert(k, (self.entries@[i as int].context, now)));
                assert forall|k2: Seq<char>| #[trigger] self.pending@.contains_key(k2) implies exists|j: int|
                    0 <= j < self.entries@.len() && self.entries@[j].key@ == k2 by {
                    if k2 != k {
                        let j = choose|j: int| 0 <= j < before.len() && before[j].key@ == k2;
                        assert(self.entries@[j] == before[j]);
                    } else {
                        assert(self.entries@[i as int].key@ == k2);
                    }
                }
            },
            None => {
                let ghost k = key@;
                let ghost before = self.entries@;
                self.entries.push(PendingReply { key, context, created_at: now });
                let ghost n = before.len() as int;
                self.pending = Ghost(self.pending@.insert(k, (self.entries@[n].context, now)));
                assert forall|k2: Seq<char>| #[trigger] self.pending@.contains_key(k2) implies exists|j: int|
                    0 <= j < self.entries@.len() && self.entries@[j].key@ == k2 by {
                    if k2 != k {
                        let j = choose|j: int| 0 <= j < before.len() && before[j].key@ == k2;
                        assert(self.entries@[j] == before[j]);
                    } else {
                        assert(self.entries@[n].key@ == k2);
                    }
                }
                assert forall|a: int, b: int| 0 <= a < b < self.entries@.len() implies
                    self.entries@[a].key@ != self.entries@[b].key@ by {
                    if b == n {
                        assert(self.pending@.contains_key(before[a].key@));
                    }
                }
            },
        }
    }
    /// Claims the pending reply under `key`. The entry leaves the store
    /// whatever happens; its context comes back only when it had not lapsed.
    pub fn resolve(&mut self, key: &String, now: u64) -> (r: Option<ReplyContext>)
        requires
            old(self).wf(),
        ensures
            final(self).wf(),
            final(self)@ == old(self)@.remove(key@),
            r == resolved(old(self)@, key@, now),
    {
        match self.find(key) {
            Some(i) => {
                let e = self.take_at(i);
                if now >= e.created_at && now - e.created_at >= REPLY_TTL_MS {
                    None
                } else {
                    Some(e.context)
                }
            },
            None => None,
        }
    }

    /// Drops every entry that has lapsed at `now` and returns their keys.
    pub fn evict_expired(&mut self, now: u64) -> (r: Vec<String>)
        requires
            old(self).wf(),
        ensures
            final(self).wf(),
            final(self)@ == unexpired(old(self)@, now),
            forall|j: int| 0 <= j < r@.len() ==> evicted_from(old(self)@, #[trigger] r@[j]@, now),
            forall|k: Seq<char>|
                old(self)@.contains_key(k) && is_expired(old(self)@[k].1, now) ==> exists|j: int|
                    0 <= j < r@.len() && #[trigger] r@[j]@ == k,
    {
        let ghost start = self@;
        let mut evicted: Vec<String> = Vec::new();
        let mut i: usize = 0;
        while i < self.entries.len()
            invariant
                self.wf(),
                i <= self.entries@.len(),
                forall|k: Seq<char>| #[trigger] self@.contains_key(k) ==> start.contains_key(k) && self@[k] == start[k],
                forall|k: Seq<char>| #[trigger] start.contains_key(k) && !self@.contains_key(k) ==> {
                    &&& is_expired(start[k].1, now)
                    &&& exists|j: int| 0 <= j < evicted@.len() && #[trigger] evicted@[j]@ == k
                },
                forall|j: int| 0 <= j < evicted@.len() ==> evicted_from(start, #[trigger] evicted@[j]@, now),
                forall|j: int| 0 <= j < i ==> !is_expired(#[trigger] self.entries@[j].created_at, now),
            decreases self.entries@.len() - i,
        {
            let created = self.entries[i].created_at;
            if now >= created && now - created >= REPLY_TTL_MS {
                let ghost before = self.entries@;
                let ghost ev_before = evicted@;
                let ghost mid = self@;
                let e = self.take_at(i);
                assert(start.contains_key(e.key@) && start[e.key@] == mid[e.key@]);
                evicted.push(e.key);
                assert forall|j: int| 0 <= j < evicted@.len() implies evicted_from(start, #[trigger] evicted@[j]@, now) by {
                    if j < ev_before.len() {
                        assert(evicted@[j] == ev_before[j]);
                    }
                }
                assert forall|k: Seq<char>| #[trigger] start.contains_key(k) && !self@.contains_key(k) implies
                    exists|j: int| 0 <= j < evicted@.len() && #[trigger] evicted@[j]@ == k by {
                    if k == e.key@ {
                        assert(evicted@[ev_before.len() as int]@ == k);
                    } else {
                        let j = choose|j: int| 0 <= j < ev_before.len() && #[trigger] ev_before[j]@ == k;
                        assert(evicted@[j] == ev_before[j]);
                    }
                }
                assert forall|j: int| 0 <= j < i implies !is_expired(#[trigger] self.entries@[j].created_at, now) by {
                    assert(self.entries@[j] == before[j]);
                }
            } else {
                i = i + 1;
            }
        }
        proof {
            assert forall|k: Seq<char>| #[trigger] self@.contains_key(k) implies !is_expired(self@[k].1, now) by {
                let j = choose|j: int| 0 <= j < self.entries@.len() && self.entries@[j].key@ == k;
                assert(self.pending@.contains_key(self.entries@[j].key@));
            }
            assert(self@ =~= unexpired(start, now));
        }
        evicted
    }
}

/// What `resolve` hands back: the context of an entry that is still live.
pub open spec fn resolved(m: Map<Seq<char>, (ReplyContext, u64)>, key: Seq<char>, now: u64) -> Option<ReplyContext> {
    if m.contains_key(key) && !is_expired(m[key].1, now) {
        Some(m[key].0)
    } else {
        None
    }
}

/// Once `key` has been claimed, claiming it again finds nothing, at any
/// time: a pending reply is handed out at most once.
pub proof fn lemma_resolve_at_most_once(m: Map<Seq<char>, (ReplyContext, u64)>, key: Seq<char>, later: u64)
    ensures
        resolved(m.remove(key), key, later) is None,
{
}

/// An entry registered at `created_at` and not claimed within its lifetime
/// is not found afterwards, whether or not lapsed entries were swept in
/// between.
pub proof fn lemma_unclaimed_entry_lapses(
    m: Map<Seq<char>, (ReplyContext, u64)>,
    key: Seq<char>,
    context: ReplyContext,
    created_at: u64,
    sweep_at: u64,
    now: u64,
)
    requires
        now >= created_at + REPLY_TTL_MS,
    ensures
        resolved(m.insert(key, (context, created_at)), key, now) is None,
        sweep_at >= created_at + REPLY_TTL_MS ==> !unexpired(m.insert(key, (context, created_at)), sweep_at).contains_key(key),
        resolved(unexpired(m.insert(key, (context, created_at)), sweep_at), key, now) is None,
{
}

/// True when `key` had an entry in `m` that has lapsed at `now`.
pub open spec fn evicted_from(m: Map<Seq<char>, (ReplyContext, u64)>, key: Seq<char>, now: u64) -> bool {
    m.contains_key(key) && is_expired(m[key].1, now)
}

/// The entries of `m` that have not lapsed at `now`.
pub open spec fn unexpired(m: Map<Seq<char>, (ReplyContext, u64)>, now: u64) -> Map<Seq<char>, (ReplyContext, u64)> {
    m.restrict(m.dom().filter(|k: Seq<char>| !is_expired(m[k].1, now)))
}

} // verus!
