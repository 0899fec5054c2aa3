//! The registry of links: at most one link per tenant, each with its own
//! session and its own store of pending replies.
use vstd::prelude::*;

use crate::config::{link_token, settings_view, token_setting};
use crate::correlation::{resolved, unexpired, CorrelationStore, ReplyContext};
use crate::error::{ConfigError, PublishError};

verus! {

/// What the registry knows of one link: its session and its pending replies.
pub type LinkView = (u64, Map<Seq<char>, (ReplyContext, u64)>);

/// A tenant's bound session and the replies it still owes.
pub struct Link {
    pub tenant_id: String,
    pub session: u64,
    pub store: CorrelationStore,
}

/// Links by tenant identity.
pub struct LinkRegistry {
    links: Vec<Link>,
    known: Ghost<Map<Seq<char>, LinkView>>,
}

impl LinkRegistry {
    /// The links: tenant identity, then session and pending replies.
    pub closed spec fn view(&self) -> Map<Seq<char>, LinkView> {
        self.known@
    }

    pub closed spec fn wf(&self) -> bool {
        links_match(self.links@, self.known@)
    }

    pub fn new() -> (r: LinkRegistry)
        ensures
            r.wf(),
            r@ == Map::<Seq<char>, LinkView>::empty(),
    {
        LinkRegistry { links: Vec::new(), known: Ghost(Map::empty()) }
    }

    fn find(&self, tenant: &String) -> (r: Option<usize>)
        requires
            self.wf(),
        ensures
            match r {
                Some(i) => i < self.links@.len() && self.links@[i as int].tenant_id@ == tenant@,
                None => !self@.contains_key(tenant@),
            },
    {
        let mut i: usize = 0;
        while i < self.links.len()
            invariant
                self.wf(),
                i <= self.links@.len(),
                forall|j: int| 0 <= j < i ==> self.links@[j].tenant_id@ != tenant@,
            decreases self.links@.len() - i,
        {
            if self.links[i].tenant_id == *tenant {
                return Some(i);
            }
            i = i + 1;
        }
        None
    }

    /// True when a link is registered for `tenant`.
    pub fn contains(&self, tenant: &String) -> (r: bool)
        requires
            self.wf(),
        ensures
            r == self@.contains_key(tenant@),
    {
        self.find(tenant).is_some()
    }

    /// The session of the link registered for `tenant`.
    pub fn session_of(&self, tenant: &String) -> (r: Option<u64>)
        requires
            self.wf(),
        ensures
            r == (if self@.contains_key(tenant@) { Some(self@[tenant@].0) } else { None }),
    {
        match self.find(tenant) {
            Some(i) => Some(self.links[i].session),
            None => None,
        }
    }

    /// Registers a link for `tenant` bound to `session`, with no pending
    /// replies. A link already registered for `tenant` is replaced; its
    /// session is returned so that it can be stopped.
    pub fn insert_link(&mut self, tenant: String, session: u64) -> (r: Option<u64>)
        requires
            old(self).wf(),
        ensures
            final(self).wf(),
            final(self)@ == old(self)@.insert(tenant@, (session, Map::empty())),
            r == (if old(self)@.contains_key(tenant@) { Some(old(self)@[tenant@].0) } else { None }),
    {
        let store = CorrelationStore::new();
        let ghost k = tenant@;
        let ghost before = self.links@;
        match self.find(&tenant) {
            Some(i) => {
                let prev = self.links[i].session;
                self.links.set(i, Link { tenant_id: tenant, session, store });
                self.known = Ghost(self.known@.insert(k, (session, Map::empty())));
                assert forall|k2: Seq<char>| #[trigger] self.known@.contains_key(k2) implies exists|j: int|
                    0 <= j < self.links@.len() && self.links@[j].tenant_id@ == k2 by {
                    if k2 != k {
                        let j = choose|j: int| 0 <= j < before.len() && before[j].tenant_id@ == k2;
                        assert(self.links@[j] == before[j]);
                    } else {
                        assert(self.links@[i as int].tenant_id@ == k2);
                    }
                }
                Some(prev)
            },
            None => {
                self.links.push(Link { tenant_id: tenant, session, store });
                let ghost n = before.len() as int;
                self.known = Ghost(self.known@.insert(k, (session, Map::empty())));
                assert forall|k2: Seq<char>| #[trigger] self.known@.contains_key(k2) implies exists|j: int|
                    0 <= j < self.links@.len() && self.links@[j].tenant_id@ == k2 by {
                    if k2 != k {
                        let j = choose|j: int| 0 <= j < before.len() && before[j].tenant_id@ == k2;
                        assert(self.links@[j] == before[j]);
                    } else {
                        assert(self.links@[n].tenant_id@ == k2);
                    }
                }
                assert forall|a: int, b: int| 0 <= a < b < self.links@.len() implies
                    self.links@[a].tenant_id@ != self.links@[b].tenant_id@ by {
                    if b == n {
                        assert(self.known@.contains_key(before[a].tenant_id@));
                    }
                }
                None
            },
        }
    }

    /// Adds a link for `tenant` from its configuration. Without a `token`
    /// setting nothing changes and the error is returned; otherwise the link
    /// is registered as by `insert_link`.
    pub fn add_link(&mut self, tenant: String, config: &Vec<(String, String)>, session: u64) -> (r: Result<Option<u64>, ConfigError>)
        requires
            old(self).wf(),
        ensures
            final(self).wf(),
            token_setting(settings_view(config@)) is None ==> {
                &&& r == Err::<Option<u64>, ConfigError>(ConfigError::MissingToken)
                &&& final(self)@ == old(self)@
            },
            token_setting(settings_view(config@)) is Some ==> {
                &&& final(self)@ == old(self)@.insert(tenant@, (session, Map::empty()))
                &&& r == Ok::<Option<u64>, ConfigError>(
                    if old(self)@.contains_key(tenant@) { Some(old(self)@[tenant@].0) } else { None },
                )
            },
    {
        match link_token(config) {
            Ok(_) => Ok(self.insert_link(tenant, session)),
            Err(e) => Err(e),
        }
    }

    /// Removes the link of `tenant`, returning its session so that it can be
    /// stopped. Removing a tenant that has no link changes nothing.
    pub fn remove_link(&mut self, tenant: &String) -> (r: Option<u64>)
        requires
            old(self).wf(),
        ensures
            final(self).wf(),
            final(self)@ == old(self)@.remove(tenant@),
            r == (if old(self)@.contains_key(tenant@) { Some(old(self)@[tenant@].0) } else { None }),
    {
        match self.find(tenant) {
            Some(i) => {
                let ghost before = self.links@;
                let link = self.links.remove(i);
                self.known = Ghost(self.known@.remove(tenant@));
                assert forall|k: Seq<char>| #[trigger] self.known@.contains_key(k) implies exists|j: int|
                    0 <= j < self.links@.len() && self.links@[j].tenant_id@ == k by {
                    let j = choose|j: int| 0 <= j < before.len() && before[j].tenant_id@ == k;
                    if j < i {
                        assert(self.links@[j] == before[j]);
                    } else {
                        assert(j != i);
                        assert(self.links@[j - 1] == before[j]);
                    }
                }
                assert forall|a: int| 0 <= a < self.links@.len() implies {
                    &&& #[trigger] self.known@.contains_key(self.links@[a].tenant_id@)
                    &&& self.known@[self.links@[a].tenant_id@] == (
                        self.links@[a].session,
                        self.links@[a].store@,
                    )
                    &&& self.links@[a].store.wf()
                } by {
                    if a < i {
                        assert(self.links@[a] == before[a]);
                        assert(before[a].tenant_id@ != before[i as int].tenant_id@);
                    } else {
                        assert(self.links@[a] == before[a + 1]);
                        assert(before[i as int].tenant_id@ != before[a + 1].tenant_id@);
                    }
                }
                assert forall|a: int, b: int| 0 <= a < b < self.links@.len() implies
                    self.links@[a].tenant_id@ != self.links@[b].tenant_id@ by {
                    let a0 = if a < i { a } else { a + 1 };
                    let b0 = if b < i { b } else { b + 1 };
                    assert(self.links@[a] == before[a0]);
                    assert(self.links@[b] == before[b0]);
                }
                Some(link.session)
            },
            None => None,
        }
    }
    proof fn lemma_store_updated(&self, before: Seq<Link>, known: Map<Seq<char>, LinkView>, i: int)
        requires
            links_match(before, known),
            0 <= i < before.len(),
            self.links@ == before.update(i, self.links@[i]),
            self.links@[i].tenant_id@ == before[i].tenant_id@,
            self.links@[i].session == before[i].session,
            self.links@[i].store.wf(),
            self.known@ == known.insert(before[i].tenant_id@, (self.links@[i].session, self.links@[i].store@)),
        ensures
            self.wf(),
    {
        assert forall|a: int| 0 <= a < self.links@.len() implies {
            &&& #[trigger] self.known@.contains_key(self.links@[a].tenant_id@)
            &&& self.known@[self.links@[a].tenant_id@] == (
                self.links@[a].session,
                self.links@[a].store@,
            )
            &&& self.links@[a].store.wf()
        } by {
            if a != i {
                assert(self.links@[a] == before[a]);
                assert(known.contains_key(before[a].tenant_id@));
                if a < i {
                    assert(before[a].tenant_id@ != before[i].tenant_id@);
                } else {
                    assert(before[i].tenant_id@ != before[a].tenant_id@);
                }
            }
        }
        assert forall|k2: Seq<char>| #[trigger] self.known@.contains_key(k2) implies exists|j: int|
            0 <= j < self.links@.len() && self.links@[j].tenant_id@ == k2 by {
            if k2 != before[i].tenant_id@ {
                let j = choose|j: int| 0 <= j < before.len() && before[j].tenant_id@ == k2;
                assert(self.links@[j] == before[j]);
            } else {
                assert(self.links@[i].tenant_id@ == k2);
            }
        }
        assert forall|a: int, b: int| 0 <= a < b < self.links@.len() implies
            self.links@[a].tenant_id@ != self.links@[b].tenant_id@ by {
            assert(self.links@[a].tenant_id@ == before[a].tenant_id@);
            assert(self.links@[b].tenant_id@ == before[b].tenant_id@);
        }
    }

    /// Registers a pending reply under `key` for the link of `tenant`.
    /// Returns false, changing nothing, when `tenant` has no link.
    pub fn begin_reply(&mut self, tenant: &String, key: String, context: ReplyContext, now: u64) -> (r: bool)
        requires
            old(self).wf(),
        ensures
            final(self).wf(),
            r == old(self)@.contains_key(tenant@),
            r ==> final(self)@ == old(self)@.insert(
                tenant@,
                (old(self)@[tenant@].0, old(self)@[tenant@].1.insert(key@, (context, now))),
            ),
            !r ==> final(self)@ == old(self)@,
    {
        match self.find(tenant) {
            Some(i) => {
                let ghost before = self.links@;
                let ghost k = tenant@;
                let ghost known = self.known@;
                assert(self.known@.contains_key(self.links@[i as int].tenant_id@));
                self.links[i].store.begin(key, context, now);
                self.known = Ghost(self.known@.insert(k, (self.links@[i as int].session, self.links@[i as int].store@)));
                proof {
                    self.lemma_store_updated(before, known, i as int);
                }
                true
            },
            None => false,
        }
    }

    /// Claims the pending reply under `key` of the link of `tenant`: the
    /// context to answer with, `UnknownLink` when the tenant has no link, and
    /// `NotFound` when no live entry is there. A claimed or lapsed entry leaves
    /// the store.
    pub fn resolve_reply(&mut self, tenant: &String, key: &String, now: u64) -> (r: Result<ReplyContext, PublishError>)
        requires
            old(self).wf(),
        ensures
            final(self).wf(),
            r == resolve_outcome(old(self)@, tenant@, key@, now),
            old(self)@.contains_key(tenant@) ==> final(self)@ == old(self)@.insert(
                tenant@,
                (old(self)@[tenant@].0, old(self)@[tenant@].1.remove(key@)),
            ),
            !old(self)@.contains_key(tenant@) ==> final(self)@ == old(self)@,
    {
        match self.find(tenant) {
            Some(i) => {
                let ghost before = self.links@;
                let ghost k = tenant@;
                let ghost known = self.known@;
                assert(self.known@.contains_key(self.links@[i as int].tenant_id@));
                let found = self.links[i].store.resolve(key, now);
                self.known = Ghost(self.known@.insert(k, (self.links@[i as int].session, self.links@[i as int].store@)));
                proof {
                    self.lemma_store_updated(before, known, i as int);
                }
                match found {
                    Some(c) => Ok(c),
                    None => Err(PublishError::NotFound),
                }
            },
            None => Err(PublishError::UnknownLink),
        }
    }
    /// Drops, in every link, the pending replies that have lapsed at `now`.
    pub fn evict_expired(&mut self, now: u64)
        requires
            old(self).wf(),
        ensures
            final(self).wf(),
            final(self)@ == swept(old(self)@, now),
    {
        let ghost start = self@;
        let mut i: usize = 0;
        while i < self.links.len()
            invariant
                self.wf(),
                i <= self.links@.len(),
                self@.dom() == start.dom(),
                forall|k: Seq<char>| #[trigger] self@.contains_key(k) ==> {
                    let done = exists|j: int| 0 <= j < i && self.links@[j].tenant_id@ == k;
                    &&& self@[k].0 == start[k].0
                    &&& done ==> self@[k].1 == unexpired(start[k].1, now)
                    &&& !done ==> self@[k].1 == start[k].1
                },
            decreases self.links@.len() - i,
        {
            let ghost before = self.links@;
            let ghost known = self.known@;
            let ghost k = self.links@[i as int].tenant_id@;
            assert(self.known@.contains_key(k));
            let _ = self.links[i].store.evict_expired(now);
            self.known = Ghost(self.known@.insert(k, (self.links@[i as int].session, self.links@[i as int].store@)));
            proof {
                self.lemma_store_updated(before, known, i as int);
                assert forall|k2: Seq<char>| #[trigger] self@.contains_key(k2) implies {
                    let done = exists|j: int| 0 <= j < i + 1 && self.links@[j].tenant_id@ == k2;
                    &&& self@[k2].0 == start[k2].0
                    &&& done ==> self@[k2].1 == unexpired(start[k2].1, now)
                    &&& !done ==> self@[k2].1 == start[k2].1
                } by {
                    assert(known.contains_key(k2));
                    if k2 == k {
                        assert(self.links@[i as int].tenant_id@ == k2);
                        assert(!exists|j: int| 0 <= j < i && before[j].tenant_id@ == k2) by {
                            assert forall|j: int| 0 <= j < i implies before[j].tenant_id@ != k2 by {
                                assert(before[j].tenant_id@ != before[i as int].tenant_id@);
                            }
                        }
                    } else {
                        let old_done = exists|j: int| 0 <= j < i && before[j].tenant_id@ == k2;
                        let new_done = exists|j: int| 0 <= j < i + 1 && self.links@[j].tenant_id@ == k2;
                        if old_done {
                            let j = choose|j: int| 0 <= j < i && before[j].tenant_id@ == k2;
                            assert(self.links@[j] == before[j]);
                        }
                        if new_done {
                            let j = choose|j: int| 0 <= j < i + 1 && self.links@[j].tenant_id@ == k2;
                            assert(j != i);
                            assert(self.links@[j] == before[j]);
                        }
                    }
                }
            }
            i = i + 1;
        }
        proof {
            assert forall|k: Seq<char>| #[trigger] self@.contains_key(k) implies self@[k].1 == unexpired(start[k].1, now) by {
                let j = choose|j: int| 0 <= j < self.links@.len() && self.links@[j].tenant_id@ == k;
            }
            assert(self@ =~= swept(start, now));
        }
    }
}

/// Adding a link for `tenant`, then removing it, leaves no link for it:
/// whatever is then published for `tenant` meets `UnknownLink`.
pub proof fn lemma_publish_after_removal(links: Map<Seq<char>, LinkView>, tenant: Seq<char>, session: u64, subject: Seq<char>, now: u64)
    ensures
        resolve_outcome(links.insert(tenant, (session, Map::empty())).remove(tenant), tenant, subject, now)
            == Err::<ReplyContext, PublishError>(PublishError::UnknownLink),
{
}

/// After a reply has been claimed through the registry, claiming it again
/// gives `NotFound`.
pub proof fn lemma_second_claim_not_found(links: Map<Seq<char>, LinkView>, tenant: Seq<char>, key: Seq<char>, now: u64, later: u64)
    requires
        links.contains_key(tenant),
    ensures
        resolve_outcome(
            links.insert(tenant, (links[tenant].0, links[tenant].1.remove(key))),
            tenant,
            key,
            later,
        ) == Err::<ReplyContext, PublishError>(PublishError::NotFound),
{
}

/// The links in `links` are those of `known`, one per tenant.
spec fn links_match(links: Seq<Link>, known: Map<Seq<char>, LinkView>) -> bool {
    &&& forall|i: int, j: int|
        0 <= i < j < links.len() ==> links[i].tenant_id@ != links[j].tenant_id@
    &&& forall|i: int|
        0 <= i < links.len() ==> {
            &&& #[trigger] known.contains_key(links[i].tenant_id@)
            &&& known[links[i].tenant_id@] == (links[i].session, links[i].store@)
            &&& links[i].store.wf()
        }
    &&& forall|k: Seq<char>|
        #[trigger] known.contains_key(k) ==> exists|i: int| 0 <= i < links.len() && links[i].tenant_id@ == k
}

/// Every link of `links`, with the pending replies that have lapsed at `now`
/// dropped.
pub open spec fn swept(links: Map<Seq<char>, LinkView>, now: u64) -> Map<Seq<char>, LinkView> {
    links.map_values(|l: LinkView| (l.0, unexpired(l.1, now)))
}

/// What claiming `key` for `tenant` at `now` gives, over the registry's view.
pub open spec fn resolve_outcome(links: Map<Seq<char>, LinkView>, tenant: Seq<char>, key: Seq<char>, now: u64) -> Result<ReplyContext, PublishError> {
    if !links.contains_key(tenant) {
        Err(PublishError::UnknownLink)
    } else {
        match resolved(links[tenant].1, key, now) {
            Some(c) => Ok(c),
            None => Err(PublishError::NotFound),
        }
    }
}

} // verus!
