//! The peer registry: the authoritative, mutable record of known peers.
//!
//! Keys are unique, entries keep their discovery order, and the local node's
//! own identifier is never stored. A peer announced by discovery is
//! `Discovered`, one with an open connection is `Connected`, and one whose
//! connection closed is kept as `Disconnected` for a grace period but is
//! excluded from listings; an expiry removes the entry outright.

use vstd::prelude::*;

verus! {

/// Lifecycle state of a known peer.
#[derive(Clone, Copy, Debug, PartialEq, Eq, Structural)]
pub enum PeerState {
    /// Known from a presence announcement; listed, but not a broadcast target.
    Discovered,
    /// Confirmed reachable over an open connection; a broadcast target.
    Connected,
    /// Its connection closed; retained for a grace period, never listed.
    Disconnected,
}

/// One known peer: identifier, advertised addresses, lifecycle state, and
/// the time of its last announcement or connection.
pub struct PeerRecord {
    pub peer_id: String,
    pub addresses: Vec<String>,
    pub state: PeerState,
    pub last_seen: u64,
}

/// What the discovery engine reports: a peer appeared with some addresses,
/// or went silent past its timeout and expired.
pub enum DiscoveryEvent {
    Discovered { peer_id: String, addresses: Vec<String> },
    Expired { peer_id: String },
}

/// A record counts as live when its peer is listed, i.e. not `Disconnected`.
pub open spec fn live_record(r: PeerRecord) -> bool {
    r.state != PeerState::Disconnected
}

/// A record is stale when its last announcement lies a full expiry window
/// or more in the past.
pub open spec fn stale_record(r: PeerRecord, now: u64, window: u64) -> bool {
    r.last_seen + window <= now
}

/// The records that survive pruning at `now`, in their original order.
pub open spec fn spec_retained(s: Seq<PeerRecord>, now: u64, window: u64) -> Seq<PeerRecord>
    decreases s.len(),
{
    if s.len() == 0 {
        s
    } else {
        spec_retained(s.drop_last(), now, window) + (if stale_record(s.last(), now, window) {
            Seq::<PeerRecord>::empty()
        } else {
            seq![s.last()]
        })
    }
}

/// The identifiers of live records that pruning at `now` drops, in order.
pub open spec fn spec_pruned_live_ids(s: Seq<PeerRecord>, now: u64, window: u64) -> Seq<Seq<char>>
    decreases s.len(),
{
    if s.len() == 0 {
        Seq::<Seq<char>>::empty()
    } else {
        spec_pruned_live_ids(s.drop_last(), now, window) + (if stale_record(s.last(), now, window)
            && live_record(s.last()) {
            seq![s.last().peer_id@]
        } else {
            Seq::<Seq<char>>::empty()
        })
    }
}

/// The identifiers of live records, in order: what `list-peers` shows.
pub open spec fn spec_live_ids(s: Seq<PeerRecord>) -> Seq<Seq<char>>
    decreases s.len(),
{
    if s.len() == 0 {
        Seq::<Seq<char>>::empty()
    } else {
        spec_live_ids(s.drop_last()) + (if live_record(s.last()) {
            seq![s.last().peer_id@]
        } else {
            Seq::<Seq<char>>::empty()
        })
    }
}

/// The identifiers of connected records, in order: the broadcast targets.
pub open spec fn spec_connected_ids(s: Seq<PeerRecord>) -> Seq<Seq<char>>
    decreases s.len(),
{
    if s.len() == 0 {
        Seq::<Seq<char>>::empty()
    } else {
        spec_connected_ids(s.drop_last()) + (if s.last().state == PeerState::Connected {
            seq![s.last().peer_id@]
        } else {
            Seq::<Seq<char>>::empty()
        })
    }
}

/// One discovery event's effect on the set of live peer identifiers.
pub open spec fn spec_apply_discovery(
    s: Set<Seq<char>>,
    local: Seq<char>,
    ev: DiscoveryEvent,
) -> Set<Seq<char>> {
    match ev {
        DiscoveryEvent::Discovered { peer_id, .. } => if peer_id@ == local {
            s
        } else {
            s.insert(peer_id@)
        },
        DiscoveryEvent::Expired { peer_id } => s.remove(peer_id@),
    }
}

/// A whole event sequence's effect, folded in arrival order.
pub open spec fn spec_apply_discovery_seq(
    s: Set<Seq<char>>,
    local: Seq<char>,
    evs: Seq<DiscoveryEvent>,
) -> Set<Seq<char>>
    decreases evs.len(),
{
    if evs.len() == 0 {
        s
    } else {
        spec_apply_discovery(
            spec_apply_discovery_seq(s, local, evs.drop_last()),
            local,
            evs.last(),
        )
    }
}

/// Law: pruning keeps no stale record and every fresh one, so a peer not
/// re-announced within the expiry window disappears from listings even with
/// no explicit departure event.
pub proof fn lemma_retained_exactly_fresh(s: Seq<PeerRecord>, now: u64, window: u64)
    ensures
        forall|k: int|
            0 <= k < spec_retained(s, now, window).len() ==> !stale_record(
                #[trigger] spec_retained(s, now, window)[k],
                now,
                window,
            ),
        forall|k: int|
            0 <= k < s.len() && !stale_record(#[trigger] s[k], now, window) ==> spec_retained(
                s,
                now,
                window,
            ).contains(s[k]),
    decreases s.len(),
{
    if s.len() > 0 {
        lemma_retained_exactly_fresh(s.drop_last(), now, window);
        let r = spec_retained(s, now, window);
        let rp = spec_retained(s.drop_last(), now, window);
        assert forall|k: int| 0 <= k < s.len() && !stale_record(#[trigger] s[k], now, window)
            implies r.contains(s[k]) by {
            if k < s.len() - 1 {
                assert(s.drop_last()[k] == s[k]);
                assert(rp.contains(s[k]));
                let j = choose|j: int| 0 <= j < rp.len() && rp[j] == s[k];
                assert(r[j] == s[k]);
            } else {
                assert(s.last() == s[k]);
                assert(r[rp.len() as int] == s[k]);
            }
        }
    }
}

/// Every listed identifier is the identifier of some record.
proof fn lemma_live_ids_from_records(s: Seq<PeerRecord>, k: int)
    requires
        0 <= k < spec_live_ids(s).len(),
    ensures
        exists|i: int| 0 <= i < s.len() && s[i].peer_id@ == spec_live_ids(s)[k],
    decreases s.len(),
{
    if s.len() > 0 {
        let pre = spec_live_ids(s.drop_last());
        if k < pre.len() {
            lemma_live_ids_from_records(s.drop_last(), k);
            let i = choose|i: int|
                0 <= i < s.drop_last().len() && s.drop_last()[i].peer_id@ == pre[k];
            assert(s[i].peer_id@ == spec_live_ids(s)[k]);
        } else {
            assert(s[s.len() - 1].peer_id@ == spec_live_ids(s)[k]);
        }
    }
}

/// When record identifiers are pairwise distinct, so are the listed ones.
proof fn lemma_live_ids_distinct(s: Seq<PeerRecord>, k1: int, k2: int)
    requires
        forall|i: int, j: int| 0 <= i < j < s.len() ==> s[i].peer_id@ != s[j].peer_id@,
        0 <= k1 < k2 < spec_live_ids(s).len(),
    ensures
        spec_live_ids(s)[k1] != spec_live_ids(s)[k2],
    decreases s.len(),
{
    let pre = spec_live_ids(s.drop_last());
    assert forall|i: int, j: int|
        0 <= i < j < s.drop_last().len() implies s.drop_last()[i].peer_id@
        != s.drop_last()[j].peer_id@ by {
        assert(s[i].peer_id@ != s[j].peer_id@);
    }
    if k2 < pre.len() {
        lemma_live_ids_distinct(s.drop_last(), k1, k2);
        assert(spec_live_ids(s)[k1] == pre[k1]);
        assert(spec_live_ids(s)[k2] == pre[k2]);
    } else {
        lemma_live_ids_from_records(s.drop_last(), k1);
        let i = choose|i: int|
            0 <= i < s.drop_last().len() && s.drop_last()[i].peer_id@ == pre[k1];
        assert(s[i].peer_id@ != s[s.len() - 1].peer_id@);
        assert(spec_live_ids(s)[k1] == pre[k1]);
        assert(spec_live_ids(s)[k2] == s[s.len() - 1].peer_id@);
    }
}

/// Clone a list of addresses.
fn clone_strings(v: &Vec<String>) -> (r: Vec<String>)
    ensures
        r@ == v@,
{
    let mut r: Vec<String> = Vec::new();
    let n = v.len();
    let mut i: usize = 0;
    while i < n
        invariant
            n == v@.len(),
            i <= n,
            r@ == v@.take(i as int),
        decreases n - i,
    {
        r.push(v[i].clone());
        proof {
            assert(r@ =~= v@.take(i as int + 1));
        }
        i = i + 1;
    }
    proof {
        assert(v@.take(n as int) =~= v@);
    }
    r
}

/// Mapping from peer identifier to peer record, in discovery order.
pub struct PeerRegistry {
    local_id: String,
    entries: Vec<PeerRecord>,
}

impl PeerRegistry {
    /// The local node's identifier, which the registry never contains.
    pub closed spec fn local(self) -> Seq<char> {
        self.local_id@
    }

    /// All records, in discovery order.
    pub closed spec fn records(self) -> Seq<PeerRecord> {
        self.entries@
    }

    /// All stored identifiers, in discovery order.
    pub closed spec fn ids(self) -> Seq<Seq<char>> {
        Seq::new(self.entries@.len(), |i: int| self.entries@[i].peer_id@)
    }

    /// Whether an identifier has an entry, in any state.
    pub closed spec fn contains_id(self, id: Seq<char>) -> bool {
        exists|i: int|
            0 <= i < self.entries@.len() && self.entries@[i].peer_id@ == id
    }

    /// The index of an identifier's entry.
    pub closed spec fn idx_of(self, id: Seq<char>) -> int {
        choose|i: int| 0 <= i < self.entries@.len() && self.entries@[i].peer_id@ == id
    }

    /// The entry of an identifier.
    pub closed spec fn entry(self, id: Seq<char>) -> PeerRecord {
        self.entries@[self.idx_of(id)]
    }

    /// The set of live (listed) peer identifiers.
    pub closed spec fn live_set(self) -> Set<Seq<char>> {
        Set::new(
            |id: Seq<char>|
                exists|i: int|
                    0 <= i < self.entries@.len() && self.entries@[i].peer_id@ == id && live_record(
                        self.entries@[i],
                    ),
        )
    }

    /// Well-formedness: identifiers are unique and none is the local node's.
    pub closed spec fn wf(self) -> bool {
        &&& (forall|i: int, j: int|
            0 <= i < j < self.entries@.len() ==> self.entries@[i].peer_id@
                != self.entries@[j].peer_id@)
        &&& (forall|i: int|
            0 <= i < self.entries@.len() ==> self.entries@[i].peer_id@ != self.local_id@)
    }

    /// An empty registry for the node with the given identifier.
    pub fn new(local_id: String) -> (r: PeerRegistry)
        ensures
            r.wf(),
            r.local() == local_id@,
            r.records() =~= Seq::<PeerRecord>::empty(),
            r.live_set() =~= Set::<Seq<char>>::empty(),
    {
        PeerRegistry { local_id, entries: Vec::new() }
    }

    /// In a well-formed registry, an entry's index is determined by its
    /// identifier.
    proof fn lemma_idx_at(self, i: int)
        requires
            self.wf(),
            0 <= i < self.entries@.len(),
        ensures
            self.contains_id(self.entries@[i].peer_id@),
            self.idx_of(self.entries@[i].peer_id@) == i,
    {
        let id = self.entries@[i].peer_id@;
        assert(self.contains_id(id));
        let j = self.idx_of(id);
        if i < j {
            assert(self.entries@[i].peer_id@ != self.entries@[j].peer_id@);
        } else if j < i {
            assert(self.entries@[j].peer_id@ != self.entries@[i].peer_id@);
        }
    }

    /// Find the index of an identifier's entry.
    fn find(&self, peer_id: &String) -> (r: Option<usize>)
        requires
            self.wf(),
        ensures
            match r {
                Some(i) => i < self.entries@.len() && self.entries@[i as int].peer_id@ == peer_id@
                    && self.contains_id(peer_id@) && self.idx_of(peer_id@) == i,
                None => !self.contains_id(peer_id@),
            },
    {
        let n = self.entries.len();
        let mut i: usize = 0;
        while i < n
            invariant
                n == self.entries@.len(),
                i <= n,
                self.wf(),
                forall|k: int| 0 <= k < i ==> self.entries@[k].peer_id@ != peer_id@,
            decreases n - i,
        {
            if self.entries[i].peer_id == *peer_id {
                proof {
                    self.lemma_idx_at(i as int);
                }
                return Some(i);
            }
            i = i + 1;
        }
        None
    }

    /// Record a presence announcement: refresh or create the peer's entry,
    /// never downgrading a connected peer, and ignore the local node's own
    /// announcement. Returns whether the peer newly became live.
    pub fn upsert(&mut self, peer_id: String, addresses: Vec<String>, now: u64) -> (joined: bool)
        requires
            old(self).wf(),
        ensures
            final(self).wf(),
            final(self).local() == old(self).local(),
            joined == (peer_id@ != old(self).local() && !old(self).live_set().contains(peer_id@)),
            peer_id@ == old(self).local() ==> *final(self) == *old(self),
            peer_id@ != old(self).local() ==> {
                &&& final(self).live_set() == old(self).live_set().insert(peer_id@)
                &&& final(self).contains_id(peer_id@)
                &&& (old(self).contains_id(peer_id@) ==> final(self).ids() == old(self).ids())
                &&& (!old(self).contains_id(peer_id@) ==> final(self).ids() == old(self).ids().push(
                    peer_id@,
                ))
                &&& final(self).entry(peer_id@).peer_id@ == peer_id@
                &&& final(self).entry(peer_id@).addresses == addresses
                &&& final(self).entry(peer_id@).last_seen == now
                &&& final(self).entry(peer_id@).state == (if old(self).contains_id(peer_id@) && old(
                    self,
                ).entry(peer_id@).state == PeerState::Connected {
                    PeerState::Connected
                } else {
                    PeerState::Discovered
                })
                &&& (forall|id2: Seq<char>|
                    id2 != peer_id@ ==> old(self).contains_id(id2) == final(self).contains_id(id2)
                        && (old(self).contains_id(id2) ==> final(self).entry(id2) == old(
                        self,
                    ).entry(id2)))
            },
    {
        if peer_id == self.local_id {
            return false;
        }
        let found = self.find(&peer_id);
        match found {
            Some(i) => {
                let was_live = self.entries[i].state != PeerState::Disconnected;
                let keep_connected = self.entries[i].state == PeerState::Connected;
                let r = vstd::std_specs::vec::vec_index_mut(&mut self.entries, i);
                r.addresses = addresses;
                r.last_seen = now;
                r.state = if keep_connected {
                    PeerState::Connected
                } else {
                    PeerState::Discovered
                };
                proof {
                    self.lemma_upsert_update(*old(self), i as int, peer_id@);
                }
                !was_live
            },
            None => {
                let rec = PeerRecord {
                    peer_id,
                    addresses,
                    state: PeerState::Discovered,
                    last_seen: now,
                };
                let ghost id = rec.peer_id@;
                self.entries.push(rec);
                proof {
                    self.lemma_upsert_push(*old(self), id);
                }
                true
            },
        }
    }

    /// Law: the listing never includes the local node's own identifier.
    pub proof fn lemma_local_never_listed(self, k: int)
        requires
            self.wf(),
            0 <= k < spec_live_ids(self.records()).len(),
        ensures
            spec_live_ids(self.records())[k] != self.local(),
    {
        lemma_live_ids_from_records(self.entries@, k);
    }

    /// Law: the listing holds no duplicate identifiers.
    pub proof fn lemma_listing_has_no_duplicates(self, k1: int, k2: int)
        requires
            self.wf(),
            0 <= k1 < k2 < spec_live_ids(self.records()).len(),
        ensures
            spec_live_ids(self.records())[k1] != spec_live_ids(self.records())[k2],
    {
        lemma_live_ids_distinct(self.entries@, k1, k2);
    }

    /// Liveness of an identifier is liveness of its entry.
    pub proof fn lemma_live_iff(self, id: Seq<char>)
        requires
            self.wf(),
        ensures
            self.live_set().contains(id) <==> (self.contains_id(id) && live_record(
                self.entry(id),
            )),
    {
        if self.live_set().contains(id) {
            let k = choose|k: int|
                0 <= k < self.entries@.len() && self.entries@[k].peer_id@ == id && live_record(
                    self.entries@[k],
                );
            self.lemma_idx_at(k);
        }
        if self.contains_id(id) && live_record(self.entry(id)) {
            let i = self.idx_of(id);
            assert(0 <= i < self.entries@.len() && self.entries@[i].peer_id@ == id && live_record(
                self.entries@[i],
            ));
        }
    }

    /// After updating the record at a live identifier's index in place, the
    /// live set gains that identifier and everything else is unchanged.
    proof fn lemma_upsert_update(self, prev: PeerRegistry, i: int, id: Seq<char>)
        requires
            prev.wf(),
            0 <= i < prev.entries@.len(),
            prev.entries@[i].peer_id@ == id,
            self.local_id == prev.local_id,
            self.entries@ == prev.entries@.update(i, self.entries@[i]),
            self.entries@[i].peer_id@ == id,
            live_record(self.entries@[i]),
        ensures
            self.wf(),
            self.contains_id(id),
            self.idx_of(id) == i,
            self.ids() == prev.ids(),
            self.live_set() == prev.live_set().insert(id),
            forall|id2: Seq<char>|
                id2 != id ==> prev.contains_id(id2) == self.contains_id(id2) && (prev.contains_id(
                    id2,
                ) ==> self.entry(id2) == prev.entry(id2)),
    {
        assert(self.ids() =~= prev.ids());
        assert(self.wf());
        self.lemma_idx_at(i);
        assert forall|id2: Seq<char>| #[trigger] self.live_set().contains(id2) implies
            prev.live_set().insert(id).contains(id2) by {
            let k = choose|k: int|
                0 <= k < self.entries@.len() && self.entries@[k].peer_id@ == id2 && live_record(
                    self.entries@[k],
                );
            if k != i {
                assert(prev.entries@[k].peer_id@ == id2 && live_record(prev.entries@[k]));
            }
        }
        assert forall|id2: Seq<char>| #[trigger]
            prev.live_set().insert(id).contains(id2) implies self.live_set().contains(id2) by {
            if id2 == id {
                assert(self.entries@[i].peer_id@ == id2 && live_record(self.entries@[i]));
            } else {
                let k = choose|k: int|
                    0 <= k < prev.entries@.len() && prev.entries@[k].peer_id@ == id2 && live_record(
                        prev.entries@[k],
                    );
                assert(k != i);
                assert(self.entries@[k].peer_id@ == id2 && live_record(self.entries@[k]));
            }
        }
        assert(self.live_set() =~= prev.live_set().insert(id));
        assert forall|id2: Seq<char>| id2 != id implies prev.contains_id(id2) == self.contains_id(
            id2,
        ) && (prev.contains_id(id2) ==> self.entry(id2) == prev.entry(id2)) by {
            if prev.contains_id(id2) {
                let k = prev.idx_of(id2);
                assert(self.entries@[k].peer_id@ == id2);
                assert(self.contains_id(id2));
                self.lemma_idx_at(k);
                prev.lemma_idx_at(k);
            }
            if self.contains_id(id2) {
                let k = self.idx_of(id2);
                assert(prev.entries@[k].peer_id@ == id2);
                assert(prev.contains_id(id2));
            }
        }
    }

    /// After pushing a record with a fresh identifier, the live set gains
    /// that identifier and everything else is unchanged.
    proof fn lemma_upsert_push(self, prev: PeerRegistry, id: Seq<char>)
        requires
            prev.wf(),
            !prev.contains_id(id),
            id != prev.local_id@,
            self.local_id == prev.local_id,
            self.entries@.len() == prev.entries@.len() + 1,
            self.entries@ == prev.entries@.push(self.entries@.last()),
            self.entries@.last().peer_id@ == id,
            live_record(self.entries@.last()),
        ensures
            self.wf(),
            self.contains_id(id),
            self.idx_of(id) == self.entries@.len() - 1,
            self.ids() == prev.ids().push(id),
            self.live_set() == prev.live_set().insert(id),
            forall|id2: Seq<char>|
                id2 != id ==> prev.contains_id(id2) == self.contains_id(id2) && (prev.contains_id(
                    id2,
                ) ==> self.entry(id2) == prev.entry(id2)),
    {
        let n = prev.entries@.len() as int;
        assert forall|i: int, j: int|
            0 <= i < j < self.entries@.len() implies self.entries@[i].peer_id@
            != self.entries@[j].peer_id@ by {
            if j == n {
                assert(self.entries@[i] == prev.entries@[i]);
                if self.entries@[i].peer_id@ == id {
                    assert(prev.contains_id(id));
                }
            }
        }
        assert(self.wf());
        assert(self.ids() =~= prev.ids().push(id));
        assert(self.entries@[n].peer_id@ == id);
        self.lemma_idx_at(n);
        assert forall|id2: Seq<char>| #[trigger] self.live_set().contains(id2) implies
            prev.live_set().insert(id).contains(id2) by {
            let k = choose|k: int|
                0 <= k < self.entries@.len() && self.entries@[k].peer_id@ == id2 && live_record(
                    self.entries@[k],
                );
            if k < n {
                assert(prev.entries@[k].peer_id@ == id2 && live_record(prev.entries@[k]));
            }
        }
        assert forall|id2: Seq<char>| #[trigger]
            prev.live_set().insert(id).contains(id2) implies self.live_set().contains(id2) by {
            if id2 == id {
                assert(self.entries@[n].peer_id@ == id2 && live_record(self.entries@[n]));
            } else {
                let k = choose|k: int|
                    0 <= k < prev.entries@.len() && prev.entries@[k].peer_id@ == id2 && live_record(
                        prev.entries@[k],
                    );
                assert(self.entries@[k].peer_id@ == id2 && live_record(self.entries@[k]));
            }
        }
        assert(self.live_set() =~= prev.live_set().insert(id));
        assert forall|id2: Seq<char>| id2 != id implies prev.contains_id(id2) == self.contains_id(
            id2,
        ) && (prev.contains_id(id2) ==> self.entry(id2) == prev.entry(id2)) by {
            if prev.contains_id(id2) {
                let k = prev.idx_of(id2);
                assert(self.entries@[k].peer_id@ == id2);
                self.lemma_idx_at(k);
                prev.lemma_idx_at(k);
            }
            if self.contains_id(id2) {
                let k = self.idx_of(id2);
                assert(k < n);
                assert(prev.entries@[k].peer_id@ == id2);
            }
        }
    }

    /// After overwriting the record at an identifier's index with a dead
    /// record, the live set loses that identifier and everything else is
    /// unchanged.
    proof fn lemma_update_dead(self, prev: PeerRegistry, i: int, id: Seq<char>)
        requires
            prev.wf(),
            0 <= i < prev.entries@.len(),
            prev.entries@[i].peer_id@ == id,
            self.local_id == prev.local_id,
            self.entries@ == prev.entries@.update(i, self.entries@[i]),
            self.entries@[i].peer_id@ == id,
            !live_record(self.entries@[i]),
        ensures
            self.wf(),
            self.contains_id(id),
            self.idx_of(id) == i,
            self.ids() == prev.ids(),
            self.live_set() == prev.live_set().remove(id),
            forall|id2: Seq<char>|
                id2 != id ==> prev.contains_id(id2) == self.contains_id(id2) && (prev.contains_id(
                    id2,
                ) ==> self.entry(id2) == prev.entry(id2)),
    {
        assert(self.ids() =~= prev.ids());
        assert(self.wf());
        self.lemma_idx_at(i);
        assert forall|id2: Seq<char>| #[trigger] self.live_set().contains(id2) implies
            prev.live_set().remove(id).contains(id2) by {
            let k = choose|k: int|
                0 <= k < self.entries@.len() && self.entries@[k].peer_id@ == id2 && live_record(
                    self.entries@[k],
                );
            assert(k != i);
            assert(prev.entries@[k].peer_id@ == id2 && live_record(prev.entries@[k]));
            if id2 == id {
                prev.lemma_idx_at(k);
                prev.lemma_idx_at(i);
            }
        }
        assert forall|id2: Seq<char>| #[trigger]
            prev.live_set().remove(id).contains(id2) implies self.live_set().contains(id2) by {
            let k = choose|k: int|
                0 <= k < prev.entries@.len() && prev.entries@[k].peer_id@ == id2 && live_record(
                    prev.entries@[k],
                );
            if k == i {
                assert(id2 == id);
            } else {
                assert(self.entries@[k].peer_id@ == id2 && live_record(self.entries@[k]));
            }
        }
        assert(self.live_set() =~= prev.live_set().remove(id));
        assert forall|id2: Seq<char>| id2 != id implies prev.contains_id(id2) == self.contains_id(
            id2,
        ) && (prev.contains_id(id2) ==> self.entry(id2) == prev.entry(id2)) by {
            if prev.contains_id(id2) {
                let k = prev.idx_of(id2);
                assert(self.entries@[k].peer_id@ == id2);
                self.lemma_idx_at(k);
                prev.lemma_idx_at(k);
            }
            if self.contains_id(id2) {
                let k = self.idx_of(id2);
                assert(prev.entries@[k].peer_id@ == id2);
            }
        }
    }

    /// After removing the entry at an identifier's index, the live set loses
    /// that identifier, order is kept, and everything else is unchanged.
    proof fn lemma_remove_at(self, prev: PeerRegistry, i: int, id: Seq<char>)
        requires
            prev.wf(),
            0 <= i < prev.entries@.len(),
            prev.entries@[i].peer_id@ == id,
            self.local_id == prev.local_id,
            self.entries@ == prev.entries@.remove(i),
        ensures
            self.wf(),
            !self.contains_id(id),
            self.ids() == prev.ids().remove(i),
            self.live_set() == prev.live_set().remove(id),
            forall|id2: Seq<char>|
                id2 != id ==> prev.contains_id(id2) == self.contains_id(id2) && (prev.contains_id(
                    id2,
                ) ==> self.entry(id2) == prev.entry(id2)),
    {
        let n = prev.entries@.len() as int;
        assert(self.entries@.len() == n - 1);
        assert forall|k: int| 0 <= k < n - 1 implies self.entries@[k] == (if k < i {
            prev.entries@[k]
        } else {
            prev.entries@[k + 1]
        }) by {}
        assert(self.wf());
        assert(self.ids() =~= prev.ids().remove(i));
        assert forall|k: int| 0 <= k < n - 1 implies self.entries@[k].peer_id@ != id by {
            if k < i {
                prev.lemma_idx_at(k);
                prev.lemma_idx_at(i);
            } else {
                prev.lemma_idx_at(k + 1);
                prev.lemma_idx_at(i);
            }
        }
        assert(!self.contains_id(id));
        assert forall|id2: Seq<char>| #[trigger] self.live_set().contains(id2) implies
            prev.live_set().remove(id).contains(id2) by {
            let k = choose|k: int|
                0 <= k < self.entries@.len() && self.entries@[k].peer_id@ == id2 && live_record(
                    self.entries@[k],
                );
            if k < i {
                assert(prev.entries@[k].peer_id@ == id2 && live_record(prev.entries@[k]));
            } else {
                assert(prev.entries@[k + 1].peer_id@ == id2 && live_record(prev.entries@[k + 1]));
            }
            assert(id2 != id);
        }
        assert forall|id2: Seq<char>| #[trigger]
            prev.live_set().remove(id).contains(id2) implies self.live_set().contains(id2) by {
            let k = choose|k: int|
                0 <= k < prev.entries@.len() && prev.entries@[k].peer_id@ == id2 && live_record(
                    prev.entries@[k],
                );
            if k == i {
                assert(id2 == id);
            } else if k < i {
                assert(self.entries@[k].peer_id@ == id2 && live_record(self.entries@[k]));
            } else {
                assert(self.entries@[k - 1].peer_id@ == id2 && live_record(self.entries@[k - 1]));
            }
        }
        assert(self.live_set() =~= prev.live_set().remove(id));
        assert forall|id2: Seq<char>| id2 != id implies prev.contains_id(id2) == self.contains_id(
            id2,
        ) && (prev.contains_id(id2) ==> self.entry(id2) == prev.entry(id2)) by {
            if prev.contains_id(id2) {
                let k = prev.idx_of(id2);
                if k < i {
                    assert(self.entries@[k].peer_id@ == id2);
                    self.lemma_idx_at(k);
                    prev.lemma_idx_at(k);
                } else {
                    assert(k > i);
                    assert(self.entries@[k - 1].peer_id@ == id2);
                    self.lemma_idx_at(k - 1);
                    prev.lemma_idx_at(k);
                }
            }
            if self.contains_id(id2) {
                let k = self.idx_of(id2);
                if k < i {
                    assert(prev.entries@[k].peer_id@ == id2);
                } else {
                    assert(prev.entries@[k + 1].peer_id@ == id2);
                }
            }
        }
    }

    /// Record an established connection: mark the peer `Connected`,
    /// creating an entry with no known addresses when the peer was unknown.
    /// The local node's own identifier is ignored. Returns whether the peer
    /// newly became live.
    pub fn mark_connected(&mut self, peer_id: String, now: u64) -> (joined: bool)
        requires
            old(self).wf(),
        ensures
            final(self).wf(),
            final(self).local() == old(self).local(),
            joined == (peer_id@ != old(self).local() && !old(self).live_set().contains(peer_id@)),
            peer_id@ == old(self).local() ==> *final(self) == *old(self),
            peer_id@ != old(self).local() ==> {
                &&& final(self).live_set() == old(self).live_set().insert(peer_id@)
                &&& final(self).contains_id(peer_id@)
                &&& (old(self).contains_id(peer_id@) ==> final(self).ids() == old(self).ids())
                &&& (!old(self).contains_id(peer_id@) ==> final(self).ids() == old(self).ids().push(
                    peer_id@,
                ))
                &&& final(self).entry(peer_id@).peer_id@ == peer_id@
                &&& final(self).entry(peer_id@).last_seen == now
                &&& final(self).entry(peer_id@).state == PeerState::Connected
                &&& (forall|id2: Seq<char>|
                    id2 != peer_id@ ==> old(self).contains_id(id2) == final(self).contains_id(id2)
                        && (old(self).contains_id(id2) ==> final(self).entry(id2) == old(
                        self,
                    ).entry(id2)))
            },
    {
        if peer_id == self.local_id {
            return false;
        }
        let found = self.find(&peer_id);
        match found {
            Some(i) => {
                let was_live = self.entries[i].state != PeerState::Disconnected;
                let r = vstd::std_specs::vec::vec_index_mut(&mut self.entries, i);
                r.last_seen = now;
                r.state = PeerState::Connected;
                proof {
                    self.lemma_upsert_update(*old(self), i as int, peer_id@);
                    old(self).lemma_live_iff(peer_id@);
                    old(self).lemma_idx_at(i as int);
                }
                !was_live
            },
            None => {
                let rec = PeerRecord {
                    peer_id,
                    addresses: Vec::new(),
                    state: PeerState::Connected,
                    last_seen: now,
                };
                let ghost id = rec.peer_id@;
                self.entries.push(rec);
                proof {
                    self.lemma_upsert_push(*old(self), id);
                    old(self).lemma_live_iff(id);
                }
                true
            },
        }
    }

    /// Record a closed connection: flag the peer `Disconnected`, keeping its
    /// entry for the grace period. Returns whether the peer had been live.
    pub fn mark_disconnected(&mut self, peer_id: &String) -> (left: bool)
        requires
            old(self).wf(),
        ensures
            final(self).wf(),
            final(self).local() == old(self).local(),
            left == old(self).live_set().contains(peer_id@),
            final(self).live_set() == old(self).live_set().remove(peer_id@),
            final(self).ids() == old(self).ids(),
            old(self).contains_id(peer_id@) ==> final(self).contains_id(peer_id@)
                && final(self).entry(peer_id@).state == PeerState::Disconnected,
            forall|id2: Seq<char>|
                id2 != peer_id@ ==> old(self).contains_id(id2) == final(self).contains_id(id2) && (
                old(self).contains_id(id2) ==> final(self).entry(id2) == old(self).entry(id2)),
    {
        let found = self.find(peer_id);
        match found {
            Some(i) => {
                let was_live = self.entries[i].state != PeerState::Disconnected;
                let r = vstd::std_specs::vec::vec_index_mut(&mut self.entries, i);
                r.state = PeerState::Disconnected;
                proof {
                    self.lemma_update_dead(*old(self), i as int, peer_id@);
                    old(self).lemma_live_iff(peer_id@);
                    old(self).lemma_idx_at(i as int);
                }
                was_live
            },
            None => {
                proof {
                    old(self).lemma_live_iff(peer_id@);
                    assert(self.live_set() =~= old(self).live_set().remove(peer_id@));
                }
                false
            },
        }
    }

    /// Drop a peer that the discovery engine reported expired; its entry is
    /// removed outright. Returns whether the peer had been live.
    pub fn mark_expired(&mut self, peer_id: &String) -> (left: bool)
        requires
            old(self).wf(),
        ensures
            final(self).wf(),
            final(self).local() == old(self).local(),
            left == old(self).live_set().contains(peer_id@),
            final(self).live_set() == old(self).live_set().remove(peer_id@),
            !final(self).contains_id(peer_id@),
            old(self).contains_id(peer_id@) ==> final(self).ids() == old(self).ids().remove(
                old(self).idx_of(peer_id@),
            ),
            !old(self).contains_id(peer_id@) ==> *final(self) == *old(self),
            forall|id2: Seq<char>|
                id2 != peer_id@ ==> old(self).contains_id(id2) == final(self).contains_id(id2) && (
                old(self).contains_id(id2) ==> final(self).entry(id2) == old(self).entry(id2)),
    {
        let found = self.find(peer_id);
        match found {
            Some(i) => {
                let was_live = self.entries[i].state != PeerState::Disconnected;
                let _ = self.entries.remove(i);
                proof {
                    self.lemma_remove_at(*old(self), i as int, peer_id@);
                    old(self).lemma_live_iff(peer_id@);
                    old(self).lemma_idx_at(i as int);
                }
                was_live
            },
            None => {
                proof {
                    old(self).lemma_live_iff(peer_id@);
                    assert(self.live_set() =~= old(self).live_set().remove(peer_id@));
                }
                false
            },
        }
    }

    /// Drop every record whose last announcement lies a full expiry window
    /// or more in the past; this is the liveness mechanism for peers that go
    /// silent. Returns the identifiers of the live peers that were dropped.
    pub fn prune_expired(&mut self, now: u64, window: u64) -> (removed: Vec<String>)
        requires
            old(self).wf(),
        ensures
            final(self).wf(),
            final(self).local() == old(self).local(),
            final(self).records() == spec_retained(old(self).records(), now, window),
            removed@.map_values(|s: String| s@) == spec_pruned_live_ids(
                old(self).records(),
                now,
                window,
            ),
    {
        let mut removed: Vec<String> = Vec::new();
        let mut i: usize = 0;
        let ghost prev = *old(self);
        let ghost mut j: int = 0;
        proof {
            assert(prev.entries@.take(0) =~= Seq::<PeerRecord>::empty());
            assert(prev.entries@.skip(0) =~= prev.entries@);
            assert(self.entries@ =~= spec_retained(prev.entries@.take(j), now, window)
                + prev.entries@.skip(j));
            assert(removed@.map_values(|s: String| s@) =~= spec_pruned_live_ids(
                prev.entries@.take(j),
                now,
                window,
            ));
        }
        while i < self.entries.len()
            invariant
                self.wf(),
                self.local_id == prev.local_id,
                0 <= j <= prev.entries@.len(),
                i as int == spec_retained(prev.entries@.take(j), now, window).len(),
                i <= self.entries@.len(),
                self.entries@ == spec_retained(prev.entries@.take(j), now, window)
                    + prev.entries@.skip(j),
                removed@.map_values(|s: String| s@) == spec_pruned_live_ids(
                    prev.entries@.take(j),
                    now,
                    window,
                ),
            decreases self.entries@.len() - i,
        {
            proof {
                assert(j < prev.entries@.len());
                assert(self.entries@[i as int] == prev.entries@[j]);
                assert(prev.entries@.take(j + 1).drop_last() =~= prev.entries@.take(j));
                assert(prev.entries@.take(j + 1).last() == prev.entries@[j]);
            }
            let stale = now >= window && self.entries[i].last_seen <= now - window;
            if stale {
                let ghost before = *self;
                if self.entries[i].state != PeerState::Disconnected {
                    removed.push(self.entries[i].peer_id.clone());
                }
                let _ = self.entries.remove(i);
                proof {
                    self.lemma_remove_at(before, i as int, before.entries@[i as int].peer_id@);
                    assert(self.entries@ =~= spec_retained(prev.entries@.take(j + 1), now, window)
                        + prev.entries@.skip(j + 1));
                    assert(removed@.map_values(|s: String| s@) =~= spec_pruned_live_ids(
                        prev.entries@.take(j + 1),
                        now,
                        window,
                    ));
                    j = j + 1;
                }
            } else {
                proof {
                    assert(self.entries@ =~= spec_retained(prev.entries@.take(j + 1), now, window)
                        + prev.entries@.skip(j + 1));
                    assert(removed@.map_values(|s: String| s@) =~= spec_pruned_live_ids(
                        prev.entries@.take(j + 1),
                        now,
                        window,
                    ));
                    j = j + 1;
                }
                i = i + 1;
            }
        }
        proof {
            assert(j == prev.entries@.len());
            assert(prev.entries@.take(j) =~= prev.entries@);
            assert(prev.entries@.skip(j) =~= Seq::<PeerRecord>::empty());
            assert(self.entries@ =~= spec_retained(prev.entries@, now, window));
        }
        removed
    }

    /// The identifiers of all listed (live) peers, in discovery order.
    pub fn list_ids(&self) -> (r: Vec<String>)
        ensures
            r@.map_values(|s: String| s@) == spec_live_ids(self.records()),
    {
        let mut r: Vec<String> = Vec::new();
        let n = self.entries.len();
        let mut i: usize = 0;
        proof {
            assert(self.entries@.take(0) =~= Seq::<PeerRecord>::empty());
            assert(r@.map_values(|s: String| s@) =~= spec_live_ids(self.entries@.take(0)));
        }
        while i < n
            invariant
                n == self.entries@.len(),
                i <= n,
                r@.map_values(|s: String| s@) == spec_live_ids(self.entries@.take(i as int)),
            decreases n - i,
        {
            proof {
                assert(self.entries@.take(i as int + 1).drop_last() =~= self.entries@.take(
                    i as int,
                ));
                assert(self.entries@.take(i as int + 1).last() == self.entries@[i as int]);
            }
            if self.entries[i].state != PeerState::Disconnected {
                r.push(self.entries[i].peer_id.clone());
            }
            proof {
                assert(r@.map_values(|s: String| s@) =~= spec_live_ids(
                    self.entries@.take(i as int + 1),
                ));
            }
            i = i + 1;
        }
        proof {
            assert(self.entries@.take(n as int) =~= self.entries@);
        }
        r
    }

    /// The identifiers of all connected peers, in discovery order: the
    /// targets of a broadcast.
    pub fn connected_ids(&self) -> (r: Vec<String>)
        ensures
            r@.map_values(|s: String| s@) == spec_connected_ids(self.records()),
    {
        let mut r: Vec<String> = Vec::new();
        let n = self.entries.len();
        let mut i: usize = 0;
        proof {
            assert(self.entries@.take(0) =~= Seq::<PeerRecord>::empty());
            assert(r@.map_values(|s: String| s@) =~= spec_connected_ids(self.entries@.take(0)));
        }
        while i < n
            invariant
                n == self.entries@.len(),
                i <= n,
                r@.map_values(|s: String| s@) == spec_connected_ids(self.entries@.take(i as int)),
            decreases n - i,
        {
            proof {
                assert(self.entries@.take(i as int + 1).drop_last() =~= self.entries@.take(
                    i as int,
                ));
                assert(self.entries@.take(i as int + 1).last() == self.entries@[i as int]);
            }
            if self.entries[i].state == PeerState::Connected {
                r.push(self.entries[i].peer_id.clone());
            }
            proof {
                assert(r@.map_values(|s: String| s@) =~= spec_connected_ids(
                    self.entries@.take(i as int + 1),
                ));
            }
            i = i + 1;
        }
        proof {
            assert(self.entries@.take(n as int) =~= self.entries@);
        }
        r
    }

    /// Law: after processing any sequence of discovery events, the live
    /// peers are exactly the initial ones plus those discovered minus those
    /// expired, folded in arrival order; a repeated announcement is
    /// idempotent and the registry never holds duplicates.
    pub fn apply_discovery_events(&mut self, events: &Vec<DiscoveryEvent>, now: u64)
        requires
            old(self).wf(),
        ensures
            final(self).wf(),
            final(self).local() == old(self).local(),
            final(self).live_set() == spec_apply_discovery_seq(
                old(self).live_set(),
                old(self).local(),
                events@,
            ),
    {
        let n = events.len();
        let mut k: usize = 0;
        proof {
            assert(events@.take(0) =~= Seq::<DiscoveryEvent>::empty());
        }
        while k < n
            invariant
                n == events@.len(),
                k <= n,
                self.wf(),
                self.local() == old(self).local(),
                self.live_set() == spec_apply_discovery_seq(
                    old(self).live_set(),
                    old(self).local(),
                    events@.take(k as int),
                ),
            decreases n - k,
        {
            proof {
                assert(events@.take(k as int + 1).drop_last() =~= events@.take(k as int));
                assert(events@.take(k as int + 1).last() == events@[k as int]);
            }
            match &events[k] {
                DiscoveryEvent::Discovered { peer_id, addresses } => {
                    let _ = self.upsert(peer_id.clone(), clone_strings(addresses), now);
                },
                DiscoveryEvent::Expired { peer_id } => {
                    let _ = self.mark_expired(peer_id);
                },
            }
            k = k + 1;
        }
        proof {
            assert(events@.take(n as int) =~= events@);
        }
    }
}

} // verus!
