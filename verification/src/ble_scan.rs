//! Who is on air: presence tokens and their owners, the sightings of a switch
//! scan, the health of discovery, and how to wait for a phone that is away.

use vstd::prelude::*;

use crate::keys;
use crate::keys::same_key;

verus! {

/// How many seconds a presence token is on air before it rotates.
pub const PRESENCE_ROTATION_SEC: u64 = 60;

/// The bucket `d` steps from `now`; the buckets wrap around below zero.
pub open spec fn bucket_at(now: u64, d: int) -> int {
    if now + d < 0 {
        now + d + 0x1_0000_0000_0000_0000
    } else {
        now + d
    }
}

/// The time buckets in which a peer's token counts: the current one and two on
/// either side, for clocks that differ and rotations that come late.
pub fn presence_buckets(now: u64) -> (r: Vec<u64>)
    requires
        now <= i64::MAX - 2,
    ensures
        r@.len() == 5,
        forall|i: int| 0 <= i < 5 ==> #[trigger] r@[i] == bucket_at(now, i - 2),
{
    let mut r: Vec<u64> = Vec::new();
    r.push(if now < 2 {
        u64::MAX - (1 - now)
    } else {
        now - 2
    });
    r.push(if now < 1 {
        u64::MAX
    } else {
        now - 1
    });
    r.push(now);
    r.push(now + 1);
    r.push(now + 2);
    r
}

/// The tokens that trusted peers may have on air, each with its owner.
pub struct TokenOwners {
    entries: Vec<([u8; 8], [u8; 32])>,
}

/// The owners of tokens: of two entries for one token the later counts.
pub open spec fn owner_map(entries: Seq<([u8; 8], [u8; 32])>) -> Map<Seq<u8>, Seq<u8>>
    decreases entries.len(),
{
    if entries.len() == 0 {
        Map::empty()
    } else {
        owner_map(entries.drop_last()).insert(entries.last().0@, entries.last().1@)
    }
}

impl View for TokenOwners {
    type V = Map<Seq<u8>, Seq<u8>>;

    closed spec fn view(&self) -> Map<Seq<u8>, Seq<u8>> {
        owner_map(self.entries@)
    }
}

fn same_token(a: &[u8; 8], b: &[u8; 8]) -> (r: bool)
    ensures
        r == (a@ == b@),
{
    let mut i: usize = 0;
    while i < 8
        invariant
            i <= 8,
            forall|j: int| 0 <= j < i ==> a@[j] == b@[j],
        decreases 8 - i,
    {
        if a[i] != b[i] {
            return false;
        }
        i += 1;
    }
    assert(a@ =~= b@);
    true
}

impl TokenOwners {
    /// No token is known.
    pub fn new() -> (r: Self)
        ensures
            r@ == Map::<Seq<u8>, Seq<u8>>::empty(),
    {
        TokenOwners { entries: Vec::new() }
    }

    /// `token` is on air when `owner` is near.
    pub fn insert(&mut self, token: [u8; 8], owner: [u8; 32])
        ensures
            final(self)@ == old(self)@.insert(token@, owner@),
    {
        self.entries.push((token, owner));
        assert(self.entries@.drop_last() =~= old(self).entries@);
    }

    /// The trusted peer that an advertisement comes from: it must carry the
    /// trusted-presence flag and a token that belongs to a peer.
    pub fn presence_owner(&self, trusted_presence: bool, token: &[u8; 8]) -> (r: Option<[u8; 32]>)
        ensures
            keys::key_view(r) == (if trusted_presence && self@.dom().contains(token@) {
                Some(self@[token@])
            } else {
                None
            }),
    {
        if !trusted_presence {
            return None;
        }
        let mut i: usize = self.entries.len();
        assert(self.entries@.take(i as int) == self.entries@);
        while i > 0
            invariant
                trusted_presence,
                i <= self.entries@.len(),
                self@.dom().contains(token@) == owner_map(
                    self.entries@.take(i as int),
                ).dom().contains(token@),
                self@.dom().contains(token@) ==> self@[token@] == owner_map(
                    self.entries@.take(i as int),
                )[token@],
            decreases i,
        {
            let (t, owner): ([u8; 8], [u8; 32]) = self.entries[i - 1];
            assert(self.entries@.take(i as int).drop_last() == self.entries@.take(i - 1));
            assert(self.entries@.take(i as int).last() == self.entries@[i - 1]);
            if same_token(&t, token) {
                return Some(owner);
            }
            i -= 1;
        }
        None
    }
}

/// A trusted peer seen on air.
pub struct PeerCandidate<K = [u8; 32], S = String> {
    pub peer_static_pub: K,
    pub name: Option<S>,
    pub rssi: i16,
}

impl View for PeerCandidate {
    type V = PeerCandidate<Seq<u8>, Seq<char>>;

    open spec fn view(&self) -> PeerCandidate<Seq<u8>, Seq<char>> {
        PeerCandidate {
            peer_static_pub: self.peer_static_pub@,
            name: match self.name {
                Some(s) => Some(s@),
                None => None,
            },
            rssi: self.rssi,
        }
    }
}

pub type SpecCandidate = PeerCandidate<Seq<u8>, Seq<char>>;

/// What a list of candidates says.
pub open spec fn candidates_view(v: Seq<PeerCandidate>) -> Seq<SpecCandidate> {
    v.map_values(|c: PeerCandidate| c@)
}

/// No peer is listed twice.
pub open spec fn one_per_peer(v: Seq<SpecCandidate>) -> bool {
    forall|i: int, j: int|
        0 <= i < j < v.len() ==> (#[trigger] v[i]).peer_static_pub != (
        #[trigger] v[j]).peer_static_pub
}

/// The strongest sightings by peer.
pub open spec fn by_peer(v: Seq<SpecCandidate>) -> Map<Seq<u8>, SpecCandidate>
    decreases v.len(),
{
    if v.len() == 0 {
        Map::empty()
    } else {
        by_peer(v.drop_last()).insert(v.last().peer_static_pub, v.last())
    }
}

/// The candidates come in order of their strength, the strongest first.
pub open spec fn strongest_first(v: Seq<SpecCandidate>) -> bool {
    forall|i: int, j: int| 0 <= i < j < v.len() ==> (#[trigger] v[i]).rssi >= (#[trigger] v[j]).rssi
}

/// The sightings of a scan: for each peer the strongest.
pub struct Sightings {
    found: Vec<PeerCandidate>,
}

impl View for Sightings {
    type V = Map<Seq<u8>, SpecCandidate>;

    closed spec fn view(&self) -> Map<Seq<u8>, SpecCandidate> {
        by_peer(candidates_view(self.found@))
    }
}

proof fn lemma_by_peer(v: Seq<SpecCandidate>)
    requires
        one_per_peer(v),
    ensures
        forall|k: Seq<u8>| #[trigger]
            by_peer(v).dom().contains(k) ==> by_peer(v)[k].peer_static_pub == k && v.contains(
                by_peer(v)[k],
            ),
        forall|i: int|
            0 <= i < v.len() ==> by_peer(v).dom().contains((#[trigger] v[i]).peer_static_pub)
                && by_peer(v)[v[i].peer_static_pub] == v[i],
    decreases v.len(),
{
    if v.len() > 0 {
        let w = v.drop_last();
        lemma_by_peer(w);
        assert forall|k: Seq<u8>| #[trigger] by_peer(v).dom().contains(k) implies by_peer(
            v,
        )[k].peer_static_pub == k && v.contains(by_peer(v)[k]) by {
            if k != v.last().peer_static_pub {
                assert(by_peer(w).dom().contains(k));
                let i = choose|i: int| 0 <= i < w.len() && w[i] == by_peer(w)[k];
                assert(v[i] == by_peer(v)[k]);
            } else {
                assert(v[v.len() - 1] == by_peer(v)[k]);
            }
        }
        assert forall|i: int| 0 <= i < v.len() implies by_peer(v).dom().contains(
            (#[trigger] v[i]).peer_static_pub,
        ) && by_peer(v)[v[i].peer_static_pub] == v[i] by {
            if i < v.len() - 1 {
                assert(w[i] == v[i]);
                assert(v[i].peer_static_pub != v[v.len() - 1].peer_static_pub);
            }
        }
    }
}

proof fn lemma_by_peer_update(v: Seq<SpecCandidate>, i: int, c: SpecCandidate)
    requires
        one_per_peer(v),
        0 <= i < v.len(),
        v[i].peer_static_pub == c.peer_static_pub,
    ensures
        one_per_peer(v.update(i, c)),
        by_peer(v.update(i, c)) == by_peer(v).insert(c.peer_static_pub, c),
    decreases v.len(),
{
    let u = v.update(i, c);
    assert(one_per_peer(u)) by {
        assert forall|a: int, b: int| 0 <= a < b < u.len() implies (
        #[trigger] u[a]).peer_static_pub != (#[trigger] u[b]).peer_static_pub by {
            assert(v[a].peer_static_pub != v[b].peer_static_pub);
        }
    }
    if i == v.len() - 1 {
        assert(u.drop_last() =~= v.drop_last());
        assert(by_peer(u) =~= by_peer(v).insert(c.peer_static_pub, c));
    } else {
        assert(u.drop_last() =~= v.drop_last().update(i, c));
        lemma_by_peer_update(v.drop_last(), i, c);
        assert(v[i].peer_static_pub != v[v.len() - 1].peer_static_pub);
        assert(by_peer(u) =~= by_peer(v).insert(c.peer_static_pub, c));
    }
}

/// What the map says after one more sighting: a stronger one takes the place of
/// the one before.
pub open spec fn after_sighting(
    m: Map<Seq<u8>, SpecCandidate>,
    c: SpecCandidate,
) -> Map<Seq<u8>, SpecCandidate> {
    if m.dom().contains(c.peer_static_pub) && c.rssi <= m[c.peer_static_pub].rssi {
        m
    } else {
        m.insert(c.peer_static_pub, c)
    }
}

impl Sightings {
    #[verifier::type_invariant]
    spec fn lists_each_peer_once(self) -> bool {
        one_per_peer(candidates_view(self.found@))
    }

    /// Nothing was seen yet.
    pub fn new() -> (r: Self)
        ensures
            r@ == Map::<Seq<u8>, SpecCandidate>::empty(),
    {
        Sightings { found: Vec::new() }
    }

    /// A peer was seen.
    pub fn note(&mut self, c: PeerCandidate)
        ensures
            final(self)@ == after_sighting(old(self)@, c@),
    {
        proof {
            use_type_invariant(&*self);
            lemma_by_peer(candidates_view(self.found@));
        }
        let mut other = Sightings::new();
        std::mem::swap(self, &mut other);
        let mut found: Vec<PeerCandidate> = other.found;
        let ghost before = candidates_view(found@);
        let ghost cv = c@;
        let mut i: usize = 0;
        while i < found.len()
            invariant
                i <= found@.len(),
                cv == c@,
                before == candidates_view(found@),
                one_per_peer(before),
                by_peer(before) == old(self)@,
                forall|k: int|
                    0 <= k < before.len() ==> by_peer(before).dom().contains(
                        (#[trigger] before[k]).peer_static_pub,
                    ) && by_peer(before)[before[k].peer_static_pub] == before[k],
                forall|j: int|
                    0 <= j < i ==> (#[trigger] found@[j])@.peer_static_pub != c@.peer_static_pub,
            decreases found.len() - i,
        {
            if same_key(&found[i].peer_static_pub, &c.peer_static_pub) {
                assert(before[i as int].peer_static_pub == c@.peer_static_pub);
                if c.rssi > found[i].rssi {
                    proof {
                        lemma_by_peer_update(before, i as int, c@);
                    }
                    found.set(i, c);
                    assert(candidates_view(found@) =~= before.update(i as int, cv));
                }
                *self = Sightings { found };
                return ;
            }
            i += 1;
        }
        found.push(c);
        proof {
            assert(candidates_view(found@) =~= before.push(cv));
            let after = before.push(cv);
            assert(after.drop_last() =~= before);
            assert forall|j: int| 0 <= j < before.len() implies (
            #[trigger] before[j]).peer_static_pub != cv.peer_static_pub by {
                assert(found@[j]@.peer_static_pub != cv.peer_static_pub);
            }
            assert(!by_peer(before).dom().contains(cv.peer_static_pub)) by {
                if by_peer(before).dom().contains(cv.peer_static_pub) {
                    let x = by_peer(before)[cv.peer_static_pub];
                    let j = choose|j: int| 0 <= j < before.len() && before[j] == x;
                    assert(before[j].peer_static_pub == cv.peer_static_pub);
                }
            }
            assert(one_per_peer(after)) by {
                assert forall|a: int, b: int| 0 <= a < b < after.len() implies (
                #[trigger] after[a]).peer_static_pub != (#[trigger] after[b]).peer_static_pub by {
                    if b == before.len() {
                        assert(before[a].peer_static_pub != cv.peer_static_pub);
                    } else {
                        assert(before[a].peer_static_pub != before[b].peer_static_pub);
                    }
                }
            }
        }
        *self = Sightings { found };
    }

    /// The peers that were seen, each with its strongest sighting, the strongest
    /// first. Of two that are equally strong either may come first.
    pub fn ranked(self) -> (r: Vec<PeerCandidate>)
        ensures
            by_peer(candidates_view(r@)) == self@,
            one_per_peer(candidates_view(r@)),
            strongest_first(candidates_view(r@)),
    {
        proof {
            use_type_invariant(&self);
        }
        let ghost all = candidates_view(self.found@);
        let mut rest: Vec<PeerCandidate> = self.found;
        let mut r: Vec<PeerCandidate> = Vec::new();
        proof {
            lemma_multiset_empty(all);
            assert(candidates_view(r@) =~= Seq::<SpecCandidate>::empty());
        }
        while rest.len() > 0
            invariant
                strongest_first(candidates_view(r@)),
                candidates_view(rest@).to_multiset().add(candidates_view(r@).to_multiset())
                    == all.to_multiset(),
            decreases rest.len(),
        {
            broadcast use vstd::seq_lib::group_to_multiset_ensures;

            let ghost rest0 = candidates_view(rest@);
            let ghost r0 = candidates_view(r@);
            let last: usize = rest.len() - 1;
            let c = rest.remove(last);
            let ghost cv = c@;
            assert(candidates_view(rest@) =~= rest0.remove(last as int));
            assert(rest0[last as int] == cv);
            let mut at: usize = 0;
            while at < r.len() && r[at].rssi >= c.rssi
                invariant
                    at <= r@.len(),
                    r0 == candidates_view(r@),
                    forall|j: int| 0 <= j < at ==> (#[trigger] r0[j]).rssi >= c.rssi,
                decreases r.len() - at,
            {
                at += 1;
            }
            assert(at < r0.len() ==> r0[at as int].rssi < cv.rssi);
            r.insert(at, c);
            proof {
                let r1 = candidates_view(r@);
                assert(r1 =~= r0.insert(at as int, cv));
                assert(strongest_first(r1)) by {
                    assert forall|i: int, j: int| 0 <= i < j < r1.len() implies (
                    #[trigger] r1[i]).rssi >= (#[trigger] r1[j]).rssi by {
                        let a = if i < at {
                            i
                        } else {
                            i - 1
                        };
                        let b = if j < at {
                            j
                        } else {
                            j - 1
                        };
                        if i == at {
                            assert(r0[at as int].rssi >= r0[b].rssi || b == at);
                        } else if j == at {
                            assert(r0[a].rssi >= cv.rssi);
                        } else {
                            assert(r0[a].rssi >= r0[b].rssi);
                        }
                    }
                }
                vstd::seq_lib::to_multiset_insert(r0, at as int, cv);
                vstd::seq_lib::to_multiset_remove(rest0, last as int);
                assert(rest0.contains(cv)) by {
                    assert(rest0[last as int] == cv);
                }
                vstd::seq_lib::to_multiset_contains(rest0, cv);
                assert(rest0.to_multiset().remove(cv).add(r0.to_multiset().insert(cv))
                    =~= rest0.to_multiset().add(r0.to_multiset()));
            }
        }
        proof {
            let out = candidates_view(r@);
            let none = candidates_view(rest@);
            assert(none =~= Seq::<SpecCandidate>::empty());
            lemma_multiset_empty(out);
            assert(none.to_multiset() =~= Seq::<SpecCandidate>::empty().to_multiset());
            lemma_same_entries(all, out);
        }
        r
    }
}

proof fn lemma_multiset_empty(s: Seq<SpecCandidate>)
    ensures
        s.to_multiset().add(Seq::<SpecCandidate>::empty().to_multiset()) == s.to_multiset(),
        Seq::<SpecCandidate>::empty().to_multiset().add(s.to_multiset()) == s.to_multiset(),
{
    let e = Seq::<SpecCandidate>::empty();
    broadcast use vstd::seq_lib::group_to_multiset_ensures;

    assert forall|x: SpecCandidate| e.to_multiset().count(x) == 0 by {
        vstd::seq_lib::to_multiset_contains(e, x);
    }
    assert(s.to_multiset().add(e.to_multiset()) =~= s.to_multiset());
    assert(e.to_multiset().add(s.to_multiset()) =~= s.to_multiset());
}

proof fn lemma_same_entries(a: Seq<SpecCandidate>, b: Seq<SpecCandidate>)
    requires
        one_per_peer(a),
        a.to_multiset() == b.to_multiset(),
    ensures
        one_per_peer(b),
        by_peer(a) == by_peer(b),
{
    broadcast use vstd::seq_lib::group_to_multiset_ensures;

    assert forall|x: SpecCandidate| a.contains(x) == b.contains(x) by {
        vstd::seq_lib::to_multiset_contains(a, x);
        vstd::seq_lib::to_multiset_contains(b, x);
    }
    assert(a.no_duplicates()) by {
        assert forall|i: int, j: int| 0 <= i < a.len() && 0 <= j < a.len() && i != j implies a[i]
            != a[j] by {
            if i < j {
                assert(a[i].peer_static_pub != a[j].peer_static_pub);
            } else {
                assert(a[j].peer_static_pub != a[i].peer_static_pub);
            }
        }
    }
    a.lemma_multiset_has_no_duplicates();
    assert(b.no_duplicates()) by {
        b.lemma_multiset_has_no_duplicates_conv();
    }
    assert(one_per_peer(b)) by {
        assert forall|i: int, j: int| 0 <= i < j < b.len() implies (
        #[trigger] b[i]).peer_static_pub != (#[trigger] b[j]).peer_static_pub by {
            assert(b.contains(b[i]) && b.contains(b[j]));
            let p = choose|p: int| 0 <= p < a.len() && a[p] == b[i];
            let q = choose|q: int| 0 <= q < a.len() && a[q] == b[j];
            assert(b[i] != b[j]);
            if p < q {
                assert(a[p].peer_static_pub != a[q].peer_static_pub);
            } else {
                assert(a[q].peer_static_pub != a[p].peer_static_pub);
            }
        }
    }
    lemma_by_peer(a);
    lemma_by_peer(b);
    assert(by_peer(a) =~= by_peer(b)) by {
        assert forall|k: Seq<u8>| by_peer(a).dom().contains(k) == by_peer(b).dom().contains(k) by {
            if by_peer(a).dom().contains(k) {
                let x = by_peer(a)[k];
                assert(b.contains(x));
                let i = choose|i: int| 0 <= i < b.len() && b[i] == x;
                assert(by_peer(b).dom().contains(b[i].peer_static_pub));
            }
            if by_peer(b).dom().contains(k) {
                let x = by_peer(b)[k];
                assert(a.contains(x));
                let i = choose|i: int| 0 <= i < a.len() && a[i] == x;
                assert(by_peer(a).dom().contains(a[i].peer_static_pub));
            }
        }
        assert forall|k: Seq<u8>| by_peer(a).dom().contains(k) implies by_peer(a)[k] == by_peer(
            b,
        )[k] by {
            let x = by_peer(a)[k];
            assert(b.contains(x));
            let i = choose|i: int| 0 <= i < b.len() && b[i] == x;
            assert(by_peer(b)[b[i].peer_static_pub] == b[i]);
        }
    }
}

/// Which trusted peers a switch looks for: all but the one that is left.
pub open spec fn others(peers: Seq<Seq<u8>>, exclude: Option<Seq<u8>>) -> Seq<Seq<u8>> {
    peers.filter(|p: Seq<u8>| exclude != Some(p))
}

/// Which trusted peers a switch looks for: all but the one that is left.
pub fn other_peers(peers: &Vec<[u8; 32]>, exclude: Option<[u8; 32]>) -> (r: Vec<[u8; 32]>)
    ensures
        keys::keys_view(r@) == others(keys::keys_view(peers@), keys::key_view(exclude)),
{
    let mut r: Vec<[u8; 32]> = Vec::new();
    let mut i: usize = 0;
    let ghost all = keys::keys_view(peers@);
    let ghost ex = keys::key_view(exclude);
    let ghost f = |p: Seq<u8>| ex != Some(p);
    assert(all.take(0) =~= Seq::<Seq<u8>>::empty());
    assert(others(all.take(0), ex) =~= Seq::<Seq<u8>>::empty()) by {
        reveal(Seq::filter);
    }
    assert(keys::keys_view(r@) =~= Seq::<Seq<u8>>::empty());
    while i < peers.len()
        invariant
            i <= peers@.len(),
            all == keys::keys_view(peers@),
            ex == keys::key_view(exclude),
            keys::keys_view(r@) == others(all.take(i as int), ex),
        decreases peers.len() - i,
    {
        let p: [u8; 32] = peers[i];
        let skip = match exclude {
            Some(e) => same_key(&e, &p),
            None => false,
        };
        let ghost before = keys::keys_view(r@);
        proof {
            assert(all.take(i + 1).drop_last() =~= all.take(i as int));
            assert(all.take(i + 1).last() == p@);
            reveal(Seq::filter);
        }
        if !skip {
            r.push(p);
            assert(keys::keys_view(r@) =~= before.push(p@));
        }
        i += 1;
    }
    assert(all.take(i as int) =~= all);
    r
}

/// What a round says of the adapter's discovery.
#[derive(Clone, Copy, PartialEq, Eq, Structural, Debug)]
pub enum HealthNote {
    /// Nothing to say.
    Silent,
    /// Discovery works again.
    Recovered,
    /// The adapter took the request and does not discover.
    Wedged,
}

/// Rounds in a row in which the adapter took the request to discover and did not.
#[derive(Clone, Copy)]
pub struct DiscoveryHealth {
    pub rounds: u32,
}

impl DiscoveryHealth {
    /// How many rounds in a row the adapter has not discovered.
    pub fn not_discovering_rounds(&self) -> (r: u32)
        ensures
            r == self.rounds,
    {
        self.rounds
    }

    /// Counts one round. It is mentioned when discovery breaks and when it works
    /// again, not in every round between. The count wraps around.
    pub fn note_discovery_health(&mut self, discovering: bool) -> (note: HealthNote)
        ensures
            discovering ==> final(self).rounds == 0 && note == (if old(self).rounds > 0 {
                HealthNote::Recovered
            } else {
                HealthNote::Silent
            }),
            !discovering ==> final(self).rounds == (if old(self).rounds == u32::MAX {
                0
            } else {
                old(self).rounds + 1
            }) && note == (if old(self).rounds == 0 {
                HealthNote::Wedged
            } else {
                HealthNote::Silent
            }),
    {
        let before: u32 = self.rounds;
        if discovering {
            self.rounds = 0;
            if before > 0 {
                HealthNote::Recovered
            } else {
                HealthNote::Silent
            }
        } else {
            self.rounds = if before == u32::MAX {
                0
            } else {
                before + 1
            };
            if before == 0 {
                HealthNote::Wedged
            } else {
                HealthNote::Silent
            }
        }
    }
}

/// What the wait for a phone is doing.
#[derive(Clone, Copy, PartialEq, Eq, Structural, Debug)]
pub enum WaitPhase {
    /// One active scan first: right after a drop the phone is usually near.
    Burst,
    /// The adapter watches passively.
    Monitor,
    /// The watch saw a device that no token vouches for; one active scan tells.
    MonitorScan,
    /// Active scans with rests between them, where the watch is not to be had.
    Scan,
}

/// What came of the last step of a wait.
pub enum WaitEvent<A = [u8; 6], K = [u8; 32]> {
    /// The wait begins; there are trusted peers, or none.
    Begin { trusted: bool },
    /// A scan ended, `elapsed_ms` after the scans of this wait began.
    Scanned { found: Option<(A, K)>, elapsed_ms: u64 },
    /// The watch was set up, or refused.
    Armed(bool),
    /// The watch saw a device, and its token belongs to this peer or to none.
    Seen { addr: A, owner: Option<K> },
    /// The watch saw something that is of no interest.
    SeenOther,
    /// The watch ended, or its time is up.
    Over,
    /// Somebody asks for the wait to be looked at again.
    Nudged,
    /// The rest is over.
    Rested,
}

/// What a wait does next.
pub enum WaitAction<A = [u8; 6], K = [u8; 32]> {
    /// Scan for this long.
    Scan { ms: u64 },
    /// Set up the passive watch.
    Arm,
    /// Go on watching.
    Watch,
    /// Rest between two scans.
    Rest { secs: u64 },
    /// The phone is on air.
    Found(A, K),
    /// Nothing; after `after_secs` the caller looks at everything again.
    GiveUp { after_secs: u64 },
}

impl View for WaitEvent {
    type V = WaitEvent<Seq<u8>, Seq<u8>>;

    open spec fn view(&self) -> WaitEvent<Seq<u8>, Seq<u8>> {
        match self {
            WaitEvent::Begin { trusted } => WaitEvent::Begin { trusted: *trusted },
            WaitEvent::Scanned { found, elapsed_ms } => WaitEvent::Scanned {
                found: match found {
                    Some((a, k)) => Some((a@, k@)),
                    None => None,
                },
                elapsed_ms: *elapsed_ms,
            },
            WaitEvent::Armed(b) => WaitEvent::Armed(*b),
            WaitEvent::Seen { addr, owner } => WaitEvent::Seen {
                addr: addr@,
                owner: keys::key_view(*owner),
            },
            WaitEvent::SeenOther => WaitEvent::SeenOther,
            WaitEvent::Over => WaitEvent::Over,
            WaitEvent::Nudged => WaitEvent::Nudged,
            WaitEvent::Rested => WaitEvent::Rested,
        }
    }
}

impl View for WaitAction {
    type V = WaitAction<Seq<u8>, Seq<u8>>;

    open spec fn view(&self) -> WaitAction<Seq<u8>, Seq<u8>> {
        match self {
            WaitAction::Scan { ms } => WaitAction::Scan { ms: *ms },
            WaitAction::Arm => WaitAction::Arm,
            WaitAction::Watch => WaitAction::Watch,
            WaitAction::Rest { secs } => WaitAction::Rest { secs: *secs },
            WaitAction::Found(a, k) => WaitAction::Found(a@, k@),
            WaitAction::GiveUp { after_secs } => WaitAction::GiveUp { after_secs: *after_secs },
        }
    }
}

/// A wait for the phone to be on air.
#[derive(Clone, Copy)]
pub struct PresenceWait {
    pub phase: WaitPhase,
    /// The next rest between two scans, in seconds.
    pub backoff_secs: u64,
    /// The passive watch was refused once; it is not asked for again.
    pub unsupported: bool,
}

/// How long one scan takes, in milliseconds.
pub const PRESENCE_SCAN_MS: u64 = 15_000;

/// How long scans go on before the caller looks at everything again.
pub const RECHECK_MS: u64 = 300_000;

/// The scans begin, with the shortest rest.
pub open spec fn scanning(st: PresenceWait) -> PresenceWait {
    PresenceWait { phase: WaitPhase::Scan, backoff_secs: 5, ..st }
}

/// The rest after one of `secs` seconds: 5, 10, 20, then 45 for good.
pub open spec fn longer_rest(secs: u64) -> u64 {
    if secs < 20 {
        (2 * secs) as u64
    } else {
        45
    }
}

/// The machine of a wait.
pub open spec fn wait_step(
    st: PresenceWait,
    ev: WaitEvent<Seq<u8>, Seq<u8>>,
) -> (PresenceWait, WaitAction<Seq<u8>, Seq<u8>>) {
    let scan = WaitAction::<Seq<u8>, Seq<u8>>::Scan { ms: PRESENCE_SCAN_MS };
    match ev {
        WaitEvent::Begin { trusted } => if trusted {
            (PresenceWait { phase: WaitPhase::Burst, ..st }, scan)
        } else {
            (st, WaitAction::GiveUp { after_secs: 10 })
        },
        WaitEvent::Scanned { found, elapsed_ms } => match found {
            Some((a, k)) => (st, WaitAction::Found(a, k)),
            None => match st.phase {
                WaitPhase::Burst => if st.unsupported {
                    (scanning(st), scan)
                } else {
                    (PresenceWait { phase: WaitPhase::Monitor, ..st }, WaitAction::Arm)
                },
                WaitPhase::MonitorScan => (
                    PresenceWait { phase: WaitPhase::Monitor, ..st },
                    WaitAction::Watch,
                ),
                WaitPhase::Monitor => (st, WaitAction::Watch),
                WaitPhase::Scan => if elapsed_ms > RECHECK_MS {
                    (st, WaitAction::GiveUp { after_secs: 0 })
                } else {
                    (st, WaitAction::Rest { secs: st.backoff_secs })
                },
            },
        },
        WaitEvent::Armed(ok) => if ok {
            (st, WaitAction::Watch)
        } else {
            (PresenceWait { unsupported: true, ..scanning(st) }, scan)
        },
        WaitEvent::Seen { addr, owner } => match owner {
            Some(k) => (st, WaitAction::Found(addr, k)),
            None => (PresenceWait { phase: WaitPhase::MonitorScan, ..st }, scan),
        },
        WaitEvent::SeenOther => (st, WaitAction::Watch),
        WaitEvent::Over => (st, WaitAction::GiveUp { after_secs: 0 }),
        WaitEvent::Nudged => (st, WaitAction::GiveUp { after_secs: 0 }),
        WaitEvent::Rested => (
            PresenceWait {
                backoff_secs: longer_rest(st.backoff_secs),
                ..st
            },
            scan,
        ),
    }
}

impl PresenceWait {
    /// Before the first wait.
    pub fn new() -> (r: Self)
        ensures
            r == (PresenceWait { phase: WaitPhase::Burst, backoff_secs: 5, unsupported: false }),
    {
        PresenceWait { phase: WaitPhase::Burst, backoff_secs: 5, unsupported: false }
    }

    /// Takes in what came of the last action, and says what to do next.
    pub fn step(&mut self, ev: WaitEvent) -> (r: WaitAction)
        ensures
            (*final(self), r@) == wait_step(*old(self), ev@),
    {
        match ev {
            WaitEvent::Begin { trusted } => if trusted {
                self.phase = WaitPhase::Burst;
                WaitAction::Scan { ms: PRESENCE_SCAN_MS }
            } else {
                WaitAction::GiveUp { after_secs: 10 }
            },
            WaitEvent::Scanned { found, elapsed_ms } => match found {
                Some((a, k)) => WaitAction::Found(a, k),
                None => self.on_nothing(elapsed_ms),
            },
            WaitEvent::Armed(ok) => if ok {
                WaitAction::Watch
            } else {
                self.unsupported = true;
                self.phase = WaitPhase::Scan;
                self.backoff_secs = 5;
                WaitAction::Scan { ms: PRESENCE_SCAN_MS }
            },
            WaitEvent::Seen { addr, owner } => match owner {
                Some(k) => WaitAction::Found(addr, k),
                None => {
                    self.phase = WaitPhase::MonitorScan;
                    WaitAction::Scan { ms: PRESENCE_SCAN_MS }
                },
            },
            WaitEvent::SeenOther => WaitAction::Watch,
            WaitEvent::Over => WaitAction::GiveUp { after_secs: 0 },
            WaitEvent::Nudged => WaitAction::GiveUp { after_secs: 0 },
            WaitEvent::Rested => {
                self.backoff_secs = if self.backoff_secs < 20 {
                    2 * self.backoff_secs
                } else {
                    45
                };
                WaitAction::Scan { ms: PRESENCE_SCAN_MS }
            },
        }
    }

    fn on_nothing(&mut self, elapsed_ms: u64) -> (r: WaitAction)
        ensures
            (*final(self), r@) == wait_step(
                *old(self),
                WaitEvent::Scanned { found: None, elapsed_ms },
            ),
    {
        match self.phase {
            WaitPhase::Burst => if self.unsupported {
                self.phase = WaitPhase::Scan;
                self.backoff_secs = 5;
                WaitAction::Scan { ms: PRESENCE_SCAN_MS }
            } else {
                self.phase = WaitPhase::Monitor;
                WaitAction::Arm
            },
            WaitPhase::MonitorScan => {
                self.phase = WaitPhase::Monitor;
                WaitAction::Watch
            },
            WaitPhase::Monitor => WaitAction::Watch,
            WaitPhase::Scan => if elapsed_ms > RECHECK_MS {
                WaitAction::GiveUp { after_secs: 0 }
            } else {
                WaitAction::Rest { secs: self.backoff_secs }
            },
        }
    }
}

/// The rests between scans stay between 5 and 45 seconds, and grow until they
/// are that long.
pub proof fn lemma_scan_rests(st: PresenceWait, ev: WaitEvent<Seq<u8>, Seq<u8>>)
    requires
        5 <= st.backoff_secs <= 45,
    ensures
        5 <= wait_step(st, ev).0.backoff_secs <= 45,
        ev is Rested ==> wait_step(st, ev).0.backoff_secs >= st.backoff_secs,
        wait_step(st, ev).1 matches WaitAction::Rest { secs } ==> 5 <= secs <= 45,
{
}

/// Only a device that a token vouches for is taken for the phone: a wait ends
/// with a find only when a scan or an owner's token named it.
pub proof fn lemma_finds_are_vouched_for(
    st: PresenceWait,
    ev: WaitEvent<Seq<u8>, Seq<u8>>,
    addr: Seq<u8>,
    peer: Seq<u8>,
)
    requires
        wait_step(st, ev).1 == (WaitAction::<Seq<u8>, Seq<u8>>::Found(addr, peer)),
    ensures
        (ev is Scanned && ev->found == Some((addr, peer))) || (ev is Seen && ev->addr == addr
            && ev->owner == Some(peer)),
{
}

/// A watch that was refused once is never asked for again.
pub proof fn lemma_refusal_sticks(st: PresenceWait, ev: WaitEvent<Seq<u8>, Seq<u8>>)
    requires
        st.unsupported,
    ensures
        wait_step(st, ev).0.unsupported,
        !(wait_step(st, ev).1 is Arm),
{
}

/// A wait from its start: it scans at once, for a quarter of a minute, where there are trusted
/// peers. What the scan finds ends the wait. Otherwise the adapter is asked to watch, and where
/// it refuses, scans go on with rests between them.
pub proof fn lemma_course_of_a_wait(st: PresenceWait, elapsed_ms: u64, addr: Seq<u8>, peer: Seq<u8>)
    requires
        !st.unsupported,
    ensures
        ({
            let none = WaitEvent::<Seq<u8>, Seq<u8>>::Scanned { found: None, elapsed_ms };
            let s1 = wait_step(st, WaitEvent::Begin { trusted: true });
            let s2 = wait_step(s1.0, none);
            let s3 = wait_step(s2.0, WaitEvent::Armed(true));
            let s4 = wait_step(s2.0, WaitEvent::Armed(false));
            let s5 = wait_step(s4.0, none);
            &&& s1.1 == (WaitAction::<Seq<u8>, Seq<u8>>::Scan { ms: 15_000 })
            &&& wait_step(
                s1.0,
                WaitEvent::Scanned { found: Some((addr, peer)), elapsed_ms },
            ).1 == WaitAction::Found(addr, peer)
            &&& s2.1 is Arm
            &&& s3.1 is Watch
            &&& s4.1 == (WaitAction::<Seq<u8>, Seq<u8>>::Scan { ms: 15_000 })
            &&& s4.0.unsupported
            &&& elapsed_ms <= 300_000 ==> s5.1 == WaitAction::<Seq<u8>, Seq<u8>>::Rest { secs: 5 }
            &&& elapsed_ms > 300_000 ==> s5.1 == (WaitAction::<Seq<u8>, Seq<u8>>::GiveUp {
                after_secs: 0,
            })
        }),
        wait_step(st, WaitEvent::Begin { trusted: false }) == (
            st,
            WaitAction::<Seq<u8>, Seq<u8>>::GiveUp { after_secs: 10 },
        ),
{
}

/// The rests between scans last 5, 10, 20 and then always 45 seconds, and behind each comes a
/// scan.
pub proof fn lemma_rests_of_a_wait(st: PresenceWait)
    requires
        st.phase is Scan,
        st.backoff_secs == 5,
    ensures
        ({
            let rested = WaitEvent::<Seq<u8>, Seq<u8>>::Rested;
            let none = WaitEvent::<Seq<u8>, Seq<u8>>::Scanned { found: None, elapsed_ms: 0 };
            let s1 = wait_step(st, rested);
            let s2 = wait_step(s1.0, rested);
            let s3 = wait_step(s2.0, rested);
            let s4 = wait_step(s3.0, rested);
            &&& wait_step(st, none).1 == WaitAction::<Seq<u8>, Seq<u8>>::Rest { secs: 5 }
            &&& wait_step(s1.0, none).1 == WaitAction::<Seq<u8>, Seq<u8>>::Rest { secs: 10 }
            &&& wait_step(s2.0, none).1 == WaitAction::<Seq<u8>, Seq<u8>>::Rest { secs: 20 }
            &&& wait_step(s3.0, none).1 == WaitAction::<Seq<u8>, Seq<u8>>::Rest { secs: 45 }
            &&& wait_step(s4.0, none).1 == WaitAction::<Seq<u8>, Seq<u8>>::Rest { secs: 45 }
            &&& s1.1 == (WaitAction::<Seq<u8>, Seq<u8>>::Scan { ms: 15_000 })
            &&& s4.1 == s1.1
        }),
{
}

/// What the watch sees: a device with the token of a peer is that peer, and the wait is over; a
/// device that nobody vouches for is looked at by one scan, after which the watch goes on; what
/// is of no interest changes nothing. The end of the watch, and a nudge, end the wait.
pub proof fn lemma_what_the_watch_sees(
    st: PresenceWait,
    addr: Seq<u8>,
    peer: Seq<u8>,
    elapsed_ms: u64,
)
    ensures
        wait_step(st, WaitEvent::Seen { addr, owner: Some(peer) }) == (
            st,
            WaitAction::Found(addr, peer),
        ),
        ({
            let s1 = wait_step(st, WaitEvent::Seen { addr, owner: None });
            let s2 = wait_step(
                s1.0,
                WaitEvent::<Seq<u8>, Seq<u8>>::Scanned { found: None, elapsed_ms },
            );
            &&& s1.1 == (WaitAction::<Seq<u8>, Seq<u8>>::Scan { ms: 15_000 })
            &&& s2.1 is Watch && s2.0.phase is Monitor
        }),
        wait_step(st, WaitEvent::SeenOther) == (st, WaitAction::<Seq<u8>, Seq<u8>>::Watch),
        wait_step(st, WaitEvent::Over) == (
            st,
            WaitAction::<Seq<u8>, Seq<u8>>::GiveUp { after_secs: 0 },
        ),
        wait_step(st, WaitEvent::Nudged) == (
            st,
            WaitAction::<Seq<u8>, Seq<u8>>::GiveUp { after_secs: 0 },
        ),
{
}

/// A wait that was refused the watch before scans again right after the first scan.
pub proof fn lemma_wait_without_a_watch(st: PresenceWait, elapsed_ms: u64)
    requires
        st.unsupported,
        st.phase is Burst,
    ensures
        ({
            let (next, action) = wait_step(
                st,
                WaitEvent::<Seq<u8>, Seq<u8>>::Scanned { found: None, elapsed_ms },
            );
            &&& action == (WaitAction::<Seq<u8>, Seq<u8>>::Scan { ms: 15_000 })
            &&& next.phase is Scan && next.backoff_secs == 5 && next.unsupported
        }),
{
}

/// A token counts in five time buckets: the current one, the two before it and the two behind
/// it. At the start of time the buckets before wrap around.
pub proof fn lemma_buckets_around_now(now: u64, i: int)
    requires
        0 <= i < 5,
        now <= i64::MAX - 2,
    ensures
        now + (i - 2) >= 0 ==> bucket_at(now, i - 2) == now + (i - 2),
        now + (i - 2) < 0 ==> bucket_at(now, i - 2) == u64::MAX + 1 + now + (i - 2),
{
}

/// A sighting is kept when it is the first of its peer or the strongest so far, and it touches no
/// other peer.
pub proof fn lemma_strongest_sighting_is_kept(
    m: Map<Seq<u8>, SpecCandidate>,
    c: SpecCandidate,
    k: Seq<u8>,
)
    ensures
        ({
            let after = after_sighting(m, c);
            &&& after.dom().contains(c.peer_static_pub)
            &&& after[c.peer_static_pub].rssi >= c.rssi
            &&& !m.dom().contains(c.peer_static_pub) || c.rssi > m[c.peer_static_pub].rssi
                ==> after[c.peer_static_pub] == c
            &&& m.dom().contains(c.peer_static_pub) && c.rssi <= m[c.peer_static_pub].rssi
                ==> after == m
            &&& k != c.peer_static_pub ==> (after.dom().contains(k) <==> m.dom().contains(k)) && (
            m.dom().contains(k) ==> after[k] == m[k])
        }),
{
}

/// A peer is known by a token of its own and by the flag of trusted presence, and by nothing
/// less; of two entries for one token the later counts.
pub proof fn lemma_token_names_its_owner(
    owners: &mut TokenOwners,
    token: [u8; 8],
    owner: [u8; 32],
    now: &TokenOwners,
    flagged: Option<[u8; 32]>,
    unflagged: Option<[u8; 32]>,
)
    requires
        call_ensures(TokenOwners::insert, (owners, token, owner), ()),
        now@ == final(owners)@,
        call_ensures(TokenOwners::presence_owner, (now, true, &token), flagged),
        call_ensures(TokenOwners::presence_owner, (now, false, &token), unflagged),
    ensures
        flagged is Some && flagged->0@ == owner@,
        unflagged is None,
{
}

/// A switch looks for every trusted peer but the one that is left.
pub proof fn lemma_switch_looks_for_the_others(
    peers: Seq<Seq<u8>>,
    exclude: Option<Seq<u8>>,
    p: Seq<u8>,
)
    ensures
        others(peers, exclude).contains(p) <==> peers.contains(p) && exclude != Some(p),
{
    let f = |q: Seq<u8>| exclude != Some(q);
    let kept = others(peers, exclude);
    if kept.contains(p) {
        peers.lemma_filter_contains_rev(f, p);
        let i = choose|i: int| 0 <= i < kept.len() && kept[i] == p;
        peers.lemma_filter_pred(f, i);
    }
    if peers.contains(p) && exclude != Some(p) {
        let i = choose|i: int| 0 <= i < peers.len() && peers[i] == p;
        peers.lemma_filter_contains(f, i);
    }
}

proof fn lemma_map_of_candidates(v: Seq<SpecCandidate>, k: Seq<u8>)
    requires
        one_per_peer(v),
    ensures
        by_peer(v).dom().contains(k) <==> exists|i: int|
            0 <= i < v.len() && (#[trigger] v[i]).peer_static_pub == k,
{
    lemma_by_peer(v);
    if by_peer(v).dom().contains(k) {
        let i = choose|i: int| 0 <= i < v.len() && v[i] == by_peer(v)[k];
        assert(v[i].peer_static_pub == k);
    }
}

/// What a scan saw is listed, each peer once with its strongest sighting, and no peer stands
/// behind a weaker one.
pub proof fn lemma_ranking_lists_everyone(s: Sightings, r: Vec<PeerCandidate>, k: Seq<u8>)
    requires
        call_ensures(Sightings::ranked, (s,), r),
    ensures
        s@.dom().contains(k) <==> exists|i: int|
            0 <= i < candidates_view(r@).len() && (#[trigger] candidates_view(
                r@,
            )[i]).peer_static_pub == k,
        forall|i: int|
            0 <= i < candidates_view(r@).len() ==> (#[trigger] candidates_view(r@)[i])
                == s@[candidates_view(r@)[i].peer_static_pub],
        forall|i: int, j: int|
            0 <= i < j < candidates_view(r@).len() ==> (#[trigger] candidates_view(r@)[i]).rssi >= (
            #[trigger] candidates_view(r@)[j]).rssi,
{
    let v = candidates_view(r@);
    lemma_map_of_candidates(v, k);
    lemma_by_peer(v);
    assert(strongest_first(v));
}

/// Discovery that breaks, and discovery that works again, are each mentioned once.
pub proof fn lemma_discovery_is_mentioned_once(
    h: &mut DiscoveryHealth,
    discovering: bool,
    note: HealthNote,
)
    requires
        call_ensures(DiscoveryHealth::note_discovery_health, (h, discovering), note),
    ensures
        note is Wedged <==> !discovering && old(h).rounds == 0,
        note is Recovered <==> discovering && old(h).rounds > 0,
        discovering ==> final(h).rounds == 0,
        !discovering && old(h).rounds < u32::MAX ==> final(h).rounds == old(h).rounds + 1,
{
}

/// How long one look for presence takes, and how often the adapter is looked at anew.
pub proof fn lemma_times_of_a_scan()
    ensures
        PRESENCE_SCAN_MS == 15_000,
        RECHECK_MS == 300_000,
        PRESENCE_ROTATION_SEC == 60,
{
}

} // verus!
