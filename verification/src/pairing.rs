//! Pairing and trust: taking a phone in, moving the session to another one, and
//! letting one go.
//!
//! A switch never lets go of a phone before another one is in hand. Forgetting a
//! phone is instant here, and is then told to the phone for as long as it may
//! still be listening.

use vstd::prelude::*;
use vstd::utf8;

use crate::arbiter;
use crate::arbiter::{Arbiter, ArbiterView};
use crate::ble_scan;
use crate::ble_scan::PeerCandidate;
use crate::codec;
use crate::codec::hex_encode;
use crate::keys;
use crate::keys::same_key;
use crate::platform::PeerAddr;
use crate::storage::peers::TrustedPeer;
use crate::storage::StorageResult;

verus! {

/// How long a switch looks for another peer, in milliseconds.
pub const SWITCH_WINDOW_MS: u64 = 45_000;

/// A second request while a switch is open does nothing. Otherwise a window
/// opens, and what comes back is the peer that the scan leaves out: the one that
/// owns the session and keeps it meanwhile.
pub fn switch_peer(arbiter: &mut Arbiter, now: u64) -> (r: Option<Option<[u8; 32]>>)
    requires
        now + SWITCH_WINDOW_MS <= u64::MAX,
    ensures
        r is None <==> arbiter::switch_open(old(arbiter)@, now),
        r is None ==> final(arbiter)@ == old(arbiter)@,
        r is Some ==> keys::key_view(r->0) == old(arbiter)@.active && final(arbiter)@ == (
        ArbiterView {
            switching_until: Some((now + SWITCH_WINDOW_MS) as u64),
            ..old(arbiter)@
        }),
{
    if arbiter.is_switching(now) {
        return None;
    }
    let active = arbiter.active();
    arbiter.begin_switch(now, SWITCH_WINDOW_MS);
    Some(active)
}

/// One line of the choice that a switch offers.
#[derive(Debug, PartialEq, Eq)]
pub struct SwitchCandidate {
    pub peer_static_pub: String,
    pub name: Option<String>,
    pub rssi: i16,
}

/// What a candidate looks like in the choice.
pub open spec fn row_of(c: ble_scan::SpecCandidate, row: SwitchCandidate) -> bool {
    &&& row.peer_static_pub@ == codec::hex_text(c.peer_static_pub)
    &&& row.rssi == c.rssi
    &&& match (row.name, c.name) {
        (Some(a), Some(b)) => a@ == b,
        (None, None) => true,
        _ => false,
    }
}

/// What a scan for other peers leads to.
#[derive(Debug, Clone, Copy, PartialEq, Eq)]
pub enum SwitchOutcome {
    /// The user gave the switch up meanwhile: nothing happens.
    Discarded,
    /// Nobody else is there: the switch is closed.
    NobodyElse,
    /// One peer is there, and becomes the active one.
    Activate([u8; 32]),
    /// Several are there: the user picks.
    Choose,
}

/// What a scan for other peers leads to.
pub fn switch_scanned(arbiter: &mut Arbiter, now: u64, candidates: &Vec<PeerCandidate>) -> (r:
    SwitchOutcome)
    ensures
        ({
            let found = ble_scan::candidates_view(candidates@);
            if !arbiter::switch_open(old(arbiter)@, now) {
                r is Discarded && final(arbiter)@ == (ArbiterView {
                    switching_until: None,
                    ..old(arbiter)@
                })
            } else if found.len() == 0 {
                r is NobodyElse && final(arbiter)@ == (ArbiterView {
                    switching_until: None,
                    ..old(arbiter)@
                })
            } else if found.len() == 1 {
                r is Activate && r->Activate_0@ == found[0].peer_static_pub && final(arbiter)@ == old(
                    arbiter,
                )@
            } else {
                r is Choose && final(arbiter)@ == old(arbiter)@
            }
        }),
{
    if !arbiter.is_switching(now) {
        return SwitchOutcome::Discarded;
    }
    if candidates.len() == 0 {
        arbiter.end_switch();
        SwitchOutcome::NobodyElse
    } else if candidates.len() == 1 {
        SwitchOutcome::Activate(candidates[0].peer_static_pub)
    } else {
        SwitchOutcome::Choose
    }
}

/// The choice that a switch offers, in the order of the candidates.
pub fn switch_rows(candidates: Vec<PeerCandidate>) -> (r: Vec<SwitchCandidate>)
    ensures
        r@.len() == candidates@.len(),
        forall|i: int|
            0 <= i < r@.len() ==> row_of(
                ble_scan::candidates_view(candidates@)[i],
                #[trigger] r@[i],
            ),
{
    let mut r: Vec<SwitchCandidate> = Vec::new();
    let mut i: usize = 0;
    while i < candidates.len()
        invariant
            i <= candidates@.len(),
            r@.len() == i,
            forall|j: int|
                0 <= j < i ==> row_of(
                    ble_scan::candidates_view(candidates@)[j],
                    #[trigger] r@[j],
                ),
        decreases candidates.len() - i,
    {
        let name = match &candidates[i].name {
            Some(n) => Some(n.as_str().to_string()),
            None => None,
        };
        let row = SwitchCandidate {
            peer_static_pub: hex_encode(&candidates[i].peer_static_pub),
            name,
            rssi: candidates[i].rssi,
        };
        assert(row_of(ble_scan::candidates_view(candidates@)[i as int], row));
        r.push(row);
        i += 1;
    }
    r
}

/// What making a peer the active one did.
#[derive(Debug, PartialEq, Eq)]
pub enum Activation {
    /// The peer is not trusted.
    Refused,
    /// It is the active one now; `displaced` is the peer that lost the session, if
    /// another one did, and is told so.
    Done { displaced: Option<[u8; 32]> },
}

/// Makes a trusted peer the active one, and closes the switch.
pub fn activate(arbiter: &mut Arbiter, peer: &[u8; 32], known: bool) -> (r: Activation)
    ensures
        known ==> r is Done && keys::key_view(r->displaced) == arbiter::claim_result(
            old(arbiter)@,
            peer@,
        ) && final(arbiter)@ == (ArbiterView {
            active: Some(peer@),
            switching_until: None,
            ..old(arbiter)@
        }),
        !known ==> r is Refused && final(arbiter)@ == old(arbiter)@,
{
    if !known {
        return Activation::Refused;
    }
    let displaced = arbiter.force_activate(peer);
    arbiter.end_switch();
    Activation::Done { displaced }
}

/// What the peer that lost the session is sent: the kind of message, and the name
/// of the peer that has it now, as far as it is known.
pub fn release_body(kind: u8, successor: Option<String>) -> (r: Vec<u8>)
    ensures
        r@ == seq![kind] + match successor {
            Some(name) => utf8::encode_utf8(name@),
            None => Seq::empty(),
        },
{
    let mut body: Vec<u8> = Vec::new();
    body.push(kind);
    match &successor {
        Some(name) => {
            body.extend_from_slice(name.as_str().as_bytes());
        },
        None => {},
    }
    assert(body@ =~= seq![kind] + match successor {
        Some(name) => utf8::encode_utf8(name@),
        None => Seq::empty(),
    });
    body
}

/// How long a revocation is repeated, in milliseconds.
pub const REVOKE_WINDOW_MS: u64 = 60_000;

/// The rest between two tries, in milliseconds.
pub const REVOKE_REST_MS: u64 = 5_000;

/// Telling a phone that it was forgotten, for as long as it may hear it.
pub struct Revoke {
    pub deadline: u64,
    /// Tries so far.
    pub attempt: u32,
    /// The reconnect counter when the phone was forgotten.
    pub counter: u64,
}

/// What the next try does.
#[derive(Debug, Clone, Copy, PartialEq, Eq, Structural)]
pub enum RevokeStep {
    /// Send the revocation with this counter.
    Send { counter: u64 },
    /// The time is up.
    Exhausted,
}

/// The counter of the try after `attempt` others.
pub open spec fn revoke_counter(counter: u64, attempt: u32) -> u64 {
    if counter + attempt + 1 > u64::MAX {
        u64::MAX
    } else {
        (counter + attempt + 1) as u64
    }
}

impl Revoke {
    /// Tries begin at `now`.
    pub fn begin(now: u64, counter: u64) -> (r: Self)
        requires
            now + REVOKE_WINDOW_MS <= u64::MAX,
        ensures
            r == (Revoke { deadline: (now + REVOKE_WINDOW_MS) as u64, attempt: 0, counter }),
    {
        Revoke { deadline: now + REVOKE_WINDOW_MS, attempt: 0, counter }
    }

    /// The next try. Every one has a higher counter than the one before, since
    /// the phone refuses what it has seen.
    pub fn next(&mut self, now: u64) -> (r: RevokeStep)
        requires
            old(self).attempt < u32::MAX,
        ensures
            now < old(self).deadline ==> r == (RevokeStep::Send {
                counter: revoke_counter(old(self).counter, old(self).attempt),
            }) && *final(self) == (Revoke {
                attempt: (old(self).attempt + 1) as u32,
                ..*old(self)
            }),
            now >= old(self).deadline ==> r is Exhausted && *final(self) == *old(self),
    {
        if now < self.deadline {
            self.attempt = self.attempt + 1;
            RevokeStep::Send { counter: self.counter.saturating_add(self.attempt as u64) }
        } else {
            RevokeStep::Exhausted
        }
    }
}

/// Every try carries a counter above the stored one and above those of the tries
/// before it, until the numbers run out.
pub proof fn lemma_revoke_counters_grow(counter: u64, a: u32, b: u32)
    requires
        a < b,
        counter + b < u64::MAX,
    ensures
        counter < revoke_counter(counter, a) < revoke_counter(counter, b),
{
}

/// Lets a peer go: it owns no session and has no link any more. What comes back
/// is what telling it takes, when its record could still be read.
pub fn forget_peer(
    arbiter: &mut Arbiter,
    peer: &[u8; 32],
    record: StorageResult<TrustedPeer>,
    counter: StorageResult<u64>,
) -> (r: Option<(TrustedPeer, u64)>)
    ensures
        final(arbiter)@ == forgotten(old(arbiter)@, peer@),
        match record {
            Ok(p) => r == Some(
                (
                    p,
                    match counter {
                        Ok(n) => n,
                        Err(_) => 0u64,
                    },
                ),
            ),
            Err(_) => r is None,
        },
{
    arbiter.release(peer);
    arbiter.note_disconnected(peer);
    let n: u64 = match counter {
        Ok(n) => n,
        Err(_) => 0,
    };
    match record {
        Ok(p) => Some((p, n)),
        Err(_) => None,
    }
}

/// An arbiter without a peer.
pub open spec fn forgotten(st: ArbiterView, peer: Seq<u8>) -> ArbiterView {
    ArbiterView {
        active: if st.active == Some(peer) {
            None
        } else {
            st.active
        },
        connected: st.connected.remove(peer),
        switching_until: st.switching_until,
    }
}

/// An arbiter without any of these peers.
pub open spec fn all_forgotten(st: ArbiterView, peers: Seq<Seq<u8>>) -> ArbiterView
    decreases peers.len(),
{
    if peers.len() == 0 {
        st
    } else {
        forgotten(all_forgotten(st, peers.drop_last()), peers.last())
    }
}

/// Lets all of these peers go.
pub fn forget_all(arbiter: &mut Arbiter, peers: &Vec<[u8; 32]>)
    ensures
        final(arbiter)@ == all_forgotten(old(arbiter)@, keys::keys_view(peers@)),
{
    let ghost all = keys::keys_view(peers@);
    let mut i: usize = 0;
    assert(all.take(0) =~= Seq::<Seq<u8>>::empty());
    while i < peers.len()
        invariant
            i <= peers@.len(),
            all == keys::keys_view(peers@),
            arbiter@ == all_forgotten(old(arbiter)@, all.take(i as int)),
        decreases peers.len() - i,
    {
        arbiter.release(&peers[i]);
        arbiter.note_disconnected(&peers[i]);
        assert(all.take(i + 1).drop_last() =~= all.take(i as int));
        assert(all.take(i + 1).last() == peers@[i as int]@);
        i += 1;
    }
    assert(all.take(all.len() as int) =~= all);
}

/// Once all trusted peers were let go, nobody owns the session, provided that it
/// was one of them, and none of them has a link.
pub proof fn lemma_forget_all_leaves_nobody(st: ArbiterView, peers: Seq<Seq<u8>>, peer: Seq<u8>)
    requires
        peers.contains(peer),
    ensures
        all_forgotten(st, peers).active != Some(peer),
        !all_forgotten(st, peers).connected.contains(peer),
        st.active == Some(peer) ==> all_forgotten(st, peers).active is None,
    decreases peers.len(),
{
    lemma_forgetting_only_takes(st, peers.drop_last());
    if peers.last() != peer {
        let i = choose|i: int| 0 <= i < peers.len() && peers[i] == peer;
        assert(peers.drop_last()[i] == peer);
        lemma_forget_all_leaves_nobody(st, peers.drop_last(), peer);
    }
}

/// Letting peers go never makes one active.
proof fn lemma_forgetting_only_takes(st: ArbiterView, peers: Seq<Seq<u8>>)
    ensures
        all_forgotten(st, peers).active is None || all_forgotten(st, peers).active == st.active,
    decreases peers.len(),
{
    if peers.len() > 0 {
        lemma_forgetting_only_takes(st, peers.drop_last());
    }
}

/// How long the radio gets to come to rest before a pairing, in milliseconds.
pub const QUIET_MS: u64 = 2_000;

/// Whether to wait another tenth of a second for the radio to come to rest. A
/// radio that does not say is taken to rest.
pub fn wait_for_quiet(discovering: Option<bool>, now: u64, deadline: u64) -> (r: bool)
    ensures
        r == (discovering == Some(true) && now < deadline),
{
    match discovering {
        Some(d) => d && now < deadline,
        None => false,
    }
}

/// What a pairing tells the user.
#[derive(Debug, PartialEq, Eq)]
pub struct PairingResult {
    pub ok: bool,
    pub text: String,
}

/// What a pairing with the phone at `addr` tells the user.
pub fn pairing_result(addr: &str, outcome: Result<(), String>) -> (r: PairingResult)
    ensures
        r.ok == outcome is Ok,
        r.text@ == match outcome {
            Ok(_) => "trust persisted with "@ + addr@,
            Err(e) => e@,
        },
{
    match outcome {
        Ok(_) => {
            let mut text = "trust persisted with ".to_string();
            text.append(addr);
            PairingResult { ok: true, text }
        },
        Err(e) => PairingResult { ok: false, text: e },
    }
}

/// The address at which each peer was last reached.
pub struct PeerAddrs {
    pub known: Vec<([u8; 32], PeerAddr)>,
}

impl View for PeerAddrs {
    type V = Seq<(Seq<u8>, PeerAddr)>;

    open spec fn view(&self) -> Seq<(Seq<u8>, PeerAddr)> {
        self.known@.map_values(|k: ([u8; 32], PeerAddr)| (k.0@, k.1))
    }
}

/// The address of a peer.
pub open spec fn addr_of(v: Seq<(Seq<u8>, PeerAddr)>, peer: Seq<u8>) -> Option<PeerAddr>
    decreases v.len(),
{
    if v.len() == 0 {
        None
    } else if v[0].0 == peer {
        Some(v[0].1)
    } else {
        addr_of(v.drop_first(), peer)
    }
}

/// The addresses without that of a peer.
pub open spec fn without_peer(v: Seq<(Seq<u8>, PeerAddr)>, peer: Seq<u8>) -> Seq<
    (Seq<u8>, PeerAddr),
>
    decreases v.len(),
{
    if v.len() == 0 {
        v
    } else if v[0].0 == peer {
        without_peer(v.drop_first(), peer)
    } else {
        seq![v[0]] + without_peer(v.drop_first(), peer)
    }
}

impl PeerAddrs {
    /// No peer was reached yet.
    pub fn new() -> (r: Self)
        ensures
            r@ == Seq::<(Seq<u8>, PeerAddr)>::empty(),
    {
        let r = PeerAddrs { known: Vec::new() };
        assert(r@ =~= Seq::<(Seq<u8>, PeerAddr)>::empty());
        r
    }

    /// A peer proved who it is at this address.
    pub fn remember_peer_addr(&mut self, peer: &[u8; 32], addr: PeerAddr)
        ensures
            final(self)@ == without_peer(old(self)@, peer@).push((peer@, addr)),
    {
        let _old = self.take_peer_addr(peer);
        let ghost before = self@;
        self.known.push((*peer, addr));
        assert(self@ =~= before.push((peer@, addr)));
    }

    /// The address of a peer, which is forgotten.
    pub fn take_peer_addr(&mut self, peer: &[u8; 32]) -> (r: Option<PeerAddr>)
        ensures
            r == addr_of(old(self)@, peer@),
            final(self)@ == without_peer(old(self)@, peer@),
    {
        let ghost all = self@;
        let mut found: Option<PeerAddr> = None;
        let mut i: usize = 0;
        assert(all.skip(0) =~= all);
        assert(all.take(0) + without_peer(all, peer@) =~= without_peer(all, peer@));
        while i < self.known.len()
            invariant
                i <= self.known@.len(),
                self@.take(i as int) + without_peer(self@.skip(i as int), peer@) == without_peer(
                    all,
                    peer@,
                ),
                addr_of(all, peer@) == (match found {
                    Some(a) => Some(a),
                    None => addr_of(self@.skip(i as int), peer@),
                }),
            decreases self.known.len() - i,
        {
            let ghost views = self@;
            let ghost rest = views.skip(i as int);
            assert(rest[0] == views[i as int]);
            assert(rest.drop_first() =~= views.skip(i + 1));
            if same_key(&self.known[i].0, peer) {
                let k = self.known.remove(i);
                proof {
                    assert(self@ =~= views.remove(i as int));
                    assert(self@.take(i as int) =~= views.take(i as int));
                    assert(self@.skip(i as int) =~= rest.drop_first());
                }
                if found.is_none() {
                    found = Some(k.1);
                }
            } else {
                proof {
                    assert(views.take(i + 1) + without_peer(rest.drop_first(), peer@)
                        =~= views.take(i as int) + (seq![rest[0]] + without_peer(
                        rest.drop_first(),
                        peer@,
                    )));
                }
                i += 1;
            }
        }
        assert(self@.skip(i as int) =~= Seq::<(Seq<u8>, PeerAddr)>::empty());
        assert(self@.take(i as int) + Seq::<(Seq<u8>, PeerAddr)>::empty() =~= self@);
        found
    }
}

/// A peer that was let go has no address any more.
pub proof fn lemma_forgotten_has_no_address(v: Seq<(Seq<u8>, PeerAddr)>, peer: Seq<u8>)
    ensures
        addr_of(without_peer(v, peer), peer) is None,
    decreases v.len(),
{
    if v.len() > 0 {
        lemma_forgotten_has_no_address(v.drop_first(), peer);
        if v[0].0 != peer {
            assert(without_peer(v, peer).drop_first() =~= without_peer(v.drop_first(), peer));
        }
    }
}

proof fn lemma_address_behind(v: Seq<(Seq<u8>, PeerAddr)>, last: (Seq<u8>, PeerAddr), peer: Seq<u8>)
    ensures
        addr_of(v.push(last), peer) == match addr_of(v, peer) {
            Some(a) => Some(a),
            None => if last.0 == peer {
                Some(last.1)
            } else {
                None
            },
        },
    decreases v.len(),
{
    if v.len() > 0 {
        assert(v.push(last).drop_first() =~= v.drop_first().push(last));
        lemma_address_behind(v.drop_first(), last, peer);
    } else {
        assert(v.push(last).drop_first() =~= v);
    }
}

proof fn lemma_address_of_another(v: Seq<(Seq<u8>, PeerAddr)>, peer: Seq<u8>, other: Seq<u8>)
    requires
        other != peer,
    ensures
        addr_of(without_peer(v, peer), other) == addr_of(v, other),
    decreases v.len(),
{
    if v.len() > 0 {
        lemma_address_of_another(v.drop_first(), peer, other);
        if v[0].0 != peer {
            assert(without_peer(v, peer).drop_first() =~= without_peer(v.drop_first(), peer));
        }
    }
}

/// The address that was remembered last is the one that is found, and the
/// addresses of other peers stay as they are.
pub proof fn lemma_remembered_address_is_found(
    v: Seq<(Seq<u8>, PeerAddr)>,
    peer: Seq<u8>,
    addr: PeerAddr,
    other: Seq<u8>,
)
    requires
        other != peer,
    ensures
        addr_of(without_peer(v, peer).push((peer, addr)), peer) == Some(addr),
        addr_of(without_peer(v, peer).push((peer, addr)), other) == addr_of(v, other),
{
    lemma_forgotten_has_no_address(v, peer);
    lemma_address_behind(without_peer(v, peer), (peer, addr), peer);
    lemma_address_behind(without_peer(v, peer), (peer, addr), other);
    lemma_address_of_another(v, peer, other);
}

/// A request to switch opens a window of 45 seconds, and another one within it is ignored; the
/// peer that has the session keeps it meanwhile, and is what the scan leaves out.
pub proof fn lemma_one_switch_at_a_time(
    a: &mut Arbiter,
    now: u64,
    r: Option<Option<[u8; 32]>>,
    b: &mut Arbiter,
    later: u64,
    again: Option<Option<[u8; 32]>>,
)
    requires
        now + 45_000 <= u64::MAX,
        later + 45_000 <= u64::MAX,
        old(a)@.switching_until is None,
        call_ensures(switch_peer, (a, now), r),
        old(b)@ == final(a)@,
        call_ensures(switch_peer, (b, later), again),
    ensures
        r is Some,
        r->0 is Some <==> old(a)@.active is Some,
        r->0 is Some ==> (r->0)->0@ == old(a)@.active->0,
        final(a)@.active == old(a)@.active,
        final(a)@.connected == old(a)@.connected,
        again is None <==> later < now + 45_000,
        again is None ==> final(b)@ == old(b)@,
{
}

/// What a scan leads to: nothing after the window has closed, the peer itself where one is
/// there, a choice where there are several, and the end of the switch where there is none. The
/// session stays where it is.
pub proof fn lemma_scan_decides_the_switch(
    a: &mut Arbiter,
    now: u64,
    candidates: &Vec<PeerCandidate>,
    r: SwitchOutcome,
)
    requires
        call_ensures(switch_scanned, (a, now, candidates), r),
    ensures
        final(a)@.active == old(a)@.active,
        final(a)@.connected == old(a)@.connected,
        ({
            let open = old(a)@.switching_until is Some && now < old(a)@.switching_until->0;
            &&& !open ==> r is Discarded && final(a)@.switching_until is None
            &&& open && candidates@.len() == 0 ==> r is NobodyElse && final(a)@.switching_until
                is None
            &&& open && candidates@.len() == 1 ==> r is Activate && r->Activate_0@
                == candidates@[0].peer_static_pub@ && final(a)@.switching_until == old(
                a,
            )@.switching_until
            &&& open && candidates@.len() >= 2 ==> r is Choose && final(a)@.switching_until == old(
                a,
            )@.switching_until
        }),
{
    assert(ble_scan::candidates_view(candidates@).len() == candidates@.len());
    if candidates@.len() == 1 {
        assert(ble_scan::candidates_view(candidates@)[0].peer_static_pub
            == candidates@[0].peer_static_pub@);
    }
}

/// Making a trusted peer the active one: it has the session, no switch is open any more, and
/// the peer that had the session, if another one did, is named, to be told.
pub proof fn lemma_activated_peer_has_the_session(
    a: &mut Arbiter,
    peer: &[u8; 32],
    known: bool,
    r: Activation,
)
    requires
        call_ensures(activate, (a, peer, known), r),
    ensures
        !known ==> r is Refused && final(a)@ == old(a)@,
        known ==> r is Done && final(a)@.active == Some(peer@) && final(a)@.switching_until is None
            && final(a)@.connected == old(a)@.connected,
        known ==> (r->displaced is Some <==> old(a)@.active is Some && old(a)@.active->0 != peer@),
        known && r->displaced is Some ==> (r->displaced)->0@ == old(a)@.active->0,
{
}

/// What the peer that lost the session is sent begins with the kind of the message, and what
/// follows is the name of the new owner, if it has one.
pub proof fn lemma_loser_is_told_the_winner(kind: u8, successor: Option<String>, r: Vec<u8>)
    requires
        call_ensures(release_body, (kind, successor), r),
    ensures
        r@.len() >= 1 && r@[0] == kind,
        successor is None ==> r@.len() == 1,
        successor is Some ==> r@.drop_first() == utf8::encode_utf8(successor->0@),
{
    if successor is Some {
        assert(r@.drop_first() =~= utf8::encode_utf8(successor->0@));
    }
}

/// A phone that was forgotten is told so for one minute, and every try carries the next number:
/// the first one above that of the record.
pub proof fn lemma_tries_of_a_revocation(
    now: u64,
    counter: u64,
    begun: Revoke,
    one: &mut Revoke,
    t1: u64,
    r1: RevokeStep,
    two: &mut Revoke,
    t2: u64,
    r2: RevokeStep,
)
    requires
        now + 60_000 <= u64::MAX,
        counter + 2 <= u64::MAX,
        call_ensures(Revoke::begin, (now, counter), begun),
        *old(one) == begun,
        call_ensures(Revoke::next, (one, t1), r1),
        *old(two) == *final(one),
        call_ensures(Revoke::next, (two, t2), r2),
    ensures
        t1 < now + 60_000 ==> r1 == (RevokeStep::Send { counter: (counter + 1) as u64 }),
        t1 >= now + 60_000 ==> r1 is Exhausted,
        t1 < now + 60_000 && t2 < now + 60_000 ==> r2 == (RevokeStep::Send {
            counter: (counter + 2) as u64,
        }),
        t2 >= now + 60_000 ==> r2 is Exhausted,
        REVOKE_REST_MS == 5_000,
{
}

/// A peer that is forgotten has neither the session nor a link, and nobody else loses anything;
/// the phone is told as long as its record could be read, with the number of the record, or
/// with zero.
pub proof fn lemma_forgotten_peer_is_gone(
    a: &mut Arbiter,
    peer: &[u8; 32],
    record: StorageResult<TrustedPeer>,
    counter: StorageResult<u64>,
    r: Option<(TrustedPeer, u64)>,
    other: Seq<u8>,
)
    requires
        other != peer@,
        call_ensures(forget_peer, (a, peer, record, counter), r),
    ensures
        final(a)@.active != Some(peer@),
        !final(a)@.connected.contains(peer@),
        old(a)@.active == Some(other) ==> final(a)@.active == Some(other),
        final(a)@.active is Some ==> final(a)@.active == old(a)@.active,
        final(a)@.connected.contains(other) <==> old(a)@.connected.contains(other),
        final(a)@.switching_until == old(a)@.switching_until,
        r is Some <==> record is Ok,
        r is Some ==> (r->0).0 == record->Ok_0,
        r is Some && counter is Ok ==> (r->0).1 == counter->Ok_0,
        r is Some && counter is Err ==> (r->0).1 == 0,
{
}

/// Before a pairing the radio is waited for while it says that it searches, for two seconds at
/// most; what the user is told names the phone where it went well, and is the error where it
/// did not.
pub proof fn lemma_course_of_a_pairing(
    discovering: Option<bool>,
    now: u64,
    deadline: u64,
    wait: bool,
    addr: &str,
    outcome: Result<(), String>,
    r: PairingResult,
)
    requires
        call_ensures(wait_for_quiet, (discovering, now, deadline), wait),
        call_ensures(pairing_result, (addr, outcome), r),
    ensures
        wait ==> now < deadline,
        now < deadline ==> (wait <==> discovering is Some && discovering->0),
        QUIET_MS == 2_000,
        r.ok <==> outcome is Ok,
        outcome is Ok ==> r.text@ == "trust persisted with "@ + addr@,
        outcome is Err ==> r.text@ == outcome->Err_0@,
{
}

/// The address at which a peer was last reached is handed out once, and that of another peer stays.
pub proof fn lemma_address_is_handed_out_once(
    a: &mut PeerAddrs,
    peer: &[u8; 32],
    addr: PeerAddr,
    b: &mut PeerAddrs,
    first: Option<PeerAddr>,
    c: &mut PeerAddrs,
    second: Option<PeerAddr>,
    d: &mut PeerAddrs,
    other: &[u8; 32],
    theirs: Option<PeerAddr>,
    e: &mut PeerAddrs,
    before: Option<PeerAddr>,
)
    requires
        other@ != peer@,
        call_ensures(PeerAddrs::remember_peer_addr, (a, peer, addr), ()),
        old(b)@ == final(a)@,
        call_ensures(PeerAddrs::take_peer_addr, (b, peer), first),
        old(c)@ == final(b)@,
        call_ensures(PeerAddrs::take_peer_addr, (c, peer), second),
        old(d)@ == final(b)@,
        call_ensures(PeerAddrs::take_peer_addr, (d, other), theirs),
        old(e)@ == old(a)@,
        call_ensures(PeerAddrs::take_peer_addr, (e, other), before),
    ensures
        first == Some(addr),
        second is None,
        theirs == before,
{
    let v = old(a)@;
    lemma_remembered_address_is_found(v, peer@, addr, other@);
    lemma_forgotten_has_no_address(final(a)@, peer@);
    lemma_address_of_another(final(a)@, peer@, other@);
}

/// The rows of the choice are the candidates, in their order: each with its key in hexadecimal,
/// its strength and its name.
pub proof fn lemma_rows_of_the_choice(c: ble_scan::SpecCandidate, row: SwitchCandidate)
    requires
        row_of(c, row),
    ensures
        row.peer_static_pub@ == codec::hex_text(c.peer_static_pub),
        row.rssi == c.rssi,
        row.name is Some <==> c.name is Some,
        row.name is Some ==> row.name->0@ == c.name->0,
{
}

} // verus!
