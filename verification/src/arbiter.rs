//! Which trusted peer owns the session.
//!
//! A laptop may trust several phones but is active with one. *Connected* means
//! that a transport link exists; several may overlap. *Active* means that the
//! peer owns the mirrored state; that is at most one. Keeping the two apart is
//! what makes a handoff safe: ownership moves at once, and the old link may
//! linger and die on its own schedule.

use vstd::prelude::*;

use crate::keys;
use crate::keys::{position_of, same_key};

verus! {

/// What came of asking to become the active peer.
#[derive(Clone, Copy, Debug, PartialEq, Eq)]
pub enum Claim {
    /// The asker is the active peer now, or was it already.
    Granted,
    /// Refused: `current` owns the session.
    Busy { current: [u8; 32] },
}

/// Who owns the session, who is connected, and until when a switch is open.
pub struct Arbiter {
    active: Option<[u8; 32]>,
    connected: Vec<[u8; 32]>,
    switching_until: Option<u64>,
}

/// What an arbiter says.
#[verifier::ext_equal]
pub struct ArbiterView {
    pub active: Option<Seq<u8>>,
    pub connected: Set<Seq<u8>>,
    /// The end of the switch window, in milliseconds.
    pub switching_until: Option<u64>,
}

impl View for Arbiter {
    type V = ArbiterView;

    closed spec fn view(&self) -> ArbiterView {
        ArbiterView {
            active: keys::key_view(self.active),
            connected: keys::keys_view(self.connected@).to_set(),
            switching_until: self.switching_until,
        }
    }
}

/// What asking for the session gives.
pub open spec fn claim_result(st: ArbiterView, peer: Seq<u8>) -> Option<Seq<u8>> {
    match st.active {
        Some(current) => if current == peer {
            None
        } else {
            Some(current)
        },
        None => None,
    }
}

/// The switch window is open at the time `now`.
pub open spec fn switch_open(st: ArbiterView, now: u64) -> bool {
    match st.switching_until {
        Some(deadline) => now < deadline,
        None => false,
    }
}

/// Which of these peers a link is kept to: the one that owns the session, where it
/// is among them, and else the first.
pub open spec fn preferred_of(st: ArbiterView, peers: Seq<Seq<u8>>) -> Option<Seq<u8>> {
    match st.active {
        Some(owner) if peers.contains(owner) => Some(owner),
        _ => if peers.len() > 0 {
            Some(peers[0])
        } else {
            None
        },
    }
}

impl Arbiter {
    /// Nobody owns the session.
    pub fn new() -> (r: Self)
        ensures
            r@ == (ArbiterView {
                active: None,
                connected: Set::empty(),
                switching_until: None,
            }),
    {
        let r = Arbiter { active: None, connected: Vec::new(), switching_until: None };
        assert(r@.connected =~= Set::<Seq<u8>>::empty());
        r
    }

    /// The peer that owns the session.
    pub fn active(&self) -> (r: Option<[u8; 32]>)
        ensures
            keys::key_view(r) == self@.active,
    {
        self.active
    }

    /// Whether `peer` owns the session.
    pub fn is_active(&self, peer: &[u8; 32]) -> (r: bool)
        ensures
            r == (self@.active == Some(peer@)),
    {
        match self.active {
            Some(current) => same_key(&current, peer),
            None => false,
        }
    }

    /// The place of the peer that a link is kept to.
    pub fn preferred_peer(&self, peers: &Vec<[u8; 32]>) -> (r: Option<usize>)
        ensures
            match r {
                Some(i) => i < peers@.len() && preferred_of(self@, keys::keys_view(peers@)) == Some(
                    peers@[i as int]@,
                ),
                None => preferred_of(self@, keys::keys_view(peers@)) is None,
            },
    {
        match self.active {
            Some(owner) => match position_of(peers, &owner) {
                Some(i) => return Some(i),
                None => {},
            },
            None => {},
        }
        if peers.len() > 0 {
            Some(0)
        } else {
            None
        }
    }

    /// Asks for the session. It is granted when nobody owns it, and to its owner;
    /// another peer is told who owns it.
    pub fn claim(&mut self, peer: &[u8; 32]) -> (r: Claim)
        ensures
            match claim_result(old(self)@, peer@) {
                None => r is Granted && final(self)@ == (ArbiterView {
                    active: Some(peer@),
                    ..old(self)@
                }),
                Some(current) => r is Busy && r->current@ == current && final(self)@ == old(self)@,
            },
    {
        match self.active {
            Some(current) => if same_key(&current, peer) {
                Claim::Granted
            } else {
                Claim::Busy { current }
            },
            None => {
                self.active = Some(*peer);
                Claim::Granted
            },
        }
    }

    /// Moves the session to `peer`, whoever owns it, and closes the switch
    /// window. The peer that lost it, if another one did.
    pub fn force_activate(&mut self, peer: &[u8; 32]) -> (displaced: Option<[u8; 32]>)
        ensures
            keys::key_view(displaced) == claim_result(old(self)@, peer@),
            final(self)@ == (ArbiterView {
                active: Some(peer@),
                switching_until: None,
                ..old(self)@
            }),
    {
        let displaced: Option<[u8; 32]> = match self.active {
            Some(current) => if same_key(&current, peer) {
                None
            } else {
                Some(current)
            },
            None => None,
        };
        self.active = Some(*peer);
        self.switching_until = None;
        displaced
    }

    /// Gives the session up, if `peer` owns it.
    pub fn release(&mut self, peer: &[u8; 32])
        ensures
            final(self)@ == (if old(self)@.active == Some(peer@) {
                ArbiterView { active: None, ..old(self)@ }
            } else {
                old(self)@
            }),
    {
        if self.is_active(peer) {
            self.active = None;
        }
    }

    /// A transport link to `peer` exists.
    pub fn note_connected(&mut self, peer: &[u8; 32])
        ensures
            final(self)@ == (ArbiterView {
                connected: old(self)@.connected.insert(peer@),
                ..old(self)@
            }),
    {
        let ghost before = keys::keys_view(self.connected@);
        if position_of(&self.connected, peer).is_none() {
            self.connected.push(*peer);
            assert(keys::keys_view(self.connected@) =~= before.push(peer@));
            assert forall|k: Seq<u8>| before.push(peer@).contains(k) == (before.contains(k) || k
                == peer@) by {
                if before.contains(k) {
                    let i = choose|i: int| 0 <= i < before.len() && before[i] == k;
                    assert(before.push(peer@)[i] == k);
                }
                assert(before.push(peer@)[before.len() as int] == peer@);
            }
        }
        assert(self@.connected =~= old(self)@.connected.insert(peer@));
    }

    /// No transport link to `peer` is left. Who owns the session stays.
    pub fn note_disconnected(&mut self, peer: &[u8; 32])
        ensures
            final(self)@ == (ArbiterView {
                connected: old(self)@.connected.remove(peer@),
                ..old(self)@
            }),
    {
        let mut kept: Vec<[u8; 32]> = Vec::new();
        let mut i: usize = 0;
        while i < self.connected.len()
            invariant
                i <= self.connected@.len(),
                self.active == old(self).active,
                self.connected == old(self).connected,
                self.switching_until == old(self).switching_until,
                forall|k: Seq<u8>|
                    #![trigger keys::keys_view(kept@).contains(k)]
                    keys::keys_view(kept@).contains(k) <==> keys::keys_view(
                        self.connected@.take(i as int),
                    ).contains(k) && k != peer@,
            decreases self.connected.len() - i,
        {
            let key: [u8; 32] = self.connected[i];
            let same = same_key(&key, peer);
            let ghost before = keys::keys_view(kept@);
            let ghost seen = keys::keys_view(self.connected@.take(i as int));
            let ghost next = keys::keys_view(self.connected@.take(i + 1));
            assert(next =~= seen.push(key@));
            if !same {
                kept.push(key);
                assert(keys::keys_view(kept@) =~= before.push(key@));
            }
            proof {
                assert forall|k: Seq<u8>|
                    #![trigger keys::keys_view(kept@).contains(k)]
                    keys::keys_view(kept@).contains(k) <==> next.contains(k) && k != peer@ by {
                    lemma_push_contains(before, key@, k);
                    lemma_push_contains(seen, key@, k);
                    assert(before.contains(k) <==> seen.contains(k) && k != peer@);
                }
            }
            i += 1;
        }
        assert(self.connected@.take(i as int) == self.connected@);
        self.connected = kept;
        assert(self@.connected =~= old(self)@.connected.remove(peer@)) by {
            assert forall|k: Seq<u8>| self@.connected.contains(k) == old(
                self,
            )@.connected.remove(peer@).contains(k) by {
                assert(keys::keys_view(kept@).contains(k) <==> keys::keys_view(
                    old(self).connected@,
                ).contains(k) && k != peer@);
            }
        }
    }

    /// Whether a transport link to `peer` exists.
    pub fn is_connected(&self, peer: &[u8; 32]) -> (r: bool)
        ensures
            r == self@.connected.contains(peer@),
    {
        position_of(&self.connected, peer).is_some()
    }

    /// Opens a switch window of `ttl_ms` milliseconds: the owner stays while
    /// another peer is looked for.
    pub fn begin_switch(&mut self, now: u64, ttl_ms: u64)
        requires
            now + ttl_ms <= u64::MAX,
        ensures
            final(self)@ == (ArbiterView {
                switching_until: Some((now + ttl_ms) as u64),
                ..old(self)@
            }),
    {
        self.switching_until = Some(now + ttl_ms);
    }

    /// Whether a switch window is open. Asking closes one that has run out.
    pub fn is_switching(&mut self, now: u64) -> (r: bool)
        ensures
            r == switch_open(old(self)@, now),
            final(self)@ == (if r {
                old(self)@
            } else {
                ArbiterView { switching_until: None, ..old(self)@ }
            }),
    {
        match self.switching_until {
            Some(deadline) => if now < deadline {
                true
            } else {
                self.switching_until = None;
                false
            },
            None => false,
        }
    }

    /// Closes the switch window.
    pub fn end_switch(&mut self)
        ensures
            final(self)@ == (ArbiterView { switching_until: None, ..old(self)@ }),
    {
        self.switching_until = None;
    }
}

proof fn lemma_push_contains(s: Seq<Seq<u8>>, x: Seq<u8>, k: Seq<u8>)
    ensures
        s.push(x).contains(k) <==> s.contains(k) || k == x,
{
    if s.contains(k) {
        let i = choose|i: int| 0 <= i < s.len() && s[i] == k;
        assert(s.push(x)[i] == k);
    }
    assert(s.push(x)[s.len() as int] == x);
}

/// Ownership moves at once: after a switch to one peer, every other peer that
/// asks is refused and told who owns the session, the one that lost it included.
pub proof fn lemma_switch_is_final(st: ArbiterView, winner: Seq<u8>, other: Seq<u8>)
    requires
        other != winner,
    ensures
        claim_result(
            ArbiterView { active: Some(winner), switching_until: None, ..st },
            other,
        ) == Some(winner),
{
}

/// A peer that was refused keeps being refused until the owner gives the session
/// up, and is granted it then.
pub proof fn lemma_release_frees(st: ArbiterView, owner: Seq<u8>, other: Seq<u8>)
    requires
        st.active == Some(owner),
        other != owner,
    ensures
        claim_result(st, other) == Some(owner),
        claim_result(ArbiterView { active: None, ..st }, other) is None,
{
}

/// The session is granted to whoever asks while nobody has it, and to its owner again; another
/// peer is told who has it, and asking changes nothing then.
pub proof fn lemma_first_come_first_served(
    a: &mut Arbiter,
    b: &mut Arbiter,
    first: &[u8; 32],
    second: &[u8; 32],
    r: Claim,
    q: Claim,
)
    requires
        call_ensures(Arbiter::claim, (a, first), r),
        old(a)@.active is None,
        old(b)@ == final(a)@,
        call_ensures(Arbiter::claim, (b, second), q),
    ensures
        r is Granted,
        final(a)@.active == Some(first@),
        second@ == first@ ==> q is Granted,
        second@ != first@ ==> q is Busy && q->current@ == first@,
        final(b)@ == final(a)@,
        final(a)@.connected == old(a)@.connected && final(a)@.switching_until == old(
            a,
        )@.switching_until,
{
}

/// A switch that the user asked for takes effect whoever has the session: the new owner has it,
/// the switch window is closed, and the one that lost it is named, unless it is the same.
pub proof fn lemma_switch_takes_effect(
    a: &mut Arbiter,
    peer: &[u8; 32],
    displaced: Option<[u8; 32]>,
)
    requires
        call_ensures(Arbiter::force_activate, (a, peer), displaced),
    ensures
        final(a)@.active == Some(peer@),
        final(a)@.switching_until is None,
        final(a)@.connected == old(a)@.connected,
        old(a)@.active is None || old(a)@.active->0 == peer@ ==> displaced is None,
        old(a)@.active is Some && old(a)@.active->0 != peer@ ==> displaced is Some
            && displaced->0@ == old(a)@.active->0,
{
}

/// Only the owner can give the session up, and a lost link never does.
pub proof fn lemma_owner_gives_up(
    released: &mut Arbiter,
    left: &mut Arbiter,
    came: &mut Arbiter,
    peer: &[u8; 32],
)
    requires
        call_ensures(Arbiter::release, (released, peer), ()),
        call_ensures(Arbiter::note_disconnected, (left, peer), ()),
        call_ensures(Arbiter::note_connected, (came, peer), ()),
    ensures
        old(released)@.active == Some(peer@) ==> final(released)@.active is None,
        old(released)@.active != Some(peer@) ==> final(released)@ == old(released)@,
        final(released)@.connected == old(released)@.connected,
        final(left)@.active == old(left)@.active,
        !final(left)@.connected.contains(peer@),
        forall|k: Seq<u8>|
            k != peer@ ==> (final(left)@.connected.contains(k) <==> old(left)@.connected.contains(
                k,
            )),
        final(came)@.active == old(came)@.active,
        final(came)@.connected.contains(peer@),
        forall|k: Seq<u8>|
            k != peer@ ==> (final(came)@.connected.contains(k) <==> old(came)@.connected.contains(
                k,
            )),
{
}

/// A switch window is open for as long as it was opened for, and no longer; it can be closed
/// before that, and looking at it after its end closes it.
pub proof fn lemma_switch_window(
    a: &mut Arbiter,
    b: &mut Arbiter,
    c: &mut Arbiter,
    now: u64,
    ttl: u64,
    later: u64,
    r: bool,
)
    requires
        now + ttl <= u64::MAX,
        call_ensures(Arbiter::begin_switch, (a, now, ttl), ()),
        old(b)@ == final(a)@,
        call_ensures(Arbiter::is_switching, (b, later), r),
        call_ensures(Arbiter::end_switch, (c,), ()),
    ensures
        r <==> later < now + ttl,
        final(a)@.active == old(a)@.active && final(a)@.connected == old(a)@.connected,
        r ==> final(b)@ == old(b)@,
        !r ==> final(b)@.switching_until is None && final(b)@.active == old(b)@.active,
        final(c)@.switching_until is None && final(c)@.active == old(c)@.active,
{
}

/// A link is kept to the owner of the session where it is trusted, and otherwise to the first
/// trusted peer; without a trusted peer to none.
pub proof fn lemma_link_is_kept_to_the_owner(st: ArbiterView, peers: Seq<Seq<u8>>)
    ensures
        peers.len() == 0 ==> preferred_of(st, peers) is None,
        st.active is Some && peers.contains(st.active->0) ==> preferred_of(st, peers) == st.active,
        peers.len() > 0 && (st.active is None || !peers.contains(st.active->0)) ==> preferred_of(
            st,
            peers,
        ) == Some(peers[0]),
{
}

/// Before anything happens nobody owns the session, nobody is connected, and no switch is open.
pub proof fn lemma_fresh_arbiter_is_free(r: Arbiter, peer: Seq<u8>)
    requires
        call_ensures(Arbiter::new, (), r),
    ensures
        r@.active is None,
        !r@.connected.contains(peer),
        r@.switching_until is None,
{
}

/// What is told of the session: who has it, and who has a link.
pub proof fn lemma_what_is_told_of_the_session(
    a: &Arbiter,
    peer: &[u8; 32],
    owner: Option<[u8; 32]>,
    active: bool,
    connected: bool,
)
    requires
        call_ensures(Arbiter::active, (a,), owner),
        call_ensures(Arbiter::is_active, (a, peer), active),
        call_ensures(Arbiter::is_connected, (a, peer), connected),
    ensures
        owner is Some <==> a@.active is Some,
        owner is Some ==> owner->0@ == a@.active->0,
        active <==> owner is Some && owner->0@ == peer@,
        connected <==> a@.connected.contains(peer@),
{
}

} // verus!
