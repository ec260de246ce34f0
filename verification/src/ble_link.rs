//! The persistent radio link to the trusted phone: when to dial which address,
//! how long to rest after which failure, and when a session counts as gone.
//!
//! The loop is a machine: the program performs an action, and hands the machine
//! the event that came of it; the machine says what to do next. The types are
//! generic in how addresses and keys are held, so that the contracts can speak
//! of the same types over sequences.

use vstd::prelude::*;

use crate::arbiter;
use crate::arbiter::{Arbiter, Claim};
use crate::keys;
use crate::keys::{position_of, same_key};
use crate::text;
use crate::text::{contains, to_ascii_lowercase};

verus! {

/// The words by which a failed write tells that the device, the characteristic
/// or the bus object is gone.
pub open spec fn gone_words() -> Seq<Seq<char>> {
    seq![
        "not connected"@,
        "notconnected"@,
        "does not exist"@,
        "doesnotexist"@,
        "unknown object"@,
        "unknownobject"@,
        "no such device"@,
        "object removed"@,
        "not present or removed"@,
        "disconnected"@,
    ]
}

/// The error text `err` tells that the link is gone.
pub open spec fn tells_gone(err: Seq<char>) -> bool {
    exists|i: int|
        0 <= i < gone_words().len() && text::contains_text(
            text::ascii_lowered(err),
            #[trigger] gone_words()[i],
        )
}

/// Whether a failed write means that the link is gone, or only that the bearer
/// was busy. What is not recognised counts as busy: keeping a dead link for a
/// few beats costs little, tearing a live one down costs a whole reconnect.
pub fn state_write_means_link_gone(err: &str) -> (r: bool)
    ensures
        r == tells_gone(err@),
{
    let lowered = to_ascii_lowercase(err);
    let e = lowered.as_str();
    let ghost w = gone_words();
    let r0 = contains(e, "not connected");
    let r1 = contains(e, "notconnected");
    let r2 = contains(e, "does not exist");
    let r3 = contains(e, "doesnotexist");
    let r4 = contains(e, "unknown object");
    let r5 = contains(e, "unknownobject");
    let r6 = contains(e, "no such device");
    let r7 = contains(e, "object removed");
    let r8 = contains(e, "not present or removed");
    let r9 = contains(e, "disconnected");
    assert(w[0] == "not connected"@ && w[1] == "notconnected"@ && w[2] == "does not exist"@ && w[3]
        == "doesnotexist"@ && w[4] == "unknown object"@ && w[5] == "unknownobject"@ && w[6]
        == "no such device"@ && w[7] == "object removed"@ && w[8] == "not present or removed"@
        && w[9] == "disconnected"@);
    r0 || r1 || r2 || r3 || r4 || r5 || r6 || r7 || r8 || r9
}

/// What came of an action.
pub enum LoopEvent<A = [u8; 6], K = [u8; 32], P = Vec<[u8; 32]>> {
    /// The trusted peers are these.
    Peers(P),
    /// The adapter is powered, or not.
    Powered(bool),
    /// Powering the adapter on succeeded, or not.
    PoweredOn(bool),
    /// No audio switch is under way, or one is.
    SwitchIdle(bool),
    /// Dialling the remembered address succeeded, or not.
    FastDialled(bool),
    /// Looking for the phone ended: with the address of a trusted peer on air, or
    /// without.
    Presence(Option<(A, K)>),
    /// Dialling the address that was found succeeded, or not.
    Dialled { addr: A, peer: K, ok: bool },
    /// The phone offers the signal characteristic, or does not.
    Signal(bool),
    /// The record of the peer that answered still stands, or it was forgotten.
    Trusted(bool),
    /// The handshake failed.
    HandshakeFailed,
    /// The handshake succeeded, with ciphers for the session or without.
    HandshakeDone { ciphers: bool },
    /// The session is over and torn down.
    SessionEnded,
    /// The rest is over.
    Rested,
}

/// What to do next.
pub enum LoopAction<A = [u8; 6], K = [u8; 32]> {
    /// List the trusted peers.
    ListPeers,
    /// Ask whether the adapter is powered.
    AskPower,
    /// Power the adapter on.
    PowerOn,
    /// After `after_ms`, ask whether an audio switch is under way.
    AskSwitch { after_ms: u64 },
    /// Dial the address at which the phone was last, for at most this long.
    FastDial { addr: A, peer: K, limit_ms: u64 },
    /// Drop what is left of the failed address, if there is one, and wait for
    /// the phone to be on air.
    AwaitPresence { forget: Option<A> },
    /// Dial the address that was found, for at most this long.
    Dial { addr: A, peer: K, limit_ms: u64 },
    /// Ask whether the phone offers the signal characteristic.
    AskSignal,
    /// Ask the store whether this peer's record still stands: it may have been
    /// forgotten while the dial was under way.
    AskTrust { peer: K },
    /// Run the handshake as this peer's partner.
    Handshake { peer: K },
    /// Run the session. `busy` names the peer that owns the session, if it is
    /// another one.
    RunSession { peer: K, busy: Option<K> },
    /// Drop what is left of the failed address, if there is one, and rest. A
    /// nudge may end the rest early when `nudgeable`; `announce` asks for a note
    /// that there is no trusted peer yet.
    Rest { ms: u64, nudgeable: bool, announce: bool, forget: Option<A> },
}

/// After this many failed dials in a row the loop rests longer.
pub const CONNECT_WEDGE_THRESHOLD: u32 = 6;

/// How long the loop waits at most for an audio switch to finish.
pub const SWITCH_WAIT_MS: u64 = 20_000;

/// What the loop remembers.
pub struct LinkLoop {
    last_rpa: Option<([u8; 6], [u8; 32])>,
    ik_fails: u32,
    connect_fails: u32,
    announced_no_peer: bool,
    waited_ms: u64,
    peers: Vec<[u8; 32]>,
    peer: [u8; 32],
}

/// What the loop remembers.
#[verifier::ext_equal]
pub struct LinkLoopView {
    /// The address at which a dial succeeded last, and the peer that it was.
    pub last_rpa: Option<(Seq<u8>, Seq<u8>)>,
    /// Failed handshakes in a row.
    pub ik_fails: u32,
    /// Failed dials in a row.
    pub connect_fails: u32,
    /// It was announced that there is no trusted peer yet.
    pub announced_no_peer: bool,
    /// How long an audio switch was waited for in this round.
    pub waited_ms: u64,
    /// The trusted peers of this round.
    pub peers: Seq<Seq<u8>>,
    /// The peer that answered in this round.
    pub peer: Seq<u8>,
}

pub open spec fn rpa_view(r: Option<([u8; 6], [u8; 32])>) -> Option<(Seq<u8>, Seq<u8>)> {
    match r {
        Some((a, k)) => Some((a@, k@)),
        None => None,
    }
}

impl View for LinkLoop {
    type V = LinkLoopView;

    closed spec fn view(&self) -> LinkLoopView {
        LinkLoopView {
            last_rpa: rpa_view(self.last_rpa),
            ik_fails: self.ik_fails,
            connect_fails: self.connect_fails,
            announced_no_peer: self.announced_no_peer,
            waited_ms: self.waited_ms,
            peers: keys::keys_view(self.peers@),
            peer: self.peer@,
        }
    }
}

impl View for LoopEvent {
    type V = LoopEvent<Seq<u8>, Seq<u8>, Seq<Seq<u8>>>;

    open spec fn view(&self) -> LoopEvent<Seq<u8>, Seq<u8>, Seq<Seq<u8>>> {
        match self {
            LoopEvent::Peers(p) => LoopEvent::Peers(keys::keys_view(p@)),
            LoopEvent::Powered(b) => LoopEvent::Powered(*b),
            LoopEvent::PoweredOn(b) => LoopEvent::PoweredOn(*b),
            LoopEvent::SwitchIdle(b) => LoopEvent::SwitchIdle(*b),
            LoopEvent::FastDialled(b) => LoopEvent::FastDialled(*b),
            LoopEvent::Presence(f) => LoopEvent::Presence(rpa_view(*f)),
            LoopEvent::Dialled { addr, peer, ok } => LoopEvent::Dialled {
                addr: addr@,
                peer: peer@,
                ok: *ok,
            },
            LoopEvent::Signal(b) => LoopEvent::Signal(*b),
            LoopEvent::Trusted(b) => LoopEvent::Trusted(*b),
            LoopEvent::HandshakeFailed => LoopEvent::HandshakeFailed,
            LoopEvent::HandshakeDone { ciphers } => LoopEvent::HandshakeDone { ciphers: *ciphers },
            LoopEvent::SessionEnded => LoopEvent::SessionEnded,
            LoopEvent::Rested => LoopEvent::Rested,
        }
    }
}

pub open spec fn addr_view(a: Option<[u8; 6]>) -> Option<Seq<u8>> {
    match a {
        Some(b) => Some(b@),
        None => None,
    }
}

impl View for LoopAction {
    type V = LoopAction<Seq<u8>, Seq<u8>>;

    open spec fn view(&self) -> LoopAction<Seq<u8>, Seq<u8>> {
        match self {
            LoopAction::ListPeers => LoopAction::ListPeers,
            LoopAction::AskPower => LoopAction::AskPower,
            LoopAction::PowerOn => LoopAction::PowerOn,
            LoopAction::AskSwitch { after_ms } => LoopAction::AskSwitch { after_ms: *after_ms },
            LoopAction::FastDial { addr, peer, limit_ms } => LoopAction::FastDial {
                addr: addr@,
                peer: peer@,
                limit_ms: *limit_ms,
            },
            LoopAction::AwaitPresence { forget } => LoopAction::AwaitPresence {
                forget: addr_view(*forget),
            },
            LoopAction::Dial { addr, peer, limit_ms } => LoopAction::Dial {
                addr: addr@,
                peer: peer@,
                limit_ms: *limit_ms,
            },
            LoopAction::AskSignal => LoopAction::AskSignal,
            LoopAction::AskTrust { peer } => LoopAction::AskTrust { peer: peer@ },
            LoopAction::Handshake { peer } => LoopAction::Handshake { peer: peer@ },
            LoopAction::RunSession { peer, busy } => LoopAction::RunSession {
                peer: peer@,
                busy: keys::key_view(*busy),
            },
            LoopAction::Rest { ms, nudgeable, announce, forget } => LoopAction::Rest {
                ms: *ms,
                nudgeable: *nudgeable,
                announce: *announce,
                forget: addr_view(*forget),
            },
        }
    }
}

pub type SpecAction = LoopAction<Seq<u8>, Seq<u8>>;

pub type SpecEvent = LoopEvent<Seq<u8>, Seq<u8>, Seq<Seq<u8>>>;

/// A rest of `ms` milliseconds.
pub open spec fn rest(ms: u64, nudgeable: bool, forget: Option<Seq<u8>>) -> SpecAction {
    LoopAction::Rest { ms, nudgeable, announce: false, forget }
}

/// How long to rest after the `n`th failed handshake in a row, in milliseconds.
pub open spec fn ik_backoff_ms(n: u32) -> u64 {
    if n <= 1 {
        3_000
    } else if n == 2 {
        10_000
    } else if n == 3 {
        30_000
    } else {
        60_000
    }
}

/// One more than `n`, but not above the largest number.
pub open spec fn bumped(n: u32) -> u32 {
    if n == u32::MAX {
        n
    } else {
        (n + 1) as u32
    }
}

/// The remembered address is that of a peer which the user has switched away
/// from, and the peer that owns the session now is trusted.
pub open spec fn shortcut_is_stale(
    st: LinkLoopView,
    owner: Option<Seq<u8>>,
    peers: Seq<Seq<u8>>,
) -> bool {
    match (owner, st.last_rpa) {
        (Some(active), Some((_, remembered))) => remembered != active && peers.contains(active),
        _ => false,
    }
}

/// The phone answered: the loop goes on with it, unless it was not trusted when the
/// round began.
pub open spec fn answered(st: LinkLoopView, peer: Seq<u8>) -> (LinkLoopView, SpecAction) {
    let st = LinkLoopView { connect_fails: 0, ..st };
    if st.peers.contains(peer) {
        (LinkLoopView { peer, ..st }, LoopAction::AskSignal)
    } else {
        (st, LoopAction::ListPeers)
    }
}

/// No connection came about: a short rest, or after many failures in a row a
/// longer one and a fresh search.
pub open spec fn unanswered(
    st: LinkLoopView,
    forget: Option<Seq<u8>>,
) -> (LinkLoopView, SpecAction) {
    if st.connect_fails >= CONNECT_WEDGE_THRESHOLD {
        (LinkLoopView { connect_fails: 0, last_rpa: None, ..st }, rest(5_000, false, forget))
    } else {
        (st, rest(1_000, false, forget))
    }
}

/// The machine: what the loop remembers and does after an event.
pub open spec fn loop_step(
    st: LinkLoopView,
    arb: arbiter::ArbiterView,
    ev: SpecEvent,
) -> (LinkLoopView, SpecAction) {
    match ev {
        LoopEvent::Rested => (st, LoopAction::ListPeers),
        LoopEvent::Peers(peers) => if peers.len() == 0 {
            (
                LinkLoopView { announced_no_peer: true, peers, ..st },
                LoopAction::Rest {
                    ms: 10_000,
                    nudgeable: false,
                    announce: !st.announced_no_peer,
                    forget: None,
                },
            )
        } else {
            (
                LinkLoopView {
                    announced_no_peer: false,
                    peers,
                    waited_ms: 0,
                    last_rpa: if shortcut_is_stale(st, arb.active, peers) {
                        None
                    } else {
                        st.last_rpa
                    },
                    ..st
                },
                LoopAction::AskPower,
            )
        },
        LoopEvent::Powered(on) => (
            st,
            if on {
                LoopAction::AskSwitch { after_ms: 0 }
            } else {
                LoopAction::PowerOn
            },
        ),
        LoopEvent::PoweredOn(ok) => (
            st,
            if ok {
                LoopAction::AskSwitch { after_ms: 0 }
            } else {
                rest(30_000, true, None)
            },
        ),
        LoopEvent::SwitchIdle(idle) => if !idle && st.waited_ms < SWITCH_WAIT_MS {
            (
                LinkLoopView { waited_ms: (st.waited_ms + 400) as u64, ..st },
                LoopAction::AskSwitch { after_ms: 400 },
            )
        } else {
            (
                st,
                match st.last_rpa {
                    Some((addr, peer)) => LoopAction::FastDial { addr, peer, limit_ms: 3_000 },
                    None => LoopAction::AwaitPresence { forget: None },
                },
            )
        },
        LoopEvent::FastDialled(ok) => match st.last_rpa {
            Some((addr, peer)) => if ok {
                answered(st, peer)
            } else {
                (st, LoopAction::AwaitPresence { forget: Some(addr) })
            },
            None => (st, LoopAction::AwaitPresence { forget: None }),
        },
        LoopEvent::Presence(found) => match found {
            Some((addr, peer)) => (st, LoopAction::Dial { addr, peer, limit_ms: 8_000 }),
            None => unanswered(st, None),
        },
        LoopEvent::Dialled { addr, peer, ok } => if ok {
            answered(LinkLoopView { last_rpa: Some((addr, peer)), ..st }, peer)
        } else {
            unanswered(
                LinkLoopView {
                    connect_fails: bumped(st.connect_fails),
                    last_rpa: match st.last_rpa {
                        Some((a, k)) => if a == addr {
                            None
                        } else {
                            st.last_rpa
                        },
                        None => None,
                    },
                    ..st
                },
                Some(addr),
            )
        },
        LoopEvent::Signal(offered) => (
            st,
            if offered {
                LoopAction::AskTrust { peer: st.peer }
            } else {
                rest(30_000, false, None)
            },
        ),
        LoopEvent::Trusted(still) => (
            st,
            if still {
                LoopAction::Handshake { peer: st.peer }
            } else {
                LoopAction::ListPeers
            },
        ),
        LoopEvent::HandshakeFailed => (
            LinkLoopView { ik_fails: bumped(st.ik_fails), ..st },
            rest(ik_backoff_ms(bumped(st.ik_fails)), true, None),
        ),
        LoopEvent::HandshakeDone { ciphers } => (
            LinkLoopView { ik_fails: 0, ..st },
            if ciphers {
                LoopAction::RunSession { peer: st.peer, busy: arbiter::claim_result(arb, st.peer) }
            } else {
                rest(5_000, false, None)
            },
        ),
        LoopEvent::SessionEnded => (st, rest(500, false, None)),
    }
}

/// Who owns the session after an event: a handshake proves that the peer is
/// connected, and asks for the session on its behalf.
pub open spec fn loop_arbiter(
    st: LinkLoopView,
    arb: arbiter::ArbiterView,
    ev: SpecEvent,
) -> arbiter::ArbiterView {
    if ev is HandshakeDone {
        arbiter::ArbiterView {
            connected: arb.connected.insert(st.peer),
            active: if arb.active is None {
                Some(st.peer)
            } else {
                arb.active
            },
            ..arb
        }
    } else {
        arb
    }
}

/// Before the first round: nothing is remembered, and no peer has answered, which
/// the key of zeros stands for.
pub open spec fn fresh_loop(st: LinkLoopView) -> bool {
    &&& st.last_rpa is None
    &&& st.ik_fails == 0
    &&& st.connect_fails == 0
    &&& !st.announced_no_peer
    &&& st.waited_ms == 0
    &&& st.peers.len() == 0
    &&& st.peer == Seq::new(32, |i: int| 0u8)
}

fn same_addr(a: &[u8; 6], b: &[u8; 6]) -> (r: bool)
    ensures
        r == (a@ == b@),
{
    let mut i: usize = 0;
    while i < 6
        invariant
            i <= 6,
            forall|j: int| 0 <= j < i ==> a@[j] == b@[j],
        decreases 6 - i,
    {
        if a[i] != b[i] {
            return false;
        }
        i += 1;
    }
    assert(a@ =~= b@);
    true
}

fn rest_for(ms: u64, nudgeable: bool, forget: Option<[u8; 6]>) -> (r: LoopAction)
    ensures
        r@ == rest(ms, nudgeable, addr_view(forget)),
{
    LoopAction::Rest { ms, nudgeable, announce: false, forget }
}

impl LinkLoop {
    /// Before the first round.
    pub fn new() -> (r: Self)
        ensures
            fresh_loop(r@),
    {
        let r = LinkLoop {
            last_rpa: None,
            ik_fails: 0,
            connect_fails: 0,
            announced_no_peer: false,
            waited_ms: 0,
            peers: Vec::new(),
            peer: [0u8;32],
        };
        assert(r@.peer =~= Seq::new(32, |i: int| 0u8));
        r
    }

    fn on_peers(&mut self, peers: Vec<[u8; 32]>, arbiter: &Arbiter) -> (r: LoopAction)
        ensures
            (final(self)@, r@) == loop_step(
                old(self)@,
                arbiter@,
                LoopEvent::Peers(keys::keys_view(peers@)),
            ),
    {
        if peers.len() == 0 {
            let announce = !self.announced_no_peer;
            self.announced_no_peer = true;
            self.peers = peers;
            return LoopAction::Rest { ms: 10_000, nudgeable: false, announce, forget: None };
        }
        self.announced_no_peer = false;
        self.waited_ms = 0;
        let owner: Option<[u8; 32]> = arbiter.active();
        let stale = match (owner, self.last_rpa) {
            (Some(active), Some((_, remembered))) => !same_key(&remembered, &active)
                && position_of(&peers, &active).is_some(),
            _ => false,
        };
        if stale {
            self.last_rpa = None;
        }
        self.peers = peers;
        LoopAction::AskPower
    }

    fn on_answer(&mut self, peer: [u8; 32]) -> (r: LoopAction)
        ensures
            (final(self)@, r@) == answered(old(self)@, peer@),
    {
        self.connect_fails = 0;
        match position_of(&self.peers, &peer) {
            Some(_) => {
                self.peer = peer;
                LoopAction::AskSignal
            },
            None => LoopAction::ListPeers,
        }
    }

    fn on_no_answer(&mut self, forget: Option<[u8; 6]>) -> (r: LoopAction)
        ensures
            (final(self)@, r@) == unanswered(old(self)@, addr_view(forget)),
    {
        if self.connect_fails >= CONNECT_WEDGE_THRESHOLD {
            self.connect_fails = 0;
            self.last_rpa = None;
            return rest_for(5_000, false, forget);
        }
        rest_for(1_000, false, forget)
    }

    fn on_dialled(&mut self, addr: [u8; 6], peer: [u8; 32], ok: bool, Ghost(arb): Ghost<
        arbiter::ArbiterView,
    >) -> (r: LoopAction)
        ensures
            (final(self)@, r@) == loop_step(
                old(self)@,
                arb,
                LoopEvent::Dialled { addr: addr@, peer: peer@, ok },
            ),
    {
        if ok {
            self.last_rpa = Some((addr, peer));
            return self.on_answer(peer);
        }
        let same = match self.last_rpa {
            Some((a, _)) => same_addr(&a, &addr),
            None => false,
        };
        if same {
            self.last_rpa = None;
        }
        if self.connect_fails < u32::MAX {
            self.connect_fails = self.connect_fails + 1;
        }
        self.on_no_answer(Some(addr))
    }

    fn on_handshake(&mut self, ciphers: bool, arbiter: &mut Arbiter) -> (r: LoopAction)
        ensures
            (final(self)@, r@) == loop_step(
                old(self)@,
                old(arbiter)@,
                LoopEvent::HandshakeDone { ciphers },
            ),
            final(arbiter)@ == loop_arbiter(
                old(self)@,
                old(arbiter)@,
                LoopEvent::HandshakeDone { ciphers },
            ),
    {
        self.ik_fails = 0;
        arbiter.note_connected(&self.peer);
        let busy: Option<[u8; 32]> = match arbiter.claim(&self.peer) {
            Claim::Granted => None,
            Claim::Busy { current } => Some(current),
        };
        if ciphers {
            LoopAction::RunSession { peer: self.peer, busy }
        } else {
            rest_for(5_000, false, None)
        }
    }

    /// Takes in what came of the last action, and says what to do next.
    pub fn step(&mut self, ev: LoopEvent, arbiter: &mut Arbiter) -> (r: LoopAction)
        ensures
            (final(self)@, r@) == loop_step(old(self)@, old(arbiter)@, ev@),
            final(arbiter)@ == loop_arbiter(old(self)@, old(arbiter)@, ev@),
    {
        match ev {
            LoopEvent::Rested => LoopAction::ListPeers,
            LoopEvent::Peers(peers) => self.on_peers(peers, arbiter),
            LoopEvent::Powered(on) => if on {
                LoopAction::AskSwitch { after_ms: 0 }
            } else {
                LoopAction::PowerOn
            },
            LoopEvent::PoweredOn(ok) => if ok {
                LoopAction::AskSwitch { after_ms: 0 }
            } else {
                rest_for(30_000, true, None)
            },
            LoopEvent::SwitchIdle(idle) => {
                if !idle && self.waited_ms < SWITCH_WAIT_MS {
                    self.waited_ms = self.waited_ms + 400;
                    return LoopAction::AskSwitch { after_ms: 400 };
                }
                match self.last_rpa {
                    Some((addr, peer)) => LoopAction::FastDial { addr, peer, limit_ms: 3_000 },
                    None => LoopAction::AwaitPresence { forget: None },
                }
            },
            LoopEvent::FastDialled(ok) => match self.last_rpa {
                Some((addr, peer)) => if ok {
                    self.on_answer(peer)
                } else {
                    LoopAction::AwaitPresence { forget: Some(addr) }
                },
                None => LoopAction::AwaitPresence { forget: None },
            },
            LoopEvent::Presence(found) => match found {
                Some((addr, peer)) => LoopAction::Dial { addr, peer, limit_ms: 8_000 },
                None => self.on_no_answer(None),
            },
            LoopEvent::Dialled { addr, peer, ok } => self.on_dialled(
                addr,
                peer,
                ok,
                Ghost(arbiter@),
            ),
            LoopEvent::Signal(offered) => if offered {
                LoopAction::AskTrust { peer: self.peer }
            } else {
                rest_for(30_000, false, None)
            },
            LoopEvent::Trusted(still) => if still {
                LoopAction::Handshake { peer: self.peer }
            } else {
                LoopAction::ListPeers
            },
            LoopEvent::HandshakeFailed => {
                if self.ik_fails < u32::MAX {
                    self.ik_fails = self.ik_fails + 1;
                }
                let ms: u64 = if self.ik_fails <= 1 {
                    3_000
                } else if self.ik_fails == 2 {
                    10_000
                } else if self.ik_fails == 3 {
                    30_000
                } else {
                    60_000
                };
                rest_for(ms, true, None)
            },
            LoopEvent::HandshakeDone { ciphers } => self.on_handshake(ciphers, arbiter),
            LoopEvent::SessionEnded => rest_for(500, false, None),
        }
    }
}

/// The loop authenticates only with peers that it trusts: it goes on only with a
/// peer that was trusted when the round began, and it starts a handshake only when
/// the store has just said that the record of that very peer still stands. A peer
/// that was forgotten while the dial was under way is dropped, and the loop begins
/// another round.
pub proof fn lemma_only_trusted_peers(
    st: LinkLoopView,
    arb: arbiter::ArbiterView,
    ev: SpecEvent,
)
    ensures
        ({
            let (next, action) = loop_step(st, arb, ev);
            &&& action is AskSignal ==> next.peers.contains(next.peer)
            &&& action is AskTrust ==> action->AskTrust_peer == next.peer && next.peer == st.peer
            &&& action is Handshake ==> ev == SpecEvent::Trusted(true) && action->Handshake_peer
                == st.peer && next == st
            &&& ev == SpecEvent::Trusted(false) ==> action is ListPeers && next == st
            &&& action is RunSession ==> action->RunSession_peer == st.peer
        }),
{
}

/// An explicit switch is honoured: in the round after it, the loop does not dial
/// the address of the peer that the user moved away from.
pub proof fn lemma_switch_is_honoured(
    st: LinkLoopView,
    arb: arbiter::ArbiterView,
    peers: Seq<Seq<u8>>,
)
    requires
        peers.len() > 0,
        arb.active is Some,
        peers.contains(arb.active->0),
    ensures
        ({
            let next = loop_step(st, arb, LoopEvent::Peers(peers)).0;
            next.last_rpa is Some ==> (next.last_rpa->0).1 == arb.active->0
        }),
{
}

/// A dead address is not dialled again from memory.
pub proof fn lemma_dead_address_is_dropped(
    st: LinkLoopView,
    arb: arbiter::ArbiterView,
    addr: Seq<u8>,
    peer: Seq<u8>,
)
    ensures
        ({
            let next = loop_step(st, arb, LoopEvent::Dialled { addr, peer, ok: false }).0;
            next.last_rpa is Some ==> (next.last_rpa->0).0 != addr
        }),
{
}

/// The loop neither spins nor sleeps through: every rest lasts between half a
/// second and a minute.
pub proof fn lemma_rests_are_bounded(st: LinkLoopView, arb: arbiter::ArbiterView, ev: SpecEvent)
    ensures
        loop_step(st, arb, ev).1 matches LoopAction::Rest { ms, .. } ==> 500 <= ms <= 60_000,
{
}

/// Failed handshakes in a row never shorten the rest.
pub proof fn lemma_backoff_grows(m: u32, n: u32)
    requires
        m <= n,
    ensures
        ik_backoff_ms(m) <= ik_backoff_ms(n),
{
}

/// What to do after a state report to the phone.
#[derive(Clone, Copy, PartialEq, Eq, Structural, Debug)]
pub enum BeatAction {
    /// The report arrived: the phone is there. `first` asks for a note of the
    /// first one. The next report follows after `ms`, or earlier on a nudge.
    Alive { first: bool, ms: u64 },
    /// The bearer was busy, which takes a live link: the phone is there. `note`
    /// says how loudly to mention it.
    Busy { note: BusyNote, ms: u64 },
    /// The report failed; try again after `ms`.
    Retry { ms: u64 },
    /// The link is gone: drop the device, and stop.
    Stop,
}

/// How loudly a busy bearer is mentioned.
#[derive(Clone, Copy, PartialEq, Eq, Structural, Debug)]
pub enum BusyNote {
    First,
    Long,
    Silent,
}

/// How long the phone is given to set up its cipher before the first report, in
/// milliseconds.
pub const BEAT_START_MS: u64 = 1_500;

/// After this many failed reports in a row the session counts as gone.
pub const STATE_PUSH_MAX_FAILS: u32 = 6;

/// The state reports of one session.
#[derive(Clone, Copy)]
pub struct StateBeat {
    /// No report has arrived yet.
    pub first: bool,
    /// Reports in a row that failed because the link was gone.
    pub fails: u32,
    /// Reports that found the bearer busy since then.
    pub busy: u32,
}

/// What comes of a report: `err` is the text of its failure, if it failed.
pub open spec fn beat_step(st: StateBeat, err: Option<Seq<char>>) -> (StateBeat, BeatAction) {
    match err {
        None => (
            StateBeat { first: false, fails: 0, ..st },
            BeatAction::Alive { first: st.first, ms: 12_000 },
        ),
        Some(e) => if !tells_gone(e) {
            let busy = bumped(st.busy);
            (
                StateBeat { busy, ..st },
                BeatAction::Busy {
                    note: if busy == 1 {
                        BusyNote::First
                    } else if busy % 20 == 0 {
                        BusyNote::Long
                    } else {
                        BusyNote::Silent
                    },
                    ms: 1_500,
                },
            )
        } else {
            let fails = bumped(st.fails);
            (
                StateBeat { busy: 0, fails, ..st },
                if fails >= STATE_PUSH_MAX_FAILS {
                    BeatAction::Stop
                } else {
                    BeatAction::Retry { ms: 500 }
                },
            )
        },
    }
}

impl StateBeat {
    /// No report was sent yet.
    pub fn new() -> (r: Self)
        ensures
            r == (StateBeat { first: true, fails: 0, busy: 0 }),
    {
        StateBeat { first: true, fails: 0, busy: 0 }
    }

    /// A report was sent; `err` is the text of its failure, if it failed.
    pub fn on_write(&mut self, err: Option<&str>) -> (r: BeatAction)
        ensures
            (*final(self), r) == beat_step(
                *old(self),
                match err {
                    Some(e) => Some(e@),
                    None => None,
                },
            ),
    {
        match err {
            None => {
                let first = self.first;
                self.first = false;
                self.fails = 0;
                BeatAction::Alive { first, ms: 12_000 }
            },
            Some(e) => {
                if !state_write_means_link_gone(e) {
                    if self.busy < u32::MAX {
                        self.busy = self.busy + 1;
                    }
                    let note = if self.busy == 1 {
                        BusyNote::First
                    } else if self.busy % 20 == 0 {
                        BusyNote::Long
                    } else {
                        BusyNote::Silent
                    };
                    return BeatAction::Busy { note, ms: 1_500 };
                }
                self.busy = 0;
                if self.fails < u32::MAX {
                    self.fails = self.fails + 1;
                }
                if self.fails >= STATE_PUSH_MAX_FAILS {
                    BeatAction::Stop
                } else {
                    BeatAction::Retry { ms: 500 }
                }
            },
        }
    }
}

/// A busy bearer never ends a session: whatever was counted before, a failure
/// that does not tell of a lost link keeps it.
pub proof fn lemma_busy_keeps_link(st: StateBeat, err: Seq<char>)
    requires
        !tells_gone(err),
    ensures
        !(beat_step(st, Some(err)).1 is Stop),
        beat_step(st, Some(err)).0.fails == st.fails,
{
}

/// A session ends only after six failures in a row: a report that arrives starts
/// the count over.
pub proof fn lemma_success_starts_over(st: StateBeat, err: Seq<char>)
    ensures
        beat_step(st, None).0.fails == 0,
        !(beat_step(beat_step(st, None).0, Some(err)).1 is Stop),
{
}

/// A phone that was reached before is reached again at the address where it was:
/// that address is dialled first, and when the dial succeeds the connection is used,
/// with the peer that it was made to. Nothing is thrown away then, and no search
/// begins. Only when the dial fails is the address given up and the phone looked
/// for.
pub proof fn lemma_remembered_phone_is_used(
    st: LinkLoopView,
    arb: arbiter::ArbiterView,
    addr: Seq<u8>,
    peer: Seq<u8>,
)
    requires
        st.last_rpa == Some((addr, peer)),
    ensures
        loop_step(st, arb, LoopEvent::SwitchIdle(true)) == (
            st,
            LoopAction::FastDial { addr, peer, limit_ms: 3_000u64 },
        ),
        st.peers.contains(peer) ==> loop_step(st, arb, LoopEvent::FastDialled(true)) == (
            LinkLoopView { peer, connect_fails: 0, ..st },
            LoopAction::<Seq<u8>, Seq<u8>>::AskSignal,
        ),
        !st.peers.contains(peer) ==> loop_step(st, arb, LoopEvent::FastDialled(true)) == (
            LinkLoopView { connect_fails: 0, ..st },
            LoopAction::<Seq<u8>, Seq<u8>>::ListPeers,
        ),
        loop_step(st, arb, LoopEvent::FastDialled(false)) == (
            st,
            LoopAction::<Seq<u8>, Seq<u8>>::AwaitPresence { forget: Some(addr) },
        ),
{
}

/// The phone is looked for only where no address is remembered, or where the one
/// that is remembered could not be reached.
pub proof fn lemma_search_is_the_last_resort(
    st: LinkLoopView,
    arb: arbiter::ArbiterView,
    ev: SpecEvent,
)
    ensures
        loop_step(st, arb, ev).1 is AwaitPresence ==> {
            ||| st.last_rpa is None && (ev is SwitchIdle || ev is FastDialled)
            ||| ev == SpecEvent::FastDialled(false)
        },
        st.last_rpa is None ==> loop_step(st, arb, LoopEvent::SwitchIdle(true)) == (
            st,
            LoopAction::<Seq<u8>, Seq<u8>>::AwaitPresence { forget: None },
        ),
        forall|ok: bool|
            st.last_rpa is None ==> #[trigger] loop_step(st, arb, LoopEvent::FastDialled(ok)) == (
                st,
                LoopAction::<Seq<u8>, Seq<u8>>::AwaitPresence { forget: None },
            ),
{
}

/// A trusted phone that is found on air is dialled where it was found, and once it
/// answers the loop goes on with it and remembers the address for the next time.
pub proof fn lemma_found_phone_is_dialled(
    st: LinkLoopView,
    arb: arbiter::ArbiterView,
    addr: Seq<u8>,
    peer: Seq<u8>,
)
    ensures
        loop_step(st, arb, LoopEvent::Presence(Some((addr, peer)))) == (
            st,
            LoopAction::Dial { addr, peer, limit_ms: 8_000u64 },
        ),
        st.peers.contains(peer) ==> loop_step(
            st,
            arb,
            LoopEvent::Dialled { addr, peer, ok: true },
        ) == (
            LinkLoopView { last_rpa: Some((addr, peer)), peer, connect_fails: 0, ..st },
            LoopAction::<Seq<u8>, Seq<u8>>::AskSignal,
        ),
        !st.peers.contains(peer) ==> loop_step(
            st,
            arb,
            LoopEvent::Dialled { addr, peer, ok: true },
        ) == (
            LinkLoopView { last_rpa: Some((addr, peer)), connect_fails: 0, ..st },
            LoopAction::<Seq<u8>, Seq<u8>>::ListPeers,
        ),
{
}

/// A dial that fails is counted, its address is dropped, and a second later another
/// round begins. With the sixth failure in a row the loop rests five seconds, forgets
/// where the phone was, and counts from zero again. A search without a find does the
/// same but counts as no failed dial.
pub proof fn lemma_failed_dials(
    st: LinkLoopView,
    arb: arbiter::ArbiterView,
    addr: Seq<u8>,
    peer: Seq<u8>,
)
    requires
        st.connect_fails < 6,
    ensures
        ({
            let (next, action) = loop_step(st, arb, LoopEvent::Dialled { addr, peer, ok: false });
            &&& action == (LoopAction::<Seq<u8>, Seq<u8>>::Rest {
                ms: if st.connect_fails == 5 {
                    5_000u64
                } else {
                    1_000
                },
                nudgeable: false,
                announce: false,
                forget: Some(addr),
            })
            &&& next == (LinkLoopView {
                connect_fails: if st.connect_fails == 5 {
                    0
                } else {
                    (st.connect_fails + 1) as u32
                },
                last_rpa: next.last_rpa,
                ..st
            })
            &&& st.connect_fails == 5 ==> next.last_rpa is None
            &&& st.connect_fails < 5 && st.last_rpa is Some && (st.last_rpa->0).0 != addr
                ==> next.last_rpa == st.last_rpa
        }),
        loop_step(st, arb, LoopEvent::Presence(None)) == (
            st,
            LoopAction::<Seq<u8>, Seq<u8>>::Rest {
                ms: 1_000,
                nudgeable: false,
                announce: false,
                forget: None,
            },
        ),
{
}

/// After a session the loop comes back at once: it rests for half a second, keeps all
/// that it knows, the address of the phone with it, and begins the next round.
pub proof fn lemma_session_end_forgets_nothing(st: LinkLoopView, arb: arbiter::ArbiterView)
    ensures
        loop_step(st, arb, LoopEvent::SessionEnded) == (
            st,
            LoopAction::<Seq<u8>, Seq<u8>>::Rest {
                ms: 500,
                nudgeable: false,
                announce: false,
                forget: None,
            },
        ),
        loop_step(st, arb, LoopEvent::Rested) == (st, LoopAction::<Seq<u8>, Seq<u8>>::ListPeers),
{
}

/// The usual reconnect: when the phone of the last session is still trusted, owns the
/// session or nobody does, and everything succeeds, each event leads to the next step,
/// up to a session with that very phone, and the counts of failures end at zero.
pub proof fn lemma_reconnect_reaches_a_session(
    st: LinkLoopView,
    arb: arbiter::ArbiterView,
    addr: Seq<u8>,
    peer: Seq<u8>,
    peers: Seq<Seq<u8>>,
)
    requires
        st.last_rpa == Some((addr, peer)),
        peers.contains(peer),
        arb.active is None || arb.active == Some(peer),
    ensures
        ({
            let s1 = loop_step(st, arb, LoopEvent::Peers(peers));
            let s2 = loop_step(s1.0, arb, LoopEvent::Powered(true));
            let s3 = loop_step(s2.0, arb, LoopEvent::SwitchIdle(true));
            let s4 = loop_step(s3.0, arb, LoopEvent::FastDialled(true));
            let s5 = loop_step(s4.0, arb, LoopEvent::Signal(true));
            let s6 = loop_step(s5.0, arb, LoopEvent::Trusted(true));
            let s7 = loop_step(s6.0, arb, LoopEvent::HandshakeDone { ciphers: true });
            let owner = loop_arbiter(s6.0, arb, LoopEvent::HandshakeDone { ciphers: true });
            &&& s1.1 is AskPower
            &&& s2.1 == SpecAction::AskSwitch { after_ms: 0 }
            &&& s3.1 == (SpecAction::FastDial { addr, peer, limit_ms: 3_000 })
            &&& s4.1 is AskSignal
            &&& s5.1 == SpecAction::AskTrust { peer }
            &&& s6.1 == SpecAction::Handshake { peer }
            &&& s7.1 == SpecAction::RunSession { peer, busy: None }
            &&& s7.0.connect_fails == 0 && s7.0.ik_fails == 0
            &&& s7.0.last_rpa == Some((addr, peer))
            &&& owner.active == Some(peer)
            &&& owner.connected.contains(peer)
        }),
{
    let i = choose|i: int| 0 <= i < peers.len() && peers[i] == peer;
    assert(peers.len() > 0);
}

/// The radio is put to use: it is powered on where it is off, and asked again half a
/// minute later where that fails. A phone without the signal characteristic is left
/// alone for half a minute.
pub proof fn lemma_radio_is_needed(st: LinkLoopView, arb: arbiter::ArbiterView)
    ensures
        loop_step(st, arb, LoopEvent::Powered(true)) == (st, SpecAction::AskSwitch { after_ms: 0 }),
        loop_step(st, arb, LoopEvent::Powered(false)) == (st, SpecAction::PowerOn),
        loop_step(st, arb, LoopEvent::PoweredOn(true)) == (
            st,
            SpecAction::AskSwitch { after_ms: 0 },
        ),
        loop_step(st, arb, LoopEvent::PoweredOn(false)) == (
            st,
            SpecAction::Rest { ms: 30_000, nudgeable: true, announce: false, forget: None },
        ),
        loop_step(st, arb, LoopEvent::Signal(true)) == (st, SpecAction::AskTrust { peer: st.peer }),
        loop_step(st, arb, LoopEvent::Signal(false)) == (
            st,
            SpecAction::Rest { ms: 30_000, nudgeable: false, announce: false, forget: None },
        ),
        loop_step(st, arb, LoopEvent::Trusted(true)) == (
            st,
            SpecAction::Handshake { peer: st.peer },
        ),
        loop_step(st, arb, LoopEvent::Trusted(false)) == (st, SpecAction::ListPeers),
{
}

/// A round begins with the trusted peers. Without any the loop rests ten seconds and
/// says so once, not in every round. With some it goes on, remembers them, and keeps
/// the address that it knows, unless that is of a peer which the user switched away
/// from to another one that is trusted.
pub proof fn lemma_round_begins_with_the_peers(
    st: LinkLoopView,
    arb: arbiter::ArbiterView,
    peers: Seq<Seq<u8>>,
)
    ensures
        ({
            let (next, action) = loop_step(st, arb, LoopEvent::Peers(peers));
            &&& next.peers == peers
            &&& next.ik_fails == st.ik_fails && next.connect_fails == st.connect_fails && next.peer
                == st.peer
            &&& peers.len() == 0 ==> {
                &&& action == (SpecAction::Rest {
                    ms: 10_000,
                    nudgeable: false,
                    announce: !st.announced_no_peer,
                    forget: None,
                })
                &&& next.announced_no_peer
                &&& next.last_rpa == st.last_rpa
            }
            &&& peers.len() > 0 ==> {
                &&& action is AskPower
                &&& !next.announced_no_peer
                &&& next.waited_ms == 0
                &&& next.last_rpa == st.last_rpa || next.last_rpa is None
                &&& st.last_rpa is Some ==> (next.last_rpa is None <==> arb.active is Some && (
                st.last_rpa->0).1 != arb.active->0 && peers.contains(arb.active->0))
            }
        }),
{
}

/// Dialling waits for an audio switch that is under way, but only so long: it asks
/// again every 400 milliseconds, and after twenty seconds it goes on as if there were
/// none.
pub proof fn lemma_switch_is_waited_for(st: LinkLoopView, arb: arbiter::ArbiterView)
    ensures
        st.waited_ms < 20_000 ==> loop_step(st, arb, LoopEvent::SwitchIdle(false)) == (
            LinkLoopView { waited_ms: (st.waited_ms + 400) as u64, ..st },
            SpecAction::AskSwitch { after_ms: 400 },
        ),
        st.waited_ms >= 20_000 ==> loop_step(st, arb, LoopEvent::SwitchIdle(false)) == loop_step(
            st,
            arb,
            LoopEvent::SwitchIdle(true),
        ),
        !(loop_step(st, arb, LoopEvent::SwitchIdle(true)).1 is AskSwitch),
        loop_step(st, arb, LoopEvent::SwitchIdle(true)).0 == st,
{
}

/// Handshakes that fail one after the other make the loop rest for 3, 10, 30 and then
/// always 60 seconds, and a nudge may end each of these rests. One that succeeds ends
/// the row.
pub proof fn lemma_handshake_rests(st: LinkLoopView, arb: arbiter::ArbiterView, ciphers: bool)
    ensures
        ({
            let (next, action) = loop_step(st, arb, LoopEvent::HandshakeFailed);
            &&& next == (LinkLoopView { ik_fails: next.ik_fails, ..st })
            &&& st.ik_fails < u32::MAX ==> next.ik_fails == st.ik_fails + 1
            &&& st.ik_fails == u32::MAX ==> next.ik_fails == u32::MAX
            &&& action is Rest && action->nudgeable && action->Rest_forget is None
                && !action->announce
            &&& st.ik_fails == 0 ==> action->ms == 3_000
            &&& st.ik_fails == 1 ==> action->ms == 10_000
            &&& st.ik_fails == 2 ==> action->ms == 30_000
            &&& st.ik_fails > 2 ==> action->ms == 60_000
        }),
        loop_step(st, arb, LoopEvent::HandshakeDone { ciphers }).0 == (LinkLoopView {
            ik_fails: 0,
            ..st
        }),
        loop_step(st, arb, LoopEvent::HandshakeDone { ciphers: false }).1 == (SpecAction::Rest {
            ms: 5_000,
            nudgeable: false,
            announce: false,
            forget: None,
        }),
{
}

/// Who runs the session once the handshake succeeded: the peer that answered. It is
/// told of another peer as the owner exactly when another one owns the session;
/// otherwise the session is its own from then on. Nothing but a handshake moves
/// ownership, and no owner loses it by one.
pub proof fn lemma_session_has_an_owner(
    st: LinkLoopView,
    arb: arbiter::ArbiterView,
    ciphers: bool,
    ev: SpecEvent,
)
    ensures
        ({
            let done = SpecEvent::HandshakeDone { ciphers };
            let after = loop_arbiter(st, arb, done);
            let action = loop_step(st, arb, SpecEvent::HandshakeDone { ciphers: true }).1;
            &&& action is RunSession && action->RunSession_peer == st.peer
            &&& arb.active is Some && arb.active->0 != st.peer ==> action->busy == arb.active
            &&& arb.active is None || arb.active->0 == st.peer ==> action->busy is None
            &&& arb.active is None ==> after.active == Some(st.peer)
            &&& arb.active is Some ==> after.active == arb.active
            &&& after.connected == arb.connected.insert(st.peer)
            &&& after.switching_until == arb.switching_until
        }),
        !(ev is HandshakeDone) ==> loop_arbiter(st, arb, ev) == arb,
{
}

/// What tells that the link is gone: any text that holds one of these phrases, in
/// capitals or small letters, and no other.
pub proof fn lemma_phrases_of_a_lost_link(err: Seq<char>, at: int, phrase: Seq<char>)
    ensures
        ({
            let low = Seq::new(
                err.len(),
                |i: int|
                    if 'A' <= err[i] <= 'Z' {
                        (err[i] as u32 + 32) as char
                    } else {
                        err[i]
                    },
            );
            &&& 0 <= at && at + phrase.len() <= err.len() && low.subrange(
                at,
                at + phrase.len() as int,
            ) == phrase && (phrase == "not connected"@ || phrase == "notconnected"@ || phrase
                == "does not exist"@ || phrase == "doesnotexist"@ || phrase == "unknown object"@
                || phrase == "unknownobject"@ || phrase == "no such device"@ || phrase
                == "object removed"@ || phrase == "not present or removed"@ || phrase
                == "disconnected"@) ==> tells_gone(err)
            &&& tells_gone(err) ==> exists|i: int, w: Seq<char>|
                {
                    &&& 0 <= i <= i + w.len() <= err.len()
                    &&& low.subrange(i, i + w.len() as int) == w
                    &&& #[trigger] is_at(low, w, i)
                    &&& w == "not connected"@ || w == "notconnected"@ || w == "does not exist"@ || w
                        == "doesnotexist"@ || w == "unknown object"@ || w == "unknownobject"@ || w
                        == "no such device"@ || w == "object removed"@ || w
                        == "not present or removed"@ || w == "disconnected"@
                }
        }),
{
    let low = Seq::new(
        err.len(),
        |i: int|
            if 'A' <= err[i] <= 'Z' {
                (err[i] as u32 + 32) as char
            } else {
                err[i]
            },
    );
    assert(text::ascii_lowered(err) =~= low);
    let w = gone_words();
    assert(w[0] == "not connected"@ && w[1] == "notconnected"@ && w[2] == "does not exist"@ && w[3]
        == "doesnotexist"@ && w[4] == "unknown object"@ && w[5] == "unknownobject"@ && w[6]
        == "no such device"@ && w[7] == "object removed"@ && w[8] == "not present or removed"@
        && w[9] == "disconnected"@);
    if 0 <= at && at + phrase.len() <= err.len() && low.subrange(at, at + phrase.len() as int)
        == phrase {
        assert(text::occurs_at(low, phrase, at));
        assert(text::contains_text(low, phrase));
    }
    if tells_gone(err) {
        let h = choose|i: int|
            0 <= i < w.len() && text::contains_text(text::ascii_lowered(err), #[trigger] w[i]);
        let i = choose|i: int| text::occurs_at(low, w[h], i);
        assert(is_at(low, w[h], i));
    }
}

/// `w` stands in `s` at character `i`.
pub open spec fn is_at(s: Seq<char>, w: Seq<char>, i: int) -> bool {
    0 <= i <= i + w.len() <= s.len() && s.subrange(i, i + w.len() as int) == w
}

/// The state of the reports after one that arrived and then `n` in a row that failed
/// because the link was gone.
pub open spec fn after_lost(st: StateBeat, err: Seq<char>, n: nat) -> StateBeat
    decreases n,
{
    if n == 0 {
        beat_step(st, None).0
    } else {
        beat_step(after_lost(st, err, (n - 1) as nat), Some(err)).0
    }
}

proof fn lemma_losses_are_counted(st: StateBeat, err: Seq<char>, n: nat)
    requires
        tells_gone(err),
        n <= 6,
    ensures
        after_lost(st, err, n).fails == n,
    decreases n,
{
    if n > 0 {
        lemma_losses_are_counted(st, err, (n - 1) as nat);
    }
}

/// The reports stop with the sixth in a row that found the link gone, and not before;
/// each of those before it is sent again half a second later.
pub proof fn lemma_sixth_loss_ends_the_session(st: StateBeat, err: Seq<char>, n: nat)
    requires
        tells_gone(err),
        1 <= n <= 6,
    ensures
        beat_step(after_lost(st, err, (n - 1) as nat), Some(err)).1 == if n == 6 {
            BeatAction::Stop
        } else {
            BeatAction::Retry { ms: 500 }
        },
{
    lemma_losses_are_counted(st, err, (n - 1) as nat);
}

/// A report that arrives is followed by the next after twelve seconds, and only the
/// first of a session is worth a note. One that finds the bearer busy is sent again
/// after a second and a half; the first of these is mentioned, then every twentieth.
pub proof fn lemma_beat_of_a_live_link(st: StateBeat, err: Seq<char>)
    ensures
        beat_step(st, None).1 == (BeatAction::Alive { first: st.first, ms: 12_000 }),
        !beat_step(st, None).0.first,
        beat_step(st, None).0.busy == st.busy,
        beat_step(st, Some(err)).0.first == st.first,
        !tells_gone(err) && st.busy < u32::MAX ==> {
            let (next, action) = beat_step(st, Some(err));
            &&& next.busy == st.busy + 1
            &&& action is Busy && action->Busy_ms == 1_500
            &&& action->note is First <==> st.busy == 0
            &&& action->note is Long <==> st.busy > 0 && (st.busy + 1) % 20 == 0
        },
        tells_gone(err) ==> beat_step(st, Some(err)).0.busy == 0,
{
}

/// The loop starts without any memory: it dials no address, counts no failure, and has
/// announced nothing.
pub proof fn lemma_fresh_loop_remembers_nothing(st: LinkLoopView)
    requires
        fresh_loop(st),
    ensures
        st.last_rpa is None,
        st.ik_fails == 0 && st.connect_fails == 0 && st.waited_ms == 0,
        !st.announced_no_peer,
        st.peers.len() == 0,
{
}

/// How long a switch of the earbuds holds the next round up, and when the first beat of a
/// session comes.
pub proof fn lemma_times_of_the_link()
    ensures
        SWITCH_WAIT_MS == 20_000,
        BEAT_START_MS == 1_500,
{
}

} // verus!
