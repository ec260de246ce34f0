//! The link to the phone on a desktop whose radio offers only the basics: list
//! what is bonded, scan, connect, read and write.
//!
//! Two machines work together. `PortableLoop` decides when to try and how long
//! to rest; `Attempt` is one try, from an address to a session and to its end.
//! Beside them stand the heartbeat of a session and the checks of a first
//! pairing.

use vstd::prelude::*;

use crate::arbiter;
use crate::arbiter::{Arbiter, Claim};
use crate::codec;
use crate::codec::hex_encode;
use crate::platform;
use crate::platform::{AdvCandidate, PeerAddr};
use crate::text;
use crate::text::decimal_text;

verus! {

/// How long a scan for a known phone runs, in milliseconds.
pub const SCAN_MS: u64 = 8_000;

/// How long a scan for a phone to pair with runs, in milliseconds.
pub const PAIR_SCAN_MS: u64 = 20_000;

/// How long to wait for a peer or for the radio, in seconds.
pub const IDLE_SECS: u64 = 10;

/// The rest, in seconds, after so many failures in a row.
pub open spec fn backoff(fails: usize) -> u64 {
    if fails == 0 {
        2
    } else if fails == 1 {
        5
    } else if fails == 2 {
        15
    } else if fails == 3 {
        30
    } else {
        60
    }
}

/// When to try for a link.
pub struct PortableLoop {
    /// Failed tries in a row.
    pub fails: usize,
    /// It was said that there is no peer.
    pub announced: bool,
    /// A session is up.
    pub link_up: bool,
}

/// What happened to the loop.
#[derive(Debug, Clone, Copy, PartialEq, Eq, Structural)]
pub enum LoopEvent {
    /// The loop starts, or a rest is over.
    Woken,
    /// The peer to connect to was looked up; there may be none.
    Peer { found: bool },
    /// The radio was asked whether it is there.
    Radio { ready: bool },
    /// A session began.
    Established,
    /// The try is over; `closed` says that there was a session and that it came to
    /// its natural end.
    Ended { closed: bool },
}

/// What the loop does next.
#[derive(Debug, Clone, Copy, PartialEq, Eq, Structural)]
pub enum LoopAction {
    PickPeer,
    AskRadio,
    Attempt,
    /// Rest for so long; `say` asks for a line in the log, which comes once.
    Rest { secs: u64, say: bool },
    /// Nothing but taking note.
    Note,
    /// Take back what was published for the session, wake the other link, and rest
    /// for so long, or until the phone shows up on the network.
    WindDown { secs: u64 },
}

/// What follows an event.
pub open spec fn loop_step(st: PortableLoop, ev: LoopEvent) -> (PortableLoop, LoopAction) {
    match ev {
        LoopEvent::Woken => (st, LoopAction::PickPeer),
        LoopEvent::Peer { found: true } => (
            PortableLoop { announced: false, ..st },
            LoopAction::AskRadio,
        ),
        LoopEvent::Peer { found: false } => (
            PortableLoop { announced: true, ..st },
            LoopAction::Rest { secs: IDLE_SECS, say: !st.announced },
        ),
        LoopEvent::Radio { ready: true } => (st, LoopAction::Attempt),
        LoopEvent::Radio { ready: false } => (
            st,
            LoopAction::Rest { secs: IDLE_SECS, say: false },
        ),
        LoopEvent::Established => (PortableLoop { link_up: true, ..st }, LoopAction::Note),
        LoopEvent::Ended { closed } => {
            let fails = if closed {
                0
            } else if st.fails == usize::MAX {
                st.fails
            } else {
                (st.fails + 1) as usize
            };
            (
                PortableLoop { fails, link_up: false, ..st },
                LoopAction::WindDown { secs: backoff(fails) },
            )
        },
    }
}

impl PortableLoop {
    /// Nothing was tried yet.
    pub fn new() -> (r: Self)
        ensures
            r == (PortableLoop { fails: 0, announced: false, link_up: false }),
    {
        PortableLoop { fails: 0, announced: false, link_up: false }
    }

    /// Whether a session is up.
    pub fn link_is_up(&self) -> (r: bool)
        ensures
            r == self.link_up,
    {
        self.link_up
    }

    /// Takes note of an event and says what to do next.
    pub fn step(&mut self, ev: LoopEvent) -> (r: LoopAction)
        ensures
            (*final(self), r) == loop_step(*old(self), ev),
    {
        match ev {
            LoopEvent::Woken => LoopAction::PickPeer,
            LoopEvent::Peer { found } => {
                if found {
                    self.announced = false;
                    LoopAction::AskRadio
                } else {
                    let say = !self.announced;
                    self.announced = true;
                    LoopAction::Rest { secs: IDLE_SECS, say }
                }
            },
            LoopEvent::Radio { ready } => {
                if ready {
                    LoopAction::Attempt
                } else {
                    LoopAction::Rest { secs: IDLE_SECS, say: false }
                }
            },
            LoopEvent::Established => {
                self.link_up = true;
                LoopAction::Note
            },
            LoopEvent::Ended { closed } => {
                self.link_up = false;
                if closed {
                    self.fails = 0;
                } else {
                    self.fails = self.fails.saturating_add(1);
                }
                let secs: u64 = if self.fails == 0 {
                    2
                } else if self.fails == 1 {
                    5
                } else if self.fails == 2 {
                    15
                } else if self.fails == 3 {
                    30
                } else {
                    60
                };
                LoopAction::WindDown { secs }
            },
        }
    }
}

/// However a try ended, no session counts as up afterwards.
pub proof fn lemma_no_link_is_left_up(st: PortableLoop, closed: bool)
    ensures
        !loop_step(st, LoopEvent::Ended { closed }).0.link_up,
{
}

/// The loop never rests for longer than a minute, and after a session that
/// closed naturally it tries again after two seconds.
pub proof fn lemma_rests_are_short(st: PortableLoop, ev: LoopEvent)
    ensures
        loop_step(st, ev).1 matches LoopAction::WindDown { secs } ==> 2 <= secs <= 60,
        loop_step(st, ev).1 matches LoopAction::Rest { secs, .. } ==> secs == IDLE_SECS,
        loop_step(st, LoopEvent::Ended { closed: true }).1 == (LoopAction::WindDown { secs: 2 }),
{
}

/// Each failure in a row makes the rest longer, until it lasts a minute.
pub proof fn lemma_rests_grow(a: usize, b: usize)
    requires
        a <= b,
    ensures
        backoff(a) <= backoff(b),
{
}

/// Where a try stands.
#[derive(Debug, Clone, Copy, PartialEq, Eq, Structural)]
pub enum Phase {
    /// Asking for the addresses that are bonded.
    Listing,
    Scanning,
    Connecting,
    /// Reading the reconnect counter.
    Counting,
    /// Proving to each other who is who.
    Handshaking,
    /// Moving the reconnect counter on; `ciphers` says whether the handshake gave
    /// keys.
    Bumping { ciphers: bool },
    Listening,
    Over,
}

/// One try for a session.
pub struct Attempt {
    pub phase: Phase,
    /// The addresses to try, in this order.
    pub candidates: Vec<PeerAddr>,
    /// The place of the next one.
    pub next: usize,
    /// The one that is being tried.
    pub current: PeerAddr,
    /// Why the last one failed.
    pub last_err: String,
    /// The reconnect counter.
    pub local: u64,
    /// This try has scanned already.
    pub scanned: bool,
}

/// What a try says.
#[verifier::ext_equal]
pub struct AttemptView {
    pub phase: Phase,
    pub candidates: Seq<PeerAddr>,
    pub next: int,
    pub current: PeerAddr,
    pub last_err: Seq<char>,
    pub local: u64,
    pub scanned: bool,
}

impl View for Attempt {
    type V = AttemptView;

    open spec fn view(&self) -> AttemptView {
        AttemptView {
            phase: self.phase,
            candidates: self.candidates@,
            next: self.next as int,
            current: self.current,
            last_err: self.last_err@,
            local: self.local,
            scanned: self.scanned,
        }
    }
}

/// What happened to a try.
#[derive(Debug)]
pub enum AttemptEvent<S = String, L = Vec<PeerAddr>> {
    /// The addresses that are bonded.
    Bonded(Result<L, S>),
    /// The address at which a scan saw a phone, if it saw one.
    Scanned(Result<Option<PeerAddr>, S>),
    Connected(Result<(), S>),
    /// The reconnect counter, where it could be read.
    Counter(Option<u64>),
    /// The handshake: the peer's counter, and whether it gave keys.
    Ik(Result<(u64, bool), S>),
    /// The counter was moved on.
    Bumped,
    /// The phone stopped talking.
    ListenerEnded(Result<(), S>),
    /// The heartbeat gave the session up.
    BeatGaveUp,
}

/// What a result with a text says.
pub open spec fn said<T>(r: Result<T, String>) -> Result<T, Seq<char>> {
    match r {
        Ok(v) => Ok(v),
        Err(e) => Err(e@),
    }
}

impl View for AttemptEvent {
    type V = AttemptEvent<Seq<char>, Seq<PeerAddr>>;

    open spec fn view(&self) -> AttemptEvent<Seq<char>, Seq<PeerAddr>> {
        match self {
            AttemptEvent::Bonded(r) => AttemptEvent::Bonded(
                match r {
                    Ok(l) => Ok(l@),
                    Err(e) => Err(e@),
                },
            ),
            AttemptEvent::Scanned(r) => AttemptEvent::Scanned(said(*r)),
            AttemptEvent::Connected(r) => AttemptEvent::Connected(said(*r)),
            AttemptEvent::Counter(n) => AttemptEvent::Counter(*n),
            AttemptEvent::Ik(r) => AttemptEvent::Ik(said(*r)),
            AttemptEvent::Bumped => AttemptEvent::Bumped,
            AttemptEvent::ListenerEnded(r) => AttemptEvent::ListenerEnded(said(*r)),
            AttemptEvent::BeatGaveUp => AttemptEvent::BeatGaveUp,
        }
    }
}

/// What a try does next.
#[derive(Debug, PartialEq, Eq)]
pub enum AttemptAction<S = String> {
    ListBonded,
    Scan { ms: u64 },
    Connect(PeerAddr),
    LoadCounter,
    Handshake { local: u64 },
    /// Move the counter past the peer's; `rollback` warns that the peer's is below
    /// this one, as after restoring an old backup.
    Bump { seen: u64, rollback: bool },
    /// Publish the session and listen to the phone, beating all the while.
    Listen,
    Finish(Result<(), S>),
    Ignore,
}

impl View for AttemptAction {
    type V = AttemptAction<Seq<char>>;

    open spec fn view(&self) -> AttemptAction<Seq<char>> {
        match self {
            AttemptAction::ListBonded => AttemptAction::ListBonded,
            AttemptAction::Scan { ms } => AttemptAction::Scan { ms: *ms },
            AttemptAction::Connect(a) => AttemptAction::Connect(*a),
            AttemptAction::LoadCounter => AttemptAction::LoadCounter,
            AttemptAction::Handshake { local } => AttemptAction::Handshake { local: *local },
            AttemptAction::Bump { seen, rollback } => AttemptAction::Bump {
                seen: *seen,
                rollback: *rollback,
            },
            AttemptAction::Listen => AttemptAction::Listen,
            AttemptAction::Finish(r) => AttemptAction::Finish(said(*r)),
            AttemptAction::Ignore => AttemptAction::Ignore,
        }
    }
}

/// The text of an address.
pub open spec fn addr_said(a: PeerAddr) -> Seq<char> {
    platform::addr_text((a.0)@)
}

/// The try looks for the phone's advertisement.
pub open spec fn scan(st: AttemptView) -> (AttemptView, AttemptAction<Seq<char>>) {
    (
        AttemptView { phase: Phase::Scanning, scanned: true, ..st },
        AttemptAction::Scan { ms: SCAN_MS },
    )
}

/// The try goes on with the next address. Behind the last one it falls back to a
/// scan, because the phone changes its address and the bonded ones may be stale;
/// after that it ends with the last failure.
pub open spec fn go_on(st: AttemptView) -> (AttemptView, AttemptAction<Seq<char>>) {
    if st.next < st.candidates.len() {
        let a = st.candidates[st.next];
        (
            AttemptView {
                phase: Phase::Connecting,
                next: st.next + 1,
                current: a,
                ..st
            },
            AttemptAction::Connect(a),
        )
    } else if !st.scanned {
        scan(st)
    } else {
        (AttemptView { phase: Phase::Over, ..st }, AttemptAction::Finish(Err(st.last_err)))
    }
}

/// The try is over.
pub open spec fn over(st: AttemptView, r: Result<(), Seq<char>>) -> (
    AttemptView,
    AttemptAction<Seq<char>>,
) {
    (AttemptView { phase: Phase::Over, ..st }, AttemptAction::Finish(r))
}

/// What follows an event. An event that does not belong to the phase changes
/// nothing.
pub open spec fn attempt_step(st: AttemptView, ev: AttemptEvent<Seq<char>, Seq<PeerAddr>>) -> (
    AttemptView,
    AttemptAction<Seq<char>>,
) {
    match (st.phase, ev) {
        (Phase::Listing, AttemptEvent::Bonded(r)) => match r {
            Ok(list) if list.len() > 0 => go_on(AttemptView { candidates: list, next: 0, ..st }),
            _ => scan(st),
        },
        (Phase::Scanning, AttemptEvent::Scanned(r)) => match r {
            Ok(Some(a)) => go_on(AttemptView { candidates: seq![a], next: 0, ..st }),
            Ok(None) => over(st, Err("no Vortex advertisement in range"@)),
            Err(e) => over(st, Err(e)),
        },
        (Phase::Connecting, AttemptEvent::Connected(r)) => match r {
            Ok(()) => (
                AttemptView { phase: Phase::Counting, ..st },
                AttemptAction::LoadCounter,
            ),
            Err(e) => go_on(AttemptView { last_err: addr_said(st.current) + ": "@ + e, ..st }),
        },
        (Phase::Counting, AttemptEvent::Counter(n)) => {
            let local = match n {
                Some(n) => n,
                None => 0,
            };
            (
                AttemptView { phase: Phase::Handshaking, local, ..st },
                AttemptAction::Handshake { local },
            )
        },
        (Phase::Handshaking, AttemptEvent::Ik(r)) => match r {
            Ok((seen, ciphers)) => (
                AttemptView { phase: Phase::Bumping { ciphers }, ..st },
                AttemptAction::Bump { seen, rollback: seen < st.local },
            ),
            Err(e) => go_on(
                AttemptView { last_err: addr_said(st.current) + ": IK failed: "@ + e, ..st },
            ),
        },
        (Phase::Bumping { ciphers }, AttemptEvent::Bumped) => if ciphers {
            (AttemptView { phase: Phase::Listening, ..st }, AttemptAction::Listen)
        } else {
            over(st, Err("IK produced no transport ciphers"@))
        },
        (Phase::Listening, AttemptEvent::ListenerEnded(r)) => match r {
            Ok(()) => over(st, Ok(())),
            Err(e) => over(st, Err("listener: "@ + e)),
        },
        (Phase::Listening, AttemptEvent::BeatGaveUp) => over(
            st,
            Err("listener: state beat gave up \u{2014} the link is dead"@),
        ),
        _ => (st, AttemptAction::Ignore),
    }
}

impl Attempt {
    /// A try that has not begun, and its first step.
    pub fn begin() -> (r: (Self, AttemptAction))
        ensures
            r.0@ == (AttemptView {
                phase: Phase::Listing,
                candidates: Seq::empty(),
                next: 0,
                current: r.0.current,
                last_err: "no candidate answered"@,
                local: 0,
                scanned: false,
            }),
            r.1@ == AttemptAction::<Seq<char>>::ListBonded,
    {
        (
            Attempt {
                phase: Phase::Listing,
                candidates: Vec::new(),
                next: 0,
                current: PeerAddr([0, 0, 0, 0, 0, 0]),
                last_err: "no candidate answered".to_string(),
                local: 0,
                scanned: false,
            },
            AttemptAction::ListBonded,
        )
    }

    /// Looks for the phone's advertisement.
    fn look(&mut self) -> (r: AttemptAction)
        ensures
            (final(self)@, r@) == scan(old(self)@),
    {
        self.phase = Phase::Scanning;
        self.scanned = true;
        AttemptAction::Scan { ms: SCAN_MS }
    }

    /// Goes on with the next address, with a scan, or ends with the last failure.
    fn advance(&mut self) -> (r: AttemptAction)
        ensures
            (final(self)@, r@) == go_on(old(self)@),
    {
        if self.next < self.candidates.len() {
            let a = self.candidates[self.next];
            self.phase = Phase::Connecting;
            self.next = self.next + 1;
            self.current = a;
            AttemptAction::Connect(a)
        } else if !self.scanned {
            self.look()
        } else {
            self.phase = Phase::Over;
            AttemptAction::Finish(Err(self.last_err.as_str().to_string()))
        }
    }

    /// The address that is being tried, and why it failed.
    fn failed_at(&self, middle: &str, e: &str) -> (r: String)
        ensures
            r@ == addr_said(self.current) + middle@ + e@,
    {
        let mut m = self.current.to_text();
        m.append(middle);
        m.append(e);
        m
    }

    /// The try is over.
    fn finish(&mut self, r: Result<(), String>) -> (a: AttemptAction)
        ensures
            (final(self)@, a@) == over(old(self)@, said(r)),
    {
        self.phase = Phase::Over;
        AttemptAction::Finish(r)
    }

    /// Takes note of an event and says what to do next.
    pub fn step(&mut self, ev: AttemptEvent) -> (r: AttemptAction)
        ensures
            (final(self)@, r@) == attempt_step(old(self)@, ev@),
    {
        match (self.phase, ev) {
            (Phase::Listing, AttemptEvent::Bonded(r)) => {
                match r {
                    Ok(list) => {
                        if list.len() > 0 {
                            self.candidates = list;
                            self.next = 0;
                            return self.advance();
                        }
                    },
                    Err(_) => {},
                }
                self.look()
            },
            (Phase::Scanning, AttemptEvent::Scanned(r)) => {
                match r {
                    Ok(Some(a)) => {
                        self.candidates = vec![a];
                        assert(self.candidates@ =~= seq![a]);
                        self.next = 0;
                        self.advance()
                    },
                    Ok(None) => self.finish(Err("no Vortex advertisement in range".to_string())),
                    Err(e) => self.finish(Err(e)),
                }
            },
            (Phase::Connecting, AttemptEvent::Connected(r)) => {
                match r {
                    Ok(_) => {
                        self.phase = Phase::Counting;
                        AttemptAction::LoadCounter
                    },
                    Err(e) => {
                        self.last_err = self.failed_at(": ", e.as_str());
                        self.advance()
                    },
                }
            },
            (Phase::Counting, AttemptEvent::Counter(n)) => {
                let local: u64 = match n {
                    Some(n) => n,
                    None => 0,
                };
                self.local = local;
                self.phase = Phase::Handshaking;
                AttemptAction::Handshake { local }
            },
            (Phase::Handshaking, AttemptEvent::Ik(r)) => {
                match r {
                    Ok((seen, ciphers)) => {
                        self.phase = Phase::Bumping { ciphers };
                        AttemptAction::Bump { seen, rollback: seen < self.local }
                    },
                    Err(e) => {
                        self.last_err = self.failed_at(": IK failed: ", e.as_str());
                        self.advance()
                    },
                }
            },
            (Phase::Bumping { ciphers }, AttemptEvent::Bumped) => {
                if ciphers {
                    self.phase = Phase::Listening;
                    AttemptAction::Listen
                } else {
                    self.finish(Err("IK produced no transport ciphers".to_string()))
                }
            },
            (Phase::Listening, AttemptEvent::ListenerEnded(r)) => {
                match r {
                    Ok(_) => self.finish(Ok(())),
                    Err(e) => {
                        let mut m = "listener: ".to_string();
                        m.append(e.as_str());
                        self.finish(Err(m))
                    },
                }
            },
            (Phase::Listening, AttemptEvent::BeatGaveUp) => self.finish(
                Err("listener: state beat gave up \u{2014} the link is dead".to_string()),
            ),
            _ => AttemptAction::Ignore,
        }
    }
}

/// No session without a handshake: listening to the phone begins only once it has
/// proved who it is, and only when the handshake gave keys.
pub proof fn lemma_listening_is_earned(
    st: AttemptView,
    ev: AttemptEvent<Seq<char>, Seq<PeerAddr>>,
)
    requires
        attempt_step(st, ev).0.phase is Listening,
    ensures
        st.phase is Listening || (st.phase == (Phase::Bumping { ciphers: true }) && ev is Bumped),
{
}

/// The phase in which the counter is moved on is entered only by a handshake that
/// succeeded.
pub proof fn lemma_bumping_is_earned(st: AttemptView, ev: AttemptEvent<Seq<char>, Seq<PeerAddr>>)
    requires
        attempt_step(st, ev).0.phase is Bumping,
    ensures
        st.phase is Bumping || (st.phase is Handshaking && ev matches AttemptEvent::Ik(Ok(_))),
{
}

/// An address that fails costs the try that address and no more: the next one is
/// connected to as long as there is one.
pub proof fn lemma_every_candidate_gets_its_turn(st: AttemptView, e: Seq<char>)
    requires
        st.phase is Connecting,
        st.next < st.candidates.len(),
    ensures
        attempt_step(st, AttemptEvent::Connected(Err(e))).1 == AttemptAction::<Seq<char>>::Connect(
            st.candidates[st.next],
        ),
        attempt_step(st, AttemptEvent::Connected(Err(e))).0.next == st.next + 1,
{
}

/// Stale addresses are no failure: a try gives an address up for good only after
/// it has scanned, and until then the end of the bonded addresses leads to the
/// scan.
pub proof fn lemma_stale_addresses_lead_to_a_scan(
    st: AttemptView,
    ev: AttemptEvent<Seq<char>, Seq<PeerAddr>>,
)
    requires
        !st.scanned,
        ev matches AttemptEvent::Connected(Err(_)) && st.phase is Connecting || (
        ev matches AttemptEvent::Ik(Err(_)) && st.phase is Handshaking),
    ensures
        st.next < st.candidates.len() ==> attempt_step(st, ev).1 is Connect,
        st.next >= st.candidates.len() ==> attempt_step(st, ev).1 == (AttemptAction::<
            Seq<char>,
        >::Scan { ms: SCAN_MS }),
{
}

/// A try scans once at most: what the scan found is tried, and when that fails
/// too, the try is over.
pub proof fn lemma_one_scan(st: AttemptView, ev: AttemptEvent<Seq<char>, Seq<PeerAddr>>)
    ensures
        st.scanned ==> attempt_step(st, ev).0.scanned,
        !st.scanned && attempt_step(st, ev).0.scanned ==> attempt_step(st, ev).1 is Scan,
        st.scanned && !(st.phase is Listing) ==> !(attempt_step(st, ev).1 is Scan),
{
}

/// Tells the arbiter that the peer proved who it is, and asks for the session. A
/// second peer is connected without becoming the active one.
pub fn announce_session(arbiter: &mut Arbiter, peer: &[u8; 32]) -> (r: Claim)
    ensures
        final(arbiter)@.connected == old(arbiter)@.connected.insert(peer@),
        final(arbiter)@.switching_until == old(arbiter)@.switching_until,
        match arbiter::claim_result(old(arbiter)@, peer@) {
            None => r is Granted && final(arbiter)@.active == Some(peer@),
            Some(current) => r is Busy && r->current@ == current && final(arbiter)@.active == Some(
                current,
            ),
        },
{
    arbiter.note_connected(peer);
    arbiter.claim(peer)
}

/// How often a session reports, in milliseconds.
pub const STATE_BEAT_MS: u64 = 12_000;

/// The wait before the first report, in milliseconds.
pub const FIRST_BEAT_MS: u64 = 1_500;

/// The wait after a report that failed, in milliseconds.
pub const FAILED_BEAT_MS: u64 = 2_000;

/// After this many failed reports in a row the session is given up.
pub const MAX_FAILS: u32 = 6;

/// What follows a report.
#[derive(Debug, Clone, Copy, PartialEq, Eq, Structural)]
pub enum Beat {
    /// The phone is there; report again after so long.
    Alive { ms: u64 },
    /// Try again after so long.
    Retry { ms: u64 },
    GiveUp,
}

/// The failed reports of a session in a row.
pub struct PortableBeat {
    pub fails: u32,
}

/// What follows a report, after `fails` failures in a row.
pub open spec fn portable_beat(fails: u32, sent: bool) -> (u32, Beat) {
    if sent {
        (0, Beat::Alive { ms: STATE_BEAT_MS })
    } else if fails + 1 >= MAX_FAILS {
        (if fails == u32::MAX {
            fails
        } else {
            (fails + 1) as u32
        }, Beat::GiveUp)
    } else {
        ((fails + 1) as u32, Beat::Retry { ms: FAILED_BEAT_MS })
    }
}

impl PortableBeat {
    /// No report was sent yet.
    pub fn new() -> (r: Self)
        ensures
            r.fails == 0,
    {
        PortableBeat { fails: 0 }
    }

    /// A report went out, or failed.
    pub fn on_write(&mut self, sent: bool) -> (r: Beat)
        ensures
            (final(self).fails, r) == portable_beat(old(self).fails, sent),
    {
        if sent {
            self.fails = 0;
            return Beat::Alive { ms: STATE_BEAT_MS };
        }
        self.fails = self.fails.saturating_add(1);
        if self.fails >= MAX_FAILS {
            Beat::GiveUp
        } else {
            Beat::Retry { ms: FAILED_BEAT_MS }
        }
    }
}

/// The failures after a run of reports.
pub open spec fn beats(fails: u32, sent: Seq<bool>) -> u32
    decreases sent.len(),
{
    if sent.len() == 0 {
        fails
    } else {
        portable_beat(beats(fails, sent.drop_last()), sent.last()).0
    }
}

/// A session is given up after six failures in a row and not before: whenever it
/// is given up, the last six reports all failed.
pub proof fn lemma_six_failures(sent: Seq<bool>)
    requires
        sent.len() > 0,
        portable_beat(beats(0, sent.drop_last()), sent.last()).1 is GiveUp,
    ensures
        sent.len() >= 6,
        forall|j: int| sent.len() - 6 <= j < sent.len() ==> !#[trigger] sent[j],
{
    let before = sent.drop_last();
    lemma_fails_count(before);
    assert forall|j: int| sent.len() - 6 <= j < sent.len() implies !#[trigger] sent[j] by {
        if j < before.len() {
            assert(!before[j]);
        }
    }
}

/// So many failures in a row were the last reports.
proof fn lemma_fails_count(sent: Seq<bool>)
    ensures
        beats(0, sent) <= sent.len(),
        forall|j: int| sent.len() - beats(0, sent) <= j < sent.len() ==> !#[trigger] sent[j],
    decreases sent.len(),
{
    if sent.len() > 0 {
        lemma_fails_count(sent.drop_last());
        let before = sent.drop_last();
        assert forall|j: int| sent.len() - beats(0, sent) <= j < sent.len() implies !#[trigger] sent[j] by {
            if j < before.len() {
                assert(!before[j]);
            }
        }
    }
}

/// The address to pair with, given what the radio and the scan said.
pub open spec fn pair_refusal(ready: bool, found: Result<Option<AdvCandidate>, Seq<char>>) -> Option<
    Seq<char>,
> {
    if !ready {
        Some("no Bluetooth LE radio available"@)
    } else {
        match found {
            Err(e) => Some(e),
            Ok(None) => Some("no phone advertising a pairing window was found"@),
            Ok(Some(c)) => if c.payload.pairable {
                None
            } else {
                Some(
                    "the phone found is not in pairing mode \u{2014} open Vortex on the phone and tap Pair"@,
                )
            },
        }
    }
}

/// The address to pair with: that of the phone that the scan saw, when its
/// pairing window is open.
pub fn pair_by_scan(ready: bool, found: &Result<Option<AdvCandidate>, String>) -> (r: Result<
    PeerAddr,
    String,
>)
    ensures
        match pair_refusal(ready, said(*found)) {
            Some(m) => r is Err && r->Err_0@ == m,
            None => r is Ok && r->Ok_0 == (found->Ok_0)->0.addr,
        },
{
    if !ready {
        return Err("no Bluetooth LE radio available".to_string());
    }
    match found {
        Err(e) => Err(e.as_str().to_string()),
        Ok(None) => Err("no phone advertising a pairing window was found".to_string()),
        Ok(Some(c)) => {
            if c.payload.pairable {
                Ok(c.addr)
            } else {
                Err(
                    "the phone found is not in pairing mode \u{2014} open Vortex on the phone and tap Pair".to_string(),
                )
            }
        },
    }
}

/// The first byte, as it is shown in a complaint.
pub open spec fn first_byte_text(b: Seq<u8>) -> Seq<char> {
    if b.len() > 0 {
        "Some("@ + text::decimal(b[0] as nat) + ")"@
    } else {
        "None"@
    }
}

/// Why the phone's capability does not do, if it does not.
pub open spec fn version_refusal(read: Result<Seq<u8>, Seq<char>>, ours: u8) -> Option<Seq<char>> {
    match read {
        Err(e) => Some("capability read failed: "@ + e),
        Ok(b) => if b.len() > 0 && b[0] == ours {
            None
        } else {
            Some(
                "phone speaks protocol version "@ + first_byte_text(b) + ", this build speaks "@
                    + text::decimal(ours as nat),
            )
        },
    }
}

/// Checks that the phone speaks this build's version of the protocol, before
/// anything is agreed upon.
pub fn check_version(read: &Result<Vec<u8>, String>, ours: u8) -> (r: Result<(), String>)
    ensures
        match version_refusal(
            match *read {
                Ok(b) => Ok(b@),
                Err(e) => Err(e@),
            },
            ours,
        ) {
            Some(m) => r is Err && r->Err_0@ == m,
            None => r is Ok,
        },
{
    match read {
        Err(e) => {
            let mut m = "capability read failed: ".to_string();
            m.append(e.as_str());
            Err(m)
        },
        Ok(b) => {
            if b.len() > 0 && b[0] == ours {
                return Ok(());
            }
            let mut shown = "None".to_string();
            if b.len() > 0 {
                shown = "Some(".to_string();
                let n = decimal_text(b[0] as u64);
                shown.append(n.as_str());
                shown.append(")");
            }
            let mut m = "phone speaks protocol version ".to_string();
            m.append(shown.as_str());
            m.append(", this build speaks ");
            let n = decimal_text(ours as u64);
            m.append(n.as_str());
            Err(m)
        },
    }
}

/// A phone on the pairing radar.
#[derive(Debug, PartialEq, Eq)]
pub struct ScanHit {
    pub addr: String,
    pub rssi: i16,
    /// The instance of the pairing window, in hexadecimal.
    pub instance: String,
    pub name: Option<String>,
}

/// What the radar shows of a phone: one whose pairing window is open.
pub fn scan_hit(c: AdvCandidate) -> (r: Option<ScanHit>)
    ensures
        r is Some <==> c.payload.pairable,
        r matches Some(h) ==> h.addr@ == addr_said(c.addr) && h.rssi == (match c.rssi {
            Some(n) => n,
            None => 0,
        }) && h.instance@ == codec::hex_text(c.payload.payload_8@) && h.name == c.local_name,
{
    if !c.payload.pairable {
        return None;
    }
    let rssi: i16 = match c.rssi {
        Some(n) => n,
        None => 0,
    };
    Some(
        ScanHit {
            addr: c.addr.to_text(),
            rssi,
            instance: hex_encode(&c.payload.payload_8),
            name: c.local_name,
        },
    )
}

/// A round of the loop: it looks for a peer, then for the radio, then tries. Without a peer
/// it rests ten seconds and says so once; without a radio it rests ten seconds.
pub proof fn lemma_round_of_the_loop(st: PortableLoop)
    ensures
        loop_step(st, LoopEvent::Woken) == (st, LoopAction::PickPeer),
        loop_step(st, LoopEvent::Peer { found: true }) == (
            PortableLoop { announced: false, ..st },
            LoopAction::AskRadio,
        ),
        loop_step(st, LoopEvent::Peer { found: false }) == (
            PortableLoop { announced: true, ..st },
            LoopAction::Rest { secs: 10, say: !st.announced },
        ),
        loop_step(st, LoopEvent::Radio { ready: true }) == (st, LoopAction::Attempt),
        loop_step(st, LoopEvent::Radio { ready: false }) == (
            st,
            LoopAction::Rest { secs: 10, say: false },
        ),
        loop_step(st, LoopEvent::Established).0 == (PortableLoop { link_up: true, ..st }),
        loop_step(st, LoopEvent::Established).1 is Note,
{
}

/// The rest after a try: two seconds behind a session that ended naturally; 5, 15, 30 and then
/// always 60 seconds behind the first, second, third and every later failure in a row.
pub proof fn lemma_rest_after_a_try(st: PortableLoop)
    ensures
        loop_step(st, LoopEvent::Ended { closed: true }) == (
            PortableLoop { fails: 0, link_up: false, ..st },
            LoopAction::WindDown { secs: 2 },
        ),
        ({
            let (next, action) = loop_step(st, LoopEvent::Ended { closed: false });
            &&& st.fails < usize::MAX ==> next.fails == st.fails + 1
            &&& !next.link_up && next.announced == st.announced
            &&& action is WindDown
            &&& st.fails == 0 ==> action->WindDown_secs == 5
            &&& st.fails == 1 ==> action->WindDown_secs == 15
            &&& st.fails == 2 ==> action->WindDown_secs == 30
            &&& st.fails > 2 ==> action->WindDown_secs == 60
        }),
{
}

/// The usual course of a try: the first bonded address is connected to, and when all goes well
/// the counter is read, the handshake is run with it, the counter is moved on, and the session
/// is listened to; what ends it is what the phone said.
pub proof fn lemma_try_reaches_a_session(
    st: AttemptView,
    bonded: Seq<PeerAddr>,
    counter: Option<u64>,
    seen: u64,
    ended: Result<(), Seq<char>>,
)
    requires
        st.phase is Listing,
        bonded.len() > 0,
    ensures
        ({
            let s1 = attempt_step(st, AttemptEvent::Bonded(Ok(bonded)));
            let s2 = attempt_step(s1.0, AttemptEvent::Connected(Ok(())));
            let s3 = attempt_step(s2.0, AttemptEvent::Counter(counter));
            let s4 = attempt_step(s3.0, AttemptEvent::Ik(Ok((seen, true))));
            let s5 = attempt_step(s4.0, AttemptEvent::Bumped);
            let s6 = attempt_step(s5.0, AttemptEvent::ListenerEnded(ended));
            let local = if counter is Some {
                counter->0
            } else {
                0
            };
            &&& s1.1 == AttemptAction::<Seq<char>>::Connect(bonded[0])
            &&& s2.1 is LoadCounter
            &&& s3.1 == AttemptAction::<Seq<char>>::Handshake { local }
            &&& s4.1 == (AttemptAction::<Seq<char>>::Bump { seen, rollback: seen < local })
            &&& s5.1 is Listen
            &&& ended is Ok ==> s6.1 == AttemptAction::<Seq<char>>::Finish(Ok(()))
            &&& ended is Err ==> s6.1 == AttemptAction::Finish(
                Err::<(), Seq<char>>("listener: "@ + ended->Err_0),
            )
            &&& s6.0.phase is Over
        }),
{
}

/// A try without bonded addresses scans for eight seconds, connects to what the scan found, and
/// says why it ends when nothing was found.
pub proof fn lemma_try_by_scan(st: AttemptView, e: Seq<char>, found: PeerAddr)
    ensures
        st.phase is Listing ==> {
            let none = attempt_step(st, AttemptEvent::Bonded(Ok(Seq::empty())));
            let failed = attempt_step(st, AttemptEvent::Bonded(Err(e)));
            &&& none.1 == (AttemptAction::<Seq<char>>::Scan { ms: 8_000 })
            &&& failed.1 == none.1
            &&& none.0.phase is Scanning && none.0.scanned
        },
        st.phase is Scanning ==> {
            &&& attempt_step(st, AttemptEvent::Scanned(Ok(Some(found)))).1 == AttemptAction::<
                Seq<char>,
            >::Connect(found)
            &&& attempt_step(st, AttemptEvent::Scanned(Ok(None))).1 == AttemptAction::Finish(
                Err::<(), Seq<char>>("no Vortex advertisement in range"@),
            )
            &&& attempt_step(st, AttemptEvent::Scanned(Err(e))).1 == AttemptAction::Finish(
                Err::<(), Seq<char>>(e),
            )
        },
{
}

/// A try that fails at its last address says which address it was and why.
pub proof fn lemma_last_failure_is_told(st: AttemptView, e: Seq<char>)
    requires
        st.scanned,
        st.next >= st.candidates.len(),
    ensures
        st.phase is Connecting ==> attempt_step(st, AttemptEvent::Connected(Err(e))).1
            == AttemptAction::Finish(
            Err::<(), Seq<char>>(addr_said(st.current) + ": "@ + e),
        ),
        st.phase is Handshaking ==> attempt_step(st, AttemptEvent::Ik(Err(e))).1
            == AttemptAction::Finish(
            Err::<(), Seq<char>>(addr_said(st.current) + ": IK failed: "@ + e),
        ),
        st.phase == (Phase::Bumping { ciphers: false }) ==> attempt_step(
            st,
            AttemptEvent::Bumped,
        ).1 == AttemptAction::Finish(Err::<(), Seq<char>>("IK produced no transport ciphers"@)),
        st.phase is Listening ==> attempt_step(st, AttemptEvent::BeatGaveUp).1
            == AttemptAction::Finish(
            Err::<(), Seq<char>>("listener: state beat gave up \u{2014} the link is dead"@),
        ),
{
}

/// The address that is connected to is remembered as the one that is being tried, so that a
/// complaint names the right one.
pub proof fn lemma_current_is_the_one_tried(
    st: AttemptView,
    ev: AttemptEvent<Seq<char>, Seq<PeerAddr>>,
)
    ensures
        attempt_step(st, ev).1 matches AttemptAction::Connect(a) ==> attempt_step(st, ev).0.current
            == a && attempt_step(st, ev).0.phase is Connecting,
        !(attempt_step(st, ev).1 is Connect) ==> attempt_step(st, ev).0.current == st.current,
        attempt_step(st, ev).1 is Ignore ==> attempt_step(st, ev).0 == st,
{
}

/// A try starts with the addresses that are bonded.
pub proof fn lemma_try_starts_with_the_bonded(r: (Attempt, AttemptAction))
    requires
        call_ensures(Attempt::begin, (), r),
    ensures
        r.1@ is ListBonded,
        r.0@.phase is Listing && !r.0@.scanned && r.0@.local == 0,
{
}

/// The session goes to the peer that connects, unless another one has it; being connected is
/// noted either way.
pub proof fn lemma_session_is_announced(arbiter: &mut Arbiter, peer: &[u8; 32], r: Claim)
    requires
        call_ensures(announce_session, (arbiter, peer), r),
    ensures
        final(arbiter)@.connected.contains(peer@),
        old(arbiter)@.active is None ==> r is Granted && final(arbiter)@.active == Some(peer@),
        old(arbiter)@.active == Some(peer@) ==> r is Granted && final(arbiter)@.active == Some(
            peer@,
        ),
        old(arbiter)@.active is Some && old(arbiter)@.active->0 != peer@ ==> r is Busy
            && r->current@ == old(arbiter)@.active->0 && final(arbiter)@.active == old(
            arbiter,
        )@.active,
{
}

/// A report that arrives is followed by the next after twelve seconds and starts the count of
/// failures over; one that fails is repeated after two seconds, and with the sixth failure in a
/// row the session is given up.
pub proof fn lemma_beat_of_a_session(fails: u32)
    ensures
        portable_beat(fails, true) == (0u32, Beat::Alive { ms: 12_000 }),
        fails < 5 ==> portable_beat(fails, false) == ((fails + 1) as u32, Beat::Retry { ms: 2_000 }),
        fails >= 5 ==> portable_beat(fails, false).1 is GiveUp,
{
}

/// A phone can be paired with exactly when there is a radio and the scan found one whose pairing
/// window is open; it is that phone then.
pub proof fn lemma_who_can_be_paired_with(
    ready: bool,
    found: &Result<Option<AdvCandidate>, String>,
    r: Result<PeerAddr, String>,
)
    requires
        call_ensures(pair_by_scan, (ready, found), r),
    ensures
        r is Ok <==> ready && found is Ok && found->Ok_0 is Some && (
        found->Ok_0)->0.payload.pairable,
        r is Ok ==> r->Ok_0 == (found->Ok_0)->0.addr,
        !ready ==> r->Err_0@ == "no Bluetooth LE radio available"@,
        ready && found is Err ==> r->Err_0@ == found->Err_0@,
{
}

/// A phone that speaks another version of the protocol is refused, and so is one that cannot be
/// asked.
pub proof fn lemma_versions_must_agree(
    read: &Result<Vec<u8>, String>,
    ours: u8,
    r: Result<(), String>,
)
    requires
        call_ensures(check_version, (read, ours), r),
    ensures
        r is Ok <==> read is Ok && read->Ok_0@.len() > 0 && read->Ok_0@[0] == ours,
{
}

/// The radar shows a phone with its own address, strength and name, and only while its pairing
/// window is open.
pub proof fn lemma_radar_shows_open_windows(c: AdvCandidate, r: Option<ScanHit>)
    requires
        call_ensures(scan_hit, (c,), r),
    ensures
        r is Some <==> c.payload.pairable,
        r is Some ==> r->0.name == c.local_name,
        r is Some && c.rssi is Some ==> r->0.rssi == c.rssi->0,
        r is Some && c.rssi is None ==> r->0.rssi == 0,
        r is Some ==> r->0.addr@ == platform::addr_text((c.addr.0)@),
{
}

/// Why a pairing or a version is refused, in words.
pub proof fn lemma_refusals_in_words(
    found: &Result<Option<AdvCandidate>, String>,
    r: Result<PeerAddr, String>,
    read: &Result<Vec<u8>, String>,
    ours: u8,
    v: Result<(), String>,
    begun: (Attempt, AttemptAction),
)
    requires
        call_ensures(pair_by_scan, (true, found), r),
        call_ensures(check_version, (read, ours), v),
        call_ensures(Attempt::begin, (), begun),
    ensures
        found is Err ==> r->Err_0@ == found->Err_0@,
        found is Ok && found->Ok_0 is None ==> r->Err_0@
            == "no phone advertising a pairing window was found"@,
        found is Ok && found->Ok_0 is Some && !(found->Ok_0)->0.payload.pairable ==> r->Err_0@
            == "the phone found is not in pairing mode \u{2014} open Vortex on the phone and tap Pair"@,
        read is Err ==> v->Err_0@ == "capability read failed: "@ + read->Err_0@,
        read is Ok && read->Ok_0@.len() == 0 ==> v->Err_0@ == "phone speaks protocol version "@ + "None"@
            + ", this build speaks "@ + text::decimal(ours as nat),
        read is Ok && read->Ok_0@.len() > 0 && read->Ok_0@[0] != ours ==> v->Err_0@
            == "phone speaks protocol version "@ + ("Some("@ + text::decimal(read->Ok_0@[0] as nat) + ")"@)
            + ", this build speaks "@ + text::decimal(ours as nat),
        begun.0@.last_err == "no candidate answered"@,
{
}

/// How long is looked for a phone, and how long is rested.
pub proof fn lemma_times_of_the_portable_link()
    ensures
        SCAN_MS == 8_000,
        PAIR_SCAN_MS == 20_000,
        IDLE_SECS == 10,
        STATE_BEAT_MS == 12_000,
        FIRST_BEAT_MS == 1_500,
        FAILED_BEAT_MS == 2_000,
{
}

/// A try that has ended stays ended: whatever comes afterwards changes nothing and leads to
/// nothing.
pub proof fn lemma_finished_try_is_over(
    st: AttemptView,
    ev: AttemptEvent<Seq<char>, Seq<PeerAddr>>,
    later: AttemptEvent<Seq<char>, Seq<PeerAddr>>,
)
    requires
        attempt_step(st, ev).1 is Finish,
    ensures
        ({
            let ended = attempt_step(st, ev).0;
            attempt_step(ended, later) == (ended, AttemptAction::<Seq<char>>::Ignore)
        }),
{
}

/// What comes out of turn changes nothing: each answer counts only while it is waited for.
pub proof fn lemma_out_of_turn(st: AttemptView, ev: AttemptEvent<Seq<char>, Seq<PeerAddr>>)
    requires
        ev is Bonded ==> !(st.phase is Listing),
        ev is Scanned ==> !(st.phase is Scanning),
        ev is Connected ==> !(st.phase is Connecting),
        ev is Counter ==> !(st.phase is Counting),
        ev is Ik ==> !(st.phase is Handshaking),
        ev is Bumped ==> !(st.phase is Bumping),
        ev is ListenerEnded || ev is BeatGaveUp ==> !(st.phase is Listening),
    ensures
        attempt_step(st, ev) == (st, AttemptAction::<Seq<char>>::Ignore),
{
}

/// Failures are counted one by one, also those after the session was given up, as far as there
/// are numbers.
pub proof fn lemma_failed_beats_are_counted(
    b: &mut PortableBeat,
    sent: bool,
    r: Beat,
)
    requires
        call_ensures(PortableBeat::on_write, (b, sent), r),
    ensures
        sent ==> final(b).fails == 0 && r is Alive,
        !sent && old(b).fails < u32::MAX ==> final(b).fails == old(b).fails + 1,
        !sent && old(b).fails == u32::MAX ==> final(b).fails == u32::MAX,
        !sent ==> (r is GiveUp <==> old(b).fails >= 5),
{
}

} // verus!
