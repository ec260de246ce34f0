//! Earbuds that follow the user between the laptop and the phone.
//!
//! The hand-over itself is a dialogue with the phone. What is decided here is
//! everything around it: over which link a request goes out, whether the laptop
//! lets the earbuds go, when paused media may play again, and what happens when
//! the dialogue that should have brought the earbuds back never took place.

use vstd::prelude::*;

use crate::codec;
use crate::keys;
use crate::keys::{parse_key, same_key};
use crate::lan;
use crate::lan::{preferred_address, HostAddr, LanCandidate};
use crate::storage;
use crate::storage::peers;
use crate::storage::peers::{TrustedPeer, TrustedPeerView};
use crate::storage::{StorageError, StorageResult};
use crate::text;
use crate::text::chars_of;

verus! {

/// The two links to a peer.
#[derive(Debug, Clone, Copy, PartialEq, Eq, Structural)]
pub enum Lane {
    Lan,
    Ble,
}

/// What came of sending a request over one link.
#[derive(Debug, PartialEq, Eq)]
pub enum Write<S = String> {
    Sent,
    /// The link refused, for this reason.
    Failed(S),
    /// The task that was sending did not come to an end, for this reason.
    Crashed(S),
}

impl View for Write {
    type V = Write<Seq<char>>;

    open spec fn view(&self) -> Write<Seq<char>> {
        match self {
            Write::Sent => Write::Sent,
            Write::Failed(e) => Write::Failed(e@),
            Write::Crashed(e) => Write::Crashed(e@),
        }
    }
}

/// Where sending one request stands.
#[derive(Debug, PartialEq, Eq)]
pub enum RaceState<S = String> {
    /// One link is sending.
    One,
    /// Both links are sending.
    Both,
    /// One link failed, for this reason; the other one is sending.
    Left { lane: Lane, error: S },
    /// It is known what came of it.
    Over,
}

/// One request on its way to a peer. With two links it goes out over both, and
/// the first success counts; the peer drops the second copy.
pub struct FrameRace {
    pub state: RaceState,
}

impl View for FrameRace {
    type V = RaceState<Seq<char>>;

    open spec fn view(&self) -> RaceState<Seq<char>> {
        match self.state {
            RaceState::One => RaceState::One,
            RaceState::Both => RaceState::Both,
            RaceState::Left { lane, error } => RaceState::Left { lane, error: error@ },
            RaceState::Over => RaceState::Over,
        }
    }
}

/// What is known of a request.
#[derive(Debug, PartialEq, Eq)]
pub enum Verdict<S = String> {
    /// Nothing yet.
    Open,
    /// It went out.
    Sent,
    /// It did not, for this reason.
    Failed(S),
}

impl View for Verdict {
    type V = Verdict<Seq<char>>;

    open spec fn view(&self) -> Verdict<Seq<char>> {
        match self {
            Verdict::Open => Verdict::Open,
            Verdict::Sent => Verdict::Sent,
            Verdict::Failed(e) => Verdict::Failed(e@),
        }
    }
}

/// The reason that a write which was not sent gives.
pub open spec fn write_error(w: Write<Seq<char>>) -> Seq<char> {
    match w {
        Write::Sent => Seq::empty(),
        Write::Failed(e) => e,
        Write::Crashed(e) => "task: "@ + e,
    }
}

/// The short name of a link.
pub open spec fn lane_name(lane: Lane) -> Seq<char> {
    match lane {
        Lane::Lan => "lan"@,
        Lane::Ble => "ble"@,
    }
}

/// The link that is not `lane`.
pub open spec fn other_lane(lane: Lane) -> Lane {
    match lane {
        Lane::Lan => Lane::Ble,
        Lane::Ble => Lane::Lan,
    }
}

/// The complaint when both links failed, the one that failed first named first.
pub open spec fn both_failed(first: Lane, e1: Seq<char>, e2: Seq<char>) -> Seq<char> {
    "both failed ("@ + lane_name(first) + ": "@ + e1 + "; "@ + lane_name(other_lane(first)) + ": "@
        + e2 + ")"@
}

/// How a request starts out, given which links there are.
pub open spec fn race_start(lan: bool, ble: bool) -> (RaceState<Seq<char>>, Verdict<Seq<char>>) {
    if lan && ble {
        (RaceState::Both, Verdict::Open)
    } else if lan || ble {
        (RaceState::One, Verdict::Open)
    } else {
        (RaceState::Over, Verdict::Failed("no active session"@))
    }
}

/// What follows when sending over `lane` came to an end with `w`.
pub open spec fn race_step(s: RaceState<Seq<char>>, lane: Lane, w: Write<Seq<char>>) -> (
    RaceState<Seq<char>>,
    Verdict<Seq<char>>,
) {
    match s {
        RaceState::Over => (RaceState::Over, Verdict::Open),
        RaceState::One => if w is Sent {
            (RaceState::Over, Verdict::Sent)
        } else {
            (RaceState::Over, Verdict::Failed(write_error(w)))
        },
        RaceState::Both => if w is Sent {
            (RaceState::Over, Verdict::Sent)
        } else {
            (RaceState::Left { lane, error: write_error(w) }, Verdict::Open)
        },
        RaceState::Left { lane: first, error } => if w is Sent {
            (RaceState::Over, Verdict::Sent)
        } else {
            (RaceState::Over, Verdict::Failed(both_failed(first, error, write_error(w))))
        },
    }
}

/// The reason that a write which was not sent gives.
fn reason(w: Write) -> (r: Option<String>)
    ensures
        w is Sent <==> r is None,
        r is Some ==> r->0@ == write_error(w@),
{
    match w {
        Write::Sent => None,
        Write::Failed(e) => Some(e),
        Write::Crashed(e) => {
            let mut m = "task: ".to_string();
            m.append(e.as_str());
            Some(m)
        },
    }
}

/// The complaint when both links failed.
fn both_failed_text(first: Lane, e1: &str, e2: &str) -> (r: String)
    ensures
        r@ == both_failed(first, e1@, e2@),
{
    let (a, b) = match first {
        Lane::Lan => ("lan", "ble"),
        Lane::Ble => ("ble", "lan"),
    };
    let mut m = "both failed (".to_string();
    m.append(a);
    m.append(": ");
    m.append(e1);
    m.append("; ");
    m.append(b);
    m.append(": ");
    m.append(e2);
    m.append(")");
    m
}

impl FrameRace {
    /// Starts sending over the links that there are.
    pub fn begin(lan: bool, ble: bool) -> (r: (Self, Verdict))
        ensures
            (r.0@, r.1@) == race_start(lan, ble),
    {
        if lan && ble {
            (FrameRace { state: RaceState::Both }, Verdict::Open)
        } else if lan || ble {
            (FrameRace { state: RaceState::One }, Verdict::Open)
        } else {
            (
                FrameRace { state: RaceState::Over },
                Verdict::Failed("no active session".to_string()),
            )
        }
    }

    /// Takes note of what came of sending over `lane`.
    pub fn step(&mut self, lane: Lane, w: Write) -> (r: Verdict)
        ensures
            (final(self)@, r@) == race_step(old(self)@, lane, w@),
    {
        let mut state = RaceState::Over;
        std::mem::swap(&mut state, &mut self.state);
        match state {
            RaceState::Over => Verdict::Open,
            RaceState::One => match reason(w) {
                None => Verdict::Sent,
                Some(e) => Verdict::Failed(e),
            },
            RaceState::Both => match reason(w) {
                None => Verdict::Sent,
                Some(e) => {
                    self.state = RaceState::Left { lane, error: e };
                    Verdict::Open
                },
            },
            RaceState::Left { lane: first, error } => match reason(w) {
                None => Verdict::Sent,
                Some(e) => Verdict::Failed(both_failed_text(first, error.as_str(), e.as_str())),
            },
        }
    }
}

/// With both links up, a request fails only when both links fail, and goes out
/// as soon as one of them has sent it, whichever link ends first.
pub proof fn lemma_either_link_suffices(first: Lane, a: Write<Seq<char>>, b: Write<Seq<char>>)
    ensures
        ({
            let (s1, v1) = race_step(race_start(true, true).0, first, a);
            let (s2, v2) = race_step(s1, other_lane(first), b);
            &&& a is Sent ==> v1 is Sent
            &&& !(a is Sent) ==> v1 is Open
            &&& !(a is Sent) && b is Sent ==> v2 is Sent
            &&& !(a is Sent) && !(b is Sent) ==> v2 == Verdict::Failed(
                both_failed(first, write_error(a), write_error(b)),
            )
            &&& s2 is Over
        }),
{
}

/// Whether the laptop lets the earbuds go.
#[derive(Debug, Clone, Copy, PartialEq, Eq, Structural)]
pub enum Acceptance {
    Allow,
    /// The laptop is on a call of its own.
    RejectInCall,
}

/// Whether the laptop lets the earbuds go: not while it is on a call through
/// them.
pub fn acceptance(on_headset_call: bool) -> (r: Acceptance)
    ensures
        r == if on_headset_call {
            Acceptance::RejectInCall
        } else {
            Acceptance::Allow
        },
{
    if on_headset_call {
        Acceptance::RejectInCall
    } else {
        Acceptance::Allow
    }
}

/// Whether the earbuds' sound card has to be moved off its headset profile:
/// they are here, the card does not play music, and no call needs it that way.
pub fn needs_a2dp_repair(active_here: bool, card_on_a2dp: bool, on_headset_call: bool) -> (r: bool)
    ensures
        r == (active_here && !card_on_a2dp && !on_headset_call),
{
    active_here && !card_on_a2dp && !on_headset_call
}

/// Earbuds that the user chose, or that were adopted.
#[derive(Debug, Clone, PartialEq, Eq)]
pub struct SavedEarbuds<S = String> {
    pub address: S,
    pub name: S,
}

impl View for SavedEarbuds {
    type V = SavedEarbuds<Seq<char>>;

    open spec fn view(&self) -> SavedEarbuds<Seq<char>> {
        SavedEarbuds { address: self.address@, name: self.name@ }
    }
}

/// What optional earbuds say.
pub open spec fn saved_view(s: Option<SavedEarbuds>) -> Option<SavedEarbuds<Seq<char>>> {
    match s {
        Some(b) => Some(b@),
        None => None,
    }
}

/// What a peer reports of its earbuds.
#[derive(Debug)]
pub struct EarbudsReport {
    pub address: String,
    pub name: String,
    pub connected: bool,
}

/// The earbuds to save from a peer's report: those that it reports as connected,
/// under an address, when none are saved here. The user's own choice is never
/// replaced.
pub fn persist_peer_earbuds(report: Option<EarbudsReport>, already_saved: bool) -> (r: Option<
    SavedEarbuds,
>)
    ensures
        saved_view(r) == match report {
            Some(b) => if b.connected && b.address@.len() > 0 && !already_saved {
                Some(SavedEarbuds { address: b.address@, name: b.name@ })
            } else {
                None
            },
            None => None,
        },
{
    match report {
        Some(b) => {
            if b.connected && chars_of(b.address.as_str()).len() > 0 && !already_saved {
                Some(SavedEarbuds { address: b.address, name: b.name })
            } else {
                None
            }
        },
        None => None,
    }
}

/// What the first start does about earbuds.
pub struct Adoption {
    /// The earbuds to save.
    pub save: Option<SavedEarbuds>,
    /// Whether to leave the mark that keeps this from happening again.
    pub mark_done: bool,
}

/// Whether the first start looks for connected earbuds: it has not done so
/// before, and the user has not chosen any.
pub fn wants_detection(autodetect_done: bool, already_saved: bool) -> (r: bool)
    ensures
        r == (!autodetect_done && !already_saved),
{
    !autodetect_done && !already_saved
}

/// What the first start does with the earbuds that it found: it adopts them, and
/// leaves the mark in any case, so that earbuds which the user removes later do
/// not come back.
pub fn first_run_adoption(
    autodetect_done: bool,
    already_saved: bool,
    found: Option<SavedEarbuds>,
) -> (r: Adoption)
    ensures
        saved_view(r.save) == if autodetect_done || already_saved {
            None
        } else {
            saved_view(found)
        },
        r.mark_done == !autodetect_done,
{
    let save = if autodetect_done || already_saved {
        None
    } else {
        found
    };
    Adoption { save, mark_done: !autodetect_done }
}

/// Where the dialogue about the earbuds stands.
#[derive(Debug, PartialEq, Eq)]
pub enum SwitchState {
    Idle,
    Failed,
    /// A hand-over is under way.
    Busy,
}

/// Whether no hand-over is under way.
pub fn is_settled(s: &SwitchState) -> (r: bool)
    ensures
        r == !(*s is Busy),
{
    match s {
        SwitchState::Busy => false,
        _ => true,
    }
}

/// Notices that a hand-over came to an end, and remembers whose it was.
pub struct ResumeWatch<S = String> {
    pub was_active: bool,
    /// The address of the earbuds, as far as it is known.
    pub last_mac: Option<S>,
}

impl View for ResumeWatch {
    type V = ResumeWatch<Seq<char>>;

    open spec fn view(&self) -> ResumeWatch<Seq<char>> {
        ResumeWatch { was_active: self.was_active, last_mac: text::maybe(self.last_mac) }
    }
}

/// What a change of the dialogue does: `Some` marks the end of a hand-over, with
/// the address that was last known.
pub open spec fn watch_step(
    w: ResumeWatch<Seq<char>>,
    active: bool,
    mac: Option<Seq<char>>,
) -> (ResumeWatch<Seq<char>>, Option<Option<Seq<char>>>) {
    let known = if active && mac is Some {
        mac
    } else {
        w.last_mac
    };
    if w.was_active && !active {
        (ResumeWatch { was_active: active, last_mac: None }, Some(known))
    } else {
        (ResumeWatch { was_active: active, last_mac: known }, None)
    }
}

impl ResumeWatch {
    /// No hand-over was seen yet.
    pub fn new() -> (r: Self)
        ensures
            r@ == (ResumeWatch::<Seq<char>> { was_active: false, last_mac: None }),
    {
        ResumeWatch { was_active: false, last_mac: None }
    }

    /// Takes note of a change of the dialogue. `mac` is the address that the
    /// dialogue is about, while there is one.
    pub fn on_change(&mut self, state: &SwitchState, mac: Option<String>) -> (r: Option<
        Option<String>,
    >)
        ensures
            ({
                let out = match r {
                    Some(m) => Some(text::maybe(m)),
                    None => None,
                };
                (final(self)@, out) == watch_step(old(self)@, *state is Busy, text::maybe(mac))
            }),
    {
        let active = !is_settled(state);
        if active {
            match mac {
                Some(m) => {
                    self.last_mac = Some(m);
                },
                None => {},
            }
        }
        let ended = self.was_active && !active;
        self.was_active = active;
        if ended {
            let mut mac: Option<String> = None;
            std::mem::swap(&mut mac, &mut self.last_mac);
            Some(mac)
        } else {
            None
        }
    }
}

/// What follows the end of a hand-over.
#[derive(Debug, PartialEq, Eq)]
pub enum AfterSwitch<S = String> {
    /// No media was paused for a call: leave the players alone.
    Nothing,
    /// Let the players play again.
    Resume,
    /// Wait until sound reaches the earbuds at this address, then let the players
    /// play again.
    RouteThenResume(S),
}

impl View for AfterSwitch {
    type V = AfterSwitch<Seq<char>>;

    open spec fn view(&self) -> AfterSwitch<Seq<char>> {
        match self {
            AfterSwitch::Nothing => AfterSwitch::Nothing,
            AfterSwitch::Resume => AfterSwitch::Resume,
            AfterSwitch::RouteThenResume(m) => AfterSwitch::RouteThenResume(m@),
        }
    }
}

/// What follows the end of a hand-over of the earbuds at `mac`.
pub fn after_switch(paused_for_call: bool, mac: Option<String>) -> (r: AfterSwitch)
    ensures
        r@ == if !paused_for_call {
            AfterSwitch::<Seq<char>>::Nothing
        } else {
            match text::maybe(mac) {
                Some(m) => AfterSwitch::RouteThenResume(m),
                None => AfterSwitch::Resume,
            }
        },
{
    if !paused_for_call {
        return AfterSwitch::Nothing;
    }
    match mac {
        Some(m) => AfterSwitch::RouteThenResume(m),
        None => AfterSwitch::Resume,
    }
}

/// What one look around finds.
#[derive(Debug, Clone, Copy, PartialEq, Eq, Structural)]
pub struct Surroundings {
    /// The phone says that a call is going on.
    pub in_call: bool,
    /// The laptop shows a call.
    pub pill_active: bool,
    /// No hand-over is under way.
    pub settled: bool,
    /// Media is still paused for a call.
    pub paused: bool,
    /// The earbuds are on this laptop.
    pub buds_here: bool,
}

/// What the safety net does.
#[derive(Debug, Clone, Copy, PartialEq, Eq, Structural)]
pub enum NetAction {
    Wait,
    /// Ask for the earbuds, which are on nobody.
    Reclaim,
    /// Let the players play again.
    Resume,
}

/// The number of looks that must agree before players play again.
pub const STABLE_POLLS: u8 = 2;

/// The number of looks after which earbuds on nobody are asked for.
pub const RECLAIM_POLLS: u8 = 5;

/// Lets players play again after a call even when no hand-over ever took place.
pub struct SafetyNet {
    pub stable: u8,
    pub idle_polls: u8,
}

/// The call is over, nothing is moving, and media is still paused.
pub open spec fn is_stuck(s: Surroundings) -> bool {
    !s.in_call && !s.pill_active && s.settled && s.paused
}

/// Media can play again into the earbuds.
pub open spec fn is_eligible(s: Surroundings) -> bool {
    is_stuck(s) && s.buds_here
}

/// One more, as far as there is one.
pub open spec fn one_more(n: u8) -> u8 {
    if n == u8::MAX {
        n
    } else {
        (n + 1) as u8
    }
}

/// What one look around does.
pub open spec fn net_step(stable: u8, idle: u8, s: Surroundings) -> (u8, u8, NetAction) {
    if is_eligible(s) {
        if one_more(stable) < STABLE_POLLS {
            (one_more(stable), 0, NetAction::Wait)
        } else {
            (0, 0, NetAction::Resume)
        }
    } else if is_stuck(s) {
        (
            0,
            one_more(idle),
            if one_more(idle) == RECLAIM_POLLS {
                NetAction::Reclaim
            } else {
                NetAction::Wait
            },
        )
    } else {
        (0, 0, NetAction::Wait)
    }
}

impl SafetyNet {
    /// Nothing was seen yet.
    pub fn new() -> (r: Self)
        ensures
            r.stable == 0 && r.idle_polls == 0,
    {
        SafetyNet { stable: 0, idle_polls: 0 }
    }

    /// Takes note of one look around.
    pub fn poll(&mut self, s: Surroundings) -> (r: NetAction)
        ensures
            (final(self).stable, final(self).idle_polls, r) == net_step(
                old(self).stable,
                old(self).idle_polls,
                s,
            ),
    {
        let stuck = !s.in_call && !s.pill_active && s.settled && s.paused;
        if !(stuck && s.buds_here) {
            self.stable = 0;
            if stuck {
                self.idle_polls = self.idle_polls.saturating_add(1);
                if self.idle_polls == RECLAIM_POLLS {
                    return NetAction::Reclaim;
                }
            } else {
                self.idle_polls = 0;
            }
            return NetAction::Wait;
        }
        self.idle_polls = 0;
        self.stable = self.stable.saturating_add(1);
        if self.stable < STABLE_POLLS {
            return NetAction::Wait;
        }
        self.stable = 0;
        NetAction::Resume
    }
}

/// The state of the net after a run of looks, from the start.
pub open spec fn net_after(looks: Seq<Surroundings>) -> (u8, u8)
    decreases looks.len(),
{
    if looks.len() == 0 {
        (0, 0)
    } else {
        let (stable, idle) = net_after(looks.drop_last());
        let (stable2, idle2, _) = net_step(stable, idle, looks.last());
        (stable2, idle2)
    }
}

/// What the last look of a run does.
pub open spec fn net_action(looks: Seq<Surroundings>) -> NetAction {
    let (stable, idle) = net_after(looks.drop_last());
    net_step(stable, idle, looks.last()).2
}

/// Players play again only after two looks in a row that found the call over,
/// nothing moving, media paused and the earbuds here.
pub proof fn lemma_resume_is_certain(looks: Seq<Surroundings>)
    requires
        looks.len() > 0,
        net_action(looks) is Resume,
    ensures
        looks.len() >= 2,
        is_eligible(looks.last()),
        is_eligible(looks[looks.len() - 2]),
{
    lemma_stable_says_eligible(looks.drop_last());
}

/// A count above zero says what the last look found.
proof fn lemma_stable_says_eligible(looks: Seq<Surroundings>)
    ensures
        net_after(looks).0 > 0 ==> looks.len() > 0 && is_eligible(looks.last()),
        net_after(looks).0 < STABLE_POLLS,
{
}

/// Earbuds on nobody are asked for once in a while that media stays paused: after
/// `RECLAIM_POLLS` looks, and never again before something changes.
pub proof fn lemma_reclaim_once(looks: Seq<Surroundings>, n: int)
    requires
        0 <= n < looks.len(),
        forall|j: int| n <= j < looks.len() ==> is_stuck(#[trigger] looks[j]) && !looks[j].buds_here,
        n > 0 ==> !is_stuck(looks[n - 1]),
    ensures
        net_action(looks) is Reclaim <==> looks.len() - n == RECLAIM_POLLS,
{
    lemma_idle_counts(looks.drop_last(), n);
}

/// The count of looks that found the earbuds on nobody.
proof fn lemma_idle_counts(looks: Seq<Surroundings>, n: int)
    requires
        0 <= n <= looks.len(),
        forall|j: int| n <= j < looks.len() ==> is_stuck(#[trigger] looks[j]) && !looks[j].buds_here,
        n > 0 ==> !is_stuck(looks[n - 1]),
    ensures
        net_after(looks).1 == if looks.len() - n <= u8::MAX {
            looks.len() - n
        } else {
            u8::MAX as int
        },
    decreases looks.len(),
{
    if looks.len() > n {
        let before = looks.drop_last();
        assert forall|j: int| n <= j < before.len() implies is_stuck(#[trigger] before[j])
            && !before[j].buds_here by {
            assert(before[j] == looks[j]);
        }
        lemma_idle_counts(before, n);
        assert(is_stuck(looks[looks.len() - 1]));
    } else if n > 0 {
        assert(looks.last() == looks[n - 1]);
    }
}

/// The peer and the address that earbuds on nobody are asked for with.
pub fn reclaim_target(saved: Option<SavedEarbuds>, peers: &StorageResult<Vec<TrustedPeer>>) -> (r:
    Option<([u8; 32], String)>)
    ensures
        match (saved, peers) {
            (Some(b), Ok(list)) => if list@.len() > 0 {
                r is Some && (r->0).0@ == list@[0]@.peer_static_pub && (r->0).1@ == b@.address
            } else {
                r is None
            },
            _ => r is None,
        },
{
    match (saved, peers) {
        (Some(b), Ok(list)) => {
            if list.len() > 0 {
                Some((list[0].peer_static_pub, b.address))
            } else {
                None
            }
        },
        _ => None,
    }
}

/// Whether earbuds follow the media on their own: a setting that both devices
/// share, with the time of its last change. The later change wins.
#[derive(Debug, Clone, Copy, PartialEq, Eq, Structural)]
pub struct SmartSwitch {
    pub enabled: bool,
    pub enabled_changed_at: u64,
}

impl SmartSwitch {
    /// The user changed the setting on this laptop. It is stamped with the time,
    /// but always later than before, so that it wins over what it replaces.
    pub fn set_smart_switch_enabled(&mut self, enabled: bool, now: u64)
        requires
            old(self).enabled_changed_at < u64::MAX,
        ensures
            final(self).enabled == enabled,
            final(self).enabled_changed_at == if now > old(self).enabled_changed_at {
                now as int
            } else {
                old(self).enabled_changed_at + 1
            },
            final(self).enabled_changed_at > old(self).enabled_changed_at,
    {
        self.enabled = enabled;
        self.enabled_changed_at =
        if now > self.enabled_changed_at {
            now
        } else {
            self.enabled_changed_at + 1
        };
    }

    /// Whether earbuds follow the media on their own.
    pub fn get_smart_switch_enabled(&self) -> (r: bool)
        ensures
            r == self.enabled,
    {
        self.enabled
    }
}

/// What the tray's switch does.
#[derive(Debug, PartialEq, Eq)]
pub enum Toggle<S = String, K = [u8; 32]> {
    /// Nothing can be done, for this reason.
    Refused(S),
    /// The address of the earbuds cannot be read: nothing is done.
    Ignored,
    /// Let the earbuds at `mac` go and offer them to the peer.
    HandOver { mac: S, peer: K },
    /// Ask the peer for the earbuds at `mac`.
    Grab { mac: S, peer: K },
}

impl View for Toggle {
    type V = Toggle<Seq<char>, Seq<u8>>;

    open spec fn view(&self) -> Toggle<Seq<char>, Seq<u8>> {
        match self {
            Toggle::Refused(m) => Toggle::Refused(m@),
            Toggle::Ignored => Toggle::Ignored,
            Toggle::HandOver { mac, peer } => Toggle::HandOver { mac: mac@, peer: peer@ },
            Toggle::Grab { mac, peer } => Toggle::Grab { mac: mac@, peer: peer@ },
        }
    }
}

/// The waits, in milliseconds, after which the tray is brought up to date.
pub const TRAY_PROBES_MS: [u64; 2] = [1500, 4000];

/// What the tray's switch does. `address_reads` says whether the address of the
/// saved earbuds is one, and `held_here` whether the laptop has them.
pub fn toggle_earbuds(
    saved: Option<SavedEarbuds>,
    address_reads: bool,
    peers: &StorageResult<Vec<TrustedPeer>>,
    held_here: bool,
) -> (r: Toggle)
    ensures
        r@ == match saved_view(saved) {
            None => Toggle::Refused("tray toggle: no saved earbuds"@),
            Some(b) => if !address_reads {
                Toggle::Ignored
            } else if !(peers is Ok && peers->Ok_0@.len() > 0) {
                Toggle::Refused("tray toggle: no trusted peer"@)
            } else if held_here {
                Toggle::HandOver { mac: b.address, peer: peers->Ok_0@[0]@.peer_static_pub }
            } else {
                Toggle::Grab { mac: b.address, peer: peers->Ok_0@[0]@.peer_static_pub }
            },
        },
{
    let b = match saved {
        None => return Toggle::Refused("tray toggle: no saved earbuds".to_string()),
        Some(b) => b,
    };
    if !address_reads {
        return Toggle::Ignored;
    }
    let peer: [u8; 32] = match peers {
        Ok(list) => {
            if list.len() > 0 {
                list[0].peer_static_pub
            } else {
                return Toggle::Refused("tray toggle: no trusted peer".to_string());
            }
        },
        Err(_) => return Toggle::Refused("tray toggle: no trusted peer".to_string()),
    };
    if held_here {
        Toggle::HandOver { mac: b.address, peer }
    } else {
        Toggle::Grab { mac: b.address, peer }
    }
}

/// The place of the first peer with this key, or the number of peers.
pub open spec fn place_of_peer(list: Seq<TrustedPeerView>, key: Seq<u8>) -> int
    decreases list.len(),
{
    if list.len() == 0 || list[0].peer_static_pub == key {
        0
    } else {
        1 + place_of_peer(list.drop_first(), key)
    }
}

/// Finds the first peer with this key.
pub fn find_peer(list: &Vec<TrustedPeer>, key: &[u8; 32]) -> (r: Option<usize>)
    ensures
        match r {
            Some(i) => i < list@.len() && i == place_of_peer(
                peers::peer_views(list@),
                key@,
            ),
            None => place_of_peer(peers::peer_views(list@), key@) >= list@.len(),
        },
{
    let ghost views = peers::peer_views(list@);
    let mut i: usize = 0;
    assert(views.skip(0) =~= views);
    while i < list.len()
        invariant
            i <= list@.len(),
            views == peers::peer_views(list@),
            place_of_peer(views, key@) == i + place_of_peer(views.skip(i as int), key@),
        decreases list.len() - i,
    {
        assert(views.skip(i as int).drop_first() =~= views.skip(i + 1));
        assert(views.skip(i as int)[0] == list@[i as int]@);
        if same_key(&list[i].peer_static_pub, key) {
            return Some(i);
        }
        i += 1;
    }
    None
}

/// Why a request names no trusted peer.
pub open spec fn unresolved(
    hex: Seq<char>,
    list: Result<Seq<TrustedPeerView>, StorageError<Seq<char>>>,
    what: Seq<char>,
) -> Option<Seq<char>> {
    match keys::key_in(hex) {
        None => Some(what + ": bad peer_static_pub hex"@),
        Some(key) => match list {
            Err(e) => Some("peer_store.list for "@ + what + ": "@ + storage::error_text(e)),
            Ok(l) => if place_of_peer(l, key) < l.len() {
                None
            } else {
                Some(what + ": peer not in trust store"@)
            },
        },
    }
}

/// What a listing of peers says.
pub open spec fn listing(r: Result<Vec<TrustedPeer>, StorageError>) -> Result<
    Seq<TrustedPeerView>,
    StorageError<Seq<char>>,
> {
    match r {
        Ok(l) => Ok(peers::peer_views(l@)),
        Err(e) => Err(e@),
    }
}

/// `what` and then `rest`.
fn said(what: &str, rest: &str) -> (r: String)
    ensures
        r@ == what@ + rest@,
{
    let mut m = what.to_string();
    m.append(rest);
    m
}

/// The place, in the listing, of the peer that a request names by its key in
/// hexadecimal, or why there is none. `what` is the request, for the log.
pub fn resolve_peer(hex: &str, list: &StorageResult<Vec<TrustedPeer>>, what: &str) -> (r: Result<
    usize,
    String,
>)
    ensures
        match unresolved(hex@, listing(*list), what@) {
            Some(m) => r is Err && r->Err_0@ == m,
            None => r is Ok && r->Ok_0 < list->Ok_0@.len() && r->Ok_0 == place_of_peer(
                peers::peer_views(list->Ok_0@),
                keys::key_in(hex@)->0,
            ),
        },
{
    let key = match parse_key(hex) {
        Some(key) => key,
        None => return Err(said(what, ": bad peer_static_pub hex")),
    };
    match list {
        Err(e) => {
            let mut m = "peer_store.list for ".to_string();
            m.append(what);
            m.append(": ");
            let t = e.text();
            m.append(t.as_str());
            Err(m)
        },
        Ok(l) => match find_peer(l, &key) {
            Some(i) => Ok(i),
            None => Err(said(what, ": peer not in trust store")),
        },
    }
}

/// What a peer is called for over the local network.
#[derive(Debug, Clone, Copy, PartialEq, Eq, Structural)]
pub enum Errand {
    Switch,
    Claim,
}

/// What keeps an errand from being run; the empty text is not worth a line in
/// the log.
pub open spec fn no_route(errand: Errand, found: Result<Option<LanCandidate>, Seq<char>>) -> Option<
    Seq<char>,
> {
    match (errand, found) {
        (Errand::Switch, Ok(None)) => Some("switch: no LAN candidate (peer offline?)"@),
        (Errand::Switch, Err(e)) => Some("switch: mdns error: "@ + e),
        (Errand::Claim, Ok(None)) => Some("claim: no LAN candidate"@),
        (Errand::Claim, Err(_)) => Some("claim: no LAN candidate"@),
        (_, Ok(Some(c))) => if c.addresses@.len() > 0 {
            None
        } else if errand is Switch {
            Some("switch: candidate had no IP"@)
        } else {
            Some(""@)
        },
    }
}

/// What looking for a peer on the local network found.
pub open spec fn found_view(found: Result<Option<LanCandidate>, String>) -> Result<
    Option<LanCandidate>,
    Seq<char>,
> {
    match found {
        Ok(c) => Ok(c),
        Err(e) => Err(e@),
    }
}

/// Where an errand goes, given what looking for the peer found.
pub fn errand_route(errand: Errand, found: &Result<Option<LanCandidate>, String>) -> (r: Result<
    (HostAddr, u16),
    String,
>)
    ensures
        match no_route(errand, found_view(*found)) {
            Some(m) => r is Err && r->Err_0@ == m,
            None => r is Ok && Some((r->Ok_0).0) == lan::preferred((found->Ok_0)->0.addresses@) && (
            r->Ok_0).1 == (found->Ok_0)->0.port,
        },
{
    match found {
        Ok(Some(c)) => match preferred_address(&c.addresses) {
            Some(ip) => Ok((ip, c.port)),
            None => match errand {
                Errand::Switch => Err("switch: candidate had no IP".to_string()),
                Errand::Claim => Err("".to_string()),
            },
        },
        Ok(None) => match errand {
            Errand::Switch => Err("switch: no LAN candidate (peer offline?)".to_string()),
            Errand::Claim => Err("claim: no LAN candidate".to_string()),
        },
        Err(e) => match errand {
            Errand::Switch => Err(said("switch: mdns error: ", e.as_str())),
            Errand::Claim => Err("claim: no LAN candidate".to_string()),
        },
    }
}

/// The programs that open the Bluetooth settings of a desktop, the more
/// specific ones first.
pub open spec fn bluetooth_launchers() -> Seq<Seq<Seq<char>>> {
    seq![
        seq!["gnome-control-center"@, "bluetooth"@],
        seq!["blueberry"@],
        seq!["blueman-manager"@],
        seq!["systemsettings5"@, "bluetooth"@],
        seq!["plasma-settings"@, "kcm_bluetooth"@],
        seq!["xdg-open"@, "bluetooth://"@],
    ]
}

/// The command line that opens the Bluetooth settings, when the `tried` ones
/// before it could not be started; at the end of the list, the complaint.
pub fn open_bluetooth_settings(tried: usize) -> (r: Result<Vec<String>, String>)
    ensures
        tried < bluetooth_launchers().len() ==> r is Ok && text::texts(r->Ok_0@)
            == bluetooth_launchers()[tried as int],
        tried >= bluetooth_launchers().len() ==> r is Err && r->Err_0@
            == "no Bluetooth settings launcher found"@,
{
    let (cmd, arg): (&str, Option<&str>) = if tried == 0 {
        ("gnome-control-center", Some("bluetooth"))
    } else if tried == 1 {
        ("blueberry", None)
    } else if tried == 2 {
        ("blueman-manager", None)
    } else if tried == 3 {
        ("systemsettings5", Some("bluetooth"))
    } else if tried == 4 {
        ("plasma-settings", Some("kcm_bluetooth"))
    } else if tried == 5 {
        ("xdg-open", Some("bluetooth://"))
    } else {
        return Err("no Bluetooth settings launcher found".to_string());
    };
    let mut argv: Vec<String> = Vec::new();
    argv.push(cmd.to_string());
    match arg {
        Some(a) => {
            argv.push(a.to_string());
        },
        None => {},
    }
    assert(text::texts(argv@) =~= bluetooth_launchers()[tried as int]);
    Ok(argv)
}

/// With one link up, what came of the request is what came of that link: it went out if
/// and only if the link sent it, and otherwise the reason is the link's own.
pub proof fn lemma_one_link_decides(lan: bool, ble: bool, lane: Lane, w: Write<Seq<char>>)
    requires
        lan != ble,
    ensures
        ({
            let (s0, v0) = race_start(lan, ble);
            let (s1, v1) = race_step(s0, lane, w);
            &&& v0 is Open
            &&& v1 is Sent <==> w is Sent
            &&& !(w is Sent) ==> v1 is Failed
            &&& w matches Write::Failed(e) ==> v1 == Verdict::Failed(e)
            &&& w matches Write::Crashed(e) ==> v1 == Verdict::Failed("task: "@ + e)
            &&& s1 is Over
        }),
{
}

/// Without a link nothing is sent, and that is known at once. With two it is open until
/// one of them has sent, or both have failed; then both reasons are told, that of the link
/// which failed first before the other. What a link reports after that changes nothing.
pub proof fn lemma_course_of_a_request(
    first: Lane,
    e1: Seq<char>,
    e2: Seq<char>,
    lane: Lane,
    w: Write<Seq<char>>,
)
    ensures
        race_start(false, false).1 == Verdict::Failed("no active session"@),
        race_start(true, true).1 is Open,
        ({
            let both = race_start(true, true).0;
            let (s1, v1) = race_step(both, first, Write::Failed(e1));
            let lost = race_step(s1, lane, Write::Failed(e2));
            let won = race_step(s1, lane, Write::Sent);
            &&& race_step(both, lane, Write::Sent).1 is Sent
            &&& v1 is Open
            &&& won.1 is Sent
            &&& first is Lan ==> lost.1 == Verdict::Failed(
                "both failed ("@ + "lan"@ + ": "@ + e1 + "; "@ + "ble"@ + ": "@ + e2 + ")"@,
            )
            &&& first is Ble ==> lost.1 == Verdict::Failed(
                "both failed ("@ + "ble"@ + ": "@ + e1 + "; "@ + "lan"@ + ": "@ + e2 + ")"@,
            )
            &&& race_step(won.0, lane, w) == (RaceState::<Seq<char>>::Over, Verdict::<
                Seq<char>,
            >::Open)
            &&& race_step(lost.0, lane, w) == (RaceState::<Seq<char>>::Over, Verdict::<
                Seq<char>,
            >::Open)
        }),
{
}

/// The same, of the calls themselves: a request over the one link that there is, which
/// the link sent, is reported as sent.
pub proof fn lemma_sent_request_is_reported(
    lan: bool,
    ble: bool,
    begun: (FrameRace, Verdict),
    race: &mut FrameRace,
    lane: Lane,
    w: Write,
    v: Verdict,
)
    requires
        call_ensures(FrameRace::begin, (lan, ble), begun),
        old(race)@ == begun.0@,
        call_ensures(FrameRace::step, (race, lane, w), v),
    ensures
        !lan && !ble ==> begun.1 is Failed && v@ is Open,
        lan || ble ==> begun.1 is Open,
        (lan || ble) && w@ is Sent ==> v@ is Sent,
        lan != ble && !(w@ is Sent) ==> v@ is Failed,
        lan && ble && !(w@ is Sent) ==> v@ is Open,
{
}

/// The end of a hand-over is noticed exactly when a dialogue that was under way is so no
/// more, and comes with the last address that was heard of while it was. The next
/// hand-over starts without one.
pub proof fn lemma_end_of_a_hand_over(
    w: ResumeWatch<Seq<char>>,
    active: bool,
    mac: Option<Seq<char>>,
)
    ensures
        ({
            let (next, ended) = watch_step(w, active, mac);
            &&& ended is Some <==> w.was_active && !active
            &&& ended is Some ==> ended->0 == w.last_mac && next.last_mac is None
            &&& active && mac is Some ==> next.last_mac == mac
            &&& active && mac is None ==> next.last_mac == w.last_mac
            &&& next.was_active == active
        }),
{
}

/// A hand-over from its start to its end gives the address that it was about.
pub proof fn lemma_hand_over_is_remembered(w: ResumeWatch<Seq<char>>, mac: Seq<char>)
    ensures
        ({
            let begun = watch_step(w, true, Some(mac)).0;
            let moved = watch_step(begun, true, None).0;
            watch_step(moved, false, None).1 == Some(Some(mac))
        }),
{
}

/// What the safety net does about media that stays paused after a call, in terms of what
/// it sees. With the call over, nothing moving and the earbuds here, players play again
/// at the second such look, which starts the count over. As long as the earbuds are on
/// nobody, nothing plays; at the fifth such look in a row they are asked for. Anything
/// else ends both counts and does nothing.
pub proof fn lemma_safety_net_acts(stable: u8, idle: u8, s: Surroundings)
    ensures
        ({
            let (stable2, idle2, action) = net_step(stable, idle, s);
            let over = !s.in_call && !s.pill_active && s.settled && s.paused;
            &&& over && s.buds_here ==> idle2 == 0
            &&& over && s.buds_here && stable == 0 ==> action is Wait && stable2 == 1
            &&& over && s.buds_here && stable > 0 ==> action is Resume && stable2 == 0
            &&& over && !s.buds_here ==> stable2 == 0 && !(action is Resume)
            &&& over && !s.buds_here && idle < 255 ==> idle2 == idle + 1
            &&& over && !s.buds_here ==> (action is Reclaim <==> idle == 4)
            &&& !over ==> stable2 == 0 && idle2 == 0 && action is Wait
        }),
{
}

/// Two looks in a row that find everything in order let the players play again.
pub proof fn lemma_players_play_again(looks: Seq<Surroundings>, s: Surroundings)
    requires
        !s.in_call && !s.pill_active && s.settled && s.paused && s.buds_here,
        looks.len() == 0 || !looks.last().buds_here || looks.last().in_call,
    ensures
        net_action(looks.push(s)) is Wait,
        net_action(looks.push(s).push(s)) is Resume,
{
    let one = looks.push(s);
    assert(one.drop_last() =~= looks);
    assert(one.push(s).drop_last() =~= one);
    assert(net_after(looks).0 == 0) by {
        lemma_stable_says_eligible(looks);
    }
    assert(net_after(one) == (1u8, 0u8));
}

/// What the laptop answers when the phone asks for the earbuds, what it does when a
/// hand-over is over, and when it repairs their sound: it keeps them during a call of its
/// own and never otherwise; it leaves players alone that no call paused; and it takes the
/// headset profile away only from earbuds that are here and that no call uses.
pub proof fn lemma_who_gets_the_earbuds(
    on_call: bool,
    answer: Acceptance,
    here: bool,
    music: bool,
    repair: bool,
    paused: bool,
    mac: Option<String>,
    after: AfterSwitch,
)
    requires
        call_ensures(acceptance, (on_call,), answer),
        call_ensures(needs_a2dp_repair, (here, music, on_call), repair),
        call_ensures(after_switch, (paused, mac), after),
    ensures
        answer is RejectInCall <==> on_call,
        repair <==> here && !music && !on_call,
        after is Nothing <==> !paused,
        paused && mac is None ==> after is Resume,
        paused && mac is Some ==> after is RouteThenResume && after->RouteThenResume_0@
            == mac->0@,
{
    assert(after@ is Nothing <==> after is Nothing);
}

/// Earbuds are saved from the phone's report only where none are saved, and the first
/// start adopts connected ones at most once: the user's own choice stays.
pub proof fn lemma_users_choice_stays(
    report: Option<EarbudsReport>,
    saved: bool,
    from_peer: Option<SavedEarbuds>,
    done: bool,
    found: Option<SavedEarbuds>,
    first: Adoption,
    wants: bool,
)
    requires
        call_ensures(persist_peer_earbuds, (report, saved), from_peer),
        call_ensures(first_run_adoption, (done, saved, found), first),
        call_ensures(wants_detection, (done, saved), wants),
    ensures
        saved ==> from_peer is None && first.save is None && !wants,
        done ==> first.save is None && !first.mark_done && !wants,
        !done ==> first.mark_done,
        !saved && !done ==> wants && (found is Some ==> first.save is Some && first.save->0@
            == found->0@),
        from_peer is Some <==> !saved && report is Some && report->0.connected
            && report->0.address@.len() > 0,
        from_peer is Some ==> from_peer->0@.address == report->0.address@ && from_peer->0@.name
            == report->0.name@,
{
}

/// The tray's switch gives the earbuds away when they are here and fetches them when they
/// are not, always the saved ones and always with the first trusted peer; what is asked
/// for after a call are the same earbuds, of the same peer.
pub proof fn lemma_toggle_moves_the_saved_earbuds(
    saved: Option<SavedEarbuds>,
    reads: bool,
    peers: &StorageResult<Vec<TrustedPeer>>,
    here: bool,
    t: Toggle,
    target: Option<([u8; 32], String)>,
)
    requires
        call_ensures(toggle_earbuds, (saved, reads, peers, here), t),
        call_ensures(reclaim_target, (saved, peers), target),
    ensures
        saved is None ==> t@ is Refused && target is None,
        saved is Some && !reads ==> t@ is Ignored,
        saved is Some && reads && (peers is Err || peers->Ok_0@.len() == 0) ==> t@ is Refused,
        saved is Some && reads && peers is Ok && peers->Ok_0@.len() > 0 ==> {
            let first = peers->Ok_0@[0]@.peer_static_pub;
            &&& here ==> t@ == (Toggle::HandOver { mac: saved->0@.address, peer: first })
            &&& !here ==> t@ == (Toggle::Grab { mac: saved->0@.address, peer: first })
            &&& target is Some && (target->0).0@ == first && (target->0).1@ == saved->0@.address
        },
        target is Some ==> saved is Some && peers is Ok && peers->Ok_0@.len() > 0,
{
}

/// A change of the smart switch here always counts as later than what it replaces.
pub proof fn lemma_local_choice_is_the_latest(s: &mut SmartSwitch, enabled: bool, now: u64)
    requires
        old(s).enabled_changed_at < u64::MAX,
        call_ensures(SmartSwitch::set_smart_switch_enabled, (s, enabled, now), ()),
    ensures
        final(s).enabled == enabled,
        final(s).enabled_changed_at > old(s).enabled_changed_at,
        final(s).enabled_changed_at >= now,
        final(s).enabled_changed_at == now || final(s).enabled_changed_at == old(
            s,
        ).enabled_changed_at + 1,
{
}

/// A peer is found by its key, and the first of several with the key is the one.
pub proof fn lemma_peer_is_found_by_its_key(list: Seq<TrustedPeerView>, key: Seq<u8>, i: int)
    requires
        0 <= i < list.len(),
        list[i].peer_static_pub == key,
        forall|j: int| 0 <= j < i ==> (#[trigger] list[j]).peer_static_pub != key,
    ensures
        place_of_peer(list, key) == i,
    decreases list.len(),
{
    if i > 0 {
        assert(list[0].peer_static_pub != key);
        let rest = list.drop_first();
        assert forall|j: int| 0 <= j < i - 1 implies (#[trigger] rest[j]).peer_static_pub != key by {
            assert(list[j + 1].peer_static_pub != key);
        }
        lemma_peer_is_found_by_its_key(rest, key, i - 1);
    }
}

/// Why the earbuds do not move, in words.
pub proof fn lemma_refused_moves_in_words(
    saved: Option<SavedEarbuds>,
    reads: bool,
    peers: &StorageResult<Vec<TrustedPeer>>,
    held: bool,
    r: Toggle,
    hex: &str,
    what: &str,
    p: Result<usize, String>,
)
    requires
        call_ensures(toggle_earbuds, (saved, reads, peers, held), r),
        call_ensures(resolve_peer, (hex, peers, what), p),
    ensures
        saved is None ==> r@ == Toggle::<Seq<char>, Seq<u8>>::Refused("tray toggle: no saved earbuds"@),
        saved is Some && reads && (peers is Err || peers->Ok_0@.len() == 0) ==> r@ == Toggle::<
            Seq<char>,
            Seq<u8>,
        >::Refused("tray toggle: no trusted peer"@),
        !codec::is_hex_text(hex@) || hex@.len() != 64 ==> p is Err && p->Err_0@ == what@
            + ": bad peer_static_pub hex"@,
        codec::is_hex_text(hex@) && hex@.len() == 64 && peers is Err ==> p is Err && p->Err_0@
            == "peer_store.list for "@ + what@ + ": "@ + storage::error_text((peers->Err_0)@),
        codec::is_hex_text(hex@) && hex@.len() == 64 && peers is Ok && peers->Ok_0@.len() == 0 ==> p is Err
            && p->Err_0@ == what@ + ": peer not in trust store"@,
{
}

/// Why a peer is not reached on an errand, in words, and where it is reached.
pub proof fn lemma_errands_in_words(
    errand: Errand,
    found: &Result<Option<LanCandidate>, String>,
    r: Result<(HostAddr, u16), String>,
)
    requires
        call_ensures(errand_route, (errand, found), r),
    ensures
        errand is Switch && found is Ok && found->Ok_0 is None ==> r is Err && r->Err_0@
            == "switch: no LAN candidate (peer offline?)"@,
        errand is Switch && found is Err ==> r is Err && r->Err_0@ == "switch: mdns error: "@
            + found->Err_0@,
        errand is Claim && (found is Err || found->Ok_0 is None) ==> r is Err && r->Err_0@
            == "claim: no LAN candidate"@,
        found is Ok && found->Ok_0 is Some && (found->Ok_0)->0.addresses@.len() == 0 ==> r is Err && (
        errand is Switch ==> r->Err_0@ == "switch: candidate had no IP"@),
        found is Ok && found->Ok_0 is Some && (found->Ok_0)->0.addresses@.len() > 0 ==> r is Ok && (
        r->Ok_0).1 == (found->Ok_0)->0.port,
{
}

/// The programs that open the Bluetooth settings, in the order in which they are tried.
pub proof fn lemma_settings_are_tried_in_order(tried: usize, r: Result<Vec<String>, String>)
    requires
        call_ensures(open_bluetooth_settings, (tried,), r),
    ensures
        tried == 0 ==> text::texts(r->Ok_0@) == seq!["gnome-control-center"@, "bluetooth"@],
        tried == 1 ==> text::texts(r->Ok_0@) == seq!["blueberry"@],
        tried == 2 ==> text::texts(r->Ok_0@) == seq!["blueman-manager"@],
        tried == 3 ==> text::texts(r->Ok_0@) == seq!["systemsettings5"@, "bluetooth"@],
        tried == 4 ==> text::texts(r->Ok_0@) == seq!["plasma-settings"@, "kcm_bluetooth"@],
        tried == 5 ==> text::texts(r->Ok_0@) == seq!["xdg-open"@, "bluetooth://"@],
        tried >= 6 ==> r is Err && r->Err_0@ == "no Bluetooth settings launcher found"@,
        tried < 6 ==> r is Ok,
{
}

/// A switch is settled once it is no longer busy; the setting is the one that was made last.
pub proof fn lemma_switch_settles(
    s: &SwitchState,
    settled: bool,
    list: &Vec<TrustedPeer>,
    key: &[u8; 32],
    r: Option<usize>,
)
    requires
        call_ensures(is_settled, (s,), settled),
        call_ensures(find_peer, (list, key), r),
    ensures
        settled <==> !(*s is Busy),
        r is Some ==> r->0 < list@.len() && list@[r->0 as int].peer_static_pub@ == key@,
        r is Some ==> forall|j: int|
            0 <= j < r->0 ==> (#[trigger] list@[j]).peer_static_pub@ != key@,
        r is None ==> forall|j: int|
            0 <= j < list@.len() ==> (#[trigger] list@[j]).peer_static_pub@ != key@,
{
    let v = peers::peer_views(list@);
    lemma_place_of_a_peer(v, key@);
    assert forall|j: int| 0 <= j < list@.len() implies (#[trigger] list@[j]).peer_static_pub@
        == v[j].peer_static_pub by {}
}

proof fn lemma_place_of_a_peer(v: Seq<TrustedPeerView>, key: Seq<u8>)
    ensures
        0 <= place_of_peer(v, key) <= v.len(),
        place_of_peer(v, key) < v.len() ==> v[place_of_peer(v, key)].peer_static_pub == key,
        forall|j: int| 0 <= j < place_of_peer(v, key) ==> (#[trigger] v[j]).peer_static_pub != key,
    decreases v.len(),
{
    if v.len() > 0 && v[0].peer_static_pub != key {
        let rest = v.drop_first();
        lemma_place_of_a_peer(rest, key);
        let n = place_of_peer(rest, key);
        if n < rest.len() {
            assert(rest[n] == v[n + 1]);
        }
        assert forall|j: int| 0 <= j < n + 1 implies (#[trigger] v[j]).peer_static_pub != key by {
            if j > 0 {
                assert(rest[j - 1] == v[j]);
            }
        }
    }
}

/// After a toggle the earbuds are looked at twice.
pub proof fn lemma_looks_after_a_toggle()
    ensures
        TRAY_PROBES_MS@ == seq![1_500u64, 4_000u64],
{
    assert(TRAY_PROBES_MS@ =~= seq![1_500u64, 4_000u64]);
}

} // verus!
