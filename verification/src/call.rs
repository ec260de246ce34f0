//! Call mirroring: the phone reports what its call is doing, and the laptop
//! shows a banner while it rings, a pill with a running timer while it lasts,
//! and a note when it was missed. The buttons of these send commands back.
//!
//! The types of this module are generic in their text type: the program holds
//! `String`s, and the contracts speak of the same types over `Seq<char>`.

use vstd::prelude::*;

use crate::text;
use crate::text::same_text;

verus! {

/// The state that a call event reports.
pub enum CallPhase<S = String> {
    Ringing,
    Active,
    Ended,
    /// A phase that this version does not know.
    Other(S),
}

/// What the phone reports of its call.
pub struct CallEvent<S = String> {
    pub id: S,
    pub phase: CallPhase<S>,
    pub name: S,
    pub number: S,
    pub app_id: S,
    pub outgoing: bool,
    pub connected: bool,
    pub muted: bool,
    pub speaker: bool,
    pub has_earbuds: bool,
    /// When the call was connected, in the phone's epoch milliseconds; 0 when unknown.
    pub started_at: i64,
    /// When the phone sent the report, in its epoch milliseconds; 0 when unknown.
    pub sent_at: i64,
}

/// A pill: something that goes on right now, shown until it is taken down.
pub struct LiveActivity<S = String> {
    pub key: S,
    pub app: S,
    pub app_id: S,
    pub title: S,
    pub text: S,
    pub sub: S,
    pub progress: i32,
    pub started_at: i64,
    pub muted: bool,
    pub speaker: bool,
    pub has_earbuds: bool,
    pub ended: bool,
    pub playing: Option<bool>,
}

/// What the laptop remembers of the mirrored call.
pub struct CallState<S = String> {
    /// The notification that shows the ringing call; 0 for none.
    pub banner_id: u32,
    /// The call that the buttons act on; empty for none.
    pub call_id: S,
    /// The caller line of the ringing banner, kept for showing it again quietly.
    pub ring_title: S,
    pub ring_body: S,
    pub ring_app_id: S,
    /// The user has dismissed the ringing banner once.
    pub banner_silenced: bool,
    /// The call and phase that were handled last.
    pub handled_id: S,
    pub handled_phase: CallPhase<S>,
    /// What the pill shows.
    pub pill_started_ms: i64,
    pub pill_title: S,
    pub pill_app_id: S,
    pub pill_text: S,
    pub pill_muted: bool,
    pub pill_speaker: bool,
    pub pill_earbuds: bool,
    /// The pill shows the timer of a connected call.
    pub pill_connected: bool,
    /// A call is on screen, as a banner or as a pill.
    pub pill_active: bool,
    /// The call on screen; empty for none.
    pub current_call_id: S,
    /// Goes up with every change of phase, so that an older keep-alive stops.
    pub generation: u64,
}

/// What the program is to do about an event.
pub enum CallEffect<S = String> {
    /// Wake the heartbeat: a call has come on screen.
    Nudge,
    /// Show the ringing banner, in place of the banner `replaces` (0 for none).
    ShowBanner { title: S, body: S, app_id: S, replaces: u32, urgent: bool },
    /// Take a banner down.
    CloseBanner(u32),
    /// Leave a note of a missed call, whose button calls `number` back.
    ShowMissed { title: S, app_id: S, number: S },
    /// Show the pill, or update it in place.
    Publish(LiveActivity<S>),
    /// Keep the pill alive as long as this generation lasts.
    KeepAlive(u64),
}

impl View for CallPhase<String> {
    type V = CallPhase<Seq<char>>;

    open spec fn view(&self) -> CallPhase<Seq<char>> {
        match self {
            CallPhase::Ringing => CallPhase::Ringing,
            CallPhase::Active => CallPhase::Active,
            CallPhase::Ended => CallPhase::Ended,
            CallPhase::Other(s) => CallPhase::Other(s@),
        }
    }
}

impl View for CallEvent<String> {
    type V = CallEvent<Seq<char>>;

    open spec fn view(&self) -> CallEvent<Seq<char>> {
        CallEvent {
            id: self.id@,
            phase: self.phase@,
            name: self.name@,
            number: self.number@,
            app_id: self.app_id@,
            outgoing: self.outgoing,
            connected: self.connected,
            muted: self.muted,
            speaker: self.speaker,
            has_earbuds: self.has_earbuds,
            started_at: self.started_at,
            sent_at: self.sent_at,
        }
    }
}

impl View for LiveActivity<String> {
    type V = LiveActivity<Seq<char>>;

    open spec fn view(&self) -> LiveActivity<Seq<char>> {
        LiveActivity {
            key: self.key@,
            app: self.app@,
            app_id: self.app_id@,
            title: self.title@,
            text: self.text@,
            sub: self.sub@,
            progress: self.progress,
            started_at: self.started_at,
            muted: self.muted,
            speaker: self.speaker,
            has_earbuds: self.has_earbuds,
            ended: self.ended,
            playing: self.playing,
        }
    }
}

impl View for CallState<String> {
    type V = CallState<Seq<char>>;

    open spec fn view(&self) -> CallState<Seq<char>> {
        CallState {
            banner_id: self.banner_id,
            call_id: self.call_id@,
            ring_title: self.ring_title@,
            ring_body: self.ring_body@,
            ring_app_id: self.ring_app_id@,
            banner_silenced: self.banner_silenced,
            handled_id: self.handled_id@,
            handled_phase: self.handled_phase@,
            pill_started_ms: self.pill_started_ms,
            pill_title: self.pill_title@,
            pill_app_id: self.pill_app_id@,
            pill_text: self.pill_text@,
            pill_muted: self.pill_muted,
            pill_speaker: self.pill_speaker,
            pill_earbuds: self.pill_earbuds,
            pill_connected: self.pill_connected,
            pill_active: self.pill_active,
            current_call_id: self.current_call_id@,
            generation: self.generation,
        }
    }
}

impl View for CallEffect<String> {
    type V = CallEffect<Seq<char>>;

    open spec fn view(&self) -> CallEffect<Seq<char>> {
        match self {
            CallEffect::Nudge => CallEffect::Nudge,
            CallEffect::ShowBanner { title, body, app_id, replaces, urgent } => {
                CallEffect::ShowBanner {
                    title: title@,
                    body: body@,
                    app_id: app_id@,
                    replaces: *replaces,
                    urgent: *urgent,
                }
            },
            CallEffect::CloseBanner(id) => CallEffect::CloseBanner(*id),
            CallEffect::ShowMissed { title, app_id, number } => CallEffect::ShowMissed {
                title: title@,
                app_id: app_id@,
                number: number@,
            },
            CallEffect::Publish(pill) => CallEffect::Publish(pill@),
            CallEffect::KeepAlive(generation) => CallEffect::KeepAlive(*generation),
        }
    }
}

/// What a list of effects says.
pub open spec fn effects_view(effects: Seq<CallEffect<String>>) -> Seq<CallEffect<Seq<char>>> {
    effects.map_values(|e: CallEffect<String>| e@)
}

/// Nothing is mirrored.
pub open spec fn idle_state() -> CallState<Seq<char>> {
    CallState {
        banner_id: 0,
        call_id: Seq::empty(),
        ring_title: Seq::empty(),
        ring_body: Seq::empty(),
        ring_app_id: Seq::empty(),
        banner_silenced: false,
        handled_id: Seq::empty(),
        handled_phase: CallPhase::Other(Seq::empty()),
        pill_started_ms: 0,
        pill_title: Seq::empty(),
        pill_app_id: Seq::empty(),
        pill_text: Seq::empty(),
        pill_muted: false,
        pill_speaker: false,
        pill_earbuds: false,
        pill_connected: false,
        pill_active: false,
        current_call_id: Seq::empty(),
        generation: 0,
    }
}

/// The first of the contact's name and the number that is known, and a generic
/// word when neither is.
pub open spec fn caller_line(name: Seq<char>, number: Seq<char>, unknown: Seq<char>) -> Seq<char> {
    if name.len() > 0 {
        name
    } else if number.len() > 0 {
        number
    } else {
        unknown
    }
}

/// The second line of the ringing banner: the number when the first line is a name.
pub open spec fn ring_line(name: Seq<char>, number: Seq<char>) -> Seq<char> {
    if name.len() > 0 && number.len() > 0 {
        "Incoming call · "@ + number
    } else {
        "Incoming call"@
    }
}

/// When the call started, by the laptop's clock. The time that passed on the
/// phone between connecting and sending counts back from `now`, so a difference
/// between the two clocks cancels out.
pub open spec fn call_anchor(ev: CallEvent<Seq<char>>, now: i64) -> int {
    if ev.started_at <= 0 {
        now as int
    } else if ev.sent_at <= 0 {
        ev.started_at as int
    } else {
        ev.started_at + (now - ev.sent_at)
    }
}

/// The anchor of the call's timer can be written down.
pub open spec fn times_fit<S>(ev: CallEvent<S>, now: i64) -> bool {
    now >= 0 && (ev.started_at > 0 && ev.sent_at > 0 ==> ev.started_at + (now - ev.sent_at)
        <= i64::MAX)
}

/// The pill that the state describes.
pub open spec fn pill_of(st: CallState<Seq<char>>) -> LiveActivity<Seq<char>> {
    LiveActivity {
        key: "vortex-call"@,
        app: "Phone"@,
        app_id: st.pill_app_id,
        title: st.pill_title,
        text: st.pill_text,
        sub: Seq::empty(),
        progress: (-1) as i32,
        started_at: st.pill_started_ms,
        muted: st.pill_muted,
        speaker: st.pill_speaker,
        has_earbuds: st.pill_earbuds,
        ended: false,
        playing: None,
    }
}

/// The message that takes the call's pill down.
pub open spec fn ended_pill() -> LiveActivity<Seq<char>> {
    LiveActivity {
        key: "vortex-call"@,
        app: Seq::empty(),
        app_id: Seq::empty(),
        title: Seq::empty(),
        text: Seq::empty(),
        sub: Seq::empty(),
        progress: (-1) as i32,
        started_at: 0,
        muted: false,
        speaker: false,
        has_earbuds: false,
        ended: true,
        playing: None,
    }
}

/// The event repeats what was handled last, and what it speaks of is still on
/// screen. A ringing or running call whose pill was swept away is built again.
pub open spec fn is_repeat(st: CallState<Seq<char>>, ev: CallEvent<Seq<char>>) -> bool {
    &&& ev.id == st.handled_id
    &&& ev.phase == st.handled_phase
    &&& !((ev.phase is Ringing || ev.phase is Active) && !st.pill_active)
}

/// An outgoing call that showed no timer yet has been answered.
pub open spec fn connects_now(st: CallState<Seq<char>>, ev: CallEvent<Seq<char>>) -> bool {
    ev.outgoing && ev.connected && !st.pill_connected
}

/// A repeated report of a running call changes what the pill shows.
pub open spec fn changes_pill(st: CallState<Seq<char>>, ev: CallEvent<Seq<char>>) -> bool {
    ev.phase is Active && (ev.muted != st.pill_muted || ev.speaker != st.pill_speaker
        || ev.has_earbuds != st.pill_earbuds || connects_now(st, ev))
}

/// The state after a repeated report: the audio flags follow, and the timer is
/// set at most once, when an outgoing call connects.
pub open spec fn after_repeat(
    st: CallState<Seq<char>>,
    ev: CallEvent<Seq<char>>,
    now: i64,
) -> CallState<Seq<char>> {
    if !changes_pill(st, ev) {
        st
    } else {
        let audio = CallState {
            pill_muted: ev.muted,
            pill_speaker: ev.speaker,
            pill_earbuds: ev.has_earbuds,
            ..st
        };
        if connects_now(st, ev) {
            CallState {
                pill_connected: true,
                pill_text: "On call"@,
                pill_started_ms: call_anchor(ev, now) as i64,
                ..audio
            }
        } else {
            audio
        }
    }
}

/// The state after a report of something new.
pub open spec fn after_change(
    st: CallState<Seq<char>>,
    ev: CallEvent<Seq<char>>,
    now: i64,
) -> CallState<Seq<char>> {
    let noted = CallState {
        handled_id: ev.id,
        handled_phase: ev.phase,
        generation: (if st.generation == u64::MAX {
            0
        } else {
            (st.generation + 1) as u64
        }),
        ..st
    };
    match ev.phase {
        CallPhase::Ringing => CallState { current_call_id: ev.id, pill_active: true, ..noted },
        CallPhase::Active => CallState {
            current_call_id: ev.id,
            pill_active: true,
            call_id: ev.id,
            banner_id: 0,
            pill_started_ms: (if ev.outgoing && !ev.connected {
                0
            } else {
                call_anchor(ev, now) as i64
            }),
            pill_title: caller_line(ev.name, ev.number, "Call"@),
            pill_app_id: ev.app_id,
            pill_text: (if ev.outgoing && !ev.connected {
                "Calling…"@
            } else {
                "On call"@
            }),
            pill_muted: ev.muted,
            pill_speaker: ev.speaker,
            pill_earbuds: ev.has_earbuds,
            pill_connected: !ev.outgoing || ev.connected,
            ..noted
        },
        CallPhase::Ended => CallState {
            current_call_id: Seq::empty(),
            pill_active: false,
            banner_id: 0,
            call_id: Seq::empty(),
            ..noted
        },
        CallPhase::Other(_) => noted,
    }
}

/// A call ended while its banner still rang, so nobody answered it.
pub open spec fn was_missed(st: CallState<Seq<char>>, ev: CallEvent<Seq<char>>) -> bool {
    ev.phase is Ended && st.banner_id != 0 && !ev.outgoing && ev.number.len() > 0
}

/// One effect, or none.
pub open spec fn effect_if<S>(b: bool, e: CallEffect<S>) -> Seq<CallEffect<S>> {
    if b {
        seq![e]
    } else {
        Seq::empty()
    }
}

/// What is done about an event, in order.
pub open spec fn event_effects(
    st: CallState<Seq<char>>,
    ev: CallEvent<Seq<char>>,
    now: i64,
) -> Seq<CallEffect<Seq<char>>> {
    if is_repeat(st, ev) {
        effect_if(changes_pill(st, ev), CallEffect::Publish(pill_of(after_repeat(st, ev, now))))
    } else {
        let next = after_change(st, ev, now);
        let nudge = effect_if((ev.phase is Ringing || ev.phase is Active) && !st.pill_active, CallEffect::Nudge);
        match ev.phase {
            CallPhase::Ringing => nudge + effect_if(
                !ev.outgoing,
                CallEffect::ShowBanner {
                    title: caller_line(ev.name, ev.number, "Unknown caller"@),
                    body: ring_line(ev.name, ev.number),
                    app_id: ev.app_id,
                    replaces: st.banner_id,
                    urgent: true,
                },
            ),
            CallPhase::Active => nudge + effect_if(
                st.banner_id != 0,
                CallEffect::CloseBanner(st.banner_id),
            ) + seq![CallEffect::Publish(pill_of(next)), CallEffect::KeepAlive(next.generation)],
            CallPhase::Ended => effect_if(
                st.banner_id != 0,
                CallEffect::CloseBanner(st.banner_id),
            ) + effect_if(
                was_missed(st, ev),
                CallEffect::ShowMissed {
                    title: caller_line(ev.name, ev.number, Seq::empty()),
                    app_id: ev.app_id,
                    number: ev.number,
                },
            ) + seq![CallEffect::Publish(ended_pill())],
            CallPhase::Other(_) => Seq::empty(),
        }
    }
}

/// The state after an event.
pub open spec fn event_state(
    st: CallState<Seq<char>>,
    ev: CallEvent<Seq<char>>,
    now: i64,
) -> CallState<Seq<char>> {
    if is_repeat(st, ev) {
        after_repeat(st, ev, now)
    } else {
        after_change(st, ev, now)
    }
}

fn phase_copy(p: &CallPhase) -> (r: CallPhase)
    ensures
        r@ == p@,
{
    match p {
        CallPhase::Ringing => CallPhase::Ringing,
        CallPhase::Active => CallPhase::Active,
        CallPhase::Ended => CallPhase::Ended,
        CallPhase::Other(s) => CallPhase::Other(s.clone()),
    }
}

fn same_phase(a: &CallPhase, b: &CallPhase) -> (r: bool)
    ensures
        r == (a@ == b@),
{
    match (a, b) {
        (CallPhase::Ringing, CallPhase::Ringing) => true,
        (CallPhase::Active, CallPhase::Active) => true,
        (CallPhase::Ended, CallPhase::Ended) => true,
        (CallPhase::Other(x), CallPhase::Other(y)) => same_text(x.as_str(), y.as_str()),
        _ => false,
    }
}

fn name_caller(name: &String, number: &String, unknown: &str) -> (r: String)
    ensures
        r@ == caller_line(name@, number@, unknown@),
{
    if !name.as_str().is_empty() {
        name.clone()
    } else if !number.as_str().is_empty() {
        number.clone()
    } else {
        unknown.to_owned()
    }
}

fn name_ring(name: &String, number: &String) -> (r: String)
    ensures
        r@ == ring_line(name@, number@),
{
    if !name.as_str().is_empty() && !number.as_str().is_empty() {
        "Incoming call · ".to_owned().concat(number.as_str())
    } else {
        "Incoming call".to_owned()
    }
}

fn anchor(ev: &CallEvent, now: i64) -> (r: i64)
    requires
        times_fit(*ev, now),
    ensures
        r == call_anchor(ev@, now),
{
    if ev.started_at > 0 {
        if ev.sent_at > 0 {
            ev.started_at + (now - ev.sent_at)
        } else {
            ev.started_at
        }
    } else {
        now
    }
}

fn take_down() -> (r: LiveActivity)
    ensures
        r@ == ended_pill(),
{
    proof {
        reveal_strlit("");
    }
    LiveActivity {
        key: "vortex-call".to_owned(),
        app: String::new(),
        app_id: String::new(),
        title: String::new(),
        text: String::new(),
        sub: String::new(),
        progress: -1,
        started_at: 0,
        muted: false,
        speaker: false,
        has_earbuds: false,
        ended: true,
        playing: None,
    }
}

fn push_effect(effects: &mut Vec<CallEffect>, e: CallEffect)
    ensures
        effects_view(final(effects)@) == effects_view(old(effects)@) + seq![e@],
{
    effects.push(e);
    assert(effects_view(effects@) =~= effects_view(old(effects)@) + seq![e@]);
}

impl CallState<String> {
    /// Nothing is mirrored yet.
    pub fn new() -> (r: Self)
        ensures
            r@ == idle_state(),
    {
        let r = CallState {
            banner_id: 0,
            call_id: String::new(),
            ring_title: String::new(),
            ring_body: String::new(),
            ring_app_id: String::new(),
            banner_silenced: false,
            handled_id: String::new(),
            handled_phase: CallPhase::Other(String::new()),
            pill_started_ms: 0,
            pill_title: String::new(),
            pill_app_id: String::new(),
            pill_text: String::new(),
            pill_muted: false,
            pill_speaker: false,
            pill_earbuds: false,
            pill_connected: false,
            pill_active: false,
            current_call_id: String::new(),
            generation: 0,
        };
        r
    }

    /// The pill that the state describes.
    pub fn pill(&self) -> (r: LiveActivity)
        ensures
            r@ == pill_of(self@),
    {
        LiveActivity {
            key: "vortex-call".to_owned(),
            app: "Phone".to_owned(),
            app_id: self.pill_app_id.clone(),
            title: self.pill_title.clone(),
            text: self.pill_text.clone(),
            sub: String::new(),
            progress: -1,
            started_at: self.pill_started_ms,
            muted: self.pill_muted,
            speaker: self.pill_speaker,
            has_earbuds: self.pill_earbuds,
            ended: false,
            playing: None,
        }
    }

    fn update_pill(&mut self, ev: &CallEvent, now: i64, effects: &mut Vec<CallEffect>)
        requires
            times_fit(*ev, now),
            old(effects)@.len() == 0,
        ensures
            final(self)@ == after_repeat(old(self)@, ev@, now),
            effects_view(final(effects)@) == effect_if(
                changes_pill(old(self)@, ev@),
                CallEffect::Publish(pill_of(after_repeat(old(self)@, ev@, now))),
            ),
    {
        let audio_changed = self.pill_muted != ev.muted || self.pill_speaker != ev.speaker
            || self.pill_earbuds != ev.has_earbuds;
        let connect_now = ev.outgoing && ev.connected && !self.pill_connected;
        let running = match ev.phase {
            CallPhase::Active => true,
            _ => false,
        };
        if running && (audio_changed || connect_now) {
            self.pill_muted = ev.muted;
            self.pill_speaker = ev.speaker;
            self.pill_earbuds = ev.has_earbuds;
            if connect_now {
                self.pill_connected = true;
                self.pill_text = "On call".to_owned();
                self.pill_started_ms = anchor(ev, now);
            }
            effects.push(CallEffect::Publish(self.pill()));
        }
        assert(effects_view(effects@) =~= effect_if(
            changes_pill(old(self)@, ev@),
            CallEffect::Publish(pill_of(after_repeat(old(self)@, ev@, now))),
        ));
    }

    fn start_pill(&mut self, ev: &CallEvent, now: i64)
        requires
            times_fit(*ev, now),
        ensures
            final(self)@ == (CallState {
                call_id: ev@.id,
                pill_started_ms: (if ev.outgoing && !ev.connected {
                    0
                } else {
                    call_anchor(ev@, now) as i64
                }),
                pill_title: caller_line(ev@.name, ev@.number, "Call"@),
                pill_app_id: ev@.app_id,
                pill_text: (if ev.outgoing && !ev.connected {
                    "Calling…"@
                } else {
                    "On call"@
                }),
                pill_muted: ev.muted,
                pill_speaker: ev.speaker,
                pill_earbuds: ev.has_earbuds,
                pill_connected: !ev.outgoing || ev.connected,
                ..old(self)@
            }),
    {
        self.call_id = ev.id.clone();
        self.pill_title = name_caller(&ev.name, &ev.number, "Call");
        self.pill_app_id = ev.app_id.clone();
        if ev.outgoing && !ev.connected {
            self.pill_text = "Calling…".to_owned();
            self.pill_started_ms = 0;
        } else {
            self.pill_text = "On call".to_owned();
            self.pill_started_ms = anchor(ev, now);
        }
        self.pill_muted = ev.muted;
        self.pill_speaker = ev.speaker;
        self.pill_earbuds = ev.has_earbuds;
        self.pill_connected = !ev.outgoing || ev.connected;
    }

    fn note_change(&mut self, ev: &CallEvent, on_screen: bool, effects: &mut Vec<CallEffect>)
        requires
            old(effects)@.len() == 0,
        ensures
            final(self)@ == (CallState {
                handled_id: ev@.id,
                handled_phase: ev@.phase,
                generation: (if old(self).generation == u64::MAX {
                    0
                } else {
                    (old(self).generation + 1) as u64
                }),
                current_call_id: (if on_screen {
                    ev@.id
                } else {
                    old(self)@.current_call_id
                }),
                pill_active: on_screen || old(self).pill_active,
                ..old(self)@
            }),
            effects_view(final(effects)@) == effect_if(
                on_screen && !old(self).pill_active,
                CallEffect::<Seq<char>>::Nudge,
            ),
    {
        self.handled_id = ev.id.clone();
        self.handled_phase = phase_copy(&ev.phase);
        self.generation = if self.generation == u64::MAX {
            0
        } else {
            self.generation + 1
        };
        if on_screen {
            self.current_call_id = ev.id.clone();
            if !self.pill_active {
                effects.push(CallEffect::Nudge);
            }
            self.pill_active = true;
        }
        assert(effects_view(effects@) =~= effect_if(
            on_screen && !old(self).pill_active,
            CallEffect::<Seq<char>>::Nudge,
        ));
    }

    fn ask_banner(&self, ev: &CallEvent, effects: &mut Vec<CallEffect>)
        ensures
            effects_view(final(effects)@) == effects_view(old(effects)@) + seq![
                CallEffect::ShowBanner {
                    title: caller_line(ev@.name, ev@.number, "Unknown caller"@),
                    body: ring_line(ev@.name, ev@.number),
                    app_id: ev@.app_id,
                    replaces: self.banner_id,
                    urgent: true,
                },
            ],
    {
        let e = CallEffect::ShowBanner {
            title: name_caller(&ev.name, &ev.number, "Unknown caller"),
            body: name_ring(&ev.name, &ev.number),
            app_id: ev.app_id.clone(),
            replaces: self.banner_id,
            urgent: true,
        };
        push_effect(effects, e);
    }

    fn enter_call(&mut self, ev: &CallEvent, now: i64, effects: &mut Vec<CallEffect>)
        requires
            times_fit(*ev, now),
        ensures
            final(self)@ == (CallState {
                call_id: ev@.id,
                banner_id: 0,
                pill_started_ms: (if ev.outgoing && !ev.connected {
                    0
                } else {
                    call_anchor(ev@, now) as i64
                }),
                pill_title: caller_line(ev@.name, ev@.number, "Call"@),
                pill_app_id: ev@.app_id,
                pill_text: (if ev.outgoing && !ev.connected {
                    "Calling…"@
                } else {
                    "On call"@
                }),
                pill_muted: ev.muted,
                pill_speaker: ev.speaker,
                pill_earbuds: ev.has_earbuds,
                pill_connected: !ev.outgoing || ev.connected,
                ..old(self)@
            }),
            effects_view(final(effects)@) == effects_view(old(effects)@) + effect_if(
                old(self).banner_id != 0,
                CallEffect::CloseBanner(old(self).banner_id),
            ) + seq![
                CallEffect::Publish(pill_of(final(self)@)),
                CallEffect::KeepAlive(final(self)@.generation),
            ],
    {
        if self.banner_id != 0 {
            push_effect(effects, CallEffect::CloseBanner(self.banner_id));
            self.banner_id = 0;
        }
        self.start_pill(ev, now);
        push_effect(effects, CallEffect::Publish(self.pill()));
        push_effect(effects, CallEffect::KeepAlive(self.generation));
        assert(effects_view(effects@) =~= effects_view(old(effects)@) + effect_if(
            old(self).banner_id != 0,
            CallEffect::CloseBanner(old(self).banner_id),
        ) + seq![
            CallEffect::Publish(pill_of(self@)),
            CallEffect::KeepAlive(self@.generation),
        ]);
    }

    fn leave_call(&mut self, ev: &CallEvent, effects: &mut Vec<CallEffect>)
        ensures
            final(self)@ == (CallState {
                current_call_id: Seq::empty(),
                pill_active: false,
                banner_id: 0,
                call_id: Seq::empty(),
                ..old(self)@
            }),
            effects_view(final(effects)@) == effects_view(old(effects)@) + effect_if(
                old(self).banner_id != 0,
                CallEffect::CloseBanner(old(self).banner_id),
            ) + effect_if(
                old(self).banner_id != 0 && !ev.outgoing && ev@.number.len() > 0,
                CallEffect::ShowMissed {
                    title: caller_line(ev@.name, ev@.number, Seq::empty()),
                    app_id: ev@.app_id,
                    number: ev@.number,
                },
            ) + seq![CallEffect::Publish(ended_pill())],
    {
        self.current_call_id = String::new();
        self.pill_active = false;
        let id: u32 = self.banner_id;
        self.banner_id = 0;
        self.call_id = String::new();
        if id != 0 {
            push_effect(effects, CallEffect::CloseBanner(id));
        }
        let ghost closed = effects_view(effects@);
        if id != 0 && !ev.outgoing && !ev.number.as_str().is_empty() {
            proof {
                reveal_strlit("");
            }
            let e = CallEffect::ShowMissed {
                title: name_caller(&ev.name, &ev.number, ""),
                app_id: ev.app_id.clone(),
                number: ev.number.clone(),
            };
            push_effect(effects, e);
        }
        push_effect(effects, CallEffect::Publish(take_down()));
        assert(effects_view(effects@) =~= closed + effect_if(
            old(self).banner_id != 0 && !ev.outgoing && ev@.number.len() > 0,
            CallEffect::ShowMissed {
                title: caller_line(ev@.name, ev@.number, Seq::empty()),
                app_id: ev@.app_id,
                number: ev@.number,
            },
        ) + seq![CallEffect::Publish(ended_pill())]);
    }

    /// Takes in a report of the phone, and says what to do about it.
    pub fn on_event(&mut self, ev: &CallEvent, now: i64) -> (effects: Vec<CallEffect>)
        requires
            times_fit(*ev, now),
        ensures
            final(self)@ == event_state(old(self)@, ev@, now),
            effects_view(effects@) == event_effects(old(self)@, ev@, now),
    {
        let mut effects: Vec<CallEffect> = Vec::new();
        let on_screen = match ev.phase {
            CallPhase::Ringing => true,
            CallPhase::Active => true,
            _ => false,
        };
        let swept = on_screen && !self.pill_active;
        if same_text(self.handled_id.as_str(), ev.id.as_str()) && same_phase(
            &self.handled_phase,
            &ev.phase,
        ) && !swept {
            self.update_pill(ev, now, &mut effects);
            return effects;
        }
        self.note_change(ev, on_screen, &mut effects);
        match ev.phase {
            CallPhase::Ringing => {
                if !ev.outgoing {
                    self.ask_banner(ev, &mut effects);
                }
            },
            CallPhase::Active => {
                self.enter_call(ev, now, &mut effects);
            },
            CallPhase::Ended => {
                self.leave_call(ev, &mut effects);
            },
            CallPhase::Other(_) => {},
        }
        assert(effects_view(effects@) =~= event_effects(old(self)@, ev@, now));
        effects
    }
}

/// How long the phone may be silent before a ringing banner comes down, in
/// milliseconds.
pub const BANNER_STALE_MS: u64 = 35_000;

/// What a repeated show of the ringing call takes.
pub struct QuietBanner<S = String> {
    pub call_id: S,
    pub title: S,
    pub body: S,
    pub app_id: S,
}

impl View for QuietBanner<String> {
    type V = QuietBanner<Seq<char>>;

    open spec fn view(&self) -> QuietBanner<Seq<char>> {
        QuietBanner {
            call_id: self.call_id@,
            title: self.title@,
            body: self.body@,
            app_id: self.app_id@,
        }
    }
}

/// Closing notification `id` is the user's first dismissal of the ringing banner
/// (reason 2; reason 3 is the program's own closing).
pub open spec fn is_silence_gesture(st: CallState<Seq<char>>, id: u32, reason: u32) -> bool {
    reason == 2 && id == st.banner_id && st.banner_id != 0 && st.call_id.len() > 0
        && !st.banner_silenced
}

impl CallState<String> {
    /// The ringing banner asked for by `ev` is up as notification `id`.
    pub fn banner_shown(&mut self, id: u32, ev: &CallEvent)
        ensures
            final(self)@ == (CallState {
                banner_id: id,
                call_id: ev@.id,
                ring_title: caller_line(ev@.name, ev@.number, "Unknown caller"@),
                ring_body: ring_line(ev@.name, ev@.number),
                ring_app_id: ev@.app_id,
                banner_silenced: false,
                ..old(self)@
            }),
    {
        self.banner_id = id;
        self.call_id = ev.id.clone();
        self.ring_title = name_caller(&ev.name, &ev.number, "Unknown caller");
        self.ring_body = name_ring(&ev.name, &ev.number);
        self.ring_app_id = ev.app_id.clone();
        self.banner_silenced = false;
    }

    /// Looks at the banner every few seconds: when the phone has been silent for
    /// too long its buttons could not work, so the banner (returned, if there is
    /// one) is to be closed, and the call is forgotten.
    pub fn watchdog(&mut self, contact_age_ms: u64) -> (close: Option<u32>)
        ensures
            close == (if contact_age_ms > BANNER_STALE_MS && old(self).banner_id != 0 {
                Some(old(self).banner_id)
            } else {
                None
            }),
            final(self)@ == (if close is Some {
                CallState { banner_id: 0, call_id: Seq::empty(), ..old(self)@ }
            } else {
                old(self)@
            }),
    {
        if contact_age_ms <= BANNER_STALE_MS {
            return None;
        }
        let id: u32 = self.banner_id;
        if id == 0 {
            return None;
        }
        self.banner_id = 0;
        self.call_id = String::new();
        assert(self.call_id@ == Seq::<char>::empty());
        Some(id)
    }

    /// A notification was closed. The user's first dismissal of the ringing
    /// banner silences the phone and shows the call again quietly; the call
    /// itself goes on.
    pub fn on_closed(&self, id: u32, reason: u32) -> (r: Option<QuietBanner>)
        ensures
            r is Some <==> is_silence_gesture(self@, id, reason),
            r is Some ==> r->0@ == (QuietBanner {
                call_id: self@.call_id,
                title: self@.ring_title,
                body: self@.ring_body,
                app_id: self@.ring_app_id,
            }),
    {
        if reason != 2 || id != self.banner_id || self.banner_id == 0
            || self.call_id.as_str().is_empty() || self.banner_silenced {
            return None;
        }
        Some(
            QuietBanner {
                call_id: self.call_id.clone(),
                title: self.ring_title.clone(),
                body: self.ring_body.clone(),
                app_id: self.ring_app_id.clone(),
            },
        )
    }

    /// The quiet banner is up as notification `id`. If the call has ended in the
    /// meantime nothing is noted.
    pub fn quiet_shown(&mut self, id: u32)
        ensures
            final(self)@ == (if old(self)@.call_id.len() > 0 {
                CallState { banner_id: id, banner_silenced: true, ..old(self)@ }
            } else {
                old(self)@
            }),
    {
        if !self.call_id.as_str().is_empty() {
            self.banner_id = id;
            self.banner_silenced = true;
        }
    }

    /// The keep-alive of generation `generation` fires: the pill to show again,
    /// or nothing when the call moved on or the link is down, and the keep-alive
    /// is to stop.
    pub fn keep_alive(&self, generation: u64, link_up: bool) -> (r: Option<LiveActivity>)
        ensures
            r is Some <==> generation == self.generation && link_up,
            r is Some ==> r->0@ == pill_of(self@),
    {
        if self.generation != generation || !link_up {
            return None;
        }
        Some(self.pill())
    }

    /// The pill was swept away for want of news.
    pub fn pill_swept(&mut self)
        ensures
            final(self)@ == (CallState { pill_active: false, ..old(self)@ }),
    {
        self.pill_active = false;
    }

    /// Whether a call is on screen.
    pub fn call_pill_active(&self) -> (r: bool)
        ensures
            r == self@.pill_active,
    {
        self.pill_active
    }

    /// Notes which call the answer and decline commands act on.
    pub fn set_current_call_id(&mut self, id: &str)
        ensures
            final(self)@ == (CallState { current_call_id: id@, ..old(self)@ }),
    {
        self.current_call_id = id.to_owned();
    }
}

/// The same report may come over both transports, and again with every
/// heartbeat: once it was taken in, taking it in again does and changes nothing.
pub proof fn lemma_repeat_is_silent(
    st: CallState<Seq<char>>,
    ev: CallEvent<Seq<char>>,
    now: i64,
    later: i64,
)
    ensures
        ({
            let once = event_state(st, ev, now);
            &&& event_state(once, ev, later) == once
            &&& event_effects(once, ev, later).len() == 0
        }),
{
}

/// The two clocks need not agree: moving the phone's clock by any amount leaves
/// the start of the call, by the laptop's clock, where it was.
pub proof fn lemma_clock_skew_cancels(
    ev: CallEvent<Seq<char>>,
    skewed: CallEvent<Seq<char>>,
    skew: int,
    now: i64,
)
    requires
        ev.started_at > 0,
        ev.sent_at > 0,
        skewed.started_at > 0,
        skewed.sent_at > 0,
        skewed.started_at == ev.started_at + skew,
        skewed.sent_at == ev.sent_at + skew,
    ensures
        call_anchor(skewed, now) == call_anchor(ev, now),
{
}

/// When a call has ended, nothing of it stays: no banner, no target for the
/// buttons, no pill, and no keep-alive of an earlier phase goes on.
pub proof fn lemma_end_clears(st: CallState<Seq<char>>, ev: CallEvent<Seq<char>>, now: i64)
    requires
        ev.phase is Ended,
        !is_repeat(st, ev),
    ensures
        ({
            let after = event_state(st, ev, now);
            &&& after.banner_id == 0
            &&& after.call_id.len() == 0
            &&& after.current_call_id.len() == 0
            &&& !after.pill_active
            &&& after.generation != st.generation
            &&& event_effects(st, ev, now).last() == CallEffect::Publish(ended_pill())
            &&& st.banner_id != 0 ==> event_effects(st, ev, now)[0] == CallEffect::<
                Seq<char>,
            >::CloseBanner(st.banner_id)
        }),
{
}

/// A running call never shows a ringing banner.
pub proof fn lemma_answer_closes_banner(
    st: CallState<Seq<char>>,
    ev: CallEvent<Seq<char>>,
    now: i64,
)
    requires
        ev.phase is Active,
        !is_repeat(st, ev),
    ensures
        event_state(st, ev, now).banner_id == 0,
        st.banner_id != 0 ==> event_effects(st, ev, now).contains(
            CallEffect::CloseBanner(st.banner_id),
        ),
{
    let effects = event_effects(st, ev, now);
    if st.banner_id != 0 {
        let k: int = if st.pill_active {
            0
        } else {
            1
        };
        assert(effects[k] == CallEffect::<Seq<char>>::CloseBanner(st.banner_id));
    }
}

/// The timer of a call is set once: no repeated report of a connected call moves
/// it.
pub proof fn lemma_timer_stays(st: CallState<Seq<char>>, ev: CallEvent<Seq<char>>, now: i64)
    requires
        is_repeat(st, ev),
        st.pill_connected,
    ensures
        event_state(st, ev, now).pill_started_ms == st.pill_started_ms,
        event_state(st, ev, now).pill_text == st.pill_text,
{
}

/// The banner is shown again at most once: after the quiet one is up, dismissing
/// it is no silence gesture any more.
pub proof fn lemma_silence_once(st: CallState<Seq<char>>, id: u32, reason: u32)
    requires
        st.banner_silenced,
    ensures
        !is_silence_gesture(st, id, reason),
{
}

/// The pill follows every report of a running call: after the report it shows the
/// microphone, the speaker and the earbuds as the phone reports them, and whenever one
/// of the three was shown otherwise before, a pill with the three of the report is
/// published.
pub proof fn lemma_pill_follows_the_audio(
    st: CallState<Seq<char>>,
    ev: CallEvent<Seq<char>>,
    now: i64,
)
    requires
        ev.phase is Active,
    ensures
        ({
            let after = event_state(st, ev, now);
            let effects = event_effects(st, ev, now);
            &&& after.pill_muted == ev.muted
            &&& after.pill_speaker == ev.speaker
            &&& after.pill_earbuds == ev.has_earbuds
            &&& after.pill_active
            &&& ev.muted != st.pill_muted || ev.speaker != st.pill_speaker || ev.has_earbuds
                != st.pill_earbuds ==> exists|i: int|
                {
                    &&& 0 <= i < effects.len()
                    &&& (#[trigger] effects[i]) is Publish
                    &&& effects[i]->Publish_0.muted == ev.muted
                    &&& effects[i]->Publish_0.speaker == ev.speaker
                    &&& effects[i]->Publish_0.has_earbuds == ev.has_earbuds
                    &&& effects[i]->Publish_0.title == after.pill_title
                    &&& effects[i]->Publish_0.text == after.pill_text
                    &&& effects[i]->Publish_0.started_at == after.pill_started_ms
                    &&& !effects[i]->Publish_0.ended
                }
        }),
{
    let after = event_state(st, ev, now);
    let effects = event_effects(st, ev, now);
    if is_repeat(st, ev) {
        if effects.len() > 0 {
            assert(effects[0] is Publish);
        }
    } else {
        lemma_active_effects(st, ev, now);
        assert(effects[effects.len() - 2] is Publish);
    }
}

proof fn lemma_active_effects(st: CallState<Seq<char>>, ev: CallEvent<Seq<char>>, now: i64)
    requires
        ev.phase is Active,
        !is_repeat(st, ev),
    ensures
        ({
            let next = after_change(st, ev, now);
            let effects = event_effects(st, ev, now);
            &&& effects.len() >= 2
            &&& effects[effects.len() - 2] == CallEffect::Publish(pill_of(next))
            &&& effects[effects.len() - 1] == CallEffect::<Seq<char>>::KeepAlive(next.generation)
        }),
{
}

/// What is on screen once a call is running: the pill of the phone's call, which is the
/// only one of its kind, named after the caller, as far as the caller is known. It says
/// that the call is being placed until the other side answers, and runs a timer from
/// then on. The pill is published and kept alive, and the buttons act on that call.
pub proof fn lemma_running_call_has_a_pill(
    st: CallState<Seq<char>>,
    ev: CallEvent<Seq<char>>,
    now: i64,
)
    requires
        ev.phase is Active,
        times_fit(ev, now),
        ev.id != st.handled_id || !(st.handled_phase is Active) || !st.pill_active,
    ensures
        ({
            let after = event_state(st, ev, now);
            let effects = event_effects(st, ev, now);
            let n = effects.len() as int;
            let pill = effects[n - 2]->Publish_0;
            &&& n >= 2
            &&& effects[n - 2] is Publish
            &&& pill.key == "vortex-call"@ && pill.app == "Phone"@ && pill.app_id == ev.app_id
            &&& pill.sub.len() == 0 && pill.progress == -1 && !pill.ended && pill.playing is None
            &&& ev.name.len() > 0 ==> pill.title == ev.name
            &&& ev.name.len() == 0 && ev.number.len() > 0 ==> pill.title == ev.number
            &&& ev.name.len() == 0 && ev.number.len() == 0 ==> pill.title == "Call"@
            &&& pill.muted == ev.muted && pill.speaker == ev.speaker && pill.has_earbuds
                == ev.has_earbuds
            &&& ev.outgoing && !ev.connected ==> pill.text == "Calling…"@ && pill.started_at == 0
                && !after.pill_connected
            &&& !ev.outgoing || ev.connected ==> {
                &&& pill.text == "On call"@
                &&& after.pill_connected
                &&& ev.started_at <= 0 ==> pill.started_at == now
                &&& ev.started_at > 0 && ev.sent_at <= 0 ==> pill.started_at == ev.started_at
                // As much time has passed here as had passed on the phone.
                &&& ev.started_at > 0 && ev.sent_at > 0 ==> now - pill.started_at == ev.sent_at
                    - ev.started_at
            }
            &&& effects[n - 1] == CallEffect::<Seq<char>>::KeepAlive(after.generation)
            &&& after.call_id == ev.id && after.current_call_id == ev.id && after.pill_active
            &&& after.pill_title == pill.title && after.pill_text == pill.text
            &&& after.pill_started_ms == pill.started_at && after.pill_app_id == ev.app_id
            &&& after.banner_id == 0
        }),
{
    lemma_active_effects(st, ev, now);
}

/// An outgoing call that is answered while its pill is up starts its timer then, once:
/// the pill is published again with the words of a running call.
pub proof fn lemma_answered_call_starts_its_timer(
    st: CallState<Seq<char>>,
    ev: CallEvent<Seq<char>>,
    now: i64,
)
    requires
        ev.phase is Active,
        ev.outgoing && ev.connected && !st.pill_connected,
        ev.id == st.handled_id && st.handled_phase is Active && st.pill_active,
        times_fit(ev, now),
    ensures
        ({
            let after = event_state(st, ev, now);
            let effects = event_effects(st, ev, now);
            let pill = effects[0]->Publish_0;
            &&& effects.len() == 1 && effects[0] is Publish
            &&& pill.text == "On call"@ && pill.title == st.pill_title && pill.key == "vortex-call"@
            &&& ev.started_at <= 0 ==> pill.started_at == now
            &&& ev.started_at > 0 && ev.sent_at <= 0 ==> pill.started_at == ev.started_at
            &&& ev.started_at > 0 && ev.sent_at > 0 ==> now - pill.started_at == ev.sent_at
                - ev.started_at
            &&& after.pill_connected
            &&& after.pill_started_ms == pill.started_at && after.pill_text == pill.text
            &&& after.generation == st.generation && after.banner_id == st.banner_id
                && after.call_id == st.call_id
        }),
{
}

/// A repeated report that brings nothing new says nothing and changes nothing but, for a
/// running call, what the pill shows of the audio and of the timer.
pub proof fn lemma_repeat_touches_only_the_pill(
    st: CallState<Seq<char>>,
    ev: CallEvent<Seq<char>>,
    now: i64,
)
    requires
        ev.id == st.handled_id && ev.phase == st.handled_phase,
        st.pill_active || !(ev.phase is Ringing || ev.phase is Active),
    ensures
        ({
            let after = event_state(st, ev, now);
            &&& after == (CallState {
                pill_muted: after.pill_muted,
                pill_speaker: after.pill_speaker,
                pill_earbuds: after.pill_earbuds,
                pill_connected: after.pill_connected,
                pill_text: after.pill_text,
                pill_started_ms: after.pill_started_ms,
                ..st
            })
            &&& !(ev.phase is Active) ==> after == st && event_effects(st, ev, now).len() == 0
            &&& ev.phase is Active && ev.muted == st.pill_muted && ev.speaker == st.pill_speaker
                && ev.has_earbuds == st.pill_earbuds && (!ev.outgoing || !ev.connected
                || st.pill_connected) ==> after == st && event_effects(st, ev, now).len() == 0
        }),
{
}

/// An incoming call that starts to ring puts up an urgent banner that names the caller,
/// in place of the banner that was up; the number stands in the second line when the
/// first one is a name. A call of one's own rings without a banner.
pub proof fn lemma_incoming_call_rings(
    st: CallState<Seq<char>>,
    ev: CallEvent<Seq<char>>,
    now: i64,
)
    requires
        ev.phase is Ringing,
        ev.id != st.handled_id || !(st.handled_phase is Ringing) || !st.pill_active,
    ensures
        ({
            let after = event_state(st, ev, now);
            let effects = event_effects(st, ev, now);
            let banner = effects.last();
            &&& !ev.outgoing ==> {
                &&& effects.len() > 0 && banner is ShowBanner
                &&& ev.name.len() > 0 ==> banner->ShowBanner_title == ev.name
                &&& ev.name.len() == 0 && ev.number.len() > 0 ==> banner->ShowBanner_title
                    == ev.number
                &&& ev.name.len() == 0 && ev.number.len() == 0 ==> banner->ShowBanner_title
                    == "Unknown caller"@
                &&& ev.name.len() > 0 && ev.number.len() > 0 ==> banner->body
                    == "Incoming call · "@ + ev.number
                &&& ev.name.len() == 0 || ev.number.len() == 0 ==> banner->body
                    == "Incoming call"@
                &&& banner->ShowBanner_app_id == ev.app_id
                &&& banner->replaces == st.banner_id
                &&& banner->urgent
            }
            &&& ev.outgoing ==> forall|i: int|
                0 <= i < effects.len() ==> !((#[trigger] effects[i]) is ShowBanner)
            &&& after == (CallState {
                handled_id: ev.id,
                handled_phase: ev.phase,
                current_call_id: ev.id,
                pill_active: true,
                generation: after.generation,
                ..st
            })
            &&& after.generation != st.generation
        }),
{
}

/// A call is noted as missed exactly when it ended while its banner was still up, came
/// from outside, and can be called back: the note names the caller, and its button calls
/// the number that called. Whatever else, the end takes the banner and the pill down.
pub proof fn lemma_missed_call_is_noted(
    st: CallState<Seq<char>>,
    ev: CallEvent<Seq<char>>,
    now: i64,
)
    requires
        ev.phase is Ended,
        ev.id != st.handled_id || !(st.handled_phase is Ended),
    ensures
        ({
            let after = event_state(st, ev, now);
            let effects = event_effects(st, ev, now);
            let n = effects.len() as int;
            let missed = st.banner_id != 0 && !ev.outgoing && ev.number.len() > 0;
            &&& n > 0 && effects[n - 1] is Publish
            &&& effects[n - 1]->Publish_0.key == "vortex-call"@ && effects[n - 1]->Publish_0.ended
            &&& missed ==> {
                &&& n == 3
                &&& effects[1] is ShowMissed
                &&& effects[1]->number == ev.number
                &&& effects[1]->ShowMissed_app_id == ev.app_id
                &&& effects[1]->ShowMissed_title == if ev.name.len() > 0 {
                    ev.name
                } else {
                    ev.number
                }
            }
            &&& !missed ==> forall|i: int|
                0 <= i < n ==> !((#[trigger] effects[i]) is ShowMissed)
            &&& st.banner_id != 0 ==> effects[0] == CallEffect::<Seq<char>>::CloseBanner(
                st.banner_id,
            )
            &&& after == (CallState {
                handled_id: ev.id,
                handled_phase: ev.phase,
                generation: after.generation,
                banner_id: 0,
                call_id: Seq::empty(),
                current_call_id: Seq::empty(),
                pill_active: false,
                ..st
            })
            &&& after.generation != st.generation
        }),
{
}

/// A phase that this version does not know shows nothing and takes nothing down.
pub proof fn lemma_unknown_phase_is_quiet(
    st: CallState<Seq<char>>,
    ev: CallEvent<Seq<char>>,
    now: i64,
)
    requires
        ev.phase is Other,
    ensures
        event_effects(st, ev, now).len() == 0,
        ({
            let after = event_state(st, ev, now);
            after == (CallState {
                handled_id: ev.id,
                handled_phase: ev.phase,
                generation: after.generation,
                ..st
            })
        }),
{
}

/// The heartbeat is woken exactly when a call comes on screen.
pub proof fn lemma_nudge_marks_a_new_call(
    st: CallState<Seq<char>>,
    ev: CallEvent<Seq<char>>,
    now: i64,
)
    ensures
        (exists|i: int| 0 <= i < event_effects(st, ev, now).len() && (#[trigger] event_effects(
            st,
            ev,
            now,
        )[i]) is Nudge) <==> (ev.phase is Ringing || ev.phase is Active) && !st.pill_active,
{
    let effects = event_effects(st, ev, now);
    if (ev.phase is Ringing || ev.phase is Active) && !st.pill_active {
        assert(effects[0] is Nudge);
    }
}

/// A banner is put up again exactly when the user, and not the program, dismissed the one
/// of a call that goes on, for the first time.
pub proof fn lemma_first_dismissal_silences(st: CallState<Seq<char>>, id: u32, reason: u32)
    ensures
        is_silence_gesture(st, id, reason) <==> reason == 2 && id != 0 && id == st.banner_id
            && st.call_id.len() > 0 && !st.banner_silenced,
{
}

/// Nothing is on screen before the first report, so that whatever it tells is new.
pub proof fn lemma_idle_state_shows_nothing(ev: CallEvent<Seq<char>>, now: i64)
    requires
        ev.phase is Ringing || ev.phase is Active,
    ensures
        idle_state().banner_id == 0,
        idle_state().call_id.len() == 0 && idle_state().current_call_id.len() == 0,
        !idle_state().pill_active,
        event_effects(idle_state(), ev, now).len() > 0,
        event_effects(idle_state(), ev, now)[0] is Nudge,
{
}

/// What the program does about the ringing banner and the pill between two reports.
/// A banner that is up is the one of the reported call. It comes down when the phone has
/// been silent for more than 35 seconds, and only then. The quiet banner takes its place
/// as long as the call is known. A keep-alive shows the pill again as it is, until the
/// call moves on or the link is down.
pub proof fn lemma_banner_is_minded(
    shown: &mut CallState,
    looked: &mut CallState,
    quiet: &mut CallState,
    id: u32,
    ev: &CallEvent,
    age: u64,
    close: Option<u32>,
)
    requires
        call_ensures(CallState::<String>::banner_shown, (shown, id, ev), ()),
        call_ensures(CallState::<String>::watchdog, (looked, age), close),
        call_ensures(CallState::<String>::quiet_shown, (quiet, id), ()),
    ensures
        final(shown)@.banner_id == id && final(shown)@.call_id == ev@.id,
        !final(shown)@.banner_silenced && final(shown)@.ring_app_id == ev@.app_id,
        ev@.name.len() > 0 ==> final(shown)@.ring_title == ev@.name,
        ev@.name.len() == 0 && ev@.number.len() > 0 ==> final(shown)@.ring_title == ev@.number,
        ev@.name.len() > 0 && ev@.number.len() > 0 ==> final(shown)@.ring_body
            == "Incoming call · "@ + ev@.number,
        close is Some <==> age > 35_000 && old(looked)@.banner_id != 0,
        close is Some ==> close->0 == old(looked)@.banner_id && final(looked)@.banner_id == 0
            && final(looked)@.call_id.len() == 0 && final(looked)@.pill_active == old(
            looked,
        )@.pill_active,
        close is None ==> final(looked)@ == old(looked)@,
        old(quiet)@.call_id.len() > 0 ==> final(quiet)@.banner_id == id
            && final(quiet)@.banner_silenced && final(quiet)@.call_id == old(quiet)@.call_id,
        old(quiet)@.call_id.len() == 0 ==> final(quiet)@ == old(quiet)@,
{
}

/// The user's first dismissal shows the call again with the words that it rang with, and
/// a keep-alive gives the pill of the call that is on, while its phase lasts.
pub proof fn lemma_what_is_shown_again(
    st: &CallState,
    id: u32,
    reason: u32,
    again: Option<QuietBanner>,
    generation: u64,
    link_up: bool,
    pill: Option<LiveActivity>,
)
    requires
        call_ensures(CallState::<String>::on_closed, (st, id, reason), again),
        call_ensures(CallState::<String>::keep_alive, (st, generation, link_up), pill),
    ensures
        again is Some <==> reason == 2 && id != 0 && id == st@.banner_id && st@.call_id.len() > 0
            && !st@.banner_silenced,
        again is Some ==> again->0@.call_id == st@.call_id && again->0@.title == st@.ring_title
            && again->0@.body == st@.ring_body && again->0@.app_id == st@.ring_app_id,
        pill is Some <==> link_up && generation == st@.generation,
        pill is Some ==> pill->0@.key == "vortex-call"@ && pill->0@.title == st@.pill_title
            && pill->0@.text == st@.pill_text && pill->0@.started_at == st@.pill_started_ms
            && pill->0@.muted == st@.pill_muted && pill->0@.speaker == st@.pill_speaker
            && pill->0@.has_earbuds == st@.pill_earbuds && pill->0@.app_id == st@.pill_app_id
            && !pill->0@.ended,
{
}

/// A report through the front door: for a running call the state and the pill that comes
/// out carry what the phone reports of the audio.
pub proof fn lemma_report_reaches_the_pill(
    st: &mut CallState,
    ev: &CallEvent,
    now: i64,
    effects: Vec<CallEffect>,
)
    requires
        call_ensures(CallState::<String>::on_event, (st, ev, now), effects),
        ev@.phase is Active,
    ensures
        final(st)@.pill_muted == ev.muted,
        final(st)@.pill_speaker == ev.speaker,
        final(st)@.pill_earbuds == ev.has_earbuds,
        ev.muted != old(st)@.pill_muted || ev.speaker != old(st)@.pill_speaker || ev.has_earbuds
            != old(st)@.pill_earbuds ==> exists|i: int|
            {
                &&& 0 <= i < effects@.len()
                &&& (#[trigger] effects@[i]) is Publish
                &&& effects@[i]->Publish_0.muted == ev.muted
                &&& effects@[i]->Publish_0.speaker == ev.speaker
                &&& effects@[i]->Publish_0.has_earbuds == ev.has_earbuds
            },
{
    lemma_pill_follows_the_audio(old(st)@, ev@, now);
    let views = event_effects(old(st)@, ev@, now);
    assert(effects_view(effects@).len() == effects@.len());
    if ev.muted != old(st)@.pill_muted || ev.speaker != old(st)@.pill_speaker || ev.has_earbuds
        != old(st)@.pill_earbuds {
        let i = choose|i: int|
            {
                &&& 0 <= i < views.len()
                &&& (#[trigger] views[i]) is Publish
                &&& views[i]->Publish_0.muted == ev.muted
                &&& views[i]->Publish_0.speaker == ev.speaker
                &&& views[i]->Publish_0.has_earbuds == ev.has_earbuds
            };
        assert(views[i] == effects@[i]@);
    }
}

/// The pill of a call, in full: it is the phone's, it bears what is known of the call, and it
/// is neither over nor playing anything.
pub proof fn lemma_pill_shows_the_call(st: &CallState<String>, r: LiveActivity)
    requires
        call_ensures(CallState::<String>::pill, (st,), r),
    ensures
        r@.key == "vortex-call"@,
        r@.app == "Phone"@,
        r@.app_id == st@.pill_app_id,
        r@.title == st@.pill_title,
        r@.text == st@.pill_text,
        r@.sub.len() == 0,
        r@.progress == -1,
        r@.started_at == st@.pill_started_ms,
        r@.muted == st@.pill_muted,
        r@.speaker == st@.pill_speaker,
        r@.has_earbuds == st@.pill_earbuds,
        !r@.ended,
        r@.playing is None,
{
}

/// A pill that was swept away is no longer shown, and nothing else of the call changes; and the
/// name of the call is the one that was set.
pub proof fn lemma_swept_pill_is_gone(
    st: &mut CallState<String>,
    after: &CallState<String>,
    shown: bool,
    named: &mut CallState<String>,
    id: &str,
)
    requires
        call_ensures(CallState::<String>::pill_swept, (st,), ()),
        after@ == final(st)@,
        call_ensures(CallState::<String>::call_pill_active, (after,), shown),
        call_ensures(CallState::<String>::set_current_call_id, (named, id), ()),
    ensures
        !shown,
        final(st)@.current_call_id == old(st)@.current_call_id,
        final(st)@.pill_title == old(st)@.pill_title,
        final(st)@.pill_text == old(st)@.pill_text,
        final(named)@.current_call_id == id@,
        final(named)@.pill_active == old(named)@.pill_active,
{
}

/// Before the first call nothing is muted, no speaker and no earbuds are on, and nothing is
/// connected.
pub proof fn lemma_fresh_state_knows_no_call(r: CallState<String>)
    requires
        call_ensures(CallState::<String>::new, (), r),
    ensures
        r@.banner_id == 0 && !r@.banner_silenced,
        r@.call_id.len() == 0 && r@.current_call_id.len() == 0 && r@.handled_id.len() == 0,
        r@.pill_title.len() == 0 && r@.pill_text.len() == 0 && r@.pill_app_id.len() == 0,
        !r@.pill_muted && !r@.pill_speaker && !r@.pill_earbuds,
        !r@.pill_connected && !r@.pill_active,
        r@.pill_started_ms == 0,
{
}

/// The pill that takes the call's pill down is under the same name, is over, and shows nothing
/// of the call.
pub proof fn lemma_pill_that_is_taken_down(
    st: CallState<Seq<char>>,
    ev: CallEvent<Seq<char>>,
    now: i64,
    i: int,
)
    requires
        0 <= i < event_effects(st, ev, now).len(),
        event_effects(st, ev, now)[i] is Publish,
        event_effects(st, ev, now)[i]->Publish_0.ended,
    ensures
        ({
            let p = event_effects(st, ev, now)[i]->Publish_0;
            &&& p.key == "vortex-call"@
            &&& p.title.len() == 0 && p.text.len() == 0 && p.sub.len() == 0 && p.app.len() == 0
            &&& p.started_at == 0 && p.progress == -1
            &&& !p.muted && !p.speaker && !p.has_earbuds
            &&& p.playing is None
        }),
{
}

} // verus!
