//! Locking and unlocking the desktop from the phone, and noticing that the user
//! is back.

use vstd::prelude::*;

use crate::text;
use crate::text::{chars_of, contains, same_text, to_ascii_lowercase};

verus! {

/// The words by which a refusal is recognised, in small letters.
pub open spec fn tells_denied(e: Seq<char>) -> bool {
    ||| text::contains_text(e, "accessdenied"@)
    ||| text::contains_text(e, "access denied"@)
    ||| text::contains_text(e, "interactiveauthorizationrequired"@)
    ||| text::contains_text(e, "interactive authentication"@)
    ||| text::contains_text(e, "notauthorized"@)
    ||| text::contains_text(e, "not authorized"@)
    ||| text::contains_text(e, "permission denied"@)
}

/// Whether an unlock failed because the system refuses it, for want of a rule
/// that allows it: that is permanent, and for the user to mend. Every other
/// failure is worth another try.
pub fn is_unlock_denied(err: &str) -> (r: bool)
    ensures
        r == tells_denied(text::ascii_lowered(err@)),
{
    let lower = to_ascii_lowercase(err);
    let e = lower.as_str();
    contains(e, "accessdenied") || contains(e, "access denied") || contains(
        e,
        "interactiveauthorizationrequired",
    ) || contains(e, "interactive authentication") || contains(e, "notauthorized") || contains(
        e,
        "not authorized",
    ) || contains(e, "permission denied")
}

/// A session that the login manager knows of.
#[derive(Debug)]
pub struct LoginSession {
    pub uid: u32,
    /// The seat; empty for a session without a screen.
    pub seat: String,
    pub path: String,
}

/// The place of the first session of `uid` that has a seat, when `seated`, or of
/// any; or the number of sessions.
pub open spec fn place_of(v: Seq<LoginSession>, uid: u32, seated: bool) -> int
    decreases v.len(),
{
    if v.len() == 0 || (v[0].uid == uid && (!seated || v[0].seat@.len() > 0)) {
        0
    } else {
        1 + place_of(v.drop_first(), uid, seated)
    }
}

/// Finds the first session of `uid` that has a seat, when `seated`, or any.
fn find_session(v: &Vec<LoginSession>, uid: u32, seated: bool) -> (r: usize)
    ensures
        r <= v@.len(),
        r == place_of(v@, uid, seated),
{
    let mut i: usize = 0;
    assert(v@.skip(0) =~= v@);
    while i < v.len()
        invariant
            i <= v@.len(),
            place_of(v@, uid, seated) == i + place_of(v@.skip(i as int), uid, seated),
        decreases v.len() - i,
    {
        assert(v@.skip(i as int)[0] == v@[i as int]);
        assert(v@.skip(i as int).drop_first() =~= v@.skip(i + 1));
        if v[i].uid == uid && (!seated || chars_of(v[i].seat.as_str()).len() > 0) {
            return i;
        }
        i += 1;
    }
    i
}

/// The session of this user: the first with a seat, and without one the first of
/// all.
pub fn graphical_session_path(sessions: &Vec<LoginSession>, uid: u32) -> (r: Result<String, String>)
    ensures
        ({
            let seated = place_of(sessions@, uid, true);
            let any = place_of(sessions@, uid, false);
            if seated < sessions@.len() {
                r is Ok && r->Ok_0@ == sessions@[seated].path@
            } else if any < sessions@.len() {
                r is Ok && r->Ok_0@ == sessions@[any].path@
            } else {
                r is Err && r->Err_0@ == "no logind session for this user"@
            }
        }),
{
    let seated: usize = find_session(sessions, uid, true);
    if seated < sessions.len() {
        return Ok(sessions[seated].path.as_str().to_string());
    }
    let any: usize = find_session(sessions, uid, false);
    if any < sessions.len() {
        return Ok(sessions[any].path.as_str().to_string());
    }
    Err("no logind session for this user".to_string())
}

/// A call that may fail, of those that lock, unlock or watch.
#[derive(Debug, Clone, Copy, PartialEq, Eq, Structural)]
pub enum BusCall {
    Manager,
    ListSessions,
    Uid,
    Session,
    SystemBus,
    Lock,
    Unlock,
}

/// What is said of a call that failed.
pub open spec fn bus_failure(call: BusCall, e: Seq<char>) -> Seq<char> {
    match call {
        BusCall::Manager => "login1 manager proxy: "@ + e,
        BusCall::ListSessions => "ListSessions: "@ + e,
        BusCall::Uid => "uid lookup: "@ + e,
        BusCall::Session => "login1 session proxy: "@ + e,
        BusCall::SystemBus => "system bus: "@ + e,
        BusCall::Lock => "logind Lock: "@ + e,
        BusCall::Unlock => "logind Unlock: "@ + e
            + " (missing the one-time rule? run: sudo linux/packaging/install-unlock-rule.sh)"@,
    }
}

/// What is said of a call that failed. Of an unlock it says what may be missing.
pub fn bus_failed(call: BusCall, e: &str) -> (r: String)
    ensures
        r@ == bus_failure(call, e@),
{
    let head = match call {
        BusCall::Manager => "login1 manager proxy: ",
        BusCall::ListSessions => "ListSessions: ",
        BusCall::Uid => "uid lookup: ",
        BusCall::Session => "login1 session proxy: ",
        BusCall::SystemBus => "system bus: ",
        BusCall::Lock => "logind Lock: ",
        BusCall::Unlock => "logind Unlock: ",
    };
    let mut m = head.to_string();
    m.append(e);
    match call {
        BusCall::Unlock => {
            m.append(
                " (missing the one-time rule? run: sudo linux/packaging/install-unlock-rule.sh)",
            );
        },
        _ => {},
    }
    m
}

/// The time since the last input, in milliseconds, as the login manager tells it:
/// none while the user is not idle.
pub fn logind_idle_ms(idle: bool, since_us: u64, now_us: u64) -> (r: u64)
    ensures
        r == if !idle || now_us <= since_us {
            0
        } else {
            (now_us - since_us) / 1000
        },
{
    if !idle {
        return 0;
    }
    now_us.saturating_sub(since_us) / 1000
}

/// The time since the last input, in milliseconds, from the first source that
/// knows it: the compositor, the screen saver (which counts seconds), the login
/// manager.
pub fn idle_ms(compositor: Option<u64>, saver_secs: Option<u32>, login: Option<u64>) -> (r: Option<
    u64,
>)
    ensures
        r == match (compositor, saver_secs) {
            (Some(ms), _) => Some(ms),
            (None, Some(s)) => Some((s * 1000) as u64),
            (None, None) => login,
        },
{
    match compositor {
        Some(ms) => Some(ms),
        None => match saver_secs {
            Some(s) => Some(s as u64 * 1000),
            None => login,
        },
    }
}

/// The user counts as away after so many milliseconds.
pub const AWAY_MS: u64 = 3_000;

/// The user counts as back below so many milliseconds.
pub const BACK_MS: u64 = 1_500;

/// Of two looks in a row the first found the user away and the second back.
pub open spec fn is_return(prev: u64, cur: u64) -> bool {
    prev >= AWAY_MS && cur < BACK_MS
}

/// Notices that the user is back, by looking now and then.
pub struct ActiveWatch {
    pub prev: u64,
}

impl ActiveWatch {
    /// Begins to look. Without any source there is nothing to look at.
    pub fn begin(first: Option<u64>) -> (r: Result<Self, String>)
        ensures
            match first {
                Some(ms) => r is Ok && r->Ok_0.prev == ms,
                None => r is Err && r->Err_0@
                    == "no idle source available for user-active polling"@,
            },
    {
        match first {
            Some(ms) => Ok(ActiveWatch { prev: ms }),
            None => Err("no idle source available for user-active polling".to_string()),
        }
    }

    /// Takes the look that the next ones are compared with, once the watch runs. One
    /// that finds nothing counts as the user being there.
    pub fn settle(&mut self, idle: Option<u64>)
        ensures
            final(self).prev == match idle {
                Some(ms) => ms,
                None => 0,
            },
    {
        self.prev = match idle {
            Some(ms) => ms,
            None => 0,
        };
    }

    /// Looks again. A look that finds nothing counts as the one before.
    pub fn poll(&mut self, idle: Option<u64>) -> (back: bool)
        ensures
            ({
                let cur = match idle {
                    Some(ms) => ms,
                    None => old(self).prev,
                };
                back == is_return(old(self).prev, cur) && final(self).prev == cur
            }),
    {
        let cur: u64 = match idle {
            Some(ms) => ms,
            None => self.prev,
        };
        let back = self.prev >= AWAY_MS && cur < BACK_MS;
        self.prev = cur;
        back
    }
}

/// The watch fires once for each return: right after it fired it cannot fire
/// again, since the user is no longer away.
pub proof fn lemma_fires_once(prev: u64, cur: u64, next: u64)
    requires
        is_return(prev, cur),
    ensures
        !is_return(cur, next),
{
}

/// Whether a watch of the compositor that fired is the one that was set: each one
/// fires once and is then set anew.
pub fn is_our_watch(fired: Option<u32>, set: u32) -> (r: bool)
    ensures
        r == (fired == Some(set)),
{
    match fired {
        Some(id) => id == set,
        None => false,
    }
}

/// What a change of properties says of the lock: only that of a session counts.
pub fn locked_change(interface: &str, locked_hint: Option<bool>) -> (r: Option<bool>)
    ensures
        r == if interface@ == "org.freedesktop.login1.Session"@ {
            locked_hint
        } else {
            None
        },
{
    if same_text(interface, "org.freedesktop.login1.Session") {
        locked_hint
    } else {
        None
    }
}

/// An unlock counts as refused by the system when the error says so in one of seven ways,
/// whatever its capitals and what stands around it.
pub proof fn lemma_refusal_is_recognised(
    err: &str,
    r: bool,
    pre: Seq<char>,
    word: Seq<char>,
    post: Seq<char>,
)
    requires
        call_ensures(is_unlock_denied, (err,), r),
        err@ == pre + word + post,
        ({
            let w = text::ascii_lowered(word);
            ||| w == "accessdenied"@
            ||| w == "access denied"@
            ||| w == "interactiveauthorizationrequired"@
            ||| w == "interactive authentication"@
            ||| w == "notauthorized"@
            ||| w == "not authorized"@
            ||| w == "permission denied"@
        }),
    ensures
        r,
{
    let e = text::ascii_lowered(err@);
    let w = text::ascii_lowered(word);
    assert(e.subrange(pre.len() as int, (pre.len() + w.len()) as int) =~= w);
    assert(text::occurs_at(e, w, pre.len() as int));
}

/// An error that says none of these is worth another try.
pub proof fn lemma_other_failures_are_tried_again(err: &str, r: bool)
    requires
        call_ensures(is_unlock_denied, (err,), r),
    ensures
        r ==> {
            let e = text::ascii_lowered(err@);
            ||| text::contains_text(e, "accessdenied"@)
            ||| text::contains_text(e, "access denied"@)
            ||| text::contains_text(e, "interactiveauthorizationrequired"@)
            ||| text::contains_text(e, "interactive authentication"@)
            ||| text::contains_text(e, "notauthorized"@)
            ||| text::contains_text(e, "not authorized"@)
            ||| text::contains_text(e, "permission denied"@)
        },
{
}

proof fn lemma_place_is_first(v: Seq<LoginSession>, uid: u32, seated: bool, i: int)
    requires
        0 <= i < v.len(),
        v[i].uid == uid && (!seated || v[i].seat@.len() > 0),
    ensures
        0 <= place_of(v, uid, seated) <= i,
        v[place_of(v, uid, seated)].uid == uid,
        seated ==> v[place_of(v, uid, seated)].seat@.len() > 0,
    decreases v.len(),
{
    if !(v[0].uid == uid && (!seated || v[0].seat@.len() > 0)) {
        assert(v.drop_first()[i - 1] == v[i]);
        lemma_place_is_first(v.drop_first(), uid, seated, i - 1);
    }
}

proof fn lemma_place_is_none(v: Seq<LoginSession>, uid: u32, seated: bool)
    requires
        forall|i: int| 0 <= i < v.len() ==> !((#[trigger] v[i]).uid == uid && (!seated
            || v[i].seat@.len() > 0)),
    ensures
        place_of(v, uid, seated) == v.len(),
    decreases v.len(),
{
    if v.len() > 0 {
        assert(v[0].uid != uid || (seated && v[0].seat@.len() == 0));
        assert forall|i: int| 0 <= i < v.drop_first().len() implies !((#[trigger] v.drop_first()[i]).uid
            == uid && (!seated || v.drop_first()[i].seat@.len() > 0)) by {
            assert(v[i + 1] == v.drop_first()[i]);
        }
        lemma_place_is_none(v.drop_first(), uid, seated);
    }
}

/// The session that is locked is one of this user, and one at a screen wherever the user has one.
pub proof fn lemma_session_is_the_users(
    sessions: &Vec<LoginSession>,
    uid: u32,
    r: Result<String, String>,
    i: int,
)
    requires
        call_ensures(graphical_session_path, (sessions, uid), r),
        0 <= i < sessions@.len(),
        sessions@[i].uid == uid,
    ensures
        r is Ok,
        exists|k: int|
            {
                &&& 0 <= k < sessions@.len()
                &&& (#[trigger] sessions@[k]).uid == uid
                &&& r->Ok_0@ == sessions@[k].path@
                &&& sessions@[i].seat@.len() > 0 ==> k <= i && sessions@[k].seat@.len() > 0
            },
{
    let v = sessions@;
    lemma_place_is_first(v, uid, false, i);
    if exists|j: int| 0 <= j < v.len() && (#[trigger] v[j]).uid == uid && v[j].seat@.len() > 0 {
        let j = choose|j: int|
            0 <= j < v.len() && (#[trigger] v[j]).uid == uid && v[j].seat@.len() > 0;
        lemma_place_is_first(v, uid, true, j);
        if v[i].seat@.len() > 0 {
            lemma_place_is_first(v, uid, true, i);
        }
        assert(r->Ok_0@ == v[place_of(v, uid, true)].path@);
    } else {
        assert forall|j: int| 0 <= j < v.len() implies !((#[trigger] v[j]).uid == uid
            && v[j].seat@.len() > 0) by {}
        lemma_place_is_none(v, uid, true);
        assert(r->Ok_0@ == v[place_of(v, uid, false)].path@);
    }
}

/// Without a session of this user there is nothing to lock.
pub proof fn lemma_nobody_elses_session(
    sessions: &Vec<LoginSession>,
    uid: u32,
    r: Result<String, String>,
)
    requires
        call_ensures(graphical_session_path, (sessions, uid), r),
        forall|i: int| 0 <= i < sessions@.len() ==> (#[trigger] sessions@[i]).uid != uid,
    ensures
        r is Err,
{
    lemma_place_is_none(sessions@, uid, true);
    lemma_place_is_none(sessions@, uid, false);
}

/// What is said of a failure names the call and repeats the error; of an unlock it also says
/// what to do.
pub proof fn lemma_failures_name_the_call(e: Seq<char>)
    ensures
        bus_failure(BusCall::Manager, e) == "login1 manager proxy: "@ + e,
        bus_failure(BusCall::ListSessions, e) == "ListSessions: "@ + e,
        bus_failure(BusCall::Uid, e) == "uid lookup: "@ + e,
        bus_failure(BusCall::Session, e) == "login1 session proxy: "@ + e,
        bus_failure(BusCall::SystemBus, e) == "system bus: "@ + e,
        bus_failure(BusCall::Lock, e) == "logind Lock: "@ + e,
        bus_failure(BusCall::Unlock, e) == "logind Unlock: "@ + e
            + " (missing the one-time rule? run: sudo linux/packaging/install-unlock-rule.sh)"@,
{
}

/// How long the user has been away: by the compositor, without it by the screen saver, and
/// without both by the login manager, which counts microseconds since the last input.
pub proof fn lemma_how_long_away(
    compositor: Option<u64>,
    saver: Option<u32>,
    login: Option<u64>,
    r: Option<u64>,
    idle: bool,
    since_us: u64,
    now_us: u64,
    ms: u64,
)
    requires
        call_ensures(idle_ms, (compositor, saver, login), r),
        call_ensures(logind_idle_ms, (idle, since_us, now_us), ms),
    ensures
        compositor is Some ==> r == compositor,
        compositor is None && saver is Some ==> r is Some && r->0 == saver->0 * 1000,
        compositor is None && saver is None ==> r == login,
        !idle ==> ms == 0,
        now_us < since_us ==> ms == 0,
        idle && since_us <= now_us ==> ms * 1000 <= now_us - since_us < ms * 1000 + 1000,
{
}

/// The user is back when a look finds less than a second and a half since the last input, and
/// the look before found three seconds or more. A look that finds nothing changes nothing.
pub proof fn lemma_when_the_user_is_back(
    first: Option<u64>,
    begun: Result<ActiveWatch, String>,
    settled: &mut ActiveWatch,
    at_rest: Option<u64>,
    w: &mut ActiveWatch,
    idle: Option<u64>,
    back: bool,
)
    requires
        call_ensures(ActiveWatch::begin, (first,), begun),
        call_ensures(ActiveWatch::settle, (settled, at_rest), ()),
        call_ensures(ActiveWatch::poll, (w, idle), back),
    ensures
        begun is Ok <==> first is Some,
        begun is Ok ==> begun->Ok_0.prev == first->0,
        at_rest is Some ==> final(settled).prev == at_rest->0,
        at_rest is None ==> final(settled).prev == 0,
        idle is None ==> !back && final(w).prev == old(w).prev,
        idle is Some ==> final(w).prev == idle->0,
        idle is Some ==> (back <==> old(w).prev >= 3_000 && idle->0 < 1_500),
{
}

/// Only the watch that was set counts, and only what a session says of its lock.
pub proof fn lemma_whose_signal_counts(
    fired: Option<u32>,
    set: u32,
    ours: bool,
    interface: &str,
    hint: Option<bool>,
    r: Option<bool>,
)
    requires
        call_ensures(is_our_watch, (fired, set), ours),
        call_ensures(locked_change, (interface, hint), r),
    ensures
        ours <==> fired is Some && fired->0 == set,
        interface@ == "org.freedesktop.login1.Session"@ ==> r == hint,
        interface@ != "org.freedesktop.login1.Session"@ ==> r is None,
{
}

/// What is said where there is no session, and no way to tell how long the user has been away.
pub proof fn lemma_nothing_to_watch_in_words(
    sessions: &Vec<LoginSession>,
    uid: u32,
    r: Result<String, String>,
    w: Result<ActiveWatch, String>,
)
    requires
        call_ensures(graphical_session_path, (sessions, uid), r),
        call_ensures(ActiveWatch::begin, (None::<u64>,), w),
    ensures
        r is Err ==> r->Err_0@ == "no logind session for this user"@,
        w is Err && w->Err_0@ == "no idle source available for user-active polling"@,
{
}

} // verus!
