//! Locking and unlocking the desktop session.

use vstd::prelude::*;

use crate::platform::Host;

verus! {

/// Locking and unlocking the session.
pub trait SessionControl {
    /// Unlocking can work.
    spec fn unlockable(&self) -> bool;

    /// Why unlocking cannot work, where it cannot.
    spec fn refusal(&self) -> Seq<char>;

    /// Whether unlocking can work at all.
    fn can_unlock(&self) -> (r: bool)
        ensures
            r == self.unlockable(),
    ;

    /// Whether a request to unlock may go to the system; where it can never work,
    /// why not.
    fn unlock(&self) -> (r: Result<(), String>)
        ensures
            r is Ok <==> self.unlockable(),
            r is Err ==> r->Err_0@ == self.refusal(),
    ;
}

/// The session on Linux, which the login manager can unlock.
pub struct LinuxSession;

/// The session on Windows, which only the user can unlock.
pub struct WindowsSession;

impl SessionControl for LinuxSession {
    open spec fn unlockable(&self) -> bool {
        true
    }

    open spec fn refusal(&self) -> Seq<char> {
        Seq::empty()
    }

    fn can_unlock(&self) -> (r: bool) {
        true
    }

    fn unlock(&self) -> (r: Result<(), String>) {
        Ok(())
    }
}

impl SessionControl for WindowsSession {
    open spec fn unlockable(&self) -> bool {
        false
    }

    open spec fn refusal(&self) -> Seq<char> {
        "windows cannot unlock a session programmatically"@
    }

    fn can_unlock(&self) -> (r: bool) {
        false
    }

    fn unlock(&self) -> (r: Result<(), String>) {
        Err("windows cannot unlock a session programmatically".to_owned())
    }
}

/// What Windows says of a session.
pub struct SessionInfo {
    /// How many bytes it gave.
    pub bytes: usize,
    /// The level of the information.
    pub level: u32,
    /// The flags of the session.
    pub flags: i32,
}

impl WindowsSession {
    /// Whether the session is locked, as far as the system says: an answer that
    /// is too short or of another level says nothing.
    pub fn query_session_locked(info: Option<SessionInfo>, size: usize, locked: i32) -> (r: Option<
        bool,
    >)
        ensures
            r == (match info {
                Some(i) => if i.bytes >= size && i.level == 1 {
                    Some(i.flags == locked)
                } else {
                    None
                },
                None => None,
            }),
    {
        match info {
            Some(i) => if i.bytes >= size && i.level == 1 {
                Some(i.flags == locked)
            } else {
                None
            },
            None => None,
        }
    }
}

/// The session of this machine.
pub enum HostSession {
    Linux(LinuxSession),
    Windows(WindowsSession),
}

impl SessionControl for HostSession {
    open spec fn unlockable(&self) -> bool {
        self is Linux
    }

    open spec fn refusal(&self) -> Seq<char> {
        match self {
            HostSession::Linux(s) => s.refusal(),
            HostSession::Windows(s) => s.refusal(),
        }
    }

    fn can_unlock(&self) -> (r: bool) {
        match self {
            HostSession::Linux(s) => s.can_unlock(),
            HostSession::Windows(s) => s.can_unlock(),
        }
    }

    fn unlock(&self) -> (r: Result<(), String>) {
        match self {
            HostSession::Linux(s) => s.unlock(),
            HostSession::Windows(s) => s.unlock(),
        }
    }
}

/// The session of the system that this machine runs.
pub fn session(host: Host) -> (r: HostSession)
    ensures
        r is Linux <==> host == Host::Linux,
        r.unlockable() <==> host == Host::Linux,
{
    match host {
        Host::Linux => HostSession::Linux(LinuxSession),
        Host::Windows => HostSession::Windows(WindowsSession),
    }
}

/// Linux can be unlocked, and Windows cannot: it says why.
pub proof fn lemma_who_can_unlock(host: Host, s: HostSession, can: bool, r: Result<(), String>)
    requires
        call_ensures(session, (host,), s),
        call_ensures(HostSession::can_unlock, (&s,), can),
        call_ensures(HostSession::unlock, (&s,), r),
    ensures
        can <==> host is Linux,
        r is Ok <==> host is Linux,
        host is Windows ==> r->Err_0@ == "windows cannot unlock a session programmatically"@,
{
}

/// The session is locked when a full answer of level one says so, and otherwise it is not known.
pub proof fn lemma_lock_is_asked_for(
    info: Option<SessionInfo>,
    size: usize,
    locked: i32,
    r: Option<bool>,
)
    requires
        call_ensures(WindowsSession::query_session_locked, (info, size, locked), r),
    ensures
        r is Some <==> info is Some && (info->0).bytes >= size && (info->0).level == 1,
        r is Some ==> (r->0 <==> (info->0).flags == locked),
{
}

} // verus!
